use rustinsight::cacher::Cacher;
use rustinsight::errors::Error;
use rustinsight::fixup::{executable_mode, fix_plan, rename_target, DirEntry, FixAction};
use rustinsight::installer::{apply_success, begin_download, plan_update, should_attempt, InstallPlan};
use rustinsight::opts::{AppCommand, Opts, RunPlan, UpdateCommand};
use rustinsight::policy::AppState;
use rustinsight::release::{Asset, Release};
use rustinsight::supervisor::{ProcessSupervisor, RaceOutcome, ShutdownReport};
use rustinsight::version::Version;

const NOW: i64 = 1_700_000_000;

fn release_with(assets: Vec<Asset>) -> Release {
    Release::from_provider(
        String::from("Lab 1.0.0"),
        String::from("https://example.invalid/releases/1.0.0"),
        "1.0.0",
        assets,
    )
    .unwrap()
}

#[test]
fn asset_resolution_matches_the_naming_convention() {
    let release = release_with(vec![
        Asset {
            name: String::from("ri-lab-1.0.0-macos-aarch64.tar.gz"),
            browser_download_url: String::from("https://example.invalid/mac"),
        },
        Asset {
            name: String::from("ri-lab-1.0.0-linux-x86_64.tar.gz"),
            browser_download_url: String::from("https://example.invalid/linux"),
        },
    ]);
    let url = release.get_asset_for_os("ri-lab", None, "linux", "x86_64").unwrap();
    assert_eq!(url, "https://example.invalid/linux");
}

#[test]
fn missing_asset_is_not_found() {
    let release = release_with(vec![Asset {
        name: String::from("ri-lab-1.0.0-macos-aarch64.tar.gz"),
        browser_download_url: String::from("https://example.invalid/mac"),
    }]);
    let err = release.get_asset_for_os("ri-lab", None, "linux", "x86_64").unwrap_err();
    assert_eq!(err, Error::NotFoundError);
}

#[test]
fn system_override_takes_precedence() {
    let release = release_with(vec![Asset {
        name: String::from("ri-lab-1.0.0-windows-x86_64.tar.gz"),
        browser_download_url: String::from("https://example.invalid/win"),
    }]);
    let url = release.get_asset_for_os("ri-lab", Some("windows"), "linux", "x86_64").unwrap();
    assert_eq!(url, "https://example.invalid/win");
}

#[test]
fn latest_release_is_the_first_listed() {
    let newest = release_with(Vec::new());
    let older = Release::from_provider(String::from("old"), String::from("u"), "0.9.0", Vec::new())
        .unwrap();
    let picked = rustinsight::release::latest_release(vec![newest, older]).unwrap();
    assert_eq!(picked.version, Version::new(1, 0, 0));
    let err = rustinsight::release::latest_release(Vec::new()).unwrap_err();
    assert_eq!(err, Error::NotFoundError);
}

#[test]
fn latest_version_tag_parses_the_first_entry() {
    let v = rustinsight::release::latest_version_tag(vec![
        String::from("1.4.0"),
        String::from("1.3.9"),
    ])
    .unwrap();
    assert_eq!(v, Version::new(1, 4, 0));
    assert_eq!(
        rustinsight::release::latest_version_tag(Vec::new()).unwrap_err(),
        Error::NotFoundError
    );
    assert_eq!(
        rustinsight::release::latest_version_tag(vec![String::from("latest")]).unwrap_err(),
        Error::ParseError
    );
}

#[test]
fn first_matching_asset_wins() {
    let release = release_with(vec![
        Asset {
            name: String::from("ri-lab-1.0.0-linux-x86_64.tar.gz"),
            browser_download_url: String::from("https://example.invalid/first"),
        },
        Asset {
            name: String::from("ri-lab-1.0.0-linux-x86_64.tar.gz"),
            browser_download_url: String::from("https://example.invalid/second"),
        },
    ]);
    let url = release.get_asset_for_os("ri-lab", None, "linux", "x86_64").unwrap();
    assert_eq!(url, "https://example.invalid/first");
}

#[test]
fn bad_release_tag_is_a_parse_error() {
    let err = Release::from_provider(String::from("t"), String::from("u"), "latest", Vec::new())
        .unwrap_err();
    assert_eq!(err, Error::ParseError);
}

#[test]
fn terminate_on_idle_supervisor_is_not_running_error() {
    let mut supervisor = ProcessSupervisor::new();
    let err = supervisor.terminate().unwrap_err();
    assert_eq!(err, Error::NotRunningError);
    assert!(matches!(supervisor.terminate().unwrap_err(), Error::NotRunningError));
}

#[test]
fn race_outcomes_decide_the_shutdown_path() {
    let mut supervisor = ProcessSupervisor::new();
    let spawn = supervisor.start("/cache/bin", "ri-lab", vec![String::from("--ride")]);
    assert_eq!(spawn.path, "/cache/bin/ri-lab");
    assert_eq!(spawn.args, vec![String::from("--ride")]);
    assert_eq!(supervisor.resolve_race(RaceOutcome::Interrupted).unwrap(), ShutdownReport::Terminated);
    let _ = supervisor.start("/cache/bin", "ri-lab", Vec::new());
    assert_eq!(supervisor.resolve_race(RaceOutcome::Exited).unwrap(), ShutdownReport::Closed);
}

#[test]
fn install_pipeline_records_the_new_version() {
    let mut state = AppState { version: None, last_check: None };
    assert!(should_attempt(&state, NOW, false));
    let release = release_with(vec![Asset {
        name: String::from("ri-lab-1.0.0-linux-x86_64.tar.gz"),
        browser_download_url: String::from("https://example.invalid/linux"),
    }]);
    let plan = plan_update(&state, &release, "ri-lab", None, "linux", "x86_64").unwrap();
    let url = match plan {
        InstallPlan::Download { url } => url,
        InstallPlan::AlreadyCurrent => panic!("a fresh state must download"),
    };
    assert_eq!(url, "https://example.invalid/linux");
    let total: u64 = 4096;
    let mut tracker = begin_download(Some(total)).unwrap();
    assert!(!tracker.is_complete());
    tracker.record_chunk(4000);
    tracker.record_chunk(96);
    assert_eq!(tracker.remaining(), 0);
    assert!(tracker.is_complete());
    apply_success(&mut state, &release.version, NOW);
    assert_eq!(state.get_version().unwrap(), Version::new(1, 0, 0));
    assert_eq!(state.last_check, Some(NOW));
}

#[test]
fn current_version_skips_the_download() {
    let state = AppState { version: Some(Version::new(1, 0, 0)), last_check: None };
    let release = release_with(Vec::new());
    let plan = plan_update(&state, &release, "ri-lab", None, "linux", "x86_64").unwrap();
    assert!(matches!(plan, InstallPlan::AlreadyCurrent));
}

#[test]
fn unsized_download_is_rejected() {
    let err = begin_download(None).unwrap_err();
    assert_eq!(err, Error::SizeUnknownError);
}

#[test]
fn repair_keeps_state_while_a_binary_remains() {
    if let Ok(mut store) = Cacher::create(Version::new(0, 5, 1), String::from("linux")) {
        store.state.ri_learn = AppState { version: None, last_check: Some(NOW) };
        let entries = vec![String::from("ri-lab-1.0.0"), String::from("other")];
        store.repair_config(Version::new(0, 5, 1), "ri-lab", &entries);
        assert_eq!(store.state.ri_learn.last_check, Some(NOW));
        assert!(store.state.ri_learn.version.is_none());
    }
}

#[test]
fn repair_resets_state_when_the_binary_is_gone() {
    if let Ok(mut store) = Cacher::create(Version::new(0, 5, 1), String::from("linux")) {
        store.state.ri_learn =
            AppState { version: Some(Version::new(1, 0, 0)), last_check: Some(NOW) };
        let entries = vec![String::from("other")];
        store.repair_config(Version::new(0, 5, 1), "ri-lab", &entries);
        assert!(store.state.ri_learn.version.is_none());
        assert!(store.state.ri_learn.last_check.is_none());
        assert_eq!(store.state.launcher.version, Some(Version::new(0, 5, 1)));
    }
}

#[test]
fn dispatch_maps_commands_to_plans() {
    assert_eq!(Opts { command: None }.dispatch(), RunPlan::UpdateThenLearn);
    assert_eq!(Opts { command: Some(AppCommand::Learn) }.dispatch(), RunPlan::LearnOnly);
    assert_eq!(Opts { command: Some(AppCommand::Clean) }.dispatch(), RunPlan::CleanOnly);
    let update = AppCommand::Update(UpdateCommand { system: Some(String::from("macos")), force: true });
    assert_eq!(
        Opts { command: Some(update) }.dispatch(),
        RunPlan::UpdateOnly { system: Some(String::from("macos")), force: true }
    );
    assert!(matches!(AppCommand::default(), AppCommand::Learn));
}

#[test]
fn fixup_adds_run_access_without_removing_bits() {
    assert_eq!(executable_mode(0o644), 0o755);
    assert_eq!(executable_mode(0o777), 0o777);
    assert_eq!(executable_mode(0), 0o511);
}

#[test]
fn fixup_renames_only_extensionless_entries() {
    assert_eq!(rename_target("ri-lab").unwrap(), "ri-lab.exe");
    assert!(rename_target("ri-lab.tar.gz").is_none());
    assert_eq!(rename_target(".hidden").unwrap(), ".hidden.exe");
}

#[test]
fn fix_plan_covers_the_whole_directory() {
    let entries = vec![
        DirEntry { name: String::from("ri-lab"), mode: 0o644 },
        DirEntry { name: String::from("notes.txt"), mode: 0o600 },
    ];
    let posix = fix_plan(&entries, true);
    assert_eq!(posix.len(), 2);
    assert!(matches!(&posix[0], FixAction::SetMode { name, mode } if name == "ri-lab" && *mode == 0o755));
    assert!(matches!(&posix[1], FixAction::SetMode { name, mode } if name == "notes.txt" && *mode == 0o711));
    let renames = fix_plan(&entries, false);
    assert_eq!(renames.len(), 1);
    assert!(matches!(&renames[0], FixAction::Rename { name, new_name } if name == "ri-lab" && new_name == "ri-lab.exe"));
}

#[test]
fn error_messages_are_readable() {
    assert_eq!(Error::NotRunningError.describe(), "The app is not started");
    assert!(!Error::SizeUnknownError.describe().is_empty());
}

#[test]
fn banner_descriptor_names_the_app() {
    let info = rustinsight::app_info::learn();
    assert_eq!(info.name, "ri-lab");
    assert!(info.link.starts_with("https://api.github.com/"));
}
