use rustinsight::codec::{parse_config, render_config};
use rustinsight::config::{GlobalConfig, LauncherConfig};
use rustinsight::policy::AppState;
use rustinsight::version::Version;

const T: i64 = 1_700_000_000;

fn sample_config() -> LauncherConfig {
    LauncherConfig {
        global: GlobalConfig { system: String::from("linux") },
        launcher: AppState { version: Some(Version::new(0, 5, 1)), last_check: None },
        ri_learn: AppState { version: Some(Version::parse("2.0.0-beta.1").unwrap()), last_check: Some(T) },
        ri_stack: AppState { version: None, last_check: None },
    }
}

#[test]
fn config_round_trips_through_the_state_file() {
    let config = sample_config();
    let text = render_config(&config);
    let back = parse_config(&text).expect("the rendered state file must parse");
    assert_eq!(back.global.system, "linux");
    assert_eq!(back.launcher.version.unwrap(), Version::new(0, 5, 1));
    assert_eq!(back.launcher.last_check, None);
    assert_eq!(back.ri_learn.version.unwrap(), Version::parse("2.0.0-beta.1").unwrap());
    assert_eq!(back.ri_learn.last_check, Some(T));
    assert!(back.ri_stack.version.is_none());
    assert!(back.ri_stack.last_check.is_none());
}

#[test]
fn timestamps_are_persisted_as_calendar_text() {
    let config = LauncherConfig {
        global: GlobalConfig { system: String::from("linux") },
        launcher: AppState { version: None, last_check: Some(0) },
        ri_learn: AppState { version: None, last_check: None },
        ri_stack: AppState { version: None, last_check: None },
    };
    let text = render_config(&config);
    assert!(
        text.contains("last_check = \"1970-01-01T00:00:00+00:00\""),
        "unexpected rendering: {text}"
    );
    let back = parse_config(&text).unwrap();
    assert_eq!(back.launcher.last_check, Some(0));
}

#[test]
fn rendering_is_the_documented_layout() {
    let config = sample_config();
    let text = render_config(&config);
    let expected_start = "[global]\nsystem = \"linux\"\n[launcher]\nversion = \"0.5.1\"\n[ri_learn]\nversion = \"2.0.0-beta.1\"\nlast_check = \"";
    assert!(text.starts_with(expected_start), "unexpected rendering: {text}");
    assert!(text.ends_with("\"\n[ri_stack]\n"), "unexpected rendering: {text}");
}

#[test]
fn write_read_round_trip_holds_on_values() {
    let config = sample_config();
    let back = rustinsight::codec::write_read_round_trip(&config).unwrap();
    assert_eq!(back.ri_learn.version, config.ri_learn.version);
    assert_eq!(back.ri_learn.last_check, config.ri_learn.last_check);
}

#[test]
fn unreadable_text_falls_back_to_nothing() {
    assert!(parse_config("").is_none());
    assert!(parse_config("not a state file").is_none());
    assert!(parse_config("[global]\nsystem = \"linux\"\n").is_none());
    assert!(parse_config("[global]\nsystem = \"linux\"\n[launcher]\nversion = \"bogus\"\n[ri_learn]\n[ri_stack]\n").is_none());
}

#[test]
fn only_canonical_timestamp_text_is_adopted() {
    let canonical = "[global]\nsystem = \"linux\"\n[launcher]\nlast_check = \"1970-01-01T00:00:00+00:00\"\n[ri_learn]\n[ri_stack]\n";
    assert!(parse_config(canonical).is_some());
    let zulu = "[global]\nsystem = \"linux\"\n[launcher]\nlast_check = \"1970-01-01T00:00:00Z\"\n[ri_learn]\n[ri_stack]\n";
    assert!(parse_config(zulu).is_none());
}

#[test]
fn cacher_adopts_only_parsable_state() {
    let mut store = match rustinsight::cacher::Cacher::create(
        Version::new(0, 5, 1),
        String::from("linux"),
    ) {
        Ok(store) => store,
        Err(_) => return,
    };
    let persisted = render_config(&sample_config());
    store.load_state(Some(&persisted));
    assert_eq!(store.state.ri_learn.last_check, Some(T));
    let before = render_config(&store.state);
    store.load_state(Some("garbage"));
    assert_eq!(render_config(&store.state), before);
    store.load_state(None);
    assert_eq!(render_config(&store.state), before);
}

#[test]
fn cacher_paths_hang_off_the_cache_root() {
    if let Ok(store) = rustinsight::cacher::Cacher::create(Version::new(0, 5, 1), String::from("linux"))
    {
        assert!(store.cache_dir().ends_with("/rustinsight"));
        assert_eq!(*store.bin_dir(), format!("{}/bin", store.cache_dir()));
        assert_eq!(*store.state_path(), format!("{}/launcher.toml", store.cache_dir()));
    }
}
