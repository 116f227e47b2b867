//! The persisted configuration: one global record and one state record
//! per tracked unit, with the repair pass that reconciles it against the
//! binary directory.

use vstd::prelude::*;
use crate::policy::{state_wf, AppState, AppStateModel};
use crate::text::prefix_at;
use crate::text::starts_with;
use crate::version::Version;

verus! {

/// Text that the state file can carry verbatim: free of quotes.
pub open spec fn plain_text(s: Seq<char>) -> bool {
    forall|k: int| 0 <= k < s.len() ==> s[k] != '"'
}

/// Whether text can stand verbatim in the state file; callers outside
/// the verified core test it before building a configuration.
pub fn is_plain(s: &str) -> (r: bool)
    ensures
        r == plain_text(s@),
{
    let n = s.unicode_len();
    let mut k: usize = 0;
    while k < n
        invariant
            0 <= k <= n,
            n == s@.len(),
            forall|j: int| 0 <= j < k ==> s@[j] != '"',
        decreases n - k,
    {
        if s.get_char(k) == '"' {
            return false;
        }
        k = k + 1;
    }
    true
}

/// Host-wide settings: the OS identifier used for asset matching.
#[derive(Debug)]
pub struct GlobalConfig {
    pub system: String,
}

impl View for GlobalConfig {
    type V = Seq<char>;

    open spec fn view(&self) -> Seq<char> {
        self.system@
    }
}

/// The whole persisted state: global settings plus one record for the
/// launcher and each managed app.
#[derive(Debug)]
pub struct LauncherConfig {
    pub global: GlobalConfig,
    pub launcher: AppState,
    pub ri_learn: AppState,
    pub ri_stack: AppState,
}

/// The mathematical shape of the persisted state.
#[verifier::ext_equal]
pub struct LauncherConfigModel {
    pub system: Seq<char>,
    pub launcher: AppStateModel,
    pub ri_learn: AppStateModel,
    pub ri_stack: AppStateModel,
}

impl View for LauncherConfig {
    type V = LauncherConfigModel;

    open spec fn view(&self) -> LauncherConfigModel {
        LauncherConfigModel {
            system: self.global@,
            launcher: self.launcher@,
            ri_learn: self.ri_learn@,
            ri_stack: self.ri_stack@,
        }
    }
}

/// A well-formed configuration at the model level.
pub open spec fn config_wf(m: LauncherConfigModel) -> bool {
    &&& plain_text(m.system)
    &&& state_wf(m.launcher)
    &&& state_wf(m.ri_learn)
    &&& state_wf(m.ri_stack)
}

/// Some entry of the binary directory carries the app's name prefix.
pub open spec fn some_entry_matches(entries: Seq<Seq<char>>, prefix: Seq<char>) -> bool {
    exists|k: int| 0 <= k < entries.len() && prefix_at(#[trigger] entries[k], 0, prefix)
}

impl LauncherConfig {
    /// Well-formed: every record is, and the system text is plain.
    pub open spec fn wf(&self) -> bool {
        config_wf(self@)
    }

    /// The starting state: the launcher's record is seeded with the
    /// running version, the managed apps' records are empty.
    pub fn new(launcher_version: Version, system: String) -> (r: Self)
        requires
            launcher_version.wf(),
            plain_text(system@),
        ensures
            r.wf(),
            r@.system == system@,
            r@.launcher.version == Some(launcher_version@),
            r@.launcher.last_check is None,
            r@.ri_learn.version is None,
            r@.ri_learn.last_check is None,
            r@.ri_stack.version is None,
            r@.ri_stack.last_check is None,
    {
        LauncherConfig {
            global: GlobalConfig { system },
            launcher: AppState { version: Some(launcher_version), last_check: None },
            ri_learn: AppState::empty(),
            ri_stack: AppState::empty(),
        }
    }

    /// The repair pass: stamps the launcher's record with the running
    /// version, and resets the managed app's record exactly when no
    /// entry of the binary directory carries its name prefix.
    pub fn repair(&mut self, current_version: Version, app_prefix: &str, bin_entries: &Vec<String>)
        requires
            old(self).wf(),
            current_version.wf(),
        ensures
            final(self).wf(),
            final(self)@.system == old(self)@.system,
            final(self)@.ri_stack == old(self)@.ri_stack,
            final(self)@.launcher.version == Some(current_version@),
            final(self)@.launcher.last_check == old(self)@.launcher.last_check,
            some_entry_matches(bin_entries.deep_view(), app_prefix@) ==> final(self)@.ri_learn
                == old(self)@.ri_learn,
            !some_entry_matches(bin_entries.deep_view(), app_prefix@) ==> final(self)@
                .ri_learn.version is None && final(self)@.ri_learn.last_check is None,
    {
        let ghost cv = current_version@;
        self.launcher.version = Some(current_version);
        let n = bin_entries.len();
        let mut i: usize = 0;
        while i < n
            invariant
                0 <= i <= n,
                n == bin_entries@.len(),
                self.wf(),
                self@.system == old(self)@.system,
                self@.ri_stack == old(self)@.ri_stack,
                self@.ri_learn == old(self)@.ri_learn,
                cv == current_version@,
                self@.launcher.version == Some(cv),
                self@.launcher.last_check == old(self)@.launcher.last_check,
                forall|k: int| 0 <= k < i ==> !prefix_at(
                    #[trigger] bin_entries.deep_view()[k],
                    0,
                    app_prefix@,
                ),
            decreases n - i,
        {
            if starts_with(bin_entries[i].as_str(), app_prefix) {
                proof {
                    assert(prefix_at(bin_entries.deep_view()[i as int], 0, app_prefix@));
                }
                return ;
            }
            i = i + 1;
        }
        self.ri_learn.reset();
    }
}

} // verus!
