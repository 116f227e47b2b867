//! The state store: path derivation for the cache, adoption of a
//! previously persisted state file, and the repair pass.  Reading and
//! writing the file itself is the caller's plumbing; the store decides
//! what the bytes mean.

use vstd::prelude::*;
use crate::codec::{config_chars, parse_config, render_config, stamps_ok};
use crate::config::{config_wf, plain_text, some_entry_matches, LauncherConfig, LauncherConfigModel};
use crate::errors::Error;
use crate::version::Version;

verus! {

/// Relies on dirs' `cache_dir`: the per-user cache location, where the
/// platform reports one that is valid text.  What it is depends on the
/// host, so nothing is promised of the value.
#[verifier::external_body]
fn host_cache_dir() -> (r: Option<String>) {
    dirs::cache_dir().and_then(|p| p.into_os_string().into_string().ok())
}

/// The state store: the cache locations and the configuration they hold.
#[derive(Debug)]
pub struct Cacher {
    pub cache_dir: String,
    pub bin_dir: String,
    pub state_path: String,
    pub state: LauncherConfig,
}

impl Cacher {
    /// Well-formed: the configuration is, and the binary directory and
    /// state file live under the cache root.
    pub open spec fn wf(&self) -> bool {
        &&& self.state.wf()
        &&& self.bin_dir@ == self.cache_dir@ + ("/bin")@
        &&& self.state_path@ == self.cache_dir@ + ("/launcher.toml")@
    }

    /// Pure path derivation from a given cache root: the cache directory
    /// is the root's own subdirectory, the binary directory and the
    /// state file hang under it, and the configuration is freshly
    /// seeded.  No filesystem is touched.
    pub fn derive_paths(root: String, launcher_version: Version, system: String) -> (c: Cacher)
        requires
            launcher_version.wf(),
            plain_text(system@),
        ensures
            c.wf(),
            c.cache_dir@ == root@ + ("/rustinsight")@,
            c.bin_dir@ == c.cache_dir@ + ("/bin")@,
            c.state_path@ == c.cache_dir@ + ("/launcher.toml")@,
            c.state@.system == system@,
            c.state@.launcher.version == Some(launcher_version@),
            c.state@.launcher.last_check is None,
            c.state@.ri_learn.version is None,
            c.state@.ri_learn.last_check is None,
            c.state@.ri_stack.version is None,
            c.state@.ri_stack.last_check is None,
    {
        let mut cache_dir = root;
        cache_dir.append("/rustinsight");
        let mut bin_dir = cache_dir.clone();
        bin_dir.append("/bin");
        let mut state_path = cache_dir.clone();
        state_path.append("/launcher.toml");
        let state = LauncherConfig::new(launcher_version, system);
        Cacher { cache_dir, bin_dir, state_path, state }
    }

    /// Asks the platform for the per-user cache location and derives the
    /// store from it; what the location is depends on the host, so only
    /// the derivation's shape can be promised.  Fails exactly when the
    /// platform reports no usable location.
    pub fn create(launcher_version: Version, system: String) -> (r: Result<Cacher, Error>)
        requires
            launcher_version.wf(),
            plain_text(system@),
        ensures
            match r {
                Ok(c) => {
                    &&& c.wf()
                    &&& c.cache_dir@.len() >= ("/rustinsight")@.len()
                    &&& c.cache_dir@.subrange(
                        c.cache_dir@.len() - ("/rustinsight")@.len(),
                        c.cache_dir@.len() as int,
                    ) == ("/rustinsight")@
                    &&& c.state@.system == system@
                    &&& c.state@.launcher.version == Some(launcher_version@)
                    &&& c.state@.launcher.last_check is None
                    &&& c.state@.ri_learn.version is None
                    &&& c.state@.ri_learn.last_check is None
                    &&& c.state@.ri_stack.version is None
                    &&& c.state@.ri_stack.last_check is None
                },
                Err(e) => e == Error::DirectoryUnavailableError,
            },
    {
        let root = match host_cache_dir() {
            Some(root) => root,
            None => {
                return Err(Error::DirectoryUnavailableError);
            },
        };
        let c = Cacher::derive_paths(root, launcher_version, system);
        proof {
            assert(c.cache_dir@.subrange(
                c.cache_dir@.len() - ("/rustinsight")@.len(),
                c.cache_dir@.len() as int,
            ) =~= ("/rustinsight")@);
        }
        Ok(c)
    }

    /// The directory the managed binaries are unpacked into.
    pub fn bin_dir(&self) -> (r: &String)
        ensures
            r@ == self.bin_dir@,
    {
        &self.bin_dir
    }

    /// The path of the persisted state file.
    pub fn state_path(&self) -> (r: &String)
        ensures
            r@ == self.state_path@,
    {
        &self.state_path
    }

    /// The cache root, removed wholesale by a clean.
    pub fn cache_dir(&self) -> (r: &String)
        ensures
            r@ == self.cache_dir@,
    {
        &self.cache_dir
    }

    /// Adopts the persisted state file's text.  `None` — no file could
    /// be read — and text that is not the canonical rendering of any
    /// well-formed configuration both silently keep the state the store
    /// already holds: this is the only swallowed failure in the core.
    pub fn load_state(&mut self, contents: Option<&str>)
        requires
            old(self).wf(),
        ensures
            final(self).wf(),
            final(self).cache_dir@ == old(self).cache_dir@,
            contents is None ==> final(self).state@ == old(self).state@,
            contents matches Some(t) ==> (final(self).state@ == old(self).state@ || (t@
                == config_chars(final(self).state@) && stamps_ok(final(self).state@))),
            forall|m: LauncherConfigModel|
                config_wf(m) && stamps_ok(m) && (contents matches Some(t) && t@ == config_chars(m))
                    ==> final(self).state@ == m,
    {
        match contents {
            None => {},
            Some(text) => {
                match parse_config(text) {
                    Some(cfg) => {
                        self.state = cfg;
                    },
                    None => {},
                }
            },
        }
    }

    /// The repair pass over the listed binary-directory entries: stamps
    /// the launcher's version and resets the managed app exactly when no
    /// entry carries its prefix.  Listing the directory is the caller's
    /// job, and a listing failure is fatal there, not swallowed here.
    pub fn repair_config(
        &mut self,
        current_version: Version,
        app_prefix: &str,
        bin_entries: &Vec<String>,
    )
        requires
            old(self).wf(),
            current_version.wf(),
        ensures
            final(self).wf(),
            final(self).cache_dir@ == old(self).cache_dir@,
            final(self).state@.system == old(self).state@.system,
            final(self).state@.ri_stack == old(self).state@.ri_stack,
            final(self).state@.launcher.version == Some(current_version@),
            final(self).state@.launcher.last_check == old(self).state@.launcher.last_check,
            some_entry_matches(bin_entries.deep_view(), app_prefix@) ==> final(self).state@.ri_learn
                == old(self).state@.ri_learn,
            !some_entry_matches(bin_entries.deep_view(), app_prefix@) ==> final(self).state@
                .ri_learn.version is None && final(self).state@.ri_learn.last_check is None,
    {
        self.state.repair(current_version, app_prefix, bin_entries);
    }

    /// The text to persist: the configuration's canonical rendering.
    /// With a well-formed store serialization cannot fail; writing the
    /// text out is the caller's job and its failure propagates there.
    pub fn render_state(&self) -> (r: String)
        requires
            self.wf(),
        ensures
            r@ == config_chars(self.state@),
            stamps_ok(self.state@),
    {
        render_config(&self.state)
    }
}

} // verus!
