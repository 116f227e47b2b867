//! The installer's decision pipeline: whether to attempt an update,
//! what to do with a fetched release, how a sized download progresses,
//! and what a completed install records.
//!
//! On a failed attempt nothing is recorded: the throttle timestamp
//! advances only when a check completes, so the next run retries
//! immediately rather than waiting out the window.

use vstd::prelude::*;
use crate::errors::Error;
use crate::policy::{outdated_spec, update_required_spec, valid_ts, AppState};
use crate::release::{asset_name_chars, effective_os, Release};
use crate::version::Version;

verus! {

/// What to do about a fetched release.
#[derive(Debug)]
pub enum InstallPlan {
    /// The stored version is already current: record the check, skip
    /// the download.
    AlreadyCurrent,
    /// The release is newer: download this asset and unpack it.
    Download { url: String },
}

/// An update pass is attempted when the policy requires one or the
/// caller forces it.
pub fn should_attempt(state: &AppState, now: i64, force: bool) -> (r: bool)
    requires
        state.wf(),
        valid_ts(now),
    ensures
        r == (update_required_spec(state@, now) || force),
{
    state.is_update_required(now) || force
}

/// Decides what a fetched release means for the stored state: nothing
/// to do when it is not newer, the matching asset's URL when it is, and
/// `NotFoundError` when it is newer but no asset fits.
pub fn plan_update(
    state: &AppState,
    release: &Release,
    app_name: &str,
    system: Option<&str>,
    host_os: &str,
    arch: &str,
) -> (r: Result<InstallPlan, Error>)
    requires
        state.wf(),
        release.version.wf(),
    ensures
        match r {
            Ok(InstallPlan::AlreadyCurrent) => !outdated_spec(state@, release.version@),
            Ok(InstallPlan::Download { url }) => outdated_spec(state@, release.version@) && exists|
                k: int,
            |
                0 <= k < release.assets@.len() && (#[trigger] release.assets@[k]).name@
                    == asset_name_chars(
                    app_name@,
                    release.version@,
                    effective_os(system, host_os),
                    arch@,
                ) && url@ == release.assets@[k].browser_download_url@ && (forall|j: int|
                    0 <= j < k ==> (#[trigger] release.assets@[j]).name@ != asset_name_chars(
                        app_name@,
                        release.version@,
                        effective_os(system, host_os),
                        arch@,
                    )),
            Err(e) => e == Error::NotFoundError && outdated_spec(state@, release.version@)
                && forall|k: int|
                0 <= k < release.assets@.len() ==> (#[trigger] release.assets@[k]).name@
                    != asset_name_chars(
                    app_name@,
                    release.version@,
                    effective_os(system, host_os),
                    arch@,
                ),
        },
{
    if !state.is_outdated(release.version.clone()) {
        return Ok(InstallPlan::AlreadyCurrent);
    }
    match release.get_asset_for_os(app_name, system, host_os, arch) {
        Ok(url) => Ok(InstallPlan::Download { url }),
        Err(e) => Err(e),
    }
}

/// A sized download in progress: how much was announced up front and
/// how much has arrived.
#[derive(Debug)]
pub struct DownloadTracker {
    pub total: u64,
    pub written: u64,
}

/// A transfer needs an announced total size before it starts; its
/// absence is `SizeUnknownError`.
pub fn begin_download(content_length: Option<u64>) -> (r: Result<DownloadTracker, Error>)
    ensures
        match r {
            Ok(t) => content_length == Some(t.total) && t.written == 0,
            Err(e) => e == Error::SizeUnknownError && content_length is None,
        },
{
    match content_length {
        Some(total) => Ok(DownloadTracker { total, written: 0 }),
        None => Err(Error::SizeUnknownError),
    }
}

impl DownloadTracker {
    /// Records one received chunk, written sequentially after the bytes
    /// before it.  A transfer that would overrun the announced size is
    /// the caller's protocol error to reject.
    pub fn record_chunk(&mut self, n: u64)
        requires
            old(self).written + n <= old(self).total,
        ensures
            final(self).total == old(self).total,
            final(self).written == old(self).written + n,
    {
        self.written = self.written + n;
    }

    /// How many bytes are still owed.
    pub fn remaining(&self) -> (r: u64)
        requires
            self.written <= self.total,
        ensures
            r == self.total - self.written,
    {
        self.total - self.written
    }

    /// Exactly the announced number of bytes has arrived.
    pub fn is_complete(&self) -> (r: bool)
        ensures
            r == (self.written == self.total),
    {
        self.written == self.total
    }
}

/// A completed install: the new version is stored and the check is
/// recorded at once.
pub fn apply_success(state: &mut AppState, version: &Version, now: i64)
    requires
        old(state).wf(),
        version.wf(),
        valid_ts(now),
    ensures
        final(state).wf(),
        final(state)@.version == Some(version@),
        final(state)@.last_check == Some(now),
{
    state.version = Some(version.clone());
    state.update_check(now);
}

} // verus!
