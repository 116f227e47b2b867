//! Per-unit update state and the pure update policy over it: when a
//! check is due, when a fetched version is newer.

use vstd::prelude::*;
use crate::errors::Error;
use crate::version::{valid_pre, ver_lt, Version, VersionModel};

verus! {

/// Seconds in the throttle window: checks happen at most once a day.
pub const DAY_SECONDS: i64 = 86400;

/// The highest timestamp the core handles: the last second of year 9999,
/// comfortably inside what the calendar library represents.
pub const MAX_TIMESTAMP: i64 = 253402300799;

/// A timestamp the core accepts: seconds since the epoch, within range.
pub open spec fn valid_ts(t: i64) -> bool {
    0 <= t <= MAX_TIMESTAMP
}

/// A well-formed unit state at the model level: the stored version and
/// timestamp are valid.
pub open spec fn state_wf(s: AppStateModel) -> bool {
    &&& match s.version {
        Some(v) => valid_pre(v.pre),
        None => true,
    }
    &&& match s.last_check {
        Some(t) => valid_ts(t),
        None => true,
    }
}

/// Per-unit state: the installed version, if any, and the time of the
/// last update check, if one happened.
#[derive(Debug)]
pub struct AppState {
    pub version: Option<Version>,
    pub last_check: Option<i64>,
}

/// The mathematical shape of a unit's state.
#[verifier::ext_equal]
pub struct AppStateModel {
    pub version: Option<VersionModel>,
    pub last_check: Option<i64>,
}

impl View for AppState {
    type V = AppStateModel;

    open spec fn view(&self) -> AppStateModel {
        AppStateModel {
            version: match self.version {
                Some(v) => Some(v@),
                None => None,
            },
            last_check: self.last_check,
        }
    }
}

/// A check is allowed when none was recorded, or when at least a full
/// day has passed since the last one (boundary included).
pub open spec fn allowed_spec(s: AppStateModel, now: i64) -> bool {
    match s.last_check {
        None => true,
        Some(t) => now - t >= DAY_SECONDS,
    }
}

/// An update pass is required when no version is stored, or when a check
/// is allowed.
pub open spec fn update_required_spec(s: AppStateModel, now: i64) -> bool {
    s.version is None || allowed_spec(s, now)
}

/// A candidate is newer when no version is stored, or when the stored
/// one ranks strictly below it.
pub open spec fn outdated_spec(s: AppStateModel, candidate: VersionModel) -> bool {
    match s.version {
        None => true,
        Some(cur) => ver_lt(cur, candidate),
    }
}

impl AppState {
    /// Well-formed: the stored version and timestamp are valid.
    pub open spec fn wf(&self) -> bool {
        state_wf(self@)
    }

    /// A fresh unit: nothing installed, never checked.
    pub fn empty() -> (r: AppState)
        ensures
            r.wf(),
            r@.version is None,
            r@.last_check is None,
    {
        AppState { version: None, last_check: None }
    }

    /// An update pass is required for this unit now.
    pub fn is_update_required(&self, now: i64) -> (r: bool)
        requires
            self.wf(),
            valid_ts(now),
        ensures
            r == update_required_spec(self@, now),
    {
        self.is_not_exist() || self.is_allowed_to_check(now)
    }

    /// No version is stored for this unit.
    pub fn is_not_exist(&self) -> (r: bool)
        ensures
            r == (self@.version is None),
    {
        self.version.is_none()
    }

    /// The daily throttle admits a check now.
    pub fn is_allowed_to_check(&self, now: i64) -> (r: bool)
        requires
            self.wf(),
            valid_ts(now),
        ensures
            r == allowed_spec(self@, now),
    {
        match &self.last_check {
            None => true,
            Some(last) => now - *last >= DAY_SECONDS,
        }
    }

    /// Clears the unit, as after the binary disappeared.
    pub fn reset(&mut self)
        ensures
            final(self)@.version is None,
            final(self)@.last_check is None,
            final(self).wf(),
    {
        self.version = None;
        self.last_check = None;
    }

    /// Records that a check happened now; the version is untouched.
    pub fn update_check(&mut self, now: i64)
        requires
            old(self).wf(),
            valid_ts(now),
        ensures
            final(self)@.version == old(self)@.version,
            final(self)@.last_check == Some(now),
            final(self).wf(),
    {
        self.last_check = Some(now);
    }

    /// The candidate ranks strictly above what is stored, or nothing is
    /// stored.
    pub fn is_outdated(&self, recent_version: Version) -> (r: bool)
        ensures
            r == outdated_spec(self@, recent_version@),
    {
        match &self.version {
            Some(current) => current.lt(&recent_version),
            None => true,
        }
    }

    /// The stored version, or `NotFoundError` when there is none.
    pub fn get_version(&self) -> (r: Result<Version, Error>)
        ensures
            match r {
                Ok(v) => self@.version == Some(v@),
                Err(e) => e == Error::NotFoundError && self@.version is None,
            },
    {
        match &self.version {
            Some(v) => Ok(v.clone()),
            None => Err(Error::NotFoundError),
        }
    }
}

/// A unit without a stored version requires an update pass, whatever its
/// check history says.
pub proof fn lemma_missing_version_requires_update(s: AppStateModel, now: i64)
    requires
        s.version is None,
    ensures
        update_required_spec(s, now),
{
}

/// A unit without a stored version is outdated against every candidate.
pub proof fn lemma_missing_version_is_outdated(s: AppStateModel, candidate: VersionModel)
    requires
        s.version is None,
    ensures
        outdated_spec(s, candidate),
{
}

} // verus!
