//! Core of a self-updating launcher: the update-state machine and the
//! process supervisor.
//!
//! The library holds everything with real invariants: the semantic-version
//! model and its ordering, the per-app update policy with its 24-hour
//! throttle, the persisted state file and its codec, the repair pass that
//! reconciles state against the binary directory, asset resolution, the
//! installer's decision pipeline, and the `Idle`/`Running` supervisor state
//! machine.  Network and filesystem plumbing lives outside, hands the
//! library plain values, and executes the actions the library decides on.

pub mod app_info;
pub mod cacher;
pub mod codec;
pub mod config;
pub mod errors;
pub mod fixup;
pub mod installer;
pub mod opts;
pub mod policy;
pub mod release;
pub mod supervisor;
pub mod text;
pub mod time;
pub mod version;

pub use errors::Error;
