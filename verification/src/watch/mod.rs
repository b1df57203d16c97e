//! Watch: the deterministic decisions of the folder-watching daemon.
pub mod stability;
pub mod eligibility;
pub mod engine;
pub mod registry;
pub mod daemon;
pub mod status;
