//! The decision-making core of a download manager: what a download is, how it
//! is cut into jobs, how failures are answered and how its state is kept.

use vstd::prelude::*;

pub mod app;
pub mod app_manager;
pub mod call_laws;
pub mod client_laws;
pub mod client_state_manager;
pub mod db;
pub mod download;
pub mod download_task;
pub mod host_manager;
pub mod manager_laws;
pub mod network_manager;
pub mod permit_laws;
pub mod plugin_laws;
pub mod plugin_patterns;
pub mod plugin_registry;
pub mod task_laws;
pub mod utils;
pub mod verification_tracker;

verus! {

} // verus!
