//! The whole program: which downloads there are, and what holds for them.

pub mod command_laws;
pub mod history_laws;
pub mod limit_laws;
pub mod limiters;
pub mod manager;
pub mod patch;
pub mod registry;
pub mod settings;
pub mod snapshot;
