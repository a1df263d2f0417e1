//! How downloads and settings are stored.

pub mod rows;
pub mod chunk_hashes;
pub mod file_tree;
pub mod state_manager;
pub mod loading;
pub mod round_trip;
pub mod row_laws;
pub mod settings_rows;
pub mod writing;
