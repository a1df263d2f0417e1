//! Downloads, their files and folders, and the work that brings them to disk.

pub mod access;
pub mod answer_laws;
pub mod building;
pub mod building_laws;
pub mod completion_laws;
pub mod download_manager;
pub mod error;
pub mod fetched;
pub mod file_name;
pub mod folder_status;
pub mod history_laws;
pub mod hosts;
pub mod items;
pub mod operations;
pub mod pausing;
pub mod pausing_laws;
pub mod state_laws;
pub mod status;
pub mod ranges;
pub mod ranges_laws;
pub mod storing;
pub mod supervisor;
pub mod supervisor_laws;
pub mod tables;
pub mod tree;
pub mod tree_laws;
pub mod verification;
pub mod verification_laws;
pub mod work_laws;
