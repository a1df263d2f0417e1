//! Helpers that the rest of the library builds on.

pub mod shared_file_map;
pub mod text;
pub mod text_laws;
pub mod file_utils;
pub mod blocks;
pub mod hashing;
pub mod id_index;
pub mod kept;
pub mod paths;
pub mod raw_paths;
pub mod urls;
pub mod valid_path;
pub mod bytes;
pub mod name_laws;
pub mod network_utils;
pub mod numbers;
