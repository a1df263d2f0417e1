//! The rows that downloads and settings are stored as.

use vstd::prelude::*;
use crate::download::supervisor::HASH_CHUNK_SIZE;
use crate::utils::paths::ItemPath;
#[allow(unused_imports)]
use crate::utils::raw_paths::{is_read, path_view};
use crate::utils::text::text_eq;

verus! {

/// A download. `relative_path_raw` holds the bytes of the path, which need not be text;
/// `relative_path` is its text, to be looked for.
pub struct DownloadRow {
    pub id: i64,
    pub url: String,
    pub name: String,
    pub relative_path_raw: Vec<u8>,
    pub relative_path: String,
    pub status: String,
    pub failure_reason: Option<String>,
    pub is_paused: bool,
}

/// A folder of a download.
pub struct DownloadFolderRow {
    pub download_id: i64,
    pub folder_id: i64,
    pub parent_folder_id: Option<i64>,
    pub name: String,
    pub relative_path_raw: Vec<u8>,
    pub relative_path: String,
    pub status: String,
    pub failure_reason: Option<String>,
    pub is_paused: bool,
}

/// A file of a download. `name` is there to be looked for; the name that is read back
/// comes of the hints. No state of a file has to be waited out, so `wait_time` is empty in
/// what is written, and is not read.
pub struct DownloadFileRow {
    pub download_id: i64,
    pub file_id: i64,
    pub parent_folder_id: Option<i64>,
    pub name: String,
    pub plugin_hint: Option<String>,
    pub server_name: Option<String>,
    pub relative_path_raw: Vec<u8>,
    pub relative_path: String,
    pub status: String,
    pub failure_reason: Option<String>,
    pub is_paused: bool,
    pub url: String,
    pub hash: Option<Vec<u8>>,
    pub chunks_raw: Option<Vec<u8>>,
    pub chunks_len: Option<i64>,
    pub size_type: Option<String>,
    pub size_bytes: Option<i64>,
    pub retries: i64,
    pub wait_time: Option<i64>,
}

/// A download whose path has been read. It is missing where what is stored is no path.
pub struct DownloadEntry {
    pub id: i64,
    pub url: String,
    pub name: String,
    pub relative_path: Option<ItemPath>,
    pub status: String,
    pub failure_reason: Option<String>,
    pub is_paused: bool,
}

/// A folder whose path has been read.
pub struct FolderEntry {
    pub download_id: i64,
    pub folder_id: i64,
    pub parent_folder_id: Option<i64>,
    pub name: String,
    pub relative_path: Option<ItemPath>,
    pub status: String,
    pub failure_reason: Option<String>,
    pub is_paused: bool,
}

/// A file whose path has been read.
pub struct FileEntry {
    pub download_id: i64,
    pub file_id: i64,
    pub parent_folder_id: Option<i64>,
    pub name: String,
    pub plugin_hint: Option<String>,
    pub server_name: Option<String>,
    pub relative_path: Option<ItemPath>,
    pub status: String,
    pub failure_reason: Option<String>,
    pub is_paused: bool,
    pub url: String,
    pub hash: Option<Vec<u8>>,
    pub chunks_raw: Option<Vec<u8>>,
    pub chunks_len: Option<i64>,
    pub size_type: Option<String>,
    pub size_bytes: Option<i64>,
    pub retries: i64,
    pub wait_time: Option<i64>,
}

/// A file or a folder, in one table for both; `item_type` tells which.
pub struct DownloadItemRow {
    pub download_id: i64,
    pub item_id: i64,
    pub parent_id: Option<i64>,
    pub item_type: String,
    pub name: String,
    pub relative_path_raw: Vec<u8>,
    pub relative_path: String,
    pub status: String,
    pub failure_reason: Option<String>,
    pub url: Option<String>,
    pub hash: Option<Vec<u8>>,
    pub chunks_raw: Option<Vec<u8>>,
    pub chunks_len: Option<i64>,
    pub size_type: Option<String>,
    pub size_bytes: Option<i64>,
    pub retries: i64,
    pub wait_time: Option<i64>,
}

/// The digest of one chunk of a file.
pub struct ChunkHashRow {
    pub download_id: i64,
    pub file_id: i64,
    pub chunk_index: i64,
    pub hash: Option<Vec<u8>>,
}

/// What holds for all downloads.
pub struct GlobalSettingsRow {
    pub global_speed_limit: Option<i64>,
}

/// What holds for a host.
pub struct HostSettingsRow {
    pub host: String,
    pub speed_limit: Option<i64>,
}

/// What holds for a download.
pub struct DownloadSettingsRow {
    pub download_id: i64,
    pub speed_limit: Option<i64>,
}

/// What holds for a file.
pub struct FileSettingsRow {
    pub download_id: i64,
    pub file_id: i64,
    pub speed_limit: Option<i64>,
}

/// What holds for a download, beside what holds for one of its files, if something
/// does.
pub struct JoinedDownloadSettingsRow {
    pub download_id: i64,
    pub download_speed_limit: Option<i64>,
    pub file_id: Option<i64>,
    pub file_speed_limit: Option<i64>,
}

/// A row of a download with the path that was read.
pub open spec fn download_entry(row: DownloadRow, path: Option<ItemPath>) -> DownloadEntry {
    DownloadEntry {
        id: row.id,
        url: row.url,
        name: row.name,
        relative_path: path,
        status: row.status,
        failure_reason: row.failure_reason,
        is_paused: row.is_paused,
    }
}

/// Whether something is a row of a download with its path read.
pub open spec fn is_download_entry_of(row: DownloadRow, entry: DownloadEntry) -> bool {
    entry == download_entry(row, entry.relative_path) && is_read(
        row.relative_path_raw@,
        path_view(entry.relative_path),
    )
}

impl DownloadRow {
    /// Reads the path.
    pub fn read(self) -> (r: DownloadEntry)
        ensures
            is_download_entry_of(self, r),
    {
        let row = self;
        let path = ItemPath::from_raw(&row.relative_path_raw);
        DownloadEntry {
            id: row.id,
            url: row.url,
            name: row.name,
            relative_path: path,
            status: row.status,
            failure_reason: row.failure_reason,
            is_paused: row.is_paused,
        }
    }
}

/// A row of a folder with the path that was read.
pub open spec fn folder_entry(row: DownloadFolderRow, path: Option<ItemPath>) -> FolderEntry {
    FolderEntry {
        download_id: row.download_id,
        folder_id: row.folder_id,
        parent_folder_id: row.parent_folder_id,
        name: row.name,
        relative_path: path,
        status: row.status,
        failure_reason: row.failure_reason,
        is_paused: row.is_paused,
    }
}

/// Whether something is a row of a folder with its path read.
pub open spec fn is_folder_entry_of(row: DownloadFolderRow, entry: FolderEntry) -> bool {
    entry == folder_entry(row, entry.relative_path) && is_read(
        row.relative_path_raw@,
        path_view(entry.relative_path),
    )
}

impl DownloadFolderRow {
    /// Reads the path.
    pub fn read(self) -> (r: FolderEntry)
        ensures
            is_folder_entry_of(self, r),
    {
        let row = self;
        let path = ItemPath::from_raw(&row.relative_path_raw);
        FolderEntry {
            download_id: row.download_id,
            folder_id: row.folder_id,
            parent_folder_id: row.parent_folder_id,
            name: row.name,
            relative_path: path,
            status: row.status,
            failure_reason: row.failure_reason,
            is_paused: row.is_paused,
        }
    }
}

/// A row of a file with the path that was read.
pub open spec fn file_entry(row: DownloadFileRow, path: Option<ItemPath>) -> FileEntry {
    FileEntry {
        download_id: row.download_id,
        file_id: row.file_id,
        parent_folder_id: row.parent_folder_id,
        name: row.name,
        plugin_hint: row.plugin_hint,
        server_name: row.server_name,
        relative_path: path,
        status: row.status,
        failure_reason: row.failure_reason,
        is_paused: row.is_paused,
        url: row.url,
        hash: row.hash,
        chunks_raw: row.chunks_raw,
        chunks_len: row.chunks_len,
        size_type: row.size_type,
        size_bytes: row.size_bytes,
        retries: row.retries,
        wait_time: row.wait_time,
    }
}

/// Whether something is a row of a file with its path read.
pub open spec fn is_file_entry_of(row: DownloadFileRow, entry: FileEntry) -> bool {
    entry == file_entry(row, entry.relative_path) && is_read(
        row.relative_path_raw@,
        path_view(entry.relative_path),
    )
}

impl DownloadFileRow {
    /// Reads the path.
    pub fn read(self) -> (r: FileEntry)
        ensures
            is_file_entry_of(self, r),
    {
        let row = self;
        let path = ItemPath::from_raw(&row.relative_path_raw);
        FileEntry {
            download_id: row.download_id,
            file_id: row.file_id,
            parent_folder_id: row.parent_folder_id,
            name: row.name,
            plugin_hint: row.plugin_hint,
            server_name: row.server_name,
            relative_path: path,
            status: row.status,
            failure_reason: row.failure_reason,
            is_paused: row.is_paused,
            url: row.url,
            hash: row.hash,
            chunks_raw: row.chunks_raw,
            chunks_len: row.chunks_len,
            size_type: row.size_type,
            size_bytes: row.size_bytes,
            retries: row.retries,
            wait_time: row.wait_time,
        }
    }
}

/// How many chunks a file of a stored size has: none if its size is not known.
pub open spec fn chunk_slots(size_bytes: Option<i64>) -> usize {
    match size_bytes {
        Some(size) => {
            let bytes = size as u64;
            let full = bytes / HASH_CHUNK_SIZE as u64;
            (if bytes % HASH_CHUNK_SIZE as u64 == 0 {
                full as int
            } else {
                full + 1
            }) as usize
        },
        None => 0,
    }
}

impl DownloadItemRow {
    /// Whether the row is that of a folder; any other is that of a file.
    pub fn is_folder(&self) -> (r: bool)
        ensures
            r == (self.item_type@ == "folder"@),
    {
        text_eq(self.item_type.as_str(), "folder")
    }

    /// Room for the digests of the chunks of a file of which no digest is stored.
    pub fn empty_chunk_hashes(&self) -> (r: Vec<Option<[u8; 16]>>)
        ensures
            r@ == Seq::new(chunk_slots(self.size_bytes) as nat, |i: int| None::<[u8; 16]>),
    {
        let n: usize = match self.size_bytes {
            Some(size) => {
                let bytes: u64 = #[verifier::truncate]
                (size as u64);
                let full: u64 = bytes / (HASH_CHUNK_SIZE as u64);
                assert(full == bytes / 1048576u64);
                let count: u64 = if bytes % (HASH_CHUNK_SIZE as u64) == 0 {
                    full
                } else {
                    full + 1
                };
                #[verifier::truncate]
                (count as usize)
            },
            None => 0,
        };
        let mut r: Vec<Option<[u8; 16]>> = Vec::new();
        let mut i: usize = 0;
        while i < n
            invariant
                i <= n,
                r@ == Seq::new(i as nat, |k: int| None::<[u8; 16]>),
            decreases n - i,
        {
            r.push(None);
            i += 1;
            assert(r@ =~= Seq::new(i as nat, |k: int| None::<[u8; 16]>));
        }
        r
    }
}

} // verus!
