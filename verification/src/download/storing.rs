//! How files, folders and downloads are stored, and read back.

use vstd::prelude::*;
use crate::db::rows::{
    DownloadEntry, DownloadFileRow, DownloadFolderRow, DownloadRow, FileEntry, FolderEntry,
};
#[allow(unused_imports)]
use crate::db::rows::{
    download_entry, file_entry, folder_entry, is_download_entry_of, is_file_entry_of,
    is_folder_entry_of,
};
use crate::download::error::{DownloadFailureReason, FileFailureReason};
use crate::download::file_name::{clone_text, FileName};
#[allow(unused_imports)]
use crate::download::file_name::{
    candidate, chosen_name, names_are_kept, spec_file_name, text_of, NameModel,
};
use crate::download::items::{
    DownloadId, DownloadItem, FileDownload, FileId, FileSize, FolderDownload, FolderId, ItemId,
};
#[allow(unused_imports)]
use crate::download::items::{hashes_of, FileModel, FolderModel};
use crate::download::status::{DownloadStatus, FileStatus, StateBucketCounters};
#[allow(unused_imports)]
use crate::download::status::{
    law_download_status_round_trip, law_file_status_round_trip, stored_download_status,
};
#[allow(unused_imports)]
use crate::download::supervisor::HASH_CHUNK_SIZE;
use crate::download::tables::{FileTable, FolderTable};
use crate::download::tree::Download;
#[allow(unused_imports)]
use crate::download::tree::{countable, DownloadModel};
use crate::utils::blocks::Blocks;
#[allow(unused_imports)]
use crate::utils::blocks::bits_of_bytes;
use crate::utils::bytes::{u128_from_be, u128_to_be};
#[allow(unused_imports)]
use crate::utils::bytes::{be_digits, be_value, law_stored_number_reads_back};
use crate::utils::file_utils::TargetOs;
use crate::utils::paths::ItemPath;
#[allow(unused_imports)]
use crate::utils::raw_paths::{is_stored, path_view};
use crate::utils::text::text_eq;
use crate::utils::urls::host_or_label;
#[allow(unused_imports)]
use crate::utils::urls::{host_label, host_of_url, spec_filename_from_url};

verus! {

/// The path that a row holds; an empty one stands for what is no path.
pub open spec fn row_path(p: Option<ItemPath>) -> Seq<Seq<u8>> {
    match p {
        Some(path) => path@,
        None => Seq::empty(),
    }
}

/// The state that a file's row holds: a row without a path is a failure, and columns
/// that stand for no state mean that nothing has been done.
pub open spec fn file_row_status(row: FileEntry) -> FileStatus {
    if row.relative_path.is_none() {
        FileStatus::Failed(FileFailureReason::BadPath)
    } else {
        columns_status(row.status@, text_of(row.failure_reason))
    }
}

/// The state that two columns of a file stand for.
pub open spec fn columns_status(status: Seq<char>, reason: Option<Seq<char>>) -> FileStatus {
    match FileStatus::spec_from_db_columns(status, reason) {
        Some(s) => s,
        None => FileStatus::Uninitialized,
    }
}

/// The state that two columns of a folder or a download stand for.
pub open spec fn columns_download_status(
    status: Seq<char>,
    reason: Option<Seq<char>>,
) -> DownloadStatus {
    match DownloadStatus::spec_from_db_columns(status, reason) {
        Some(s) => s,
        None => DownloadStatus::Uninitialized,
    }
}

/// The size that two columns stand for; what is neither known nor unknown is asked
/// for anew.
pub open spec fn columns_size(size_type: Option<Seq<char>>, bytes: Option<i64>) -> Option<
    FileSize,
> {
    if size_type == Some("known"@) {
        match bytes {
            Some(n) => if n >= 0 {
                Some(FileSize::Known(n as u64))
            } else {
                None
            },
            None => None,
        }
    } else if size_type == Some("unknown"@) {
        Some(FileSize::Unknown)
    } else {
        None
    }
}

/// The digest that a column holds, if it is long enough.
pub open spec fn column_hash(hash: Option<Vec<u8>>) -> Option<u128> {
    match hash {
        Some(bytes) => if bytes@.len() >= 16 {
            Some(be_value(bytes@.take(16)) as u128)
        } else {
            None
        },
        None => None,
    }
}

/// The bytes that a column holds.
pub open spec fn column_bytes(raw: Option<Vec<u8>>) -> Seq<u8> {
    match raw {
        Some(bytes) => bytes@,
        None => Seq::empty(),
    }
}

/// The blocks that two columns stand for.
pub open spec fn column_blocks(raw: Option<Vec<u8>>, len: Option<i64>) -> Seq<bool> {
    let bits = bits_of_bytes(column_bytes(raw));
    match len {
        Some(n) => if (n as usize) < bits.len() {
            bits.take((n as usize) as int)
        } else {
            bits
        },
        None => bits,
    }
}

/// How many chunks with a digest a file has.
pub open spec fn chunk_count(size: u64) -> nat {
    ((size + (HASH_CHUNK_SIZE - 1)) / (HASH_CHUNK_SIZE as int)) as nat
}

/// Digests for all chunks of a file whose size is known: those past the end go, and
/// those that are missing are left open.
pub open spec fn fitted_hashes(
    size: Option<FileSize>,
    hashes: Seq<Option<Seq<u8>>>,
) -> Seq<Option<Seq<u8>>> {
    match size {
        Some(FileSize::Known(n)) => {
            let count = (chunk_count(n) as u64) as usize;
            Seq::new(
                count as nat,
                |i: int|
                    if i < hashes.len() {
                        hashes[i]
                    } else {
                        None
                    },
            )
        },
        _ => hashes,
    }
}

/// The parent that a column names.
pub open spec fn column_parent(parent: Option<i64>) -> Option<FolderId> {
    match parent {
        Some(id) => Some(FolderId(id as usize)),
        None => None,
    }
}

/// The file that a row stands for.
pub open spec fn file_from_row(
    target: TargetOs,
    row: FileEntry,
    hashes: Seq<Option<Seq<u8>>>,
) -> FileModel {
    let size = columns_size(text_of(row.size_type), row.size_bytes);
    FileModel {
        parent_id: column_parent(row.parent_folder_id),
        id: FileId(row.file_id as usize),
        url: row.url@,
        host: host_label(row.url@, host_of_url(row.url@)),
        name: NameModel {
            server_name: candidate(target, text_of(row.server_name)),
            ..spec_file_name(target, row.url@, text_of(row.plugin_hint))
        },
        path: row_path(row.relative_path),
        status: file_row_status(row),
        is_paused: row.is_paused,
        active_operation: None,
        hash: column_hash(row.hash),
        blocks: column_blocks(row.chunks_raw, row.chunks_len),
        chunk_hashes: fitted_hashes(size, hashes),
        size,
        retries: row.retries as usize,
    }
}

/// The folder that a row stands for, with the children and counters given.
pub open spec fn folder_from_row(
    row: FolderEntry,
    child_files: Seq<FileId>,
    child_folders: Seq<FolderId>,
    counters: Seq<usize>,
) -> FolderModel {
    FolderModel {
        parent_id: column_parent(row.parent_folder_id),
        id: FolderId(row.folder_id as usize),
        name: row.name@,
        path: row_path(row.relative_path),
        active_operation: None,
        status: if row.relative_path.is_none() {
            DownloadStatus::Failed(DownloadFailureReason::BadPath)
        } else {
            columns_download_status(row.status@, text_of(row.failure_reason))
        },
        is_paused: row.is_paused,
        child_files,
        child_folders,
        counters,
    }
}

fn text_ref(s: &Option<String>) -> (r: Option<&str>)
    ensures
        match r {
            Some(t) => text_of(*s) == Some(t@),
            None => text_of(*s).is_none(),
        },
{
    match s {
        Some(t) => Some(t.as_str()),
        None => None,
    }
}

fn read_size(size_type: &Option<String>, bytes: Option<i64>) -> (r: Option<FileSize>)
    ensures
        r == columns_size(text_of(*size_type), bytes),
{
    proof {
        reveal_strlit("known");
        reveal_strlit("unknown");
        assert("known"@.len() != "unknown"@.len());
    }
    match size_type {
        Some(kind) => {
            if text_eq(kind.as_str(), "known") {
                match bytes {
                    Some(n) => {
                        if n >= 0 {
                            Some(FileSize::Known(n as u64))
                        } else {
                            None
                        }
                    },
                    None => None,
                }
            } else if text_eq(kind.as_str(), "unknown") {
                Some(FileSize::Unknown)
            } else {
                None
            }
        },
        None => None,
    }
}

/// Cuts or fills up the digests to `count`.
fn fit_hashes(hashes: Vec<Option<[u8; 16]>>, count: usize) -> (r: Vec<Option<[u8; 16]>>)
    ensures
        r@.len() == count,
        forall|i: int|
            0 <= i < count ==> #[trigger] r@[i] == if i < hashes@.len() {
                hashes@[i]
            } else {
                None
            },
{
    let mut r: Vec<Option<[u8; 16]>> = Vec::new();
    let mut i: usize = 0;
    while i < count
        invariant
            i <= count,
            r@.len() == i,
            forall|k: int|
                0 <= k < i ==> #[trigger] r@[k] == if k < hashes@.len() {
                    hashes@[k]
                } else {
                    None
                },
        decreases count - i,
    {
        if i < hashes.len() {
            r.push(hashes[i]);
        } else {
            r.push(None);
        }
        i += 1;
    }
    r
}

impl FileDownload {
    /// The file that a row stands for, with the digests of its chunks.
    pub fn from_db(
        row: DownloadFileRow,
        chunk_hashes: Vec<Option<[u8; 16]>>,
        target: TargetOs,
    ) -> (r: Self)
        requires
            8 * column_bytes(row.chunks_raw).len() <= usize::MAX / 8,
        ensures
            exists|entry: FileEntry| #[trigger]
                is_file_entry_of(row, entry) && r@ == file_from_row(
                    target,
                    entry,
                    hashes_of(chunk_hashes@),
                ),
    {
        let entry = row.read();
        FileDownload::from_entry(entry, chunk_hashes, target)
    }

    /// The file that a row stands for once its path has been read, with the digests of its
    /// chunks.
    pub fn from_entry(
        row: FileEntry,
        chunk_hashes: Vec<Option<[u8; 16]>>,
        target: TargetOs,
    ) -> (r: Self)
        requires
            8 * column_bytes(row.chunks_raw).len() <= usize::MAX / 8,
        ensures
            r@ == file_from_row(target, row, hashes_of(chunk_hashes@)),
    {
        let ghost whole = row;
        let mut filename = FileName::new(row.url.as_str(), row.plugin_hint, target);
        filename.set_server_name(row.server_name, target);
        let size = read_size(&row.size_type, row.size_bytes);
        let hash: Option<u128> = match &row.hash {
            Some(bytes) => {
                if bytes.len() >= 16 {
                    Some(u128_from_be(bytes))
                } else {
                    None
                }
            },
            None => None,
        };
        let raw: Vec<u8> = match row.chunks_raw {
            Some(bytes) => bytes,
            None => Vec::new(),
        };
        let mut blocks = Blocks::from_raw(raw);
        if let Some(len) = row.chunks_len {
            blocks.truncate(
                #[verifier::truncate]
                (len as usize),
            );
        }
        let mut status = match FileStatus::from_db_columns(
            row.status.as_str(),
            text_ref(&row.failure_reason),
        ) {
            Some(status) => status,
            None => FileStatus::Uninitialized,
        };
        let relative_path = match row.relative_path {
            Some(path) => path,
            None => {
                status = FileStatus::Failed(FileFailureReason::BadPath);
                ItemPath::new()
            },
        };
        let ghost given = hashes_of(chunk_hashes@);
        let hashes: Vec<Option<[u8; 16]>> = match size {
            Some(FileSize::Known(n)) => {
                let chunk: u64 = HASH_CHUNK_SIZE as u64;
                let count: u64 = if n % chunk == 0 {
                    n / chunk
                } else {
                    n / chunk + 1
                };
                assert(count == chunk_count(n));
                fit_hashes(
                    chunk_hashes,
                    #[verifier::truncate]
                    (count as usize),
                )
            },
            _ => chunk_hashes,
        };
        assert(hashes_of(hashes@) =~= fitted_hashes(size, given));
        let host = host_or_label(row.url.as_str());
        let parent_id: Option<FolderId> = match row.parent_folder_id {
            Some(id) => Some(
                FolderId(
                    #[verifier::truncate]
                    (id as usize),
                ),
            ),
            None => None,
        };
        FileDownload {
            parent_id,
            id: FileId(
                #[verifier::truncate]
                (row.file_id as usize),
            ),
            url: row.url,
            host,
            filename,
            relative_path,
            status,
            is_paused: row.is_paused,
            active_operation: None,
            hash,
            blocks,
            chunk_hashes: hashes,
            size,
            retries: #[verifier::truncate]
            (row.retries as usize),
        }
    }
}

impl FolderDownload {
    /// The folder that a row stands for, with the children and counters given.
    pub fn from_db(
        row: DownloadFolderRow,
        child_files: Vec<FileId>,
        child_folders: Vec<FolderId>,
        bucket_counters: StateBucketCounters,
    ) -> (r: Self)
        ensures
            exists|entry: FolderEntry| #[trigger]
                is_folder_entry_of(row, entry) && r@ == folder_from_row(
                    entry,
                    child_files@,
                    child_folders@,
                    bucket_counters.data@,
                ),
    {
        let entry = row.read();
        FolderDownload::from_entry(entry, child_files, child_folders, bucket_counters)
    }

    /// The folder that a row stands for once its path has been read, with the children and
    /// counters given.
    pub fn from_entry(
        row: FolderEntry,
        child_files: Vec<FileId>,
        child_folders: Vec<FolderId>,
        bucket_counters: StateBucketCounters,
    ) -> (r: Self)
        ensures
            r@ == folder_from_row(
                row,
                child_files@,
                child_folders@,
                bucket_counters.data@,
            ),
    {
        let mut status = match DownloadStatus::from_db_columns(
            row.status.as_str(),
            text_ref(&row.failure_reason),
        ) {
            Some(status) => status,
            None => DownloadStatus::Uninitialized,
        };
        let relative_path = match row.relative_path {
            Some(path) => path,
            None => {
                status = DownloadStatus::Failed(DownloadFailureReason::BadPath);
                ItemPath::new()
            },
        };
        let parent_id: Option<FolderId> = match row.parent_folder_id {
            Some(id) => Some(
                FolderId(
                    #[verifier::truncate]
                    (id as usize),
                ),
            ),
            None => None,
        };
        FolderDownload {
            parent_id,
            id: FolderId(
                #[verifier::truncate]
                (row.folder_id as usize),
            ),
            folder_name: row.name,
            relative_path,
            active_operation: None,
            status,
            is_paused: row.is_paused,
            child_files,
            child_folders,
            bucket_counters,
        }
    }
}

/// The first folder that lies in no other.
pub open spec fn first_top_folder(folders: Seq<FolderModel>) -> Option<FolderId>
    decreases folders.len(),
{
    if folders.len() == 0 {
        None
    } else if folders[0].parent_id.is_none() {
        Some(folders[0].id)
    } else {
        first_top_folder(folders.drop_first())
    }
}

/// The first file that lies in no folder.
pub open spec fn first_top_file(files: Seq<FileModel>) -> Option<FileId>
    decreases files.len(),
{
    if files.len() == 0 {
        None
    } else if files[0].parent_id.is_none() {
        Some(files[0].id)
    } else {
        first_top_file(files.drop_first())
    }
}

/// The root of what was read: the first folder that lies in no other, or else the
/// first file that lies in no folder.
pub open spec fn root_of(files: Seq<FileModel>, folders: Seq<FolderModel>) -> Option<ItemId> {
    match first_top_folder(folders) {
        Some(id) => Some(ItemId::Folder(id)),
        None => match first_top_file(files) {
            Some(id) => Some(ItemId::File(id)),
            None => None,
        },
    }
}

/// The download that a row stands for, with the files and folders given.
pub open spec fn download_from_row(
    row: DownloadEntry,
    files: Seq<FileModel>,
    folders: Seq<FolderModel>,
) -> DownloadModel {
    DownloadModel {
        id: DownloadId(row.id as usize),
        url: row.url@,
        save_path: row_path(row.relative_path),
        status: if row.relative_path.is_none() {
            DownloadStatus::Failed(DownloadFailureReason::BadPath)
        } else {
            columns_download_status(row.status@, text_of(row.failure_reason))
        },
        is_paused: row.is_paused,
        active_operation: None,
        root_item: root_of(files, folders)->0,
        files,
        folders,
    }
}

/// The root of what was read, if there is one.
pub fn find_root(files: &FileTable, folders: &FolderTable) -> (r: Option<ItemId>)
    ensures
        r == root_of(files@, folders@),
{
    let mut i: usize = 0;
    assert(folders@.skip(0) =~= folders@);
    while i < folders.items.len()
        invariant
            i <= folders@.len(),
            folders@.len() == folders.items@.len(),
            first_top_folder(folders@) == first_top_folder(folders@.skip(i as int)),
        decreases folders@.len() - i,
    {
        assert(folders@.skip(i as int)[0] == folders.items@[i as int]@);
        assert(folders@.skip(i as int).drop_first() =~= folders@.skip(i + 1));
        if folders.items[i].parent_id.is_none() {
            return Some(ItemId::Folder(folders.items[i].id));
        }
        i += 1;
    }
    let mut j: usize = 0;
    assert(files@.skip(0) =~= files@);
    while j < files.items.len()
        invariant
            j <= files@.len(),
            files@.len() == files.items@.len(),
            first_top_folder(folders@).is_none(),
            first_top_file(files@) == first_top_file(files@.skip(j as int)),
        decreases files@.len() - j,
    {
        assert(files@.skip(j as int)[0] == files.items@[j as int]@);
        assert(files@.skip(j as int).drop_first() =~= files@.skip(j + 1));
        if files.items[j].parent_id.is_none() {
            return Some(ItemId::File(files.items[j].id));
        }
        j += 1;
    }
    None
}

impl Download {
    /// The download that a row stands for, with the files and folders given. One of
    /// them has to lie at the top.
    pub fn from_db(row: DownloadRow, files: FileTable, folders: FolderTable) -> (r: Self)
        requires
            files.wf(),
            folders.wf(),
            countable(folders@),
            root_of(files@, folders@).is_some(),
        ensures
            r.wf(),
            exists|entry: DownloadEntry| #[trigger]
                is_download_entry_of(row, entry) && r@ == download_from_row(
                    entry,
                    files@,
                    folders@,
                ),
    {
        let entry = row.read();
        Download::from_entry(entry, files, folders)
    }

    /// The download that a row stands for once its path has been read, with the files and
    /// folders given. One of them has to lie at the top.
    pub fn from_entry(row: DownloadEntry, files: FileTable, folders: FolderTable) -> (r: Self)
        requires
            files.wf(),
            folders.wf(),
            countable(folders@),
            root_of(files@, folders@).is_some(),
        ensures
            r.wf(),
            r@ == download_from_row(row, files@, folders@),
    {
        let root_item = find_root(&files, &folders).unwrap();
        let mut status = match DownloadStatus::from_db_columns(
            row.status.as_str(),
            text_ref(&row.failure_reason),
        ) {
            Some(status) => status,
            None => DownloadStatus::Uninitialized,
        };
        let save_path = match row.relative_path {
            Some(path) => path,
            None => {
                status = DownloadStatus::Failed(DownloadFailureReason::BadPath);
                ItemPath::new()
            },
        };
        Download {
            id: DownloadId(
                #[verifier::truncate]
                (row.id as usize),
            ),
            url: row.url,
            save_path,
            status,
            is_paused: row.is_paused,
            active_operation: None,
            root_item,
            files,
            folders,
        }
    }
}

/// Whether two columns are those under which a state is stored.
pub open spec fn columns_are(
    status: Seq<char>,
    reason: Option<Seq<char>>,
    columns: (Seq<char>, Option<Seq<char>>),
) -> bool {
    status == columns.0 && reason == columns.1
}

/// Whether a row is what a file is stored as, its path apart.
pub open spec fn is_file_but_path(row: FileEntry, download_id: DownloadId, f: FileModel) -> bool {
    &&& row.download_id == download_id.0 as i64
    &&& row.file_id == f.id.0 as i64
    &&& row.parent_folder_id == match f.parent_id {
        Some(id) => Some(id.0 as i64),
        None => None,
    }
    &&& row.name@ == chosen_name(f.name)
    &&& text_of(row.plugin_hint) == f.name.plugin_hint
    &&& text_of(row.server_name) == f.name.server_name
    &&& columns_are(row.status@, text_of(row.failure_reason), f.status.spec_to_db_columns())
    &&& row.is_paused == f.is_paused
    &&& row.url@ == f.url
    &&& match f.hash {
        Some(h) => row.hash matches Some(bytes) && bytes@ == be_digits(h as nat, 16),
        None => row.hash.is_none(),
    }
    &&& row.chunks_raw matches Some(raw) && raw@.len() == (f.blocks.len() + 7) / 8
        && bits_of_bytes(raw@).take(f.blocks.len() as int) == f.blocks
    &&& row.chunks_len == Some(f.blocks.len() as usize as i64)
    &&& text_of(row.size_type) == match f.size {
        None => None,
        Some(FileSize::Unknown) => Some("unknown"@),
        Some(FileSize::Known(_)) => Some("known"@),
    }
    &&& row.size_bytes == match f.size {
        Some(FileSize::Known(n)) => Some(n as i64),
        _ => None,
    }
    &&& row.retries == f.retries as i64
    &&& row.wait_time.is_none()
}

/// Whether a row is what a file is stored as.
pub open spec fn is_file_row(
    row: DownloadFileRow,
    download_id: DownloadId,
    f: FileModel,
) -> bool {
    &&& is_file_but_path(file_entry(row, None), download_id, f)
    &&& is_stored(f.path, row.relative_path_raw@, row.relative_path@)
}

/// Whether a row is what a file is stored as, and its path was read as it was.
pub open spec fn is_file_entry(row: FileEntry, download_id: DownloadId, f: FileModel) -> bool {
    &&& is_file_but_path(row, download_id, f)
    &&& row.relative_path matches Some(path) && path@ == f.path
}

/// Whether a row is what a folder is stored as, its path apart.
pub open spec fn is_folder_but_path(
    row: FolderEntry,
    download_id: DownloadId,
    f: FolderModel,
) -> bool {
    &&& row.download_id == download_id.0 as i64
    &&& row.folder_id == f.id.0 as i64
    &&& row.parent_folder_id == match f.parent_id {
        Some(id) => Some(id.0 as i64),
        None => None,
    }
    &&& row.name@ == f.name
    &&& columns_are(row.status@, text_of(row.failure_reason), f.status.spec_to_db_columns())
    &&& row.is_paused == f.is_paused
}

/// Whether a row is what a folder is stored as.
pub open spec fn is_folder_row(
    row: DownloadFolderRow,
    download_id: DownloadId,
    f: FolderModel,
) -> bool {
    &&& is_folder_but_path(folder_entry(row, None), download_id, f)
    &&& is_stored(f.path, row.relative_path_raw@, row.relative_path@)
}

/// Whether a row is what a folder is stored as, and its path was read as it was.
pub open spec fn is_folder_entry(
    row: FolderEntry,
    download_id: DownloadId,
    f: FolderModel,
) -> bool {
    &&& is_folder_but_path(row, download_id, f)
    &&& row.relative_path matches Some(path) && path@ == f.path
}

/// Whether a row is what a download is stored as, its path apart.
pub open spec fn is_download_but_path(
    row: DownloadEntry,
    d: DownloadModel,
    name: Seq<char>,
) -> bool {
    &&& row.id == d.id.0 as i64
    &&& row.url@ == d.url
    &&& row.name@ == name
    &&& columns_are(row.status@, text_of(row.failure_reason), d.status.spec_to_db_columns())
    &&& row.is_paused == d.is_paused
}

/// Whether a row is what a download is stored as.
pub open spec fn is_download_row(row: DownloadRow, d: DownloadModel, name: Seq<char>) -> bool {
    &&& is_download_but_path(download_entry(row, None), d, name)
    &&& is_stored(d.save_path, row.relative_path_raw@, row.relative_path@)
}

/// Whether a row is what a download is stored as, and its path was read as it was.
pub open spec fn is_download_entry(row: DownloadEntry, d: DownloadModel, name: Seq<char>) -> bool {
    &&& is_download_but_path(row, d, name)
    &&& row.relative_path matches Some(path) && path@ == d.save_path
}

fn owned(s: Option<&'static str>) -> (r: Option<String>)
    ensures
        match s {
            Some(t) => text_of(r) == Some(t@),
            None => text_of(r).is_none(),
        },
{
    match s {
        Some(t) => Some(t.to_owned()),
        None => None,
    }
}

fn parent_column(parent: Option<FolderId>) -> (r: Option<i64>)
    ensures
        r == match parent {
            Some(id) => Some(id.0 as i64),
            None => None,
        },
{
    match parent {
        Some(id) => Some(
            #[verifier::truncate]
            (id.0 as i64),
        ),
        None => None,
    }
}

impl DownloadRow {
    /// The download that the row stands for, with the files and folders given. One of
    /// them has to lie at the top.
    pub fn into_download(self, files: FileTable, folders: FolderTable) -> (r: Download)
        requires
            files.wf(),
            folders.wf(),
            countable(folders@),
            root_of(files@, folders@).is_some(),
        ensures
            r.wf(),
            exists|entry: DownloadEntry| #[trigger]
                is_download_entry_of(self, entry) && r@ == download_from_row(
                    entry,
                    files@,
                    folders@,
                ),
    {
        Download::from_db(self, files, folders)
    }
}

impl DownloadFileRow {
    /// What a file is stored as.
    pub fn of(download_id: DownloadId, file: &FileDownload) -> (r: Self)
        ensures
            is_file_row(r, download_id, file@),
    {
        let (status, reason) = file.status.to_db_columns();
        let hash: Option<Vec<u8>> = match file.hash {
            Some(h) => Some(u128_to_be(h)),
            None => None,
        };
        let size_type: Option<String> = match file.size {
            None => None,
            Some(FileSize::Unknown) => Some("unknown".to_owned()),
            Some(FileSize::Known(_)) => Some("known".to_owned()),
        };
        let size_bytes: Option<i64> = match file.size {
            Some(FileSize::Known(n)) => Some(
                #[verifier::truncate]
                (n as i64),
            ),
            _ => None,
        };
        let count: usize = file.blocks.len();
        let (relative_path_raw, relative_path) = file.relative_path.to_raw();
        DownloadFileRow {
            download_id: #[verifier::truncate]
            (download_id.0 as i64),
            file_id: #[verifier::truncate]
            (file.id.0 as i64),
            parent_folder_id: parent_column(file.parent_id),
            name: file.filename.as_str().to_owned(),
            plugin_hint: clone_text(&file.filename.plugin_hint),
            server_name: clone_text(&file.filename.server_name),
            relative_path_raw,
            relative_path,
            status: status.to_owned(),
            failure_reason: owned(reason),
            is_paused: file.is_paused,
            url: file.url.clone(),
            hash,
            chunks_raw: Some(file.blocks.raw_bytes()),
            chunks_len: Some(
                #[verifier::truncate]
                (count as i64),
            ),
            size_type,
            size_bytes,
            retries: #[verifier::truncate]
            (file.retries as i64),
            wait_time: None,
        }
    }
}

impl DownloadFolderRow {
    /// What a folder is stored as.
    pub fn of(download_id: DownloadId, folder: &FolderDownload) -> (r: Self)
        ensures
            is_folder_row(r, download_id, folder@),
    {
        let (status, reason) = folder.status.to_db_columns();
        let (relative_path_raw, relative_path) = folder.relative_path.to_raw();
        DownloadFolderRow {
            download_id: #[verifier::truncate]
            (download_id.0 as i64),
            folder_id: #[verifier::truncate]
            (folder.id.0 as i64),
            parent_folder_id: parent_column(folder.parent_id),
            name: folder.folder_name.clone(),
            relative_path_raw,
            relative_path,
            status: status.to_owned(),
            failure_reason: owned(reason),
            is_paused: folder.is_paused,
        }
    }
}

/// A number survives being stored as a signed one.
pub proof fn lemma_signed_round_trip(n: usize)
    ensures
        (n as i64) as usize == n,
{
    assert((n as i64) as usize == n) by (bit_vector);
}

/// Whether a file's host and names are those that its URL and its hints give.
pub open spec fn names_are_own(target: TargetOs, f: FileModel) -> bool {
    &&& f.host == host_label(f.url, host_of_url(f.url))
    &&& f.name.url_hint == candidate(target, spec_filename_from_url(f.url))
    &&& names_are_kept(target, f.name)
}

/// A stored file reads back as it was, apart from what is being done for it, and
/// with room for the digests of all its chunks. Sizes that do not fit a signed number
/// are left out.
pub proof fn law_stored_file_reads_back(
    target: TargetOs,
    f: FileModel,
    download_id: DownloadId,
    row: FileEntry,
)
    requires
        is_file_entry(row, download_id, f),
        names_are_own(target, f),
        f.blocks.len() <= usize::MAX,
        f.size matches Some(FileSize::Known(n)) ==> n <= i64::MAX,
    ensures
        file_from_row(target, row, f.chunk_hashes) == (FileModel {
            active_operation: None,
            chunk_hashes: fitted_hashes(f.size, f.chunk_hashes),
            ..f
        }),
{
    lemma_signed_round_trip(f.id.0);
    lemma_signed_round_trip(f.retries);
    lemma_signed_round_trip(f.blocks.len() as usize);
    if f.parent_id.is_some() {
        lemma_signed_round_trip((f.parent_id->0).0);
    }
    law_file_status_round_trip(f.status);
    if f.hash.is_some() {
        law_stored_number_reads_back(f.hash->0);
    }
    reveal_strlit("known");
    reveal_strlit("unknown");
    assert("known"@.len() != "unknown"@.len());
    let read = file_from_row(target, row, f.chunk_hashes);
    assert(read.size == f.size);
    assert(read.blocks =~= f.blocks) by {
        let raw = row.chunks_raw->0@;
        let bits = bits_of_bytes(raw);
        assert(bits.len() >= f.blocks.len());
        if bits.len() == f.blocks.len() {
            assert(bits.take(f.blocks.len() as int) =~= bits);
        }
    }
    assert(read.hash == f.hash);
    assert(read.name == f.name);
}

/// A stored folder reads back as it was, apart from what is being done for it, and
/// with an unknown reason where all of its files had failed for one.
pub proof fn law_stored_folder_reads_back(
    f: FolderModel,
    download_id: DownloadId,
    row: FolderEntry,
)
    requires
        is_folder_entry(row, download_id, f),
    ensures
        folder_from_row(row, f.child_files, f.child_folders, f.counters) == (FolderModel {
            active_operation: None,
            status: stored_download_status(f.status),
            ..f
        }),
{
    lemma_signed_round_trip(f.id.0);
    if f.parent_id.is_some() {
        lemma_signed_round_trip((f.parent_id->0).0);
    }
    law_download_status_round_trip(f.status);
}

} // verus!
