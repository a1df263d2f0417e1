//! Reading downloads back.

use std::collections::HashMap;

use vstd::prelude::*;
#[allow(unused_imports)]
use crate::db::chunk_hashes::{all_hashes_view, hash_map_view};
use crate::db::file_tree::reconstruct_file_tree;
#[allow(unused_imports)]
use crate::db::file_tree::{listed_files, listed_folders, read_files, read_folders};
use crate::db::rows::{
    DownloadEntry, DownloadFileRow, DownloadFolderRow, DownloadRow, FileEntry, FolderEntry,
};
#[allow(unused_imports)]
use crate::db::rows::{is_download_entry_of, is_file_entry_of, is_folder_entry_of};
#[allow(unused_imports)]
use crate::download::folder_status::child_count;
use crate::download::items::{DownloadId, FolderId};
#[allow(unused_imports)]
use crate::download::storing::{column_bytes, download_from_row, root_of};
use crate::download::storing::find_root;
use crate::download::tree::Download;
#[allow(unused_imports)]
use crate::download::tree::{countable, DownloadModel};
use crate::utils::file_utils::TargetOs;

verus! {

broadcast use vstd::std_specs::hash::group_hash_axioms;

/// Whether the raw blocks of every file can be held.
pub open spec fn raw_blocks_fit(rows: Seq<DownloadFileRow>) -> bool {
    forall|i: int|
        0 <= i < rows.len() ==> 8 * column_bytes((#[trigger] rows[i]).chunks_raw).len()
            <= usize::MAX / 8
}

/// Whether entries are rows of files with their paths read.
pub open spec fn are_file_entries(rows: Seq<DownloadFileRow>, entries: Seq<FileEntry>) -> bool {
    &&& entries.len() == rows.len()
    &&& forall|i: int|
        0 <= i < rows.len() ==> is_file_entry_of(rows[i], #[trigger] entries[i])
}

/// Whether entries are rows of folders with their paths read.
pub open spec fn are_folder_entries(
    rows: Seq<DownloadFolderRow>,
    entries: Seq<FolderEntry>,
) -> bool {
    &&& entries.len() == rows.len()
    &&& forall|i: int|
        0 <= i < rows.len() ==> is_folder_entry_of(rows[i], #[trigger] entries[i])
}

/// Whether entries are rows of downloads with their paths read.
pub open spec fn are_download_entries(
    rows: Seq<DownloadRow>,
    entries: Seq<DownloadEntry>,
) -> bool {
    &&& entries.len() == rows.len()
    &&& forall|i: int|
        0 <= i < rows.len() ==> is_download_entry_of(rows[i], #[trigger] entries[i])
}

fn read_file_rows(rows: Vec<DownloadFileRow>) -> (r: Vec<FileEntry>)
    ensures
        are_file_entries(rows@, r@),
        raw_blocks_fit(rows@) ==> blocks_fit(r@),
{
    let ghost all = rows@;
    let mut r: Vec<FileEntry> = Vec::new();
    for row in it: rows.into_iter()
        invariant
            it.seq() == all,
            are_file_entries(all.take(it.index() as int), r@),
    {
        let ghost n = it.index() as int;
        let entry = row.read();
        assert(is_file_entry_of(all[n], entry));
        r.push(entry);
        assert forall|i: int| 0 <= i < n + 1 implies is_file_entry_of(
            all.take(n + 1)[i],
            #[trigger] r@[i],
        ) by {
            if i < n {
                assert(is_file_entry_of(all.take(n)[i], r@[i]));
            }
        }
    }
    assert(all.take(all.len() as int) =~= all);
    assert forall|i: int| raw_blocks_fit(all) && 0 <= i < r@.len() implies 8 * column_bytes(
        (#[trigger] r@[i]).chunks_raw,
    ).len() <= usize::MAX / 8 by {
        assert(is_file_entry_of(all[i], r@[i]));
    }
    r
}

fn read_folder_rows(rows: Vec<DownloadFolderRow>) -> (r: Vec<FolderEntry>)
    ensures
        are_folder_entries(rows@, r@),
{
    let ghost all = rows@;
    let mut r: Vec<FolderEntry> = Vec::new();
    for row in it: rows.into_iter()
        invariant
            it.seq() == all,
            are_folder_entries(all.take(it.index() as int), r@),
    {
        let ghost n = it.index() as int;
        let entry = row.read();
        assert(is_folder_entry_of(all[n], entry));
        r.push(entry);
        assert forall|i: int| 0 <= i < n + 1 implies is_folder_entry_of(
            all.take(n + 1)[i],
            #[trigger] r@[i],
        ) by {
            if i < n {
                assert(is_folder_entry_of(all.take(n)[i], r@[i]));
            }
        }
    }
    assert(all.take(all.len() as int) =~= all);
    r
}

fn read_download_rows(rows: Vec<DownloadRow>) -> (r: Vec<DownloadEntry>)
    ensures
        are_download_entries(rows@, r@),
{
    let ghost all = rows@;
    let mut r: Vec<DownloadEntry> = Vec::new();
    for row in it: rows.into_iter()
        invariant
            it.seq() == all,
            are_download_entries(all.take(it.index() as int), r@),
    {
        let ghost n = it.index() as int;
        let entry = row.read();
        assert(is_download_entry_of(all[n], entry));
        r.push(entry);
        assert forall|i: int| 0 <= i < n + 1 implies is_download_entry_of(
            all.take(n + 1)[i],
            #[trigger] r@[i],
        ) by {
            if i < n {
                assert(is_download_entry_of(all.take(n)[i], r@[i]));
            }
        }
    }
    assert(all.take(all.len() as int) =~= all);
    r
}

/// Whether the raw blocks of every file can be held, once its path has been read.
pub open spec fn blocks_fit(rows: Seq<FileEntry>) -> bool {
    forall|i: int|
        0 <= i < rows.len() ==> 8 * column_bytes((#[trigger] rows[i]).chunks_raw).len()
            <= usize::MAX / 8
}

/// The download that rows stand for, if one of its items lies at the top.
pub open spec fn read_download(
    target: TargetOs,
    row: DownloadEntry,
    file_rows: Seq<FileEntry>,
    folder_rows: Seq<FolderEntry>,
    hashes: Map<usize, Seq<Option<Seq<u8>>>>,
) -> Option<DownloadModel> {
    let files = read_files(target, file_rows, hashes).0;
    let folders = read_folders(file_rows, folder_rows, folder_rows.len());
    if root_of(files, folders).is_some() {
        Some(download_from_row(row, files, folders))
    } else {
        None
    }
}

proof fn lemma_listed_lens(
    file_rows: Seq<FileEntry>,
    folder_rows: Seq<FolderEntry>,
    id: FolderId,
)
    ensures
        listed_files(file_rows, id).len() <= file_rows.len(),
        listed_folders(folder_rows, id).len() <= folder_rows.len(),
    decreases file_rows.len() + folder_rows.len(),
{
    if file_rows.len() > 0 {
        lemma_listed_lens(file_rows.drop_last(), folder_rows, id);
    } else if folder_rows.len() > 0 {
        lemma_listed_lens(file_rows, folder_rows.drop_last(), id);
    }
}

proof fn lemma_read_folders_countable(
    file_rows: Seq<FileEntry>,
    folder_rows: Seq<FolderEntry>,
    n: nat,
)
    requires
        n <= folder_rows.len(),
        file_rows.len() + folder_rows.len() <= usize::MAX,
    ensures
        countable(read_folders(file_rows, folder_rows, n)),
    decreases n,
{
    if n > 0 {
        lemma_read_folders_countable(file_rows, folder_rows, (n - 1) as nat);
        let before = read_folders(file_rows, folder_rows, (n - 1) as nat);
        let after = read_folders(file_rows, folder_rows, n);
        let id = FolderId(folder_rows[n - 1].folder_id as usize);
        lemma_listed_lens(file_rows, folder_rows, id);
        assert forall|i: int| 0 <= i < after.len() implies child_count(#[trigger] after[i])
            <= usize::MAX by {
            if i < before.len() {
                assert(child_count(before[i]) <= usize::MAX);
            }
        }
    }
}

/// The download that rows stand for; there is none if none of its items lies at the
/// top.
pub fn load_download(
    row: DownloadRow,
    file_rows: Vec<DownloadFileRow>,
    folder_rows: Vec<DownloadFolderRow>,
    hashes: HashMap<usize, Vec<Option<[u8; 16]>>>,
    target: TargetOs,
) -> (r: Option<Download>)
    requires
        file_rows@.len() + folder_rows@.len() <= usize::MAX,
        raw_blocks_fit(file_rows@),
    ensures
        r matches Some(d) ==> d.wf(),
        exists|entry: DownloadEntry, files: Seq<FileEntry>, folders: Seq<FolderEntry>|
            #![trigger read_download(target, entry, files, folders, hash_map_view(hashes@))]
            {
                &&& is_download_entry_of(row, entry)
                &&& are_file_entries(file_rows@, files)
                &&& are_folder_entries(folder_rows@, folders)
                &&& read_download(target, entry, files, folders, hash_map_view(hashes@))
                    == match r {
                    Some(d) => Some(d@),
                    None => None,
                }
            },
{
    let entry = row.read();
    let files = read_file_rows(file_rows);
    let folders = read_folder_rows(folder_rows);
    load_entries(entry, files, folders, hashes, target)
}

/// The download that rows stand for once their paths have been read; there is none if none
/// of its items lies at the top.
pub fn load_entries(
    row: DownloadEntry,
    file_rows: Vec<FileEntry>,
    folder_rows: Vec<FolderEntry>,
    hashes: HashMap<usize, Vec<Option<[u8; 16]>>>,
    target: TargetOs,
) -> (r: Option<Download>)
    requires
        file_rows@.len() + folder_rows@.len() <= usize::MAX,
        blocks_fit(file_rows@),
    ensures
        match r {
            Some(d) => d.wf() && read_download(
                target,
                row,
                file_rows@,
                folder_rows@,
                hash_map_view(hashes@),
            ) == Some(d@),
            None => read_download(
                target,
                row,
                file_rows@,
                folder_rows@,
                hash_map_view(hashes@),
            ).is_none(),
        },
{
    proof {
        lemma_read_folders_countable(file_rows@, folder_rows@, folder_rows@.len());
    }
    let (files, folders) = reconstruct_file_tree(file_rows, folder_rows, hashes, target);
    match find_root(&files, &folders) {
        Some(_) => Some(Download::from_entry(row, files, folders)),
        None => None,
    }
}

/// The rows of a download's files, in order.
pub open spec fn files_of(rows: Seq<FileEntry>, id: i64) -> Seq<FileEntry>
    decreases rows.len(),
{
    if rows.len() == 0 {
        Seq::empty()
    } else if rows.last().download_id == id {
        files_of(rows.drop_last(), id).push(rows.last())
    } else {
        files_of(rows.drop_last(), id)
    }
}

/// The rows of a download's folders, in order.
pub open spec fn folders_of(rows: Seq<FolderEntry>, id: i64) -> Seq<FolderEntry>
    decreases rows.len(),
{
    if rows.len() == 0 {
        Seq::empty()
    } else if rows.last().download_id == id {
        folders_of(rows.drop_last(), id).push(rows.last())
    } else {
        folders_of(rows.drop_last(), id)
    }
}

spec fn file_group(m: Map<i64, Vec<FileEntry>>, id: i64) -> Seq<FileEntry> {
    if m.contains_key(id) {
        m[id]@
    } else {
        Seq::empty()
    }
}

spec fn folder_group(m: Map<i64, Vec<FolderEntry>>, id: i64) -> Seq<FolderEntry> {
    if m.contains_key(id) {
        m[id]@
    } else {
        Seq::empty()
    }
}

fn group_files(rows: Vec<FileEntry>) -> (r: HashMap<i64, Vec<FileEntry>>)
    ensures
        forall|id: i64| #[trigger] file_group(r@, id) == files_of(rows@, id),
{
    let ghost all = rows@;
    let mut r: HashMap<i64, Vec<FileEntry>> = HashMap::new();
    for row in it: rows.into_iter()
        invariant
            it.seq() == all,
            forall|id: i64| #[trigger]
                file_group(r@, id) == files_of(all.take(it.index() as int), id),
    {
        let ghost n = it.index() as int;
        proof {
            assert(all[n] == row);
            assert(all.take(n + 1).drop_last() =~= all.take(n));
        }
        let ghost before = r@;
        let id: i64 = row.download_id;
        let mut own: Vec<FileEntry> = match r.remove(&id) {
            Some(own) => own,
            None => Vec::new(),
        };
        assert(own@ == file_group(before, id));
        own.push(row);
        r.insert(id, own);
        proof {
            assert forall|k: i64| #[trigger] file_group(r@, k) == files_of(all.take(n + 1), k) by {
                assert(file_group(before, k) == files_of(all.take(n), k));
            }
        }
    }
    assert(all.take(all.len() as int) =~= all);
    r
}

fn group_folders(rows: Vec<FolderEntry>) -> (r: HashMap<i64, Vec<FolderEntry>>)
    ensures
        forall|id: i64| #[trigger] folder_group(r@, id) == folders_of(rows@, id),
{
    let ghost all = rows@;
    let mut r: HashMap<i64, Vec<FolderEntry>> = HashMap::new();
    for row in it: rows.into_iter()
        invariant
            it.seq() == all,
            forall|id: i64| #[trigger]
                folder_group(r@, id) == folders_of(all.take(it.index() as int), id),
    {
        let ghost n = it.index() as int;
        proof {
            assert(all[n] == row);
            assert(all.take(n + 1).drop_last() =~= all.take(n));
        }
        let ghost before = r@;
        let id: i64 = row.download_id;
        let mut own: Vec<FolderEntry> = match r.remove(&id) {
            Some(own) => own,
            None => Vec::new(),
        };
        assert(own@ == folder_group(before, id));
        own.push(row);
        r.insert(id, own);
        proof {
            assert forall|k: i64| #[trigger]
                folder_group(r@, k) == folders_of(all.take(n + 1), k) by {
                assert(folder_group(before, k) == folders_of(all.take(n), k));
            }
        }
    }
    assert(all.take(all.len() as int) =~= all);
    r
}

/// The digests that are known of a download.
pub open spec fn hashes_of_download(
    all: Map<usize, Map<usize, Seq<Option<Seq<u8>>>>>,
    id: usize,
) -> Map<usize, Seq<Option<Seq<u8>>>> {
    if all.contains_key(id) {
        all[id]
    } else {
        Map::empty()
    }
}

/// The download that one of many rows stands for.
#[verifier::opaque]
pub open spec fn read_one(
    target: TargetOs,
    row: DownloadEntry,
    file_rows: Seq<FileEntry>,
    folder_rows: Seq<FolderEntry>,
    hashes: Map<usize, Map<usize, Seq<Option<Seq<u8>>>>>,
) -> Option<DownloadModel> {
    read_download(
        target,
        row,
        files_of(file_rows, row.id),
        folders_of(folder_rows, row.id),
        hashes_of_download(hashes, row.id as usize),
    )
}

proof fn lemma_group_bounds(
    file_rows: Seq<FileEntry>,
    folder_rows: Seq<FolderEntry>,
    id: i64,
)
    requires
        blocks_fit(file_rows),
    ensures
        files_of(file_rows, id).len() <= file_rows.len(),
        folders_of(folder_rows, id).len() <= folder_rows.len(),
        blocks_fit(files_of(file_rows, id)),
    decreases file_rows.len() + folder_rows.len(),
{
    if file_rows.len() > 0 {
        assert(8 * column_bytes(file_rows[file_rows.len() - 1].chunks_raw).len() <= usize::MAX / 8);
        assert forall|i: int| 0 <= i < file_rows.drop_last().len() implies 8 * column_bytes(
            (#[trigger] file_rows.drop_last()[i]).chunks_raw,
        ).len() <= usize::MAX / 8 by {
            assert(file_rows.drop_last()[i] == file_rows[i]);
        }
        lemma_group_bounds(file_rows.drop_last(), folder_rows, id);
    } else if folder_rows.len() > 0 {
        lemma_group_bounds(file_rows, folder_rows.drop_last(), id);
    }
}

/// Whether no two rows are of one download.
pub open spec fn distinct_downloads(rows: Seq<DownloadEntry>) -> bool {
    forall|i: int, j: int|
        0 <= i < rows.len() && 0 <= j < rows.len() && (#[trigger] rows[i]).id as usize == (
        #[trigger] rows[j]).id as usize ==> i == j
}

/// Whether the row at place `i` is the first whose download has no item at the top.
pub open spec fn first_without_top(
    target: TargetOs,
    rows: Seq<DownloadEntry>,
    file_rows: Seq<FileEntry>,
    folder_rows: Seq<FolderEntry>,
    hashes: Map<usize, Map<usize, Seq<Option<Seq<u8>>>>>,
    i: int,
) -> bool {
    &&& 0 <= i < rows.len()
    &&& read_one(target, rows[i], file_rows, folder_rows, hashes).is_none()
    &&& forall|k: int|
        0 <= k < i ==> read_one(
            target,
            #[trigger] rows[k],
            file_rows,
            folder_rows,
            hashes,
        ).is_some()
}

/// Whether no two rows are of one download.
pub open spec fn distinct_rows(rows: Seq<DownloadRow>) -> bool {
    forall|i: int, j: int|
        0 <= i < rows.len() && 0 <= j < rows.len() && (#[trigger] rows[i]).id as usize == (
        #[trigger] rows[j]).id as usize ==> i == j
}

/// Whether something is what comes of loading downloads whose paths have been read: all of
/// them, in order, or the first that has no item at the top.
pub open spec fn is_loaded(
    target: TargetOs,
    rows: Seq<DownloadEntry>,
    file_rows: Seq<FileEntry>,
    folder_rows: Seq<FolderEntry>,
    hashes: Map<usize, Map<usize, Seq<Option<Seq<u8>>>>>,
    r: Result<Vec<Download>, DownloadId>,
) -> bool {
    match r {
        Ok(downloads) => downloads@.len() == rows.len() && forall|i: int|
            0 <= i < rows.len() ==> (#[trigger] downloads@[i]).wf() && read_one(
                target,
                rows[i],
                file_rows,
                folder_rows,
                hashes,
            ) == Some(downloads@[i]@),
        Err(id) => exists|i: int| #[trigger]
            first_without_top(target, rows, file_rows, folder_rows, hashes, i) && id.0
                == rows[i].id as usize,
    }
}

/// The downloads that rows stand for, in order. If one has no item at the top, that
/// one is told instead.
pub fn load_downloads(
    rows: Vec<DownloadRow>,
    file_rows: Vec<DownloadFileRow>,
    folder_rows: Vec<DownloadFolderRow>,
    chunk_hashes: HashMap<usize, HashMap<usize, Vec<Option<[u8; 16]>>>>,
    target: TargetOs,
) -> (r: Result<Vec<Download>, DownloadId>)
    requires
        distinct_rows(rows@),
        file_rows@.len() + folder_rows@.len() <= usize::MAX,
        raw_blocks_fit(file_rows@),
    ensures
        exists|entries: Seq<DownloadEntry>, files: Seq<FileEntry>, folders: Seq<FolderEntry>|
            #![trigger is_loaded(target, entries, files, folders, all_hashes_view(chunk_hashes@), r)]
            {
                &&& are_download_entries(rows@, entries)
                &&& are_file_entries(file_rows@, files)
                &&& are_folder_entries(folder_rows@, folders)
                &&& is_loaded(target, entries, files, folders, all_hashes_view(chunk_hashes@), r)
            },
{
    let ghost hashes = all_hashes_view(chunk_hashes@);
    let entries = read_download_rows(rows);
    let files = read_file_rows(file_rows);
    let folders = read_folder_rows(folder_rows);
    assert forall|i: int, j: int|
        0 <= i < entries@.len() && 0 <= j < entries@.len() && (#[trigger] entries@[i]).id as usize
            == (#[trigger] entries@[j]).id as usize implies i == j by {
        assert(is_download_entry_of(rows@[i], entries@[i]));
        assert(is_download_entry_of(rows@[j], entries@[j]));
    }
    let ghost all = entries@;
    let ghost all_files = files@;
    let ghost all_folders = folders@;
    let r = load_all_entries(entries, files, folders, chunk_hashes, target);
    assert(is_loaded(target, all, all_files, all_folders, hashes, r));
    r
}

/// The downloads that rows stand for once their paths have been read, in order. If one has
/// no item at the top, that one is told instead.
pub fn load_all_entries(
    rows: Vec<DownloadEntry>,
    file_rows: Vec<FileEntry>,
    folder_rows: Vec<FolderEntry>,
    chunk_hashes: HashMap<usize, HashMap<usize, Vec<Option<[u8; 16]>>>>,
    target: TargetOs,
) -> (r: Result<Vec<Download>, DownloadId>)
    requires
        distinct_downloads(rows@),
        file_rows@.len() + folder_rows@.len() <= usize::MAX,
        blocks_fit(file_rows@),
    ensures
        is_loaded(
            target,
            rows@,
            file_rows@,
            folder_rows@,
            all_hashes_view(chunk_hashes@),
            r,
        ),
{
    let ghost all = rows@;
    let ghost files = file_rows@;
    let ghost folders = folder_rows@;
    let ghost hashes = all_hashes_view(chunk_hashes@);
    let mut stock = Stock {
        files: group_files(file_rows),
        folders: group_folders(folder_rows),
        hashes: chunk_hashes,
    };
    let mut downloads: Vec<Download> = Vec::new();
    assert forall|k: int| 0 <= k < all.len() implies stock.has(
        files,
        folders,
        hashes,
        (#[trigger] all[k]).id,
    ) by {
        assert(file_group(stock.files@, all[k].id) == files_of(files, all[k].id));
        assert(folder_group(stock.folders@, all[k].id) == folders_of(folders, all[k].id));
    }
    for row in it: rows.into_iter()
        invariant
            it.seq() == all,
            all == rows@,
            files == file_rows@,
            folders == folder_rows@,
            hashes == all_hashes_view(chunk_hashes@),
            distinct_downloads(all),
            files.len() + folders.len() <= usize::MAX,
            blocks_fit(files),
            downloads@.len() == it.index(),
            forall|k: int|
                it.index() <= k < all.len() ==> stock.has(
                    files,
                    folders,
                    hashes,
                    (#[trigger] all[k]).id,
                ),
            forall|k: int|
                0 <= k < it.index() ==> (#[trigger] downloads@[k]).wf() && read_one(
                    target,
                    all[k],
                    files,
                    folders,
                    hashes,
                ) == Some(downloads@[k]@),
    {
        let ghost n = it.index() as int;
        let ghost before = stock;
        assert(all[n] == row);
        let id: i64 = row.id;
        let (own_files, own_folders, own_hashes) = stock.take(id);
        proof {
            lemma_group_bounds(files, folders, id);
            assert(before.has(files, folders, hashes, all[n].id));
            assert forall|k: int| n + 1 <= k < all.len() implies stock.has(
                files,
                folders,
                hashes,
                (#[trigger] all[k]).id,
            ) by {
                assert(all[k].id as usize != all[n].id as usize);
                assert(before.has(files, folders, hashes, all[k].id));
            }
        }
        let ghost whole = row;
        let loaded = load_entries(row, own_files, own_folders, own_hashes, target);
        assert(match loaded {
            Some(d) => d.wf() && read_one(target, whole, files, folders, hashes) == Some(d@),
            None => read_one(target, whole, files, folders, hashes).is_none(),
        }) by {
            reveal(read_one);
        }
        match loaded {
            Some(download) => {
                downloads.push(download);
            },
            None => {
                proof {
                    assert forall|k: int| 0 <= k < n implies read_one(
                        target,
                        #[trigger] all[k],
                        files,
                        folders,
                        hashes,
                    ).is_some() by {
                        assert(downloads@[k].wf());
                    }
                    assert(first_without_top(target, all, files, folders, hashes, n));
                }
                return Err(
                    DownloadId(
                        #[verifier::truncate]
                        (id as usize),
                    ),
                );
            },
        }
    }
    Ok(downloads)
}

/// What has been read of downloads that are not yet put together.
struct Stock {
    files: HashMap<i64, Vec<FileEntry>>,
    folders: HashMap<i64, Vec<FolderEntry>>,
    hashes: HashMap<usize, HashMap<usize, Vec<Option<[u8; 16]>>>>,
}

impl Stock {
    /// Whether all that was read of a download is there.
    spec fn has(
        &self,
        files: Seq<FileEntry>,
        folders: Seq<FolderEntry>,
        hashes: Map<usize, Map<usize, Seq<Option<Seq<u8>>>>>,
        id: i64,
    ) -> bool {
        &&& file_group(self.files@, id) == files_of(files, id)
        &&& folder_group(self.folders@, id) == folders_of(folders, id)
        &&& hashes_of_download(all_hashes_view(self.hashes@), id as usize) == hashes_of_download(
            hashes,
            id as usize,
        )
    }

    /// Hands out what was read of a download.
    fn take(&mut self, id: i64) -> (r: (
        Vec<FileEntry>,
        Vec<FolderEntry>,
        HashMap<usize, Vec<Option<[u8; 16]>>>,
    ))
        ensures
            r.0@ == file_group(old(self).files@, id),
            r.1@ == folder_group(old(self).folders@, id),
            hash_map_view(r.2@) == hashes_of_download(
                all_hashes_view(old(self).hashes@),
                id as usize,
            ),
            forall|files, folders, hashes, k: i64|
                k as usize != id as usize && old(self).has(files, folders, hashes, k)
                    ==> #[trigger] final(self).has(files, folders, hashes, k),
    {
        let ghost before = *self;
        let key: usize = #[verifier::truncate]
        (id as usize);
        let own_files: Vec<FileEntry> = match self.files.remove(&id) {
            Some(own) => own,
            None => Vec::new(),
        };
        let own_folders: Vec<FolderEntry> = match self.folders.remove(&id) {
            Some(own) => own,
            None => Vec::new(),
        };
        let own_hashes: HashMap<usize, Vec<Option<[u8; 16]>>> = match self.hashes.remove(&key) {
            Some(own) => own,
            None => HashMap::new(),
        };
        proof {
            if !before.hashes@.contains_key(key) {
                assert(hash_map_view(own_hashes@) =~= Map::empty());
            }
        }
        (own_files, own_folders, own_hashes)
    }
}

} // verus!
