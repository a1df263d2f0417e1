//! What is stored of a download is the download.

use vstd::prelude::*;
#[allow(unused_imports)]
use crate::db::chunk_hashes::{hashes_in, known_hashes};
#[allow(unused_imports)]
use crate::db::file_tree::{
    file_buckets, folder_buckets, listed_files, listed_folders, read_files, read_folders,
};
#[allow(unused_imports)]
use crate::db::loading::read_download;
#[allow(unused_imports)]
use crate::db::rows::{
    is_download_entry_of, is_file_entry_of, is_folder_entry_of, ChunkHashRow, DownloadEntry,
    DownloadFileRow, DownloadFolderRow, DownloadRow, FileEntry, FolderEntry,
};
#[allow(unused_imports)]
use crate::db::writing::{
    are_digests_of, are_file_batches, are_folder_batches, are_hash_batches, batch_count,
    batch_len, hash_entries, is_file_write, is_hash_row, law_read_hashes_fit,
    law_written_hashes_read_back, DownloadWrite, FileWrite, BATCH_SIZE,
};
#[allow(unused_imports)]
use crate::download::building::{counters_of, lemma_counters_bound};
#[allow(unused_imports)]
use crate::download::folder_status::in_bucket;
#[allow(unused_imports)]
use crate::download::items::{
    DownloadId, FileId, FileModel, FileSize, FolderId, FolderModel, ItemId,
};
#[allow(unused_imports)]
use crate::download::status::{
    law_download_status_round_trip, law_file_status_round_trip, stored_download_status,
    StatusBucket,
};
#[allow(unused_imports)]
use crate::download::storing::{
    column_parent, file_from_row, first_top_file, first_top_folder, fitted_hashes, folder_from_row,
    is_download_entry, is_download_row, is_file_entry, is_file_row, is_folder_entry,
    is_folder_row, law_stored_file_reads_back,
    law_stored_folder_reads_back, lemma_signed_round_trip, names_are_own, root_of,
};
#[allow(unused_imports)]
use crate::download::tables::{find_file, find_folder, unique_files, unique_folders};
#[allow(unused_imports)]
use crate::download::tree::DownloadModel;
#[allow(unused_imports)]
use crate::download::tree_laws::{
    count_files, count_folders, counted, lemma_find_file, lemma_find_folder, lemma_found_file,
    lemma_found_folder, lemma_linked_folder, lemma_lists_file, lemma_lists_folder, linked,
    one_root, tally, tree_ok,
};
#[allow(unused_imports)]
use crate::utils::file_utils::TargetOs;
#[allow(unused_imports)]
use crate::utils::raw_paths::{
    all_text, are_portable, is_read, is_stored, law_stored_paths_read_back, path_of_names,
    path_view, spelled,
};

verus! {

/// The number of the file that a row is about.
pub open spec fn file_number(row: FileEntry) -> FileId {
    FileId(row.file_id as usize)
}

/// The number of the folder that a row is about.
pub open spec fn folder_number(row: FolderEntry) -> FolderId {
    FolderId(row.folder_id as usize)
}

/// Whether one of the rows is about a file.
pub open spec fn has_file_row(rows: Seq<FileEntry>, id: FileId) -> bool {
    exists|k: int| 0 <= k < rows.len() && file_number(#[trigger] rows[k]) == id
}

/// Whether one of the rows is about a folder.
pub open spec fn has_folder_row(rows: Seq<FolderEntry>, id: FolderId) -> bool {
    exists|k: int| 0 <= k < rows.len() && folder_number(#[trigger] rows[k]) == id
}

/// No two rows are about the same file.
pub open spec fn distinct_file_rows(rows: Seq<FileEntry>) -> bool {
    forall|k: int, l: int|
        0 <= k < rows.len() && 0 <= l < rows.len() && file_number(#[trigger] rows[k])
            == file_number(#[trigger] rows[l]) ==> k == l
}

/// No two rows are about the same folder.
pub open spec fn distinct_folder_rows(rows: Seq<FolderEntry>) -> bool {
    forall|k: int, l: int|
        0 <= k < rows.len() && 0 <= l < rows.len() && folder_number(#[trigger] rows[k])
            == folder_number(#[trigger] rows[l]) ==> k == l
}

/// Whether a row is what one of the files is stored as.
pub open spec fn stands_for_file(
    row: FileEntry,
    id: DownloadId,
    files: Seq<FileModel>,
) -> bool {
    exists|j: int| 0 <= j < files.len() && is_file_entry(row, id, #[trigger] files[j])
}

/// Whether a row is what one of the folders is stored as.
pub open spec fn stands_for_folder(
    row: FolderEntry,
    id: DownloadId,
    folders: Seq<FolderModel>,
) -> bool {
    exists|j: int| 0 <= j < folders.len() && is_folder_entry(row, id, #[trigger] folders[j])
}

/// Whether rows are what files are stored as, one for each, in any order.
pub open spec fn are_file_rows(
    rows: Seq<FileEntry>,
    id: DownloadId,
    files: Seq<FileModel>,
) -> bool {
    &&& distinct_file_rows(rows)
    &&& forall|k: int| 0 <= k < rows.len() ==> stands_for_file(#[trigger] rows[k], id, files)
    &&& forall|j: int| 0 <= j < files.len() ==> has_file_row(rows, (#[trigger] files[j]).id)
}

/// Whether rows are what folders are stored as, one for each, in any order.
pub open spec fn are_folder_rows(
    rows: Seq<FolderEntry>,
    id: DownloadId,
    folders: Seq<FolderModel>,
) -> bool {
    &&& distinct_folder_rows(rows)
    &&& forall|k: int| 0 <= k < rows.len() ==> stands_for_folder(#[trigger] rows[k], id, folders)
    &&& forall|j: int| 0 <= j < folders.len() ==> has_folder_row(rows, (#[trigger] folders[j]).id)
}

/// The rows that are about the digests of a file, in order.
pub open spec fn hash_rows_of(rows: Seq<ChunkHashRow>, id: FileId) -> Seq<ChunkHashRow>
    decreases rows.len(),
{
    if rows.len() == 0 {
        Seq::empty()
    } else if rows.last().file_id as usize == id.0 {
        hash_rows_of(rows.drop_last(), id).push(rows.last())
    } else {
        hash_rows_of(rows.drop_last(), id)
    }
}

/// Whether rows are what the digests of a file are stored as.
pub open spec fn are_hash_rows(rows: Seq<ChunkHashRow>, id: DownloadId, file: FileModel) -> bool {
    let entries = hash_entries(file.chunk_hashes);
    &&& rows.len() == entries.len()
    &&& forall|i: int|
        0 <= i < rows.len() ==> is_hash_row(#[trigger] rows[i], id, file.id, entries[i])
}

/// Whether the rows of each file's digests are what they are stored as.
pub open spec fn digests_written(
    rows: Seq<ChunkHashRow>,
    id: DownloadId,
    files: Seq<FileModel>,
) -> bool {
    forall|j: int|
        0 <= j < files.len() ==> are_hash_rows(
            hash_rows_of(rows, (#[trigger] files[j]).id),
            id,
            files[j],
        )
}

/// Whether a file can be stored without loss: its names are those that its URL and its
/// hints give, its digests are digests, and its numbers fit signed ones.
pub open spec fn storable(target: TargetOs, f: FileModel) -> bool {
    &&& names_are_own(target, f)
    &&& f.blocks.len() <= usize::MAX
    &&& f.size matches Some(FileSize::Known(n)) ==> n <= i64::MAX
    &&& f.chunk_hashes.len() <= i64::MAX
    &&& f.chunk_hashes.len() <= usize::MAX
    &&& forall|i: int|
        0 <= i < f.chunk_hashes.len() && (#[trigger] f.chunk_hashes[i]).is_some() ==> (
        f.chunk_hashes[i]->0).len() == 16
}

/// Whether a file is another one as it reads back: the same apart from what was being
/// done for it, with room for the digests of all its chunks if its size is known.
pub open spec fn file_back(f: FileModel, read: FileModel) -> bool {
    &&& read == (FileModel { active_operation: None, chunk_hashes: read.chunk_hashes, ..f })
    &&& match f.size {
        Some(FileSize::Known(_)) => read.chunk_hashes == fitted_hashes(f.size, f.chunk_hashes),
        _ => are_digests_of(read.chunk_hashes, f.chunk_hashes),
    }
}

/// Whether a list holds what another holds, each once.
pub open spec fn same_file_list(a: Seq<FileId>, b: Seq<FileId>) -> bool {
    &&& a.no_duplicates()
    &&& forall|x: FileId| #[trigger] a.contains(x) <==> b.contains(x)
}

/// Whether a list holds what another holds, each once.
pub open spec fn same_folder_list(a: Seq<FolderId>, b: Seq<FolderId>) -> bool {
    &&& a.no_duplicates()
    &&& forall|x: FolderId| #[trigger] a.contains(x) <==> b.contains(x)
}

/// Whether a folder is another one as it reads back: the same apart from what was being
/// done for it and from the order of its children, with an unknown reason where all of
/// its files had failed for one.
pub open spec fn folder_back(f: FolderModel, read: FolderModel) -> bool {
    &&& read == (FolderModel {
        active_operation: None,
        status: stored_download_status(f.status),
        child_files: read.child_files,
        child_folders: read.child_folders,
        ..f
    })
    &&& same_file_list(read.child_files, f.child_files)
    &&& same_folder_list(read.child_folders, f.child_folders)
}

/// Whether the files that were read are those that were stored.
pub open spec fn files_back(files: Seq<FileModel>, read: Seq<FileModel>) -> bool {
    &&& unique_files(read)
    &&& forall|j: int|
        0 <= j < files.len() ==> (find_file(read, (#[trigger] files[j]).id) matches Some(k)
            && file_back(files[j], read[k]))
    &&& forall|k: int|
        0 <= k < read.len() ==> find_file(files, (#[trigger] read[k]).id).is_some()
}

/// Whether the folders that were read are those that were stored.
pub open spec fn folders_back(folders: Seq<FolderModel>, read: Seq<FolderModel>) -> bool {
    &&& unique_folders(read)
    &&& forall|j: int|
        0 <= j < folders.len() ==> (find_folder(read, (#[trigger] folders[j]).id) matches Some(k)
            && folder_back(folders[j], read[k]))
    &&& forall|k: int|
        0 <= k < read.len() ==> find_folder(folders, (#[trigger] read[k]).id).is_some()
}

/// Whether a download is another one as it reads back: the same apart from what was
/// being done for it and from the order of its items.
pub open spec fn download_back(d: DownloadModel, read: DownloadModel) -> bool {
    &&& read == (DownloadModel {
        status: stored_download_status(d.status),
        active_operation: None,
        files: read.files,
        folders: read.folders,
        ..d
    })
    &&& files_back(d.files, read.files)
    &&& folders_back(d.folders, read.folders)
}

proof fn lemma_hashes_by_file(rows: Seq<ChunkHashRow>, id: FileId)
    ensures
        known_hashes(hashes_in(rows), id.0) == known_hashes(
            hashes_in(hash_rows_of(rows, id)),
            id.0,
        ),
    decreases rows.len(),
{
    if rows.len() > 0 {
        lemma_hashes_by_file(rows.drop_last(), id);
        let own = hash_rows_of(rows.drop_last(), id);
        assert(own.push(rows.last()).drop_last() =~= own);
    }
}

proof fn lemma_read_files(
    target: TargetOs,
    rows: Seq<FileEntry>,
    hashes: Map<usize, Seq<Option<Seq<u8>>>>,
)
    requires
        distinct_file_rows(rows),
    ensures
        ({
            let (files, left) = read_files(target, rows, hashes);
            &&& files.len() == rows.len()
            &&& forall|k: int|
                0 <= k < rows.len() ==> #[trigger] files[k] == file_from_row(
                    target,
                    rows[k],
                    known_hashes(hashes, rows[k].file_id as usize),
                )
            &&& forall|id: FileId|
                !#[trigger] has_file_row(rows, id) ==> known_hashes(left, id.0) == known_hashes(
                    hashes,
                    id.0,
                )
        }),
    decreases rows.len(),
{
    if rows.len() > 0 {
        let fewer = rows.drop_last();
        let row = rows.last();
        let id = file_number(row);
        assert(distinct_file_rows(fewer)) by {
            assert forall|k: int, l: int|
                0 <= k < fewer.len() && 0 <= l < fewer.len() && file_number(#[trigger] fewer[k])
                    == file_number(#[trigger] fewer[l]) implies k == l by {
                assert(rows[k] == fewer[k] && rows[l] == fewer[l]);
            }
        }
        lemma_read_files(target, fewer, hashes);
        let (before, left) = read_files(target, fewer, hashes);
        assert(!has_file_row(fewer, id)) by {
            if has_file_row(fewer, id) {
                let k = choose|k: int|
                    0 <= k < fewer.len() && file_number(#[trigger] fewer[k]) == id;
                assert(rows[k] == fewer[k]);
                assert(rows[rows.len() - 1] == row);
            }
        }
        assert(find_file(before, id).is_none()) by {
            if find_file(before, id).is_some() {
                lemma_found_file(before, id);
                let k = find_file(before, id)->0;
                assert(before[k].id == file_number(fewer[k]));
            }
        }
        let (files, rest) = read_files(target, rows, hashes);
        assert forall|k: int| 0 <= k < rows.len() implies #[trigger] files[k] == file_from_row(
            target,
            rows[k],
            known_hashes(hashes, rows[k].file_id as usize),
        ) by {
            if k < fewer.len() {
                assert(fewer[k] == rows[k]);
                assert(files[k] == before[k]);
            }
        }
        assert forall|x: FileId| !#[trigger] has_file_row(rows, x) implies known_hashes(rest, x.0)
            == known_hashes(hashes, x.0) by {
            assert(x != id) by {
                assert(file_number(rows[rows.len() - 1]) == id);
            }
            assert(!has_file_row(fewer, x)) by {
                if has_file_row(fewer, x) {
                    let k = choose|k: int|
                        0 <= k < fewer.len() && file_number(#[trigger] fewer[k]) == x;
                    assert(rows[k] == fewer[k]);
                }
            }
        }
    }
}

proof fn lemma_read_folders(
    file_rows: Seq<FileEntry>,
    rows: Seq<FolderEntry>,
    n: nat,
)
    requires
        n <= rows.len(),
        distinct_folder_rows(rows),
    ensures
        read_folders(file_rows, rows, n).len() == n,
        forall|k: int|
            0 <= k < n ==> #[trigger] read_folders(file_rows, rows, n)[k] == folder_from_row(
                rows[k],
                listed_files(file_rows, folder_number(rows[k])),
                listed_folders(rows, folder_number(rows[k])),
                counters_of(
                    file_buckets(file_rows, folder_number(rows[k])) + folder_buckets(
                        rows,
                        folder_number(rows[k]),
                    ),
                ),
            ),
    decreases n,
{
    if n > 0 {
        lemma_read_folders(file_rows, rows, (n - 1) as nat);
        let before = read_folders(file_rows, rows, (n - 1) as nat);
        let row = rows[n - 1];
        let id = folder_number(row);
        assert(!exists|k: int|
            0 <= k < n - 1 && (#[trigger] rows[k]).folder_id as usize == id.0) by {
            if exists|k: int| 0 <= k < n - 1 && (#[trigger] rows[k]).folder_id as usize == id.0 {
                let k = choose|k: int|
                    0 <= k < n - 1 && (#[trigger] rows[k]).folder_id as usize == id.0;
                assert(folder_number(rows[k]) == folder_number(rows[n - 1]));
            }
        }
        assert(find_folder(before, id).is_none()) by {
            if find_folder(before, id).is_some() {
                lemma_found_folder(before, id);
                let k = find_folder(before, id)->0;
                assert(before[k].id == folder_number(rows[k]));
                assert(folder_number(rows[k]) == folder_number(rows[n - 1]));
            }
        }
    }
}

/// Whether one of the rows is about a file in a folder.
spec fn lists_file(rows: Seq<FileEntry>, parent: FolderId, x: FileId) -> bool {
    exists|k: int|
        0 <= k < rows.len() && file_number(#[trigger] rows[k]) == x && column_parent(
            rows[k].parent_folder_id,
        ) == Some(parent)
}

/// Whether one of the rows is about a folder in a folder.
spec fn lists_folder(rows: Seq<FolderEntry>, parent: FolderId, x: FolderId) -> bool {
    exists|k: int|
        0 <= k < rows.len() && folder_number(#[trigger] rows[k]) == x && column_parent(
            rows[k].parent_folder_id,
        ) == Some(parent)
}

proof fn lemma_listed_files(rows: Seq<FileEntry>, parent: FolderId)
    requires
        distinct_file_rows(rows),
    ensures
        listed_files(rows, parent).no_duplicates(),
        forall|x: FileId|
            #[trigger] listed_files(rows, parent).contains(x) <==> lists_file(rows, parent, x),
    decreases rows.len(),
{
    if rows.len() > 0 {
        let fewer = rows.drop_last();
        let row = rows.last();
        let n = rows.len() - 1;
        assert(rows[n] == row);
        assert forall|k: int| 0 <= k < n implies #[trigger] fewer[k] == rows[k] by {}
        assert(distinct_file_rows(fewer)) by {
            assert forall|k: int, l: int|
                0 <= k < fewer.len() && 0 <= l < fewer.len() && file_number(#[trigger] fewer[k])
                    == file_number(#[trigger] fewer[l]) implies k == l by {
                assert(rows[k] == fewer[k] && rows[l] == fewer[l]);
            }
        }
        lemma_listed_files(fewer, parent);
        let before = listed_files(fewer, parent);
        let ids = listed_files(rows, parent);
        assert forall|x: FileId| #[trigger] ids.contains(x) <==> lists_file(rows, parent, x) by {
            assert(before.contains(x) <==> lists_file(fewer, parent, x));
            if lists_file(fewer, parent, x) {
                let k = choose|k: int|
                    0 <= k < fewer.len() && file_number(#[trigger] fewer[k]) == x && column_parent(
                        fewer[k].parent_folder_id,
                    ) == Some(parent);
                assert(file_number(rows[k]) == x);
            }
            if lists_file(rows, parent, x) {
                let k = choose|k: int|
                    0 <= k < rows.len() && file_number(#[trigger] rows[k]) == x && column_parent(
                        rows[k].parent_folder_id,
                    ) == Some(parent);
                if k < n {
                    assert(file_number(fewer[k]) == x);
                }
            }
            if column_parent(row.parent_folder_id) == Some(parent) {
                assert(ids == before.push(file_number(row)));
                assert(ids[ids.len() - 1] == file_number(row));
                if before.contains(x) {
                    let i = choose|i: int| 0 <= i < before.len() && before[i] == x;
                    assert(ids[i] == x);
                }
                if ids.contains(x) {
                    let i = choose|i: int| 0 <= i < ids.len() && ids[i] == x;
                    if i < before.len() {
                        assert(before[i] == x);
                    } else {
                        assert(file_number(rows[n]) == x);
                    }
                }
                if file_number(rows[n]) == x {
                    assert(ids.contains(x));
                }
            }
        }
        assert(ids.no_duplicates()) by {
            assert(!before.contains(file_number(row))) by {
                if before.contains(file_number(row)) {
                    assert(lists_file(fewer, parent, file_number(row)));
                    let k = choose|k: int|
                        0 <= k < fewer.len() && file_number(#[trigger] fewer[k]) == file_number(row)
                            && column_parent(fewer[k].parent_folder_id) == Some(parent);
                    assert(file_number(rows[k]) == file_number(rows[n]));
                }
            }
        }
    }
}

proof fn lemma_listed_folders(rows: Seq<FolderEntry>, parent: FolderId)
    requires
        distinct_folder_rows(rows),
    ensures
        listed_folders(rows, parent).no_duplicates(),
        forall|x: FolderId|
            #[trigger] listed_folders(rows, parent).contains(x) <==> lists_folder(rows, parent, x),
    decreases rows.len(),
{
    if rows.len() > 0 {
        let fewer = rows.drop_last();
        let row = rows.last();
        let n = rows.len() - 1;
        assert(rows[n] == row);
        assert forall|k: int| 0 <= k < n implies #[trigger] fewer[k] == rows[k] by {}
        assert(distinct_folder_rows(fewer)) by {
            assert forall|k: int, l: int|
                0 <= k < fewer.len() && 0 <= l < fewer.len() && folder_number(#[trigger] fewer[k])
                    == folder_number(#[trigger] fewer[l]) implies k == l by {
                assert(rows[k] == fewer[k] && rows[l] == fewer[l]);
            }
        }
        lemma_listed_folders(fewer, parent);
        let before = listed_folders(fewer, parent);
        let ids = listed_folders(rows, parent);
        assert forall|x: FolderId| #[trigger] ids.contains(x) <==> lists_folder(
            rows,
            parent,
            x,
        ) by {
            assert(before.contains(x) <==> lists_folder(fewer, parent, x));
            if lists_folder(fewer, parent, x) {
                let k = choose|k: int|
                    0 <= k < fewer.len() && folder_number(#[trigger] fewer[k]) == x
                        && column_parent(fewer[k].parent_folder_id) == Some(parent);
                assert(folder_number(rows[k]) == x);
            }
            if lists_folder(rows, parent, x) {
                let k = choose|k: int|
                    0 <= k < rows.len() && folder_number(#[trigger] rows[k]) == x && column_parent(
                        rows[k].parent_folder_id,
                    ) == Some(parent);
                if k < n {
                    assert(folder_number(fewer[k]) == x);
                }
            }
            if column_parent(row.parent_folder_id) == Some(parent) {
                assert(ids == before.push(folder_number(row)));
                assert(ids[ids.len() - 1] == folder_number(row));
                if before.contains(x) {
                    let i = choose|i: int| 0 <= i < before.len() && before[i] == x;
                    assert(ids[i] == x);
                }
                if ids.contains(x) {
                    let i = choose|i: int| 0 <= i < ids.len() && ids[i] == x;
                    if i < before.len() {
                        assert(before[i] == x);
                    } else {
                        assert(folder_number(rows[n]) == x);
                    }
                }
                if folder_number(rows[n]) == x {
                    assert(ids.contains(x));
                }
            }
        }
        assert(ids.no_duplicates()) by {
            assert(!before.contains(folder_number(row))) by {
                if before.contains(folder_number(row)) {
                    assert(lists_folder(fewer, parent, folder_number(row)));
                    let k = choose|k: int|
                        0 <= k < fewer.len() && folder_number(#[trigger] fewer[k])
                            == folder_number(row) && column_parent(fewer[k].parent_folder_id)
                            == Some(parent);
                    assert(folder_number(rows[k]) == folder_number(rows[n]));
                }
            }
        }
    }
}

/// How often a bucket occurs.
spec fn times(buckets: Seq<StatusBucket>, b: StatusBucket) -> nat
    decreases buckets.len(),
{
    if buckets.len() == 0 {
        0
    } else {
        times(buckets.drop_last(), b) + if buckets.last() == b {
            1nat
        } else {
            0nat
        }
    }
}

proof fn lemma_times_together(x: Seq<StatusBucket>, y: Seq<StatusBucket>, b: StatusBucket)
    ensures
        times(x + y, b) == times(x, b) + times(y, b),
    decreases y.len(),
{
    if y.len() == 0 {
        assert(x + y =~= x);
    } else {
        lemma_times_together(x, y.drop_last(), b);
        assert((x + y).drop_last() =~= x + y.drop_last());
        assert((x + y).last() == y.last());
    }
}

proof fn lemma_counters(buckets: Seq<StatusBucket>, b: StatusBucket)
    requires
        buckets.len() <= usize::MAX,
    ensures
        counters_of(buckets).len() == 6,
        counters_of(buckets)[b.index()] == times(buckets, b),
    decreases buckets.len(),
{
    if buckets.len() > 0 {
        lemma_counters(buckets.drop_last(), b);
        lemma_counters_bound(buckets.drop_last(), buckets.last());
        lemma_counters(buckets.drop_last(), buckets.last());
    }
}

proof fn lemma_file_buckets(
    rows: Seq<FileEntry>,
    id: DownloadId,
    files: Seq<FileModel>,
    parent: FolderId,
    b: StatusBucket,
)
    requires
        unique_files(files),
        forall|k: int| 0 <= k < rows.len() ==> stands_for_file(#[trigger] rows[k], id, files),
    ensures
        file_buckets(rows, parent).len() <= rows.len(),
        times(file_buckets(rows, parent), b) == count_files(
            listed_files(rows, parent),
            files,
            b,
        ),
    decreases rows.len(),
{
    if rows.len() > 0 {
        let fewer = rows.drop_last();
        let row = rows.last();
        assert forall|k: int| 0 <= k < fewer.len() implies stands_for_file(
            #[trigger] fewer[k],
            id,
            files,
        ) by {
            assert(stands_for_file(rows[k], id, files));
        }
        lemma_file_buckets(fewer, id, files, parent, b);
        if column_parent(row.parent_folder_id) == Some(parent) {
            assert(stands_for_file(rows[rows.len() - 1], id, files));
            let j = choose|j: int|
                0 <= j < files.len() && is_file_entry(row, id, #[trigger] files[j]);
            lemma_signed_round_trip(files[j].id.0);
            lemma_find_file(files, j);
            law_file_status_round_trip(files[j].status);
            let before = file_buckets(fewer, parent);
            let bucket = files[j].status.spec_bucket();
            assert(file_buckets(rows, parent) == before.push(bucket));
            assert(before.push(bucket).drop_last() =~= before);
            let ids = listed_files(fewer, parent);
            assert(ids.push(file_number(row)).drop_last() =~= ids);
        }
    }
}

proof fn lemma_folder_buckets(
    rows: Seq<FolderEntry>,
    id: DownloadId,
    folders: Seq<FolderModel>,
    parent: FolderId,
    b: StatusBucket,
)
    requires
        unique_folders(folders),
        forall|k: int| 0 <= k < rows.len() ==> stands_for_folder(#[trigger] rows[k], id, folders),
    ensures
        folder_buckets(rows, parent).len() <= rows.len(),
        times(folder_buckets(rows, parent), b) == count_folders(
            listed_folders(rows, parent),
            folders,
            b,
        ),
    decreases rows.len(),
{
    if rows.len() > 0 {
        let fewer = rows.drop_last();
        let row = rows.last();
        assert forall|k: int| 0 <= k < fewer.len() implies stands_for_folder(
            #[trigger] fewer[k],
            id,
            folders,
        ) by {
            assert(stands_for_folder(rows[k], id, folders));
        }
        lemma_folder_buckets(fewer, id, folders, parent, b);
        if column_parent(row.parent_folder_id) == Some(parent) {
            assert(stands_for_folder(rows[rows.len() - 1], id, folders));
            let j = choose|j: int|
                0 <= j < folders.len() && is_folder_entry(row, id, #[trigger] folders[j]);
            lemma_signed_round_trip(folders[j].id.0);
            lemma_find_folder(folders, j);
            law_download_status_round_trip(folders[j].status);
            let before = folder_buckets(fewer, parent);
            let bucket = folders[j].status.spec_bucket();
            assert(folder_buckets(rows, parent) == before.push(bucket));
            assert(before.push(bucket).drop_last() =~= before);
            let ids = listed_folders(fewer, parent);
            assert(ids.push(folder_number(row)).drop_last() =~= ids);
        }
    }
}

proof fn lemma_count_without_file(
    ids: Seq<FileId>,
    i: int,
    files: Seq<FileModel>,
    b: StatusBucket,
)
    requires
        0 <= i < ids.len(),
    ensures
        count_files(ids, files, b) == count_files(ids.remove(i), files, b) + count_files(
            seq![ids[i]],
            files,
            b,
        ),
    decreases ids.len(),
{
    let one = seq![ids[i]];
    assert(count_files(one.drop_last(), files, b) == 0);
    if i == ids.len() - 1 {
        assert(ids.remove(i) =~= ids.drop_last());
    } else {
        lemma_count_without_file(ids.drop_last(), i, files, b);
        assert(ids.remove(i).drop_last() =~= ids.drop_last().remove(i));
        assert(ids.remove(i).last() == ids.last());
    }
}

proof fn lemma_count_without_folder(
    ids: Seq<FolderId>,
    i: int,
    folders: Seq<FolderModel>,
    b: StatusBucket,
)
    requires
        0 <= i < ids.len(),
    ensures
        count_folders(ids, folders, b) == count_folders(ids.remove(i), folders, b)
            + count_folders(seq![ids[i]], folders, b),
    decreases ids.len(),
{
    let one = seq![ids[i]];
    assert(count_folders(one.drop_last(), folders, b) == 0);
    if i == ids.len() - 1 {
        assert(ids.remove(i) =~= ids.drop_last());
    } else {
        lemma_count_without_folder(ids.drop_last(), i, folders, b);
        assert(ids.remove(i).drop_last() =~= ids.drop_last().remove(i));
        assert(ids.remove(i).last() == ids.last());
    }
}

proof fn lemma_same_files_count(
    x: Seq<FileId>,
    y: Seq<FileId>,
    files: Seq<FileModel>,
    b: StatusBucket,
)
    requires
        same_file_list(x, y),
        y.no_duplicates(),
    ensures
        count_files(x, files, b) == count_files(y, files, b),
    decreases x.len(),
{
    if x.len() == 0 {
        if y.len() > 0 {
            assert(y.contains(y[0]));
            assert(x.contains(y[0]));
        }
    } else {
        let last = x.last();
        assert(x[x.len() - 1] == last);
        assert(x.contains(last));
        let i = choose|i: int| 0 <= i < y.len() && y[i] == last;
        let fewer_x = x.drop_last();
        let fewer_y = y.remove(i);
        assert forall|e: FileId| #[trigger] fewer_x.contains(e) <==> fewer_y.contains(e) by {
            assert(x.contains(e) <==> y.contains(e));
            if fewer_x.contains(e) {
                let k = choose|k: int| 0 <= k < fewer_x.len() && fewer_x[k] == e;
                assert(x[k] == e);
                let j = choose|j: int| 0 <= j < y.len() && y[j] == e;
                assert(j != i);
                if j < i {
                    assert(fewer_y[j] == e);
                } else {
                    assert(fewer_y[j - 1] == e);
                }
            }
            if fewer_y.contains(e) {
                let j = choose|j: int| 0 <= j < fewer_y.len() && fewer_y[j] == e;
                if j < i {
                    assert(y[j] == e);
                } else {
                    assert(y[j + 1] == e);
                }
                let k = choose|k: int| 0 <= k < x.len() && x[k] == e;
                assert(k != x.len() - 1);
                assert(fewer_x[k] == e);
            }
        }
        lemma_same_files_count(fewer_x, fewer_y, files, b);
        lemma_count_without_file(y, i, files, b);
        lemma_count_without_file(x, x.len() - 1, files, b);
        assert(x.remove(x.len() - 1) =~= fewer_x);
    }
}

proof fn lemma_same_folders_count(
    x: Seq<FolderId>,
    y: Seq<FolderId>,
    folders: Seq<FolderModel>,
    b: StatusBucket,
)
    requires
        same_folder_list(x, y),
        y.no_duplicates(),
    ensures
        count_folders(x, folders, b) == count_folders(y, folders, b),
    decreases x.len(),
{
    if x.len() == 0 {
        if y.len() > 0 {
            assert(y.contains(y[0]));
            assert(x.contains(y[0]));
        }
    } else {
        let last = x.last();
        assert(x[x.len() - 1] == last);
        assert(x.contains(last));
        let i = choose|i: int| 0 <= i < y.len() && y[i] == last;
        let fewer_x = x.drop_last();
        let fewer_y = y.remove(i);
        assert forall|e: FolderId| #[trigger] fewer_x.contains(e) <==> fewer_y.contains(e) by {
            assert(x.contains(e) <==> y.contains(e));
            if fewer_x.contains(e) {
                let k = choose|k: int| 0 <= k < fewer_x.len() && fewer_x[k] == e;
                assert(x[k] == e);
                let j = choose|j: int| 0 <= j < y.len() && y[j] == e;
                assert(j != i);
                if j < i {
                    assert(fewer_y[j] == e);
                } else {
                    assert(fewer_y[j - 1] == e);
                }
            }
            if fewer_y.contains(e) {
                let j = choose|j: int| 0 <= j < fewer_y.len() && fewer_y[j] == e;
                if j < i {
                    assert(y[j] == e);
                } else {
                    assert(y[j + 1] == e);
                }
                let k = choose|k: int| 0 <= k < x.len() && x[k] == e;
                assert(k != x.len() - 1);
                assert(fewer_x[k] == e);
            }
        }
        lemma_same_folders_count(fewer_x, fewer_y, folders, b);
        lemma_count_without_folder(y, i, folders, b);
        lemma_count_without_folder(x, x.len() - 1, folders, b);
        assert(x.remove(x.len() - 1) =~= fewer_x);
    }
}

proof fn lemma_file_back(
    target: TargetOs,
    id: DownloadId,
    f: FileModel,
    row: FileEntry,
    hash_rows: Seq<ChunkHashRow>,
)
    requires
        is_file_entry(row, id, f),
        storable(target, f),
        are_hash_rows(hash_rows_of(hash_rows, f.id), id, f),
    ensures
        file_number(row) == f.id,
        file_back(
            f,
            file_from_row(target, row, known_hashes(hashes_in(hash_rows), row.file_id as usize)),
        ),
{
    lemma_signed_round_trip(f.id.0);
    let own = known_hashes(hashes_in(hash_rows), f.id.0);
    lemma_hashes_by_file(hash_rows, f.id);
    law_written_hashes_read_back(hash_rows_of(hash_rows, f.id), id, f);
    law_stored_file_reads_back(target, f, id, row);
    match f.size {
        Some(FileSize::Known(_)) => {
            law_read_hashes_fit(own, f.chunk_hashes, f.size);
        },
        _ => {},
    }
}

proof fn lemma_file_of_row(
    rows: Seq<FileEntry>,
    id: DownloadId,
    files: Seq<FileModel>,
    k: int,
) -> (i: int)
    requires
        are_file_rows(rows, id, files),
        0 <= k < rows.len(),
    ensures
        0 <= i < files.len(),
        is_file_entry(rows[k], id, files[i]),
        file_number(rows[k]) == files[i].id,
        column_parent(rows[k].parent_folder_id) == files[i].parent_id,
{
    assert(stands_for_file(rows[k], id, files));
    let i = choose|i: int|
        0 <= i < files.len() && is_file_entry(rows[k], id, #[trigger] files[i]);
    lemma_signed_round_trip(files[i].id.0);
    if files[i].parent_id.is_some() {
        lemma_signed_round_trip((files[i].parent_id->0).0);
    }
    i
}

proof fn lemma_row_of_file(
    rows: Seq<FileEntry>,
    id: DownloadId,
    files: Seq<FileModel>,
    i: int,
) -> (k: int)
    requires
        are_file_rows(rows, id, files),
        unique_files(files),
        0 <= i < files.len(),
    ensures
        0 <= k < rows.len(),
        is_file_entry(rows[k], id, files[i]),
        file_number(rows[k]) == files[i].id,
        column_parent(rows[k].parent_folder_id) == files[i].parent_id,
{
    assert(has_file_row(rows, files[i].id));
    let k = choose|k: int|
        0 <= k < rows.len() && file_number(#[trigger] rows[k]) == files[i].id;
    let m = lemma_file_of_row(rows, id, files, k);
    assert(files[m].id == files[i].id);
    k
}

proof fn lemma_listed_are_child_files(d: DownloadModel, rows: Seq<FileEntry>, j: int)
    requires
        linked(d.files, d.folders),
        are_file_rows(rows, d.id, d.files),
        0 <= j < d.folders.len(),
    ensures
        same_file_list(listed_files(rows, d.folders[j].id), d.folders[j].child_files),
{
    let f = d.folders[j];
    let listed = listed_files(rows, f.id);
    lemma_listed_files(rows, f.id);
    lemma_linked_folder(d.files, d.folders, j);
    assert forall|x: FileId| #[trigger] listed.contains(x) <==> f.child_files.contains(x) by {
        if listed.contains(x) {
            let k = choose|k: int|
                0 <= k < rows.len() && file_number(#[trigger] rows[k]) == x && column_parent(
                    rows[k].parent_folder_id,
                ) == Some(f.id);
            let i = lemma_file_of_row(rows, d.id, d.files, k);
            lemma_lists_file(d.files, d.folders, j, i);
        }
        if f.child_files.contains(x) {
            let c = choose|c: int| 0 <= c < f.child_files.len() && f.child_files[c] == x;
            assert(find_file(d.files, d.folders[j].child_files[c]).is_some());
            lemma_found_file(d.files, x);
            let i = find_file(d.files, x)->0;
            lemma_lists_file(d.files, d.folders, j, i);
            let k = lemma_row_of_file(rows, d.id, d.files, i);
            assert(lists_file(rows, f.id, x));
        }
    }
}

proof fn lemma_folder_of_row(
    rows: Seq<FolderEntry>,
    id: DownloadId,
    folders: Seq<FolderModel>,
    k: int,
) -> (i: int)
    requires
        are_folder_rows(rows, id, folders),
        0 <= k < rows.len(),
    ensures
        0 <= i < folders.len(),
        is_folder_entry(rows[k], id, folders[i]),
        folder_number(rows[k]) == folders[i].id,
        column_parent(rows[k].parent_folder_id) == folders[i].parent_id,
{
    assert(stands_for_folder(rows[k], id, folders));
    let i = choose|i: int|
        0 <= i < folders.len() && is_folder_entry(rows[k], id, #[trigger] folders[i]);
    lemma_signed_round_trip(folders[i].id.0);
    if folders[i].parent_id.is_some() {
        lemma_signed_round_trip((folders[i].parent_id->0).0);
    }
    i
}

proof fn lemma_row_of_folder(
    rows: Seq<FolderEntry>,
    id: DownloadId,
    folders: Seq<FolderModel>,
    i: int,
) -> (k: int)
    requires
        are_folder_rows(rows, id, folders),
        unique_folders(folders),
        0 <= i < folders.len(),
    ensures
        0 <= k < rows.len(),
        is_folder_entry(rows[k], id, folders[i]),
        folder_number(rows[k]) == folders[i].id,
        column_parent(rows[k].parent_folder_id) == folders[i].parent_id,
{
    assert(has_folder_row(rows, folders[i].id));
    let k = choose|k: int|
        0 <= k < rows.len() && folder_number(#[trigger] rows[k]) == folders[i].id;
    let m = lemma_folder_of_row(rows, id, folders, k);
    assert(folders[m].id == folders[i].id);
    k
}

proof fn lemma_listed_are_child_folders(d: DownloadModel, rows: Seq<FolderEntry>, j: int)
    requires
        linked(d.files, d.folders),
        are_folder_rows(rows, d.id, d.folders),
        0 <= j < d.folders.len(),
    ensures
        same_folder_list(listed_folders(rows, d.folders[j].id), d.folders[j].child_folders),
{
    let f = d.folders[j];
    let listed = listed_folders(rows, f.id);
    lemma_listed_folders(rows, f.id);
    lemma_linked_folder(d.files, d.folders, j);
    assert forall|x: FolderId| #[trigger] listed.contains(x) <==> f.child_folders.contains(x) by {
        if listed.contains(x) {
            let k = choose|k: int|
                0 <= k < rows.len() && folder_number(#[trigger] rows[k]) == x && column_parent(
                    rows[k].parent_folder_id,
                ) == Some(f.id);
            let i = lemma_folder_of_row(rows, d.id, d.folders, k);
            lemma_lists_folder(d.files, d.folders, j, i);
        }
        if f.child_folders.contains(x) {
            let c = choose|c: int| 0 <= c < f.child_folders.len() && f.child_folders[c] == x;
            assert(find_folder(d.folders, d.folders[j].child_folders[c]).is_some());
            lemma_found_folder(d.folders, x);
            let i = find_folder(d.folders, x)->0;
            lemma_lists_folder(d.files, d.folders, j, i);
            let k = lemma_row_of_folder(rows, d.id, d.folders, i);
            assert(lists_folder(rows, f.id, x));
        }
    }
}

proof fn lemma_folder_back(
    d: DownloadModel,
    j: int,
    row: FolderEntry,
    file_rows: Seq<FileEntry>,
    folder_rows: Seq<FolderEntry>,
)
    requires
        tree_ok(d),
        0 <= j < d.folders.len(),
        is_folder_entry(row, d.id, d.folders[j]),
        are_file_rows(file_rows, d.id, d.files),
        are_folder_rows(folder_rows, d.id, d.folders),
        file_rows.len() + folder_rows.len() <= usize::MAX,
    ensures
        folder_number(row) == d.folders[j].id,
        folder_back(
            d.folders[j],
            folder_from_row(
                row,
                listed_files(file_rows, folder_number(row)),
                listed_folders(folder_rows, folder_number(row)),
                counters_of(
                    file_buckets(file_rows, folder_number(row)) + folder_buckets(
                        folder_rows,
                        folder_number(row),
                    ),
                ),
            ),
        ),
{
    let f = d.folders[j];
    lemma_signed_round_trip(f.id.0);
    law_stored_folder_reads_back(f, d.id, row);
    lemma_linked_folder(d.files, d.folders, j);
    lemma_listed_are_child_files(d, file_rows, j);
    lemma_listed_are_child_folders(d, folder_rows, j);
    let x = file_buckets(file_rows, f.id);
    let y = folder_buckets(folder_rows, f.id);
    assert forall|b: StatusBucket| #![trigger b.index()]
        counters_of(x + y).len() == 6 && counters_of(x + y)[b.index()] == f.counters[b.index()] by {
        lemma_file_buckets(file_rows, d.id, d.files, f.id, b);
        lemma_folder_buckets(folder_rows, d.id, d.folders, f.id, b);
        lemma_times_together(x, y, b);
        lemma_counters(x + y, b);
        lemma_same_files_count(listed_files(file_rows, f.id), f.child_files, d.files, b);
        lemma_same_folders_count(
            listed_folders(folder_rows, f.id),
            f.child_folders,
            d.folders,
            b,
        );
        assert(counted(f, d.files, d.folders));
        assert(in_bucket(f, b) == tally(f, d.files, d.folders, b));
    }
    assert(counters_of(x + y) =~= f.counters) by {
        assert(StatusBucket::Uninitialized.index() == 0);
        assert(StatusBucket::MetadataFetched.index() == 1);
        assert(StatusBucket::Partial.index() == 2);
        assert(StatusBucket::Completed.index() == 3);
        assert(StatusBucket::Error.index() == 4);
        assert(StatusBucket::CompletedWithErrors.index() == 5);
    }
}

proof fn lemma_first_top_folder(folders: Seq<FolderModel>)
    ensures
        match first_top_folder(folders) {
            Some(id) => exists|k: int|
                0 <= k < folders.len() && (#[trigger] folders[k]).parent_id.is_none()
                    && folders[k].id == id,
            None => forall|k: int|
                0 <= k < folders.len() ==> (#[trigger] folders[k]).parent_id.is_some(),
        },
    decreases folders.len(),
{
    if folders.len() > 0 && folders[0].parent_id.is_some() {
        let rest = folders.drop_first();
        lemma_first_top_folder(rest);
        match first_top_folder(rest) {
            Some(id) => {
                let k = choose|k: int|
                    0 <= k < rest.len() && (#[trigger] rest[k]).parent_id.is_none() && rest[k].id
                        == id;
                assert(folders[k + 1] == rest[k]);
            },
            None => {
                assert forall|k: int| 0 <= k < folders.len() implies (
                #[trigger] folders[k]).parent_id.is_some() by {
                    if k > 0 {
                        assert(rest[k - 1] == folders[k]);
                    }
                }
            },
        }
    }
}

proof fn lemma_first_top_file(files: Seq<FileModel>)
    ensures
        match first_top_file(files) {
            Some(id) => exists|k: int|
                0 <= k < files.len() && (#[trigger] files[k]).parent_id.is_none() && files[k].id
                    == id,
            None => forall|k: int|
                0 <= k < files.len() ==> (#[trigger] files[k]).parent_id.is_some(),
        },
    decreases files.len(),
{
    if files.len() > 0 && files[0].parent_id.is_some() {
        let rest = files.drop_first();
        lemma_first_top_file(rest);
        match first_top_file(rest) {
            Some(id) => {
                let k = choose|k: int|
                    0 <= k < rest.len() && (#[trigger] rest[k]).parent_id.is_none() && rest[k].id
                        == id;
                assert(files[k + 1] == rest[k]);
            },
            None => {
                assert forall|k: int| 0 <= k < files.len() implies (
                #[trigger] files[k]).parent_id.is_some() by {
                    if k > 0 {
                        assert(rest[k - 1] == files[k]);
                    }
                }
            },
        }
    }
}

proof fn lemma_files_back(
    target: TargetOs,
    id: DownloadId,
    files: Seq<FileModel>,
    rows: Seq<FileEntry>,
    hash_rows: Seq<ChunkHashRow>,
)
    requires
        unique_files(files),
        are_file_rows(rows, id, files),
        forall|j: int| 0 <= j < files.len() ==> storable(target, #[trigger] files[j]),
        digests_written(hash_rows, id, files),
    ensures
        files_back(files, read_files(target, rows, hashes_in(hash_rows)).0),
{
    let hashes = hashes_in(hash_rows);
    let read = read_files(target, rows, hashes).0;
    lemma_read_files(target, rows, hashes);
    assert forall|k: int, l: int|
        0 <= k < read.len() && 0 <= l < read.len() && (#[trigger] read[k]).id == (
        #[trigger] read[l]).id implies k == l by {
        assert(file_number(rows[k]) == file_number(rows[l]));
    }
    assert forall|j: int| 0 <= j < files.len() implies (find_file(
        read,
        (#[trigger] files[j]).id,
    ) matches Some(k) && file_back(files[j], read[k])) by {
        let k = lemma_row_of_file(rows, id, files, j);
        lemma_file_back(target, id, files[j], rows[k], hash_rows);
        assert(read[k].id == files[j].id);
        lemma_find_file(read, k);
    }
    assert forall|k: int| 0 <= k < read.len() implies find_file(
        files,
        (#[trigger] read[k]).id,
    ).is_some() by {
        let i = lemma_file_of_row(rows, id, files, k);
        lemma_find_file(files, i);
    }
}

proof fn lemma_folders_back(
    d: DownloadModel,
    file_rows: Seq<FileEntry>,
    rows: Seq<FolderEntry>,
)
    requires
        tree_ok(d),
        unique_folders(d.folders),
        are_file_rows(file_rows, d.id, d.files),
        are_folder_rows(rows, d.id, d.folders),
        file_rows.len() + rows.len() <= usize::MAX,
    ensures
        folders_back(d.folders, read_folders(file_rows, rows, rows.len())),
{
    let read = read_folders(file_rows, rows, rows.len());
    lemma_read_folders(file_rows, rows, rows.len());
    assert forall|k: int, l: int|
        0 <= k < read.len() && 0 <= l < read.len() && (#[trigger] read[k]).id == (
        #[trigger] read[l]).id implies k == l by {
        assert(folder_number(rows[k]) == folder_number(rows[l]));
    }
    assert forall|j: int| 0 <= j < d.folders.len() implies (find_folder(
        read,
        (#[trigger] d.folders[j]).id,
    ) matches Some(k) && folder_back(d.folders[j], read[k])) by {
        let k = lemma_row_of_folder(rows, d.id, d.folders, j);
        lemma_folder_back(d, j, rows[k], file_rows, rows);
        assert(read[k].id == d.folders[j].id);
        lemma_find_folder(read, k);
    }
    assert forall|k: int| 0 <= k < read.len() implies find_folder(
        d.folders,
        (#[trigger] read[k]).id,
    ).is_some() by {
        let i = lemma_folder_of_row(rows, d.id, d.folders, k);
        lemma_find_folder(d.folders, i);
    }
}

proof fn lemma_root_back(d: DownloadModel, files: Seq<FileModel>, folders: Seq<FolderModel>)
    requires
        one_root(d),
        unique_files(d.files),
        unique_folders(d.folders),
        files_back(d.files, files),
        folders_back(d.folders, folders),
    ensures
        root_of(files, folders) == Some(d.root_item),
{
    lemma_first_top_folder(folders);
    lemma_first_top_file(files);
    assert forall|k: int| 0 <= k < folders.len() implies exists|j: int|
        0 <= j < d.folders.len() && (#[trigger] d.folders[j]).id == (#[trigger] folders[k]).id
            && d.folders[j].parent_id == folders[k].parent_id by {
        lemma_found_folder(d.folders, folders[k].id);
        let j = find_folder(d.folders, folders[k].id)->0;
        assert(folder_back(d.folders[j], folders[find_folder(folders, d.folders[j].id)->0]));
        lemma_find_folder(folders, k);
    }
    assert forall|k: int| 0 <= k < files.len() implies exists|j: int|
        0 <= j < d.files.len() && (#[trigger] d.files[j]).id == (#[trigger] files[k]).id
            && d.files[j].parent_id == files[k].parent_id by {
        lemma_found_file(d.files, files[k].id);
        let j = find_file(d.files, files[k].id)->0;
        assert(file_back(d.files[j], files[find_file(files, d.files[j].id)->0]));
        lemma_find_file(files, k);
    }
    match d.root_item {
        ItemId::Folder(id) => {
            lemma_found_folder(d.folders, id);
            let i = find_folder(d.folders, id)->0;
            lemma_found_folder(folders, d.folders[i].id);
            let k = find_folder(folders, d.folders[i].id)->0;
            assert(folder_back(d.folders[i], folders[k]));
            assert(folders[k].parent_id.is_none());
        },
        ItemId::File(id) => {
            lemma_found_file(d.files, id);
            let i = find_file(d.files, id)->0;
            lemma_found_file(files, d.files[i].id);
            let k = find_file(files, d.files[i].id)->0;
            assert(file_back(d.files[i], files[k]));
            assert(files[k].parent_id.is_none());
        },
    }
}

/// A download reads back from the rows that it was stored as, whatever their order: the
/// same, apart from what was being done for it, from the order of its items, and from
/// what its parts keep of themselves.
pub proof fn law_stored_download_reads_back(
    target: TargetOs,
    d: DownloadModel,
    name: Seq<char>,
    row: DownloadEntry,
    file_rows: Seq<FileEntry>,
    folder_rows: Seq<FolderEntry>,
    hash_rows: Seq<ChunkHashRow>,
)
    requires
        tree_ok(d),
        one_root(d),
        is_download_entry(row, d, name),
        are_file_rows(file_rows, d.id, d.files),
        are_folder_rows(folder_rows, d.id, d.folders),
        forall|j: int| 0 <= j < d.files.len() ==> storable(target, #[trigger] d.files[j]),
        digests_written(hash_rows, d.id, d.files),
        file_rows.len() + folder_rows.len() <= usize::MAX,
    ensures
        read_download(target, row, file_rows, folder_rows, hashes_in(hash_rows)) matches Some(
            read,
        ) && download_back(d, read),
{
    assert(unique_files(d.files) && unique_folders(d.folders)) by {
        reveal(linked);
    }
    let files = read_files(target, file_rows, hashes_in(hash_rows)).0;
    let folders = read_folders(file_rows, folder_rows, folder_rows.len());
    lemma_files_back(target, d.id, d.files, file_rows, hash_rows);
    lemma_folders_back(d, file_rows, folder_rows);
    lemma_root_back(d, files, folders);
    lemma_signed_round_trip(d.id.0);
    law_download_status_round_trip(d.status);
}

/// The rows of all batches, in order.
pub open spec fn unbatched<T>(batches: Seq<Vec<T>>) -> Seq<T>
    decreases batches.len(),
{
    if batches.len() == 0 {
        Seq::empty()
    } else {
        unbatched(batches.drop_last()) + batches.last()@
    }
}

/// The rows of files that are written.
pub open spec fn rows_of(writes: Seq<FileWrite>) -> Seq<DownloadFileRow> {
    Seq::new(writes.len(), |i: int| writes[i].row)
}

/// The rows of the digests of files that are written.
pub open spec fn digest_rows_of(writes: Seq<FileWrite>) -> Seq<ChunkHashRow>
    decreases writes.len(),
{
    if writes.len() == 0 {
        Seq::empty()
    } else {
        digest_rows_of(writes.drop_last()) + unbatched(writes.last().hashes@)
    }
}

proof fn lemma_unbatched<T>(batches: Seq<Vec<T>>, n: nat, m: int)
    requires
        batches.len() == batch_count(n),
        forall|i: int|
            0 <= i < batches.len() ==> (#[trigger] batches[i])@.len() == batch_len(n, i),
        0 <= m <= batches.len(),
    ensures
        unbatched(batches.take(m)).len() == if BATCH_SIZE * m < n {
            BATCH_SIZE * m
        } else {
            n as int
        },
        forall|t: int|
            0 <= t < unbatched(batches.take(m)).len() ==> #[trigger] unbatched(batches.take(m))[t]
                == batches[t / (BATCH_SIZE as int)]@[t % (BATCH_SIZE as int)],
    decreases m,
{
    if m > 0 {
        lemma_unbatched(batches, n, m - 1);
        assert(batches.take(m).drop_last() =~= batches.take(m - 1));
        assert(batches.take(m).last() == batches[m - 1]);
        assert(BATCH_SIZE * (m - 1) < n);
        let before = unbatched(batches.take(m - 1));
        let rows = unbatched(batches.take(m));
        assert forall|t: int| 0 <= t < rows.len() implies #[trigger] rows[t] == batches[t / (
        BATCH_SIZE as int)]@[t % (BATCH_SIZE as int)] by {
            if t < before.len() {
                assert(rows[t] == before[t]);
            }
        }
    }
}

proof fn lemma_batched<T>(batches: Seq<Vec<T>>, n: nat)
    requires
        batches.len() == batch_count(n),
        forall|i: int|
            0 <= i < batches.len() ==> (#[trigger] batches[i])@.len() == batch_len(n, i),
    ensures
        unbatched(batches).len() == n,
        forall|t: int|
            0 <= t < n ==> {
                let i = t / (BATCH_SIZE as int);
                let j = t % (BATCH_SIZE as int);
                &&& 0 <= i < batches.len()
                &&& 0 <= j < batches[i]@.len()
                &&& BATCH_SIZE * i + j == t
                &&& #[trigger] unbatched(batches)[t] == batches[i]@[j]
            },
{
    lemma_unbatched(batches, n, batches.len() as int);
    assert(batches.take(batches.len() as int) =~= batches);
}

proof fn lemma_own_rows(rows: Seq<ChunkHashRow>, id: FileId)
    ensures
        (forall|i: int| 0 <= i < rows.len() ==> (#[trigger] rows[i]).file_id as usize == id.0)
            ==> hash_rows_of(rows, id) == rows,
        (forall|i: int| 0 <= i < rows.len() ==> (#[trigger] rows[i]).file_id as usize != id.0)
            ==> hash_rows_of(rows, id) == Seq::<ChunkHashRow>::empty(),
    decreases rows.len(),
{
    if rows.len() > 0 {
        let fewer = rows.drop_last();
        lemma_own_rows(fewer, id);
        assert(fewer.push(rows.last()) =~= rows);
        assert(rows[rows.len() - 1] == rows.last());
        assert(forall|i: int| 0 <= i < fewer.len() ==> #[trigger] fewer[i] == rows[i]);
    }
}

proof fn lemma_rows_together(x: Seq<ChunkHashRow>, y: Seq<ChunkHashRow>, id: FileId)
    ensures
        hash_rows_of(x + y, id) == hash_rows_of(x, id) + hash_rows_of(y, id),
    decreases y.len(),
{
    if y.len() == 0 {
        assert(x + y =~= x);
        assert(hash_rows_of(x, id) + hash_rows_of(y, id) =~= hash_rows_of(x, id));
    } else {
        lemma_rows_together(x, y.drop_last(), id);
        assert((x + y).drop_last() =~= x + y.drop_last());
        assert((x + y).last() == y.last());
        assert(hash_rows_of(x + y, id) =~= hash_rows_of(x, id) + hash_rows_of(y, id));
    }
}

proof fn lemma_digest_rows(
    writes: Seq<FileWrite>,
    id: DownloadId,
    files: Seq<FileModel>,
    x: FileId,
)
    requires
        writes.len() <= files.len(),
        unique_files(files),
        forall|i: int| 0 <= i < writes.len() ==> is_file_write(#[trigger] writes[i], id, files[i]),
    ensures
        match find_file(files, x) {
            Some(i) => hash_rows_of(digest_rows_of(writes), x) == if i < writes.len() {
                unbatched(writes[i].hashes@)
            } else {
                Seq::<ChunkHashRow>::empty()
            },
            None => hash_rows_of(digest_rows_of(writes), x) == Seq::<ChunkHashRow>::empty(),
        },
    decreases writes.len(),
{
    if find_file(files, x).is_some() {
        lemma_found_file(files, x);
    }
    if writes.len() > 0 {
        let fewer = writes.drop_last();
        let n = writes.len() - 1;
        assert(forall|i: int| 0 <= i < fewer.len() ==> #[trigger] fewer[i] == writes[i]);
        lemma_digest_rows(fewer, id, files, x);
        assert(is_file_write(writes[n], id, files[n]));
        let own = unbatched(writes[n].hashes@);
        lemma_written_digests(writes[n], id, files[n]);
        assert(forall|i: int|
            0 <= i < own.len() ==> (#[trigger] own[i]).file_id as usize == files[n].id.0) by {
            lemma_signed_round_trip(files[n].id.0);
        }
        lemma_own_rows(own, x);
        lemma_rows_together(digest_rows_of(fewer), own, x);
        lemma_find_file(files, n);
        assert(hash_rows_of(digest_rows_of(writes), x) =~= hash_rows_of(digest_rows_of(fewer), x)
            + hash_rows_of(own, x));
    }
}

proof fn lemma_written_digests(w: FileWrite, id: DownloadId, file: FileModel)
    requires
        is_file_write(w, id, file),
    ensures
        are_hash_rows(unbatched(w.hashes@), id, file),
{
    let entries = hash_entries(file.chunk_hashes);
    let rows = unbatched(w.hashes@);
    lemma_batched(w.hashes@, entries.len());
    assert forall|t: int| 0 <= t < rows.len() implies is_hash_row(
        #[trigger] rows[t],
        id,
        file.id,
        entries[t],
    ) by {
        let i = t / (BATCH_SIZE as int);
        let j = t % (BATCH_SIZE as int);
        assert(is_hash_row(w.hashes@[i]@[j], id, file.id, entries[BATCH_SIZE * i + j]));
    }
}

/// Whether rows of files were read, and their paths came back as they were.
pub open spec fn files_came_back(
    rows: Seq<DownloadFileRow>,
    entries: Seq<FileEntry>,
    files: Seq<FileModel>,
) -> bool {
    &&& entries.len() == rows.len()
    &&& forall|t: int|
        0 <= t < entries.len() ==> is_file_entry_of(rows[t], #[trigger] entries[t]) && path_view(
            entries[t].relative_path,
        ) == Some(files[t].path)
}

/// Whether rows of folders were read, and their paths came back as they were.
pub open spec fn folders_came_back(
    rows: Seq<DownloadFolderRow>,
    entries: Seq<FolderEntry>,
    folders: Seq<FolderModel>,
) -> bool {
    &&& entries.len() == rows.len()
    &&& forall|t: int|
        0 <= t < entries.len() ==> is_folder_entry_of(rows[t], #[trigger] entries[t])
            && path_view(entries[t].relative_path) == Some(folders[t].path)
}

proof fn lemma_written_folders(
    batches: Seq<Vec<DownloadFolderRow>>,
    rows: Seq<FolderEntry>,
    id: DownloadId,
    folders: Seq<FolderModel>,
)
    requires
        are_folder_batches(batches, id, folders),
        unique_folders(folders),
        folders_came_back(unbatched(batches), rows, folders),
    ensures
        unbatched(batches).len() == folders.len(),
        are_folder_rows(rows, id, folders),
{
    let written = unbatched(batches);
    lemma_batched(batches, folders.len());
    assert forall|t: int| 0 <= t < rows.len() implies is_folder_entry(
        #[trigger] rows[t],
        id,
        folders[t],
    ) && folder_number(rows[t]) == folders[t].id by {
        let i = t / (BATCH_SIZE as int);
        let j = t % (BATCH_SIZE as int);
        assert(is_folder_row(batches[i]@[j], id, folders[BATCH_SIZE * i + j]));
        assert(is_folder_entry_of(written[t], rows[t]));
        lemma_signed_round_trip(folders[t].id.0);
    }
    assert forall|k: int, l: int|
        0 <= k < rows.len() && 0 <= l < rows.len() && folder_number(#[trigger] rows[k])
            == folder_number(#[trigger] rows[l]) implies k == l by {
        assert(folders[k].id == folders[l].id);
    }
    assert forall|k: int| 0 <= k < rows.len() implies stands_for_folder(
        #[trigger] rows[k],
        id,
        folders,
    ) by {
        assert(is_folder_entry(rows[k], id, folders[k]));
    }
    assert forall|j: int| 0 <= j < folders.len() implies has_folder_row(
        rows,
        (#[trigger] folders[j]).id,
    ) by {
        assert(folder_number(rows[j]) == folders[j].id);
    }
}

proof fn lemma_written_files(
    batches: Seq<Vec<FileWrite>>,
    rows: Seq<FileEntry>,
    id: DownloadId,
    files: Seq<FileModel>,
)
    requires
        are_file_batches(batches, id, files),
        unique_files(files),
        files_came_back(rows_of(unbatched(batches)), rows, files),
    ensures
        unbatched(batches).len() == files.len(),
        forall|t: int|
            0 <= t < files.len() ==> is_file_write(#[trigger] unbatched(batches)[t], id, files[t]),
        are_file_rows(rows, id, files),
{
    let writes = unbatched(batches);
    lemma_batched(batches, files.len());
    assert forall|t: int| 0 <= t < files.len() implies is_file_write(
        #[trigger] writes[t],
        id,
        files[t],
    ) by {
        let i = t / (BATCH_SIZE as int);
        let j = t % (BATCH_SIZE as int);
        assert(is_file_write(batches[i]@[j], id, files[BATCH_SIZE * i + j]));
    }
    let written = rows_of(writes);
    assert forall|t: int| 0 <= t < rows.len() implies is_file_entry(#[trigger] rows[t], id, files[t])
        && file_number(rows[t]) == files[t].id by {
        assert(is_file_write(writes[t], id, files[t]));
        assert(is_file_entry_of(written[t], rows[t]));
        lemma_signed_round_trip(files[t].id.0);
    }
    assert forall|k: int, l: int|
        0 <= k < rows.len() && 0 <= l < rows.len() && file_number(#[trigger] rows[k])
            == file_number(#[trigger] rows[l]) implies k == l by {
        assert(files[k].id == files[l].id);
    }
    assert forall|k: int| 0 <= k < rows.len() implies stands_for_file(
        #[trigger] rows[k],
        id,
        files,
    ) by {
        assert(is_file_entry(rows[k], id, files[k]));
    }
    assert forall|j: int| 0 <= j < files.len() implies has_file_row(
        rows,
        (#[trigger] files[j]).id,
    ) by {
        assert(file_number(rows[j]) == files[j].id);
    }
}

proof fn lemma_written_digest_rows(writes: Seq<FileWrite>, id: DownloadId, files: Seq<FileModel>)
    requires
        writes.len() == files.len(),
        unique_files(files),
        forall|t: int| 0 <= t < files.len() ==> is_file_write(#[trigger] writes[t], id, files[t]),
    ensures
        digests_written(digest_rows_of(writes), id, files),
{
    assert forall|j: int| 0 <= j < files.len() implies are_hash_rows(
        hash_rows_of(digest_rows_of(writes), (#[trigger] files[j]).id),
        id,
        files[j],
    ) by {
        assert(is_file_write(writes[j], id, files[j]));
        lemma_find_file(files, j);
        lemma_digest_rows(writes, id, files, files[j].id);
        lemma_written_digests(writes[j], id, files[j]);
    }
}

/// What is written of the items of a download, once it has been read, stands for them.
proof fn lemma_written_rows(
    d: DownloadModel,
    w: DownloadWrite,
    file_rows: Seq<FileEntry>,
    folder_rows: Seq<FolderEntry>,
)
    requires
        tree_ok(d),
        are_folder_batches(w.folders@, d.id, d.folders),
        are_file_batches(w.files@, d.id, d.files),
        files_came_back(rows_of(unbatched(w.files@)), file_rows, d.files),
        folders_came_back(unbatched(w.folders@), folder_rows, d.folders),
    ensures
        file_rows.len() == d.files.len(),
        folder_rows.len() == d.folders.len(),
        are_file_rows(file_rows, d.id, d.files),
        are_folder_rows(folder_rows, d.id, d.folders),
        digests_written(digest_rows_of(unbatched(w.files@)), d.id, d.files),
{
    assert(unique_files(d.files) && unique_folders(d.folders)) by {
        reveal(linked);
    }
    assert(folder_rows.len() == d.folders.len() && are_folder_rows(
        folder_rows,
        d.id,
        d.folders,
    )) by {
        lemma_written_folders(w.folders@, folder_rows, d.id, d.folders);
    }
    lemma_written_files(w.files@, file_rows, d.id, d.files);
    lemma_written_digest_rows(unbatched(w.files@), d.id, d.files);
}

proof fn lemma_download_came_back(
    d: DownloadModel,
    name: Seq<char>,
    written: DownloadRow,
    row: DownloadEntry,
)
    requires
        is_download_row(written, d, name),
        is_download_entry_of(written, row),
        path_view(row.relative_path) == Some(d.save_path),
    ensures
        is_download_entry(row, d, name),
{
}

/// What is written of a download reads back as that download, where the path of every item
/// is read as it was. Which paths are is for the machine to say; those of
/// `law_stored_paths_read_back` are on every one.
pub proof fn law_written_download_reads_back(
    target: TargetOs,
    d: DownloadModel,
    name: Seq<char>,
    w: DownloadWrite,
    row: DownloadEntry,
    file_rows: Seq<FileEntry>,
    folder_rows: Seq<FolderEntry>,
)
    requires
        tree_ok(d),
        one_root(d),
        is_download_row(w.row, d, name),
        are_folder_batches(w.folders@, d.id, d.folders),
        are_file_batches(w.files@, d.id, d.files),
        forall|j: int| 0 <= j < d.files.len() ==> storable(target, #[trigger] d.files[j]),
        d.files.len() + d.folders.len() <= usize::MAX,
        is_download_entry_of(w.row, row),
        path_view(row.relative_path) == Some(d.save_path),
        files_came_back(rows_of(unbatched(w.files@)), file_rows, d.files),
        folders_came_back(unbatched(w.folders@), folder_rows, d.folders),
    ensures
        read_download(
            target,
            row,
            file_rows,
            folder_rows,
            hashes_in(digest_rows_of(unbatched(w.files@))),
        ) matches Some(read) && download_back(d, read),
{
    let hash_rows = digest_rows_of(unbatched(w.files@));
    assert(are_file_rows(file_rows, d.id, d.files) && are_folder_rows(
        folder_rows,
        d.id,
        d.folders,
    ) && digests_written(hash_rows, d.id, d.files) && file_rows.len() + folder_rows.len()
        <= usize::MAX) by {
        lemma_written_rows(d, w, file_rows, folder_rows);
    }
    lemma_download_came_back(d, name, w.row, row);
    law_stored_download_reads_back(
        target,
        d,
        name,
        row,
        file_rows,
        folder_rows,
        hash_rows,
    );
}

/// Whether a path was stored so that every machine reads it alike: as text, with slashes
/// between names that mean the same everywhere.
pub open spec fn travels(path: Seq<Seq<u8>>, raw: Seq<u8>) -> bool {
    all_text(path) && exists|rooted: bool, names: Seq<Seq<u8>>|
        #![trigger path_of_names(rooted, names)]
        path == path_of_names(rooted, names) && are_portable(names) && raw != spelled(
            rooted,
            names,
            92,
        )
}

proof fn lemma_travelling_path_reads_back(
    path: Seq<Seq<u8>>,
    raw: Seq<u8>,
    text: Seq<char>,
    read: Option<Seq<Seq<u8>>>,
)
    requires
        is_stored(path, raw, text),
        travels(path, raw),
        is_read(raw, read),
    ensures
        read == Some(path),
{
    let (rooted, names) = choose|rooted: bool, names: Seq<Seq<u8>>|
        #![trigger path_of_names(rooted, names)]
        path == path_of_names(rooted, names) && are_portable(names) && raw != spelled(
            rooted,
            names,
            92,
        );
    reveal(is_stored);
    law_stored_paths_read_back(path, raw, text, rooted, names, read);
}

/// What is written of a download whose paths were stored so that every machine reads them
/// alike reads back as that download.
pub proof fn law_travelling_download_reads_back(
    target: TargetOs,
    d: DownloadModel,
    name: Seq<char>,
    w: DownloadWrite,
    row: DownloadEntry,
    file_rows: Seq<FileEntry>,
    folder_rows: Seq<FolderEntry>,
)
    requires
        tree_ok(d),
        one_root(d),
        is_download_row(w.row, d, name),
        are_folder_batches(w.folders@, d.id, d.folders),
        are_file_batches(w.files@, d.id, d.files),
        forall|j: int| 0 <= j < d.files.len() ==> storable(target, #[trigger] d.files[j]),
        d.files.len() + d.folders.len() <= usize::MAX,
        travels(d.save_path, w.row.relative_path_raw@),
        is_download_entry_of(w.row, row),
        file_rows.len() == d.files.len(),
        forall|t: int|
            0 <= t < d.files.len() ==> {
                let written = rows_of(unbatched(w.files@))[t];
                &&& travels((#[trigger] d.files[t]).path, written.relative_path_raw@)
                &&& is_file_entry_of(written, file_rows[t])
            },
        folder_rows.len() == d.folders.len(),
        forall|t: int|
            0 <= t < d.folders.len() ==> {
                let written = unbatched(w.folders@)[t];
                &&& travels((#[trigger] d.folders[t]).path, written.relative_path_raw@)
                &&& is_folder_entry_of(written, folder_rows[t])
            },
    ensures
        read_download(
            target,
            row,
            file_rows,
            folder_rows,
            hashes_in(digest_rows_of(unbatched(w.files@))),
        ) matches Some(read) && download_back(d, read),
{
    let files = rows_of(unbatched(w.files@));
    let folders = unbatched(w.folders@);
    lemma_travelling_path_reads_back(
        d.save_path,
        w.row.relative_path_raw@,
        w.row.relative_path@,
        path_view(row.relative_path),
    );
    lemma_batched(w.files@, d.files.len());
    lemma_batched(w.folders@, d.folders.len());
    assert forall|t: int| 0 <= t < file_rows.len() implies is_file_entry_of(
        files[t],
        #[trigger] file_rows[t],
    ) && path_view(file_rows[t].relative_path) == Some(d.files[t].path) by {
        let i = t / (BATCH_SIZE as int);
        let j = t % (BATCH_SIZE as int);
        assert(is_file_write(w.files@[i]@[j], d.id, d.files[BATCH_SIZE * i + j]));
        assert(is_file_row(files[t], d.id, d.files[t]));
        assert(travels(d.files[t].path, files[t].relative_path_raw@));
        lemma_travelling_path_reads_back(
            d.files[t].path,
            files[t].relative_path_raw@,
            files[t].relative_path@,
            path_view(file_rows[t].relative_path),
        );
    }
    assert forall|t: int| 0 <= t < folder_rows.len() implies is_folder_entry_of(
        folders[t],
        #[trigger] folder_rows[t],
    ) && path_view(folder_rows[t].relative_path) == Some(d.folders[t].path) by {
        let i = t / (BATCH_SIZE as int);
        let j = t % (BATCH_SIZE as int);
        assert(is_folder_row(w.folders@[i]@[j], d.id, d.folders[BATCH_SIZE * i + j]));
        assert(travels(d.folders[t].path, folders[t].relative_path_raw@));
        lemma_travelling_path_reads_back(
            d.folders[t].path,
            folders[t].relative_path_raw@,
            folders[t].relative_path@,
            path_view(folder_rows[t].relative_path),
        );
    }
    law_written_download_reads_back(target, d, name, w, row, file_rows, folder_rows);
}

} // verus!
