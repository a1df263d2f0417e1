//! What rows of the database come to, and which rows are written.

use vstd::prelude::*;
#[allow(unused_imports)]
use crate::db::chunk_hashes::{
    all_hashes_in, first_bad_index, hashes_in, known_hashes, useless_rows, with_hash,
};
#[allow(unused_imports)]
use crate::db::file_tree::{
    file_buckets, folder_buckets, listed_files, listed_folders, read_files, read_folders,
};
#[allow(unused_imports)]
use crate::db::loading::{
    files_of, first_without_top, folders_of, hashes_of_download, is_loaded, read_download, read_one,
};
#[allow(unused_imports)]
use crate::db::rows::{
    chunk_slots, ChunkHashRow, DownloadEntry, DownloadFolderRow, FileEntry, FolderEntry,
};
#[allow(unused_imports)]
use crate::db::state_manager::{
    condemned, recovered, DbError, DbFetchErrorKind, RecoveryKey,
};
#[allow(unused_imports)]
use crate::db::writing::{
    are_file_batches, are_folder_batches, are_hash_batches, batch_count, batch_len, hash_entries,
    is_file_write, is_hash_row, FileWrite,
};
#[allow(unused_imports)]
use crate::download::building::counters_of;
#[allow(unused_imports)]
use crate::download::error::{
    law_file_failure_reason_round_trip, DownloadFailureReason, FileFailureReason,
};
#[allow(unused_imports)]
use crate::download::file_name::text_of;
#[allow(unused_imports)]
use crate::download::items::{
    DownloadId, FileId, FileModel, FileSize, FolderId, FolderModel, ItemId,
};
#[allow(unused_imports)]
use crate::download::status::{
    file_status_name, law_file_status_round_trip, DownloadStatus, FileStatus, StatusBucket,
};
#[allow(unused_imports)]
use crate::download::storing::{
    columns_download_status, columns_size, columns_status, download_from_row, file_from_row,
    first_top_file,
    first_top_folder, fitted_hashes, folder_from_row, is_folder_row, root_of,
};
#[allow(unused_imports)]
use crate::download::tables::{find_file, find_folder};
#[allow(unused_imports)]
use crate::download::tree::{Download, DownloadModel};
#[allow(unused_imports)]
use crate::utils::blocks::bits_of_bytes;
#[allow(unused_imports)]
use crate::utils::bytes::{be_value, le_value};
#[allow(unused_imports)]
use crate::utils::file_utils::TargetOs;
#[allow(unused_imports)]
use crate::utils::kept::lemma_kept_step;
#[allow(unused_imports)]
use crate::utils::text::first_index_of;
#[allow(unused_imports)]
use crate::utils::text_laws::law_the_first_place_is_found;

verus! {

/// A digest goes to its place, and there is room up to it; all others stay. One of another
/// length than sixteen bytes, or none, changes no digest.
pub proof fn law_digests_go_to_their_places(
    hashes: Seq<Option<Seq<u8>>>,
    index: nat,
    hash: Option<Seq<u8>>,
)
    ensures
        ({
            let after = with_hash(hashes, index, hash);
            &&& after.len() == if hashes.len() > index {
                hashes.len()
            } else {
                index + 1
            }
            &&& forall|i: int|
                0 <= i < after.len() && (i != index || hash is None || hash->0.len() != 16)
                    ==> #[trigger] after[i] == if i < hashes.len() {
                    hashes[i]
                } else {
                    None
                }
            &&& hash is Some && hash->0.len() == 16 ==> after[index as int] == hash
        }),
{
}

/// Whether a row brings this digest for this place of this file.
pub open spec fn brings(row: ChunkHashRow, file: usize, index: nat, hash: Seq<u8>) -> bool {
    &&& row.file_id as usize == file
    &&& row.chunk_index == index
    &&& row.hash matches Some(bytes) && bytes@ == hash
    &&& hash.len() == 16
}

proof fn lemma_brought(rows: Seq<ChunkHashRow>, k: int, file: usize, index: nat, hash: Seq<u8>)
    requires
        0 <= k < rows.len(),
        brings(rows[k], file, index, hash),
        forall|j: int|
            k < j < rows.len() ==> (#[trigger] rows[j]).file_id as usize != file
                || rows[j].chunk_index != index,
    ensures
        known_hashes(hashes_in(rows), file).len() > index,
        known_hashes(hashes_in(rows), file)[index as int] == Some(hash),
    decreases rows.len(),
{
    let rest = rows.drop_last();
    let last = rows.last();
    assert(rows[rows.len() - 1] == last);
    if k < rest.len() {
        assert(rest[k] == rows[k]);
        assert forall|j: int| k < j < rest.len() implies (#[trigger] rest[j]).file_id as usize
            != file || rest[j].chunk_index != index by {
            assert(rest[j] == rows[j]);
        }
        lemma_brought(rest, k, file, index, hash);
    }
}

/// The digest that a row brings is read into its place of its file; if several rows bring
/// one for the same place, the last counts.
pub proof fn law_every_digest_is_read(
    rows: Seq<ChunkHashRow>,
    k: int,
    file: usize,
    index: nat,
    hash: Seq<u8>,
)
    requires
        0 <= k < rows.len(),
        brings(rows[k], file, index, hash),
        forall|j: int|
            k < j < rows.len() ==> (#[trigger] rows[j]).file_id as usize != file
                || rows[j].chunk_index != index,
    ensures
        known_hashes(hashes_in(rows), file).len() > index,
        known_hashes(hashes_in(rows), file)[index as int] == Some(hash),
{
    lemma_brought(rows, k, file, index, hash);
}

/// No digest is read that no row brings.
pub proof fn law_no_digest_is_made_up(rows: Seq<ChunkHashRow>, file: usize, index: int)
    requires
        0 <= index < known_hashes(hashes_in(rows), file).len(),
        known_hashes(hashes_in(rows), file)[index] is Some,
    ensures
        exists|k: int|
            0 <= k < rows.len() && brings(
                #[trigger] rows[k],
                file,
                index as nat,
                known_hashes(hashes_in(rows), file)[index]->0,
            ),
    decreases rows.len(),
{
    if rows.len() > 0 {
        let rest = rows.drop_last();
        let last = rows.last();
        assert(rows[rows.len() - 1] == last);
        let before = known_hashes(hashes_in(rest), file);
        let after = known_hashes(hashes_in(rows), file);
        if index < before.len() && before[index] == after[index] {
            law_no_digest_is_made_up(rest, file, index);
            let k = choose|k: int|
                0 <= k < rest.len() && brings(
                    #[trigger] rest[k],
                    file,
                    index as nat,
                    before[index]->0,
                );
            assert(rows[k] == rest[k]);
        } else {
            assert(brings(last, file, index as nat, after[index]->0));
        }
    }
}

/// Whether a row is of no use: it is for a place that there is not.
pub open spec fn is_useless() -> spec_fn(ChunkHashRow) -> bool {
    |row: ChunkHashRow| row.chunk_index < 0
}

/// The file and the place that a row is for.
pub open spec fn place_of_row() -> spec_fn(ChunkHashRow) -> (i64, i64) {
    |row: ChunkHashRow| (row.file_id, row.chunk_index)
}

/// Every row for a place that there is not is told, in order, and no other is.
pub proof fn law_useless_rows_are_told(rows: Seq<ChunkHashRow>)
    ensures
        useless_rows(rows) == rows.filter(is_useless()).map_values(place_of_row()),
    decreases rows.len(),
{
    lemma_kept_step(rows, is_useless(), place_of_row());
    if rows.len() > 0 {
        law_useless_rows_are_told(rows.drop_last());
    }
}

/// The place that is told to be bad is that of the first row that has a bad one.
pub proof fn law_the_first_bad_place_is_told(rows: Seq<ChunkHashRow>)
    ensures
        match first_bad_index(rows) {
            Some(index) => index < 0 && exists|i: int|
                0 <= i < rows.len() && (#[trigger] rows[i]).chunk_index == index && forall|j: int|
                    0 <= j < i ==> (#[trigger] rows[j]).chunk_index >= 0,
            None => forall|j: int| 0 <= j < rows.len() ==> (#[trigger] rows[j]).chunk_index >= 0,
        },
    decreases rows.len(),
{
    if rows.len() > 0 {
        let rest = rows.drop_first();
        law_the_first_bad_place_is_told(rest);
        assert(forall|j: int| 1 <= j < rows.len() ==> #[trigger] rows[j] == rest[j - 1]);
        if rows[0].chunk_index >= 0 {
            if let Some(index) = first_bad_index(rest) {
                let i = choose|i: int|
                    0 <= i < rest.len() && (#[trigger] rest[i]).chunk_index == index && forall|
                        j: int,
                    | 0 <= j < i ==> (#[trigger] rest[j]).chunk_index >= 0;
                assert(rows[i + 1] == rest[i]);
                assert forall|j: int| 0 <= j < i + 1 implies (#[trigger] rows[j]).chunk_index
                    >= 0 by {
                    if j > 0 {
                        assert(rows[j] == rest[j - 1]);
                    }
                }
            } else {
                assert forall|j: int| 0 <= j < rows.len() implies (#[trigger] rows[j]).chunk_index
                    >= 0 by {
                    if j > 0 {
                        assert(rows[j] == rest[j - 1]);
                    }
                }
            }
        }
    }
}

/// Whether a row belongs to a download.
pub open spec fn is_row_of(download: usize) -> spec_fn(ChunkHashRow) -> bool {
    |row: ChunkHashRow| row.download_id as usize == download
}

/// Each download has the digests that its own rows bring.
pub proof fn law_digests_keep_to_their_download(rows: Seq<ChunkHashRow>, download: usize)
    ensures
        hashes_of_download(all_hashes_in(rows), download) == hashes_in(
            rows.filter(is_row_of(download)),
        ),
    decreases rows.len(),
{
    reveal(Seq::filter);
    if rows.len() > 0 {
        let rest = rows.drop_last();
        law_digests_keep_to_their_download(rest, download);
        let own = rest.filter(is_row_of(download));
        if rows.last().download_id as usize == download {
            assert(own.push(rows.last()).drop_last() =~= own);
        }
    }
}

/// Whether a file row lies in a folder.
pub open spec fn is_file_in(parent: FolderId) -> spec_fn(FileEntry) -> bool {
    |row: FileEntry| row.parent_folder_id is Some && row.parent_folder_id->0 as usize == parent.0
}

/// Whether a folder row lies in a folder.
pub open spec fn is_folder_in(parent: FolderId) -> spec_fn(FolderEntry) -> bool {
    |row: FolderEntry| row.parent_folder_id is Some && row.parent_folder_id->0 as usize == parent.0
}

/// The number of a file row.
pub open spec fn number_of_file() -> spec_fn(FileEntry) -> FileId {
    |row: FileEntry| FileId(row.file_id as usize)
}

/// The number of a folder row.
pub open spec fn number_of_folder() -> spec_fn(FolderEntry) -> FolderId {
    |row: FolderEntry| FolderId(row.folder_id as usize)
}

/// The bucket of the state of a file row.
pub open spec fn bucket_of_file() -> spec_fn(FileEntry) -> StatusBucket {
    |row: FileEntry| columns_status(row.status@, text_of(row.failure_reason)).spec_bucket()
}

/// The bucket of the state of a folder row.
pub open spec fn bucket_of_folder() -> spec_fn(FolderEntry) -> StatusBucket {
    |row: FolderEntry|
        columns_download_status(row.status@, text_of(row.failure_reason)).spec_bucket()
}

proof fn lemma_listed_files(rows: Seq<FileEntry>, parent: FolderId)
    ensures
        listed_files(rows, parent) == rows.filter(is_file_in(parent)).map_values(number_of_file()),
        file_buckets(rows, parent) == rows.filter(is_file_in(parent)).map_values(bucket_of_file()),
    decreases rows.len(),
{
    lemma_kept_step(rows, is_file_in(parent), number_of_file());
    lemma_kept_step(rows, is_file_in(parent), bucket_of_file());
    if rows.len() > 0 {
        lemma_listed_files(rows.drop_last(), parent);
    }
}

proof fn lemma_listed_folders(rows: Seq<FolderEntry>, parent: FolderId)
    ensures
        listed_folders(rows, parent) == rows.filter(is_folder_in(parent)).map_values(
            number_of_folder(),
        ),
        folder_buckets(rows, parent) == rows.filter(is_folder_in(parent)).map_values(
            bucket_of_folder(),
        ),
    decreases rows.len(),
{
    lemma_kept_step(rows, is_folder_in(parent), number_of_folder());
    lemma_kept_step(rows, is_folder_in(parent), bucket_of_folder());
    if rows.len() > 0 {
        lemma_listed_folders(rows.drop_last(), parent);
    }
}

/// The children of a folder are all rows that name it as the folder they lie in, and no
/// others, in the order of the rows; and each counts in the bucket of its own state.
pub proof fn law_children_are_those_that_name_the_folder(
    files: Seq<FileEntry>,
    folders: Seq<FolderEntry>,
    parent: FolderId,
)
    ensures
        listed_files(files, parent) == files.filter(is_file_in(parent)).map_values(
            number_of_file(),
        ),
        file_buckets(files, parent) == files.filter(is_file_in(parent)).map_values(
            bucket_of_file(),
        ),
        listed_folders(folders, parent) == folders.filter(is_folder_in(parent)).map_values(
            number_of_folder(),
        ),
        folder_buckets(folders, parent) == folders.filter(is_folder_in(parent)).map_values(
            bucket_of_folder(),
        ),
{
    lemma_listed_files(files, parent);
    lemma_listed_folders(folders, parent);
}

/// Whether no two file rows have one number.
pub open spec fn file_rows_differ(rows: Seq<FileEntry>) -> bool {
    forall|i: int, j: int|
        0 <= i < j < rows.len() ==> (#[trigger] rows[i]).file_id as usize != (
        #[trigger] rows[j]).file_id as usize
}

proof fn lemma_no_such_file(files: Seq<FileModel>, id: FileId)
    requires
        forall|i: int| 0 <= i < files.len() ==> (#[trigger] files[i]).id != id,
    ensures
        find_file(files, id) is None,
{
}

/// Every file row becomes a file, in the order of the rows, with the digests that were read
/// for it, where no number is stored twice.
pub proof fn law_every_file_row_is_read(
    target: TargetOs,
    rows: Seq<FileEntry>,
    hashes: Map<usize, Seq<Option<Seq<u8>>>>,
)
    requires
        file_rows_differ(rows),
    ensures
        ({
            let (files, left) = read_files(target, rows, hashes);
            &&& files.len() == rows.len()
            &&& forall|i: int|
                0 <= i < rows.len() ==> #[trigger] files[i] == file_from_row(
                    target,
                    rows[i],
                    known_hashes(hashes, rows[i].file_id as usize),
                )
            &&& forall|x: usize|
                (forall|i: int| 0 <= i < rows.len() ==> (#[trigger] rows[i]).file_id as usize != x)
                    ==> #[trigger] known_hashes(left, x) == known_hashes(hashes, x)
        }),
    decreases rows.len(),
{
    if rows.len() > 0 {
        let rest = rows.drop_last();
        let last = rows.last();
        let n = rest.len() as int;
        assert(rows[n] == last);
        assert forall|i: int, j: int| 0 <= i < j < rest.len() implies (
        #[trigger] rest[i]).file_id as usize != (#[trigger] rest[j]).file_id as usize by {
            assert(rows[i].file_id as usize != rows[j].file_id as usize);
        }
        law_every_file_row_is_read(target, rest, hashes);
        let (before, left) = read_files(target, rest, hashes);
        let id = last.file_id as usize;
        assert forall|i: int| 0 <= i < rest.len() implies (#[trigger] rest[i]).file_id as usize
            != id by {
            assert(rows[i].file_id as usize != rows[n].file_id as usize);
        }
        assert(known_hashes(left, id) == known_hashes(hashes, id));
        assert forall|i: int| 0 <= i < before.len() implies (#[trigger] before[i]).id != FileId(
            id,
        ) by {
            assert(rest[i].file_id as usize != id);
        }
        lemma_no_such_file(before, FileId(id));
        let (files, after) = read_files(target, rows, hashes);
        assert forall|i: int| 0 <= i < rows.len() implies #[trigger] files[i] == file_from_row(
            target,
            rows[i],
            known_hashes(hashes, rows[i].file_id as usize),
        ) by {
            if i < n {
                assert(files[i] == before[i]);
                assert(rest[i] == rows[i]);
            }
        }
        assert forall|x: usize|
            (forall|i: int| 0 <= i < rows.len() ==> (#[trigger] rows[i]).file_id as usize
                != x) implies #[trigger] known_hashes(after, x) == known_hashes(hashes, x) by {
            assert(rows[n].file_id as usize != x);
            assert forall|i: int| 0 <= i < rest.len() implies (#[trigger] rest[i]).file_id as usize
                != x by {
                assert(rest[i] == rows[i]);
            }
            assert(known_hashes(left, x) == known_hashes(hashes, x));
        }
    }
}

/// Whether no two folder rows have one number.
pub open spec fn folder_rows_differ(rows: Seq<FolderEntry>) -> bool {
    forall|i: int, j: int|
        0 <= i < j < rows.len() ==> (#[trigger] rows[i]).folder_id as usize != (
        #[trigger] rows[j]).folder_id as usize
}

/// Every folder row becomes a folder, in the order of the rows, with all its children, where
/// no number is stored twice.
pub proof fn law_every_folder_row_is_read(
    file_rows: Seq<FileEntry>,
    rows: Seq<FolderEntry>,
    n: nat,
)
    requires
        n <= rows.len(),
        folder_rows_differ(rows),
    ensures
        ({
            let folders = read_folders(file_rows, rows, n);
            &&& folders.len() == n
            &&& forall|i: int|
                0 <= i < n ==> {
                    let id = FolderId(rows[i].folder_id as usize);
                    #[trigger] folders[i] == folder_from_row(
                        rows[i],
                        file_rows.filter(is_file_in(id)).map_values(number_of_file()),
                        rows.filter(is_folder_in(id)).map_values(number_of_folder()),
                        counters_of(
                            file_rows.filter(is_file_in(id)).map_values(bucket_of_file())
                                + rows.filter(is_folder_in(id)).map_values(bucket_of_folder()),
                        ),
                    )
                }
        }),
    decreases n,
{
    if n > 0 {
        let m = (n - 1) as nat;
        law_every_folder_row_is_read(file_rows, rows, m);
        let before = read_folders(file_rows, rows, m);
        let row = rows[n - 1];
        let id = FolderId(row.folder_id as usize);
        law_children_are_those_that_name_the_folder(file_rows, rows, id);
        assert forall|k: int| 0 <= k < n - 1 implies (#[trigger] rows[k]).folder_id as usize
            != id.0 by {
            assert(rows[k].folder_id as usize != rows[n - 1].folder_id as usize);
        }
        assert forall|i: int| 0 <= i < before.len() implies (#[trigger] before[i]).id != id by {
            assert(rows[i].folder_id as usize != id.0);
        }
        assert(find_folder(before, id) is None);
        let folders = read_folders(file_rows, rows, n);
        assert forall|i: int| 0 <= i < m implies folders[i] == before[i] by {}
    }
}

/// The root of what was read is the first folder that lies in none, or else the first such
/// file; without either there is none.
pub proof fn law_the_root_lies_in_no_folder(files: Seq<FileModel>, folders: Seq<FolderModel>)
    ensures
        match root_of(files, folders) {
            Some(ItemId::Folder(id)) => exists|i: int|
                0 <= i < folders.len() && (#[trigger] folders[i]).id == id && folders[i].parent_id
                    is None && forall|j: int|
                    0 <= j < i ==> (#[trigger] folders[j]).parent_id is Some,
            Some(ItemId::File(id)) => (forall|j: int|
                0 <= j < folders.len() ==> (#[trigger] folders[j]).parent_id is Some) && exists|
                i: int,
            |
                0 <= i < files.len() && (#[trigger] files[i]).id == id && files[i].parent_id is None
                    && forall|j: int| 0 <= j < i ==> (#[trigger] files[j]).parent_id is Some,
            None => (forall|j: int|
                0 <= j < folders.len() ==> (#[trigger] folders[j]).parent_id is Some) && (forall|
                j: int,
            | 0 <= j < files.len() ==> (#[trigger] files[j]).parent_id is Some),
        },
{
    lemma_top_folder(folders);
    lemma_top_file(files);
}

proof fn lemma_top_folder(folders: Seq<FolderModel>)
    ensures
        match first_top_folder(folders) {
            Some(id) => exists|i: int|
                0 <= i < folders.len() && (#[trigger] folders[i]).id == id && folders[i].parent_id
                    is None && forall|j: int|
                    0 <= j < i ==> (#[trigger] folders[j]).parent_id is Some,
            None => forall|j: int|
                0 <= j < folders.len() ==> (#[trigger] folders[j]).parent_id is Some,
        },
    decreases folders.len(),
{
    if folders.len() > 0 {
        let rest = folders.drop_first();
        lemma_top_folder(rest);
        if folders[0].parent_id is Some {
            if let Some(id) = first_top_folder(rest) {
                let i = choose|i: int|
                    0 <= i < rest.len() && (#[trigger] rest[i]).id == id && rest[i].parent_id is
                        None && forall|j: int|
                        0 <= j < i ==> (#[trigger] rest[j]).parent_id is Some;
                assert(folders[i + 1] == rest[i]);
                assert forall|j: int| 0 <= j < i + 1 implies (#[trigger] folders[j]).parent_id is
                    Some by {
                    if j > 0 {
                        assert(folders[j] == rest[j - 1]);
                    }
                }
            } else {
                assert forall|j: int| 0 <= j < folders.len() implies (
                #[trigger] folders[j]).parent_id is Some by {
                    if j > 0 {
                        assert(folders[j] == rest[j - 1]);
                    }
                }
            }
        }
    }
}

proof fn lemma_top_file(files: Seq<FileModel>)
    ensures
        match first_top_file(files) {
            Some(id) => exists|i: int|
                0 <= i < files.len() && (#[trigger] files[i]).id == id && files[i].parent_id is None
                    && forall|j: int| 0 <= j < i ==> (#[trigger] files[j]).parent_id is Some,
            None => forall|j: int| 0 <= j < files.len() ==> (#[trigger] files[j]).parent_id is Some,
        },
    decreases files.len(),
{
    if files.len() > 0 {
        let rest = files.drop_first();
        lemma_top_file(rest);
        if files[0].parent_id is Some {
            if let Some(id) = first_top_file(rest) {
                let i = choose|i: int|
                    0 <= i < rest.len() && (#[trigger] rest[i]).id == id && rest[i].parent_id is
                        None && forall|j: int|
                        0 <= j < i ==> (#[trigger] rest[j]).parent_id is Some;
                assert(files[i + 1] == rest[i]);
                assert forall|j: int| 0 <= j < i + 1 implies (#[trigger] files[j]).parent_id is
                    Some by {
                    if j > 0 {
                        assert(files[j] == rest[j - 1]);
                    }
                }
            } else {
                assert forall|j: int| 0 <= j < files.len() implies (
                #[trigger] files[j]).parent_id is Some by {
                    if j > 0 {
                        assert(files[j] == rest[j - 1]);
                    }
                }
            }
        }
    }
}

proof fn lemma_files_of(rows: Seq<FileEntry>, id: i64)
    ensures
        files_of(rows, id) == rows.filter(|r: FileEntry| r.download_id == id),
    decreases rows.len(),
{
    reveal(Seq::filter);
    if rows.len() > 0 {
        lemma_files_of(rows.drop_last(), id);
    } else {
        assert(rows.filter(|r: FileEntry| r.download_id == id) =~= Seq::<FileEntry>::empty());
    }
}

proof fn lemma_folders_of(rows: Seq<FolderEntry>, id: i64)
    ensures
        folders_of(rows, id) == rows.filter(|r: FolderEntry| r.download_id == id),
    decreases rows.len(),
{
    reveal(Seq::filter);
    if rows.len() > 0 {
        lemma_folders_of(rows.drop_last(), id);
    } else {
        assert(rows.filter(|r: FolderEntry| r.download_id == id) =~= Seq::<FolderEntry>::empty());
    }
}

/// A download has the rows that name it, all of them and in their order.
pub proof fn law_rows_keep_to_their_download(
    files: Seq<FileEntry>,
    folders: Seq<FolderEntry>,
    id: i64,
)
    ensures
        files_of(files, id) == files.filter(|r: FileEntry| r.download_id == id),
        folders_of(folders, id) == folders.filter(|r: FolderEntry| r.download_id == id),
{
    lemma_files_of(files, id);
    lemma_folders_of(folders, id);
}

proof fn lemma_entries(hashes: Seq<Option<Seq<u8>>>)
    ensures
        ({
            let entries = hash_entries(hashes);
            &&& forall|i: int|
                0 <= i < hashes.len() && (#[trigger] hashes[i]) is Some ==> entries.contains(
                    (i as nat, hashes[i]->0),
                )
            &&& forall|k: int|
                0 <= k < entries.len() ==> (#[trigger] entries[k]).0 < hashes.len()
                    && hashes[entries[k].0 as int] == Some(entries[k].1)
            &&& forall|k: int, l: int|
                0 <= k < l < entries.len() ==> (#[trigger] entries[k]).0 < (
                #[trigger] entries[l]).0
        }),
    decreases hashes.len(),
{
    if hashes.len() > 0 {
        let rest = hashes.drop_last();
        lemma_entries(rest);
        let before = hash_entries(rest);
        let entries = hash_entries(hashes);
        let n = rest.len() as int;
        assert forall|i: int| 0 <= i < hashes.len() && (
        #[trigger] hashes[i]) is Some implies entries.contains((i as nat, hashes[i]->0)) by {
            if i < n {
                assert(rest[i] == hashes[i]);
                let k = choose|k: int|
                    0 <= k < before.len() && before[k] == (i as nat, hashes[i]->0);
                assert(entries[k] == before[k]);
            } else {
                assert(entries[entries.len() - 1] == (i as nat, hashes[i]->0));
            }
        }
        assert forall|k: int| 0 <= k < entries.len() implies (#[trigger] entries[k]).0
            < hashes.len() && hashes[entries[k].0 as int] == Some(entries[k].1) by {
            if k < before.len() {
                assert(entries[k] == before[k]);
                assert(rest[before[k].0 as int] == hashes[before[k].0 as int]);
            }
        }
        assert forall|k: int, l: int| 0 <= k < l < entries.len() implies (#[trigger] entries[k]).0
            < (#[trigger] entries[l]).0 by {
            assert(entries[k] == before[k]);
            if l < before.len() {
                assert(entries[l] == before[l]);
            }
        }
    }
}

/// Every digest of a file is written, with its place, in order and once; nothing is written
/// for a place without one.
pub proof fn law_every_digest_is_written(hashes: Seq<Option<Seq<u8>>>)
    ensures
        ({
            let entries = hash_entries(hashes);
            &&& forall|i: int|
                0 <= i < hashes.len() && (#[trigger] hashes[i]) is Some ==> entries.contains(
                    (i as nat, hashes[i]->0),
                )
            &&& forall|k: int|
                0 <= k < entries.len() ==> (#[trigger] entries[k]).0 < hashes.len()
                    && hashes[entries[k].0 as int] == Some(entries[k].1)
            &&& forall|k: int, l: int|
                0 <= k < l < entries.len() ==> (#[trigger] entries[k]).0 < (
                #[trigger] entries[l]).0
        }),
{
    lemma_entries(hashes);
}

/// Batches of a thousand hold everything: there are as many as that takes, each is full but
/// the last, and each place lies in one of them.
pub proof fn law_batches_hold_everything(n: nat, k: int)
    requires
        0 <= k < n,
    ensures
        (batch_count(n) - 1) * 1000 < n <= batch_count(n) * 1000,
        0 <= k / 1000 < batch_count(n),
        k % 1000 < batch_len(n, k / 1000),
        1000 * (k / 1000) + k % 1000 == k,
        forall|i: int|
            0 <= i < batch_count(n) - 1 ==> #[trigger] batch_len(n, i) == 1000,
        batch_len(n, batch_count(n) - 1) == n - 1000 * (batch_count(n) - 1),
{
}

/// Every file, every folder and every digest of a file is in a batch.
pub proof fn law_everything_is_written(
    id: DownloadId,
    file_batches: Seq<Vec<FileWrite>>,
    files: Seq<FileModel>,
    folder_batches: Seq<Vec<DownloadFolderRow>>,
    folders: Seq<FolderModel>,
    k: int,
)
    requires
        are_file_batches(file_batches, id, files),
        are_folder_batches(folder_batches, id, folders),
    ensures
        0 <= k < files.len() ==> exists|i: int, j: int|
            0 <= i < file_batches.len() && 0 <= j < file_batches[i]@.len() && is_file_write(
                #[trigger] file_batches[i]@[j],
                id,
                files[k],
            ),
        0 <= k < folders.len() ==> exists|i: int, j: int|
            0 <= i < folder_batches.len() && 0 <= j < folder_batches[i]@.len() && is_folder_row(
                #[trigger] folder_batches[i]@[j],
                id,
                folders[k],
            ),
{
    if 0 <= k < files.len() {
        law_batches_hold_everything(files.len(), k);
        assert(file_batches[k / 1000]@.len() == batch_len(files.len(), k / 1000));
        assert(is_file_write(file_batches[k / 1000]@[k % 1000], id, files[k]));
    }
    if 0 <= k < folders.len() {
        law_batches_hold_everything(folders.len(), k);
        assert(folder_batches[k / 1000]@.len() == batch_len(folders.len(), k / 1000));
        assert(is_folder_row(folder_batches[k / 1000]@[k % 1000], id, folders[k]));
    }
}

/// Every digest of a file is in a batch.
pub proof fn law_every_digest_is_in_a_batch(
    id: DownloadId,
    batches: Seq<Vec<ChunkHashRow>>,
    file: FileModel,
    place: int,
)
    requires
        are_hash_batches(batches, id, file),
        0 <= place < file.chunk_hashes.len(),
        file.chunk_hashes[place] is Some,
    ensures
        exists|i: int, j: int|
            0 <= i < batches.len() && 0 <= j < batches[i]@.len() && is_hash_row(
                #[trigger] batches[i]@[j],
                id,
                file.id,
                (place as nat, file.chunk_hashes[place]->0),
            ),
{
    let entries = hash_entries(file.chunk_hashes);
    lemma_entries(file.chunk_hashes);
    let entry = (place as nat, file.chunk_hashes[place]->0);
    let k = choose|k: int| 0 <= k < entries.len() && entries[k] == entry;
    law_batches_hold_everything(entries.len(), k);
    assert(batches[k / 1000]@.len() == batch_len(entries.len(), k / 1000));
    assert(is_hash_row(batches[k / 1000]@[k % 1000], id, file.id, entries[k]));
}

/// Whether a row can be recovered: its place is one, and its digest could be read.
pub open spec fn can_be_recovered(key: RecoveryKey) -> bool {
    key.chunk_index >= 0 && key.fetched is Some
}

/// The file and the place of a row that goes.
pub open spec fn place_of_key() -> spec_fn(RecoveryKey) -> (i64, i64) {
    |key: RecoveryKey| (key.file_id, key.chunk_index)
}

/// Every row that cannot be recovered goes, and no other does.
pub proof fn law_only_broken_rows_go(keys: Seq<RecoveryKey>)
    ensures
        condemned(keys) == keys.filter(|k: RecoveryKey| !can_be_recovered(k)).map_values(
            place_of_key(),
        ),
    decreases keys.len(),
{
    lemma_kept_step(keys, |k: RecoveryKey| !can_be_recovered(k), place_of_key());
    if keys.len() > 0 {
        law_only_broken_rows_go(keys.drop_last());
    }
}

/// The digest of a row that can be recovered is read into its place, the last for a place
/// where there are several.
pub proof fn law_sound_rows_are_recovered(
    keys: Seq<RecoveryKey>,
    k: int,
    file: usize,
    hash: Seq<u8>,
)
    requires
        0 <= k < keys.len(),
        can_be_recovered(keys[k]),
        keys[k].file_id as usize == file,
        keys[k].fetched->0 matches Some(bytes) && bytes@ == hash,
        hash.len() == 16,
        forall|j: int|
            k < j < keys.len() ==> (#[trigger] keys[j]).file_id as usize != file
                || keys[j].chunk_index != keys[k].chunk_index,
    ensures
        known_hashes(recovered(keys), file).len() > keys[k].chunk_index,
        known_hashes(recovered(keys), file)[keys[k].chunk_index as int] == Some(hash),
    decreases keys.len(),
{
    let rest = keys.drop_last();
    assert(keys[keys.len() - 1] == keys.last());
    if k < rest.len() {
        assert(rest[k] == keys[k]);
        assert forall|j: int| k < j < rest.len() implies (#[trigger] rest[j]).file_id as usize
            != file || rest[j].chunk_index != rest[k].chunk_index by {
            assert(rest[j] == keys[j]);
        }
        law_sound_rows_are_recovered(rest, k, file, hash);
    }
}

/// A size is read as it was stored: a known one with its bytes, unless these are missing or
/// negative, and one that is not known; anything else says nothing.
pub proof fn law_sizes_are_read(kind: Option<Seq<char>>, bytes: Option<i64>)
    ensures
        columns_size(kind, bytes) matches Some(FileSize::Known(n)) ==> kind == Some("known"@)
            && bytes is Some && bytes->0 == n,
        columns_size(kind, bytes) is Some && columns_size(kind, bytes)->0 is Unknown ==> kind
            == Some("unknown"@),
        kind == Some("known"@) && bytes is Some && bytes->0 >= 0 ==> columns_size(kind, bytes)
            == Some(FileSize::Known(bytes->0 as u64)),
        kind == Some("unknown"@) ==> columns_size(kind, bytes) == Some(FileSize::Unknown),
        kind is None ==> columns_size(kind, bytes) is None,
{
    reveal_strlit("known");
    reveal_strlit("unknown");
    assert("known"@.len() != "unknown"@.len());
}

/// A file whose size is known has a place for the digest of every chunk, keeps those that
/// there are, and has no other.
pub proof fn law_digests_fit_the_size(size: u64, hashes: Seq<Option<Seq<u8>>>)
    requires
        size / 1048576 < usize::MAX,
    ensures
        ({
            let fitted = fitted_hashes(Some(FileSize::Known(size)), hashes);
            &&& (fitted.len() - 1) * 1048576 < size <= fitted.len() * 1048576
            &&& forall|i: int|
                0 <= i < fitted.len() ==> #[trigger] fitted[i] == if i < hashes.len() {
                    hashes[i]
                } else {
                    None
                }
        }),
        fitted_hashes(None, hashes) == hashes,
        fitted_hashes(Some(FileSize::Unknown), hashes) == hashes,
{
}

/// A number is read from its bytes with the greatest first, or with the smallest first.
pub proof fn law_bytes_are_read_in_order(bytes: Seq<u8>, b: u8)
    ensures
        be_value(Seq::<u8>::empty()) == 0,
        be_value(bytes.push(b)) == be_value(bytes) * 256 + b,
        le_value(seq![b] + bytes) == b + 256 * le_value(bytes),
{
    assert(bytes.push(b).drop_last() =~= bytes);
    let all = seq![b] + bytes;
    assert(all.reverse() =~= bytes.reverse().push(b));
    assert(bytes.reverse().push(b).drop_last() =~= bytes.reverse());
}

/// What a bit counts for.
pub open spec fn bit(set: bool, worth: int) -> int {
    if set {
        worth
    } else {
        0
    }
}

proof fn lemma_byte_bits(x: u8)
    ensures
        x == bit((x >> 7u8) & 1 == 1, 128) + bit((x >> 6u8) & 1 == 1, 64) + bit(
            (x >> 5u8) & 1 == 1,
            32,
        ) + bit((x >> 4u8) & 1 == 1, 16) + bit((x >> 3u8) & 1 == 1, 8) + bit(
            (x >> 2u8) & 1 == 1,
            4,
        ) + bit((x >> 1u8) & 1 == 1, 2) + bit((x >> 0u8) & 1 == 1, 1),
{
    assert(x == ((x >> 7u8) & 1) * 128 + ((x >> 6u8) & 1) * 64 + ((x >> 5u8) & 1) * 32 + ((x
        >> 4u8) & 1) * 16 + ((x >> 3u8) & 1) * 8 + ((x >> 2u8) & 1) * 4 + ((x >> 1u8) & 1) * 2 + ((x
        >> 0u8) & 1)) by (bit_vector);
    assert(((x >> 7u8) & 1) <= 1 && ((x >> 6u8) & 1) <= 1 && ((x >> 5u8) & 1) <= 1 && ((x >> 4u8)
        & 1) <= 1 && ((x >> 3u8) & 1) <= 1 && ((x >> 2u8) & 1) <= 1 && ((x >> 1u8) & 1) <= 1 && ((x
        >> 0u8) & 1) <= 1) by (bit_vector);
}

/// Each byte holds eight blocks, the first in its greatest bit.
pub proof fn law_bytes_hold_eight_blocks(bytes: Seq<u8>, k: int)
    requires
        0 <= k < bytes.len(),
    ensures
        ({
            let bits = bits_of_bytes(bytes);
            &&& bits.len() == 8 * bytes.len()
            &&& bytes[k] == bit(bits[8 * k], 128) + bit(bits[8 * k + 1], 64) + bit(
                bits[8 * k + 2],
                32,
            ) + bit(bits[8 * k + 3], 16) + bit(bits[8 * k + 4], 8) + bit(bits[8 * k + 5], 4) + bit(
                bits[8 * k + 6],
                2,
            ) + bit(bits[8 * k + 7], 1)
        }),
{
    lemma_byte_bits(bytes[k]);
}

/// Trouble with the connection is told from trouble with the question, with the tables, with
/// the data and from finding nothing.
pub proof fn law_database_errors_are_told_apart(err: DbError)
    ensures
        ({
            let kind = DbFetchErrorKind::spec_of(err);
            &&& kind is NotFound <==> err is RowNotFound
            &&& kind is QueryFailed <==> err is Database
            &&& kind is SchemaCorrupted <==> err is ColumnNotFound || err is TypeNotFound
            &&& kind is DataCorrupted <==> err is Decode || err is ColumnDecode || err is
                ColumnIndexOutOfBounds
            &&& kind is ConnectionFailed <==> err is Io || err is Protocol || err is PoolTimedOut
                || err is PoolClosed || err is WorkerCrashed || err is BeginFailed
            &&& kind is Unexpected <==> err is Other
        }),
{
}

/// A download all of whose files failed is stored with the reason behind a colon, and read so.
pub proof fn law_shared_reasons_are_read(front: Seq<char>, reason: FileFailureReason)
    requires
        !front.contains(':'),
    ensures
        DownloadFailureReason::spec_from_db_string(front + seq![':'] + reason.spec_name()) == Some(
            DownloadFailureReason::AllFilesFailed(reason),
        ),
{
    let text = front + seq![':'] + reason.spec_name();
    law_the_first_place_is_found(text, ':');
    let n = front.len() as int;
    assert(text[n] == ':');
    let i = first_index_of(text, ':')->0;
    if i < n {
        assert(front[i] == ':');
    }
    assert(text.skip(n + 1) =~= reason.spec_name());
    law_file_failure_reason_round_trip(reason);
}

/// What is stored with a path that cannot be read has failed for that, and lies nowhere; what
/// is stored with a good one lies there, in the state that was stored.
pub proof fn law_unreadable_paths_are_failures(
    target: TargetOs,
    file: FileEntry,
    hashes: Seq<Option<Seq<u8>>>,
    folder: FolderEntry,
    download: DownloadEntry,
)
    ensures
        ({
            let f = file_from_row(target, file, hashes);
            match file.relative_path {
                None => f.status == FileStatus::Failed(FileFailureReason::BadPath) && f.path.len()
                    == 0,
                Some(path) => f.path == path@ && f.status == columns_status(
                    file.status@,
                    text_of(file.failure_reason),
                ),
            }
        }),
        ({
            let f = folder_from_row(folder, Seq::empty(), Seq::empty(), Seq::empty());
            match folder.relative_path {
                None => f.status == DownloadStatus::Failed(DownloadFailureReason::BadPath)
                    && f.path.len() == 0,
                Some(path) => f.path == path@ && f.status == columns_download_status(
                    folder.status@,
                    text_of(folder.failure_reason),
                ),
            }
        }),
        ({
            let d = download_from_row(download, Seq::empty(), Seq::empty());
            match download.relative_path {
                None => d.status == DownloadStatus::Failed(DownloadFailureReason::BadPath)
                    && d.save_path.len() == 0,
                Some(path) => d.save_path == path@ && d.status == columns_download_status(
                    download.status@,
                    text_of(download.failure_reason),
                ),
            }
        }),
{
}

/// A state that was stored with a reason is a failure, for that reason or an unknown one; one
/// without is the one of that name, and nothing was begun where no state has that name.
pub proof fn law_stored_states_are_read(status: Seq<char>, reason: Seq<char>, name: FileStatus)
    ensures
        columns_status(status, Some(reason)) is Failed,
        columns_download_status(status, Some(reason)) is Failed,
        (forall|r: FileFailureReason| #[trigger] r.spec_name() != reason) ==> columns_status(
            status,
            Some(reason),
        ) == FileStatus::Failed(FileFailureReason::Unknown),
        !(name is Failed) ==> columns_status(name.spec_to_db_columns().0, None) == name,
        (forall|s: FileStatus| s is Failed || #[trigger] s.spec_to_db_columns().0 != status)
            ==> columns_status(status, None) is Uninitialized,
{
    law_file_status_round_trip(name);
    if forall|s: FileStatus| s is Failed || #[trigger] s.spec_to_db_columns().0 != status {
        if exists|s: FileStatus| !(s is Failed) && #[trigger] file_status_name(s) == status {
            let s = choose|s: FileStatus|
                !(s is Failed) && #[trigger] file_status_name(s) == status;
            assert(s.spec_to_db_columns().0 == status);
        }
    }
}

/// A file of so many bytes has a place for each of its chunks, and one without a size none.
pub proof fn law_chunks_have_their_places(size: i64)
    requires
        0 <= size,
        size / 1048576 < usize::MAX,
    ensures
        (chunk_slots(Some(size)) - 1) * 1048576 < size <= chunk_slots(Some(size)) * 1048576,
        chunk_slots(None) == 0,
{
}

/// What a row of a download comes to, with the rows of files and folders that name it.
pub open spec fn comes_to(
    target: TargetOs,
    row: DownloadEntry,
    files: Seq<FileEntry>,
    folders: Seq<FolderEntry>,
    hashes: Map<usize, Map<usize, Seq<Option<Seq<u8>>>>>,
) -> Option<DownloadModel> {
    read_download(
        target,
        row,
        files.filter(|r: FileEntry| r.download_id == row.id),
        folders.filter(|r: FolderEntry| r.download_id == row.id),
        hashes_of_download(hashes, row.id as usize),
    )
}

/// Every row of a download is loaded, in order, with the files and folders that name it; or
/// none is, and the first that nothing comes to is told.
pub proof fn law_every_download_is_loaded(
    target: TargetOs,
    rows: Seq<DownloadEntry>,
    files: Seq<FileEntry>,
    folders: Seq<FolderEntry>,
    hashes: Map<usize, Map<usize, Seq<Option<Seq<u8>>>>>,
    r: Result<Vec<Download>, DownloadId>,
)
    requires
        is_loaded(target, rows, files, folders, hashes, r),
    ensures
        match r {
            Ok(downloads) => downloads@.len() == rows.len() && forall|i: int|
                0 <= i < rows.len() ==> Some((#[trigger] downloads@[i])@) == comes_to(
                    target,
                    rows[i],
                    files,
                    folders,
                    hashes,
                ),
            Err(id) => exists|i: int|
                0 <= i < rows.len() && id.0 == (#[trigger] rows[i]).id as usize && comes_to(
                    target,
                    rows[i],
                    files,
                    folders,
                    hashes,
                ) is None && forall|k: int|
                    0 <= k < i ==> comes_to(
                        target,
                        #[trigger] rows[k],
                        files,
                        folders,
                        hashes,
                    ) is Some,
        },
{
    assert forall|i: int| 0 <= i < rows.len() implies read_one(
        target,
        #[trigger] rows[i],
        files,
        folders,
        hashes,
    ) == comes_to(target, rows[i], files, folders, hashes) by {
        reveal(read_one);
        lemma_files_of(files, rows[i].id);
        lemma_folders_of(folders, rows[i].id);
    }
    if let Err(id) = r {
        let i = choose|i: int| #[trigger]
            first_without_top(target, rows, files, folders, hashes, i) && id.0
                == rows[i].id as usize;
        assert(comes_to(target, rows[i], files, folders, hashes) is None);
    }
}

/// Something comes to a row of a download exactly if a file or a folder of it lies in none;
/// that is its root then.
pub proof fn law_downloads_need_a_root(
    target: TargetOs,
    row: DownloadEntry,
    files: Seq<FileEntry>,
    folders: Seq<FolderEntry>,
    hashes: Map<usize, Seq<Option<Seq<u8>>>>,
)
    ensures
        ({
            let read_in = read_files(target, files, hashes).0;
            let around = read_folders(files, folders, folders.len());
            match read_download(target, row, files, folders, hashes) {
                Some(d) => {
                    &&& Some(d.root_item) == root_of(read_in, around)
                    &&& d.files == read_in && d.folders == around
                    &&& d.id.0 == row.id as usize && d.url == row.url@
                    &&& d.is_paused == row.is_paused
                    &&& d.active_operation is None
                },
                None => root_of(read_in, around) is None,
            }
        }),
{
}

} // verus!
