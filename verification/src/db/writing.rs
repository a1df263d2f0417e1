//! Writing downloads, in batches that a database takes at once.

use vstd::prelude::*;
#[allow(unused_imports)]
use crate::db::chunk_hashes::{hashes_in, known_hashes, row_hash, with_hash};
use crate::db::rows::{ChunkHashRow, DownloadFileRow, DownloadFolderRow, DownloadRow};
use crate::download::items::{
    DownloadId, DownloadItem, FileDownload, FileId, FolderDownload, ItemId,
};
#[allow(unused_imports)]
use crate::download::file_name::chosen_name;
#[allow(unused_imports)]
use crate::download::items::{hashes_of, FileModel, FileSize, FolderModel};
#[allow(unused_imports)]
use crate::download::storing::{
    fitted_hashes, is_download_row, is_file_row, is_folder_row, lemma_signed_round_trip,
};
#[allow(unused_imports)]
use crate::download::tables::{find_file, find_folder};
use crate::download::tree::Download;
#[allow(unused_imports)]
use crate::download::tree::DownloadModel;

verus! {

/// How many rows are written at once. A database takes a limited number of values
/// in one statement, and a file has more than a dozen.
pub const BATCH_SIZE: usize = 1000;

/// What is written for a file: its row, and the digests of its chunks in batches.
pub struct FileWrite {
    pub row: DownloadFileRow,
    pub hashes: Vec<Vec<ChunkHashRow>>,
}

/// What is written for a download: its row, and its folders and files in batches.
pub struct DownloadWrite {
    pub row: DownloadRow,
    pub folders: Vec<Vec<DownloadFolderRow>>,
    pub files: Vec<Vec<FileWrite>>,
}

/// How many batches `n` rows make.
pub open spec fn batch_count(n: nat) -> nat {
    (n + (BATCH_SIZE - 1)) as nat / BATCH_SIZE as nat
}

/// How many rows the batch at place `i` holds.
pub open spec fn batch_len(n: nat, i: int) -> nat {
    if n - BATCH_SIZE * i < BATCH_SIZE {
        (n - BATCH_SIZE * i) as nat
    } else {
        BATCH_SIZE as nat
    }
}

/// The places and values of the digests that a file has.
pub open spec fn hash_entries(hashes: Seq<Option<Seq<u8>>>) -> Seq<(nat, Seq<u8>)>
    decreases hashes.len(),
{
    if hashes.len() == 0 {
        Seq::empty()
    } else {
        let before = hash_entries(hashes.drop_last());
        match hashes.last() {
            Some(h) => before.push(((hashes.len() - 1) as nat, h)),
            None => before,
        }
    }
}

/// Whether a row is what a digest is stored as.
pub open spec fn is_hash_row(
    row: ChunkHashRow,
    download_id: DownloadId,
    file_id: FileId,
    entry: (nat, Seq<u8>),
) -> bool {
    &&& row.download_id == download_id.0 as i64
    &&& row.file_id == file_id.0 as i64
    &&& row.chunk_index == (entry.0 as usize) as i64
    &&& row_hash(row) == Some(entry.1)
}

/// Whether batches hold what the digests of a file are stored as.
pub open spec fn are_hash_batches(
    batches: Seq<Vec<ChunkHashRow>>,
    download_id: DownloadId,
    file: FileModel,
) -> bool {
    let entries = hash_entries(file.chunk_hashes);
    &&& batches.len() == batch_count(entries.len())
    &&& forall|i: int|
        0 <= i < batches.len() ==> (#[trigger] batches[i])@.len() == batch_len(entries.len(), i)
    &&& forall|i: int, j: int|
        0 <= i < batches.len() && 0 <= j < batches[i]@.len() ==> is_hash_row(
            #[trigger] batches[i]@[j],
            download_id,
            file.id,
            entries[BATCH_SIZE * i + j],
        )
}

/// Whether batches hold what folders are stored as.
pub open spec fn are_folder_batches(
    batches: Seq<Vec<DownloadFolderRow>>,
    download_id: DownloadId,
    folders: Seq<FolderModel>,
) -> bool {
    &&& batches.len() == batch_count(folders.len())
    &&& forall|i: int|
        0 <= i < batches.len() ==> (#[trigger] batches[i])@.len() == batch_len(folders.len(), i)
    &&& forall|i: int, j: int|
        0 <= i < batches.len() && 0 <= j < batches[i]@.len() ==> is_folder_row(
            #[trigger] batches[i]@[j],
            download_id,
            folders[BATCH_SIZE * i + j],
        )
}

/// Whether what is written is what a file is stored as.
pub open spec fn is_file_write(w: FileWrite, download_id: DownloadId, file: FileModel) -> bool {
    is_file_row(w.row, download_id, file) && are_hash_batches(w.hashes@, download_id, file)
}

/// Whether batches hold what files are stored as.
pub open spec fn are_file_batches(
    batches: Seq<Vec<FileWrite>>,
    download_id: DownloadId,
    files: Seq<FileModel>,
) -> bool {
    &&& batches.len() == batch_count(files.len())
    &&& forall|i: int|
        0 <= i < batches.len() ==> (#[trigger] batches[i])@.len() == batch_len(files.len(), i)
    &&& forall|i: int, j: int|
        0 <= i < batches.len() && 0 <= j < batches[i]@.len() ==> is_file_write(
            #[trigger] batches[i]@[j],
            download_id,
            files[BATCH_SIZE * i + j],
        )
}

fn folder_batches(download_id: DownloadId, folders: &Vec<FolderDownload>) -> (r: Vec<
    Vec<DownloadFolderRow>,
>)
    ensures
        are_folder_batches(
            r@,
            download_id,
            Seq::new(folders@.len(), |i: int| folders@[i]@),
        ),
{
    let ghost models = Seq::new(folders@.len(), |i: int| folders@[i]@);
    let n: usize = folders.len();
    let mut r: Vec<Vec<DownloadFolderRow>> = Vec::new();
    let mut start: usize = 0;
    while start < n
        invariant
            n == folders@.len(),
            models == Seq::new(folders@.len(), |i: int| folders@[i]@),
            start <= n,
            start == BATCH_SIZE * r@.len() || (start == n && r@.len() == batch_count(n as nat)),
            forall|i: int|
                0 <= i < r@.len() ==> (#[trigger] r@[i])@.len() == batch_len(n as nat, i),
            forall|i: int, j: int|
                0 <= i < r@.len() && 0 <= j < r@[i]@.len() ==> is_folder_row(
                    #[trigger] r@[i]@[j],
                    download_id,
                    models[BATCH_SIZE * i + j],
                ),
        decreases n - start,
    {
        let mut batch: Vec<DownloadFolderRow> = Vec::new();
        let ghost at = r@.len();
        while batch.len() < BATCH_SIZE && start < n
            invariant
                n == folders@.len(),
                models == Seq::new(folders@.len(), |i: int| folders@[i]@),
                start <= n,
                batch@.len() <= BATCH_SIZE,
                start == BATCH_SIZE * at + batch@.len(),
                forall|j: int|
                    0 <= j < batch@.len() ==> is_folder_row(
                        #[trigger] batch@[j],
                        download_id,
                        models[BATCH_SIZE * at + j],
                    ),
            decreases n - start,
        {
            batch.push(DownloadFolderRow::of(download_id, &folders[start]));
            start += 1;
        }
        r.push(batch);
    }
    r
}

/// The rows of a file's digests, in batches.
pub fn write_chunk_hashes(download_id: DownloadId, file: &FileDownload) -> (r: Vec<
    Vec<ChunkHashRow>,
>)
    ensures
        are_hash_batches(r@, download_id, file@),
{
    let ghost hashes = file@.chunk_hashes;
    let ghost entries = hash_entries(hashes);
    let n: usize = file.chunk_hashes.len();
    let mut r: Vec<Vec<ChunkHashRow>> = Vec::new();
    let mut batch: Vec<ChunkHashRow> = Vec::new();
    let mut i: usize = 0;
    assert(hashes.take(0) =~= Seq::<Option<Seq<u8>>>::empty());
    while i < n
        invariant
            n == file.chunk_hashes@.len(),
            hashes == hashes_of(file.chunk_hashes@),
            entries == hash_entries(hashes),
            i <= n,
            batch@.len() < BATCH_SIZE,
            hash_entries(hashes.take(i as int)).len() == BATCH_SIZE * r@.len() + batch@.len(),
            forall|k: int| 0 <= k < r@.len() ==> (#[trigger] r@[k])@.len() == BATCH_SIZE,
            forall|k: int, j: int|
                0 <= k < r@.len() && 0 <= j < r@[k]@.len() ==> is_hash_row(
                    #[trigger] r@[k]@[j],
                    download_id,
                    file.id,
                    entries[BATCH_SIZE * k + j],
                ),
            forall|j: int|
                0 <= j < batch@.len() ==> is_hash_row(
                    #[trigger] batch@[j],
                    download_id,
                    file.id,
                    entries[BATCH_SIZE * r@.len() + j],
                ),
        decreases n - i,
    {
        proof {
            assert(hashes.take(i + 1).drop_last() =~= hashes.take(i as int));
            assert(hashes.take(i + 1).last() == hashes[i as int]);
            lemma_entries_prefix(hashes, i + 1);
        }
        if let Some(hash) = file.chunk_hashes[i] {
            let row = ChunkHashRow {
                download_id: #[verifier::truncate]
                (download_id.0 as i64),
                file_id: #[verifier::truncate]
                (file.id.0 as i64),
                chunk_index: #[verifier::truncate]
                (i as i64),
                hash: Some(bytes_of(&hash)),
            };
            proof {
                let m = hash_entries(hashes.take(i as int)).len() as int;
                assert(hash_entries(hashes.take(i + 1))[m] == (i as nat, hash@));
                assert(entries[m] == (i as nat, hash@));
                assert(is_hash_row(row, download_id, file.id, entries[m]));
            }
            batch.push(row);
            if batch.len() == BATCH_SIZE {
                r.push(batch);
                batch = Vec::new();
            }
        }
        i += 1;
    }
    assert(hashes.take(i as int) =~= hashes);
    if batch.len() > 0 {
        r.push(batch);
    }
    r
}

fn bytes_of(hash: &[u8; 16]) -> (r: Vec<u8>)
    ensures
        r@ == hash@,
{
    let mut r: Vec<u8> = Vec::new();
    let mut i: usize = 0;
    while i < 16
        invariant
            i <= 16,
            r@ == hash@.take(i as int),
        decreases 16 - i,
    {
        r.push(hash[i]);
        i += 1;
        assert(r@ =~= hash@.take(i as int));
    }
    assert(r@ =~= hash@);
    r
}

/// The digests of a beginning come first.
proof fn lemma_entries_prefix(hashes: Seq<Option<Seq<u8>>>, n: int)
    requires
        0 <= n <= hashes.len(),
    ensures
        hash_entries(hashes.take(n)).len() <= hash_entries(hashes).len(),
        forall|i: int|
            0 <= i < hash_entries(hashes.take(n)).len() ==> #[trigger] hash_entries(hashes)[i]
                == hash_entries(hashes.take(n))[i],
    decreases hashes.len(),
{
    if n == hashes.len() {
        assert(hashes.take(n) =~= hashes);
    } else {
        assert(hashes.drop_last().take(n) =~= hashes.take(n));
        lemma_entries_prefix(hashes.drop_last(), n);
    }
}

fn file_batches(download_id: DownloadId, files: &Vec<FileDownload>) -> (r: Vec<Vec<FileWrite>>)
    ensures
        are_file_batches(r@, download_id, Seq::new(files@.len(), |i: int| files@[i]@)),
{
    let ghost models = Seq::new(files@.len(), |i: int| files@[i]@);
    let n: usize = files.len();
    let mut r: Vec<Vec<FileWrite>> = Vec::new();
    let mut start: usize = 0;
    while start < n
        invariant
            n == files@.len(),
            models == Seq::new(files@.len(), |i: int| files@[i]@),
            start <= n,
            start == BATCH_SIZE * r@.len() || (start == n && r@.len() == batch_count(n as nat)),
            forall|i: int|
                0 <= i < r@.len() ==> (#[trigger] r@[i])@.len() == batch_len(n as nat, i),
            forall|i: int, j: int|
                0 <= i < r@.len() && 0 <= j < r@[i]@.len() ==> is_file_write(
                    #[trigger] r@[i]@[j],
                    download_id,
                    models[BATCH_SIZE * i + j],
                ),
        decreases n - start,
    {
        let mut batch: Vec<FileWrite> = Vec::new();
        let ghost at = r@.len();
        while batch.len() < BATCH_SIZE && start < n
            invariant
                n == files@.len(),
                models == Seq::new(files@.len(), |i: int| files@[i]@),
                start <= n,
                batch@.len() <= BATCH_SIZE,
                start == BATCH_SIZE * at + batch@.len(),
                forall|j: int|
                    0 <= j < batch@.len() ==> is_file_write(
                        #[trigger] batch@[j],
                        download_id,
                        models[BATCH_SIZE * at + j],
                    ),
            decreases n - start,
        {
            let row = DownloadFileRow::of(download_id, &files[start]);
            let hashes = write_chunk_hashes(download_id, &files[start]);
            batch.push(FileWrite { row, hashes });
            start += 1;
        }
        r.push(batch);
    }
    r
}

/// The name of the root of a download, if there is a root.
pub open spec fn root_name(d: DownloadModel) -> Option<Seq<char>> {
    match d.root_item {
        ItemId::File(id) => match find_file(d.files, id) {
            Some(i) => Some(chosen_name(d.files[i].name)),
            None => None,
        },
        ItemId::Folder(id) => match find_folder(d.folders, id) {
            Some(i) => Some(d.folders[i].name),
            None => None,
        },
    }
}

impl Download {
    /// The name of the download: that of its root, which has to exist.
    pub fn name(&self) -> (r: &str)
        requires
            self.wf(),
            root_name(self@).is_some(),
        ensures
            root_name(self@) == Some(r@),
    {
        match self.root_item {
            ItemId::File(id) => self.files.get(id).unwrap().name(),
            ItemId::Folder(id) => self.folders.get(id).unwrap().folder_name.as_str(),
        }
    }
}

/// What is written for a download.
pub fn write_download(download: &Download) -> (r: DownloadWrite)
    requires
        download.wf(),
        root_name(download@).is_some(),
    ensures
        is_download_row(r.row, download@, root_name(download@)->0),
        are_folder_batches(r.folders@, download.id, download@.folders),
        are_file_batches(r.files@, download.id, download@.files),
{
    let (status, reason) = download.status.to_db_columns();
    let (relative_path_raw, relative_path) = download.save_path.to_raw();
    let row = DownloadRow {
        id: #[verifier::truncate]
        (download.id.0 as i64),
        url: download.url.clone(),
        name: download.name().to_owned(),
        relative_path_raw,
        relative_path,
        status: status.to_owned(),
        failure_reason: match reason {
            Some(text) => Some(text.to_owned()),
            None => None,
        },
        is_paused: download.is_paused,
    };
    DownloadWrite {
        row,
        folders: folder_batches(download.id, &download.folders.items),
        files: file_batches(download.id, &download.files.items),
    }
}

/// Whether digests that were read are those of a file: what is missing at the end is
/// open.
pub open spec fn are_digests_of(read: Seq<Option<Seq<u8>>>, hashes: Seq<Option<Seq<u8>>>) -> bool {
    &&& read.len() <= hashes.len()
    &&& forall|i: int| 0 <= i < read.len() ==> #[trigger] read[i] == hashes[i]
    &&& forall|i: int| read.len() <= i < hashes.len() ==> (#[trigger] hashes[i]).is_none()
}

proof fn lemma_written_hashes(
    rows: Seq<ChunkHashRow>,
    download_id: DownloadId,
    file_id: FileId,
    hashes: Seq<Option<Seq<u8>>>,
)
    requires
        rows.len() == hash_entries(hashes).len(),
        forall|i: int|
            0 <= i < rows.len() ==> is_hash_row(
                #[trigger] rows[i],
                download_id,
                file_id,
                hash_entries(hashes)[i],
            ),
        forall|i: int|
            0 <= i < hashes.len() && (#[trigger] hashes[i]).is_some() ==> (hashes[i]->0).len()
                == 16,
        hashes.len() <= i64::MAX,
        hashes.len() <= usize::MAX,
    ensures
        are_digests_of(known_hashes(hashes_in(rows), file_id.0), hashes),
    decreases hashes.len(),
{
    if hashes.len() > 0 {
        let shorter = hashes.drop_last();
        let before = hash_entries(shorter);
        match hashes.last() {
            None => {
                assert forall|i: int| 0 <= i < rows.len() implies is_hash_row(
                    #[trigger] rows[i],
                    download_id,
                    file_id,
                    before[i],
                ) by {
                    assert(hash_entries(hashes)[i] == before[i]);
                }
                lemma_written_hashes(rows, download_id, file_id, shorter);
                assert(forall|i: int|
                    0 <= i < shorter.len() ==> #[trigger] hashes[i] == shorter[i]);
            },
            Some(h) => {
                let n = (hashes.len() - 1) as nat;
                assert(hash_entries(hashes) == before.push((n, h)));
                assert forall|i: int| 0 <= i < rows.drop_last().len() implies is_hash_row(
                    #[trigger] rows.drop_last()[i],
                    download_id,
                    file_id,
                    before[i],
                ) by {
                    assert(rows[i] == rows.drop_last()[i]);
                    assert(hash_entries(hashes)[i] == before[i]);
                }
                lemma_written_hashes(rows.drop_last(), download_id, file_id, shorter);
                lemma_signed_round_trip(file_id.0);
                let row = rows.last();
                assert(is_hash_row(row, download_id, file_id, (n, h))) by {
                    assert(hash_entries(hashes)[rows.len() - 1] == (n, h));
                    assert(rows[rows.len() - 1] == row);
                }
                assert(hashes[n as int] == Some(h));
                let read = known_hashes(hashes_in(rows.drop_last()), file_id.0);
                assert(known_hashes(hashes_in(rows), file_id.0) == with_hash(read, n, Some(h)));
                assert forall|i: int| 0 <= i < n implies #[trigger] with_hash(
                    read,
                    n,
                    Some(h),
                )[i] == hashes[i] by {
                    assert(shorter[i] == hashes[i]);
                    if i < read.len() {
                        assert(read[i] == shorter[i]);
                    }
                }
            },
        }
    }
}

/// The digests of a file read back from the rows that they were written as, with
/// nothing but open ones missing at the end.
pub proof fn law_written_hashes_read_back(
    rows: Seq<ChunkHashRow>,
    download_id: DownloadId,
    file: FileModel,
)
    requires
        rows.len() == hash_entries(file.chunk_hashes).len(),
        forall|i: int|
            0 <= i < rows.len() ==> is_hash_row(
                #[trigger] rows[i],
                download_id,
                file.id,
                hash_entries(file.chunk_hashes)[i],
            ),
        forall|i: int|
            0 <= i < file.chunk_hashes.len() && (#[trigger] file.chunk_hashes[i]).is_some() ==> (
            file.chunk_hashes[i]->0).len() == 16,
        file.chunk_hashes.len() <= i64::MAX,
        file.chunk_hashes.len() <= usize::MAX,
    ensures
        are_digests_of(known_hashes(hashes_in(rows), file.id.0), file.chunk_hashes),
{
    lemma_written_hashes(rows, download_id, file.id, file.chunk_hashes);
}

/// What is read back fits a file of known size like the digests that were written.
pub proof fn law_read_hashes_fit(
    read: Seq<Option<Seq<u8>>>,
    hashes: Seq<Option<Seq<u8>>>,
    size: Option<FileSize>,
)
    requires
        are_digests_of(read, hashes),
        size matches Some(FileSize::Known(_)),
    ensures
        fitted_hashes(size, read) == fitted_hashes(size, hashes),
{
    assert(fitted_hashes(size, read) =~= fitted_hashes(size, hashes));
}

} // verus!
