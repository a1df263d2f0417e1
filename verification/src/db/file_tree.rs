//! Putting the files and folders of a download together again from their rows.

use std::collections::HashMap;

use vstd::prelude::*;
#[allow(unused_imports)]
use crate::db::chunk_hashes::{hash_map_view, known_hashes};
use crate::db::rows::{FileEntry, FolderEntry};
#[allow(unused_imports)]
use crate::download::building::counters_of;
#[allow(unused_imports)]
use crate::download::file_name::text_of;
use crate::download::items::{FileDownload, FileId, FolderDownload, FolderId};
#[allow(unused_imports)]
use crate::download::items::{hashes_of, FileModel, FolderModel};
use crate::download::status::{DownloadStatus, FileStatus, StateBucketCounters, StatusBucket};
#[allow(unused_imports)]
use crate::download::storing::{
    column_bytes, column_parent, columns_download_status, columns_status, file_from_row,
    folder_from_row,
};
use crate::download::tables::{FileTable, FolderTable};
#[allow(unused_imports)]
use crate::download::tables::{with_file, with_folder};
use crate::utils::file_utils::TargetOs;

verus! {

broadcast use vstd::std_specs::hash::group_hash_axioms;

/// The numbers of the files whose rows name a folder as their parent, in order.
pub open spec fn listed_files(rows: Seq<FileEntry>, parent: FolderId) -> Seq<FileId>
    decreases rows.len(),
{
    if rows.len() == 0 {
        Seq::empty()
    } else if column_parent(rows.last().parent_folder_id) == Some(parent) {
        listed_files(rows.drop_last(), parent).push(FileId(rows.last().file_id as usize))
    } else {
        listed_files(rows.drop_last(), parent)
    }
}

/// The numbers of the folders whose rows name a folder as their parent, in order.
pub open spec fn listed_folders(rows: Seq<FolderEntry>, parent: FolderId) -> Seq<FolderId>
    decreases rows.len(),
{
    if rows.len() == 0 {
        Seq::empty()
    } else if column_parent(rows.last().parent_folder_id) == Some(parent) {
        listed_folders(rows.drop_last(), parent).push(FolderId(rows.last().folder_id as usize))
    } else {
        listed_folders(rows.drop_last(), parent)
    }
}

/// The buckets that the rows of those files show, in order.
pub open spec fn file_buckets(rows: Seq<FileEntry>, parent: FolderId) -> Seq<StatusBucket>
    decreases rows.len(),
{
    if rows.len() == 0 {
        Seq::empty()
    } else if column_parent(rows.last().parent_folder_id) == Some(parent) {
        file_buckets(rows.drop_last(), parent).push(
            columns_status(
                rows.last().status@,
                text_of(rows.last().failure_reason),
            ).spec_bucket(),
        )
    } else {
        file_buckets(rows.drop_last(), parent)
    }
}

/// The buckets that the rows of those folders show, in order.
pub open spec fn folder_buckets(
    rows: Seq<FolderEntry>,
    parent: FolderId,
) -> Seq<StatusBucket>
    decreases rows.len(),
{
    if rows.len() == 0 {
        Seq::empty()
    } else if column_parent(rows.last().parent_folder_id) == Some(parent) {
        folder_buckets(rows.drop_last(), parent).push(
            columns_download_status(
                rows.last().status@,
                text_of(rows.last().failure_reason),
            ).spec_bucket(),
        )
    } else {
        folder_buckets(rows.drop_last(), parent)
    }
}

/// The files that rows stand for. Digests go to the first row of their file.
pub open spec fn read_files(
    target: TargetOs,
    rows: Seq<FileEntry>,
    hashes: Map<usize, Seq<Option<Seq<u8>>>>,
) -> (Seq<FileModel>, Map<usize, Seq<Option<Seq<u8>>>>)
    decreases rows.len(),
{
    if rows.len() == 0 {
        (Seq::empty(), hashes)
    } else {
        let before = read_files(target, rows.drop_last(), hashes);
        let row = rows.last();
        let own = known_hashes(before.1, row.file_id as usize);
        (
            with_file(before.0, file_from_row(target, row, own)),
            before.1.remove(row.file_id as usize),
        )
    }
}

/// The folders that the first `n` rows stand for. What a folder holds goes to the
/// first row of that folder.
pub open spec fn read_folders(
    file_rows: Seq<FileEntry>,
    rows: Seq<FolderEntry>,
    n: nat,
) -> Seq<FolderModel>
    decreases n,
{
    if n == 0 {
        Seq::empty()
    } else {
        let row = rows[n - 1];
        let id = FolderId(row.folder_id as usize);
        let again = exists|k: int|
            0 <= k < n - 1 && (#[trigger] rows[k]).folder_id as usize == id.0;
        let folder = if again {
            folder_from_row(row, Seq::empty(), Seq::empty(), counters_of(Seq::empty()))
        } else {
            folder_from_row(
                row,
                listed_files(file_rows, id),
                listed_folders(rows, id),
                counters_of(file_buckets(file_rows, id) + folder_buckets(rows, id)),
            )
        };
        with_folder(read_folders(file_rows, rows, (n - 1) as nat), folder)
    }
}

spec fn files_at(m: Map<usize, Vec<FileId>>, k: usize) -> Seq<FileId> {
    if m.contains_key(k) {
        m[k]@
    } else {
        Seq::empty()
    }
}

spec fn folders_at(m: Map<usize, Vec<FolderId>>, k: usize) -> Seq<FolderId> {
    if m.contains_key(k) {
        m[k]@
    } else {
        Seq::empty()
    }
}

spec fn counters_at(m: Map<usize, StateBucketCounters>, k: usize) -> Seq<usize> {
    if m.contains_key(k) {
        m[k].data@
    } else {
        counters_of(Seq::empty())
    }
}

proof fn lemma_bucket_lens(
    file_rows: Seq<FileEntry>,
    folder_rows: Seq<FolderEntry>,
    parent: FolderId,
)
    ensures
        file_buckets(file_rows, parent).len() <= file_rows.len(),
        folder_buckets(folder_rows, parent).len() <= folder_rows.len(),
    decreases file_rows.len() + folder_rows.len(),
{
    if file_rows.len() > 0 {
        lemma_bucket_lens(file_rows.drop_last(), folder_rows, parent);
    } else if folder_rows.len() > 0 {
        lemma_bucket_lens(file_rows, folder_rows.drop_last(), parent);
    }
}

proof fn lemma_no_counters(c: StateBucketCounters)
    requires
        forall|b: StatusBucket| #[trigger] c.count(b) == 0,
    ensures
        c.data@ == counters_of(Seq::empty()),
{
    assert forall|i: int| 0 <= i < 6 implies c.data@[i] == 0 by {
        assert(c.count(StatusBucket::Uninitialized) == 0);
        assert(c.count(StatusBucket::MetadataFetched) == 0);
        assert(c.count(StatusBucket::Partial) == 0);
        assert(c.count(StatusBucket::Completed) == 0);
        assert(c.count(StatusBucket::Error) == 0);
        assert(c.count(StatusBucket::CompletedWithErrors) == 0);
    }
    assert(c.data@ =~= counters_of(Seq::empty()));
}

fn count_child(
    counters: &mut HashMap<usize, StateBucketCounters>,
    parent: usize,
    bucket: StatusBucket,
    Ghost(buckets): Ghost<Seq<StatusBucket>>,
)
    requires
        counters_at(old(counters)@, parent) == counters_of(buckets),
        buckets.len() < usize::MAX,
    ensures
        counters_at(final(counters)@, parent) == counters_of(buckets.push(bucket)),
        forall|k: usize|
            k != parent ==> #[trigger] counters_at(final(counters)@, k) == counters_at(
                old(counters)@,
                k,
            ),
{
    let mut own: StateBucketCounters = match counters.remove(&parent) {
        Some(own) => own,
        None => {
            let fresh = StateBucketCounters::new();
            proof {
                lemma_no_counters(fresh);
            }
            fresh
        },
    };
    proof {
        crate::download::building::lemma_counters_bound(buckets, bucket);
        assert(buckets.push(bucket).drop_last() =~= buckets);
    }
    own.increment(bucket);
    counters.insert(parent, own);
}

/// What folders hold, by the number of the folder.
struct Holdings {
    files: HashMap<usize, Vec<FileId>>,
    folders: HashMap<usize, Vec<FolderId>>,
    counters: HashMap<usize, StateBucketCounters>,
}

impl Holdings {
    /// Whether what is held by a folder is what rows say.
    spec fn holds(
        &self,
        file_rows: Seq<FileEntry>,
        folder_rows: Seq<FolderEntry>,
        k: usize,
    ) -> bool {
        &&& files_at(self.files@, k) == listed_files(file_rows, FolderId(k))
        &&& folders_at(self.folders@, k) == listed_folders(folder_rows, FolderId(k))
        &&& counters_at(self.counters@, k) == counters_of(
            file_buckets(file_rows, FolderId(k)) + folder_buckets(folder_rows, FolderId(k)),
        )
    }

    /// Whether nothing is held by a folder.
    spec fn empty_at(&self, k: usize) -> bool {
        &&& files_at(self.files@, k) == Seq::<FileId>::empty()
        &&& folders_at(self.folders@, k) == Seq::<FolderId>::empty()
        &&& counters_at(self.counters@, k) == counters_of(Seq::empty())
    }

    fn new() -> (r: Self)
        ensures
            forall|k: usize| #[trigger] r.holds(Seq::empty(), Seq::empty(), k),
    {
        let r = Holdings { files: HashMap::new(), folders: HashMap::new(), counters: HashMap::new() };
        proof {
            let no_files = Seq::<FileEntry>::empty();
            let no_folders = Seq::<FolderEntry>::empty();
            assert forall|k: usize| #[trigger] r.holds(no_files, no_folders, k) by {
                assert(file_buckets(no_files, FolderId(k)) + folder_buckets(
                    no_folders,
                    FolderId(k),
                ) =~= Seq::<StatusBucket>::empty());
            }
        }
        r
    }

    /// Notes a file with the folder that it lies in.
    fn note_file(&mut self, row: &FileEntry, Ghost(rows): Ghost<Seq<FileEntry>>)
        requires
            forall|k: usize| #[trigger] old(self).holds(rows, Seq::empty(), k),
            rows.len() < usize::MAX,
        ensures
            forall|k: usize| #[trigger] final(self).holds(rows.push(*row), Seq::empty(), k),
    {
        let ghost no_folders = Seq::<FolderEntry>::empty();
        let ghost before = *self;
        assert(rows.push(*row).drop_last() =~= rows);
        let status = match FileStatus::from_db_columns(
            row.status.as_str(),
            match &row.failure_reason {
                Some(t) => Some(t.as_str()),
                None => None,
            },
        ) {
            Some(status) => status,
            None => FileStatus::Uninitialized,
        };
        let bucket = status.bucket();
        if let Some(parent_id) = row.parent_folder_id {
            let parent: usize = #[verifier::truncate]
            (parent_id as usize);
            proof {
                lemma_bucket_lens(rows, no_folders, FolderId(parent));
                assert(before.holds(rows, no_folders, parent));
                assert(file_buckets(rows, FolderId(parent)) + folder_buckets(
                    no_folders,
                    FolderId(parent),
                ) =~= file_buckets(rows, FolderId(parent)));
            }
            let mut own: Vec<FileId> = match self.files.remove(&parent) {
                Some(own) => own,
                None => Vec::new(),
            };
            own.push(
                FileId(
                    #[verifier::truncate]
                    (row.file_id as usize),
                ),
            );
            self.files.insert(parent, own);
            count_child(
                &mut self.counters,
                parent,
                bucket,
                Ghost(file_buckets(rows, FolderId(parent))),
            );
            proof {
                assert forall|k: usize| #[trigger] self.holds(rows.push(*row), no_folders, k) by {
                    assert(before.holds(rows, no_folders, k));
                    assert(file_buckets(rows.push(*row), FolderId(k)) + folder_buckets(
                        no_folders,
                        FolderId(k),
                    ) =~= file_buckets(rows.push(*row), FolderId(k)));
                    assert(file_buckets(rows, FolderId(k)) + folder_buckets(
                        no_folders,
                        FolderId(k),
                    ) =~= file_buckets(rows, FolderId(k)));
                }
            }
        } else {
            proof {
                assert forall|k: usize| #[trigger] self.holds(rows.push(*row), no_folders, k) by {
                    assert(before.holds(rows, no_folders, k));
                }
            }
        }
    }

    /// Notes a folder with the one that it lies in.
    fn note_folder(
        &mut self,
        row: &FolderEntry,
        Ghost(file_rows): Ghost<Seq<FileEntry>>,
        Ghost(rows): Ghost<Seq<FolderEntry>>,
    )
        requires
            forall|k: usize| #[trigger] old(self).holds(file_rows, rows, k),
            file_rows.len() + rows.len() < usize::MAX,
        ensures
            forall|k: usize| #[trigger] final(self).holds(file_rows, rows.push(*row), k),
    {
        let ghost before = *self;
        assert(rows.push(*row).drop_last() =~= rows);
        let status = match DownloadStatus::from_db_columns(
            row.status.as_str(),
            match &row.failure_reason {
                Some(t) => Some(t.as_str()),
                None => None,
            },
        ) {
            Some(status) => status,
            None => DownloadStatus::Uninitialized,
        };
        let bucket = status.bucket();
        if let Some(parent_id) = row.parent_folder_id {
            let parent: usize = #[verifier::truncate]
            (parent_id as usize);
            proof {
                lemma_bucket_lens(file_rows, rows, FolderId(parent));
                assert(before.holds(file_rows, rows, parent));
            }
            let mut own: Vec<FolderId> = match self.folders.remove(&parent) {
                Some(own) => own,
                None => Vec::new(),
            };
            own.push(
                FolderId(
                    #[verifier::truncate]
                    (row.folder_id as usize),
                ),
            );
            self.folders.insert(parent, own);
            count_child(
                &mut self.counters,
                parent,
                bucket,
                Ghost(
                    file_buckets(file_rows, FolderId(parent)) + folder_buckets(
                        rows,
                        FolderId(parent),
                    ),
                ),
            );
            proof {
                assert forall|k: usize| #[trigger] self.holds(file_rows, rows.push(*row), k) by {
                    assert(before.holds(file_rows, rows, k));
                    let files = file_buckets(file_rows, FolderId(k));
                    let folders = folder_buckets(rows, FolderId(k));
                    assert((files + folders).push(bucket) =~= files + folders.push(bucket));
                }
            }
        } else {
            proof {
                assert forall|k: usize| #[trigger] self.holds(file_rows, rows.push(*row), k) by {
                    assert(before.holds(file_rows, rows, k));
                }
            }
        }
    }

    /// Hands out what a folder holds.
    fn take(&mut self, id: usize) -> (r: (Vec<FileId>, Vec<FolderId>, StateBucketCounters))
        ensures
            r.0@ == files_at(old(self).files@, id),
            r.1@ == folders_at(old(self).folders@, id),
            r.2.data@ == counters_at(old(self).counters@, id),
            final(self).empty_at(id),
            forall|k: usize|
                k != id ==> {
                    &&& #[trigger] files_at(final(self).files@, k) == files_at(old(self).files@, k)
                    &&& folders_at(final(self).folders@, k) == folders_at(old(self).folders@, k)
                    &&& counters_at(final(self).counters@, k) == counters_at(
                        old(self).counters@,
                        k,
                    )
                },
    {
        let files: Vec<FileId> = match self.files.remove(&id) {
            Some(files) => files,
            None => Vec::new(),
        };
        let folders: Vec<FolderId> = match self.folders.remove(&id) {
            Some(folders) => folders,
            None => Vec::new(),
        };
        let counters: StateBucketCounters = match self.counters.remove(&id) {
            Some(counters) => counters,
            None => {
                let fresh = StateBucketCounters::new();
                proof {
                    lemma_no_counters(fresh);
                }
                fresh
            },
        };
        (files, folders, counters)
    }
}

/// Puts the files and folders of a download together again.
pub fn reconstruct_file_tree(
    file_rows: Vec<FileEntry>,
    folder_rows: Vec<FolderEntry>,
    chunk_hashes: HashMap<usize, Vec<Option<[u8; 16]>>>,
    target: TargetOs,
) -> (r: (FileTable, FolderTable))
    requires
        file_rows@.len() + folder_rows@.len() <= usize::MAX,
        forall|i: int|
            0 <= i < file_rows@.len() ==> 8 * column_bytes(
                (#[trigger] file_rows@[i]).chunks_raw,
            ).len() <= usize::MAX / 8,
    ensures
        r.0.wf(),
        r.1.wf(),
        r.0@ == read_files(target, file_rows@, hash_map_view(chunk_hashes@)).0,
        r.1@ == read_folders(file_rows@, folder_rows@, folder_rows@.len()),
{
    let ghost all_files = file_rows@;
    let ghost all_folders = folder_rows@;
    let mut held = Holdings::new();
    let mut i: usize = 0;
    assert(all_files.take(0) =~= Seq::<FileEntry>::empty());
    while i < file_rows.len()
        invariant
            i <= file_rows@.len(),
            all_files == file_rows@,
            forall|k: usize| #[trigger] held.holds(all_files.take(i as int), Seq::empty(), k),
        decreases file_rows@.len() - i,
    {
        assert(all_files.take(i + 1) =~= all_files.take(i as int).push(all_files[i as int]));
        held.note_file(&file_rows[i], Ghost(all_files.take(i as int)));
        i += 1;
    }
    assert(all_files.take(i as int) =~= all_files);
    let mut j: usize = 0;
    assert(all_folders.take(0) =~= Seq::<FolderEntry>::empty());
    while j < folder_rows.len()
        invariant
            j <= folder_rows@.len(),
            all_folders == folder_rows@,
            all_files.len() + all_folders.len() <= usize::MAX,
            forall|k: usize| #[trigger] held.holds(all_files, all_folders.take(j as int), k),
        decreases folder_rows@.len() - j,
    {
        assert(all_folders.take(j + 1) =~= all_folders.take(j as int).push(all_folders[j as int]));
        held.note_folder(&folder_rows[j], Ghost(all_files), Ghost(all_folders.take(j as int)));
        j += 1;
    }
    assert(all_folders.take(j as int) =~= all_folders);
    let files = read_file_rows(file_rows, chunk_hashes, target);
    let folders = read_folder_rows(folder_rows, held, Ghost(all_files));
    (files, folders)
}

fn read_file_rows(
    rows: Vec<FileEntry>,
    chunk_hashes: HashMap<usize, Vec<Option<[u8; 16]>>>,
    target: TargetOs,
) -> (files: FileTable)
    requires
        forall|i: int|
            0 <= i < rows@.len() ==> 8 * column_bytes((#[trigger] rows@[i]).chunks_raw).len()
                <= usize::MAX / 8,
    ensures
        files.wf(),
        files@ == read_files(target, rows@, hash_map_view(chunk_hashes@)).0,
{
    let ghost all = rows@;
    let ghost given = hash_map_view(chunk_hashes@);
    let mut left = chunk_hashes;
    let mut files = FileTable::new();
    assert(all.take(0) =~= Seq::<FileEntry>::empty());
    for row in it: rows.into_iter()
        invariant
            it.seq() == all,
            files.wf(),
            forall|i: int|
                0 <= i < all.len() ==> 8 * column_bytes((#[trigger] all[i]).chunks_raw).len()
                    <= usize::MAX / 8,
            files@ == read_files(target, all.take(it.index() as int), given).0,
            hash_map_view(left@) == read_files(target, all.take(it.index() as int), given).1,
    {
        let ghost n = it.index() as int;
        proof {
            assert(all[n] == row);
            assert(all.take(n + 1).drop_last() =~= all.take(n));
            assert(all.take(n + 1).last() == row);
        }
        let id: usize = #[verifier::truncate]
        (row.file_id as usize);
        let ghost left_before = left@;
        let hashes: Vec<Option<[u8; 16]>> = match left.remove(&id) {
            Some(hashes) => hashes,
            None => Vec::new(),
        };
        proof {
            assert(hashes_of(Seq::<Option<[u8; 16]>>::empty())
                =~= Seq::<Option<Seq<u8>>>::empty());
            assert(hashes_of(hashes@) == known_hashes(hash_map_view(left_before), id));
            assert(hash_map_view(left@) =~= hash_map_view(left_before).remove(id));
        }
        let file = FileDownload::from_entry(row, hashes, target);
        files.insert(file);
    }
    assert(all.take(all.len() as int) =~= all);
    files
}

/// Whether one of the first `n` rows is that of a folder.
spec fn row_seen(rows: Seq<FolderEntry>, n: int, k: usize) -> bool {
    exists|m: int| 0 <= m < n && (#[trigger] rows[m]).folder_id as usize == k
}

impl Holdings {
    /// Whether what is left at a folder is what rows say, or nothing if it was handed
    /// out.
    spec fn left_at(
        &self,
        file_rows: Seq<FileEntry>,
        rows: Seq<FolderEntry>,
        n: int,
        k: usize,
    ) -> bool {
        if row_seen(rows, n, k) {
            self.empty_at(k)
        } else {
            self.holds(file_rows, rows, k)
        }
    }
}

fn read_folder_rows(
    rows: Vec<FolderEntry>,
    held: Holdings,
    Ghost(file_rows): Ghost<Seq<FileEntry>>,
) -> (folders: FolderTable)
    requires
        forall|k: usize| #[trigger] held.holds(file_rows, rows@, k),
    ensures
        folders.wf(),
        folders@ == read_folders(file_rows, rows@, rows@.len()),
{
    let ghost all = rows@;
    let mut held = held;
    let mut folders = FolderTable::new();
    proof {
        assert forall|k: usize| #[trigger] held.left_at(file_rows, all, 0, k) by {
            assert(held.holds(file_rows, all, k));
        }
    }
    for row in it: rows.into_iter()
        invariant
            it.seq() == all,
            folders.wf(),
            folders@ == read_folders(file_rows, all, it.index() as nat),
            forall|k: usize| #[trigger] held.left_at(file_rows, all, it.index() as int, k),
    {
        let ghost n = it.index() as int;
        let ghost held_before = held;
        assert(all[n] == row);
        let id: usize = #[verifier::truncate]
        (row.folder_id as usize);
        assert(held.left_at(file_rows, all, n, id));
        let (child_files, child_folders, counters) = held.take(id);
        let folder = FolderDownload::from_entry(row, child_files, child_folders, counters);
        folders.insert(folder);
        proof {
            assert forall|k: usize| #[trigger] held.left_at(file_rows, all, n + 1, k) by {
                assert(held_before.left_at(file_rows, all, n, k));
                if k == id {
                    assert(all[n].folder_id as usize == id);
                    assert(row_seen(all, n + 1, k));
                } else {
                    assert(files_at(held.files@, k) == files_at(held_before.files@, k));
                    if row_seen(all, n + 1, k) {
                        let m = choose|m: int|
                            0 <= m < n + 1 && (#[trigger] all[m]).folder_id as usize == k;
                        assert(m < n);
                        assert(row_seen(all, n, k));
                    }
                    if row_seen(all, n, k) {
                        let m = choose|m: int|
                            0 <= m < n && (#[trigger] all[m]).folder_id as usize == k;
                        assert(row_seen(all, n + 1, k));
                    }
                }
            }
        }
    }
    folders
}

} // verus!
