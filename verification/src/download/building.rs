//! How a download is made from what a plugin found.

use vstd::prelude::*;
use crate::download::hosts::tasks::{DownloadTask, FolderTask, TaskType};
use crate::download::items::{
    usable_folder_name, DownloadId, FileDownload, FileId, FolderDownload, FolderId, ItemId,
};
#[allow(unused_imports)]
use crate::download::items::{folder_name_of, new_file, FileModel, FolderModel};
use crate::download::status::{DownloadStatus, StateBucketCounters, StatusBucket};
use crate::download::tables::{FileTable, FolderTable};
use crate::download::tree::Download;
#[allow(unused_imports)]
use crate::download::tree::DownloadModel;
#[allow(unused_imports)]
use crate::download::tree_laws::{law_new_download_is_in_order, tree_ok};
use crate::utils::file_utils::TargetOs;
use crate::utils::paths::ItemPath;
#[allow(unused_imports)]
use crate::utils::paths::spec_join;

verus! {

/// How many files lie in a folder, at any depth.
pub open spec fn files_below(t: FolderTask) -> nat
    decreases t,
{
    entry_files(t.files@)
}

/// How many files these entries are and hold.
pub open spec fn entry_files(s: Seq<TaskType>) -> nat
    decreases s,
{
    if s.len() == 0 {
        0
    } else {
        entry_files(s.drop_last()) + match s.last() {
            TaskType::File(_) => 1nat,
            TaskType::Folder(f) => files_below(f),
        }
    }
}

/// How many folders lie in a folder, at any depth.
pub open spec fn folders_below(t: FolderTask) -> nat
    decreases t,
{
    entry_folders(t.files@)
}

/// How many folders these entries are and hold.
pub open spec fn entry_folders(s: Seq<TaskType>) -> nat
    decreases s,
{
    if s.len() == 0 {
        0
    } else {
        entry_folders(s.drop_last()) + match s.last() {
            TaskType::File(_) => 0nat,
            TaskType::Folder(f) => 1 + folders_below(f),
        }
    }
}

/// The counters of a folder with children in these buckets.
pub open spec fn counters_of(buckets: Seq<StatusBucket>) -> Seq<usize>
    decreases buckets.len(),
{
    if buckets.len() == 0 {
        Seq::new(6, |i: int| 0usize)
    } else {
        let rest = counters_of(buckets.drop_last());
        rest.update(
            buckets.last().index(),
            (rest[buckets.last().index()] + 1) as usize,
        )
    }
}

/// A folder as it stands before anything in it has been fetched.
pub open spec fn new_folder(
    target: TargetOs,
    name: Seq<char>,
    parent_path: Seq<Seq<u8>>,
    id: FolderId,
    child_files: Seq<FileId>,
    child_folders: Seq<FolderId>,
    buckets: Seq<StatusBucket>,
    parent_id: Option<FolderId>,
) -> FolderModel {
    FolderModel {
        parent_id,
        id,
        name: folder_name_of(target, name),
        path: spec_join(parent_path, folder_name_of(target, name)),
        active_operation: None,
        status: DownloadStatus::Uninitialized,
        is_paused: false,
        child_files,
        child_folders,
        counters: counters_of(buckets),
    }
}

/// No counter exceeds the number of children.
pub proof fn lemma_counters_bound(buckets: Seq<StatusBucket>, b: StatusBucket)
    requires
        buckets.len() <= usize::MAX,
    ensures
        counters_of(buckets).len() == 6,
        counters_of(buckets)[b.index()] <= buckets.len(),
    decreases buckets.len(),
{
    if buckets.len() > 0 {
        lemma_counters_bound(buckets.drop_last(), b);
        lemma_counters_bound(buckets.drop_last(), buckets.last());
    }
}

impl FolderDownload {
    /// A folder that a plugin found, to lie in the one at `parent_relative_path`,
    /// with children in the given buckets.
    pub fn new(
        folder_task: &FolderTask,
        parent_relative_path: &ItemPath,
        id: FolderId,
        child_files: Vec<(FileId, StatusBucket)>,
        child_folders: Vec<(FolderId, StatusBucket)>,
        parent_id: Option<FolderId>,
        target: TargetOs,
    ) -> (r: Self)
        requires
            child_files@.len() + child_folders@.len() <= usize::MAX,
        ensures
            r@ == new_folder(
                target,
                folder_task.folder_name@,
                parent_relative_path@,
                id,
                child_files@.map_values(|c: (FileId, StatusBucket)| c.0),
                child_folders@.map_values(|c: (FolderId, StatusBucket)| c.0),
                child_files@.map_values(|c: (FileId, StatusBucket)| c.1)
                    + child_folders@.map_values(|c: (FolderId, StatusBucket)| c.1),
                parent_id,
            ),
    {
        let folder_name = usable_folder_name(folder_task.folder_name.as_str(), target);
        let relative_path = parent_relative_path.join(folder_name.as_str());
        let mut counters = StateBucketCounters::new();
        let mut file_ids: Vec<FileId> = Vec::new();
        let mut folder_ids: Vec<FolderId> = Vec::new();
        let ghost file_buckets = child_files@.map_values(|c: (FileId, StatusBucket)| c.1);
        let ghost folder_buckets = child_folders@.map_values(|c: (FolderId, StatusBucket)| c.1);
        let ghost buckets = file_buckets + folder_buckets;
        assert(counters.data@ =~= counters_of(buckets.take(0))) by {
            assert(buckets.take(0) =~= Seq::<StatusBucket>::empty());
            assert forall|i: int| 0 <= i < 6 implies counters.data@[i] == 0 by {
                assert(counters.count(StatusBucket::Uninitialized) == 0);
                assert(counters.count(StatusBucket::MetadataFetched) == 0);
                assert(counters.count(StatusBucket::Partial) == 0);
                assert(counters.count(StatusBucket::Completed) == 0);
                assert(counters.count(StatusBucket::Error) == 0);
                assert(counters.count(StatusBucket::CompletedWithErrors) == 0);
            }
        }
        let mut i: usize = 0;
        while i < child_files.len()
            invariant
                i <= child_files@.len(),
                buckets == file_buckets + folder_buckets,
                file_buckets == child_files@.map_values(|c: (FileId, StatusBucket)| c.1),
                buckets.len() <= usize::MAX,
                file_ids@ == child_files@.take(i as int).map_values(
                    |c: (FileId, StatusBucket)| c.0,
                ),
                counters.data@ == counters_of(buckets.take(i as int)),
            decreases child_files@.len() - i,
        {
            let (child_id, bucket) = child_files[i];
            proof {
                assert(buckets.take(i + 1).drop_last() =~= buckets.take(i as int));
                assert(buckets.take(i + 1).last() == bucket);
                lemma_counters_bound(buckets.take(i as int), bucket);
            }
            file_ids.push(child_id);
            counters.increment(bucket);
            i += 1;
            assert(file_ids@ =~= child_files@.take(i as int).map_values(
                |c: (FileId, StatusBucket)| c.0,
            ));
        }
        let ghost files = child_files@.len();
        let mut j: usize = 0;
        while j < child_folders.len()
            invariant
                j <= child_folders@.len(),
                buckets == file_buckets + folder_buckets,
                file_buckets.len() == files,
                folder_buckets == child_folders@.map_values(|c: (FolderId, StatusBucket)| c.1),
                buckets.len() <= usize::MAX,
                folder_ids@ == child_folders@.take(j as int).map_values(
                    |c: (FolderId, StatusBucket)| c.0,
                ),
                counters.data@ == counters_of(buckets.take(files + j)),
            decreases child_folders@.len() - j,
        {
            let (child_id, bucket) = child_folders[j];
            proof {
                assert(buckets.take(files + j + 1).drop_last() =~= buckets.take(files + j));
                assert(buckets.take(files + j + 1).last() == bucket);
                lemma_counters_bound(buckets.take(files + j), bucket);
            }
            folder_ids.push(child_id);
            counters.increment(bucket);
            j += 1;
            assert(folder_ids@ =~= child_folders@.take(j as int).map_values(
                |c: (FolderId, StatusBucket)| c.0,
            ));
        }
        assert(buckets.take(files + j) =~= buckets);
        assert(child_files@.take(i as int) =~= child_files@);
        assert(child_folders@.take(j as int) =~= child_folders@);
        FolderDownload {
            parent_id,
            id,
            folder_name,
            relative_path,
            active_operation: None,
            status: DownloadStatus::Uninitialized,
            is_paused: false,
            child_files: file_ids,
            child_folders: folder_ids,
            bucket_counters: counters,
        }
    }
}

/// A folder that was found and whose contents have not been looked at.
pub struct Waiting {
    pub task: FolderTask,
    /// Where the folder that it lies in is.
    pub path: Seq<Seq<u8>>,
    pub parent_id: Option<FolderId>,
    pub id: FolderId,
}

/// What looking through a folder gives.
pub struct Walk {
    pub files: Seq<FileModel>,
    pub child_files: Seq<FileId>,
    pub child_folders: Seq<FolderId>,
    pub waiting: Seq<Waiting>,
}

/// What looking through the entries of a folder gives, in order: files are made and
/// folders put off; both are numbered on from what was there.
pub open spec fn walk(
    target: TargetOs,
    path: Seq<Seq<u8>>,
    id: FolderId,
    entries: Seq<TaskType>,
    next_file: nat,
    next_folder: nat,
) -> Walk
    decreases entries.len(),
{
    if entries.len() == 0 {
        Walk {
            files: Seq::empty(),
            child_files: Seq::empty(),
            child_folders: Seq::empty(),
            waiting: Seq::empty(),
        }
    } else {
        let w = walk(target, path, id, entries.drop_last(), next_file, next_folder);
        match entries.last() {
            TaskType::File(task) => {
                let file_id = FileId((next_file + w.files.len()) as usize);
                Walk {
                    files: w.files.push(new_file(target, task, path, file_id, Some(id))),
                    child_files: w.child_files.push(file_id),
                    ..w
                }
            },
            TaskType::Folder(task) => {
                let folder_id = FolderId((next_folder + w.child_folders.len()) as usize);
                Walk {
                    child_folders: w.child_folders.push(folder_id),
                    waiting: w.waiting.push(
                        Waiting { task, path, parent_id: Some(id), id: folder_id },
                    ),
                    ..w
                }
            },
        }
    }
}

/// Buckets of `n` children that have just been made.
pub open spec fn fresh(n: nat) -> Seq<StatusBucket> {
    Seq::new(n, |i: int| StatusBucket::Uninitialized)
}

/// Where a folder that waits will lie.
pub open spec fn place_of(target: TargetOs, w: Waiting) -> Seq<Seq<u8>> {
    spec_join(w.path, folder_name_of(target, w.task.folder_name@))
}

/// What looking through a waiting folder gives.
pub open spec fn walk_waiting(
    target: TargetOs,
    top: Waiting,
    next_file: nat,
    next_folder: nat,
) -> Walk {
    walk(target, place_of(target, top), top.id, top.task.files@, next_file, next_folder)
}

/// The folder that a waiting one becomes.
pub open spec fn folder_of(target: TargetOs, top: Waiting, w: Walk) -> FolderModel {
    new_folder(
        target,
        top.task.folder_name@,
        top.path,
        top.id,
        w.child_files,
        w.child_folders,
        fresh(w.child_files.len() + w.child_folders.len()),
        top.parent_id,
    )
}

/// How many folders wait, and lie in those that do.
pub open spec fn folders_waiting(stack: Seq<Waiting>) -> nat
    decreases stack.len(),
{
    if stack.len() == 0 {
        0
    } else {
        folders_waiting(stack.drop_last()) + 1 + folders_below(stack.last().task)
    }
}

/// How many files lie in the folders that wait.
pub open spec fn files_waiting(stack: Seq<Waiting>) -> nat
    decreases stack.len(),
{
    if stack.len() == 0 {
        0
    } else {
        files_waiting(stack.drop_last()) + files_below(stack.last().task)
    }
}

/// Waiting folders add up.
pub proof fn lemma_waiting_concat(a: Seq<Waiting>, b: Seq<Waiting>)
    ensures
        folders_waiting(a + b) == folders_waiting(a) + folders_waiting(b),
        files_waiting(a + b) == files_waiting(a) + files_waiting(b),
    decreases b.len(),
{
    if b.len() == 0 {
        assert(a + b =~= a);
    } else {
        assert((a + b).drop_last() =~= a + b.drop_last());
        lemma_waiting_concat(a, b.drop_last());
    }
}

/// What is found in a folder is what lies in it.
pub proof fn lemma_walk_counts(
    target: TargetOs,
    path: Seq<Seq<u8>>,
    id: FolderId,
    entries: Seq<TaskType>,
    next_file: nat,
    next_folder: nat,
)
    ensures
        ({
            let w = walk(target, path, id, entries, next_file, next_folder);
            &&& w.child_files.len() == w.files.len()
            &&& w.waiting.len() == w.child_folders.len()
            &&& w.files.len() + files_waiting(w.waiting) == entry_files(entries)
            &&& folders_waiting(w.waiting) == entry_folders(entries)
            &&& w.waiting.len() <= folders_waiting(w.waiting)
            &&& w.files.len() + w.waiting.len() == entries.len()
        }),
    decreases entries.len(),
{
    if entries.len() > 0 {
        lemma_walk_counts(target, path, id, entries.drop_last(), next_file, next_folder);
        let before = walk(target, path, id, entries.drop_last(), next_file, next_folder);
        let w = walk(target, path, id, entries, next_file, next_folder);
        match entries.last() {
            TaskType::File(_) => {},
            TaskType::Folder(_) => {
                assert(w.waiting.drop_last() =~= before.waiting);
            },
        }
    }
}

/// The files and folders that waiting folders become: the last that waits is looked
/// through first, and what it holds waits before the others.
pub open spec fn grow(
    target: TargetOs,
    stack: Seq<Waiting>,
    next_file: nat,
    next_folder: nat,
) -> (Seq<FileModel>, Seq<FolderModel>)
    decreases folders_waiting(stack),
{
    if stack.len() == 0 {
        (Seq::empty(), Seq::empty())
    } else {
        let top = stack.last();
        let w = walk_waiting(target, top, next_file, next_folder);
        proof {
            lemma_walk_counts(
                target,
                place_of(target, top),
                top.id,
                top.task.files@,
                next_file,
                next_folder,
            );
            lemma_waiting_concat(stack.drop_last(), w.waiting);
        }
        let rest = grow(
            target,
            stack.drop_last() + w.waiting,
            next_file + w.files.len(),
            next_folder + w.child_folders.len(),
        );
        (w.files + rest.0, seq![folder_of(target, top, w)] + rest.1)
    }
}

/// A download as it stands before anything of it has been fetched. Folders stand in
/// it in the reverse of the order in which they were looked through.
pub open spec fn new_download(
    target: TargetOs,
    id: usize,
    task: DownloadTask,
    save_path: Seq<Seq<u8>>,
) -> DownloadModel {
    let (root_item, files, folders) = match task.task_type {
        TaskType::File(file) => (
            ItemId::File(FileId(0)),
            seq![new_file(target, file, save_path, FileId(0), None)],
            Seq::<FolderModel>::empty(),
        ),
        TaskType::Folder(folder) => {
            let root = Waiting { task: folder, path: save_path, parent_id: None, id: FolderId(0) };
            let grown = grow(target, seq![root], 0, 1);
            (ItemId::Folder(FolderId(0)), grown.0, grown.1.reverse())
        },
    };
    DownloadModel {
        id: DownloadId(id),
        url: task.url@,
        save_path,
        status: DownloadStatus::Uninitialized,
        is_paused: false,
        active_operation: None,
        root_item,
        files,
        folders,
    }
}

/// Whether waiting folders are numbered below `next_folder`, each once, behind the
/// folder that they lie in, which waits no more.
pub open spec fn stack_ok(stack: Seq<Waiting>, next_folder: nat) -> bool {
    &&& forall|i: int|
        0 <= i < stack.len() ==> {
            let w = #[trigger] stack[i];
            w.id.0 < next_folder && (w.parent_id matches Some(p) ==> p.0 < w.id.0)
        }
    &&& forall|i: int, j: int|
        0 <= i < stack.len() && 0 <= j < stack.len() && (#[trigger] stack[i]).id
            == (#[trigger] stack[j]).id ==> i == j
    &&& forall|i: int, j: int|
        0 <= i < stack.len() && 0 <= j < stack.len() ==> (#[trigger] stack[i]).parent_id != Some(
            (#[trigger] stack[j]).id,
        )
}

/// Whether a number is that of one of the folders.
pub open spec fn has_folder(folders: Seq<FolderModel>, id: FolderId) -> bool {
    exists|i: int| 0 <= i < folders.len() && (#[trigger] folders[i]).id == id
}

/// Whether a number is that of a waiting folder with this parent.
pub open spec fn waits(stack: Seq<Waiting>, id: FolderId, parent_id: Option<FolderId>) -> bool {
    exists|i: int|
        0 <= i < stack.len() && (#[trigger] stack[i]).id == id && stack[i].parent_id == parent_id
}

/// Whether files and folders are what waiting folders can become.
pub open spec fn grown_files(
    next_file: nat,
    files: Seq<FileModel>,
    folders: Seq<FolderModel>,
) -> bool {
    &&& forall|k: int|
        0 <= k < files.len() ==> {
            let f = #[trigger] files[k];
            &&& f.id.0 == next_file + k
            &&& f.status is Uninitialized
            &&& f.parent_id matches Some(p) && has_folder(folders, p)
        }
    &&& forall|i: int, x: FileId|
        0 <= i < folders.len() ==> (#[trigger] folders[i].child_files.contains(x) <==> {
            &&& next_file <= x.0 < next_file + files.len()
            &&& files[x.0 - next_file].parent_id == Some(folders[i].id)
        })
}

/// Whether folders are what waiting folders can become.
pub open spec fn grown_folders(
    stack: Seq<Waiting>,
    next_folder: nat,
    folders: Seq<FolderModel>,
) -> bool {
    &&& folders.len() >= stack.len()
    &&& forall|i: int|
        0 <= i < folders.len() ==> {
            let f = #[trigger] folders[i];
            &&& f.id.0 < next_folder + (folders.len() - stack.len())
            &&& f.parent_id matches Some(p) ==> p.0 < f.id.0
            &&& waits(stack, f.id, f.parent_id) || (f.id.0 >= next_folder && (
            f.parent_id matches Some(p) && has_folder(folders, p)))
            &&& f.status is Uninitialized
            &&& f.child_files.no_duplicates()
            &&& f.child_folders.no_duplicates()
            &&& f.counters == counters_of(fresh(f.child_files.len() + f.child_folders.len()))
            &&& f.child_files.len() + f.child_folders.len() <= usize::MAX
        }
    &&& forall|i: int, j: int|
        0 <= i < folders.len() && 0 <= j < folders.len() && (#[trigger] folders[i]).id == (
        #[trigger] folders[j]).id ==> i == j
    &&& forall|s: int| 0 <= s < stack.len() ==> has_folder(folders, (#[trigger] stack[s]).id)
}

/// Whether each folder lists the folders that name it as their parent.
pub open spec fn grown_lists(folders: Seq<FolderModel>) -> bool {
    &&& forall|i: int, j: int|
        0 <= i < folders.len() && 0 <= j < folders.len() ==> ((
        #[trigger] folders[i]).child_folders.contains((#[trigger] folders[j]).id)
            <==> folders[j].parent_id == Some(folders[i].id))
    &&& forall|i: int, j: int|
        0 <= i < folders.len() && 0 <= j < folders[i].child_folders.len() ==> has_folder(
            folders,
            #[trigger] folders[i].child_folders[j],
        )
}

/// What looking through a folder gives, entry by entry.
proof fn lemma_walk_shape(
    target: TargetOs,
    path: Seq<Seq<u8>>,
    id: FolderId,
    entries: Seq<TaskType>,
    next_file: nat,
    next_folder: nat,
)
    requires
        next_file + entry_files(entries) <= usize::MAX,
        next_folder + entry_folders(entries) <= usize::MAX,
    ensures
        ({
            let w = walk(target, path, id, entries, next_file, next_folder);
            &&& w.child_files.len() == w.files.len()
            &&& w.waiting.len() == w.child_folders.len()
            &&& w.files.len() <= entry_files(entries)
            &&& w.waiting.len() <= entry_folders(entries)
            &&& forall|k: int|
                0 <= k < w.files.len() ==> {
                    let f = #[trigger] w.files[k];
                    f.id.0 == next_file + k && f.status is Uninitialized && f.parent_id == Some(id)
                }
            &&& forall|k: int|
                0 <= k < w.child_files.len() ==> (#[trigger] w.child_files[k]).0 == next_file + k
            &&& forall|k: int|
                0 <= k < w.child_folders.len() ==> (#[trigger] w.child_folders[k]).0 == next_folder
                    + k
            &&& forall|k: int|
                0 <= k < w.waiting.len() ==> {
                    let x = #[trigger] w.waiting[k];
                    x.id.0 == next_folder + k && x.parent_id == Some(id)
                }
        }),
    decreases entries.len(),
{
    if entries.len() > 0 {
        lemma_walk_counts(target, path, id, entries.drop_last(), next_file, next_folder);
        lemma_walk_shape(target, path, id, entries.drop_last(), next_file, next_folder);
    }
}

/// What the first folder of the stack adds, as far as the proofs need it.
pub open spec fn walked(
    top: Waiting,
    w: Walk,
    next_file: nat,
    next_folder: nat,
    first: FolderModel,
) -> bool {
    &&& w.child_files.len() == w.files.len()
    &&& w.waiting.len() == w.child_folders.len()
    &&& next_folder + w.waiting.len() <= usize::MAX
    &&& next_file + w.files.len() <= usize::MAX
    &&& w.child_files.len() + w.child_folders.len() <= usize::MAX
    &&& forall|k: int|
        0 <= k < w.files.len() ==> {
            let f = #[trigger] w.files[k];
            f.id.0 == next_file + k && f.status is Uninitialized && f.parent_id == Some(top.id)
        }
    &&& forall|k: int|
        0 <= k < w.child_files.len() ==> (#[trigger] w.child_files[k]).0 == next_file + k
    &&& forall|k: int|
        0 <= k < w.child_folders.len() ==> (#[trigger] w.child_folders[k]).0 == next_folder + k
    &&& forall|k: int|
        0 <= k < w.waiting.len() ==> {
            let x = #[trigger] w.waiting[k];
            x.id.0 == next_folder + k && x.parent_id == Some(top.id)
        }
    &&& first.id == top.id
    &&& first.parent_id == top.parent_id
    &&& first.child_files == w.child_files
    &&& first.child_folders == w.child_folders
    &&& first.status is Uninitialized
    &&& first.counters == counters_of(fresh(w.child_files.len() + w.child_folders.len()))
}

proof fn lemma_next_stack_ok(
    stack: Seq<Waiting>,
    w: Walk,
    next_file: nat,
    next_folder: nat,
    first: FolderModel,
)
    requires
        stack.len() > 0,
        stack_ok(stack, next_folder),
        walked(stack.last(), w, next_file, next_folder, first),
    ensures
        stack_ok(stack.drop_last() + w.waiting, next_folder + w.child_folders.len()),
{
    let next = stack.drop_last() + w.waiting;
    let n = stack.len() - 1;
    let top = stack.last();
    assert forall|i: int| 0 <= i < next.len() implies {
        let x = #[trigger] next[i];
        x.id.0 < next_folder + w.child_folders.len() && (x.parent_id matches Some(p) ==> p.0
            < x.id.0)
    } by {
        assert(stack[n] == top);
        if i < n {
            assert(next[i] == stack[i]);
        } else {
            assert(next[i] == w.waiting[i - n]);
        }
    }
    assert forall|i: int, j: int|
        0 <= i < next.len() && 0 <= j < next.len() && (#[trigger] next[i]).id == (
        #[trigger] next[j]).id implies i == j by {
        if i < n {
            assert(next[i] == stack[i]);
        } else {
            assert(next[i] == w.waiting[i - n]);
        }
        if j < n {
            assert(next[j] == stack[j]);
        } else {
            assert(next[j] == w.waiting[j - n]);
        }
    }
    assert forall|i: int, j: int|
        0 <= i < next.len() && 0 <= j < next.len() implies (#[trigger] next[i]).parent_id != Some(
        (#[trigger] next[j]).id,
    ) by {
        assert(stack[n] == top);
        if i < n {
            assert(next[i] == stack[i]);
        } else {
            assert(next[i] == w.waiting[i - n]);
        }
        if j < n {
            assert(next[j] == stack[j]);
        } else {
            assert(next[j] == w.waiting[j - n]);
        }
    }
}

proof fn lemma_grown_files_step(
    stack: Seq<Waiting>,
    w: Walk,
    next_file: nat,
    next_folder: nat,
    first: FolderModel,
    rest_files: Seq<FileModel>,
    rest: Seq<FolderModel>,
)
    requires
        stack.len() > 0,
        walked(stack.last(), w, next_file, next_folder, first),
        grown_files(next_file + w.files.len(), rest_files, rest),
        !has_folder(rest, first.id),
    ensures
        grown_files(next_file, w.files + rest_files, seq![first] + rest),
{
    let files = w.files + rest_files;
    let folders = seq![first] + rest;
    let a = w.files.len();
    assert(folders[0] == first);
    assert forall|id: FolderId| has_folder(rest, id) implies #[trigger] has_folder(folders, id) by {
        let i = choose|i: int| 0 <= i < rest.len() && (#[trigger] rest[i]).id == id;
        assert(folders[i + 1] == rest[i]);
    }
    assert forall|k: int| 0 <= k < files.len() implies {
        let f = #[trigger] files[k];
        &&& f.id.0 == next_file + k
        &&& f.status is Uninitialized
        &&& f.parent_id matches Some(p) && has_folder(folders, p)
    } by {
        if k < a {
            assert(files[k] == w.files[k]);
            assert(has_folder(folders, first.id));
        } else {
            assert(files[k] == rest_files[k - a]);
        }
    }
    assert forall|i: int, x: FileId| 0 <= i < folders.len() implies (
    #[trigger] folders[i].child_files.contains(x) <==> {
        &&& next_file <= x.0 < next_file + files.len()
        &&& files[x.0 - next_file].parent_id == Some(folders[i].id)
    }) by {
        let k = x.0 - next_file;
        if 0 <= k < a {
            assert(files[k] == w.files[k]);
        }
        if a <= k < files.len() {
            assert(files[k] == rest_files[k - a]);
            assert(has_folder(rest, rest_files[k - a].parent_id->0));
        }
        if i == 0 {
            if 0 <= k < a {
                assert(w.child_files[k] == x);
            }
            if w.child_files.contains(x) {
                let c = choose|c: int| 0 <= c < w.child_files.len() && w.child_files[c] == x;
                assert(w.child_files[c].0 == next_file + c);
            }
        } else {
            assert(folders[i] == rest[i - 1]);
            assert(rest[i - 1].child_files.contains(x) <==> {
                &&& next_file + a <= x.0 < next_file + a + rest_files.len()
                &&& rest_files[x.0 - (next_file + a)].parent_id == Some(rest[i - 1].id)
            });
            assert(has_folder(rest, rest[i - 1].id));
        }
    }
}

proof fn lemma_grown_folders_step(
    stack: Seq<Waiting>,
    w: Walk,
    next_file: nat,
    next_folder: nat,
    first: FolderModel,
    rest: Seq<FolderModel>,
)
    requires
        stack.len() > 0,
        stack_ok(stack, next_folder),
        walked(stack.last(), w, next_file, next_folder, first),
        grown_folders(
            stack.drop_last() + w.waiting,
            next_folder + w.child_folders.len(),
            rest,
        ),
    ensures
        grown_folders(stack, next_folder, seq![first] + rest),
        !has_folder(rest, first.id),
{
    let next = stack.drop_last() + w.waiting;
    let n = stack.len() - 1;
    let folders = seq![first] + rest;
    assert(stack[n] == stack.last());
    assert(folders[0] == first);
    assert forall|i: int| 0 <= i < rest.len() implies (#[trigger] rest[i]).id != first.id by {
        if waits(next, rest[i].id, rest[i].parent_id) {
            let s = choose|s: int|
                0 <= s < next.len() && (#[trigger] next[s]).id == rest[i].id && next[s].parent_id
                    == rest[i].parent_id;
            if s < n {
                assert(next[s] == stack[s]);
            } else {
                assert(next[s] == w.waiting[s - n]);
            }
        }
    }
    assert forall|id: FolderId| has_folder(rest, id) implies #[trigger] has_folder(folders, id) by {
        let i = choose|i: int| 0 <= i < rest.len() && (#[trigger] rest[i]).id == id;
        assert(folders[i + 1] == rest[i]);
    }
    assert forall|i: int| 0 <= i < folders.len() implies {
        let f = #[trigger] folders[i];
        &&& f.id.0 < next_folder + (folders.len() - stack.len())
        &&& f.parent_id matches Some(p) ==> p.0 < f.id.0
        &&& waits(stack, f.id, f.parent_id) || (f.id.0 >= next_folder && (
        f.parent_id matches Some(p) && has_folder(folders, p)))
        &&& f.status is Uninitialized
        &&& f.child_files.no_duplicates()
        &&& f.child_folders.no_duplicates()
        &&& f.counters == counters_of(fresh(f.child_files.len() + f.child_folders.len()))
        &&& f.child_files.len() + f.child_folders.len() <= usize::MAX
    } by {
        if i == 0 {
            assert(waits(stack, first.id, first.parent_id));
        } else {
            let f = rest[i - 1];
            assert(folders[i] == f);
            if waits(next, f.id, f.parent_id) {
                let s = choose|s: int|
                    0 <= s < next.len() && (#[trigger] next[s]).id == f.id && next[s].parent_id
                        == f.parent_id;
                if s < n {
                    assert(next[s] == stack[s]);
                } else {
                    assert(next[s] == w.waiting[s - n]);
                    assert(has_folder(folders, first.id));
                }
            }
        }
    }
    assert forall|i: int, j: int|
        0 <= i < folders.len() && 0 <= j < folders.len() && (#[trigger] folders[i]).id == (
        #[trigger] folders[j]).id implies i == j by {
        if i > 0 {
            assert(folders[i] == rest[i - 1]);
        }
        if j > 0 {
            assert(folders[j] == rest[j - 1]);
        }
    }
    assert forall|s: int| 0 <= s < stack.len() implies has_folder(folders, (#[trigger] stack[s]).id) by {
        if s < n {
            assert(next[s] == stack[s]);
            assert(has_folder(rest, next[s].id));
        } else {
            assert(has_folder(folders, first.id));
        }
    }
    if has_folder(rest, first.id) {
        let i = choose|i: int| 0 <= i < rest.len() && (#[trigger] rest[i]).id == first.id;
        assert(rest[i].id != first.id);
    }
}

proof fn lemma_grown_lists_step(
    stack: Seq<Waiting>,
    w: Walk,
    next_file: nat,
    next_folder: nat,
    first: FolderModel,
    rest: Seq<FolderModel>,
)
    requires
        stack.len() > 0,
        stack_ok(stack, next_folder),
        walked(stack.last(), w, next_file, next_folder, first),
        grown_folders(
            stack.drop_last() + w.waiting,
            next_folder + w.child_folders.len(),
            rest,
        ),
        grown_lists(rest),
        !has_folder(rest, first.id),
    ensures
        grown_lists(seq![first] + rest),
{
    let next = stack.drop_last() + w.waiting;
    let n = stack.len() - 1;
    let folders = seq![first] + rest;
    assert(stack[n] == stack.last());
    assert(folders[0] == first);
    assert forall|id: FolderId| has_folder(rest, id) implies #[trigger] has_folder(folders, id) by {
        let i = choose|i: int| 0 <= i < rest.len() && (#[trigger] rest[i]).id == id;
        assert(folders[i + 1] == rest[i]);
    }
    assert forall|i: int, j: int| 0 <= i < folders.len() && 0 <= j < folders.len() implies ((
    #[trigger] folders[i]).child_folders.contains((#[trigger] folders[j]).id)
        <==> folders[j].parent_id == Some(folders[i].id)) by {
        if i == 0 && j == 0 {
            if w.child_folders.contains(first.id) {
                let c = choose|c: int|
                    0 <= c < w.child_folders.len() && w.child_folders[c] == first.id;
                assert(w.child_folders[c].0 == next_folder + c);
            }
        } else if i == 0 {
            lemma_first_lists(stack, w, next_file, next_folder, first, rest, j - 1);
            assert(folders[j] == rest[j - 1]);
        } else if j == 0 {
            assert(folders[i] == rest[i - 1]);
            let f = rest[i - 1];
            if f.child_folders.contains(first.id) {
                let c = choose|c: int|
                    0 <= c < f.child_folders.len() && f.child_folders[c] == first.id;
                assert(has_folder(rest, rest[i - 1].child_folders[c]));
            }
            lemma_first_has_other_parent(stack, w, next_file, next_folder, first, rest, i - 1);
        } else {
            assert(folders[i] == rest[i - 1]);
            assert(folders[j] == rest[j - 1]);
        }
    }
    assert forall|i: int, j: int|
        0 <= i < folders.len() && 0 <= j < folders[i].child_folders.len() implies has_folder(
        folders,
        #[trigger] folders[i].child_folders[j],
    ) by {
        if i == 0 {
            assert(w.waiting[j].id == w.child_folders[j]);
            assert(next[n + j] == w.waiting[j]);
            assert(has_folder(rest, next[n + j].id));
        } else {
            assert(folders[i] == rest[i - 1]);
            assert(has_folder(rest, rest[i - 1].child_folders[j]));
        }
    }
}

/// The folder at the top of the stack lists exactly the folders found in it.
proof fn lemma_first_lists(
    stack: Seq<Waiting>,
    w: Walk,
    next_file: nat,
    next_folder: nat,
    first: FolderModel,
    rest: Seq<FolderModel>,
    j: int,
)
    requires
        stack.len() > 0,
        stack_ok(stack, next_folder),
        walked(stack.last(), w, next_file, next_folder, first),
        grown_folders(
            stack.drop_last() + w.waiting,
            next_folder + w.child_folders.len(),
            rest,
        ),
        !has_folder(rest, first.id),
        0 <= j < rest.len(),
    ensures
        first.child_folders.contains(rest[j].id) <==> rest[j].parent_id == Some(first.id),
{
    let next = stack.drop_last() + w.waiting;
    let n = stack.len() - 1;
    let f = rest[j];
    assert(stack[n] == stack.last());
    if waits(next, f.id, f.parent_id) {
        let s = choose|s: int|
            0 <= s < next.len() && (#[trigger] next[s]).id == f.id && next[s].parent_id
                == f.parent_id;
        if s < n {
            assert(next[s] == stack[s]);
            assert(stack[s].parent_id != Some(stack[n].id));
        } else {
            assert(next[s] == w.waiting[s - n]);
            assert(w.child_folders[s - n] == f.id);
        }
    }
    if w.child_folders.contains(f.id) {
        let c = choose|c: int| 0 <= c < w.child_folders.len() && w.child_folders[c] == f.id;
        assert(w.child_folders[c].0 == next_folder + c);
    }
}

/// The folder at the top of the stack lies in none of those that come after it.
proof fn lemma_first_has_other_parent(
    stack: Seq<Waiting>,
    w: Walk,
    next_file: nat,
    next_folder: nat,
    first: FolderModel,
    rest: Seq<FolderModel>,
    i: int,
)
    requires
        stack.len() > 0,
        stack_ok(stack, next_folder),
        walked(stack.last(), w, next_file, next_folder, first),
        grown_folders(
            stack.drop_last() + w.waiting,
            next_folder + w.child_folders.len(),
            rest,
        ),
        0 <= i < rest.len(),
    ensures
        first.parent_id != Some(rest[i].id),
{
    let next = stack.drop_last() + w.waiting;
    let n = stack.len() - 1;
    let f = rest[i];
    assert(stack[n] == stack.last());
    if waits(next, f.id, f.parent_id) {
        let s = choose|s: int|
            0 <= s < next.len() && (#[trigger] next[s]).id == f.id && next[s].parent_id
                == f.parent_id;
        if s < n {
            assert(next[s] == stack[s]);
            assert(stack[n].parent_id != Some(stack[s].id));
        } else {
            assert(next[s] == w.waiting[s - n]);
        }
    }
}

/// What waiting folders become hangs together, and is all that lies in them.
pub proof fn lemma_grow(
    target: TargetOs,
    stack: Seq<Waiting>,
    next_file: nat,
    next_folder: nat,
)
    requires
        stack_ok(stack, next_folder),
        next_file + files_waiting(stack) <= usize::MAX,
        next_folder + folders_waiting(stack) - stack.len() <= usize::MAX,
    ensures
        ({
            let (files, folders) = grow(target, stack, next_file, next_folder);
            &&& grown_files(next_file, files, folders)
            &&& grown_folders(stack, next_folder, folders)
            &&& grown_lists(folders)
            &&& files.len() == files_waiting(stack)
            &&& folders.len() == folders_waiting(stack)
        }),
    decreases folders_waiting(stack),
{
    if stack.len() > 0 {
        let top = stack.last();
        let place = place_of(target, top);
        let w = walk_waiting(target, top, next_file, next_folder);
        let first = folder_of(target, top, w);
        let next = stack.drop_last() + w.waiting;
        lemma_stack_len(stack.drop_last());
        lemma_walk_counts(target, place, top.id, top.task.files@, next_file, next_folder);
        lemma_walk_shape(target, place, top.id, top.task.files@, next_file, next_folder);
        lemma_waiting_concat(stack.drop_last(), w.waiting);
        assert(top.task.files.len() == top.task.files@.len());
        assert(walked(top, w, next_file, next_folder, first));
        lemma_next_stack_ok(stack, w, next_file, next_folder, first);
        lemma_grow(
            target,
            next,
            next_file + w.files.len(),
            next_folder + w.child_folders.len(),
        );
        let rest = grow(
            target,
            next,
            next_file + w.files.len(),
            next_folder + w.child_folders.len(),
        );
        lemma_grown_folders_step(stack, w, next_file, next_folder, first, rest.1);
        lemma_grown_files_step(stack, w, next_file, next_folder, first, rest.0, rest.1);
        lemma_grown_lists_step(stack, w, next_file, next_folder, first, rest.1);
    }
}

proof fn lemma_stack_len(stack: Seq<Waiting>)
    ensures
        stack.len() <= folders_waiting(stack),
    decreases stack.len(),
{
    if stack.len() > 0 {
        lemma_stack_len(stack.drop_last());
    }
}

/// A folder that was found and whose contents have not been looked at.
struct PutOff<'a> {
    task: &'a FolderTask,
    path: ItemPath,
    parent_id: Option<FolderId>,
    id: FolderId,
}

spec fn put_off_view(p: PutOff) -> Waiting {
    Waiting { task: *p.task, path: p.path@, parent_id: p.parent_id, id: p.id }
}

spec fn stack_view(v: Seq<PutOff>) -> Seq<Waiting> {
    Seq::new(v.len(), |i: int| put_off_view(v[i]))
}

/// What is on a shelf of folders.
spec fn made_view(v: Seq<FolderDownload>) -> Seq<FolderModel> {
    Seq::new(v.len(), |i: int| v[i]@)
}

proof fn lemma_fresh_push(n: nat)
    ensures
        fresh(n).push(StatusBucket::Uninitialized) =~= fresh(n + 1),
{
}

/// A beginning of the entries holds no more than all of them.
proof fn lemma_entries_prefix(entries: Seq<TaskType>, n: int)
    requires
        0 <= n <= entries.len(),
    ensures
        entry_files(entries.take(n)) <= entry_files(entries),
        entry_folders(entries.take(n)) <= entry_folders(entries),
    decreases entries.len(),
{
    if n == entries.len() {
        assert(entries.take(n) =~= entries);
    } else {
        assert(entries.drop_last().take(n) =~= entries.take(n));
        lemma_entries_prefix(entries.drop_last(), n);
    }
}

/// Looks through a folder: its files go to the table, the folders in it to the
/// stack, and the folder itself is made.
fn look_through<'a>(
    top: PutOff<'a>,
    target: TargetOs,
    files: &mut FileTable,
    next_folder: usize,
    stack: &mut Vec<PutOff<'a>>,
) -> (r: (FolderDownload, usize))
    requires
        old(files).wf(),
        forall|k: int| 0 <= k < old(files)@.len() ==> (#[trigger] old(files)@[k]).id.0 == k,
        old(files)@.len() + files_below(*top.task) <= usize::MAX,
        next_folder + folders_below(*top.task) <= usize::MAX,
    ensures
        ({
            let next_file = old(files)@.len();
            let w = walk_waiting(target, put_off_view(top), next_file, next_folder as nat);
            &&& final(files).wf()
            &&& final(files)@ == old(files)@ + w.files
            &&& forall|k: int|
                0 <= k < final(files)@.len() ==> (#[trigger] final(files)@[k]).id.0 == k
            &&& stack_view(final(stack)@) == stack_view(old(stack)@) + w.waiting
            &&& r.0@ == folder_of(target, put_off_view(top), w)
            &&& r.1 == next_folder + w.child_folders.len()
        }),
{
    let ghost waiting = put_off_view(top);
    let ghost files_before = files@;
    let ghost stack_before = stack_view(stack@);
    let ghost next_file = files@.len();
    let ghost place = place_of(target, waiting);
    let ghost entries = top.task.files@;
    let name = usable_folder_name(top.task.folder_name.as_str(), target);
    let path = top.path.join(name.as_str());
    let mut child_files: Vec<(FileId, StatusBucket)> = Vec::new();
    let mut child_folders: Vec<(FolderId, StatusBucket)> = Vec::new();
    let mut new_folder_id: usize = next_folder;
    let mut i: usize = 0;
    assert(files@ =~= files_before + walk(
        target,
        place,
        top.id,
        entries.take(0),
        next_file,
        next_folder as nat,
    ).files);
    assert(stack_view(stack@) =~= stack_before + walk(
        target,
        place,
        top.id,
        entries.take(0),
        next_file,
        next_folder as nat,
    ).waiting);
    while i < top.task.files.len()
        invariant
            i <= entries.len(),
            entries == top.task.files@,
            path@ == place,
            files.wf(),
            next_file + entry_files(entries) <= usize::MAX,
            next_folder + entry_folders(entries) <= usize::MAX,
            forall|k: int| 0 <= k < files@.len() ==> (#[trigger] files@[k]).id.0 == k,
            next_file == files_before.len(),
            ({
                let w = walk(
                    target,
                    place,
                    top.id,
                    entries.take(i as int),
                    next_file,
                    next_folder as nat,
                );
                &&& files@ == files_before + w.files
                &&& stack_view(stack@) == stack_before + w.waiting
                &&& new_folder_id == next_folder + w.child_folders.len()
                &&& child_files@.map_values(|c: (FileId, StatusBucket)| c.0) == w.child_files
                &&& child_folders@.map_values(|c: (FolderId, StatusBucket)| c.0)
                    == w.child_folders
                &&& child_files@.map_values(|c: (FileId, StatusBucket)| c.1) == fresh(
                    child_files@.len(),
                )
                &&& child_folders@.map_values(|c: (FolderId, StatusBucket)| c.1) == fresh(
                    child_folders@.len(),
                )
            }),
        decreases entries.len() - i,
    {
        let ghost w = walk(
            target,
            place,
            top.id,
            entries.take(i as int),
            next_file,
            next_folder as nat,
        );
        proof {
            assert(entries.take(i + 1).drop_last() =~= entries.take(i as int));
            assert(entries.take(i + 1).last() == entries[i as int]);
            lemma_walk_counts(
                target,
                place,
                top.id,
                entries.take(i as int),
                next_file,
                next_folder as nat,
            );
            lemma_walk_counts(
                target,
                place,
                top.id,
                entries.take(i + 1),
                next_file,
                next_folder as nat,
            );
            lemma_entries_prefix(entries, i + 1);
            lemma_fresh_push(child_files@.len());
            lemma_fresh_push(child_folders@.len());
        }
        let ghost files_here = files@;
        let ghost stack_here = stack_view(stack@);
        match &top.task.files[i] {
            TaskType::File(file_task) => {
                let file_id = FileId(files.items.len());
                let file = FileDownload::new(file_task, &path, file_id, Some(top.id), target);
                let ghost model = file@;
                proof {
                    assert forall|k: int| 0 <= k < files@.len() implies (#[trigger] files@[k]).id
                        != file_id by {
                        assert(files@[k].id.0 == k);
                    }
                }
                files.insert(file);
                child_files.push((file_id, StatusBucket::Uninitialized));
                assert(files@ =~= files_before + w.files.push(model));
                assert(child_files@.map_values(|c: (FileId, StatusBucket)| c.0)
                    =~= w.child_files.push(file_id));
                assert(child_files@.map_values(|c: (FileId, StatusBucket)| c.1) =~= fresh(
                    child_files@.len(),
                ));
            },
            TaskType::Folder(folder_task) => {
                let folder_id = FolderId(new_folder_id);
                child_folders.push((folder_id, StatusBucket::Uninitialized));
                let entry = PutOff {
                    task: folder_task,
                    path: path.duplicate(),
                    parent_id: Some(top.id),
                    id: folder_id,
                };
                let ghost view = put_off_view(entry);
                stack.push(entry);
                new_folder_id += 1;
                assert(stack_view(stack@) =~= stack_here.push(view));
                assert(stack_here.push(view) =~= stack_before + w.waiting.push(view));
                assert(child_folders@.map_values(|c: (FolderId, StatusBucket)| c.0)
                    =~= w.child_folders.push(folder_id));
                assert(child_folders@.map_values(|c: (FolderId, StatusBucket)| c.1) =~= fresh(
                    child_folders@.len(),
                ));
            },
        }
        i += 1;
    }
    assert(entries.take(i as int) =~= entries);
    let ghost w = walk_waiting(target, waiting, next_file, next_folder as nat);
    proof {
        lemma_walk_counts(target, place, top.id, entries, next_file, next_folder as nat);
        assert(fresh(child_files@.len()) + fresh(child_folders@.len()) =~= fresh(
            child_files@.len() + child_folders@.len(),
        ));
    }
    assert(w.child_files.len() == child_files@.len());
    assert(w.child_folders.len() == child_folders@.len());
    let count: usize = top.task.files.len();
    assert(child_files@.len() + child_folders@.len() == count);
    let folder = FolderDownload::new(
        top.task,
        &top.path,
        top.id,
        child_files,
        child_folders,
        top.parent_id,
        target,
    );
    (folder, new_folder_id)
}

impl Download {
    /// A download for what a plugin found, to be saved below `save_path`.
    pub fn new(id: usize, value: DownloadTask, save_path: ItemPath, target: TargetOs) -> (r: Self)
        requires
            value.task_type matches TaskType::Folder(folder) ==> files_below(folder) <= usize::MAX
                && folders_below(folder) < usize::MAX,
        ensures
            r.wf(),
            r@ == new_download(target, id, value, save_path@),
            tree_ok(r@),
    {
        proof {
            law_new_download_is_in_order(
                target,
                id,
                value,
                save_path@,
                Seq::empty(),
            );
        }
        let DownloadTask { url, task_type } = value;
        let mut files = FileTable::new();
        let mut folders = FolderTable::new();
        let root_item: ItemId;
        match &task_type {
            TaskType::File(file_task) => {
                root_item = ItemId::File(FileId(0));
                let file = FileDownload::new(file_task, &save_path, FileId(0), None, target);
                let ghost model = file@;
                files.insert(file);
                assert(files@ =~= seq![model]);
                assert(folders@ =~= Seq::<FolderModel>::empty());
            },
            TaskType::Folder(folder_task) => {
                root_item = ItemId::Folder(FolderId(0));
                let made = grow_folders(folder_task, &save_path, target, &mut files);
                let ghost root = Waiting {
                    task: *folder_task,
                    path: save_path@,
                    parent_id: None,
                    id: FolderId(0),
                };
                let ghost grown = grow(target, seq![root], 0, 1);
                proof {
                    lemma_root_grows(target, root);
                    assert forall|i: int, j: int|
                        0 <= i < made@.len() && 0 <= j < made@.len() && (#[trigger] made@[i]).id
                            == (#[trigger] made@[j]).id implies i == j by {
                        assert(grown.1[i] == made@[i]@);
                        assert(grown.1[j] == made@[j]@);
                    }
                }
                shelve(made, &mut folders);
            },
        }
        Download {
            id: DownloadId(id),
            url,
            save_path,
            status: DownloadStatus::Uninitialized,
            is_paused: false,
            active_operation: None,
            root_item,
            files,
            folders,
        }
    }
}

/// What a root folder becomes hangs together.
pub proof fn lemma_root_grows(target: TargetOs, root: Waiting)
    requires
        root.id == FolderId(0),
        root.parent_id.is_none(),
        files_below(root.task) <= usize::MAX,
        folders_below(root.task) < usize::MAX,
    ensures
        ({
            let (files, folders) = grow(target, seq![root], 0, 1);
            &&& grown_files(0, files, folders)
            &&& grown_folders(seq![root], 1, folders)
            &&& grown_lists(folders)
            &&& files.len() == files_below(root.task)
            &&& folders.len() == 1 + folders_below(root.task)
        }),
{
    let stack = seq![root];
    assert(stack.drop_last() =~= Seq::<Waiting>::empty());
    assert(folders_waiting(Seq::<Waiting>::empty()) == 0);
    assert(files_waiting(Seq::<Waiting>::empty()) == 0);
    assert(folders_waiting(stack) == 1 + folders_below(root.task));
    assert(files_waiting(stack) == files_below(root.task));
    lemma_grow(target, stack, 0, 1);
}

/// Makes a folder and everything in it. The folders come in the order in which they
/// were looked through.
fn grow_folders(
    folder_task: &FolderTask,
    save_path: &ItemPath,
    target: TargetOs,
    files: &mut FileTable,
) -> (made: Vec<FolderDownload>)
    requires
        old(files).wf(),
        old(files)@.len() == 0,
        files_below(*folder_task) <= usize::MAX,
        folders_below(*folder_task) < usize::MAX,
    ensures
        final(files).wf(),
        ({
            let root = Waiting {
                task: *folder_task,
                path: save_path@,
                parent_id: None,
                id: FolderId(0),
            };
            let grown = grow(target, seq![root], 0, 1);
            final(files)@ == grown.0 && made_view(made@) == grown.1
        }),
{
    let ghost root = Waiting {
        task: *folder_task,
        path: save_path@,
        parent_id: None,
        id: FolderId(0),
    };
    let ghost grown = grow(target, seq![root], 0, 1);
    let mut stack: Vec<PutOff> = Vec::new();
    stack.push(
        PutOff { task: folder_task, path: save_path.duplicate(), parent_id: None, id: FolderId(0) },
    );
    let mut made: Vec<FolderDownload> = Vec::new();
    let mut next_folder: usize = 1;
    proof {
        assert(stack_view(stack@) =~= seq![root]);
        assert(files@ + grown.0 =~= grown.0);
        assert(made_view(made@) + grown.1 =~= grown.1);
        assert(seq![root].drop_last() =~= Seq::<Waiting>::empty());
        assert(folders_waiting(Seq::<Waiting>::empty()) == 0);
        assert(files_waiting(Seq::<Waiting>::empty()) == 0);
        assert(folders_waiting(seq![root]) == 1 + folders_below(root.task));
        assert(files_waiting(seq![root]) == files_below(root.task));
    }
    while stack.len() > 0
        invariant
            files.wf(),
            forall|k: int| 0 <= k < files@.len() ==> (#[trigger] files@[k]).id.0 == k,
            files@.len() + files_waiting(stack_view(stack@)) <= usize::MAX,
            next_folder + folders_waiting(stack_view(stack@)) - stack@.len() <= usize::MAX,
            ({
                let rest = grow(
                    target,
                    stack_view(stack@),
                    files@.len(),
                    next_folder as nat,
                );
                &&& grown.0 == files@ + rest.0
                &&& grown.1 == made_view(made@) + rest.1
            }),
        decreases folders_waiting(stack_view(stack@)),
    {
        let ghost stack_before = stack_view(stack@);
        let ghost files_before = files@;
        let ghost made_before = made_view(made@);
        let ghost first_folder = next_folder as nat;
        let top = stack.pop().unwrap();
        let ghost waiting = put_off_view(top);
        let ghost w = walk_waiting(target, waiting, files_before.len(), first_folder);
        proof {
            assert(stack_before.last() == waiting);
            assert(stack_before.drop_last() =~= stack_view(stack@));
            lemma_stack_len(stack_before.drop_last());
            lemma_walk_counts(
                target,
                place_of(target, waiting),
                waiting.id,
                waiting.task.files@,
                files_before.len(),
                first_folder,
            );
            lemma_waiting_concat(stack_before.drop_last(), w.waiting);
        }
        let (folder, next) = look_through(top, target, files, next_folder, &mut stack);
        let ghost model = folder@;
        made.push(folder);
        next_folder = next;
        proof {
            let rest = grow(
                target,
                stack_view(stack@),
                files@.len(),
                next_folder as nat,
            );
            assert(made_view(made@) =~= made_before.push(model));
            assert(files_before + (w.files + rest.0) =~= files@ + rest.0);
            assert(made_before + (seq![model] + rest.1) =~= made_view(made@) + rest.1);
        }
    }
    proof {
        assert(stack_view(stack@) =~= Seq::<Waiting>::empty());
        assert(files@ + Seq::<FileModel>::empty() =~= files@);
        assert(made_view(made@) + Seq::<FolderModel>::empty() =~= made_view(made@));
    }
    made
}

/// Puts folders into a table, the last first.
fn shelve(made: Vec<FolderDownload>, folders: &mut FolderTable)
    requires
        old(folders).wf(),
        old(folders)@.len() == 0,
        forall|i: int, j: int|
            0 <= i < made@.len() && 0 <= j < made@.len() && (#[trigger] made@[i]).id == (
            #[trigger] made@[j]).id ==> i == j,
    ensures
        final(folders).wf(),
        final(folders)@ == made_view(made@).reverse(),
{
    let ghost all = made_view(made@);
    let mut made = made;
    assert(folders@ =~= all.skip(made@.len() as int).reverse());
    while made.len() > 0
        invariant
            folders.wf(),
            made@.len() <= all.len(),
            forall|i: int, j: int|
                0 <= i < all.len() && 0 <= j < all.len() && (#[trigger] all[i]).id == (
                #[trigger] all[j]).id ==> i == j,
            forall|i: int| 0 <= i < made@.len() ==> (#[trigger] made@[i])@ == all[i],
            folders@ == all.skip(made@.len() as int).reverse(),
        decreases made@.len(),
    {
        let ghost n = made@.len() - 1;
        let folder = made.pop().unwrap();
        let ghost model = folder@;
        proof {
            assert(model == all[n]);
            assert forall|k: int| 0 <= k < folders@.len() implies (#[trigger] folders@[k]).id
                != model.id by {
                assert(folders@[k] == all[all.len() - 1 - k]);
            }
        }
        let ghost before = folders@;
        folders.insert(folder);
        assert(folders@ =~= before.push(model));
        assert(folders@ =~= all.skip(n).reverse());
    }
    assert(all.skip(0) =~= all);
}

} // verus!