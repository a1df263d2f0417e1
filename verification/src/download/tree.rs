//! A download: one file, or one folder with everything below it.

use vstd::prelude::*;
use crate::download::error::FileFailureReason;
#[allow(unused_imports)]
use crate::download::folder_status::{child_count, derived_status};
use crate::download::items::{
    ActiveOperation, ChangedItemStatus, DownloadId, DownloadItem, FileId, FolderId, ItemId,
};
#[allow(unused_imports)]
use crate::download::items::{FileModel, FolderModel};
use crate::download::status::{DownloadStatus, FileStatus, StatusBucket};
use crate::download::tables::{FileTable, FolderTable};
#[allow(unused_imports)]
use crate::download::tables::{find_file, find_folder};
#[allow(unused_imports)]
use crate::download::tree_laws::{law_counters_stay_right, lemma_change_fits, tree_ok};
use crate::utils::paths::ItemPath;

verus! {

/// A download. Its root is its only file, or the folder that holds all else.
pub struct Download {
    pub id: DownloadId,
    pub url: String,
    pub save_path: ItemPath,
    pub status: DownloadStatus,
    pub is_paused: bool,
    pub active_operation: Option<ActiveOperation>,
    pub root_item: ItemId,
    pub files: FileTable,
    pub folders: FolderTable,
}

/// A download, in mathematical values.
#[verifier::ext_equal]
pub struct DownloadModel {
    pub id: DownloadId,
    pub url: Seq<char>,
    pub save_path: Seq<Seq<u8>>,
    pub status: DownloadStatus,
    pub is_paused: bool,
    pub active_operation: Option<ActiveOperation>,
    pub root_item: ItemId,
    pub files: Seq<FileModel>,
    pub folders: Seq<FolderModel>,
}

impl View for Download {
    type V = DownloadModel;

    open spec fn view(&self) -> DownloadModel {
        DownloadModel {
            id: self.id,
            url: self.url@,
            save_path: self.save_path@,
            status: self.status,
            is_paused: self.is_paused,
            active_operation: self.active_operation,
            root_item: self.root_item,
            files: self.files@,
            folders: self.folders@,
        }
    }
}

/// A counter moved from one bucket to another: the first never falls below zero.
pub open spec fn moved(counters: Seq<usize>, from: StatusBucket, to: StatusBucket) -> Seq<usize> {
    let less = counters.update(
        from.index(),
        if counters[from.index()] == 0 {
            0
        } else {
            (counters[from.index()] - 1) as usize
        },
    );
    less.update(to.index(), (less[to.index()] + 1) as usize)
}

/// Whether a counter can be moved from one bucket to another.
pub open spec fn can_move(counters: Seq<usize>, from: StatusBucket, to: StatusBucket) -> bool {
    counters[to.index()] < usize::MAX || from == to
}

/// What one folder makes of a change below it.
pub struct StatusStep {
    /// The folders, with this one counted anew and in the state that follows.
    pub folders: Seq<FolderModel>,
    /// The note that the folder's state is another now, if it is.
    pub note: Seq<ChangedItemStatus>,
    /// The folder above it.
    pub parent: Option<FolderId>,
    /// The bucket that the folder was in.
    pub from: StatusBucket,
    /// The bucket that the folder is in now.
    pub to: StatusBucket,
}

impl StatusStep {
    /// Whether the change shows above the folder: it does if the bucket is another
    /// one, and an error always does.
    pub open spec fn shows(self) -> bool {
        self.from != self.to || self.to == StatusBucket::Error
    }
}

/// What the folder at place `i` makes of a child that goes from one bucket to
/// another.
#[verifier::opaque]
pub open spec fn status_step(
    files: Seq<FileModel>,
    folders: Seq<FolderModel>,
    i: int,
    from: StatusBucket,
    to: StatusBucket,
    gone: Seq<FolderId>,
) -> StatusStep {
    let before = folders[i];
    let counted = FolderModel { counters: moved(before.counters, from, to), ..before };
    let status = derived_status(
        counted,
        files,
        folders.update(i, counted),
        gone.contains(before.id),
    );
    StatusStep {
        folders: folders.update(i, FolderModel { status, ..counted }),
        note: if status != before.status {
            seq![ChangedItemStatus::Folder { id: before.id, status }]
        } else {
            Seq::empty()
        },
        parent: before.parent_id,
        from: before.status.spec_bucket(),
        to: status.spec_bucket(),
    }
}

/// What becomes of the folders from `at` upwards when a child of `at` goes from
/// one bucket to another, and which of them change their state: each makes its step,
/// as long as the change shows, and for no more than `steps` folders.
pub open spec fn raise_status(
    files: Seq<FileModel>,
    folders: Seq<FolderModel>,
    at: Option<FolderId>,
    from: StatusBucket,
    to: StatusBucket,
    gone: Seq<FolderId>,
    steps: nat,
) -> (Seq<FolderModel>, Seq<ChangedItemStatus>)
    decreases steps,
{
    if steps == 0 || at.is_none() || find_folder(folders, at->0).is_none() {
        (folders, Seq::empty())
    } else {
        let step = status_step(files, folders, find_folder(folders, at->0)->0, from, to, gone);
        if step.shows() {
            let rest = raise_status(
                files,
                step.folders,
                step.parent,
                step.from,
                step.to,
                gone,
                (steps - 1) as nat,
            );
            (rest.0, step.note + rest.1)
        } else {
            (step.folders, step.note)
        }
    }
}

/// The state of the root of a download.
pub open spec fn root_status(d: DownloadModel) -> Option<DownloadStatus> {
    match d.root_item {
        ItemId::File(id) => match find_file(d.files, id) {
            Some(i) => Some(d.files[i].status.spec_as_download_status()),
            None => None,
        },
        ItemId::Folder(id) => match find_folder(d.folders, id) {
            Some(i) => Some(d.folders[i].status),
            None => None,
        },
    }
}

/// A download that takes the state of its root, and the note of it if that is new.
pub open spec fn settle_status(d: DownloadModel) -> (DownloadModel, Seq<ChangedItemStatus>) {
    match root_status(d) {
        Some(status) => if status != d.status {
            (DownloadModel { status, ..d }, seq![ChangedItemStatus::Download(status)])
        } else {
            (d, Seq::empty())
        },
        None => (d, Seq::empty()),
    }
}

/// What becomes of a download when a file gets another state, and what changed.
/// Nothing changes, and there is nothing to tell, if the file is in that state or
/// does not exist.
pub open spec fn spec_set_file_status(
    d: DownloadModel,
    id: FileId,
    status: FileStatus,
    gone: Seq<FolderId>,
) -> (DownloadModel, Option<Seq<ChangedItemStatus>>) {
    match find_file(d.files, id) {
        None => (d, None),
        Some(i) => if d.files[i].status == status {
            (d, None)
        } else {
            let files = d.files.update(i, FileModel { status, ..d.files[i] });
            let first = seq![ChangedItemStatus::File { id, status }];
            let from = d.files[i].status.spec_bucket();
            let to = status.spec_bucket();
            if from == to && to != StatusBucket::Error {
                (DownloadModel { files, ..d }, Some(first))
            } else {
                let raised = raise_status(
                    files,
                    d.folders,
                    d.files[i].parent_id,
                    from,
                    to,
                    gone,
                    d.folders.len(),
                );
                let settled = settle_status(DownloadModel { files, folders: raised.0, ..d });
                (settled.0, Some(first + raised.1 + settled.1))
            }
        },
    }
}

/// Whether every counter of every folder can still count `n` more.
pub open spec fn room(folders: Seq<FolderModel>, n: nat) -> bool {
    &&& forall|i: int| 0 <= i < folders.len() ==> (#[trigger] folders[i]).counters.len() == 6
    &&& forall|i: int, b: StatusBucket|
        0 <= i < folders.len() ==> #[trigger] folders[i].counters[b.index()] + n <= usize::MAX
}

/// Whether every folder that a change below `at` reaches can count it.
pub open spec fn raise_fits(
    files: Seq<FileModel>,
    folders: Seq<FolderModel>,
    at: Option<FolderId>,
    from: StatusBucket,
    to: StatusBucket,
    gone: Seq<FolderId>,
    steps: nat,
) -> bool
    decreases steps,
{
    if steps == 0 || at.is_none() || find_folder(folders, at->0).is_none() {
        true
    } else {
        let i = find_folder(folders, at->0)->0;
        let step = status_step(files, folders, i, from, to, gone);
        &&& can_move(folders[i].counters, from, to)
        &&& step.shows() ==> raise_fits(
            files,
            step.folders,
            step.parent,
            step.from,
            step.to,
            gone,
            (steps - 1) as nat,
        )
    }
}

/// Whether the folders of a download can count the states of their children on: their
/// counters are right, so that none exceeds the children that there are, or every one
/// can count `n` more.
pub open spec fn keeps_count(d: DownloadModel, n: nat) -> bool {
    tree_ok(d) || room(d.folders, n)
}

/// Whether the children of every folder can be counted.
pub open spec fn countable(folders: Seq<FolderModel>) -> bool {
    forall|i: int| 0 <= i < folders.len() ==> child_count(#[trigger] folders[i]) <= usize::MAX
}

fn holds(ids: &Vec<FolderId>, id: FolderId) -> (r: bool)
    ensures
        r == ids@.contains(id),
{
    let mut i: usize = 0;
    while i < ids.len()
        invariant
            i <= ids@.len(),
            forall|j: int| 0 <= j < i ==> ids@[j] != id,
        decreases ids@.len() - i,
    {
        if ids[i] == id {
            assert(ids@[i as int] == id);
            return true;
        }
        i += 1;
    }
    false
}

/// A folder that counts a child anew leaves room for one less.
proof fn lemma_step_room(
    files: Seq<FileModel>,
    folders: Seq<FolderModel>,
    i: int,
    from: StatusBucket,
    to: StatusBucket,
    gone: Seq<FolderId>,
    n: nat,
)
    requires
        0 <= i < folders.len(),
        room(folders, n + 1),
    ensures
        room(status_step(files, folders, i, from, to, gone).folders, n),
{
    reveal(status_step);
    let next = status_step(files, folders, i, from, to, gone).folders;
    assert forall|k: int, b: StatusBucket| 0 <= k < next.len() implies #[trigger]
        next[k].counters[b.index()] + n <= usize::MAX by {
        assert(folders[k].counters[b.index()] + (n + 1) <= usize::MAX);
        assert(folders[k].counters[from.index()] + (n + 1) <= usize::MAX);
        assert(folders[k].counters[to.index()] + (n + 1) <= usize::MAX);
    }
}

/// Where every counter can count one more per step, a change can be carried upwards.
proof fn lemma_room_fits(
    files: Seq<FileModel>,
    folders: Seq<FolderModel>,
    at: Option<FolderId>,
    from: StatusBucket,
    to: StatusBucket,
    gone: Seq<FolderId>,
    steps: nat,
)
    requires
        room(folders, steps),
    ensures
        raise_fits(files, folders, at, from, to, gone, steps),
    decreases steps,
{
    if !(steps == 0 || at.is_none() || find_folder(folders, at->0).is_none()) {
        let i = find_folder(folders, at->0)->0;
        assert(0 <= i < folders.len()) by {
            assert(exists|k: int| 0 <= k < folders.len() && (#[trigger] folders[k]).id == at->0);
        }
        assert(folders[i].counters[to.index()] + steps <= usize::MAX);
        lemma_step_room(files, folders, i, from, to, gone, (steps - 1) as nat);
        let step = status_step(files, folders, i, from, to, gone);
        if step.shows() {
            lemma_room_fits(
                files,
                step.folders,
                step.parent,
                step.from,
                step.to,
                gone,
                (steps - 1) as nat,
            );
        }
    }
}

/// Carrying a change upwards uses up room for one child per step.
pub proof fn lemma_raise_room(
    files: Seq<FileModel>,
    folders: Seq<FolderModel>,
    at: Option<FolderId>,
    from: StatusBucket,
    to: StatusBucket,
    gone: Seq<FolderId>,
    steps: nat,
    n: nat,
)
    requires
        room(folders, n + steps),
    ensures
        room(raise_status(files, folders, at, from, to, gone, steps).0, n),
        raise_status(files, folders, at, from, to, gone, steps).0.len() == folders.len(),
    decreases steps,
{
    if !(steps == 0 || at.is_none() || find_folder(folders, at->0).is_none()) {
        let i = find_folder(folders, at->0)->0;
        assert(0 <= i < folders.len()) by {
            assert(exists|k: int| 0 <= k < folders.len() && (#[trigger] folders[k]).id == at->0);
        }
        let rest = (n + steps - 1) as nat;
        lemma_step_room(files, folders, i, from, to, gone, rest);
        let step = status_step(files, folders, i, from, to, gone);
        assert(step.folders.len() == folders.len()) by {
            reveal(status_step);
        }
        if step.shows() {
            lemma_raise_room(
                files,
                step.folders,
                step.parent,
                step.from,
                step.to,
                gone,
                (steps - 1) as nat,
                n,
            );
        }
    }
}

/// The numbers of the files that fail if their download does.
pub open spec fn failable(files: Seq<FileModel>) -> Seq<FileId>
    decreases files.len(),
{
    if files.len() == 0 {
        Seq::empty()
    } else if files.last().status.spec_can_be_failed() {
        failable(files.drop_last()).push(files.last().id)
    } else {
        failable(files.drop_last())
    }
}

/// What becomes of a download when these files fail, one after the other.
pub open spec fn fail_each(
    d: DownloadModel,
    ids: Seq<FileId>,
    reason: FileFailureReason,
    gone: Seq<FolderId>,
) -> (DownloadModel, Seq<ChangedItemStatus>)
    decreases ids.len(),
{
    if ids.len() == 0 {
        (d, Seq::empty())
    } else {
        let before = fail_each(d, ids.drop_last(), reason, gone);
        let one = spec_set_file_status(before.0, ids.last(), FileStatus::Failed(reason), gone);
        (
            one.0,
            before.1 + match one.1 {
                Some(changed) => changed,
                None => Seq::empty(),
            },
        )
    }
}

/// What becomes of a download when every file that was begun and has not ended
/// fails for a reason.
pub open spec fn spec_set_all_files_failed(
    d: DownloadModel,
    reason: FileFailureReason,
    gone: Seq<FolderId>,
) -> (DownloadModel, Seq<ChangedItemStatus>) {
    fail_each(d, failable(d.files), reason, gone)
}

proof fn lemma_failable_len(files: Seq<FileModel>)
    ensures
        failable(files).len() <= files.len(),
    decreases files.len(),
{
    if files.len() > 0 {
        lemma_failable_len(files.drop_last());
    }
}

/// A file that gets another state uses up room for one child per folder.
pub proof fn lemma_set_status_room(
    d: DownloadModel,
    id: FileId,
    status: FileStatus,
    gone: Seq<FolderId>,
    n: nat,
)
    requires
        room(d.folders, n + d.folders.len()),
    ensures
        room(spec_set_file_status(d, id, status, gone).0.folders, n),
        spec_set_file_status(d, id, status, gone).0.folders.len() == d.folders.len(),
{
    if find_file(d.files, id).is_some() {
        let i = find_file(d.files, id)->0;
        let files = d.files.update(i, FileModel { status, ..d.files[i] });
        lemma_raise_room(
            files,
            d.folders,
            d.files[i].parent_id,
            d.files[i].status.spec_bucket(),
            status.spec_bucket(),
            gone,
            d.folders.len(),
            n,
        );
    }
}

/// What leaves room for more leaves room for less.
pub proof fn lemma_count_less(d: DownloadModel, n: nat, m: nat)
    requires
        keeps_count(d, n),
        m <= n,
    ensures
        keeps_count(d, m),
{
    if room(d.folders, n) {
        assert forall|i: int, b: StatusBucket| 0 <= i < d.folders.len() implies #[trigger]
            d.folders[i].counters[b.index()] + m <= usize::MAX by {
            assert(d.folders[i].counters[b.index()] + n <= usize::MAX);
        }
    }
}

proof fn lemma_raise_keeps_len(
    files: Seq<FileModel>,
    folders: Seq<FolderModel>,
    at: Option<FolderId>,
    from: StatusBucket,
    to: StatusBucket,
    gone: Seq<FolderId>,
    steps: nat,
)
    ensures
        raise_status(files, folders, at, from, to, gone, steps).0.len() == folders.len(),
    decreases steps,
{
    if !(steps == 0 || at.is_none() || find_folder(folders, at->0).is_none()) {
        let i = find_folder(folders, at->0)->0;
        assert(0 <= i < folders.len()) by {
            assert(exists|k: int| 0 <= k < folders.len() && (#[trigger] folders[k]).id == at->0);
        }
        let step = status_step(files, folders, i, from, to, gone);
        assert(step.folders.len() == folders.len()) by {
            reveal(status_step);
        }
        if step.shows() {
            lemma_raise_keeps_len(
                files,
                step.folders,
                step.parent,
                step.from,
                step.to,
                gone,
                (steps - 1) as nat,
            );
        }
    }
}

/// A file that gets another state leaves right counters right, and uses up room for one
/// child per folder.
pub proof fn lemma_set_status_keeps_count(
    d: DownloadModel,
    id: FileId,
    status: FileStatus,
    gone: Seq<FolderId>,
    n: nat,
)
    requires
        keeps_count(d, n + d.folders.len()),
        countable(d.folders),
    ensures
        keeps_count(spec_set_file_status(d, id, status, gone).0, n),
        spec_set_file_status(d, id, status, gone).0.folders.len() == d.folders.len(),
{
    if tree_ok(d) {
        law_counters_stay_right(d, id, status, gone);
    } else {
        lemma_set_status_room(d, id, status, gone, n);
    }
    if find_file(d.files, id).is_some() {
        let i = find_file(d.files, id)->0;
        lemma_raise_keeps_len(
            d.files.update(i, FileModel { status, ..d.files[i] }),
            d.folders,
            d.files[i].parent_id,
            d.files[i].status.spec_bucket(),
            status.spec_bucket(),
            gone,
            d.folders.len(),
        );
    }
}

impl Download {
    /// The tables are in order, and the children of every folder can be counted.
    pub open spec fn wf(&self) -> bool {
        &&& self.files.wf()
        &&& self.folders.wf()
        &&& countable(self@.folders)
    }

    /// Counts a child of the folder at place `i` in another bucket, takes the state
    /// that follows and notes it if it is new.
    fn recount(
        &mut self,
        i: usize,
        from: StatusBucket,
        to: StatusBucket,
        gone: &Vec<FolderId>,
        changed: &mut Vec<ChangedItemStatus>,
    ) -> (r: (Option<FolderId>, StatusBucket, StatusBucket))
        requires
            old(self).wf(),
            i < old(self)@.folders.len(),
            can_move(old(self)@.folders[i as int].counters, from, to),
        ensures
            final(self).wf(),
            ({
                let step = status_step(
                    old(self)@.files,
                    old(self)@.folders,
                    i as int,
                    from,
                    to,
                    gone@,
                );
                &&& final(self)@ == (DownloadModel { folders: step.folders, ..old(self)@ })
                &&& final(changed)@ == old(changed)@ + step.note
                &&& r == (step.parent, step.from, step.to)
            }),
    {
        let ghost start = self@;
        let id = self.folders.items[i].id;
        let previous = self.folders.items[i].status;
        let parent = self.folders.items[i].parent_id;
        let missing = holds(gone, id);
        self.folders.items[i].bucket_counters.decrement(from);
        self.folders.items[i].bucket_counters.increment(to);
        let ghost counted = FolderModel {
            counters: moved(start.folders[i as int].counters, from, to),
            ..start.folders[i as int]
        };
        assert(self.folders.items@[i as int]@ =~= counted);
        assert(self@.folders =~= start.folders.update(i as int, counted));
        let status = self.folders.items[i].calculate_status(&self.files, &self.folders, missing);
        self.folders.items[i].status = status;
        assert(self@.folders =~= start.folders.update(i as int, FolderModel { status, ..counted }));
        if status != previous {
            changed.push(ChangedItemStatus::Folder { id, status });
        }
        let ghost step = status_step(start.files, start.folders, i as int, from, to, gone@);
        reveal(status_step);
        assert(self@ =~= (DownloadModel { folders: step.folders, ..start }));
        assert(changed@ =~= old(changed)@ + step.note);
        (parent, previous.bucket(), status.bucket())
    }

    /// Carries a change below `at` upwards, as far as it shows.
    fn raise(
        &mut self,
        at: Option<FolderId>,
        from: StatusBucket,
        to: StatusBucket,
        gone: &Vec<FolderId>,
        changed: &mut Vec<ChangedItemStatus>,
    )
        requires
            old(self).wf(),
            raise_fits(
                old(self)@.files,
                old(self)@.folders,
                at,
                from,
                to,
                gone@,
                old(self)@.folders.len(),
            ),
        ensures
            final(self).wf(),
            ({
                let raised = raise_status(
                    old(self)@.files,
                    old(self)@.folders,
                    at,
                    from,
                    to,
                    gone@,
                    old(self)@.folders.len(),
                );
                &&& final(self)@ == (DownloadModel { folders: raised.0, ..old(self)@ })
                &&& final(changed)@ == old(changed)@ + raised.1
            }),
    {
        let ghost start = self@;
        let ghost told_before = changed@;
        let ghost raised = raise_status(
            start.files,
            start.folders,
            at,
            from,
            to,
            gone@,
            start.folders.len(),
        );
        let mut current: Option<FolderId> = at;
        let mut from = from;
        let mut to = to;
        let mut steps: usize = self.folders.items.len();
        assert(self@ =~= (DownloadModel { folders: self@.folders, ..start }));
        assert(changed@ + raised.1 =~= told_before + raised.1);
        while steps > 0 && current.is_some()
            invariant
                self.wf(),
                raise_fits(
                    start.files,
                    self@.folders,
                    current,
                    from,
                    to,
                    gone@,
                    steps as nat,
                ),
                self@ == (DownloadModel { folders: self@.folders, ..start }),
                ({
                    let rest = raise_status(
                        start.files,
                        self@.folders,
                        current,
                        from,
                        to,
                        gone@,
                        steps as nat,
                    );
                    raised.0 == rest.0 && told_before + raised.1 == changed@ + rest.1
                }),
            decreases steps,
        {
            let parent_id: FolderId = current.unwrap();
            steps -= 1;
            match self.folders.find(parent_id) {
                None => {
                    current = None;
                },
                Some(k) => {
                    let ghost folders = self@.folders;
                    let ghost told = changed@;
                    let ghost step = status_step(
                        start.files,
                        folders,
                        k as int,
                        from,
                        to,
                        gone@,
                    );
                    let (parent, old_bucket, new_bucket) = self.recount(
                        k,
                        from,
                        to,
                        gone,
                        changed,
                    );
                    proof {
                        let rest = raise_status(
                            start.files,
                            step.folders,
                            step.parent,
                            step.from,
                            step.to,
                            gone@,
                            steps as nat,
                        );
                        assert(told + (step.note + rest.1) =~= changed@ + rest.1);
                        assert(told + step.note =~= changed@ + Seq::<ChangedItemStatus>::empty());
                    }
                    current = if old_bucket != new_bucket || new_bucket == StatusBucket::Error {
                        parent
                    } else {
                        None
                    };
                    from = old_bucket;
                    to = new_bucket;
                },
            }
        }
        assert(changed@ + Seq::<ChangedItemStatus>::empty() =~= changed@);
    }

    /// Gives a file another state. The folders above it follow, and so does the
    /// download. What changed is told, from the file upwards; nothing is told if
    /// there is no such file or it was in that state before. `gone` holds the folders
    /// that are missing from disk.
    pub fn set_file_status(
        &mut self,
        id: FileId,
        status: FileStatus,
        gone: &Vec<FolderId>,
    ) -> (changed: Option<Vec<ChangedItemStatus>>)
        requires
            old(self).wf(),
            keeps_count(old(self)@, old(self)@.folders.len()),
        ensures
            final(self).wf(),
            final(self)@ == spec_set_file_status(old(self)@, id, status, gone@).0,
            match changed {
                Some(items) => spec_set_file_status(old(self)@, id, status, gone@).1 == Some(
                    items@,
                ),
                None => spec_set_file_status(old(self)@, id, status, gone@).1.is_none(),
            },
            tree_ok(old(self)@) ==> tree_ok(final(self)@),
    {
        let ghost start = self@;
        proof {
            if tree_ok(start) {
                law_counters_stay_right(start, id, status, gone@);
            }
        }
        let mut changed: Vec<ChangedItemStatus> = Vec::new();
        let i: usize = match self.files.find(id) {
            Some(i) => i,
            None => {
                return None;
            },
        };
        let before = self.files.items[i].status;
        if before == status {
            return None;
        }
        let from = before.bucket();
        let to = status.bucket();
        self.files.items[i].status = status;
        changed.push(ChangedItemStatus::File { id, status });
        let ghost files = start.files.update(
            i as int,
            FileModel { status, ..start.files[i as int] },
        );
        assert(self@.files =~= files);
        assert(self@ =~= (DownloadModel { files, ..start }));
        let ghost first = seq![ChangedItemStatus::File { id, status }];
        assert(changed@ =~= first);
        if from == to && to != StatusBucket::Error {
            return Some(changed);
        }
        let parent = self.files.items[i].parent_id;
        proof {
            if tree_ok(start) {
                lemma_change_fits(start, i as int, status, gone@);
            } else {
                lemma_room_fits(
                    files,
                    start.folders,
                    parent,
                    from,
                    to,
                    gone@,
                    start.folders.len(),
                );
            }
        }
        self.raise(parent, from, to, gone, &mut changed);
        let ghost unsettled = self@;
        let ghost told = changed@;
        if let Some(new_status) = self.root_status() {
            if new_status != self.status {
                self.status = new_status;
                changed.push(ChangedItemStatus::Download(new_status));
            }
        }
        assert(self@ =~= settle_status(unsettled).0);
        assert(changed@ =~= told + settle_status(unsettled).1);
        Some(changed)
    }

    /// The state of the root.
    fn root_status(&self) -> (r: Option<DownloadStatus>)
        requires
            self.wf(),
        ensures
            r == root_status(self@),
    {
        match self.root_item {
            ItemId::File(id) => match self.files.get(id) {
                Some(file) => Some(file.status.as_download_status()),
                None => None,
            },
            ItemId::Folder(id) => match self.folders.get(id) {
                Some(folder) => Some(folder.status),
                None => None,
            },
        }
    }

    /// Makes every file fail that was begun and has not ended. What changed is told.
    /// `gone` holds the folders that are missing from disk.
    pub fn set_all_files_failed(
        &mut self,
        reason: FileFailureReason,
        gone: &Vec<FolderId>,
    ) -> (changed: Vec<ChangedItemStatus>)
        requires
            old(self).wf(),
            keeps_count(old(self)@, old(self)@.files.len() * old(self)@.folders.len()),
        ensures
            final(self).wf(),
            final(self)@ == spec_set_all_files_failed(old(self)@, reason, gone@).0,
            changed@ == spec_set_all_files_failed(old(self)@, reason, gone@).1,
            tree_ok(old(self)@) ==> tree_ok(final(self)@),
    {
        let ghost start = self@;
        let mut ids: Vec<FileId> = Vec::new();
        let mut i: usize = 0;
        while i < self.files.items.len()
            invariant
                i <= self@.files.len(),
                self@ == start,
                self.wf(),
                ids@ == failable(start.files.take(i as int)),
            decreases self@.files.len() - i,
        {
            let file = &self.files.items[i];
            proof {
                assert(start.files.take(i + 1).drop_last() =~= start.files.take(i as int));
                assert(start.files.take(i + 1).last() == start.files[i as int]);
            }
            if file.status.can_be_failed() {
                ids.push(file.id);
            }
            i += 1;
        }
        proof {
            assert(start.files.take(i as int) =~= start.files);
            lemma_failable_len(start.files);
        }
        let mut changed: Vec<ChangedItemStatus> = Vec::new();
        let mut j: usize = 0;
        let ghost width = start.folders.len();
        proof {
            assert(ids@.len() * width <= start.files.len() * width) by (nonlinear_arith)
                requires
                    ids@.len() <= start.files.len(),
            ;
            lemma_count_less(start, start.files.len() * width, ids@.len() * width);
        }
        while j < ids.len()
            invariant
                j <= ids@.len(),
                self.wf(),
                self@.folders.len() == width,
                tree_ok(start) ==> tree_ok(self@),
                keeps_count(self@, ((ids@.len() - j) * width) as nat),
                self@ == fail_each(start, ids@.take(j as int), reason, gone@).0,
                changed@ == fail_each(start, ids@.take(j as int), reason, gone@).1,
            decreases ids@.len() - j,
        {
            let ghost here = self@;
            let ghost told = changed@;
            let id = ids[j];
            proof {
                assert(ids@.take(j + 1).drop_last() =~= ids@.take(j as int));
                assert((ids@.len() - j) * width == (ids@.len() - (j + 1)) * width + width)
                    by (nonlinear_arith);
                assert((ids@.len() - (j + 1)) * width >= 0) by (nonlinear_arith)
                    requires
                        j < ids@.len(),
                ;
                lemma_count_less(here, ((ids@.len() - j) * width) as nat, width);
                lemma_set_status_keeps_count(
                    here,
                    id,
                    FileStatus::Failed(reason),
                    gone@,
                    ((ids@.len() - (j + 1)) * width) as nat,
                );
            }
            let one = self.set_file_status(id, FileStatus::Failed(reason), gone);
            if let Some(more) = one {
                let mut more = more;
                let ghost added = more@;
                changed.append(&mut more);
                assert(changed@ =~= told + added);
            } else {
                assert(told + Seq::<ChangedItemStatus>::empty() =~= told);
            }
            j += 1;
        }
        assert(ids@.take(j as int) =~= ids@);
        changed
    }
}

} // verus!
