//! How the states and operations of files show in their folders and in the download.

use vstd::prelude::*;
#[allow(unused_imports)]
use crate::download::access::{
    base_items, empty_folders, files_of, folders_of, root_of, ItemModel,
};
#[allow(unused_imports)]
use crate::download::building::counters_of;
#[allow(unused_imports)]
use crate::download::error::DownloadFailureReason;
#[allow(unused_imports)]
use crate::download::folder_status::{
    child_count, child_errors, counts_add_up, derived_status, error_status, file_errors,
    folder_errors, in_bucket, mixed, ChildError,
};
#[allow(unused_imports)]
use crate::download::items::{
    ActiveOperation, ChangedItemOperation, ChangedItemPause, ChangedItemStatus, FileId, FileModel,
    FolderId, FolderModel, ItemId,
};
#[allow(unused_imports)]
use crate::download::operations::{
    first_file_operation, first_folder_operation, folder_operation,
    law_operations_change_nothing_else, operate_at, operate_first, raise_operation,
    settle_operation, spec_set_active_operation, spec_set_file_active_operation,
};
#[allow(unused_imports)]
use crate::download::pausing::{folder_paused, is_file, is_folder, settle_pause};
#[allow(unused_imports)]
use crate::download::status::{DownloadStatus, FileStatus, StatusBucket};
#[allow(unused_imports)]
use crate::download::tables::{
    find_file, find_folder, unique_files, unique_folders, with_file, with_folder,
};
#[allow(unused_imports)]
use crate::download::tree::{
    moved, raise_status, settle_status, spec_set_file_status, status_step, DownloadModel,
};
#[allow(unused_imports)]
use crate::utils::kept::lemma_kept_step;

verus! {

/// The state of a folder follows from how many of its children are in which state. It is
/// being fetched as soon as one child is, and it is not begun only if no child is. It is
/// known if a child is and none is being fetched, unless some children are further and
/// none is behind; then it is being fetched. It is complete only with all its children,
/// and complete with errors if nothing is left to do but some children failed.
pub proof fn law_folders_follow_their_children(
    f: FolderModel,
    files: Seq<FileModel>,
    folders: Seq<FolderModel>,
    gone: bool,
)
    requires
        counts_add_up(f),
    ensures
        ({
            let all = (f.child_files.len() + f.child_folders.len()) as int;
            let new = in_bucket(f, StatusBucket::Uninitialized);
            let known = in_bucket(f, StatusBucket::MetadataFetched);
            let begun = in_bucket(f, StatusBucket::Partial);
            let complete = in_bucket(f, StatusBucket::Completed);
            let failed = in_bucket(f, StatusBucket::Error);
            let status = derived_status(f, files, folders, gone);
            &&& status is Uninitialized <==> all > 0 && new == all
            &&& status is MetadataFetched <==> begun == 0 && known > 0 && (known == all || new > 0)
            &&& status is Partial <==> {
                ||| begun > 0
                ||| known > 0 && known < all && new == 0
                ||| new > 0 && new < all && known == 0
            }
            &&& status is Completed <==> complete == all
            &&& status is CompletedWithErrors <==> begun == 0 && known == 0 && new == 0 && complete
                < all && failed < all
            &&& status is NotFound || status is Failed <==> all > 0 && failed == all
        }),
{
}

/// What went wrong with a file, as its folder sees it.
pub open spec fn fault_of_file(files: Seq<FileModel>, id: FileId) -> Option<ChildError> {
    match find_file(files, id) {
        Some(i) => match files[i].status {
            FileStatus::NotFound => Some(ChildError::Missing),
            FileStatus::Failed(reason) => Some(
                ChildError::Reason(DownloadFailureReason::AllFilesFailed(reason)),
            ),
            _ => None,
        },
        None => None,
    }
}

/// What went wrong with a folder, as the folder around it sees it.
pub open spec fn fault_of_folder(folders: Seq<FolderModel>, id: FolderId) -> Option<ChildError> {
    match find_folder(folders, id) {
        Some(i) => match folders[i].status {
            DownloadStatus::NotFound => Some(ChildError::Missing),
            DownloadStatus::Failed(reason) => Some(ChildError::Reason(reason)),
            _ => None,
        },
        None => None,
    }
}

/// Whether something went wrong with every child of a folder.
pub open spec fn all_went_wrong(
    f: FolderModel,
    files: Seq<FileModel>,
    folders: Seq<FolderModel>,
) -> bool {
    &&& forall|i: int|
        0 <= i < f.child_files.len() ==> fault_of_file(files, #[trigger] f.child_files[i]) is Some
    &&& forall|i: int|
        0 <= i < f.child_folders.len() ==> fault_of_folder(
            folders,
            #[trigger] f.child_folders[i],
        ) is Some
}

/// Whether this went wrong with every child of a folder.
pub open spec fn all_went_wrong_by(
    f: FolderModel,
    files: Seq<FileModel>,
    folders: Seq<FolderModel>,
    fault: ChildError,
) -> bool {
    &&& forall|i: int|
        0 <= i < f.child_files.len() ==> fault_of_file(files, #[trigger] f.child_files[i]) == Some(
            fault,
        )
    &&& forall|i: int|
        0 <= i < f.child_folders.len() ==> fault_of_folder(folders, #[trigger] f.child_folders[i])
            == Some(fault)
}

proof fn lemma_file_faults(ids: Seq<FileId>, files: Seq<FileModel>)
    requires
        forall|i: int| 0 <= i < ids.len() ==> fault_of_file(files, #[trigger] ids[i]) is Some,
    ensures
        file_errors(ids, files).len() == ids.len(),
        forall|i: int|
            0 <= i < ids.len() ==> Some(#[trigger] file_errors(ids, files)[i]) == fault_of_file(
                files,
                ids[i],
            ),
    decreases ids.len(),
{
    if ids.len() > 0 {
        let rest = ids.drop_last();
        assert forall|i: int| 0 <= i < rest.len() implies fault_of_file(
            files,
            #[trigger] rest[i],
        ) is Some by {
            assert(rest[i] == ids[i]);
        }
        lemma_file_faults(rest, files);
        assert(fault_of_file(files, ids[ids.len() - 1]) is Some);
        assert forall|i: int| 0 <= i < ids.len() implies Some(
            #[trigger] file_errors(ids, files)[i],
        ) == fault_of_file(files, ids[i]) by {
            if i < rest.len() {
                assert(file_errors(ids, files)[i] == file_errors(rest, files)[i]);
                assert(rest[i] == ids[i]);
            }
        }
    }
}

proof fn lemma_folder_faults(ids: Seq<FolderId>, folders: Seq<FolderModel>)
    requires
        forall|i: int| 0 <= i < ids.len() ==> fault_of_folder(folders, #[trigger] ids[i]) is Some,
    ensures
        folder_errors(ids, folders).len() == ids.len(),
        forall|i: int|
            0 <= i < ids.len() ==> Some(#[trigger] folder_errors(ids, folders)[i])
                == fault_of_folder(folders, ids[i]),
    decreases ids.len(),
{
    if ids.len() > 0 {
        let rest = ids.drop_last();
        assert forall|i: int| 0 <= i < rest.len() implies fault_of_folder(
            folders,
            #[trigger] rest[i],
        ) is Some by {
            assert(rest[i] == ids[i]);
        }
        lemma_folder_faults(rest, folders);
        assert(fault_of_folder(folders, ids[ids.len() - 1]) is Some);
        assert forall|i: int| 0 <= i < ids.len() implies Some(
            #[trigger] folder_errors(ids, folders)[i],
        ) == fault_of_folder(folders, ids[i]) by {
            if i < rest.len() {
                assert(folder_errors(ids, folders)[i] == folder_errors(rest, folders)[i]);
                assert(rest[i] == ids[i]);
            }
        }
    }
}

/// A folder all of whose children went wrong fails for what they have in common. If all
/// are missing it is not found if its own folder is gone, and else its files are missing.
/// If they failed for one reason it fails for that, and else for several.
pub proof fn law_folders_fail_as_their_children_did(
    f: FolderModel,
    files: Seq<FileModel>,
    folders: Seq<FolderModel>,
    gone: bool,
)
    requires
        f.child_files.len() + f.child_folders.len() > 0,
        all_went_wrong(f, files, folders),
    ensures
        ({
            let status = error_status(f, files, folders, gone);
            &&& all_went_wrong_by(f, files, folders, ChildError::Missing) ==> status == if gone {
                DownloadStatus::NotFound
            } else {
                DownloadStatus::Failed(DownloadFailureReason::FilesMissingFromDisk)
            }
            &&& forall|reason: DownloadFailureReason|
                #[trigger] all_went_wrong_by(f, files, folders, ChildError::Reason(reason))
                    ==> status == DownloadStatus::Failed(reason)
            &&& (forall|fault: ChildError|
                !#[trigger] all_went_wrong_by(f, files, folders, fault)) ==> status
                == DownloadStatus::Failed(DownloadFailureReason::MultipleErrors)
        }),
{
    lemma_file_faults(f.child_files, files);
    lemma_folder_faults(f.child_folders, folders);
    let a = file_errors(f.child_files, files);
    let b = folder_errors(f.child_folders, folders);
    let errors = child_errors(f, files, folders);
    let status = error_status(f, files, folders, gone);
    assert(errors.len() == child_count(f));
    assert forall|fault: ChildError| #[trigger]
        all_went_wrong_by(f, files, folders, fault) implies forall|i: int|
        0 <= i < errors.len() ==> #[trigger] errors[i] == fault by {
        assert forall|i: int| 0 <= i < errors.len() implies #[trigger] errors[i] == fault by {
            if i < a.len() {
                assert(errors[i] == a[i]);
                assert(fault_of_file(files, f.child_files[i]) == Some(fault));
            } else {
                assert(errors[i] == b[i - a.len()]);
                assert(fault_of_folder(folders, f.child_folders[i - a.len()]) == Some(fault));
            }
        }
    }
    assert forall|reason: DownloadFailureReason|
        #[trigger] all_went_wrong_by(f, files, folders, ChildError::Reason(reason)) implies status
        == DownloadStatus::Failed(reason) by {
        assert(errors[0] == ChildError::Reason(reason));
    }
    if forall|fault: ChildError| !#[trigger] all_went_wrong_by(f, files, folders, fault) {
        let fault = errors[0];
        assert(!all_went_wrong_by(f, files, folders, fault));
        if !mixed(errors) {
            assert forall|i: int| 0 <= i < f.child_files.len() implies fault_of_file(
                files,
                #[trigger] f.child_files[i],
            ) == Some(fault) by {
                assert(Some(a[i]) == fault_of_file(files, f.child_files[i]));
                assert(errors[i] == a[i]);
                assert(errors[i] == errors[0]);
            }
            assert forall|i: int| 0 <= i < f.child_folders.len() implies fault_of_folder(
                folders,
                #[trigger] f.child_folders[i],
            ) == Some(fault) by {
                assert(Some(b[i]) == fault_of_folder(folders, f.child_folders[i]));
                assert(errors[a.len() + i] == b[i]);
                assert(errors[a.len() + i] == errors[0]);
            }
        }
        assert(mixed(errors));
        assert(!forall|i: int|
            0 <= i < errors.len() ==> #[trigger] errors[i] == ChildError::Missing) by {
            let (i, j) = choose|i: int, j: int|
                0 <= i < errors.len() && 0 <= j < errors.len() && #[trigger] errors[i]
                    != #[trigger] errors[j];
            assert(errors[i] != ChildError::Missing || errors[j] != ChildError::Missing);
        }
    }
}

/// A download that is one file is in the state of the file, and fails for its reason.
pub proof fn law_single_files_show_their_state(s: FileStatus)
    ensures
        ({
            let d = s.spec_as_download_status();
            &&& s is Uninitialized <==> d is Uninitialized
            &&& s is MetadataFetched <==> d is MetadataFetched
            &&& s is Partial <==> d is Partial
            &&& s is Completed <==> d is Completed
            &&& s is NotFound <==> d is NotFound
            &&& s matches FileStatus::Failed(reason) ==> d == DownloadStatus::Failed(
                DownloadFailureReason::AllFilesFailed(reason),
            )
        }),
{
}

/// A child that changes its state leaves one bucket and enters another, and the others
/// keep their numbers.
pub proof fn law_children_move_between_buckets(
    counters: Seq<usize>,
    from: StatusBucket,
    to: StatusBucket,
    other: StatusBucket,
)
    requires
        counters.len() == 6,
        counters[from.index()] > 0,
        counters[to.index()] < usize::MAX,
    ensures
        ({
            let after = moved(counters, from, to);
            &&& after.len() == 6
            &&& from != to ==> after[from.index()] == counters[from.index()] - 1
            &&& from != to ==> after[to.index()] == counters[to.index()] + 1
            &&& from == to ==> after[to.index()] == counters[to.index()]
            &&& other != from && other != to ==> after[other.index()] == counters[other.index()]
        }),
{
}

proof fn lemma_raised_told(
    files: Seq<FileModel>,
    folders: Seq<FolderModel>,
    at: Option<FolderId>,
    from: StatusBucket,
    to: StatusBucket,
    gone: Seq<FolderId>,
    steps: nat,
)
    ensures
        ({
            let (after, told) = raise_status(files, folders, at, from, to, gone, steps);
            &&& after.len() == folders.len()
            &&& forall|k: int|
                0 <= k < folders.len() ==> (#[trigger] after[k]).id == folders[k].id
            &&& forall|k: int|
                0 <= k < folders.len() && (#[trigger] after[k]).status != folders[k].status
                    ==> told.contains(
                    ChangedItemStatus::Folder { id: folders[k].id, status: after[k].status },
                )
        }),
    decreases steps,
{
    if steps > 0 && at.is_some() && find_folder(folders, at->0).is_some() {
        reveal(status_step);
        let i = find_folder(folders, at->0)->0;
        crate::download::tree_laws::lemma_found_folder(folders, at->0);
        let step = status_step(files, folders, i, from, to, gone);
        let (after, told) = raise_status(files, folders, at, from, to, gone, steps);
        let rest = raise_status(
            files,
            step.folders,
            step.parent,
            step.from,
            step.to,
            gone,
            (steps - 1) as nat,
        );
        lemma_raised_told(
            files,
            step.folders,
            step.parent,
            step.from,
            step.to,
            gone,
            (steps - 1) as nat,
        );
        assert forall|k: int|
            0 <= k < folders.len() && (#[trigger] after[k]).status
                != folders[k].status implies told.contains(
            ChangedItemStatus::Folder { id: folders[k].id, status: after[k].status },
        ) by {
            let note = ChangedItemStatus::Folder { id: folders[k].id, status: after[k].status };
            if step.shows() {
                if rest.0[k].status != step.folders[k].status {
                    assert(rest.1.contains(note));
                    let j = choose|j: int| 0 <= j < rest.1.len() && rest.1[j] == note;
                    assert(told[step.note.len() + j] == note);
                } else {
                    assert(k == i);
                    assert(step.note[0] == note);
                    assert(told[0] == note);
                }
            } else {
                assert(k == i);
                assert(told[0] == note);
            }
        }
        assert forall|k: int| 0 <= k < folders.len() implies (#[trigger] after[k]).id
            == folders[k].id by {
            assert(step.folders[k].id == folders[k].id);
            if step.shows() {
                assert(rest.0[k].id == step.folders[k].id);
            }
        }
    }
}

/// When a file changes its state, every change of state that follows is told: that of the
/// file, of each folder above it that changes, and of the download if that changes. If
/// the file was in this state already, nothing changes and nothing is told.
pub proof fn law_every_change_of_state_is_told(
    d: DownloadModel,
    id: FileId,
    status: FileStatus,
    gone: Seq<FolderId>,
    i: int,
)
    requires
        unique_files(d.files),
        0 <= i < d.files.len(),
        d.files[i].id == id,
    ensures
        ({
            let (after, told) = spec_set_file_status(d, id, status, gone);
            if d.files[i].status == status {
                after == d && told is None
            } else {
                &&& told matches Some(items) && {
                    &&& items.contains(ChangedItemStatus::File { id, status })
                    &&& forall|k: int|
                        0 <= k < d.folders.len() && (#[trigger] after.folders[k]).status
                            != d.folders[k].status ==> items.contains(
                            ChangedItemStatus::Folder {
                                id: d.folders[k].id,
                                status: after.folders[k].status,
                            },
                        )
                    &&& after.status != d.status ==> items.contains(
                        ChangedItemStatus::Download(after.status),
                    )
                }
            }
        }),
{
    let k = find_file(d.files, id)->0;
    assert(d.files[k].id == d.files[i].id);
    if d.files[i].status != status {
        let files = d.files.update(i, FileModel { status, ..d.files[i] });
        let from = d.files[i].status.spec_bucket();
        let to = status.spec_bucket();
        let first = ChangedItemStatus::File { id, status };
        let (after, told) = spec_set_file_status(d, id, status, gone);
        let items = told->0;
        assert(items[0] == first);
        if !(from == to && to != StatusBucket::Error) {
            let steps = d.folders.len();
            let parent = d.files[i].parent_id;
            lemma_raised_told(files, d.folders, parent, from, to, gone, steps);
            let raised = raise_status(files, d.folders, parent, from, to, gone, steps);
            let settled = settle_status(DownloadModel { files, folders: raised.0, ..d });
            assert forall|k: int|
                0 <= k < d.folders.len() && (#[trigger] after.folders[k]).status
                    != d.folders[k].status implies items.contains(
                ChangedItemStatus::Folder {
                    id: d.folders[k].id,
                    status: after.folders[k].status,
                },
            ) by {
                let note = ChangedItemStatus::Folder {
                    id: d.folders[k].id,
                    status: after.folders[k].status,
                };
                assert(raised.0[k].status != d.folders[k].status);
                let j = choose|j: int| 0 <= j < raised.1.len() && raised.1[j] == note;
                assert(items[1 + j] == note);
            }
            if after.status != d.status {
                assert(settled.1[0] == ChangedItemStatus::Download(after.status));
                let at = (1 + raised.1.len()) as int;
                assert(items[at] == ChangedItemStatus::Download(after.status));
            }
        }
    }
}

/// What is being done for a child.
pub open spec fn done_for_file(files: Seq<FileModel>, id: FileId) -> Option<ActiveOperation> {
    match find_file(files, id) {
        Some(i) => files[i].active_operation,
        None => None,
    }
}

/// What is being done for a folder within.
pub open spec fn done_for_folder(folders: Seq<FolderModel>, id: FolderId) -> Option<
    ActiveOperation,
> {
    match find_folder(folders, id) {
        Some(i) => folders[i].active_operation,
        None => None,
    }
}

proof fn lemma_first_operation(ids: Seq<FileId>, files: Seq<FileModel>)
    ensures
        match first_file_operation(ids, files) {
            Some(op) => exists|i: int|
                0 <= i < ids.len() && done_for_file(files, #[trigger] ids[i]) == Some(op)
                    && forall|j: int|
                    0 <= j < i ==> done_for_file(files, #[trigger] ids[j]) is None,
            None => forall|j: int|
                0 <= j < ids.len() ==> done_for_file(files, #[trigger] ids[j]) is None,
        },
    decreases ids.len(),
{
    if ids.len() > 0 {
        let rest = ids.drop_first();
        lemma_first_operation(rest, files);
        assert forall|j: int| 1 <= j < ids.len() implies #[trigger] ids[j] == rest[j - 1] by {}
        if done_for_file(files, ids[0]) is None {
            if let Some(op) = first_file_operation(rest, files) {
                let i = choose|i: int|
                    0 <= i < rest.len() && done_for_file(files, #[trigger] rest[i]) == Some(op)
                        && forall|j: int|
                        0 <= j < i ==> done_for_file(files, #[trigger] rest[j]) is None;
                assert(ids[i + 1] == rest[i]);
                assert forall|j: int| 0 <= j < i + 1 implies done_for_file(
                    files,
                    #[trigger] ids[j],
                ) is None by {
                    if j > 0 {
                        assert(ids[j] == rest[j - 1]);
                    }
                }
            } else {
                assert forall|j: int| 0 <= j < ids.len() implies done_for_file(
                    files,
                    #[trigger] ids[j],
                ) is None by {
                    if j > 0 {
                        assert(ids[j] == rest[j - 1]);
                    }
                }
            }
        }
    }
}

proof fn lemma_first_within(ids: Seq<FolderId>, folders: Seq<FolderModel>)
    ensures
        match first_folder_operation(ids, folders) {
            Some(op) => exists|i: int|
                0 <= i < ids.len() && done_for_folder(folders, #[trigger] ids[i]) == Some(op)
                    && forall|j: int|
                    0 <= j < i ==> done_for_folder(folders, #[trigger] ids[j]) is None,
            None => forall|j: int|
                0 <= j < ids.len() ==> done_for_folder(folders, #[trigger] ids[j]) is None,
        },
    decreases ids.len(),
{
    if ids.len() > 0 {
        let rest = ids.drop_first();
        lemma_first_within(rest, folders);
        if done_for_folder(folders, ids[0]) is None {
            if let Some(op) = first_folder_operation(rest, folders) {
                let i = choose|i: int|
                    0 <= i < rest.len() && done_for_folder(folders, #[trigger] rest[i]) == Some(op)
                        && forall|j: int|
                        0 <= j < i ==> done_for_folder(folders, #[trigger] rest[j]) is None;
                assert(ids[i + 1] == rest[i]);
                assert forall|j: int| 0 <= j < i + 1 implies done_for_folder(
                    folders,
                    #[trigger] ids[j],
                ) is None by {
                    if j > 0 {
                        assert(ids[j] == rest[j - 1]);
                    }
                }
            } else {
                assert forall|j: int| 0 <= j < ids.len() implies done_for_folder(
                    folders,
                    #[trigger] ids[j],
                ) is None by {
                    if j > 0 {
                        assert(ids[j] == rest[j - 1]);
                    }
                }
            }
        }
    }
}

/// What is being done for a folder is what is being done for the first of its children for
/// which anything is, files before folders; nothing is only if nothing is for any child.
pub proof fn law_folders_show_what_is_done_within(
    f: FolderModel,
    files: Seq<FileModel>,
    folders: Seq<FolderModel>,
)
    ensures
        match folder_operation(f, files, folders) {
            Some(op) => {
                ||| exists|i: int|
                    0 <= i < f.child_files.len() && done_for_file(
                        files,
                        #[trigger] f.child_files[i],
                    ) == Some(op) && forall|j: int|
                        0 <= j < i ==> done_for_file(files, #[trigger] f.child_files[j]) is None
                ||| (forall|j: int|
                    0 <= j < f.child_files.len() ==> done_for_file(
                        files,
                        #[trigger] f.child_files[j],
                    ) is None) && exists|i: int|
                    0 <= i < f.child_folders.len() && done_for_folder(
                        folders,
                        #[trigger] f.child_folders[i],
                    ) == Some(op) && forall|j: int|
                        0 <= j < i ==> done_for_folder(folders, #[trigger] f.child_folders[j]) is
                            None
            },
            None => {
                &&& forall|j: int|
                    0 <= j < f.child_files.len() ==> done_for_file(
                        files,
                        #[trigger] f.child_files[j],
                    ) is None
                &&& forall|j: int|
                    0 <= j < f.child_folders.len() ==> done_for_folder(
                        folders,
                        #[trigger] f.child_folders[j],
                    ) is None
            },
        },
{
    lemma_first_operation(f.child_files, files);
    lemma_first_within(f.child_folders, folders);
}

/// What is noted for a download as being done is what is noted for its root.
pub open spec fn shows_its_root(d: DownloadModel) -> bool {
    match d.root_item {
        ItemId::File(id) => find_file(d.files, id) matches Some(i) ==> d.active_operation
            == d.files[i].active_operation,
        ItemId::Folder(id) => find_folder(d.folders, id) matches Some(i) ==> d.active_operation
            == d.folders[i].active_operation,
    }
}

proof fn lemma_operations_told(
    files: Seq<FileModel>,
    folders: Seq<FolderModel>,
    at: Option<FolderId>,
    steps: nat,
)
    ensures
        ({
            let (after, told) = raise_operation(files, folders, at, steps);
            &&& after.len() == folders.len()
            &&& forall|k: int|
                0 <= k < folders.len() ==> (#[trigger] after[k]).id == folders[k].id
            &&& forall|k: int|
                0 <= k < folders.len() && (#[trigger] after[k]).active_operation
                    != folders[k].active_operation ==> told.contains(
                    ChangedItemOperation::Folder {
                        id: folders[k].id,
                        operation: after[k].active_operation,
                    },
                )
        }),
    decreases steps,
{
    if steps > 0 && at.is_some() && find_folder(folders, at->0).is_some() {
        let i = find_folder(folders, at->0)->0;
        crate::download::tree_laws::lemma_found_folder(folders, at->0);
        let operation = folder_operation(folders[i], files, folders);
        if operation != folders[i].active_operation {
            let next = folders.update(
                i,
                FolderModel { active_operation: operation, ..folders[i] },
            );
            lemma_operations_told(files, next, folders[i].parent_id, (steps - 1) as nat);
            let rest = raise_operation(files, next, folders[i].parent_id, (steps - 1) as nat);
            let (after, told) = raise_operation(files, folders, at, steps);
            assert forall|k: int|
                0 <= k < folders.len() && (#[trigger] after[k]).active_operation
                    != folders[k].active_operation implies told.contains(
                ChangedItemOperation::Folder {
                    id: folders[k].id,
                    operation: after[k].active_operation,
                },
            ) by {
                let note = ChangedItemOperation::Folder {
                    id: folders[k].id,
                    operation: after[k].active_operation,
                };
                if rest.0[k].active_operation != next[k].active_operation {
                    let j = choose|j: int| 0 <= j < rest.1.len() && rest.1[j] == note;
                    assert(told[1 + j] == note);
                } else {
                    assert(k == i);
                    assert(told[0] == note);
                }
            }
            assert forall|k: int| 0 <= k < folders.len() implies (#[trigger] after[k]).id
                == folders[k].id by {
                assert(next[k].id == folders[k].id);
            }
        }
    }
}

/// What is noted for one file is told, with every folder above it and the download where
/// that changes what is noted for them; and what is noted for the download is what is
/// noted for its root.
pub proof fn law_every_change_of_operation_is_told(
    d: DownloadModel,
    i: int,
    operation: Option<ActiveOperation>,
)
    requires
        unique_files(d.files),
        0 <= i < d.files.len(),
        !(d.files[i].status is Completed),
        !(d.files[i].status is NotFound),
        !(d.files[i].status is Failed),
    ensures
        ({
            let id = d.files[i].id;
            let (after, told) = spec_set_file_active_operation(d, id, operation);
            &&& after.files[i].active_operation == operation
            &&& told.contains(ChangedItemOperation::File { id, operation })
            &&& forall|k: int|
                0 <= k < d.folders.len() && (#[trigger] after.folders[k]).active_operation
                    != d.folders[k].active_operation ==> told.contains(
                    ChangedItemOperation::Folder {
                        id: d.folders[k].id,
                        operation: after.folders[k].active_operation,
                    },
                )
            &&& after.active_operation != d.active_operation ==> told.contains(
                ChangedItemOperation::Download(after.active_operation),
            )
            &&& shows_its_root(after)
        }),
{
    let id = d.files[i].id;
    let k = find_file(d.files, id)->0;
    assert(d.files[k].id == d.files[i].id);
    let files = d.files.update(i, FileModel { active_operation: operation, ..d.files[i] });
    let raised = raise_operation(files, d.folders, d.files[i].parent_id, d.folders.len());
    lemma_operations_told(files, d.folders, d.files[i].parent_id, d.folders.len());
    let (after, told) = spec_set_file_active_operation(d, id, operation);
    let one = operate_at(d, i, operation);
    let settled = settle_operation(one.0);
    assert(told[0] == (ChangedItemOperation::File { id, operation }));
    assert forall|k: int|
        0 <= k < d.folders.len() && (#[trigger] after.folders[k]).active_operation
            != d.folders[k].active_operation implies told.contains(
        ChangedItemOperation::Folder {
            id: d.folders[k].id,
            operation: after.folders[k].active_operation,
        },
    ) by {
        let note = ChangedItemOperation::Folder {
            id: d.folders[k].id,
            operation: after.folders[k].active_operation,
        };
        assert(raised.0[k].active_operation != d.folders[k].active_operation);
        let j = choose|j: int| 0 <= j < raised.1.len() && raised.1[j] == note;
        assert(told[1 + j] == note);
    }
    if after.active_operation != d.active_operation {
        assert(settled.1[0] == ChangedItemOperation::Download(after.active_operation));
        assert(told[one.1.len() as int] == settled.1[0]);
    }
}

proof fn lemma_each_file_told(
    d: DownloadModel,
    n: nat,
    operation: Option<ActiveOperation>,
    i: int,
)
    requires
        n <= d.files.len(),
        0 <= i < n,
        !d.files[i].status.spec_is_terminal(),
    ensures
        operate_first(d, n, operation).1.contains(
            ChangedItemOperation::File { id: d.files[i].id, operation },
        ),
    decreases n,
{
    let before = operate_first(d, (n - 1) as nat, operation);
    let last = operate_at(before.0, n - 1, operation);
    let all = operate_first(d, n, operation);
    let note = ChangedItemOperation::File { id: d.files[i].id, operation };
    if i < n - 1 {
        lemma_each_file_told(d, (n - 1) as nat, operation, i);
        let j = choose|j: int| 0 <= j < before.1.len() && before.1[j] == note;
        assert(all.1[j] == note);
    } else {
        crate::download::operations::lemma_operate_first_same(d, (n - 1) as nat, operation);
        assert(before.0.files[n - 1] == (FileModel {
            active_operation: before.0.files[n - 1].active_operation,
            ..d.files[n - 1]
        }));
        assert(last.1[0] == note);
        assert(all.1[before.1.len() as int] == note);
    }
}

/// What is noted for all files of a download is told for each that is not done, and what is
/// noted for the download is what is noted for its root.
pub proof fn law_operations_of_all_files_are_told(
    d: DownloadModel,
    operation: Option<ActiveOperation>,
    i: int,
)
    requires
        0 <= i < d.files.len(),
        !(d.files[i].status is Completed),
        !(d.files[i].status is NotFound),
        !(d.files[i].status is Failed),
    ensures
        spec_set_active_operation(d, operation).1.contains(
            ChangedItemOperation::File { id: d.files[i].id, operation },
        ),
        spec_set_active_operation(d, operation).0.files[i].active_operation == operation,
        shows_its_root(spec_set_active_operation(d, operation).0),
{
    lemma_each_file_told(d, d.files.len(), operation, i);
    law_operations_change_nothing_else(d, operation);
    let all = operate_first(d, d.files.len(), operation);
    let note = ChangedItemOperation::File { id: d.files[i].id, operation };
    let j = choose|j: int| 0 <= j < all.1.len() && all.1[j] == note;
    assert(spec_set_active_operation(d, operation).1[j] == note);
}

/// Whether a folder is empty.
pub open spec fn is_empty_folder() -> spec_fn(FolderModel) -> bool {
    |f: FolderModel| f.child_files.len() == 0 && f.child_folders.len() == 0
}

proof fn lemma_empty_folders(folders: Seq<FolderModel>)
    ensures
        empty_folders(folders) == folders.filter(is_empty_folder()).map_values(
            |f: FolderModel| (ItemId::Folder(f.id), ItemModel::Folder(f)),
        ),
    decreases folders.len(),
{
    let make = |f: FolderModel| (ItemId::Folder(f.id), ItemModel::Folder(f));
    lemma_kept_step(folders, is_empty_folder(), make);
    if folders.len() > 0 {
        lemma_empty_folders(folders.drop_last());
    }
}

/// The items that hold no others are all files, in their order, and then the folders that
/// are empty, in theirs.
pub proof fn law_base_items_are_files_and_empty_folders(d: DownloadModel)
    ensures
        ({
            let items = base_items(d);
            let empty = d.folders.filter(is_empty_folder());
            &&& items.len() == d.files.len() + empty.len()
            &&& forall|i: int|
                0 <= i < d.files.len() ==> #[trigger] items[i] == (
                    ItemId::File(d.files[i].id),
                    ItemModel::File(d.files[i]),
                )
            &&& forall|i: int|
                0 <= i < empty.len() ==> items[(d.files.len() + i) as int] == (
                    ItemId::Folder((#[trigger] empty[i]).id),
                    ItemModel::Folder(empty[i]),
                )
        }),
{
    lemma_empty_folders(d.folders);
}

/// A file that is put into a table is found there by its number, as it is, and the others
/// stay; it takes the place of one with its number, or the last.
pub proof fn law_files_are_found_where_they_were_put(
    files: Seq<FileModel>,
    file: FileModel,
    other: FileId,
)
    requires
        unique_files(files),
    ensures
        ({
            let after = with_file(files, file);
            &&& unique_files(after)
            &&& find_file(after, file.id) matches Some(i) && after[i] == file
            &&& other != file.id ==> find_file(after, other) == find_file(files, other)
            &&& other != file.id ==> (find_file(files, other) matches Some(i) ==> after[i]
                == files[i])
            &&& after.len() == files.len() + if find_file(files, file.id) is Some {
                0int
            } else {
                1int
            }
        }),
{
    let after = with_file(files, file);
    let at: int = match find_file(files, file.id) {
        Some(i) => i,
        None => files.len() as int,
    };
    if find_file(files, file.id) is Some {
        crate::download::tree_laws::lemma_found_file(files, file.id);
    }
    assert(after[at] == file);
    assert forall|i: int, j: int|
        0 <= i < after.len() && 0 <= j < after.len() && (#[trigger] after[i]).id == (
        #[trigger] after[j]).id implies i == j by {
        if i != at && j != at {
            assert(files[i].id == files[j].id);
        } else if i == at && j != at {
            assert(files[j].id == file.id);
            if find_file(files, file.id) is Some {
                assert(files[at].id == files[j].id);
            }
        } else if j == at && i != at {
            assert(files[i].id == file.id);
            if find_file(files, file.id) is Some {
                assert(files[at].id == files[i].id);
            }
        }
    }
    let found = find_file(after, file.id)->0;
    assert(after[found].id == after[at].id);
    if other != file.id {
        if find_file(files, other) is Some {
            crate::download::tree_laws::lemma_found_file(files, other);
            let i = find_file(files, other)->0;
            assert(after[i] == files[i]);
            let j = find_file(after, other)->0;
            assert(after[j].id == after[i].id);
        } else if find_file(after, other) is Some {
            crate::download::tree_laws::lemma_found_file(after, other);
            let j = find_file(after, other)->0;
            assert(files[j].id == other);
        }
    }
}

/// The root of a download is the file or folder that it names.
pub proof fn law_the_root_is_the_item_that_is_named(d: DownloadModel)
    ensures
        match root_of(d) {
            Some(ItemModel::File(f)) => d.files.contains(f) && d.root_item == ItemId::File(f.id),
            Some(ItemModel::Folder(f)) => d.folders.contains(f) && d.root_item == ItemId::Folder(
                f.id,
            ),
            None => match d.root_item {
                ItemId::File(id) => forall|i: int|
                    0 <= i < d.files.len() ==> (#[trigger] d.files[i]).id != id,
                ItemId::Folder(id) => forall|i: int|
                    0 <= i < d.folders.len() ==> (#[trigger] d.folders[i]).id != id,
            },
        },
{
    match d.root_item {
        ItemId::File(id) => {
            if find_file(d.files, id) is Some {
                crate::download::tree_laws::lemma_found_file(d.files, id);
            }
        },
        ItemId::Folder(id) => {
            if find_folder(d.folders, id) is Some {
                crate::download::tree_laws::lemma_found_folder(d.folders, id);
            }
        },
    }
}

/// A folder is paused if all its children are, and it has any.
pub proof fn law_folders_pause_with_all_their_children(
    f: FolderModel,
    files: Seq<FileModel>,
    folders: Seq<FolderModel>,
)
    requires
        forall|i: int|
            0 <= i < f.child_files.len() ==> find_file(files, #[trigger] f.child_files[i]) is Some,
        forall|i: int|
            0 <= i < f.child_folders.len() ==> find_folder(
                folders,
                #[trigger] f.child_folders[i],
            ) is Some,
    ensures
        folder_paused(f, files, folders) <==> {
            &&& f.child_files.len() + f.child_folders.len() > 0
            &&& forall|i: int|
                0 <= i < f.child_files.len() ==> files[find_file(
                    files,
                    #[trigger] f.child_files[i],
                )->0].is_paused
            &&& forall|i: int|
                0 <= i < f.child_folders.len() ==> folders[find_folder(
                    folders,
                    #[trigger] f.child_folders[i],
                )->0].is_paused
        },
{
    if f.child_files.len() > 0 {
        assert(is_file(files, f.child_files[0]));
    }
    if f.child_folders.len() > 0 {
        assert(is_folder(folders, f.child_folders[0]));
    }
    if folder_paused(f, files, folders) {
        assert forall|i: int| 0 <= i < f.child_files.len() implies files[find_file(
            files,
            #[trigger] f.child_files[i],
        )->0].is_paused by {
            assert(is_file(files, f.child_files[i]));
        }
        assert forall|i: int| 0 <= i < f.child_folders.len() implies folders[find_folder(
            folders,
            #[trigger] f.child_folders[i],
        )->0].is_paused by {
            assert(is_folder(folders, f.child_folders[i]));
        }
    }
}

/// A download is paused exactly if its root is, and so told if that changes.
pub proof fn law_downloads_pause_with_their_root(d: DownloadModel)
    ensures
        ({
            let (after, told) = settle_pause(d);
            &&& after == (DownloadModel { is_paused: after.is_paused, ..d })
            &&& match d.root_item {
                ItemId::File(id) => find_file(d.files, id) matches Some(i) ==> after.is_paused
                    == d.files[i].is_paused,
                ItemId::Folder(id) => find_folder(d.folders, id) matches Some(i) ==> after.is_paused
                    == d.folders[i].is_paused,
            }
            &&& after.is_paused != d.is_paused ==> told == seq![
                ChangedItemPause::Download(after.is_paused),
            ]
            &&& after.is_paused == d.is_paused ==> told.len() == 0
        }),
{
}

/// Files and folders of a folder are given as far as they are there, in its order.
pub proof fn law_children_are_given_in_order(
    files: Seq<FileModel>,
    file_ids: Seq<FileId>,
    folders: Seq<FolderModel>,
    folder_ids: Seq<FolderId>,
)
    requires
        forall|i: int| 0 <= i < file_ids.len() ==> find_file(files, #[trigger] file_ids[i]) is Some,
        forall|i: int|
            0 <= i < folder_ids.len() ==> find_folder(folders, #[trigger] folder_ids[i]) is Some,
    ensures
        files_of(files, file_ids).len() == file_ids.len(),
        forall|i: int|
            0 <= i < file_ids.len() ==> #[trigger] files_of(files, file_ids)[i] == ItemModel::File(
                files[find_file(files, file_ids[i])->0],
            ),
        folders_of(folders, folder_ids).len() == folder_ids.len(),
        forall|i: int|
            0 <= i < folder_ids.len() ==> #[trigger] folders_of(folders, folder_ids)[i]
                == ItemModel::Folder(folders[find_folder(folders, folder_ids[i])->0]),
    decreases file_ids.len() + folder_ids.len(),
{
    if file_ids.len() > 0 {
        let rest = file_ids.drop_last();
        assert forall|i: int| 0 <= i < rest.len() implies find_file(files, #[trigger] rest[i]) is
            Some by {
            assert(rest[i] == file_ids[i]);
        }
        assert(find_file(files, file_ids[file_ids.len() - 1]) is Some);
        law_children_are_given_in_order(files, rest, folders, folder_ids);
        assert forall|i: int| 0 <= i < file_ids.len() implies #[trigger] files_of(
            files,
            file_ids,
        )[i] == ItemModel::File(files[find_file(files, file_ids[i])->0]) by {
            if i < rest.len() {
                assert(files_of(files, file_ids)[i] == files_of(files, rest)[i]);
                assert(rest[i] == file_ids[i]);
            }
        }
    } else if folder_ids.len() > 0 {
        let rest = folder_ids.drop_last();
        assert forall|i: int| 0 <= i < rest.len() implies find_folder(
            folders,
            #[trigger] rest[i],
        ) is Some by {
            assert(rest[i] == folder_ids[i]);
        }
        assert(find_folder(folders, folder_ids[folder_ids.len() - 1]) is Some);
        law_children_are_given_in_order(files, file_ids, folders, rest);
        assert forall|i: int| 0 <= i < folder_ids.len() implies #[trigger] folders_of(
            folders,
            folder_ids,
        )[i] == ItemModel::Folder(folders[find_folder(folders, folder_ids[i])->0]) by {
            if i < rest.len() {
                assert(folders_of(folders, folder_ids)[i] == folders_of(folders, rest)[i]);
                assert(rest[i] == folder_ids[i]);
            }
        }
    }
}

/// Each state falls into the bucket of its kind; what is missing counts as an error.
pub proof fn law_states_fall_into_their_buckets(f: FileStatus, d: DownloadStatus)
    ensures
        f.spec_bucket() == StatusBucket::Uninitialized <==> f is Uninitialized,
        f.spec_bucket() == StatusBucket::MetadataFetched <==> f is MetadataFetched,
        f.spec_bucket() == StatusBucket::Partial <==> f is Partial,
        f.spec_bucket() == StatusBucket::Completed <==> f is Completed,
        f.spec_bucket() == StatusBucket::Error <==> f is NotFound || f is Failed,
        d.spec_bucket() == StatusBucket::Uninitialized <==> d is Uninitialized,
        d.spec_bucket() == StatusBucket::MetadataFetched <==> d is MetadataFetched,
        d.spec_bucket() == StatusBucket::Partial <==> d is Partial,
        d.spec_bucket() == StatusBucket::Completed <==> d is Completed,
        d.spec_bucket() == StatusBucket::CompletedWithErrors <==> d is CompletedWithErrors,
        d.spec_bucket() == StatusBucket::Error <==> d is NotFound || d is Failed,
{
}

/// How many of some buckets are this one.
pub open spec fn how_many(buckets: Seq<StatusBucket>, b: StatusBucket) -> nat
    decreases buckets.len(),
{
    if buckets.len() == 0 {
        0
    } else if buckets[0] == b {
        how_many(buckets.drop_first(), b) + 1
    } else {
        how_many(buckets.drop_first(), b)
    }
}

proof fn lemma_how_many_push(buckets: Seq<StatusBucket>, last: StatusBucket, b: StatusBucket)
    ensures
        how_many(buckets.push(last), b) == how_many(buckets, b) + if last == b {
            1nat
        } else {
            0nat
        },
    decreases buckets.len(),
{
    let longer = buckets.push(last);
    if buckets.len() > 0 {
        assert(longer.drop_first() =~= buckets.drop_first().push(last));
        lemma_how_many_push(buckets.drop_first(), last, b);
    } else {
        assert(longer.drop_first() =~= Seq::<StatusBucket>::empty());
        assert(how_many(longer.drop_first(), b) == 0);
    }
}

/// A folder counts its children by their buckets.
pub proof fn law_children_are_counted(buckets: Seq<StatusBucket>, b: StatusBucket)
    requires
        buckets.len() <= usize::MAX,
    ensures
        counters_of(buckets)[b.index()] == how_many(buckets, b),
        counters_of(buckets).len() == 6,
    decreases buckets.len(),
{
    if buckets.len() > 0 {
        let rest = buckets.drop_last();
        law_children_are_counted(rest, b);
        crate::download::building::lemma_counters_bound(rest, b);
        crate::download::building::lemma_counters_bound(rest, buckets.last());
        assert(buckets =~= rest.push(buckets.last()));
        lemma_how_many_push(rest, buckets.last(), b);
    }
}

/// A folder that is put into a table is found there by its number, as it is, and the others
/// stay; it takes the place of one with its number, or the last.
pub proof fn law_folders_are_found_where_they_were_put(
    folders: Seq<FolderModel>,
    folder: FolderModel,
    other: FolderId,
)
    requires
        unique_folders(folders),
    ensures
        ({
            let after = with_folder(folders, folder);
            &&& find_folder(after, folder.id) matches Some(i) && after[i] == folder
            &&& other != folder.id ==> find_folder(after, other) == find_folder(folders, other)
            &&& other != folder.id ==> (find_folder(folders, other) matches Some(i) ==> after[i]
                == folders[i])
            &&& after.len() == folders.len() + if find_folder(folders, folder.id) is Some {
                0int
            } else {
                1int
            }
        }),
{
    let after = with_folder(folders, folder);
    let at: int = match find_folder(folders, folder.id) {
        Some(i) => i,
        None => folders.len() as int,
    };
    if find_folder(folders, folder.id) is Some {
        crate::download::tree_laws::lemma_found_folder(folders, folder.id);
    }
    assert(after[at] == folder);
    let found = find_folder(after, folder.id)->0;
    assert(after[found].id == folder.id);
    if found != at {
        assert(folders[found].id == folder.id);
        if find_folder(folders, folder.id) is Some {
            assert(folders[at].id == folders[found].id);
        }
    }
    if other != folder.id {
        if find_folder(folders, other) is Some {
            crate::download::tree_laws::lemma_found_folder(folders, other);
            let i = find_folder(folders, other)->0;
            assert(after[i] == folders[i]);
            let j = find_folder(after, other)->0;
            assert(after[j].id == other);
            assert(folders[j].id == folders[i].id);
        } else if find_folder(after, other) is Some {
            crate::download::tree_laws::lemma_found_folder(after, other);
            let j = find_folder(after, other)->0;
            assert(folders[j].id == other);
        }
    }
}

/// A folder whose children all come to be missing is not found if its own folder is gone from
/// disk, and else its files are missing.
pub proof fn law_folders_are_missing_if_they_are_gone(
    files: Seq<FileModel>,
    folders: Seq<FolderModel>,
    i: int,
    from: StatusBucket,
    to: StatusBucket,
    gone: Seq<FolderId>,
)
    requires
        0 <= i < folders.len(),
        ({
            let counted = FolderModel {
                counters: moved(folders[i].counters, from, to),
                ..folders[i]
            };
            &&& child_count(counted) > 0
            &&& in_bucket(counted, StatusBucket::Error) == child_count(counted)
            &&& counts_add_up(counted)
            &&& all_went_wrong_by(
                counted,
                files,
                folders.update(i, counted),
                ChildError::Missing,
            )
        }),
    ensures
        status_step(files, folders, i, from, to, gone).folders[i].status == if gone.contains(
            folders[i].id,
        ) {
            DownloadStatus::NotFound
        } else {
            DownloadStatus::Failed(DownloadFailureReason::FilesMissingFromDisk)
        },
{
    reveal(status_step);
    let counted = FolderModel { counters: moved(folders[i].counters, from, to), ..folders[i] };
    let around = folders.update(i, counted);
    assert forall|k: int| 0 <= k < counted.child_files.len() implies fault_of_file(
        files,
        #[trigger] counted.child_files[k],
    ) is Some by {
        assert(fault_of_file(files, counted.child_files[k]) == Some(ChildError::Missing));
    }
    assert forall|k: int| 0 <= k < counted.child_folders.len() implies fault_of_folder(
        around,
        #[trigger] counted.child_folders[k],
    ) is Some by {
        assert(fault_of_folder(around, counted.child_folders[k]) == Some(ChildError::Missing));
    }
    law_folders_fail_as_their_children_did(
        counted,
        files,
        around,
        gone.contains(folders[i].id),
    );
}

} // verus!
