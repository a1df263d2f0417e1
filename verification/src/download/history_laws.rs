//! What holds of a download whatever was done to it since it was made.

use vstd::prelude::*;
#[allow(unused_imports)]
use crate::download::building::{
    files_below, folder_of, folders_below, folders_waiting, grow, lemma_waiting_concat,
    lemma_walk_counts, new_download, place_of, walk, walk_waiting, Waiting,
};
#[allow(unused_imports)]
use crate::download::completion_laws::{
    all_files_complete, apt, complete_below, filled, inside, law_download_completes_with_its_files,
    law_downloads_stay_sound, law_folder_completes_with_its_files, law_new_download_is_sound,
    lemma_inside_same, lemma_set_file_status_keeps_apt, lies_below, none_empty, sound,
};
#[allow(unused_imports)]
use crate::download::folder_status::child_count;
#[allow(unused_imports)]
use crate::download::hosts::tasks::{DownloadTask, TaskType};
#[allow(unused_imports)]
use crate::download::items::{FileId, FolderId, ItemId};
#[allow(unused_imports)]
use crate::download::pausing::{
    folder_paused, is_file, is_folder, law_set_paused_reaches_every_file, root_paused,
    spec_set_paused,
};
#[allow(unused_imports)]
use crate::download::pausing_laws::{
    in_step, law_set_paused_reaches_every_folder, law_set_paused_stays_in_step,
    law_set_paused_tells_every_change, lemma_pauses_keep_links,
};
#[allow(unused_imports)]
use crate::download::status::FileStatus;
#[allow(unused_imports)]
use crate::download::tables::{find_file, find_folder, unique_files, unique_folders};
#[allow(unused_imports)]
use crate::download::tree::{root_status, spec_set_file_status, DownloadModel};
#[allow(unused_imports)]
use crate::download::tree_laws::{
    law_set_file_status_sets_one_file, lemma_find_file_same, lemma_find_folder_same,
    lemma_found_file, lemma_found_folder, lemma_same_tree, linked,
};
#[allow(unused_imports)]
use crate::utils::file_utils::TargetOs;

verus! {

/// Something that is done to a download.
pub enum Change {
    /// A file gets a state, while some folders are gone from disk.
    State { id: FileId, status: FileStatus, gone: Seq<FolderId> },
    /// All of it is paused, or taken up.
    Pause(bool),
}

/// What a change makes of a download.
pub open spec fn after_change(d: DownloadModel, change: Change) -> DownloadModel {
    match change {
        Change::State { id, status, gone } => spec_set_file_status(d, id, status, gone).0,
        Change::Pause(is_paused) => spec_set_paused(d, is_paused).0,
    }
}

/// What changes, one after the other, make of a download.
pub open spec fn after_changes(d: DownloadModel, changes: Seq<Change>) -> DownloadModel
    decreases changes.len(),
{
    if changes.len() == 0 {
        d
    } else {
        after_change(after_changes(d, changes.drop_last()), changes.last())
    }
}

/// Whether a download is sound, its folders are in step with what lies in them, and it is
/// paused exactly if its root is.
pub open spec fn orderly(d: DownloadModel) -> bool {
    &&& sound(d)
    &&& in_step(d)
    &&& root_paused(d) == Some(d.is_paused)
}

/// A sound download is sound after it was paused or taken up.
pub proof fn law_paused_downloads_stay_sound(d: DownloadModel, is_paused: bool)
    requires
        sound(d),
    ensures
        sound(spec_set_paused(d, is_paused).0),
        none_empty(d.folders) ==> none_empty(spec_set_paused(d, is_paused).0.folders),
{
    let after = spec_set_paused(d, is_paused).0;
    law_set_paused_tells_every_change(d, is_paused);
    lemma_pauses_keep_links(d.files, d.folders, after.files, after.folders);
    assert(unique_folders(d.folders)) by {
        reveal(linked);
    }
    assert(forall|i: int|
        0 <= i < d.folders.len() ==> (#[trigger] d.folders[i]).id == (
        #[trigger] after.folders[i]).id && d.folders[i].parent_id == after.folders[i].parent_id);
    lemma_same_tree(d, after);
    assert forall|i: int| 0 <= i < after.folders.len() implies child_count(
        #[trigger] after.folders[i],
    ) <= usize::MAX && apt(after.folders[i]) by {
        assert(apt(d.folders[i]));
        assert(child_count(d.folders[i]) <= usize::MAX);
    }
    match d.root_item {
        ItemId::Folder(r) => {
            assert forall|k: int| 0 <= k < after.files.len() implies lies_below(
                #[trigger] after.files[k],
                r,
                after.folders,
            ) by {
                assert(lies_below(d.files[k], r, d.folders));
                lemma_inside_same(d.folders, after.folders, d.files[k].parent_id->0, r);
            }
            assert forall|i: int| 0 <= i < after.folders.len() implies inside(
                (#[trigger] after.folders[i]).id,
                r,
                after.folders,
            ) by {
                assert(inside(d.folders[i].id, r, d.folders));
                lemma_inside_same(d.folders, after.folders, d.folders[i].id, r);
            }
            lemma_found_folder(d.folders, r);
            let i = find_folder(d.folders, r)->0;
            assert(after.folders[i].status == d.folders[i].status);
        },
        ItemId::File(r) => {
            lemma_found_file(d.files, r);
            assert(after.files[0].status == d.files[0].status);
        },
    }
    if none_empty(d.folders) {
        assert forall|i: int| 0 <= i < after.folders.len() implies child_count(
            #[trigger] after.folders[i],
        ) > 0 by {
            assert(child_count(d.folders[i]) > 0);
        }
    }
}

/// Where nothing was paused or taken up, a folder is paused by what lies in it as before.
proof fn lemma_same_pause(d: DownloadModel, after: DownloadModel, i: int)
    requires
        0 <= i < d.folders.len(),
        after.files.len() == d.files.len(),
        after.folders.len() == d.folders.len(),
        forall|x: FileId| #[trigger] find_file(after.files, x) == find_file(d.files, x),
        forall|x: FolderId| #[trigger] find_folder(after.folders, x) == find_folder(d.folders, x),
        forall|k: int|
            0 <= k < d.files.len() ==> (#[trigger] after.files[k]).is_paused
                == d.files[k].is_paused,
        forall|k: int|
            0 <= k < d.folders.len() ==> (#[trigger] after.folders[k]).is_paused
                == d.folders[k].is_paused,
        after.folders[i].child_files == d.folders[i].child_files,
        after.folders[i].child_folders == d.folders[i].child_folders,
    ensures
        folder_paused(after.folders[i], after.files, after.folders) == folder_paused(
            d.folders[i],
            d.files,
            d.folders,
        ),
{
    let f = d.folders[i];
    assert forall|c: int| 0 <= c < f.child_files.len() implies is_file(
        after.files,
        #[trigger] f.child_files[c],
    ) == is_file(d.files, f.child_files[c]) && (is_file(d.files, f.child_files[c])
        ==> after.files[find_file(after.files, f.child_files[c])->0].is_paused
        == d.files[find_file(d.files, f.child_files[c])->0].is_paused) by {
        if is_file(d.files, f.child_files[c]) {
            lemma_found_file(d.files, f.child_files[c]);
        }
    }
    assert forall|c: int| 0 <= c < f.child_folders.len() implies is_folder(
        after.folders,
        #[trigger] f.child_folders[c],
    ) == is_folder(d.folders, f.child_folders[c]) && (is_folder(d.folders, f.child_folders[c])
        ==> after.folders[find_folder(after.folders, f.child_folders[c])->0].is_paused
        == d.folders[find_folder(d.folders, f.child_folders[c])->0].is_paused) by {
        if is_folder(d.folders, f.child_folders[c]) {
            lemma_found_folder(d.folders, f.child_folders[c]);
        }
    }
}

/// Giving a file a state pauses nothing and takes up nothing.
pub proof fn law_states_leave_pauses(
    d: DownloadModel,
    id: FileId,
    status: FileStatus,
    gone: Seq<FolderId>,
)
    requires
        sound(d),
    ensures
        ({
            let after = spec_set_file_status(d, id, status, gone).0;
            &&& after.is_paused == d.is_paused
            &&& root_paused(after) == root_paused(d)
            &&& after.files.len() == d.files.len()
            &&& after.folders.len() == d.folders.len()
            &&& forall|k: int|
                0 <= k < d.files.len() ==> (#[trigger] after.files[k]).is_paused
                    == d.files[k].is_paused
            &&& forall|i: int|
                0 <= i < d.folders.len() ==> (#[trigger] after.folders[i]).is_paused
                    == d.folders[i].is_paused
            &&& in_step(d) ==> in_step(after)
        }),
{
    let after = spec_set_file_status(d, id, status, gone).0;
    assert(unique_files(d.files) && unique_folders(d.folders) && forall|i: int|
        0 <= i < d.folders.len() ==> (#[trigger] d.folders[i]).counters.len() == 6) by {
        reveal(linked);
    }
    law_downloads_stay_sound(d, id, status, gone);
    law_set_file_status_sets_one_file(d, id, status, gone);
    lemma_set_file_status_keeps_apt(d, id, status, gone);
    assert(forall|i: int|
        0 <= i < d.files.len() ==> (#[trigger] d.files[i]).id == (#[trigger] after.files[i]).id);
    assert(forall|i: int|
        0 <= i < d.folders.len() ==> (#[trigger] d.folders[i]).id == (
        #[trigger] after.folders[i]).id);
    assert forall|x: FileId| #[trigger] find_file(after.files, x) == find_file(d.files, x) by {
        lemma_find_file_same(d.files, after.files, x);
    }
    assert forall|x: FolderId| #[trigger] find_folder(after.folders, x) == find_folder(
        d.folders,
        x,
    ) by {
        lemma_find_folder_same(d.folders, after.folders, x);
    }
    match d.root_item {
        ItemId::Folder(r) => {
            lemma_found_folder(d.folders, r);
        },
        ItemId::File(r) => {
            lemma_found_file(d.files, r);
        },
    }
    if in_step(d) {
        assert forall|i: int| 0 <= i < after.folders.len() implies (
        #[trigger] after.folders[i]).is_paused == folder_paused(
            after.folders[i],
            after.files,
            after.folders,
        ) by {
            assert(d.folders[i].is_paused == folder_paused(d.folders[i], d.files, d.folders));
            lemma_same_pause(d, after, i);
        }
    }
}

proof fn lemma_walk_unpaused(
    target: TargetOs,
    path: Seq<Seq<u8>>,
    id: FolderId,
    entries: Seq<TaskType>,
    next_file: nat,
    next_folder: nat,
)
    ensures
        ({
            let w = walk(target, path, id, entries, next_file, next_folder);
            forall|k: int| 0 <= k < w.files.len() ==> !(#[trigger] w.files[k]).is_paused
        }),
    decreases entries.len(),
{
    if entries.len() > 0 {
        lemma_walk_unpaused(target, path, id, entries.drop_last(), next_file, next_folder);
        let before = walk(target, path, id, entries.drop_last(), next_file, next_folder);
        let w = walk(target, path, id, entries, next_file, next_folder);
        assert forall|k: int| 0 <= k < w.files.len() implies !(
        #[trigger] w.files[k]).is_paused by {
            if k < before.files.len() {
                assert(w.files[k] == before.files[k]);
            }
        }
    }
}

proof fn lemma_grow_unpaused(
    target: TargetOs,
    stack: Seq<Waiting>,
    next_file: nat,
    next_folder: nat,
)
    ensures
        ({
            let (files, folders) = grow(target, stack, next_file, next_folder);
            &&& forall|k: int| 0 <= k < files.len() ==> !(#[trigger] files[k]).is_paused
            &&& forall|i: int| 0 <= i < folders.len() ==> !(#[trigger] folders[i]).is_paused
        }),
    decreases folders_waiting(stack),
{
    if stack.len() > 0 {
        let top = stack.last();
        let path = place_of(target, top);
        let w = walk_waiting(target, top, next_file, next_folder);
        lemma_walk_counts(target, path, top.id, top.task.files@, next_file, next_folder);
        lemma_waiting_concat(stack.drop_last(), w.waiting);
        lemma_walk_unpaused(target, path, top.id, top.task.files@, next_file, next_folder);
        let more = stack.drop_last() + w.waiting;
        let file = next_file + w.files.len();
        let folder = next_folder + w.child_folders.len();
        lemma_grow_unpaused(target, more, file, folder);
        let rest = grow(target, more, file, folder);
        let (files, folders) = grow(target, stack, next_file, next_folder);
        assert(files == w.files + rest.0);
        assert(folders == seq![folder_of(target, top, w)] + rest.1);
    }
}

/// A new download is orderly.
pub proof fn law_new_download_is_orderly(
    target: TargetOs,
    id: usize,
    task: DownloadTask,
    save_path: Seq<Seq<u8>>,
)
    requires
        task.task_type matches TaskType::Folder(folder) ==> files_below(folder) <= usize::MAX
            && folders_below(folder) < usize::MAX,
    ensures
        orderly(new_download(target, id, task, save_path)),
{
    let d = new_download(target, id, task, save_path);
    law_new_download_is_sound(target, id, task, save_path);
    match task.task_type {
        TaskType::File(_) => {
            lemma_found_file(d.files, FileId(0));
        },
        TaskType::Folder(folder) => {
            let root = Waiting { task: folder, path: save_path, parent_id: None, id: FolderId(0) };
            lemma_grow_unpaused(target, seq![root], 0, 1);
            let grown = grow(target, seq![root], 0, 1).1;
            assert forall|i: int| 0 <= i < d.folders.len() implies !(
            #[trigger] d.folders[i]).is_paused by {
                assert(d.folders[i] == grown[grown.len() - 1 - i]);
            }
            assert forall|i: int| 0 <= i < d.folders.len() implies (
            #[trigger] d.folders[i]).is_paused == folder_paused(
                d.folders[i],
                d.files,
                d.folders,
            ) by {
                let f = d.folders[i];
                if folder_paused(f, d.files, d.folders) {
                    if exists|c: int|
                        0 <= c < f.child_files.len() && is_file(
                            d.files,
                            #[trigger] f.child_files[c],
                        ) {
                        let c = choose|c: int|
                            0 <= c < f.child_files.len() && is_file(
                                d.files,
                                #[trigger] f.child_files[c],
                            );
                        lemma_found_file(d.files, f.child_files[c]);
                    } else {
                        let c = choose|c: int|
                            0 <= c < f.child_folders.len() && is_folder(
                                d.folders,
                                #[trigger] f.child_folders[c],
                            );
                        lemma_found_folder(d.folders, f.child_folders[c]);
                    }
                }
            }
            lemma_found_folder(d.folders, FolderId(0));
        },
    }
}

/// A change leaves an orderly download orderly, and its folders as full as they were.
pub proof fn law_changes_keep_order(d: DownloadModel, change: Change)
    requires
        orderly(d),
    ensures
        orderly(after_change(d, change)),
        none_empty(d.folders) ==> none_empty(after_change(d, change).folders),
{
    match change {
        Change::State { id, status, gone } => {
            law_downloads_stay_sound(d, id, status, gone);
            law_states_leave_pauses(d, id, status, gone);
        },
        Change::Pause(is_paused) => {
            law_paused_downloads_stay_sound(d, is_paused);
            law_set_paused_stays_in_step(d, is_paused);
            law_set_paused_tells_every_change(d, is_paused);
            let after = spec_set_paused(d, is_paused).0;
            lemma_pauses_keep_links(d.files, d.folders, after.files, after.folders);
            assert(root_paused(after).is_some());
        },
    }
}

proof fn lemma_history_keeps_order(d: DownloadModel, changes: Seq<Change>)
    requires
        orderly(d),
    ensures
        orderly(after_changes(d, changes)),
        none_empty(d.folders) ==> none_empty(after_changes(d, changes).folders),
    decreases changes.len(),
{
    if changes.len() > 0 {
        lemma_history_keeps_order(d, changes.drop_last());
        law_changes_keep_order(after_changes(d, changes.drop_last()), changes.last());
    }
}

proof fn lemma_made_without_empty_folders(
    target: TargetOs,
    id: usize,
    task: DownloadTask,
    save_path: Seq<Seq<u8>>,
    changes: Seq<Change>,
)
    requires
        task.task_type matches TaskType::Folder(folder) ==> files_below(folder) <= usize::MAX
            && folders_below(folder) < usize::MAX && filled(folder),
    ensures
        ({
            let d = after_changes(new_download(target, id, task, save_path), changes);
            orderly(d) && none_empty(d.folders)
        }),
{
    let fresh = new_download(target, id, task, save_path);
    law_new_download_is_orderly(target, id, task, save_path);
    law_new_download_is_sound(target, id, task, save_path);
    lemma_history_keeps_order(fresh, changes);
}

/// Whatever was done to it, a download that was made from a task without empty folders is
/// in the state of its root, is complete exactly if every file of it is, and a folder of it
/// is complete exactly if every file below that one is.
pub proof fn law_download_completes_as_a_whole(
    target: TargetOs,
    id: usize,
    task: DownloadTask,
    save_path: Seq<Seq<u8>>,
    changes: Seq<Change>,
)
    requires
        task.task_type matches TaskType::Folder(folder) ==> files_below(folder) <= usize::MAX
            && folders_below(folder) < usize::MAX && filled(folder),
    ensures
        ({
            let d = after_changes(new_download(target, id, task, save_path), changes);
            &&& root_status(d) == Some(d.status)
            &&& d.status is Completed <==> all_files_complete(d)
            &&& forall|i: int|
                0 <= i < d.folders.len() ==> ((#[trigger] d.folders[i]).status is Completed
                    <==> complete_below(d, d.folders[i].id))
        }),
{
    lemma_made_without_empty_folders(target, id, task, save_path, changes);
    let d = after_changes(new_download(target, id, task, save_path), changes);
    law_download_completes_with_its_files(d);
    assert forall|i: int| 0 <= i < d.folders.len() implies ((#[trigger] d.folders[i]).status
        is Completed <==> complete_below(d, d.folders[i].id)) by {
        law_folder_completes_with_its_files(d, i);
    }
}

/// Whatever was done to it before, pausing a download that was made from a task without
/// empty folders pauses every file and folder of it, and itself, and so does taking it up.
pub proof fn law_download_pauses_as_a_whole(
    target: TargetOs,
    id: usize,
    task: DownloadTask,
    save_path: Seq<Seq<u8>>,
    changes: Seq<Change>,
    is_paused: bool,
)
    requires
        task.task_type matches TaskType::Folder(folder) ==> files_below(folder) <= usize::MAX
            && folders_below(folder) < usize::MAX && filled(folder),
    ensures
        ({
            let d = after_changes(new_download(target, id, task, save_path), changes);
            let after = spec_set_paused(d, is_paused).0;
            &&& forall|k: int|
                0 <= k < after.files.len() ==> (#[trigger] after.files[k]).is_paused == is_paused
            &&& forall|i: int|
                0 <= i < after.folders.len() ==> (#[trigger] after.folders[i]).is_paused
                    == is_paused
            &&& after.is_paused == is_paused
            &&& root_paused(after) == Some(is_paused)
        }),
{
    lemma_made_without_empty_folders(target, id, task, save_path, changes);
    let d = after_changes(new_download(target, id, task, save_path), changes);
    law_set_paused_reaches_every_file(d, is_paused);
    law_set_paused_reaches_every_folder(d, is_paused);
    law_changes_keep_order(d, Change::Pause(is_paused));
}

} // verus!
