//! When a whole download is complete.

use vstd::prelude::*;
#[allow(unused_imports)]
use crate::download::building::{
    files_below, folder_of, folders_below, folders_waiting, grow, has_folder, lemma_root_grows,
    lemma_waiting_concat, lemma_walk_counts, new_download, place_of, waits, walk, walk_waiting,
    Waiting,
};
#[allow(unused_imports)]
use crate::download::folder_status::{
    child_count, derived_status, dominant, in_bucket, law_folder_completes_with_all_children,
};
#[allow(unused_imports)]
use crate::download::hosts::tasks::{DownloadTask, FolderTask, TaskType};
#[allow(unused_imports)]
use crate::download::items::{FileId, FileModel, FolderId, FolderModel, ItemId};
#[allow(unused_imports)]
use crate::download::status::{FileStatus, StatusBucket};
#[allow(unused_imports)]
use crate::download::tables::{find_file, find_folder, unique_files, unique_folders};
#[allow(unused_imports)]
use crate::download::tree::{
    countable, raise_status, root_status, spec_set_file_status, status_step, DownloadModel,
};
#[allow(unused_imports)]
use crate::download::tree_laws::{
    count_files, count_folders, counted, following, follows, law_counters_add_up,
    law_counters_stay_right, law_download_follows_root, law_new_download_is_in_order,
    law_set_file_status_sets_one_file, lemma_find_file, lemma_find_folder, lemma_find_folder_same,
    lemma_found_file, lemma_found_folder, lemma_linked_folder, lemma_lists_file, lemma_lists_folder,
    linked, same_links, tally, tree_ok,
};
#[allow(unused_imports)]
use crate::utils::file_utils::TargetOs;

verus! {

/// Whether a folder is another one or lies below it, at any depth.
pub open spec fn inside(at: FolderId, id: FolderId, folders: Seq<FolderModel>) -> bool
    decreases at.0,
{
    at == id || match find_folder(folders, at) {
        Some(i) => match folders[i].parent_id {
            Some(p) => p.0 < at.0 && inside(p, id, folders),
            None => false,
        },
        None => false,
    }
}

/// Whether a file lies below a folder, at any depth.
pub open spec fn lies_below(f: FileModel, id: FolderId, folders: Seq<FolderModel>) -> bool {
    match f.parent_id {
        Some(p) => inside(p, id, folders),
        None => false,
    }
}

/// Whether every file below a folder is complete.
pub open spec fn complete_below(d: DownloadModel, id: FolderId) -> bool {
    forall|k: int|
        0 <= k < d.files.len() && lies_below(#[trigger] d.files[k], id, d.folders)
            ==> d.files[k].status is Completed
}

/// Whether every file is complete.
pub open spec fn all_files_complete(d: DownloadModel) -> bool {
    forall|k: int| 0 <= k < d.files.len() ==> (#[trigger] d.files[k]).status is Completed
}

/// Whether every folder holds something.
pub open spec fn none_empty(folders: Seq<FolderModel>) -> bool {
    forall|i: int| 0 <= i < folders.len() ==> child_count(#[trigger] folders[i]) > 0
}

/// Whether a folder's counters say that it is complete.
pub open spec fn counted_complete(f: FolderModel) -> bool {
    match dominant(f) {
        Some(b) => b == StatusBucket::Completed,
        None => child_count(f) == 0,
    }
}

/// Whether a folder with children is complete exactly if its counters say so.
pub open spec fn apt(f: FolderModel) -> bool {
    child_count(f) > 0 ==> (f.status is Completed <==> counted_complete(f))
}

/// Whether every item of a download lies below its root, or is the root.
pub open spec fn rooted(d: DownloadModel) -> bool {
    match d.root_item {
        ItemId::Folder(id) => {
            &&& find_folder(d.folders, id).is_some()
            &&& forall|k: int|
                0 <= k < d.files.len() ==> lies_below(#[trigger] d.files[k], id, d.folders)
            &&& forall|i: int|
                0 <= i < d.folders.len() ==> inside((#[trigger] d.folders[i]).id, id, d.folders)
        },
        ItemId::File(id) => d.files.len() == 1 && d.files[0].id == id && d.folders.len() == 0,
    }
}

/// Whether a download is sound: it is in order, all of it lies below its root, its folders
/// are complete exactly if they count so, and it is in the state of its root.
pub open spec fn sound(d: DownloadModel) -> bool {
    &&& tree_ok(d)
    &&& countable(d.folders)
    &&& rooted(d)
    &&& forall|i: int| 0 <= i < d.folders.len() ==> apt(#[trigger] d.folders[i])
    &&& root_status(d) == Some(d.status)
}

proof fn lemma_all_files_counted(ids: Seq<FileId>, files: Seq<FileModel>)
    requires
        forall|j: int| 0 <= j < ids.len() ==> find_file(files, #[trigger] ids[j]).is_some(),
    ensures
        count_files(ids, files, StatusBucket::Completed) <= ids.len(),
        count_files(ids, files, StatusBucket::Completed) == ids.len() <==> forall|j: int|
            0 <= j < ids.len() ==> files[find_file(files, #[trigger] ids[j])->0].status
                is Completed,
    decreases ids.len(),
{
    if ids.len() > 0 {
        let fewer = ids.drop_last();
        let n = ids.len() - 1;
        assert(ids[n] == ids.last());
        assert forall|j: int| 0 <= j < fewer.len() implies find_file(
            files,
            #[trigger] fewer[j],
        ).is_some() by {
            assert(fewer[j] == ids[j]);
        }
        lemma_all_files_counted(fewer, files);
        if forall|j: int|
            0 <= j < fewer.len() ==> files[find_file(files, #[trigger] fewer[j])->0].status
                is Completed {
            assert forall|j: int| 0 <= j < n implies files[find_file(
                files,
                #[trigger] ids[j],
            )->0].status is Completed by {
                assert(fewer[j] == ids[j]);
            }
        } else {
            let j = choose|j: int|
                0 <= j < fewer.len() && !(files[find_file(files, #[trigger] fewer[j])->0].status
                    is Completed);
            assert(ids[j] == fewer[j]);
        }
    }
}

proof fn lemma_all_folders_counted(ids: Seq<FolderId>, folders: Seq<FolderModel>)
    requires
        forall|j: int| 0 <= j < ids.len() ==> find_folder(folders, #[trigger] ids[j]).is_some(),
    ensures
        count_folders(ids, folders, StatusBucket::Completed) <= ids.len(),
        count_folders(ids, folders, StatusBucket::Completed) == ids.len() <==> forall|j: int|
            0 <= j < ids.len() ==> folders[find_folder(folders, #[trigger] ids[j])->0].status
                is Completed,
    decreases ids.len(),
{
    if ids.len() > 0 {
        let fewer = ids.drop_last();
        let n = ids.len() - 1;
        assert(ids[n] == ids.last());
        assert forall|j: int| 0 <= j < fewer.len() implies find_folder(
            folders,
            #[trigger] fewer[j],
        ).is_some() by {
            assert(fewer[j] == ids[j]);
        }
        lemma_all_folders_counted(fewer, folders);
        if forall|j: int|
            0 <= j < fewer.len() ==> folders[find_folder(folders, #[trigger] fewer[j])->0].status
                is Completed {
            assert forall|j: int| 0 <= j < n implies folders[find_folder(
                folders,
                #[trigger] ids[j],
            )->0].status is Completed by {
                assert(fewer[j] == ids[j]);
            }
        } else {
            let j = choose|j: int|
                0 <= j < fewer.len() && !(folders[find_folder(
                    folders,
                    #[trigger] fewer[j],
                )->0].status is Completed);
            assert(ids[j] == fewer[j]);
        }
    }
}

/// A folder with children is complete exactly if each of them is.
proof fn lemma_folder_completes(d: DownloadModel, i: int)
    requires
        tree_ok(d),
        countable(d.folders),
        0 <= i < d.folders.len(),
        apt(d.folders[i]),
        child_count(d.folders[i]) > 0,
    ensures
        d.folders[i].status is Completed <==> {
            let f = d.folders[i];
            &&& forall|j: int|
                0 <= j < f.child_files.len() ==> d.files[find_file(
                    d.files,
                    #[trigger] f.child_files[j],
                )->0].status is Completed
            &&& forall|j: int|
                0 <= j < f.child_folders.len() ==> d.folders[find_folder(
                    d.folders,
                    #[trigger] f.child_folders[j],
                )->0].status is Completed
        },
{
    let f = d.folders[i];
    lemma_linked_folder(d.files, d.folders, i);
    lemma_all_files_counted(f.child_files, d.files);
    lemma_all_folders_counted(f.child_folders, d.folders);
    law_counters_add_up(d, i);
    law_folder_completes_with_all_children(f, d.files, d.folders, false);
    assert(counted_complete(f) <==> derived_status(f, d.files, d.folders, false) is Completed);
    assert(counted(f, d.files, d.folders));
    assert(in_bucket(f, StatusBucket::Completed) == tally(
        f,
        d.files,
        d.folders,
        StatusBucket::Completed,
    ));
}

/// What lies below a folder, but not at it, lies below one of the folders in it.
proof fn lemma_inside_child(
    files: Seq<FileModel>,
    folders: Seq<FolderModel>,
    at: FolderId,
    id: FolderId,
) -> (k: int)
    requires
        linked(files, folders),
        inside(at, id, folders),
        at != id,
    ensures
        0 <= k < folders.len(),
        folders[k].parent_id == Some(id),
        inside(at, folders[k].id, folders),
    decreases at.0,
{
    lemma_found_folder(folders, at);
    let i = find_folder(folders, at)->0;
    let p = folders[i].parent_id->0;
    if p == id {
        i
    } else {
        lemma_inside_child(files, folders, p, id)
    }
}

/// What lies below a folder in another lies below that one.
proof fn lemma_inside_parent(
    files: Seq<FileModel>,
    folders: Seq<FolderModel>,
    at: FolderId,
    k: int,
)
    requires
        linked(files, folders),
        0 <= k < folders.len(),
        folders[k].parent_id.is_some(),
        inside(at, folders[k].id, folders),
    ensures
        inside(at, folders[k].parent_id->0, folders),
    decreases at.0,
{
    lemma_linked_folder(files, folders, k);
    lemma_find_folder(folders, k);
    let id = folders[k].parent_id->0;
    if at == folders[k].id {
        assert(inside(id, id, folders));
    } else {
        let i = find_folder(folders, at)->0;
        let p = folders[i].parent_id->0;
        lemma_inside_parent(files, folders, p, k);
    }
}

/// In a sound download without empty folders, a folder is complete exactly if every file
/// below it is.
pub proof fn law_folder_completes_with_its_files(d: DownloadModel, i: int)
    requires
        sound(d),
        none_empty(d.folders),
        0 <= i < d.folders.len(),
    ensures
        d.folders[i].status is Completed <==> complete_below(d, d.folders[i].id),
    decreases d.folders.len() - d.folders[i].id.0,
{
    let f = d.folders[i];
    lemma_linked_folder(d.files, d.folders, i);
    lemma_find_folder(d.folders, i);
    lemma_folder_completes(d, i);
    assert forall|j: int| 0 <= j < f.child_folders.len() implies ({
        let c = find_folder(d.folders, #[trigger] f.child_folders[j])->0;
        &&& 0 <= c < d.folders.len()
        &&& d.folders[c].parent_id == Some(f.id)
        &&& d.folders[c].status is Completed <==> complete_below(d, d.folders[c].id)
    }) by {
        let id = f.child_folders[j];
        assert(find_folder(d.folders, d.folders[i].child_folders[j]).is_some());
        lemma_found_folder(d.folders, id);
        let c = find_folder(d.folders, id)->0;
        assert(f.child_folders.contains(id));
        lemma_lists_folder(d.files, d.folders, i, c);
        lemma_linked_folder(d.files, d.folders, c);
        law_folder_completes_with_its_files(d, c);
    }
    if f.status is Completed {
        assert forall|k: int|
            0 <= k < d.files.len() && lies_below(
                #[trigger] d.files[k],
                f.id,
                d.folders,
            ) implies d.files[k].status is Completed by {
            let p = d.files[k].parent_id->0;
            lemma_find_file(d.files, k);
            if p == f.id {
                lemma_lists_file(d.files, d.folders, i, k);
                let j = choose|j: int|
                    0 <= j < f.child_files.len() && f.child_files[j] == d.files[k].id;
                assert(d.files[find_file(d.files, f.child_files[j])->0].status is Completed);
            } else {
                let c = lemma_inside_child(d.files, d.folders, p, f.id);
                lemma_lists_folder(d.files, d.folders, i, c);
                lemma_find_folder(d.folders, c);
                let j = choose|j: int|
                    0 <= j < f.child_folders.len() && f.child_folders[j] == d.folders[c].id;
                assert(d.folders[find_folder(d.folders, f.child_folders[j])->0].status
                    is Completed);
                assert(complete_below(d, d.folders[c].id));
                assert(lies_below(d.files[k], d.folders[c].id, d.folders));
            }
        }
    }
    if complete_below(d, f.id) {
        assert forall|j: int| 0 <= j < f.child_files.len() implies d.files[find_file(
            d.files,
            #[trigger] f.child_files[j],
        )->0].status is Completed by {
            let id = f.child_files[j];
            assert(find_file(d.files, d.folders[i].child_files[j]).is_some());
            lemma_found_file(d.files, id);
            let k = find_file(d.files, id)->0;
            assert(f.child_files.contains(id));
            lemma_lists_file(d.files, d.folders, i, k);
            assert(lies_below(d.files[k], f.id, d.folders));
        }
        assert forall|j: int| 0 <= j < f.child_folders.len() implies d.folders[find_folder(
            d.folders,
            #[trigger] f.child_folders[j],
        )->0].status is Completed by {
            let c = find_folder(d.folders, f.child_folders[j])->0;
            assert forall|k: int|
                0 <= k < d.files.len() && lies_below(
                    #[trigger] d.files[k],
                    d.folders[c].id,
                    d.folders,
                ) implies d.files[k].status is Completed by {
                lemma_inside_parent(d.files, d.folders, d.files[k].parent_id->0, c);
                assert(lies_below(d.files[k], f.id, d.folders));
            }
        }
    }
}

/// A sound download without empty folders is complete exactly if every file of it is.
pub proof fn law_download_completes_with_its_files(d: DownloadModel)
    requires
        sound(d),
        none_empty(d.folders),
    ensures
        d.status is Completed <==> all_files_complete(d),
{
    match d.root_item {
        ItemId::Folder(id) => {
            lemma_found_folder(d.folders, id);
            let i = find_folder(d.folders, id)->0;
            law_folder_completes_with_its_files(d, i);
            if all_files_complete(d) {
                assert(complete_below(d, id));
            }
            if complete_below(d, id) {
                assert forall|k: int| 0 <= k < d.files.len() implies (
                #[trigger] d.files[k]).status is Completed by {
                    assert(lies_below(d.files[k], id, d.folders));
                }
            }
        },
        ItemId::File(id) => {
            lemma_found_file(d.files, id);
        },
    }
}

/// A change of states leaves the folders as they hang together, and each complete exactly
/// if it counts so.
proof fn lemma_raise_keeps_apt(
    files: Seq<FileModel>,
    folders: Seq<FolderModel>,
    at: Option<FolderId>,
    from: StatusBucket,
    to: StatusBucket,
    gone: Seq<FolderId>,
    steps: nat,
)
    requires
        forall|i: int|
            0 <= i < folders.len() ==> apt(#[trigger] folders[i]) && folders[i].counters.len() == 6,
    ensures
        ({
            let raised = raise_status(files, folders, at, from, to, gone, steps).0;
            &&& same_links(folders, raised)
            &&& forall|i: int| 0 <= i < raised.len() ==> apt(#[trigger] raised[i])
        }),
    decreases steps,
{
    if steps == 0 || at.is_none() || find_folder(folders, at->0).is_none() {
    } else {
        lemma_found_folder(folders, at->0);
        let i = find_folder(folders, at->0)->0;
        let step = status_step(files, folders, i, from, to, gone);
        reveal(status_step);
        assert(same_links(folders, step.folders));
        assert forall|j: int| 0 <= j < step.folders.len() implies apt(
            #[trigger] step.folders[j],
        ) && step.folders[j].counters.len() == 6 by {
            if j != i {
                assert(step.folders[j] == folders[j]);
            }
        }
        if step.shows() {
            lemma_raise_keeps_apt(
                files,
                step.folders,
                step.parent,
                step.from,
                step.to,
                gone,
                (steps - 1) as nat,
            );
            let raised = raise_status(files, folders, at, from, to, gone, steps).0;
            assert forall|j: int|
                #![trigger folders[j]]
                #![trigger raised[j]]
                0 <= j < folders.len() implies raised[j].counters.len() == folders[j].counters.len()
                && raised[j] == (FolderModel {
                status: raised[j].status,
                counters: raised[j].counters,
                ..folders[j]
            }) by {
                assert(step.folders[j].counters.len() == folders[j].counters.len());
            }
        }
    }
}

/// Folders with the same numbers and parents lie below the same ones.
pub proof fn lemma_inside_same(
    a: Seq<FolderModel>,
    b: Seq<FolderModel>,
    at: FolderId,
    id: FolderId,
)
    requires
        a.len() == b.len(),
        forall|i: int|
            0 <= i < a.len() ==> (#[trigger] a[i]).id == (#[trigger] b[i]).id && a[i].parent_id
                == b[i].parent_id,
        unique_folders(a),
    ensures
        inside(at, id, a) == inside(at, id, b),
    decreases at.0,
{
    lemma_find_folder_same(a, b, at);
    if at != id && find_folder(a, at).is_some() {
        lemma_found_folder(a, at);
        let i = find_folder(a, at)->0;
        assert(a[i].parent_id == b[i].parent_id);
        if let Some(p) = a[i].parent_id {
            if p.0 < at.0 {
                lemma_inside_same(a, b, p, id);
            }
        }
    }
}

/// Giving a file a state leaves the folders as they hang together, and each complete
/// exactly if it counts so.
pub proof fn lemma_set_file_status_keeps_apt(
    d: DownloadModel,
    id: FileId,
    status: FileStatus,
    gone: Seq<FolderId>,
)
    requires
        forall|i: int|
            0 <= i < d.folders.len() ==> apt(#[trigger] d.folders[i])
                && d.folders[i].counters.len() == 6,
    ensures
        ({
            let after = spec_set_file_status(d, id, status, gone).0;
            &&& after.root_item == d.root_item
            &&& same_links(d.folders, after.folders)
            &&& forall|i: int| 0 <= i < after.folders.len() ==> apt(#[trigger] after.folders[i])
        }),
{
    if find_file(d.files, id).is_some() {
        let k = find_file(d.files, id)->0;
        let files = d.files.update(k, FileModel { status, ..d.files[k] });
        lemma_raise_keeps_apt(
            files,
            d.folders,
            d.files[k].parent_id,
            d.files[k].status.spec_bucket(),
            status.spec_bucket(),
            gone,
            d.folders.len(),
        );
    }
}

/// A sound download is sound after any file of it was given any state, whatever is on
/// disk.
pub proof fn law_downloads_stay_sound(
    d: DownloadModel,
    id: FileId,
    status: FileStatus,
    gone: Seq<FolderId>,
)
    requires
        sound(d),
    ensures
        sound(spec_set_file_status(d, id, status, gone).0),
        none_empty(d.folders) ==> none_empty(
            spec_set_file_status(d, id, status, gone).0.folders,
        ),
{
    let after = spec_set_file_status(d, id, status, gone).0;
    assert(unique_files(d.files) && unique_folders(d.folders) && forall|i: int|
        0 <= i < d.folders.len() ==> (#[trigger] d.folders[i]).counters.len() == 6) by {
        reveal(linked);
    }
    law_counters_stay_right(d, id, status, gone);
    law_download_follows_root(d, id, status, gone);
    law_set_file_status_sets_one_file(d, id, status, gone);
    lemma_set_file_status_keeps_apt(d, id, status, gone);
    match d.root_item {
        ItemId::Folder(r) => {
            assert(forall|i: int|
                0 <= i < d.folders.len() ==> (#[trigger] d.folders[i]).id == (
                #[trigger] after.folders[i]).id);
            lemma_find_folder_same(d.folders, after.folders, r);
            assert forall|k: int| 0 <= k < after.files.len() implies lies_below(
                #[trigger] after.files[k],
                r,
                after.folders,
            ) by {
                assert(lies_below(d.files[k], r, d.folders));
                assert(after.files[k].parent_id == d.files[k].parent_id);
                lemma_inside_same(d.folders, after.folders, d.files[k].parent_id->0, r);
            }
            assert forall|i: int| 0 <= i < after.folders.len() implies inside(
                (#[trigger] after.folders[i]).id,
                r,
                after.folders,
            ) by {
                assert(inside(d.folders[i].id, r, d.folders));
                lemma_inside_same(d.folders, after.folders, d.folders[i].id, r);
            }
            lemma_found_folder(after.folders, r);
        },
        ItemId::File(r) => {
            assert(unique_files(after.files)) by {
                reveal(linked);
            }
            lemma_find_file(after.files, 0);
        },
    }
    if none_empty(d.folders) {
        assert forall|i: int| 0 <= i < after.folders.len() implies child_count(
            #[trigger] after.folders[i],
        ) > 0 by {
            assert(child_count(d.folders[i]) > 0);
        }
    }
}

/// Whether a folder, and every folder in it at any depth, holds something.
pub open spec fn filled(t: FolderTask) -> bool
    decreases t,
{
    t.files@.len() > 0 && entries_filled(t.files@)
}

/// Whether every folder among these entries is filled.
pub open spec fn entries_filled(s: Seq<TaskType>) -> bool
    decreases s,
{
    s.len() == 0 || (entries_filled(s.drop_last()) && match s.last() {
        TaskType::File(_) => true,
        TaskType::Folder(f) => filled(f),
    })
}

/// The folders in a filled one are filled.
proof fn lemma_walk_filled(
    target: TargetOs,
    path: Seq<Seq<u8>>,
    id: FolderId,
    entries: Seq<TaskType>,
    next_file: nat,
    next_folder: nat,
)
    requires
        entries_filled(entries),
    ensures
        forall|i: int|
            0 <= i < walk(target, path, id, entries, next_file, next_folder).waiting.len()
                ==> filled(
                (#[trigger] walk(
                    target,
                    path,
                    id,
                    entries,
                    next_file,
                    next_folder,
                ).waiting[i]).task,
            ),
    decreases entries.len(),
{
    if entries.len() > 0 {
        lemma_walk_filled(target, path, id, entries.drop_last(), next_file, next_folder);
        let before = walk(target, path, id, entries.drop_last(), next_file, next_folder);
        let w = walk(target, path, id, entries, next_file, next_folder);
        assert forall|i: int| 0 <= i < w.waiting.len() implies filled(
            (#[trigger] w.waiting[i]).task,
        ) by {
            if i < before.waiting.len() {
                assert(w.waiting[i] == before.waiting[i]);
            }
        }
    }
}

/// Filled folders become folders that hold something.
proof fn lemma_grow_filled(
    target: TargetOs,
    stack: Seq<Waiting>,
    next_file: nat,
    next_folder: nat,
)
    requires
        forall|i: int| 0 <= i < stack.len() ==> filled((#[trigger] stack[i]).task),
    ensures
        none_empty(grow(target, stack, next_file, next_folder).1),
    decreases folders_waiting(stack),
{
    if stack.len() > 0 {
        let top = stack.last();
        let path = place_of(target, top);
        let w = walk_waiting(target, top, next_file, next_folder);
        lemma_walk_counts(target, path, top.id, top.task.files@, next_file, next_folder);
        lemma_waiting_concat(stack.drop_last(), w.waiting);
        assert(filled(stack[stack.len() - 1].task));
        lemma_walk_filled(target, path, top.id, top.task.files@, next_file, next_folder);
        let more = stack.drop_last() + w.waiting;
        assert forall|i: int| 0 <= i < more.len() implies filled((#[trigger] more[i]).task) by {
            if i < stack.len() - 1 {
                assert(more[i] == stack[i]);
            } else {
                assert(more[i] == w.waiting[i - (stack.len() - 1)]);
            }
        }
        lemma_grow_filled(
            target,
            more,
            next_file + w.files.len(),
            next_folder + w.child_folders.len(),
        );
        let rest = grow(
            target,
            more,
            next_file + w.files.len(),
            next_folder + w.child_folders.len(),
        ).1;
        let made = grow(target, stack, next_file, next_folder).1;
        assert(made == seq![folder_of(target, top, w)] + rest);
        assert forall|i: int| 0 <= i < made.len() implies child_count(#[trigger] made[i]) > 0 by {
            if i > 0 {
                assert(made[i] == rest[i - 1]);
            }
        }
    }
}

/// Where every folder but one lies in another, all lie below that one.
proof fn lemma_all_inside(folders: Seq<FolderModel>, root: FolderId, i: int)
    requires
        unique_folders(folders),
        0 <= i < folders.len(),
        forall|j: int|
            0 <= j < folders.len() ==> {
                let f = #[trigger] folders[j];
                match f.parent_id {
                    Some(p) => p.0 < f.id.0 && find_folder(folders, p).is_some(),
                    None => f.id == root,
                }
            },
    ensures
        inside(folders[i].id, root, folders),
    decreases folders[i].id.0,
{
    lemma_find_folder(folders, i);
    if let Some(p) = folders[i].parent_id {
        lemma_found_folder(folders, p);
        lemma_all_inside(folders, root, find_folder(folders, p)->0);
    }
}

/// What a root folder becomes lies below it.
proof fn lemma_new_folders_are_rooted(target: TargetOs, d: DownloadModel, root: Waiting)
    requires
        root.id == FolderId(0),
        root.parent_id.is_none(),
        files_below(root.task) <= usize::MAX,
        folders_below(root.task) < usize::MAX,
        unique_folders(d.folders),
        d.root_item == ItemId::Folder(FolderId(0)),
        d.files == grow(target, seq![root], 0, 1).0,
        d.folders == grow(target, seq![root], 0, 1).1.reverse(),
        find_folder(d.folders, FolderId(0)).is_some(),
    ensures
        rooted(d),
{
    let (files, grown) = grow(target, seq![root], 0, 1);
    let n = grown.len();
    lemma_root_grows(target, root);
    assert forall|i: int| 0 <= i < d.folders.len() implies #[trigger] d.folders[i] == grown[n - 1
        - i] by {}
    assert forall|p: FolderId| #[trigger] has_folder(grown, p) implies find_folder(
        d.folders,
        p,
    ).is_some() by {
        let k = choose|k: int| 0 <= k < n && (#[trigger] grown[k]).id == p;
        assert(d.folders[n - 1 - k].id == p);
        lemma_find_folder(d.folders, n - 1 - k);
    }
    assert forall|j: int| 0 <= j < d.folders.len() implies ({
        let f = #[trigger] d.folders[j];
        match f.parent_id {
            Some(p) => p.0 < f.id.0 && find_folder(d.folders, p).is_some(),
            None => f.id == FolderId(0),
        }
    }) by {
        let f = grown[n - 1 - j];
        assert(waits(seq![root], f.id, f.parent_id) ==> f.parent_id.is_none());
    }
    assert forall|i: int| 0 <= i < d.folders.len() implies inside(
        (#[trigger] d.folders[i]).id,
        FolderId(0),
        d.folders,
    ) by {
        lemma_all_inside(d.folders, FolderId(0), i);
    }
    assert forall|k: int| 0 <= k < d.files.len() implies lies_below(
        #[trigger] d.files[k],
        FolderId(0),
        d.folders,
    ) by {
        let p = files[k].parent_id->0;
        assert(has_folder(grown, p));
        lemma_found_folder(d.folders, p);
        assert(d.folders[find_folder(d.folders, p)->0].id == p);
    }
}

/// A folder in the state that follows from its children is complete exactly if it counts so.
proof fn lemma_following_is_apt(d: DownloadModel)
    requires
        following(d.files, d.folders, None, Seq::empty()),
    ensures
        forall|i: int| 0 <= i < d.folders.len() ==> apt(#[trigger] d.folders[i]),
{
    reveal(following);
    assert forall|i: int| 0 <= i < d.folders.len() implies apt(#[trigger] d.folders[i]) by {
        assert(follows(d.folders[i], d.files, d.folders, Seq::empty()));
    }
}

/// A new download is sound, and where no folder of its task is empty, none of its own is.
pub proof fn law_new_download_is_sound(
    target: TargetOs,
    id: usize,
    task: DownloadTask,
    save_path: Seq<Seq<u8>>,
)
    requires
        task.task_type matches TaskType::Folder(folder) ==> files_below(folder) <= usize::MAX
            && folders_below(folder) < usize::MAX,
    ensures
        sound(new_download(target, id, task, save_path)),
        (task.task_type matches TaskType::Folder(folder) ==> filled(folder)) ==> none_empty(
            new_download(target, id, task, save_path).folders,
        ),
{
    let d = new_download(target, id, task, save_path);
    law_new_download_is_in_order(target, id, task, save_path, Seq::empty());
    lemma_following_is_apt(d);
    if let TaskType::Folder(folder) = task.task_type {
        let root = Waiting { task: folder, path: save_path, parent_id: None, id: FolderId(0) };
        assert(unique_folders(d.folders)) by {
            reveal(linked);
        }
        lemma_new_folders_are_rooted(target, d, root);
        if filled(folder) {
            lemma_grow_filled(target, seq![root], 0, 1);
            let grown = grow(target, seq![root], 0, 1).1;
            assert forall|i: int| 0 <= i < d.folders.len() implies child_count(
                #[trigger] d.folders[i],
            ) > 0 by {
                assert(d.folders[i] == grown[grown.len() - 1 - i]);
            }
        }
    }
}

} // verus!
