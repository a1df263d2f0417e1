//! What a new download is made of.

use vstd::prelude::*;
#[allow(unused_imports)]
use crate::download::answer_laws::goes_by;
#[allow(unused_imports)]
use crate::download::building::{
    entry_files, entry_folders, files_below, files_waiting, folders_below, folders_waiting, grow,
    lemma_waiting_concat, lemma_walk_counts, new_download, place_of, walk, walk_waiting, Waiting,
};
#[allow(unused_imports)]
use crate::download::file_name::{candidate, chosen_name};
#[allow(unused_imports)]
use crate::download::hosts::tasks::{DownloadTask, FileTask, FolderTask, TaskType};
#[allow(unused_imports)]
use crate::download::items::{
    folder_name_of, new_file, FileId, FileModel, FolderId, FolderModel, ItemId,
};
#[allow(unused_imports)]
use crate::utils::file_utils::TargetOs;
#[allow(unused_imports)]
use crate::utils::paths::spec_join;
#[allow(unused_imports)]
use crate::utils::urls::{host_of_url, spec_filename_from_url};

verus! {

/// Whether a file is a new one that a task asks for, to lie in the folder at a path: it
/// has the URL of the task and is kept under its host, it goes by the name that the plugin
/// suggests, or else by the one in the URL, and nothing was done for it yet.
pub open spec fn is_made_for(
    target: TargetOs,
    f: FileModel,
    task: FileTask,
    path: Seq<Seq<u8>>,
) -> bool {
    &&& f.url == task.url@
    &&& host_of_url(task.url@) matches Some(host) ==> f.host == host
    &&& f.name.plugin_hint == candidate(target, Some(task.file_name@))
    &&& f.name.url_hint == candidate(target, spec_filename_from_url(task.url@))
    &&& f.name.server_name is None
    &&& exists|name: Seq<char>| goes_by(f.name, name) && f.path == #[trigger] spec_join(path, name)
    &&& f.status is Uninitialized
    &&& !f.is_paused
    &&& f.active_operation is None
    &&& f.hash is None
    &&& f.blocks.len() == 0
    &&& f.chunk_hashes.len() == 0
    &&& f.size is None
    &&& f.retries == 0
}

proof fn lemma_made(
    target: TargetOs,
    task: FileTask,
    path: Seq<Seq<u8>>,
    id: FileId,
    parent: Option<FolderId>,
)
    ensures
        is_made_for(target, new_file(target, task, path, id, parent), task, path),
{
    let f = new_file(target, task, path, id, parent);
    assert(goes_by(f.name, chosen_name(f.name)));
}

/// Whether a file is asked for among some entries of a folder, or in a folder among them:
/// `at` is the path of the folder that it is to lie in.
pub open spec fn asked_for(
    target: TargetOs,
    entries: Seq<TaskType>,
    path: Seq<Seq<u8>>,
    task: FileTask,
    at: Seq<Seq<u8>>,
) -> bool
    decreases entries,
{
    entries.len() > 0 && (asked_for(target, entries.drop_last(), path, task, at)
        || match entries.last() {
        TaskType::File(file) => file == task && at == path,
        TaskType::Folder(folder) => asked_for_within(target, folder, path, task, at),
    })
}

/// Whether a file is asked for in a folder, to lie below a path.
pub open spec fn asked_for_within(
    target: TargetOs,
    folder: FolderTask,
    path: Seq<Seq<u8>>,
    task: FileTask,
    at: Seq<Seq<u8>>,
) -> bool
    decreases folder,
{
    asked_for(
        target,
        folder.files@,
        spec_join(path, folder_name_of(target, folder.folder_name@)),
        task,
        at,
    )
}

/// Whether a file is asked for in a folder that is put off.
pub open spec fn asked_for_later(
    target: TargetOs,
    stack: Seq<Waiting>,
    task: FileTask,
    at: Seq<Seq<u8>>,
) -> bool {
    exists|s: int|
        0 <= s < stack.len() && asked_for_within(
            target,
            (#[trigger] stack[s]).task,
            stack[s].path,
            task,
            at,
        )
}

/// Whether a file that a task asks for is among some.
pub open spec fn is_made(
    target: TargetOs,
    files: Seq<FileModel>,
    task: FileTask,
    at: Seq<Seq<u8>>,
) -> bool {
    exists|k: int| 0 <= k < files.len() && is_made_for(target, #[trigger] files[k], task, at)
}

proof fn lemma_walk_makes(
    target: TargetOs,
    path: Seq<Seq<u8>>,
    id: FolderId,
    entries: Seq<TaskType>,
    next_file: nat,
    next_folder: nat,
    task: FileTask,
    at: Seq<Seq<u8>>,
)
    requires
        asked_for(target, entries, path, task, at),
    ensures
        ({
            let w = walk(target, path, id, entries, next_file, next_folder);
            is_made(target, w.files, task, at) || asked_for_later(target, w.waiting, task, at)
        }),
    decreases entries.len(),
{
    let rest = entries.drop_last();
    let before = walk(target, path, id, rest, next_file, next_folder);
    let w = walk(target, path, id, entries, next_file, next_folder);
    if asked_for(target, rest, path, task, at) {
        lemma_walk_makes(target, path, id, rest, next_file, next_folder, task, at);
        if is_made(target, before.files, task, at) {
            let k = choose|k: int|
                0 <= k < before.files.len() && is_made_for(
                    target,
                    #[trigger] before.files[k],
                    task,
                    at,
                );
            assert(w.files[k] == before.files[k]);
        } else {
            let s = choose|s: int|
                0 <= s < before.waiting.len() && asked_for_within(
                    target,
                    (#[trigger] before.waiting[s]).task,
                    before.waiting[s].path,
                    task,
                    at,
                );
            assert(w.waiting[s] == before.waiting[s]);
        }
    } else {
        match entries.last() {
            TaskType::File(file) => {
                let file_id = FileId((next_file + before.files.len()) as usize);
                lemma_made(target, file, path, file_id, Some(id));
                assert(is_made_for(target, w.files[w.files.len() - 1], task, at));
            },
            TaskType::Folder(folder) => {
                let s = w.waiting.len() - 1;
                assert(w.waiting[s].task == folder && w.waiting[s].path == path);
            },
        }
    }
}

proof fn lemma_walk_made(
    target: TargetOs,
    path: Seq<Seq<u8>>,
    id: FolderId,
    entries: Seq<TaskType>,
    next_file: nat,
    next_folder: nat,
    k: int,
)
    requires
        0 <= k < walk(target, path, id, entries, next_file, next_folder).files.len(),
    ensures
        exists|task: FileTask| #[trigger]
            asked_for(target, entries, path, task, path) && is_made_for(
                target,
                walk(target, path, id, entries, next_file, next_folder).files[k],
                task,
                path,
            ),
    decreases entries.len(),
{
    let rest = entries.drop_last();
    let before = walk(target, path, id, rest, next_file, next_folder);
    let w = walk(target, path, id, entries, next_file, next_folder);
    if k < before.files.len() {
        lemma_walk_made(target, path, id, rest, next_file, next_folder, k);
        let task = choose|task: FileTask| #[trigger]
            asked_for(target, rest, path, task, path) && is_made_for(
                target,
                before.files[k],
                task,
                path,
            );
        assert(w.files[k] == before.files[k]);
        assert(asked_for(target, entries, path, task, path));
    } else {
        match entries.last() {
            TaskType::File(file) => {
                let file_id = FileId((next_file + before.files.len()) as usize);
                lemma_made(target, file, path, file_id, Some(id));
                assert(asked_for(target, entries, path, file, path));
            },
            TaskType::Folder(_) => {},
        }
    }
}

proof fn lemma_walk_puts_off(
    target: TargetOs,
    path: Seq<Seq<u8>>,
    id: FolderId,
    entries: Seq<TaskType>,
    next_file: nat,
    next_folder: nat,
    task: FileTask,
    at: Seq<Seq<u8>>,
)
    requires
        asked_for_later(
            target,
            walk(target, path, id, entries, next_file, next_folder).waiting,
            task,
            at,
        ),
    ensures
        asked_for(target, entries, path, task, at),
    decreases entries.len(),
{
    let w = walk(target, path, id, entries, next_file, next_folder);
    let s = choose|s: int|
        0 <= s < w.waiting.len() && asked_for_within(
            target,
            (#[trigger] w.waiting[s]).task,
            w.waiting[s].path,
            task,
            at,
        );
    let rest = entries.drop_last();
    let before = walk(target, path, id, rest, next_file, next_folder);
    if s < before.waiting.len() {
        assert(before.waiting[s] == w.waiting[s]);
        lemma_walk_puts_off(target, path, id, rest, next_file, next_folder, task, at);
    }
}

proof fn lemma_grow_makes(
    target: TargetOs,
    stack: Seq<Waiting>,
    next_file: nat,
    next_folder: nat,
    task: FileTask,
    at: Seq<Seq<u8>>,
)
    requires
        asked_for_later(target, stack, task, at),
    ensures
        is_made(target, grow(target, stack, next_file, next_folder).0, task, at),
    decreases folders_waiting(stack),
{
    let s = choose|s: int|
        0 <= s < stack.len() && asked_for_within(
            target,
            (#[trigger] stack[s]).task,
            stack[s].path,
            task,
            at,
        );
    let top = stack.last();
    let w = walk_waiting(target, top, next_file, next_folder);
    let place = place_of(target, top);
    lemma_walk_counts(target, place, top.id, top.task.files@, next_file, next_folder);
    lemma_waiting_concat(stack.drop_last(), w.waiting);
    let next = stack.drop_last() + w.waiting;
    let later = next_file + w.files.len();
    let further = next_folder + w.child_folders.len();
    let rest = grow(target, next, later, further);
    let all = grow(target, stack, next_file, next_folder);
    if s < stack.len() - 1 {
        assert(next[s] == stack[s]);
        lemma_grow_makes(target, next, later, further, task, at);
    } else {
        lemma_walk_makes(
            target,
            place,
            top.id,
            top.task.files@,
            next_file,
            next_folder,
            task,
            at,
        );
        if is_made(target, w.files, task, at) {
            let k = choose|k: int|
                0 <= k < w.files.len() && is_made_for(target, #[trigger] w.files[k], task, at);
            assert(all.0[k] == w.files[k]);
        } else {
            let t = choose|t: int|
                0 <= t < w.waiting.len() && asked_for_within(
                    target,
                    (#[trigger] w.waiting[t]).task,
                    w.waiting[t].path,
                    task,
                    at,
                );
            assert(next[stack.len() - 1 + t] == w.waiting[t]);
            lemma_grow_makes(target, next, later, further, task, at);
        }
    }
    if !is_made(target, w.files, task, at) || s < stack.len() - 1 {
        let k = choose|k: int|
            0 <= k < rest.0.len() && is_made_for(target, #[trigger] rest.0[k], task, at);
        assert(all.0[(w.files.len() + k) as int] == rest.0[k]);
    }
}

proof fn lemma_grow_made(
    target: TargetOs,
    stack: Seq<Waiting>,
    next_file: nat,
    next_folder: nat,
    k: int,
)
    requires
        0 <= k < grow(target, stack, next_file, next_folder).0.len(),
    ensures
        exists|task: FileTask, at: Seq<Seq<u8>>| #[trigger]
            asked_for_later(target, stack, task, at) && is_made_for(
                target,
                grow(target, stack, next_file, next_folder).0[k],
                task,
                at,
            ),
    decreases folders_waiting(stack),
{
    if stack.len() > 0 {
        let top = stack.last();
        let w = walk_waiting(target, top, next_file, next_folder);
        let place = place_of(target, top);
        lemma_walk_counts(target, place, top.id, top.task.files@, next_file, next_folder);
        lemma_waiting_concat(stack.drop_last(), w.waiting);
        let next = stack.drop_last() + w.waiting;
        let later = next_file + w.files.len();
        let further = next_folder + w.child_folders.len();
        let rest = grow(target, next, later, further);
        let all = grow(target, stack, next_file, next_folder);
        assert(stack[stack.len() - 1] == top);
        if k < w.files.len() {
            lemma_walk_made(target, place, top.id, top.task.files@, next_file, next_folder, k);
            let task = choose|task: FileTask| #[trigger]
                asked_for(target, top.task.files@, place, task, place) && is_made_for(
                    target,
                    w.files[k],
                    task,
                    place,
                );
            assert(all.0[k] == w.files[k]);
            assert(asked_for_within(target, top.task, top.path, task, place));
            assert(asked_for_later(target, stack, task, place));
        } else {
            let j = k - w.files.len();
            lemma_grow_made(target, next, later, further, j);
            let (task, at) = choose|task: FileTask, at: Seq<Seq<u8>>| #[trigger]
                asked_for_later(target, next, task, at) && is_made_for(
                    target,
                    rest.0[j],
                    task,
                    at,
                );
            assert(all.0[k] == rest.0[j]);
            let s = choose|s: int|
                0 <= s < next.len() && asked_for_within(
                    target,
                    (#[trigger] next[s]).task,
                    next[s].path,
                    task,
                    at,
                );
            if s < stack.len() - 1 {
                assert(stack[s] == next[s]);
            } else {
                let t = s - (stack.len() - 1);
                assert(w.waiting[t] == next[s]);
                assert(asked_for_later(target, w.waiting, task, at));
                lemma_walk_puts_off(
                    target,
                    place,
                    top.id,
                    top.task.files@,
                    next_file,
                    next_folder,
                    task,
                    at,
                );
                assert(asked_for_within(target, top.task, top.path, task, at));
            }
            assert(asked_for_later(target, stack, task, at));
        }
    }
}

proof fn lemma_grow_counts(
    target: TargetOs,
    stack: Seq<Waiting>,
    next_file: nat,
    next_folder: nat,
)
    ensures
        grow(target, stack, next_file, next_folder).0.len() == files_waiting(stack),
        grow(target, stack, next_file, next_folder).1.len() == folders_waiting(stack),
    decreases folders_waiting(stack),
{
    if stack.len() > 0 {
        let top = stack.last();
        let w = walk_waiting(target, top, next_file, next_folder);
        let place = place_of(target, top);
        lemma_walk_counts(target, place, top.id, top.task.files@, next_file, next_folder);
        lemma_waiting_concat(stack.drop_last(), w.waiting);
        lemma_grow_counts(
            target,
            stack.drop_last() + w.waiting,
            next_file + w.files.len(),
            next_folder + w.child_folders.len(),
        );
    }
}

/// How many files some entries ask for.
pub open spec fn files_among(entries: Seq<TaskType>) -> nat
    decreases entries,
{
    if entries.len() == 0 {
        0
    } else {
        files_among(entries.drop_last()) + match entries.last() {
            TaskType::File(_) => 1nat,
            TaskType::Folder(folder) => files_among(folder.files@),
        }
    }
}

/// How many folders there are among some entries, and within these.
pub open spec fn folders_among(entries: Seq<TaskType>) -> nat
    decreases entries,
{
    if entries.len() == 0 {
        0
    } else {
        folders_among(entries.drop_last()) + match entries.last() {
            TaskType::File(_) => 0nat,
            TaskType::Folder(folder) => 1 + folders_among(folder.files@),
        }
    }
}

proof fn lemma_among(entries: Seq<TaskType>)
    ensures
        entry_files(entries) == files_among(entries),
        entry_folders(entries) == folders_among(entries),
    decreases entries,
{
    if entries.len() > 0 {
        lemma_among(entries.drop_last());
        match entries.last() {
            TaskType::File(_) => {},
            TaskType::Folder(folder) => {
                lemma_among(folder.files@);
                assert(files_below(folder) == entry_files(folder.files@));
                assert(folders_below(folder) == entry_folders(folder.files@));
            },
        }
    }
}

/// Whether a file is one that is asked for in a folder.
pub open spec fn was_asked_for(
    target: TargetOs,
    folder: FolderTask,
    path: Seq<Seq<u8>>,
    f: FileModel,
) -> bool {
    exists|file: FileTask, at: Seq<Seq<u8>>| #[trigger]
        asked_for_within(target, folder, path, file, at) && is_made_for(target, f, file, at)
}

/// A new download of a folder has a file for every one that is asked for, wherever in the
/// folder that is, and has no other; and it has a folder for every one.
pub proof fn law_every_task_gets_its_file(
    target: TargetOs,
    id: usize,
    task: DownloadTask,
    save_path: Seq<Seq<u8>>,
)
    requires
        task.task_type is Folder,
    ensures
        ({
            let d = new_download(target, id, task, save_path);
            let root = task.task_type->Folder_0;
            &&& forall|file: FileTask, at: Seq<Seq<u8>>| #[trigger]
                asked_for_within(target, root, save_path, file, at) ==> is_made(
                    target,
                    d.files,
                    file,
                    at,
                )
            &&& forall|k: int|
                0 <= k < d.files.len() ==> was_asked_for(
                    target,
                    root,
                    save_path,
                    #[trigger] d.files[k],
                )
            &&& d.files.len() == files_among(root.files@)
            &&& d.folders.len() == 1 + folders_among(root.files@)
        }),
{
    let root = task.task_type->Folder_0;
    let top = Waiting { task: root, path: save_path, parent_id: None, id: FolderId(0) };
    let stack = seq![top];
    let d = new_download(target, id, task, save_path);
    let grown = grow(target, stack, 0, 1);
    assert(stack[0] == top);
    assert forall|file: FileTask, at: Seq<Seq<u8>>| #[trigger]
        asked_for_within(target, root, save_path, file, at) implies is_made(
        target,
        d.files,
        file,
        at,
    ) by {
        assert(asked_for_later(target, stack, file, at));
        lemma_grow_makes(target, stack, 0, 1, file, at);
    }
    assert forall|k: int| 0 <= k < d.files.len() implies was_asked_for(
        target,
        root,
        save_path,
        #[trigger] d.files[k],
    ) by {
        lemma_grow_made(target, stack, 0, 1, k);
        let (file, at) = choose|file: FileTask, at: Seq<Seq<u8>>| #[trigger]
            asked_for_later(target, stack, file, at) && is_made_for(
                target,
                grown.0[k],
                file,
                at,
            );
        assert(asked_for_within(target, root, save_path, file, at));
    }
    lemma_grow_counts(target, stack, 0, 1);
    lemma_among(root.files@);
    assert(files_below(root) == entry_files(root.files@));
    assert(folders_below(root) == entry_folders(root.files@));
    assert(files_waiting(stack) == files_waiting(stack.drop_last()) + files_below(root));
    assert(stack.drop_last() =~= Seq::<Waiting>::empty());
    assert(files_waiting(stack.drop_last()) == 0);
    assert(folders_waiting(stack.drop_last()) == 0);
    assert(d.files.len() == files_among(root.files@));
    assert(d.folders.len() == grown.1.len());
    assert(d.folders.len() == 1 + folders_among(root.files@));
}

/// A new download has the number, the URL and the place that it was given; nothing was done
/// for it yet, and it is not paused. One of a single file has that file alone, as its root;
/// one of a folder has the first folder as its root.
pub proof fn law_new_downloads_are_what_was_asked_for(
    target: TargetOs,
    id: usize,
    task: DownloadTask,
    save_path: Seq<Seq<u8>>,
)
    ensures
        ({
            let d = new_download(target, id, task, save_path);
            &&& d.id.0 == id
            &&& d.url == task.url@
            &&& d.save_path == save_path
            &&& d.status is Uninitialized
            &&& !d.is_paused
            &&& d.active_operation is None
            &&& match task.task_type {
                TaskType::File(file) => {
                    &&& d.files.len() == 1
                    &&& is_made_for(target, d.files[0], file, save_path)
                    &&& d.files[0].parent_id is None
                    &&& d.root_item == ItemId::File(d.files[0].id)
                    &&& d.folders.len() == 0
                },
                TaskType::Folder(_) => d.root_item == ItemId::Folder(FolderId(0)),
            }
        }),
{
    if let TaskType::File(file) = task.task_type {
        lemma_made(target, file, save_path, FileId(0), None);
    }
}

/// Whether a folder is a new one that a task asks for, to lie in the folder at a path: it has
/// the name of the task as far as that is valid, and nothing was done for it yet.
pub open spec fn is_folder_for(
    target: TargetOs,
    f: FolderModel,
    task: FolderTask,
    path: Seq<Seq<u8>>,
) -> bool {
    &&& f.name == folder_name_of(target, task.folder_name@)
    &&& f.path == spec_join(path, f.name)
    &&& f.status is Uninitialized
    &&& !f.is_paused
    &&& f.active_operation is None
    &&& f.child_files.len() + f.child_folders.len() == task.files@.len()
}

/// Whether a folder is asked for among some entries of a folder, or within a folder among
/// them: `at` is the path of the folder that it is to lie in.
pub open spec fn folder_asked_for(
    target: TargetOs,
    entries: Seq<TaskType>,
    path: Seq<Seq<u8>>,
    task: FolderTask,
    at: Seq<Seq<u8>>,
) -> bool
    decreases entries,
{
    entries.len() > 0 && (folder_asked_for(target, entries.drop_last(), path, task, at)
        || match entries.last() {
        TaskType::File(_) => false,
        TaskType::Folder(folder) => folder_asked_within(target, folder, path, task, at),
    })
}

/// Whether a folder is another one, or is asked for within it.
pub open spec fn folder_asked_within(
    target: TargetOs,
    folder: FolderTask,
    path: Seq<Seq<u8>>,
    task: FolderTask,
    at: Seq<Seq<u8>>,
) -> bool
    decreases folder,
{
    (task == folder && at == path) || folder_asked_for(
        target,
        folder.files@,
        spec_join(path, folder_name_of(target, folder.folder_name@)),
        task,
        at,
    )
}

/// Whether a folder is asked for among those that are put off.
pub open spec fn folder_asked_later(
    target: TargetOs,
    stack: Seq<Waiting>,
    task: FolderTask,
    at: Seq<Seq<u8>>,
) -> bool {
    exists|s: int|
        0 <= s < stack.len() && folder_asked_within(
            target,
            (#[trigger] stack[s]).task,
            stack[s].path,
            task,
            at,
        )
}

/// Whether a folder that a task asks for is among some.
pub open spec fn is_folder_made(
    target: TargetOs,
    folders: Seq<FolderModel>,
    task: FolderTask,
    at: Seq<Seq<u8>>,
) -> bool {
    exists|k: int| 0 <= k < folders.len() && is_folder_for(target, #[trigger] folders[k], task, at)
}

proof fn lemma_walk_waits(
    target: TargetOs,
    path: Seq<Seq<u8>>,
    id: FolderId,
    entries: Seq<TaskType>,
    next_file: nat,
    next_folder: nat,
    task: FolderTask,
    at: Seq<Seq<u8>>,
)
    requires
        folder_asked_for(target, entries, path, task, at),
    ensures
        folder_asked_later(
            target,
            walk(target, path, id, entries, next_file, next_folder).waiting,
            task,
            at,
        ),
    decreases entries.len(),
{
    let rest = entries.drop_last();
    let before = walk(target, path, id, rest, next_file, next_folder);
    let w = walk(target, path, id, entries, next_file, next_folder);
    if folder_asked_for(target, rest, path, task, at) {
        lemma_walk_waits(target, path, id, rest, next_file, next_folder, task, at);
        let s = choose|s: int|
            0 <= s < before.waiting.len() && folder_asked_within(
                target,
                (#[trigger] before.waiting[s]).task,
                before.waiting[s].path,
                task,
                at,
            );
        assert(w.waiting[s] == before.waiting[s]);
    } else {
        let s = w.waiting.len() - 1;
        assert(w.waiting[s].path == path);
    }
}

proof fn lemma_grow_makes_folders(
    target: TargetOs,
    stack: Seq<Waiting>,
    next_file: nat,
    next_folder: nat,
    task: FolderTask,
    at: Seq<Seq<u8>>,
)
    requires
        folder_asked_later(target, stack, task, at),
    ensures
        is_folder_made(target, grow(target, stack, next_file, next_folder).1, task, at),
    decreases folders_waiting(stack),
{
    let s = choose|s: int|
        0 <= s < stack.len() && folder_asked_within(
            target,
            (#[trigger] stack[s]).task,
            stack[s].path,
            task,
            at,
        );
    let top = stack.last();
    let w = walk_waiting(target, top, next_file, next_folder);
    let place = place_of(target, top);
    lemma_walk_counts(target, place, top.id, top.task.files@, next_file, next_folder);
    lemma_waiting_concat(stack.drop_last(), w.waiting);
    let next = stack.drop_last() + w.waiting;
    let later = next_file + w.files.len();
    let further = next_folder + w.child_folders.len();
    let rest = grow(target, next, later, further);
    let all = grow(target, stack, next_file, next_folder);
    if s == stack.len() - 1 && task == top.task && at == top.path {
        assert(is_folder_for(target, all.1[0], task, at));
    } else {
        if s < stack.len() - 1 {
            assert(next[s] == stack[s]);
        } else {
            lemma_walk_waits(
                target,
                place,
                top.id,
                top.task.files@,
                next_file,
                next_folder,
                task,
                at,
            );
            let t = choose|t: int|
                0 <= t < w.waiting.len() && folder_asked_within(
                    target,
                    (#[trigger] w.waiting[t]).task,
                    w.waiting[t].path,
                    task,
                    at,
                );
            assert(next[stack.len() - 1 + t] == w.waiting[t]);
        }
        lemma_grow_makes_folders(target, next, later, further, task, at);
        let k = choose|k: int|
            0 <= k < rest.1.len() && is_folder_for(target, #[trigger] rest.1[k], task, at);
        assert(all.1[k + 1] == rest.1[k]);
    }
}

/// A new download of a folder has a folder for this one and for every one within, under its
/// own name and where it belongs.
pub proof fn law_every_task_gets_its_folder(
    target: TargetOs,
    id: usize,
    task: DownloadTask,
    save_path: Seq<Seq<u8>>,
    folder: FolderTask,
    at: Seq<Seq<u8>>,
)
    requires
        task.task_type is Folder,
        folder_asked_within(target, task.task_type->Folder_0, save_path, folder, at),
    ensures
        is_folder_made(target, new_download(target, id, task, save_path).folders, folder, at),
{
    let root = task.task_type->Folder_0;
    let top = Waiting { task: root, path: save_path, parent_id: None, id: FolderId(0) };
    let stack = seq![top];
    assert(stack[0] == top);
    assert(folder_asked_later(target, stack, folder, at));
    lemma_grow_makes_folders(target, stack, 0, 1, folder, at);
    let grown = grow(target, stack, 0, 1).1;
    let k = choose|k: int|
        0 <= k < grown.len() && is_folder_for(target, #[trigger] grown[k], folder, at);
    let folders = new_download(target, id, task, save_path).folders;
    assert(folders[grown.len() - 1 - k] == grown[k]);
}

} // verus!
