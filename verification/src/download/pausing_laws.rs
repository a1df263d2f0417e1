//! What pausing a download does to all of it.

use vstd::prelude::*;
#[allow(unused_imports)]
use crate::download::completion_laws::none_empty;
#[allow(unused_imports)]
use crate::download::folder_status::child_count;
#[allow(unused_imports)]
use crate::download::items::{ChangedItemPause, FileId, FileModel, FolderId, FolderModel, ItemId};
#[allow(unused_imports)]
use crate::download::pausing::{
    folder_paused, is_file, is_folder, law_set_paused_reaches_every_file, lemma_pause_first,
    lemma_raise_pause_shape, pause_at, pause_first, raise_pause, root_paused, settle_pause,
    spec_set_paused,
};
#[allow(unused_imports)]
use crate::download::tables::{find_file, find_folder, unique_folders};
#[allow(unused_imports)]
use crate::download::tree::DownloadModel;
#[allow(unused_imports)]
use crate::download::tree_laws::{
    lemma_find_file_same, lemma_find_folder, lemma_find_folder_same, lemma_found_file,
    lemma_found_folder, lemma_linked_folder, lemma_lists_file, lemma_lists_folder, linked,
};

verus! {

/// Whether every folder but one is paused exactly if what lies in it is.
pub open spec fn pause_follows(
    files: Seq<FileModel>,
    folders: Seq<FolderModel>,
    except: Option<FolderId>,
) -> bool {
    forall|i: int|
        0 <= i < folders.len() ==> except == Some((#[trigger] folders[i]).id)
            || folders[i].is_paused == folder_paused(folders[i], files, folders)
}

/// Whether the items of a download hang together and every folder is paused exactly if what
/// lies in it is.
pub open spec fn in_step(d: DownloadModel) -> bool {
    linked(d.files, d.folders) && pause_follows(d.files, d.folders, None)
}

/// Whether files are the same but for whether they are paused.
pub open spec fn same_files(a: Seq<FileModel>, b: Seq<FileModel>) -> bool {
    &&& a.len() == b.len()
    &&& forall|k: int|
        #![trigger a[k]]
        #![trigger b[k]]
        0 <= k < a.len() ==> b[k] == (FileModel { is_paused: b[k].is_paused, ..a[k] })
}

/// Whether folders are the same but for whether they are paused.
pub open spec fn same_folders(a: Seq<FolderModel>, b: Seq<FolderModel>) -> bool {
    &&& a.len() == b.len()
    &&& forall|k: int|
        #![trigger a[k]]
        #![trigger b[k]]
        0 <= k < a.len() ==> b[k] == (FolderModel { is_paused: b[k].is_paused, ..a[k] })
}

/// Pauses have no part in how the items hang together.
pub proof fn lemma_pauses_keep_links(
    files: Seq<FileModel>,
    folders: Seq<FolderModel>,
    files2: Seq<FileModel>,
    folders2: Seq<FolderModel>,
)
    requires
        linked(files, folders),
        same_files(files, files2),
        same_folders(folders, folders2),
    ensures
        linked(files2, folders2),
        forall|id: FileId| #[trigger] find_file(files2, id) == find_file(files, id),
        forall|id: FolderId| #[trigger] find_folder(folders2, id) == find_folder(folders, id),
{
    reveal(linked);
    assert(forall|i: int|
        0 <= i < files.len() ==> (#[trigger] files[i]).id == (#[trigger] files2[i]).id);
    assert(forall|i: int|
        0 <= i < folders.len() ==> (#[trigger] folders[i]).id == (#[trigger] folders2[i]).id);
    assert forall|id: FileId| #[trigger] find_file(files2, id) == find_file(files, id) by {
        lemma_find_file_same(files, files2, id);
    }
    assert forall|id: FolderId| #[trigger] find_folder(folders2, id) == find_folder(
        folders,
        id,
    ) by {
        lemma_find_folder_same(folders, folders2, id);
    }
    lemma_find_file_same(files, files2, FileId(0));
    lemma_find_folder_same(folders, folders2, FolderId(0));
    assert forall|i: int, k: int|
        0 <= i < folders2.len() && 0 <= k < files2.len() implies ((
    #[trigger] folders2[i]).child_files.contains((#[trigger] files2[k]).id)
        <==> files2[k].parent_id == Some(folders2[i].id)) by {
        assert(folders[i].child_files.contains(files[k].id) <==> files[k].parent_id == Some(
            folders[i].id,
        ));
    }
    assert forall|i: int, k: int|
        0 <= i < folders2.len() && 0 <= k < folders2.len() implies ((
    #[trigger] folders2[i]).child_folders.contains((#[trigger] folders2[k]).id)
        <==> folders2[k].parent_id == Some(folders2[i].id)) by {
        assert(folders[i].child_folders.contains(folders[k].id) <==> folders[k].parent_id == Some(
            folders[i].id,
        ));
    }
    assert forall|i: int, j: int|
        0 <= i < folders2.len() && 0 <= j < folders2[i].child_files.len() implies find_file(
        files2,
        #[trigger] folders2[i].child_files[j],
    ).is_some() by {
        assert(find_file(files, folders[i].child_files[j]).is_some());
    }
    assert forall|i: int, j: int|
        0 <= i < folders2.len() && 0 <= j < folders2[i].child_folders.len() implies find_folder(
        folders2,
        #[trigger] folders2[i].child_folders[j],
    ).is_some() by {
        assert(find_folder(folders, folders[i].child_folders[j]).is_some());
    }
}

/// A folder does not notice what happens to a folder outside it.
proof fn lemma_folder_unmoved(
    files: Seq<FileModel>,
    folders: Seq<FolderModel>,
    i: int,
    is_paused: bool,
    j: int,
)
    requires
        linked(files, folders),
        0 <= i < folders.len(),
        0 <= j < folders.len(),
        folders[i].parent_id != Some(folders[j].id),
    ensures
        ({
            let next = folders.update(i, FolderModel { is_paused, ..folders[i] });
            folder_paused(folders[j], files, next) == folder_paused(folders[j], files, folders)
        }),
{
    let next = folders.update(i, FolderModel { is_paused, ..folders[i] });
    let f = folders[j];
    lemma_pauses_keep_links(files, folders, files, next);
    assert forall|c: int| 0 <= c < f.child_folders.len() implies is_folder(
        next,
        #[trigger] f.child_folders[c],
    ) && is_folder(folders, f.child_folders[c]) && next[find_folder(
        next,
        f.child_folders[c],
    )->0].is_paused == folders[find_folder(folders, f.child_folders[c])->0].is_paused by {
        let id = f.child_folders[c];
        lemma_linked_folder(files, folders, j);
        assert(find_folder(folders, folders[j].child_folders[c]).is_some());
        lemma_found_folder(folders, id);
        let k = find_folder(folders, id)->0;
        assert(f.child_folders.contains(id));
        lemma_lists_folder(files, folders, j, k);
        assert(k != i);
    }
}

/// A folder does not notice what happens to a file outside it.
proof fn lemma_file_unmoved(
    files: Seq<FileModel>,
    folders: Seq<FolderModel>,
    k: int,
    is_paused: bool,
    j: int,
)
    requires
        linked(files, folders),
        0 <= k < files.len(),
        0 <= j < folders.len(),
        files[k].parent_id != Some(folders[j].id),
    ensures
        ({
            let next = files.update(k, FileModel { is_paused, ..files[k] });
            folder_paused(folders[j], next, folders) == folder_paused(folders[j], files, folders)
        }),
{
    let next = files.update(k, FileModel { is_paused, ..files[k] });
    let f = folders[j];
    lemma_pauses_keep_links(files, folders, next, folders);
    assert forall|c: int| 0 <= c < f.child_files.len() implies is_file(
        next,
        #[trigger] f.child_files[c],
    ) && is_file(files, f.child_files[c]) && next[find_file(next, f.child_files[c])->0].is_paused
        == files[find_file(files, f.child_files[c])->0].is_paused by {
        let id = f.child_files[c];
        lemma_linked_folder(files, folders, j);
        assert(find_file(files, folders[j].child_files[c]).is_some());
        lemma_found_file(files, id);
        let m = find_file(files, id)->0;
        assert(f.child_files.contains(id));
        lemma_lists_file(files, folders, j, m);
        assert(m != k);
    }
}

/// Carrying a pause upwards brings every folder in step with what lies in it.
proof fn lemma_raise_follows(
    files: Seq<FileModel>,
    folders: Seq<FolderModel>,
    at: Option<FolderId>,
    steps: nat,
)
    requires
        linked(files, folders),
        pause_follows(files, folders, at),
        at matches Some(p) ==> find_folder(folders, p).is_none() || p.0 < steps,
    ensures
        pause_follows(files, raise_pause(files, folders, at, steps).0, None),
    decreases steps,
{
    if at.is_none() {
    } else if find_folder(folders, at->0).is_none() {
        assert forall|i: int| 0 <= i < folders.len() implies (#[trigger] folders[i]).is_paused
            == folder_paused(folders[i], files, folders) by {
            lemma_linked_folder(files, folders, i);
            assert(unique_folders(folders)) by {
                reveal(linked);
            }
            lemma_find_folder(folders, i);
        }
    } else {
        lemma_found_folder(folders, at->0);
        let i = find_folder(folders, at->0)->0;
        let is_paused = folder_paused(folders[i], files, folders);
        lemma_linked_folder(files, folders, i);
        assert(unique_folders(folders)) by {
            reveal(linked);
        }
        if is_paused == folders[i].is_paused {
            assert forall|j: int| 0 <= j < folders.len() implies (#[trigger] folders[j]).is_paused
                == folder_paused(folders[j], files, folders) by {
                if folders[j].id == folders[i].id {
                    assert(i == j);
                }
            }
        } else {
            let next = folders.update(i, FolderModel { is_paused, ..folders[i] });
            lemma_pauses_keep_links(files, folders, files, next);
            let up = folders[i].parent_id;
            assert forall|j: int| 0 <= j < next.len() implies up == Some((#[trigger] next[j]).id)
                || next[j].is_paused == folder_paused(next[j], files, next) by {
                if up != Some(next[j].id) {
                    lemma_folder_unmoved(files, folders, i, is_paused, j);
                    if j != i {
                        assert(folders[j].id != folders[i].id);
                    } else {
                        assert(folder_paused(next[i], files, next) == folder_paused(
                            folders[i],
                            files,
                            next,
                        ));
                    }
                }
            }
            lemma_raise_follows(files, next, up, (steps - 1) as nat);
        }
    }
}

/// Pausing one file, or taking it up, brings every folder in step with what lies in it.
proof fn lemma_pause_at_in_step(d: DownloadModel, k: int, is_paused: bool)
    requires
        in_step(d),
        0 <= k < d.files.len(),
    ensures
        in_step(pause_at(d, k, is_paused).0),
        same_files(d.files, pause_at(d, k, is_paused).0.files),
        same_folders(d.folders, pause_at(d, k, is_paused).0.folders),
{
    if d.files[k].is_paused != is_paused {
        let files = d.files.update(k, FileModel { is_paused, ..d.files[k] });
        let up = d.files[k].parent_id;
        lemma_pauses_keep_links(d.files, d.folders, files, d.folders);
        assert forall|j: int| 0 <= j < d.folders.len() implies up == Some(
            (#[trigger] d.folders[j]).id,
        ) || d.folders[j].is_paused == folder_paused(d.folders[j], files, d.folders) by {
            if up != Some(d.folders[j].id) {
                lemma_file_unmoved(d.files, d.folders, k, is_paused, j);
            }
        }
        if up.is_some() && find_folder(d.folders, up->0).is_some() {
            lemma_found_folder(d.folders, up->0);
            lemma_linked_folder(d.files, d.folders, find_folder(d.folders, up->0)->0);
        }
        lemma_raise_follows(files, d.folders, up, d.folders.len());
        lemma_raise_pause_shape(files, d.folders, up, d.folders.len());
        let raised = raise_pause(files, d.folders, up, d.folders.len()).0;
        assert(same_folders(d.folders, raised));
        lemma_pauses_keep_links(files, d.folders, files, raised);
    }
}

proof fn lemma_pause_first_in_step(d: DownloadModel, n: nat, is_paused: bool)
    requires
        in_step(d),
        n <= d.files.len(),
    ensures
        in_step(pause_first(d, n, is_paused).0),
    decreases n,
{
    if n > 0 {
        lemma_pause_first_in_step(d, (n - 1) as nat, is_paused);
        lemma_pause_first(d, (n - 1) as nat, is_paused);
        lemma_pause_at_in_step(pause_first(d, (n - 1) as nat, is_paused).0, n - 1, is_paused);
    }
}

/// Pausing a download, or taking it up, leaves every folder in step with what lies in it.
pub proof fn law_set_paused_stays_in_step(d: DownloadModel, is_paused: bool)
    requires
        in_step(d),
    ensures
        in_step(spec_set_paused(d, is_paused).0),
{
    lemma_pause_first_in_step(d, d.files.len(), is_paused);
}

/// What is told of the first `n` files, and what happens to the folders.
proof fn lemma_pause_first_tells(d: DownloadModel, n: nat, is_paused: bool)
    requires
        n <= d.files.len(),
    ensures
        ({
            let (after, told) = pause_first(d, n, is_paused);
            &&& same_folders(d.folders, after.folders)
            &&& forall|id: FileId, p: bool| #[trigger]
                told.contains(ChangedItemPause::File { id, is_paused: p }) <==> p == is_paused
                    && exists|k: int|
                    0 <= k < n && (#[trigger] d.files[k]).id == id && d.files[k].is_paused
                        != is_paused
        }),
    decreases n,
{
    if n > 0 {
        let m = (n - 1) as nat;
        lemma_pause_first_tells(d, m, is_paused);
        lemma_pause_first(d, m, is_paused);
        let (before, said) = pause_first(d, m, is_paused);
        let (after, told) = pause_first(d, n, is_paused);
        let k = n - 1;
        let last = pause_at(before, k, is_paused);
        assert(before.files[k] == d.files[k]);
        if before.files[k].is_paused == is_paused {
            assert(told =~= said);
            assert forall|id: FileId, p: bool| #[trigger]
                told.contains(ChangedItemPause::File { id, is_paused: p }) <==> p == is_paused
                    && exists|k: int|
                    0 <= k < n && (#[trigger] d.files[k]).id == id && d.files[k].is_paused
                        != is_paused by {
                assert(said.contains(ChangedItemPause::File { id, is_paused: p }) <==> p
                    == is_paused && exists|k: int|
                    0 <= k < m && (#[trigger] d.files[k]).id == id && d.files[k].is_paused
                        != is_paused);
            }
        } else {
            let files = before.files.update(k, FileModel { is_paused, ..before.files[k] });
            let up = before.files[k].parent_id;
            let steps = before.folders.len();
            lemma_raise_pause_shape(files, before.folders, up, steps);
            lemma_raise_tells(files, before.folders, up, steps);
            let raised = raise_pause(files, before.folders, up, steps);
            assert forall|j: int|
                #![trigger d.folders[j]]
                #![trigger after.folders[j]]
                0 <= j < d.folders.len() implies after.folders[j] == (FolderModel {
                is_paused: after.folders[j].is_paused,
                ..d.folders[j]
            }) by {
                assert(before.folders[j] == (FolderModel {
                    is_paused: before.folders[j].is_paused,
                    ..d.folders[j]
                }));
                assert(raised.0[j] == after.folders[j]);
            }
            let first = seq![ChangedItemPause::File { id: d.files[k].id, is_paused }];
            assert(told == said + (first + raised.1));
            assert forall|id: FileId, p: bool| #[trigger]
                told.contains(ChangedItemPause::File { id, is_paused: p }) <==> p == is_paused
                    && exists|k: int|
                    0 <= k < n && (#[trigger] d.files[k]).id == id && d.files[k].is_paused
                        != is_paused by {
                let note = ChangedItemPause::File { id, is_paused: p };
                assert(!raised.1.contains(note));
                assert(told.contains(note) <==> said.contains(note) || first[0] == note) by {
                    if said.contains(note) {
                        let x = choose|x: int| 0 <= x < said.len() && said[x] == note;
                        assert(told[x] == note);
                    }
                    if first[0] == note {
                        assert(told[said.len() as int] == note);
                    }
                    if told.contains(note) {
                        let x = choose|x: int| 0 <= x < told.len() && told[x] == note;
                        if x < said.len() {
                            assert(said[x] == note);
                        } else if x > said.len() {
                            assert(raised.1[x - said.len() - 1] == note);
                        }
                    }
                }
                if p == is_paused && d.files[k].id == id {
                    assert(d.files[k].is_paused != is_paused);
                }
            }
        }
    }
}

/// Of files nothing is told while a pause is carried upwards.
proof fn lemma_raise_tells(
    files: Seq<FileModel>,
    folders: Seq<FolderModel>,
    at: Option<FolderId>,
    steps: nat,
)
    ensures
        forall|id: FileId, p: bool|
            !(#[trigger] raise_pause(files, folders, at, steps).1.contains(
                ChangedItemPause::File { id, is_paused: p },
            )),
    decreases steps,
{
    if !(steps == 0 || at.is_none() || find_folder(folders, at->0).is_none()) {
        let i = find_folder(folders, at->0)->0;
        let is_paused = folder_paused(folders[i], files, folders);
        if is_paused != folders[i].is_paused {
            let next = folders.update(i, FolderModel { is_paused, ..folders[i] });
            lemma_raise_tells(files, next, folders[i].parent_id, (steps - 1) as nat);
            let rest = raise_pause(files, next, folders[i].parent_id, (steps - 1) as nat).1;
            let told = raise_pause(files, folders, at, steps).1;
            assert forall|id: FileId, p: bool|
                !(#[trigger] told.contains(ChangedItemPause::File { id, is_paused: p })) by {
                let note = ChangedItemPause::File { id, is_paused: p };
                if told.contains(note) {
                    let x = choose|x: int| 0 <= x < told.len() && told[x] == note;
                    assert(x > 0 && rest[x - 1] == note);
                    assert(rest.contains(note));
                }
            }
        }
    }
}

/// Pausing a download, or taking it up, tells of exactly the files that were not paused,
/// or were, and changes nothing but pauses. The download is paused exactly if its root is.
pub proof fn law_set_paused_tells_every_change(d: DownloadModel, is_paused: bool)
    ensures
        ({
            let (after, told) = spec_set_paused(d, is_paused);
            &&& forall|id: FileId, p: bool| #[trigger]
                told.contains(ChangedItemPause::File { id, is_paused: p }) <==> p == is_paused
                    && exists|k: int|
                    0 <= k < d.files.len() && (#[trigger] d.files[k]).id == id
                        && d.files[k].is_paused != is_paused
            &&& same_files(d.files, after.files)
            &&& same_folders(d.folders, after.folders)
            &&& after == (DownloadModel {
                files: after.files,
                folders: after.folders,
                is_paused: after.is_paused,
                ..d
            })
            &&& root_paused(after).is_some() ==> root_paused(after) == Some(after.is_paused)
        }),
{
    lemma_pause_first(d, d.files.len(), is_paused);
    lemma_pause_first_tells(d, d.files.len(), is_paused);
    let (all, said) = pause_first(d, d.files.len(), is_paused);
    let more = settle_pause(all).1;
    let told = spec_set_paused(d, is_paused).1;
    assert forall|id: FileId, p: bool| #[trigger]
        told.contains(ChangedItemPause::File { id, is_paused: p }) <==> said.contains(
            ChangedItemPause::File { id, is_paused: p },
        ) by {
        let note = ChangedItemPause::File { id, is_paused: p };
        if said.contains(note) {
            let x = choose|x: int| 0 <= x < said.len() && said[x] == note;
            assert(told[x] == note);
        }
        if told.contains(note) {
            let x = choose|x: int| 0 <= x < told.len() && told[x] == note;
            assert(x < said.len());
            assert(said[x] == note);
        }
    }
}

proof fn lemma_pause_again(d: DownloadModel, n: nat, is_paused: bool)
    requires
        n <= d.files.len(),
        forall|k: int| 0 <= k < d.files.len() ==> (#[trigger] d.files[k]).is_paused == is_paused,
    ensures
        pause_first(d, n, is_paused) == (d, Seq::<ChangedItemPause>::empty()),
    decreases n,
{
    if n > 0 {
        lemma_pause_again(d, (n - 1) as nat, is_paused);
        assert(d.files[n - 1].is_paused == is_paused);
    }
}

/// A download that was paused, or taken up, stays as it is when that is done again, and
/// nothing is told.
pub proof fn law_set_paused_twice_is_once(d: DownloadModel, is_paused: bool)
    ensures
        ({
            let after = spec_set_paused(d, is_paused).0;
            spec_set_paused(after, is_paused) == (after, Seq::<ChangedItemPause>::empty())
        }),
{
    let after = spec_set_paused(d, is_paused).0;
    law_set_paused_reaches_every_file(d, is_paused);
    law_set_paused_tells_every_change(d, is_paused);
    lemma_pause_again(after, after.files.len(), is_paused);
}

/// Where all files are paused, or none is, so are the folders that follow them.
proof fn lemma_folders_follow(d: DownloadModel, is_paused: bool, i: int)
    requires
        in_step(d),
        none_empty(d.folders),
        forall|k: int| 0 <= k < d.files.len() ==> (#[trigger] d.files[k]).is_paused == is_paused,
        0 <= i < d.folders.len(),
    ensures
        d.folders[i].is_paused == is_paused,
    decreases d.folders.len() - d.folders[i].id.0,
{
    let f = d.folders[i];
    lemma_linked_folder(d.files, d.folders, i);
    assert(child_count(f) > 0);
    assert forall|c: int| 0 <= c < f.child_files.len() implies is_file(
        d.files,
        #[trigger] f.child_files[c],
    ) && d.files[find_file(d.files, f.child_files[c])->0].is_paused == is_paused by {
        assert(find_file(d.files, d.folders[i].child_files[c]).is_some());
        lemma_found_file(d.files, f.child_files[c]);
    }
    assert forall|c: int| 0 <= c < f.child_folders.len() implies is_folder(
        d.folders,
        #[trigger] f.child_folders[c],
    ) && d.folders[find_folder(d.folders, f.child_folders[c])->0].is_paused == is_paused by {
        let id = f.child_folders[c];
        assert(find_folder(d.folders, d.folders[i].child_folders[c]).is_some());
        lemma_found_folder(d.folders, id);
        let k = find_folder(d.folders, id)->0;
        assert(f.child_folders.contains(id));
        lemma_lists_folder(d.files, d.folders, i, k);
        lemma_linked_folder(d.files, d.folders, k);
        lemma_folders_follow(d, is_paused, k);
    }
    if f.child_files.len() > 0 {
        assert(is_file(d.files, f.child_files[0]));
    } else {
        assert(is_folder(d.folders, f.child_folders[0]));
    }
}

/// In a download without empty folders whose folders are in step, pausing pauses every
/// folder and the download itself, and so does taking up.
pub proof fn law_set_paused_reaches_every_folder(d: DownloadModel, is_paused: bool)
    requires
        in_step(d),
        none_empty(d.folders),
        root_paused(d).is_some(),
    ensures
        ({
            let after = spec_set_paused(d, is_paused).0;
            &&& forall|i: int|
                0 <= i < after.folders.len() ==> (#[trigger] after.folders[i]).is_paused
                    == is_paused
            &&& after.is_paused == is_paused
        }),
{
    let after = spec_set_paused(d, is_paused).0;
    law_set_paused_stays_in_step(d, is_paused);
    law_set_paused_reaches_every_file(d, is_paused);
    law_set_paused_tells_every_change(d, is_paused);
    assert forall|i: int| 0 <= i < after.folders.len() implies child_count(
        #[trigger] after.folders[i],
    ) > 0 by {
        assert(child_count(d.folders[i]) > 0);
    }
    assert forall|i: int| 0 <= i < after.folders.len() implies (
    #[trigger] after.folders[i]).is_paused == is_paused by {
        lemma_folders_follow(after, is_paused, i);
    }
    lemma_pauses_keep_links(d.files, d.folders, after.files, after.folders);
    match d.root_item {
        ItemId::File(id) => {
            lemma_found_file(after.files, id);
        },
        ItemId::Folder(id) => {
            lemma_found_folder(after.folders, id);
        },
    }
}

} // verus!
