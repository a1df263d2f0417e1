//! Pausing a download and taking it up again.

use vstd::prelude::*;
use crate::download::items::{ChangedItemPause, FileId, FolderId, ItemId};
#[allow(unused_imports)]
use crate::download::items::{FileModel, FolderModel};
#[allow(unused_imports)]
use crate::download::tables::{find_file, find_folder};
use crate::download::tree::Download;
#[allow(unused_imports)]
use crate::download::tree::DownloadModel;
#[allow(unused_imports)]
use crate::download::pausing_laws::law_set_paused_tells_every_change;
#[allow(unused_imports)]
use crate::download::tree_laws::{lemma_same_tree, tree_ok};

verus! {

/// Whether a file with this number exists.
pub open spec fn is_file(files: Seq<FileModel>, id: FileId) -> bool {
    find_file(files, id).is_some()
}

/// Whether a folder with this number exists.
pub open spec fn is_folder(folders: Seq<FolderModel>, id: FolderId) -> bool {
    find_folder(folders, id).is_some()
}

/// Whether a folder is paused by what lies in it: it is if something does, and all
/// of it is paused.
pub open spec fn folder_paused(
    f: FolderModel,
    files: Seq<FileModel>,
    folders: Seq<FolderModel>,
) -> bool {
    &&& (exists|i: int| 0 <= i < f.child_files.len() && is_file(files, #[trigger] f.child_files[i]))
        || (exists|i: int|
        0 <= i < f.child_folders.len() && is_folder(folders, #[trigger] f.child_folders[i]))
    &&& forall|i: int|
        0 <= i < f.child_files.len() && is_file(files, #[trigger] f.child_files[i])
            ==> files[find_file(files, f.child_files[i])->0].is_paused
    &&& forall|i: int|
        0 <= i < f.child_folders.len() && is_folder(folders, #[trigger] f.child_folders[i])
            ==> folders[find_folder(folders, f.child_folders[i])->0].is_paused
}

/// What becomes of the folders from `at` upwards after something below was paused
/// or taken up: each that follows hands the change on.
pub open spec fn raise_pause(
    files: Seq<FileModel>,
    folders: Seq<FolderModel>,
    at: Option<FolderId>,
    steps: nat,
) -> (Seq<FolderModel>, Seq<ChangedItemPause>)
    decreases steps,
{
    if steps == 0 || at.is_none() || find_folder(folders, at->0).is_none() {
        (folders, Seq::empty())
    } else {
        let i = find_folder(folders, at->0)->0;
        let is_paused = folder_paused(folders[i], files, folders);
        if is_paused == folders[i].is_paused {
            (folders, Seq::empty())
        } else {
            let next = folders.update(i, FolderModel { is_paused, ..folders[i] });
            let rest = raise_pause(files, next, folders[i].parent_id, (steps - 1) as nat);
            (rest.0, seq![ChangedItemPause::Folder { id: at->0, is_paused }] + rest.1)
        }
    }
}

/// Whether the root is paused, if there is one.
pub open spec fn root_paused(d: DownloadModel) -> Option<bool> {
    match d.root_item {
        ItemId::File(id) => match find_file(d.files, id) {
            Some(i) => Some(d.files[i].is_paused),
            None => None,
        },
        ItemId::Folder(id) => match find_folder(d.folders, id) {
            Some(i) => Some(d.folders[i].is_paused),
            None => None,
        },
    }
}

/// A download that follows its root, and the note of it if that is new.
pub open spec fn settle_pause(d: DownloadModel) -> (DownloadModel, Seq<ChangedItemPause>) {
    match root_paused(d) {
        Some(is_paused) => if is_paused != d.is_paused {
            (DownloadModel { is_paused, ..d }, seq![ChangedItemPause::Download(is_paused)])
        } else {
            (d, Seq::empty())
        },
        None => (d, Seq::empty()),
    }
}

/// What becomes of a download when the file at place `i` is paused or taken up.
pub open spec fn pause_at(d: DownloadModel, i: int, is_paused: bool) -> (
    DownloadModel,
    Seq<ChangedItemPause>,
) {
    if d.files[i].is_paused == is_paused {
        (d, Seq::empty())
    } else {
        let files = d.files.update(i, FileModel { is_paused, ..d.files[i] });
        let raised = raise_pause(files, d.folders, d.files[i].parent_id, d.folders.len());
        (
            DownloadModel { files, folders: raised.0, ..d },
            seq![ChangedItemPause::File { id: d.files[i].id, is_paused }] + raised.1,
        )
    }
}

/// What becomes of a download when the first `n` files, one after the other, are
/// paused or taken up.
pub open spec fn pause_first(d: DownloadModel, n: nat, is_paused: bool) -> (
    DownloadModel,
    Seq<ChangedItemPause>,
)
    decreases n,
{
    if n == 0 {
        (d, Seq::empty())
    } else {
        let before = pause_first(d, (n - 1) as nat, is_paused);
        let last = pause_at(before.0, n - 1, is_paused);
        (last.0, before.1 + last.1)
    }
}

/// What becomes of a download that is paused or taken up, and what changed.
pub open spec fn spec_set_paused(d: DownloadModel, is_paused: bool) -> (
    DownloadModel,
    Seq<ChangedItemPause>,
) {
    let all = pause_first(d, d.files.len(), is_paused);
    let settled = settle_pause(all.0);
    (settled.0, all.1 + settled.1)
}

/// Carrying a pause upwards keeps the number of folders and everything of them but
/// whether they are paused.
pub proof fn lemma_raise_pause_shape(
    files: Seq<FileModel>,
    folders: Seq<FolderModel>,
    at: Option<FolderId>,
    steps: nat,
)
    ensures
        raise_pause(files, folders, at, steps).0.len() == folders.len(),
        forall|k: int|
            0 <= k < folders.len() ==> #[trigger] raise_pause(files, folders, at, steps).0[k] == (
            FolderModel {
                is_paused: raise_pause(files, folders, at, steps).0[k].is_paused,
                ..folders[k]
            }),
    decreases steps,
{
    if !(steps == 0 || at.is_none() || find_folder(folders, at->0).is_none()) {
        let i = find_folder(folders, at->0)->0;
        assert(0 <= i < folders.len()) by {
            assert(exists|k: int| 0 <= k < folders.len() && (#[trigger] folders[k]).id == at->0);
        }
        let is_paused = folder_paused(folders[i], files, folders);
        if is_paused != folders[i].is_paused {
            let next = folders.update(i, FolderModel { is_paused, ..folders[i] });
            lemma_raise_pause_shape(files, next, folders[i].parent_id, (steps - 1) as nat);
        }
    }
}

/// After the first `n` files were paused or taken up, they are, the others are as
/// before, and of no file anything else has changed.
pub proof fn lemma_pause_first(d: DownloadModel, n: nat, is_paused: bool)
    requires
        n <= d.files.len(),
    ensures
        ({
            let after = pause_first(d, n, is_paused).0;
            &&& after.files.len() == d.files.len()
            &&& after.folders.len() == d.folders.len()
            &&& forall|k: int|
                0 <= k < d.files.len() ==> #[trigger] after.files[k] == (FileModel {
                    is_paused: if k < n {
                        is_paused
                    } else {
                        d.files[k].is_paused
                    },
                    ..d.files[k]
                })
            &&& after == (DownloadModel { files: after.files, folders: after.folders, ..d })
        }),
    decreases n,
{
    if n > 0 {
        lemma_pause_first(d, (n - 1) as nat, is_paused);
        let before = pause_first(d, (n - 1) as nat, is_paused).0;
        let i = n - 1;
        let files = before.files.update(i, FileModel { is_paused, ..before.files[i] });
        lemma_raise_pause_shape(files, before.folders, before.files[i].parent_id, before.folders.len());
        let after = pause_first(d, n, is_paused).0;
        assert(after == pause_at(before, i, is_paused).0);
        assert forall|k: int| 0 <= k < d.files.len() implies #[trigger] after.files[k] == (
        FileModel {
            is_paused: if k < n {
                is_paused
            } else {
                d.files[k].is_paused
            },
            ..d.files[k]
        }) by {
            assert(before.files[k].url == d.files[k].url);
        }
    }
}

/// Pausing pauses every file, taking up takes up every file, and of a file nothing
/// else changes.
pub proof fn law_set_paused_reaches_every_file(d: DownloadModel, is_paused: bool)
    ensures
        ({
            let after = spec_set_paused(d, is_paused).0;
            &&& after.files.len() == d.files.len()
            &&& forall|k: int|
                0 <= k < d.files.len() ==> #[trigger] after.files[k] == (FileModel {
                    is_paused,
                    ..d.files[k]
                })
        }),
{
    lemma_pause_first(d, d.files.len(), is_paused);
}

/// A file that is alone in its download hands on whether it is paused.
pub proof fn law_single_file_pauses_download(d: DownloadModel, is_paused: bool)
    requires
        d.files.len() == 1,
        d.root_item == ItemId::File(d.files[0].id),
    ensures
        spec_set_paused(d, is_paused).0.is_paused == is_paused,
{
    lemma_pause_first(d, d.files.len(), is_paused);
    let all = pause_first(d, d.files.len(), is_paused).0;
    assert(all.files[0].id == d.files[0].id);
    assert(find_file(all.files, d.files[0].id) == Some(0int));
}

impl Download {
    /// Whether a folder is paused by what lies in it.
    pub fn calculate_folder_pause_state(&self, folder_id: FolderId) -> (r: bool)
        requires
            self.wf(),
        ensures
            r == match find_folder(self@.folders, folder_id) {
                Some(i) => folder_paused(self@.folders[i], self@.files, self@.folders),
                None => false,
            },
    {
        let folder = match self.folders.get(folder_id) {
            Some(folder) => folder,
            None => {
                return false;
            },
        };
        let ghost f = folder@;
        let mut found = false;
        let mut i: usize = 0;
        while i < folder.child_folders.len()
            invariant
                i <= folder.child_folders@.len(),
                self.wf(),
                folder@ == f,
                find_folder(self@.folders, folder_id) matches Some(k) && self@.folders[k] == f,
                found == (exists|k: int|
                    0 <= k < i && is_folder(self@.folders, #[trigger] f.child_folders[k])),
                forall|k: int|
                    0 <= k < i && is_folder(self@.folders, #[trigger] f.child_folders[k])
                        ==> self@.folders[find_folder(
                        self@.folders,
                        f.child_folders[k],
                    )->0].is_paused,
            decreases folder.child_folders@.len() - i,
        {
            if let Some(child) = self.folders.get(folder.child_folders[i]) {
                assert(is_folder(self@.folders, f.child_folders[i as int]));
                if !child.is_paused {
                    return false;
                }
                found = true;
            }
            i += 1;
        }
        let ghost some_folder = found;
        let mut j: usize = 0;
        while j < folder.child_files.len()
            invariant
                j <= folder.child_files@.len(),
                self.wf(),
                folder@ == f,
                find_folder(self@.folders, folder_id) matches Some(k) && self@.folders[k] == f,
                found == (some_folder || exists|k: int|
                    0 <= k < j && is_file(self@.files, #[trigger] f.child_files[k])),
                forall|k: int|
                    0 <= k < j && is_file(self@.files, #[trigger] f.child_files[k])
                        ==> self@.files[find_file(self@.files, f.child_files[k])->0].is_paused,
            decreases folder.child_files@.len() - j,
        {
            if let Some(child) = self.files.get(folder.child_files[j]) {
                assert(is_file(self@.files, f.child_files[j as int]));
                if !child.is_paused {
                    return false;
                }
                found = true;
            }
            j += 1;
        }
        found
    }

    fn raise_pause(&mut self, at: Option<FolderId>, changed: &mut Vec<ChangedItemPause>)
        requires
            old(self).wf(),
        ensures
            final(self).wf(),
            ({
                let raised = raise_pause(
                    old(self)@.files,
                    old(self)@.folders,
                    at,
                    old(self)@.folders.len(),
                );
                &&& final(self)@ == (DownloadModel { folders: raised.0, ..old(self)@ })
                &&& final(changed)@ == old(changed)@ + raised.1
            }),
    {
        let ghost start = self@;
        let ghost told_before = changed@;
        let ghost raised = raise_pause(start.files, start.folders, at, start.folders.len());
        let mut current: Option<FolderId> = at;
        let mut steps: usize = self.folders.items.len();
        assert(self@ =~= (DownloadModel { folders: self@.folders, ..start }));
        while steps > 0 && current.is_some()
            invariant
                self.wf(),
                self@ == (DownloadModel { folders: self@.folders, ..start }),
                ({
                    let rest = raise_pause(start.files, self@.folders, current, steps as nat);
                    raised.0 == rest.0 && told_before + raised.1 == changed@ + rest.1
                }),
            decreases steps,
        {
            let parent_id: FolderId = current.unwrap();
            steps -= 1;
            match self.folders.find(parent_id) {
                None => {
                    current = None;
                },
                Some(k) => {
                    let ghost folders = self@.folders;
                    let ghost told = changed@;
                    let is_paused = self.calculate_folder_pause_state(parent_id);
                    if is_paused != self.folders.items[k].is_paused {
                        let parent = self.folders.items[k].parent_id;
                        self.folders.items[k].is_paused = is_paused;
                        changed.push(ChangedItemPause::Folder { id: parent_id, is_paused });
                        proof {
                            let next = folders.update(
                                k as int,
                                FolderModel { is_paused, ..folders[k as int] },
                            );
                            assert(self@.folders =~= next);
                            assert(self@ =~= (DownloadModel { folders: next, ..start }));
                            let rest = raise_pause(start.files, next, parent, steps as nat);
                            let note = seq![ChangedItemPause::Folder { id: parent_id, is_paused }];
                            assert(told + (note + rest.1) =~= changed@ + rest.1);
                        }
                        current = parent;
                    } else {
                        current = None;
                    }
                },
            }
        }
        assert(changed@ + Seq::<ChangedItemPause>::empty() =~= changed@);
    }

    fn pause_at(&mut self, i: usize, is_paused: bool, changed: &mut Vec<ChangedItemPause>)
        requires
            old(self).wf(),
            i < old(self)@.files.len(),
        ensures
            final(self).wf(),
            final(self)@ == pause_at(old(self)@, i as int, is_paused).0,
            final(changed)@ == old(changed)@ + pause_at(old(self)@, i as int, is_paused).1,
    {
        let ghost start = self@;
        let ghost told = changed@;
        if self.files.items[i].is_paused == is_paused {
            assert(told + Seq::<ChangedItemPause>::empty() =~= told);
            return ;
        }
        let id = self.files.items[i].id;
        let parent = self.files.items[i].parent_id;
        self.files.items[i].is_paused = is_paused;
        changed.push(ChangedItemPause::File { id, is_paused });
        proof {
            let files = start.files.update(
                i as int,
                FileModel { is_paused, ..start.files[i as int] },
            );
            assert(self@.files =~= files);
            assert(self@ =~= (DownloadModel { files, ..start }));
        }
        self.raise_pause(parent, changed);
        proof {
            let one = pause_at(start, i as int, is_paused);
            assert(self@ =~= one.0);
            assert(changed@ =~= told + one.1);
        }
    }

    /// Pauses every file, or takes every file up again. The folders above follow,
    /// and so does the download; what changed is told.
    pub fn set_paused(&mut self, is_paused: bool) -> (changed: Vec<ChangedItemPause>)
        requires
            old(self).wf(),
        ensures
            final(self).wf(),
            final(self)@ == spec_set_paused(old(self)@, is_paused).0,
            changed@ == spec_set_paused(old(self)@, is_paused).1,
            tree_ok(old(self)@) ==> tree_ok(final(self)@),
    {
        let ghost start = self@;
        proof {
            law_set_paused_tells_every_change(start, is_paused);
            if tree_ok(start) {
                lemma_same_tree(start, spec_set_paused(start, is_paused).0);
            }
        }
        let mut changed: Vec<ChangedItemPause> = Vec::new();
        let n: usize = self.files.items.len();
        let mut i: usize = 0;
        while i < n
            invariant
                i <= n,
                n == self@.files.len(),
                n == start.files.len(),
                self.wf(),
                self@ == pause_first(start, i as nat, is_paused).0,
                changed@ == pause_first(start, i as nat, is_paused).1,
            decreases n - i,
        {
            proof {
                lemma_pause_first(start, (i + 1) as nat, is_paused);
            }
            self.pause_at(i, is_paused, &mut changed);
            i += 1;
        }
        let ghost all = self@;
        let ghost told = changed@;
        let root: Option<bool> = match self.root_item {
            ItemId::File(id) => match self.files.get(id) {
                Some(file) => Some(file.is_paused),
                None => None,
            },
            ItemId::Folder(id) => match self.folders.get(id) {
                Some(folder) => Some(folder.is_paused),
                None => None,
            },
        };
        if let Some(root_paused) = root {
            if root_paused != self.is_paused {
                self.is_paused = root_paused;
                changed.push(ChangedItemPause::Download(root_paused));
            }
        }
        assert(self@ =~= settle_pause(all).0);
        assert(changed@ =~= told + settle_pause(all).1);
        changed
    }
}

} // verus!
