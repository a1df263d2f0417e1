//! The files and the folders of a download, each found by its number.

use vstd::prelude::*;
use crate::download::items::{FileDownload, FileId, FolderDownload, FolderId};
#[allow(unused_imports)]
use crate::download::items::{FileModel, FolderModel};
use crate::utils::id_index::IdIndex;

verus! {

/// The files of a download, in the order in which they were found.
pub struct FileTable {
    pub index: IdIndex,
    pub items: Vec<FileDownload>,
}

/// The folders of a download, in the order in which they were made.
pub struct FolderTable {
    pub index: IdIndex,
    pub items: Vec<FolderDownload>,
}

/// The place of a file with this number.
pub open spec fn find_file(files: Seq<FileModel>, id: FileId) -> Option<int> {
    if exists|i: int| 0 <= i < files.len() && (#[trigger] files[i]).id == id {
        Some(choose|i: int| 0 <= i < files.len() && (#[trigger] files[i]).id == id)
    } else {
        None
    }
}

/// The place of a folder with this number.
pub open spec fn find_folder(folders: Seq<FolderModel>, id: FolderId) -> Option<int> {
    if exists|i: int| 0 <= i < folders.len() && (#[trigger] folders[i]).id == id {
        Some(choose|i: int| 0 <= i < folders.len() && (#[trigger] folders[i]).id == id)
    } else {
        None
    }
}

/// No number is given to two files.
pub open spec fn unique_files(files: Seq<FileModel>) -> bool {
    forall|i: int, j: int|
        0 <= i < files.len() && 0 <= j < files.len() && (#[trigger] files[i]).id
            == (#[trigger] files[j]).id ==> i == j
}

/// No number is given to two folders.
pub open spec fn unique_folders(folders: Seq<FolderModel>) -> bool {
    forall|i: int, j: int|
        0 <= i < folders.len() && 0 <= j < folders.len() && (#[trigger] folders[i]).id
            == (#[trigger] folders[j]).id ==> i == j
}

/// A table of files with one more: in the place of the one with the same number,
/// or at the end.
pub open spec fn with_file(files: Seq<FileModel>, file: FileModel) -> Seq<FileModel> {
    match find_file(files, file.id) {
        Some(i) => files.update(i, file),
        None => files.push(file),
    }
}

/// A table of folders with one more: in the place of the one with the same
/// number, or at the end.
pub open spec fn with_folder(folders: Seq<FolderModel>, folder: FolderModel) -> Seq<FolderModel> {
    match find_folder(folders, folder.id) {
        Some(i) => folders.update(i, folder),
        None => folders.push(folder),
    }
}

impl View for FileTable {
    type V = Seq<FileModel>;

    open spec fn view(&self) -> Seq<FileModel> {
        Seq::new(self.items@.len(), |i: int| self.items@[i]@)
    }
}

impl View for FolderTable {
    type V = Seq<FolderModel>;

    open spec fn view(&self) -> Seq<FolderModel> {
        Seq::new(self.items@.len(), |i: int| self.items@[i]@)
    }
}

impl FileTable {
    /// The index holds the number of each file at the file's place, and no number
    /// twice.
    pub open spec fn wf(&self) -> bool {
        &&& self.index@.len() == self.items@.len()
        &&& forall|i: int|
            0 <= i < self.items@.len() ==> self.index@[i] == (#[trigger] self.items@[i]).id.0
        &&& unique_files(self@)
    }

    /// No files.
    pub fn new() -> (r: Self)
        ensures
            r.wf(),
            r@ == Seq::<FileModel>::empty(),
    {
        let r = FileTable { index: IdIndex::new(), items: Vec::new() };
        assert(r@ =~= Seq::<FileModel>::empty());
        r
    }

    /// The place of a file.
    pub fn find(&self, id: FileId) -> (r: Option<usize>)
        requires
            self.wf(),
        ensures
            match r {
                Some(i) => i < self@.len() && i < self.items@.len() && self@[i as int].id == id
                    && find_file(self@, id) == Some(i as int),
                None => find_file(self@, id).is_none(),
            },
    {
        let r = self.index.position(id.0);
        proof {
            match r {
                Some(i) => {
                    assert(self.items@[i as int].id == id);
                    assert(self@[i as int].id == id);
                    let j = find_file(self@, id)->0;
                    assert(self@[j].id == id);
                },
                None => {
                    assert forall|i: int| 0 <= i < self@.len() implies (#[trigger] self@[i]).id
                        != id by {
                        assert(self.items@[i].id.0 == self.index@[i]);
                        assert(self.index@.contains(self.index@[i]));
                    }
                },
            }
        }
        r
    }

    /// The file with this number.
    pub fn get(&self, id: FileId) -> (r: Option<&FileDownload>)
        requires
            self.wf(),
        ensures
            match r {
                Some(f) => find_file(self@, id) matches Some(i) && f@ == self@[i],
                None => find_file(self@, id).is_none(),
            },
    {
        match self.find(id) {
            Some(i) => Some(&self.items[i]),
            None => None,
        }
    }

    /// Takes in a file; one with the same number makes room for it.
    pub fn insert(&mut self, file: FileDownload)
        requires
            old(self).wf(),
        ensures
            final(self).wf(),
            final(self)@ == with_file(old(self)@, file@),
    {
        let ghost before = self@;
        match self.find(file.id) {
            Some(i) => {
                let ghost model = file@;
                self.items[i] = file;
                assert(self@ =~= before.update(i as int, model));
            },
            None => {
                let ghost model = file@;
                proof {
                    if self.index@.contains(file.id.0) {
                        let k = choose|k: int|
                            0 <= k < self.index@.len() && self.index@[k] == file.id.0;
                        assert(self.items@[k].id == file.id);
                        assert(self@[k].id == file.id);
                    }
                }
                self.index.insert(file.id.0);
                self.items.push(file);
                assert(self@ =~= before.push(model));
                proof {
                    assert forall|i: int, j: int|
                        0 <= i < self@.len() && 0 <= j < self@.len() && (#[trigger] self@[i]).id
                            == (#[trigger] self@[j]).id implies i == j by {
                        if i < before.len() {
                            assert(before[i].id == self@[i].id);
                        }
                        if j < before.len() {
                            assert(before[j].id == self@[j].id);
                        }
                    }
                }
            },
        }
    }
}

impl FolderTable {
    /// The index holds the number of each folder at the folder's place, and no
    /// number twice.
    pub open spec fn wf(&self) -> bool {
        &&& self.index@.len() == self.items@.len()
        &&& forall|i: int|
            0 <= i < self.items@.len() ==> self.index@[i] == (#[trigger] self.items@[i]).id.0
        &&& unique_folders(self@)
    }

    /// No folders.
    pub fn new() -> (r: Self)
        ensures
            r.wf(),
            r@ == Seq::<FolderModel>::empty(),
    {
        let r = FolderTable { index: IdIndex::new(), items: Vec::new() };
        assert(r@ =~= Seq::<FolderModel>::empty());
        r
    }

    /// The place of a folder.
    pub fn find(&self, id: FolderId) -> (r: Option<usize>)
        requires
            self.wf(),
        ensures
            match r {
                Some(i) => i < self@.len() && i < self.items@.len() && self@[i as int].id == id
                    && find_folder(self@, id) == Some(i as int),
                None => find_folder(self@, id).is_none(),
            },
    {
        let r = self.index.position(id.0);
        proof {
            match r {
                Some(i) => {
                    assert(self.items@[i as int].id == id);
                    assert(self@[i as int].id == id);
                    let j = find_folder(self@, id)->0;
                    assert(self@[j].id == id);
                },
                None => {
                    assert forall|i: int| 0 <= i < self@.len() implies (#[trigger] self@[i]).id
                        != id by {
                        assert(self.items@[i].id.0 == self.index@[i]);
                        assert(self.index@.contains(self.index@[i]));
                    }
                },
            }
        }
        r
    }

    /// The folder with this number.
    pub fn get(&self, id: FolderId) -> (r: Option<&FolderDownload>)
        requires
            self.wf(),
        ensures
            match r {
                Some(f) => find_folder(self@, id) matches Some(i) && f@ == self@[i],
                None => find_folder(self@, id).is_none(),
            },
    {
        match self.find(id) {
            Some(i) => Some(&self.items[i]),
            None => None,
        }
    }

    /// Takes in a folder; one with the same number makes room for it.
    pub fn insert(&mut self, folder: FolderDownload)
        requires
            old(self).wf(),
        ensures
            final(self).wf(),
            final(self)@ == with_folder(old(self)@, folder@),
    {
        let ghost before = self@;
        match self.find(folder.id) {
            Some(i) => {
                let ghost model = folder@;
                self.items[i] = folder;
                assert(self@ =~= before.update(i as int, model));
            },
            None => {
                let ghost model = folder@;
                proof {
                    if self.index@.contains(folder.id.0) {
                        let k = choose|k: int|
                            0 <= k < self.index@.len() && self.index@[k] == folder.id.0;
                        assert(self.items@[k].id == folder.id);
                        assert(self@[k].id == folder.id);
                    }
                }
                self.index.insert(folder.id.0);
                self.items.push(folder);
                assert(self@ =~= before.push(model));
                proof {
                    assert forall|i: int, j: int|
                        0 <= i < self@.len() && 0 <= j < self@.len() && (#[trigger] self@[i]).id
                            == (#[trigger] self@[j]).id implies i == j by {
                        if i < before.len() {
                            assert(before[i].id == self@[i].id);
                        }
                        if j < before.len() {
                            assert(before[j].id == self@[j].id);
                        }
                    }
                }
            },
        }
    }
}

} // verus!
