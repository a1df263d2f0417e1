//! What is being done for a download, from its files upwards.

use vstd::prelude::*;
use crate::download::items::{
    ActiveOperation, ChangedItemOperation, FileId, FolderId, ItemId,
};
#[allow(unused_imports)]
use crate::download::items::{FileModel, FolderModel};
#[allow(unused_imports)]
use crate::download::tables::{find_file, find_folder};
use crate::download::tree::Download;
#[allow(unused_imports)]
use crate::download::tree::DownloadModel;
#[allow(unused_imports)]
use crate::download::tree_laws::{lemma_same_tree, tree_ok};

verus! {

/// What is being done for a file with this number, if it exists.
pub open spec fn file_operation(files: Seq<FileModel>, id: FileId) -> Option<ActiveOperation> {
    match find_file(files, id) {
        Some(i) => files[i].active_operation,
        None => None,
    }
}

/// What is being done for a folder with this number, if it exists.
pub open spec fn subfolder_operation(folders: Seq<FolderModel>, id: FolderId) -> Option<
    ActiveOperation,
> {
    match find_folder(folders, id) {
        Some(i) => folders[i].active_operation,
        None => None,
    }
}

/// What is being done for the first of the files for which something is.
pub open spec fn first_file_operation(ids: Seq<FileId>, files: Seq<FileModel>) -> Option<
    ActiveOperation,
>
    decreases ids.len(),
{
    if ids.len() == 0 {
        None
    } else if file_operation(files, ids[0]).is_some() {
        file_operation(files, ids[0])
    } else {
        first_file_operation(ids.drop_first(), files)
    }
}

/// What is being done for the first of the folders for which something is.
pub open spec fn first_folder_operation(ids: Seq<FolderId>, folders: Seq<FolderModel>) -> Option<
    ActiveOperation,
>
    decreases ids.len(),
{
    if ids.len() == 0 {
        None
    } else if subfolder_operation(folders, ids[0]).is_some() {
        subfolder_operation(folders, ids[0])
    } else {
        first_folder_operation(ids.drop_first(), folders)
    }
}

/// What is being done for a folder: what is done for the first of its files for
/// which something is, or else for the first such folder in it.
pub open spec fn folder_operation(
    f: FolderModel,
    files: Seq<FileModel>,
    folders: Seq<FolderModel>,
) -> Option<ActiveOperation> {
    match first_file_operation(f.child_files, files) {
        Some(op) => Some(op),
        None => first_folder_operation(f.child_folders, folders),
    }
}

/// What becomes of the folders from `at` upwards after something below changed:
/// each that follows with another operation hands the change on.
pub open spec fn raise_operation(
    files: Seq<FileModel>,
    folders: Seq<FolderModel>,
    at: Option<FolderId>,
    steps: nat,
) -> (Seq<FolderModel>, Seq<ChangedItemOperation>)
    decreases steps,
{
    if steps == 0 || at.is_none() || find_folder(folders, at->0).is_none() {
        (folders, Seq::empty())
    } else {
        let i = find_folder(folders, at->0)->0;
        let operation = folder_operation(folders[i], files, folders);
        if operation == folders[i].active_operation {
            (folders, Seq::empty())
        } else {
            let next = folders.update(
                i,
                FolderModel { active_operation: operation, ..folders[i] },
            );
            let rest = raise_operation(files, next, folders[i].parent_id, (steps - 1) as nat);
            (rest.0, seq![ChangedItemOperation::Folder { id: at->0, operation }] + rest.1)
        }
    }
}

/// What is being done for the root, if there is one.
pub open spec fn root_operation(d: DownloadModel) -> Option<Option<ActiveOperation>> {
    match d.root_item {
        ItemId::File(id) => match find_file(d.files, id) {
            Some(i) => Some(d.files[i].active_operation),
            None => None,
        },
        ItemId::Folder(id) => match find_folder(d.folders, id) {
            Some(i) => Some(d.folders[i].active_operation),
            None => None,
        },
    }
}

/// A download that follows its root, and the note of it if that is new.
pub open spec fn settle_operation(d: DownloadModel) -> (DownloadModel, Seq<ChangedItemOperation>) {
    match root_operation(d) {
        Some(operation) => if operation != d.active_operation {
            (
                DownloadModel { active_operation: operation, ..d },
                seq![ChangedItemOperation::Download(operation)],
            )
        } else {
            (d, Seq::empty())
        },
        None => (d, Seq::empty()),
    }
}

/// What becomes of a download when the file at place `i` gets another operation,
/// before the download itself follows. A file that is done gets none.
pub open spec fn operate_at(
    d: DownloadModel,
    i: int,
    operation: Option<ActiveOperation>,
) -> (DownloadModel, Seq<ChangedItemOperation>) {
    if d.files[i].status.spec_is_terminal() {
        (d, Seq::empty())
    } else {
        let files = d.files.update(
            i,
            FileModel { active_operation: operation, ..d.files[i] },
        );
        let raised = raise_operation(files, d.folders, d.files[i].parent_id, d.folders.len());
        (
            DownloadModel { files, folders: raised.0, ..d },
            seq![ChangedItemOperation::File { id: d.files[i].id, operation }] + raised.1,
        )
    }
}

/// What becomes of a download when the first `n` files, one after the other, get
/// another operation.
pub open spec fn operate_first(
    d: DownloadModel,
    n: nat,
    operation: Option<ActiveOperation>,
) -> (DownloadModel, Seq<ChangedItemOperation>)
    decreases n,
{
    if n == 0 {
        (d, Seq::empty())
    } else {
        let before = operate_first(d, (n - 1) as nat, operation);
        let last = operate_at(before.0, n - 1, operation);
        (last.0, before.1 + last.1)
    }
}

/// What becomes of a download when every file that is not done gets another
/// operation.
pub open spec fn spec_set_active_operation(
    d: DownloadModel,
    operation: Option<ActiveOperation>,
) -> (DownloadModel, Seq<ChangedItemOperation>) {
    let all = operate_first(d, d.files.len(), operation);
    let settled = settle_operation(all.0);
    (settled.0, all.1 + settled.1)
}

/// What becomes of a download when one file gets another operation. If that file
/// is done, nothing does.
pub open spec fn spec_set_file_active_operation(
    d: DownloadModel,
    id: FileId,
    operation: Option<ActiveOperation>,
) -> (DownloadModel, Seq<ChangedItemOperation>) {
    match find_file(d.files, id) {
        Some(i) => if d.files[i].status.spec_is_terminal() {
            (d, Seq::empty())
        } else {
            let one = operate_at(d, i, operation);
            let settled = settle_operation(one.0);
            (settled.0, one.1 + settled.1)
        },
        None => settle_operation(d),
    }
}

/// No operation gives or takes a file or a folder, nor changes anything but the
/// operations.
pub proof fn lemma_operate_keeps_shape(
    d: DownloadModel,
    i: int,
    operation: Option<ActiveOperation>,
)
    requires
        0 <= i < d.files.len(),
    ensures
        operate_at(d, i, operation).0.files.len() == d.files.len(),
        operate_at(d, i, operation).0.folders.len() == d.folders.len(),
{
    let files = d.files.update(i, FileModel { active_operation: operation, ..d.files[i] });
    lemma_raise_operation_shape(files, d.folders, d.files[i].parent_id, d.folders.len());
}

/// Carrying an operation upwards keeps the number of folders and everything of
/// them but their operations.
pub proof fn lemma_raise_operation_shape(
    files: Seq<FileModel>,
    folders: Seq<FolderModel>,
    at: Option<FolderId>,
    steps: nat,
)
    ensures
        raise_operation(files, folders, at, steps).0.len() == folders.len(),
        forall|k: int|
            0 <= k < folders.len() ==> #[trigger] raise_operation(files, folders, at, steps).0[k]
                == (FolderModel {
                active_operation: raise_operation(
                    files,
                    folders,
                    at,
                    steps,
                ).0[k].active_operation,
                ..folders[k]
            }),
    decreases steps,
{
    if !(steps == 0 || at.is_none() || find_folder(folders, at->0).is_none()) {
        let i = find_folder(folders, at->0)->0;
        assert(0 <= i < folders.len()) by {
            assert(exists|k: int| 0 <= k < folders.len() && (#[trigger] folders[k]).id == at->0);
        }
        let operation = folder_operation(folders[i], files, folders);
        if operation != folders[i].active_operation {
            let next = folders.update(
                i,
                FolderModel { active_operation: operation, ..folders[i] },
            );
            lemma_raise_operation_shape(files, next, folders[i].parent_id, (steps - 1) as nat);
        }
    }
}

impl Download {
    /// What is being done for a folder, by what is done for its children.
    pub fn calculate_folder_operation(&self, folder_id: FolderId) -> (r: Option<ActiveOperation>)
        requires
            self.wf(),
        ensures
            r == match find_folder(self@.folders, folder_id) {
                Some(i) => folder_operation(self@.folders[i], self@.files, self@.folders),
                None => None,
            },
    {
        let folder = match self.folders.get(folder_id) {
            Some(folder) => folder,
            None => {
                return None;
            },
        };
        let ghost f = folder@;
        assert(folder.child_files@.skip(0) =~= folder.child_files@);
        assert(folder.child_folders@.skip(0) =~= folder.child_folders@);
        let mut i: usize = 0;
        while i < folder.child_files.len()
            invariant
                i <= folder.child_files@.len(),
                self.wf(),
                first_file_operation(folder.child_files@, self@.files) == first_file_operation(
                    folder.child_files@.skip(i as int),
                    self@.files,
                ),
                folder@ == f,
                find_folder(self@.folders, folder_id) matches Some(k) && self@.folders[k] == f,
            decreases folder.child_files@.len() - i,
        {
            let ghost ids = folder.child_files@.skip(i as int);
            assert(ids[0] == folder.child_files@[i as int]);
            assert(ids.drop_first() =~= folder.child_files@.skip(i + 1));
            if let Some(file) = self.files.get(folder.child_files[i]) {
                if file.active_operation.is_some() {
                    return file.active_operation;
                }
            }
            i += 1;
        }
        assert(folder.child_files@.skip(i as int) =~= Seq::<FileId>::empty());
        let mut j: usize = 0;
        while j < folder.child_folders.len()
            invariant
                j <= folder.child_folders@.len(),
                self.wf(),
                first_file_operation(folder.child_files@, self@.files).is_none(),
                first_folder_operation(folder.child_folders@, self@.folders)
                    == first_folder_operation(
                    folder.child_folders@.skip(j as int),
                    self@.folders,
                ),
                folder@ == f,
                find_folder(self@.folders, folder_id) matches Some(k) && self@.folders[k] == f,
            decreases folder.child_folders@.len() - j,
        {
            let ghost ids = folder.child_folders@.skip(j as int);
            assert(ids[0] == folder.child_folders@[j as int]);
            assert(ids.drop_first() =~= folder.child_folders@.skip(j + 1));
            if let Some(child) = self.folders.get(folder.child_folders[j]) {
                if child.active_operation.is_some() {
                    return child.active_operation;
                }
            }
            j += 1;
        }
        assert(folder.child_folders@.skip(j as int) =~= Seq::<FolderId>::empty());
        None
    }

    fn raise_operation(
        &mut self,
        at: Option<FolderId>,
        changed: &mut Vec<ChangedItemOperation>,
    )
        requires
            old(self).wf(),
        ensures
            final(self).wf(),
            ({
                let raised = raise_operation(
                    old(self)@.files,
                    old(self)@.folders,
                    at,
                    old(self)@.folders.len(),
                );
                &&& final(self)@ == (DownloadModel { folders: raised.0, ..old(self)@ })
                &&& final(changed)@ == old(changed)@ + raised.1
            }),
    {
        let ghost start = self@;
        let ghost told_before = changed@;
        let ghost raised = raise_operation(start.files, start.folders, at, start.folders.len());
        let mut current: Option<FolderId> = at;
        let mut steps: usize = self.folders.items.len();
        assert(self@ =~= (DownloadModel { folders: self@.folders, ..start }));
        while steps > 0 && current.is_some()
            invariant
                self.wf(),
                self@ == (DownloadModel { folders: self@.folders, ..start }),
                ({
                    let rest = raise_operation(
                        start.files,
                        self@.folders,
                        current,
                        steps as nat,
                    );
                    raised.0 == rest.0 && told_before + raised.1 == changed@ + rest.1
                }),
            decreases steps,
        {
            let parent_id: FolderId = current.unwrap();
            steps -= 1;
            match self.folders.find(parent_id) {
                None => {
                    current = None;
                },
                Some(k) => {
                    let ghost folders = self@.folders;
                    let ghost told = changed@;
                    let operation = self.calculate_folder_operation(parent_id);
                    if operation != self.folders.items[k].active_operation {
                        let parent = self.folders.items[k].parent_id;
                        self.folders.items[k].active_operation = operation;
                        changed.push(ChangedItemOperation::Folder { id: parent_id, operation });
                        proof {
                            let next = folders.update(
                                k as int,
                                FolderModel {
                                    active_operation: operation,
                                    ..folders[k as int]
                                },
                            );
                            assert(self@.folders =~= next);
                            assert(self@ =~= (DownloadModel { folders: next, ..start }));
                            let rest = raise_operation(
                                start.files,
                                next,
                                parent,
                                steps as nat,
                            );
                            let note = seq![
                                ChangedItemOperation::Folder { id: parent_id, operation },
                            ];
                            assert(told + (note + rest.1) =~= changed@ + rest.1);
                        }
                        current = parent;
                    } else {
                        current = None;
                    }
                },
            }
        }
        assert(changed@ + Seq::<ChangedItemOperation>::empty() =~= changed@);
    }

    /// Takes over what is being done for the root.
    fn settle_operation(&mut self, changed: &mut Vec<ChangedItemOperation>)
        requires
            old(self).wf(),
        ensures
            final(self).wf(),
            final(self)@ == settle_operation(old(self)@).0,
            final(changed)@ == old(changed)@ + settle_operation(old(self)@).1,
    {
        let ghost start = self@;
        let root: Option<Option<ActiveOperation>> = match self.root_item {
            ItemId::File(id) => match self.files.get(id) {
                Some(file) => Some(file.active_operation),
                None => None,
            },
            ItemId::Folder(id) => match self.folders.get(id) {
                Some(folder) => Some(folder.active_operation),
                None => None,
            },
        };
        assert(root == root_operation(start));
        if let Some(operation) = root {
            if operation != self.active_operation {
                self.active_operation = operation;
                changed.push(ChangedItemOperation::Download(operation));
            }
        }
        assert(self@ =~= settle_operation(start).0);
        assert(changed@ =~= old(changed)@ + settle_operation(start).1);
    }

    fn operate_at(
        &mut self,
        i: usize,
        operation: Option<ActiveOperation>,
        changed: &mut Vec<ChangedItemOperation>,
    )
        requires
            old(self).wf(),
            i < old(self)@.files.len(),
        ensures
            final(self).wf(),
            final(self)@ == operate_at(old(self)@, i as int, operation).0,
            final(changed)@ == old(changed)@ + operate_at(old(self)@, i as int, operation).1,
    {
        let ghost start = self@;
        let ghost told = changed@;
        if self.files.items[i].status.is_terminal() {
            assert(told + Seq::<ChangedItemOperation>::empty() =~= told);
            return ;
        }
        let id = self.files.items[i].id;
        let parent = self.files.items[i].parent_id;
        self.files.items[i].active_operation = operation;
        changed.push(ChangedItemOperation::File { id, operation });
        proof {
            let files = start.files.update(
                i as int,
                FileModel { active_operation: operation, ..start.files[i as int] },
            );
            assert(self@.files =~= files);
            assert(self@ =~= (DownloadModel { files, ..start }));
        }
        self.raise_operation(parent, changed);
        proof {
            let one = operate_at(start, i as int, operation);
            assert(self@ =~= one.0);
            assert(changed@ =~= told + one.1);
        }
    }

    /// Notes what is being done for every file that is not done. The folders above
    /// follow, and so does the download; what changed is told.
    pub fn set_active_operation(&mut self, operation: Option<ActiveOperation>) -> (changed: Vec<
        ChangedItemOperation,
    >)
        requires
            old(self).wf(),
        ensures
            final(self).wf(),
            final(self)@ == spec_set_active_operation(old(self)@, operation).0,
            changed@ == spec_set_active_operation(old(self)@, operation).1,
            tree_ok(old(self)@) ==> tree_ok(final(self)@),
    {
        let ghost start = self@;
        proof {
            law_operations_change_nothing_else(start, operation);
            if tree_ok(start) {
                lemma_same_tree(start, spec_set_active_operation(start, operation).0);
            }
        }
        let mut changed: Vec<ChangedItemOperation> = Vec::new();
        let n: usize = self.files.items.len();
        let mut i: usize = 0;
        while i < n
            invariant
                i <= n,
                n == self@.files.len(),
                n == start.files.len(),
                self.wf(),
                self@ == operate_first(start, i as nat, operation).0,
                changed@ == operate_first(start, i as nat, operation).1,
            decreases n - i,
        {
            proof {
                lemma_operate_keeps_shape(self@, i as int, operation);
            }
            self.operate_at(i, operation, &mut changed);
            i += 1;
        }
        self.settle_operation(&mut changed);
        changed
    }

    /// Notes what is being done for one file. The folders above follow, and so does
    /// the download; what changed is told. For a file that is done nothing changes.
    pub fn set_file_active_operation(
        &mut self,
        file_id: FileId,
        operation: Option<ActiveOperation>,
    ) -> (changed: Vec<ChangedItemOperation>)
        requires
            old(self).wf(),
        ensures
            final(self).wf(),
            final(self)@ == spec_set_file_active_operation(old(self)@, file_id, operation).0,
            changed@ == spec_set_file_active_operation(old(self)@, file_id, operation).1,
            tree_ok(old(self)@) ==> tree_ok(final(self)@),
    {
        proof {
            law_one_operation_changes_nothing_else(self@, file_id, operation);
            if tree_ok(self@) {
                lemma_same_tree(self@, spec_set_file_active_operation(self@, file_id, operation).0);
            }
        }
        let mut changed: Vec<ChangedItemOperation> = Vec::new();
        if let Some(i) = self.files.find(file_id) {
            if self.files.items[i].status.is_terminal() {
                return changed;
            }
            self.operate_at(i, operation, &mut changed);
            proof {
                let one = operate_at(old(self)@, i as int, operation);
                assert(changed@ =~= one.1);
            }
        }
        self.settle_operation(&mut changed);
        proof {
            if find_file(old(self)@.files, file_id).is_none() {
                assert(changed@ =~= settle_operation(old(self)@).1);
            }
        }
        changed
    }
}

/// Whether two downloads differ in nothing but what is being done for them.
pub open spec fn same_but_operations(a: DownloadModel, b: DownloadModel) -> bool {
    &&& a == (DownloadModel {
        active_operation: a.active_operation,
        files: a.files,
        folders: a.folders,
        ..b
    })
    &&& a.files.len() == b.files.len()
    &&& forall|k: int|
        0 <= k < a.files.len() ==> #[trigger] a.files[k] == (FileModel {
            active_operation: a.files[k].active_operation,
            ..b.files[k]
        })
    &&& a.folders.len() == b.folders.len()
    &&& forall|k: int|
        0 <= k < a.folders.len() ==> #[trigger] a.folders[k] == (FolderModel {
            active_operation: a.folders[k].active_operation,
            ..b.folders[k]
        })
}

proof fn lemma_operate_at_same(
    d: DownloadModel,
    start: DownloadModel,
    i: int,
    operation: Option<ActiveOperation>,
)
    requires
        0 <= i < d.files.len(),
        same_but_operations(d, start),
    ensures
        same_but_operations(operate_at(d, i, operation).0, start),
{
    let files = d.files.update(i, FileModel { active_operation: operation, ..d.files[i] });
    let after = operate_at(d, i, operation).0;
    lemma_raise_operation_shape(files, d.folders, d.files[i].parent_id, d.folders.len());
    if !d.files[i].status.spec_is_terminal() {
        assert forall|k: int| 0 <= k < after.files.len() implies #[trigger] after.files[k] == (
        FileModel { active_operation: after.files[k].active_operation, ..start.files[k] }) by {
            assert(d.files[k] == (FileModel {
                active_operation: d.files[k].active_operation,
                ..start.files[k]
            }));
        }
        assert forall|k: int| 0 <= k < after.folders.len() implies #[trigger] after.folders[k] == (
        FolderModel { active_operation: after.folders[k].active_operation, ..start.folders[k] }) by {
            assert(d.folders[k] == (FolderModel {
                active_operation: d.folders[k].active_operation,
                ..start.folders[k]
            }));
        }
    }
}

/// Noting what is done for some files changes nothing else.
pub proof fn lemma_operate_first_same(d: DownloadModel, n: nat, operation: Option<ActiveOperation>)
    requires
        n <= d.files.len(),
    ensures
        same_but_operations(operate_first(d, n, operation).0, d),
    decreases n,
{
    if n > 0 {
        lemma_operate_first_same(d, (n - 1) as nat, operation);
        lemma_operate_at_same(
            operate_first(d, (n - 1) as nat, operation).0,
            d,
            n - 1,
            operation,
        );
    }
}

/// What is being done for a download says nothing of its state: noting it changes
/// nothing else, and every file that is not done has it noted.
pub proof fn law_operations_change_nothing_else(
    d: DownloadModel,
    operation: Option<ActiveOperation>,
)
    ensures
        same_but_operations(spec_set_active_operation(d, operation).0, d),
        forall|k: int|
            0 <= k < d.files.len() ==> (#[trigger] spec_set_active_operation(
                d,
                operation,
            ).0.files[k]).active_operation == if d.files[k].status.spec_is_terminal() {
                d.files[k].active_operation
            } else {
                operation
            },
{
    lemma_operate_first_same(d, d.files.len(), operation);
    assert forall|k: int| 0 <= k < d.files.len() implies (#[trigger] spec_set_active_operation(
        d,
        operation,
    ).0.files[k]).active_operation == if d.files[k].status.spec_is_terminal() {
        d.files[k].active_operation
    } else {
        operation
    } by {
        lemma_operated_file(d, d.files.len(), operation, k);
    }
}

proof fn lemma_operated_file(
    d: DownloadModel,
    n: nat,
    operation: Option<ActiveOperation>,
    k: int,
)
    requires
        n <= d.files.len(),
        0 <= k < d.files.len(),
    ensures
        operate_first(d, n, operation).0.files[k].active_operation == if k < n
            && !d.files[k].status.spec_is_terminal() {
            operation
        } else {
            d.files[k].active_operation
        },
    decreases n,
{
    if n > 0 {
        lemma_operated_file(d, (n - 1) as nat, operation, k);
        lemma_operate_first_same(d, (n - 1) as nat, operation);
        let before = operate_first(d, (n - 1) as nat, operation).0;
        assert(before.files[n - 1] == (FileModel {
            active_operation: before.files[n - 1].active_operation,
            ..d.files[n - 1]
        }));
    }
}

/// Noting what is being done for one file changes nothing else.
pub proof fn law_one_operation_changes_nothing_else(
    d: DownloadModel,
    id: FileId,
    operation: Option<ActiveOperation>,
)
    ensures
        same_but_operations(spec_set_file_active_operation(d, id, operation).0, d),
{
    if find_file(d.files, id).is_some() {
        let i = find_file(d.files, id)->0;
        assert(0 <= i < d.files.len()) by {
            assert(exists|k: int| 0 <= k < d.files.len() && (#[trigger] d.files[k]).id == id);
        }
        lemma_operate_at_same(d, d, i, operation);
    }
}

} // verus!
