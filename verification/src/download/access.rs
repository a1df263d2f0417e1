//! Looking at a download, its files and its folders.

use vstd::prelude::*;
#[allow(unused_imports)]
use crate::download::file_name::chosen_name;
use crate::download::items::{
    ActiveOperation, DownloadId, DownloadItem, FileDownload, FileId, FolderDownload, FolderId,
    ItemId,
};
#[allow(unused_imports)]
use crate::download::items::{FileModel, FolderModel};
use crate::download::status::DownloadStatus;
use crate::download::tables::{FileTable, FolderTable};
#[allow(unused_imports)]
use crate::download::tables::{find_file, find_folder};
use crate::download::tree::Download;
#[allow(unused_imports)]
use crate::download::tree::DownloadModel;
use crate::utils::paths::ItemPath;

verus! {

/// A file or a folder, in mathematical values.
pub enum ItemModel {
    File(FileModel),
    Folder(FolderModel),
}

impl ItemModel {
    /// The folder that the item lies in.
    pub open spec fn parent(self) -> Option<FolderId> {
        match self {
            ItemModel::File(f) => f.parent_id,
            ItemModel::Folder(f) => f.parent_id,
        }
    }

    /// The item's number.
    pub open spec fn id(self) -> ItemId {
        match self {
            ItemModel::File(f) => ItemId::File(f.id),
            ItemModel::Folder(f) => ItemId::Folder(f.id),
        }
    }

    /// Where the item lies on disk.
    pub open spec fn path(self) -> Seq<Seq<u8>> {
        match self {
            ItemModel::File(f) => f.path,
            ItemModel::Folder(f) => f.path,
        }
    }

    /// The item's name.
    pub open spec fn name(self) -> Seq<char> {
        match self {
            ItemModel::File(f) => chosen_name(f.name),
            ItemModel::Folder(f) => f.name,
        }
    }

    /// What is being done for the item.
    pub open spec fn operation(self) -> Option<ActiveOperation> {
        match self {
            ItemModel::File(f) => f.active_operation,
            ItemModel::Folder(f) => f.active_operation,
        }
    }

    /// How far the item has come.
    pub open spec fn status(self) -> DownloadStatus {
        match self {
            ItemModel::File(f) => f.status.spec_as_download_status(),
            ItemModel::Folder(f) => f.status,
        }
    }

    /// Whether the item is paused.
    pub open spec fn paused(self) -> bool {
        match self {
            ItemModel::File(f) => f.is_paused,
            ItemModel::Folder(f) => f.is_paused,
        }
    }
}

/// A file or a folder.
pub enum DownloadType {
    File(FileDownload),
    Folder(FolderDownload),
}

/// A file or a folder that belongs to somebody else.
pub enum DownloadTypeRef<'a> {
    File(&'a FileDownload),
    Folder(&'a FolderDownload),
}

/// A file, or a folder without children, beside its number.
pub enum BaseItemRef<'a> {
    File(FileId, &'a FileDownload),
    Folder(FolderId, &'a FolderDownload),
}

impl View for DownloadType {
    type V = ItemModel;

    open spec fn view(&self) -> ItemModel {
        match *self {
            DownloadType::File(file) => ItemModel::File(file@),
            DownloadType::Folder(folder) => ItemModel::Folder(folder@),
        }
    }
}

impl<'a> View for DownloadTypeRef<'a> {
    type V = ItemModel;

    open spec fn view(&self) -> ItemModel {
        match *self {
            DownloadTypeRef::File(file) => ItemModel::File(file@),
            DownloadTypeRef::Folder(folder) => ItemModel::Folder(folder@),
        }
    }
}

impl<'a> View for BaseItemRef<'a> {
    type V = ItemModel;

    open spec fn view(&self) -> ItemModel {
        match *self {
            BaseItemRef::File(_, file) => ItemModel::File(file@),
            BaseItemRef::Folder(_, folder) => ItemModel::Folder(folder@),
        }
    }
}

impl DownloadType {
    /// How far the item has come.
    pub fn as_download_status(&self) -> (r: DownloadStatus)
        ensures
            r == self@.status(),
    {
        match self {
            DownloadType::Folder(folder) => folder.status,
            DownloadType::File(file) => file.status.as_download_status(),
        }
    }
}

impl DownloadItem for DownloadType {
    type Id = ItemId;

    type Status = DownloadStatus;

    open spec fn spec_parent_id(&self) -> Option<FolderId> {
        self@.parent()
    }

    open spec fn spec_id(&self) -> ItemId {
        self@.id()
    }

    open spec fn spec_path(&self) -> Seq<Seq<u8>> {
        self@.path()
    }

    open spec fn spec_name(&self) -> Seq<char> {
        self@.name()
    }

    open spec fn spec_operation(&self) -> Option<ActiveOperation> {
        self@.operation()
    }

    open spec fn spec_status(&self) -> DownloadStatus {
        self@.status()
    }

    open spec fn spec_paused(&self) -> bool {
        self@.paused()
    }

    fn parent_id(&self) -> (r: Option<FolderId>) {
        match self {
            DownloadType::File(file) => file.parent_id,
            DownloadType::Folder(folder) => folder.parent_id,
        }
    }

    fn id(&self) -> (r: ItemId) {
        match self {
            DownloadType::File(file) => ItemId::File(file.id),
            DownloadType::Folder(folder) => ItemId::Folder(folder.id),
        }
    }

    fn relative_path(&self) -> (r: &ItemPath) {
        match self {
            DownloadType::File(file) => &file.relative_path,
            DownloadType::Folder(folder) => &folder.relative_path,
        }
    }

    fn name(&self) -> (r: &str) {
        match self {
            DownloadType::File(file) => file.filename.as_str(),
            DownloadType::Folder(folder) => folder.folder_name.as_str(),
        }
    }

    fn active_operation(&self) -> (r: Option<ActiveOperation>) {
        match self {
            DownloadType::File(file) => file.active_operation,
            DownloadType::Folder(folder) => folder.active_operation,
        }
    }

    fn status(&self) -> (r: DownloadStatus) {
        self.as_download_status()
    }

    fn is_paused(&self) -> (r: bool) {
        match self {
            DownloadType::File(file) => file.is_paused,
            DownloadType::Folder(folder) => folder.is_paused,
        }
    }
}

impl<'a> DownloadItem for DownloadTypeRef<'a> {
    type Id = ItemId;

    type Status = DownloadStatus;

    open spec fn spec_parent_id(&self) -> Option<FolderId> {
        self@.parent()
    }

    open spec fn spec_id(&self) -> ItemId {
        self@.id()
    }

    open spec fn spec_path(&self) -> Seq<Seq<u8>> {
        self@.path()
    }

    open spec fn spec_name(&self) -> Seq<char> {
        self@.name()
    }

    open spec fn spec_operation(&self) -> Option<ActiveOperation> {
        self@.operation()
    }

    open spec fn spec_status(&self) -> DownloadStatus {
        self@.status()
    }

    open spec fn spec_paused(&self) -> bool {
        self@.paused()
    }

    fn parent_id(&self) -> (r: Option<FolderId>) {
        match self {
            DownloadTypeRef::File(file) => file.parent_id,
            DownloadTypeRef::Folder(folder) => folder.parent_id,
        }
    }

    fn id(&self) -> (r: ItemId) {
        match self {
            DownloadTypeRef::File(file) => ItemId::File(file.id),
            DownloadTypeRef::Folder(folder) => ItemId::Folder(folder.id),
        }
    }

    fn relative_path(&self) -> (r: &ItemPath) {
        match self {
            DownloadTypeRef::File(file) => &file.relative_path,
            DownloadTypeRef::Folder(folder) => &folder.relative_path,
        }
    }

    fn name(&self) -> (r: &str) {
        match self {
            DownloadTypeRef::File(file) => file.filename.as_str(),
            DownloadTypeRef::Folder(folder) => folder.folder_name.as_str(),
        }
    }

    fn active_operation(&self) -> (r: Option<ActiveOperation>) {
        match self {
            DownloadTypeRef::File(file) => file.active_operation,
            DownloadTypeRef::Folder(folder) => folder.active_operation,
        }
    }

    fn status(&self) -> (r: DownloadStatus) {
        match self {
            DownloadTypeRef::File(file) => file.status.as_download_status(),
            DownloadTypeRef::Folder(folder) => folder.status,
        }
    }

    fn is_paused(&self) -> (r: bool) {
        match self {
            DownloadTypeRef::File(file) => file.is_paused,
            DownloadTypeRef::Folder(folder) => folder.is_paused,
        }
    }
}

impl<'a> DownloadItem for BaseItemRef<'a> {
    type Id = ItemId;

    type Status = DownloadStatus;

    open spec fn spec_parent_id(&self) -> Option<FolderId> {
        self@.parent()
    }

    open spec fn spec_id(&self) -> ItemId {
        match *self {
            BaseItemRef::File(id, _) => ItemId::File(id),
            BaseItemRef::Folder(id, _) => ItemId::Folder(id),
        }
    }

    open spec fn spec_path(&self) -> Seq<Seq<u8>> {
        self@.path()
    }

    open spec fn spec_name(&self) -> Seq<char> {
        self@.name()
    }

    open spec fn spec_operation(&self) -> Option<ActiveOperation> {
        self@.operation()
    }

    open spec fn spec_status(&self) -> DownloadStatus {
        self@.status()
    }

    open spec fn spec_paused(&self) -> bool {
        self@.paused()
    }

    fn parent_id(&self) -> (r: Option<FolderId>) {
        match self {
            BaseItemRef::File(_, file) => file.parent_id,
            BaseItemRef::Folder(_, folder) => folder.parent_id,
        }
    }

    fn id(&self) -> (r: ItemId) {
        match self {
            BaseItemRef::File(id, _) => ItemId::File(*id),
            BaseItemRef::Folder(id, _) => ItemId::Folder(*id),
        }
    }

    fn relative_path(&self) -> (r: &ItemPath) {
        match self {
            BaseItemRef::File(_, file) => &file.relative_path,
            BaseItemRef::Folder(_, folder) => &folder.relative_path,
        }
    }

    fn name(&self) -> (r: &str) {
        match self {
            BaseItemRef::File(_, file) => file.filename.as_str(),
            BaseItemRef::Folder(_, folder) => folder.folder_name.as_str(),
        }
    }

    fn active_operation(&self) -> (r: Option<ActiveOperation>) {
        match self {
            BaseItemRef::File(_, file) => file.active_operation,
            BaseItemRef::Folder(_, folder) => folder.active_operation,
        }
    }

    fn status(&self) -> (r: DownloadStatus) {
        match self {
            BaseItemRef::File(_, file) => file.status.as_download_status(),
            BaseItemRef::Folder(_, folder) => folder.status,
        }
    }

    fn is_paused(&self) -> (r: bool) {
        match self {
            BaseItemRef::File(_, file) => file.is_paused,
            BaseItemRef::Folder(_, folder) => folder.is_paused,
        }
    }
}

/// Items, in mathematical values.
pub open spec fn base_items_view(v: Seq<BaseItemRef>) -> Seq<(ItemId, ItemModel)> {
    v.map_values(|b: BaseItemRef| (b.spec_id(), b@))
}

/// Items, in mathematical values.
pub open spec fn items_view(v: Seq<DownloadTypeRef>) -> Seq<ItemModel> {
    v.map_values(|d: DownloadTypeRef| d@)
}

/// The folders without children.
pub open spec fn empty_folders(folders: Seq<FolderModel>) -> Seq<(ItemId, ItemModel)>
    decreases folders.len(),
{
    if folders.len() == 0 {
        Seq::empty()
    } else {
        let before = empty_folders(folders.drop_last());
        let f = folders.last();
        if f.child_files.len() == 0 && f.child_folders.len() == 0 {
            before.push((ItemId::Folder(f.id), ItemModel::Folder(f)))
        } else {
            before
        }
    }
}

/// The items without children: all the files, and then the folders that have none.
pub open spec fn base_items(d: DownloadModel) -> Seq<(ItemId, ItemModel)> {
    d.files.map_values(|f: FileModel| (ItemId::File(f.id), ItemModel::File(f))) + empty_folders(
        d.folders,
    )
}

/// The folders that some numbers belong to.
pub open spec fn folders_of(folders: Seq<FolderModel>, ids: Seq<FolderId>) -> Seq<ItemModel>
    decreases ids.len(),
{
    if ids.len() == 0 {
        Seq::empty()
    } else {
        let before = folders_of(folders, ids.drop_last());
        match find_folder(folders, ids.last()) {
            Some(i) => before.push(ItemModel::Folder(folders[i])),
            None => before,
        }
    }
}

/// The files that some numbers belong to.
pub open spec fn files_of(files: Seq<FileModel>, ids: Seq<FileId>) -> Seq<ItemModel>
    decreases ids.len(),
{
    if ids.len() == 0 {
        Seq::empty()
    } else {
        let before = files_of(files, ids.drop_last());
        match find_file(files, ids.last()) {
            Some(i) => before.push(ItemModel::File(files[i])),
            None => before,
        }
    }
}

/// The item at the root of a download.
pub open spec fn root_of(d: DownloadModel) -> Option<ItemModel> {
    match d.root_item {
        ItemId::Folder(id) => match find_folder(d.folders, id) {
            Some(i) => Some(ItemModel::Folder(d.folders[i])),
            None => None,
        },
        ItemId::File(id) => match find_file(d.files, id) {
            Some(i) => Some(ItemModel::File(d.files[i])),
            None => None,
        },
    }
}

impl Download {
    /// The URL that was asked for.
    pub fn url(&self) -> (r: &String)
        ensures
            r@ == self@.url,
    {
        &self.url
    }

    /// The number of the download.
    pub fn id(&self) -> (r: DownloadId)
        ensures
            r == self@.id,
    {
        self.id
    }

    /// The file with this number.
    pub fn get_file(&self, id: &FileId) -> (r: Option<&FileDownload>)
        requires
            self.wf(),
        ensures
            match r {
                Some(f) => find_file(self@.files, *id) matches Some(i) && f@ == self@.files[i],
                None => find_file(self@.files, *id).is_none(),
            },
    {
        self.files.get(*id)
    }

    /// The files.
    pub fn files(&self) -> (r: &FileTable)
        ensures
            r@ == self@.files,
    {
        &self.files
    }

    /// The folders.
    pub fn folders(&self) -> (r: &FolderTable)
        ensures
            r@ == self@.folders,
    {
        &self.folders
    }

    /// Where the download lies on disk.
    pub fn relative_path(&self) -> (r: &ItemPath)
        ensures
            r@ == self@.save_path,
    {
        &self.save_path
    }

    /// How far the download has come.
    pub fn status(&self) -> (r: DownloadStatus)
        ensures
            r == self@.status,
    {
        self.status
    }

    /// What is being done for the download.
    pub fn active_operation(&self) -> (r: Option<ActiveOperation>)
        ensures
            r == self@.active_operation,
    {
        self.active_operation
    }

    /// Whether the download is paused.
    pub fn is_paused(&self) -> (r: bool)
        ensures
            r == self@.is_paused,
    {
        self.is_paused
    }

    /// Whether everything is there.
    pub fn is_completed(&self) -> (r: bool)
        ensures
            r == (self@.status == DownloadStatus::Completed),
    {
        match self.status {
            DownloadStatus::Completed => true,
            _ => false,
        }
    }

    /// The item at the root.
    pub fn root_item(&self) -> (r: Option<DownloadTypeRef<'_>>)
        requires
            self.wf(),
        ensures
            match r {
                Some(item) => root_of(self@) == Some(item@),
                None => root_of(self@).is_none(),
            },
    {
        match self.root_item {
            ItemId::Folder(id) => match self.folders.get(id) {
                Some(folder) => Some(DownloadTypeRef::Folder(folder)),
                None => None,
            },
            ItemId::File(id) => match self.files.get(id) {
                Some(file) => Some(DownloadTypeRef::File(file)),
                None => None,
            },
        }
    }

    /// The items without children: all the files, and then the folders that have none.
    pub fn base_item_iter(&self) -> (r: Vec<BaseItemRef<'_>>)
        ensures
            base_items_view(r@) == base_items(self@),
    {
        let mut r: Vec<BaseItemRef<'_>> = Vec::new();
        let ghost files = self@.files.map_values(
            |f: FileModel| (ItemId::File(f.id), ItemModel::File(f)),
        );
        let n: usize = self.files.items.len();
        let mut i: usize = 0;
        assert(base_items_view(r@) =~= files.take(0));
        while i < n
            invariant
                i <= n,
                n == self.files.items@.len(),
                files == self@.files.map_values(
                    |f: FileModel| (ItemId::File(f.id), ItemModel::File(f)),
                ),
                base_items_view(r@) == files.take(i as int),
            decreases n - i,
        {
            let ghost before = r@;
            let file = &self.files.items[i];
            r.push(BaseItemRef::File(file.id, file));
            assert(self@.files[i as int] == file@);
            assert(base_items_view(r@) =~= base_items_view(before).push(files[i as int]));
            i += 1;
            assert(base_items_view(r@) =~= files.take(i as int));
        }
        assert(files.take(n as int) =~= files);
        let ghost folders = self@.folders;
        let count: usize = self.folders.items.len();
        let mut k: usize = 0;
        assert(folders.take(0) =~= Seq::<FolderModel>::empty());
        assert(base_items_view(r@) =~= files + empty_folders(folders.take(0)));
        while k < count
            invariant
                k <= count,
                count == self.folders.items@.len(),
                folders == self@.folders,
                base_items_view(r@) == files + empty_folders(folders.take(k as int)),
            decreases count - k,
        {
            let ghost before = r@;
            let folder = &self.folders.items[k];
            proof {
                assert(folders[k as int] == folder@);
                assert(folders.take(k + 1).drop_last() =~= folders.take(k as int));
                assert(folders.take(k + 1).last() == folder@);
            }
            if folder.child_files.len() == 0 && folder.child_folders.len() == 0 {
                r.push(BaseItemRef::Folder(folder.id, folder));
                assert(base_items_view(r@) =~= base_items_view(before).push(
                    (ItemId::Folder(folder.id), ItemModel::Folder(folder@)),
                ));
                assert(base_items_view(r@) =~= files + empty_folders(folders.take(k + 1)));
            }
            k += 1;
        }
        assert(folders.take(count as int) =~= folders);
        r
    }

    /// The children of a folder that there are: the folders first, and then the files.
    pub fn folder_child_items(&self, folder: &FolderDownload) -> (r: Vec<DownloadTypeRef<'_>>)
        requires
            self.wf(),
        ensures
            items_view(r@) == folders_of(self@.folders, folder@.child_folders) + files_of(
                self@.files,
                folder@.child_files,
            ),
    {
        let mut r: Vec<DownloadTypeRef<'_>> = Vec::new();
        let ghost inner = folder.child_folders@;
        let n: usize = folder.child_folders.len();
        let mut i: usize = 0;
        assert(inner.take(0) =~= Seq::<FolderId>::empty());
        assert(items_view(r@) =~= Seq::<ItemModel>::empty());
        while i < n
            invariant
                i <= n,
                self.wf(),
                n == folder.child_folders@.len(),
                inner == folder.child_folders@,
                items_view(r@) == folders_of(self@.folders, inner.take(i as int)),
            decreases n - i,
        {
            let ghost before = r@;
            proof {
                assert(inner.take(i + 1).drop_last() =~= inner.take(i as int));
                assert(inner.take(i + 1).last() == inner[i as int]);
            }
            if let Some(child) = self.folders.get(folder.child_folders[i]) {
                r.push(DownloadTypeRef::Folder(child));
                assert(items_view(r@) =~= items_view(before).push(ItemModel::Folder(child@)));
            }
            i += 1;
        }
        assert(inner.take(n as int) =~= inner);
        let ghost ids = folder.child_files@;
        let ghost first = items_view(r@);
        let count: usize = folder.child_files.len();
        let mut k: usize = 0;
        assert(ids.take(0) =~= Seq::<FileId>::empty());
        assert(items_view(r@) =~= first + files_of(self@.files, ids.take(0)));
        while k < count
            invariant
                k <= count,
                self.wf(),
                count == folder.child_files@.len(),
                ids == folder.child_files@,
                items_view(r@) == first + files_of(self@.files, ids.take(k as int)),
            decreases count - k,
        {
            let ghost before = r@;
            proof {
                assert(ids.take(k + 1).drop_last() =~= ids.take(k as int));
                assert(ids.take(k + 1).last() == ids[k as int]);
            }
            if let Some(child) = self.files.get(folder.child_files[k]) {
                r.push(DownloadTypeRef::File(child));
                assert(items_view(r@) =~= items_view(before).push(ItemModel::File(child@)));
                assert(items_view(r@) =~= first + files_of(self@.files, ids.take(k + 1)));
            }
            k += 1;
        }
        assert(ids.take(count as int) =~= ids);
        r
    }
}

impl FolderDownload {
    /// The files that lie in the folder.
    pub fn child_files(&self) -> (r: &Vec<FileId>)
        ensures
            r@ == self@.child_files,
    {
        &self.child_files
    }

    /// The folders that lie in the folder.
    pub fn child_folders(&self) -> (r: &Vec<FolderId>)
        ensures
            r@ == self@.child_folders,
    {
        &self.child_folders
    }
}

} // verus!
