//! What a watching client is told: single updates, gathered into differences.

use std::collections::{HashMap, HashSet};

use vstd::prelude::*;
use crate::download::items::{
    ActiveOperation, ChangedItemOperation, ChangedItemStatus, DownloadId, FileId, FileSize,
    FolderId,
};
use crate::download::status::{DownloadStatus, FileStatus};
use crate::download::tree::Download;
use crate::utils::paths::ItemPath;

verus! {

broadcast use vstd::std_specs::hash::group_hash_axioms;

/// Something about a file that changed.
#[allow(inconsistent_fields)]
#[derive(Debug, Clone, Copy, PartialEq, Eq, Structural)]
pub enum FileUpdate {
    Status { id: FileId, status: FileStatus },
    Operation { id: FileId, operation: Option<ActiveOperation> },
    Hash { id: FileId, hash: u128 },
    FileSize { id: FileId, len: u64 },
    BytesDownloaded { id: FileId, len: u64 },
}

/// Something about a folder that changed.
#[allow(inconsistent_fields)]
#[derive(Debug, Clone, Copy, PartialEq, Eq, Structural)]
pub enum FolderUpdate {
    Status { id: FolderId, status: DownloadStatus },
    Operation { id: FolderId, operation: Option<ActiveOperation> },
}

/// Something about an item that changed.
#[derive(Debug, Clone, Copy, PartialEq, Eq, Structural)]
pub enum ItemUpdate {
    File(FileUpdate),
    Folder(FolderUpdate),
}

/// Something about a download that changed.
#[allow(inconsistent_fields)]
#[derive(Debug, Clone, Copy, PartialEq, Eq, Structural)]
pub enum DownloadUpdate {
    StatusChanged { id: DownloadId, status: DownloadStatus },
    OperationChanged { id: DownloadId, operation: Option<ActiveOperation> },
    ItemUpdated { id: DownloadId, item_update: ItemUpdate },
}

impl FileUpdate {
    /// The file that an update is about.
    pub open spec fn spec_id(self) -> FileId {
        match self {
            FileUpdate::Status { id, .. } => id,
            FileUpdate::Operation { id, .. } => id,
            FileUpdate::Hash { id, .. } => id,
            FileUpdate::FileSize { id, .. } => id,
            FileUpdate::BytesDownloaded { id, .. } => id,
        }
    }

    /// The file that the update is about.
    pub fn id(&self) -> (r: FileId)
        ensures
            r == self.spec_id(),
    {
        match self {
            FileUpdate::Status { id, .. } => *id,
            FileUpdate::Operation { id, .. } => *id,
            FileUpdate::Hash { id, .. } => *id,
            FileUpdate::FileSize { id, .. } => *id,
            FileUpdate::BytesDownloaded { id, .. } => *id,
        }
    }
}

impl FolderUpdate {
    /// The folder that an update is about.
    pub open spec fn spec_id(self) -> FolderId {
        match self {
            FolderUpdate::Status { id, .. } => id,
            FolderUpdate::Operation { id, .. } => id,
        }
    }

    /// The folder that the update is about.
    pub fn id(&self) -> (r: FolderId)
        ensures
            r == self.spec_id(),
    {
        match self {
            FolderUpdate::Status { id, .. } => *id,
            FolderUpdate::Operation { id, .. } => *id,
        }
    }
}

impl DownloadUpdate {
    /// The download that an update is about.
    pub open spec fn spec_id(self) -> DownloadId {
        match self {
            DownloadUpdate::StatusChanged { id, .. } => id,
            DownloadUpdate::OperationChanged { id, .. } => id,
            DownloadUpdate::ItemUpdated { id, .. } => id,
        }
    }

    /// The download that the update is about.
    pub fn id(&self) -> (r: DownloadId)
        ensures
            r == self.spec_id(),
    {
        match self {
            DownloadUpdate::StatusChanged { id, .. } => *id,
            DownloadUpdate::OperationChanged { id, .. } => *id,
            DownloadUpdate::ItemUpdated { id, .. } => *id,
        }
    }
}

/// What has changed about a file. What is `None` has not.
pub struct FileDiff {
    pub parent_id: Option<Option<FolderId>>,
    pub status: Option<FileStatus>,
    pub active_operation: Option<Option<ActiveOperation>>,
    pub url: Option<String>,
    pub file_name: Option<String>,
    pub relative_path: Option<ItemPath>,
    pub hash: Option<u128>,
    pub size: Option<FileSize>,
    pub bytes_downloaded: Option<u64>,
}

/// What has changed about a folder. What is `None` has not.
pub struct FolderDiff {
    pub parent_id: Option<Option<FolderId>>,
    pub status: Option<DownloadStatus>,
    pub active_operation: Option<Option<ActiveOperation>>,
    pub folder_name: Option<String>,
    pub relative_path: Option<ItemPath>,
    pub child_files: Option<Vec<FileId>>,
    pub child_folders: Option<Vec<FolderId>>,
}

/// What has changed about an item.
pub enum ItemDiff {
    File(FileDiff),
    Folder(FolderDiff),
}

/// What has changed about a download, with its files and folders by number.
pub struct DownloadDiff {
    pub url: Option<String>,
    pub relative_path: Option<ItemPath>,
    pub status: Option<DownloadStatus>,
    pub active_operation: Option<Option<ActiveOperation>>,
    pub files: HashMap<usize, FileDiff>,
    pub folders: HashMap<usize, FolderDiff>,
}

/// What has changed about a download, in mathematical values.
pub struct DownloadDiffModel {
    pub url: Option<String>,
    pub relative_path: Option<ItemPath>,
    pub status: Option<DownloadStatus>,
    pub active_operation: Option<Option<ActiveOperation>>,
    pub files: Map<usize, FileDiff>,
    pub folders: Map<usize, FolderDiff>,
}

impl View for DownloadDiff {
    type V = DownloadDiffModel;

    open spec fn view(&self) -> DownloadDiffModel {
        DownloadDiffModel {
            url: self.url,
            relative_path: self.relative_path,
            status: self.status,
            active_operation: self.active_operation,
            files: self.files@,
            folders: self.folders@,
        }
    }
}

impl FileDiff {
    /// No change.
    pub open spec fn none() -> FileDiff {
        FileDiff {
            parent_id: None,
            status: None,
            active_operation: None,
            url: None,
            file_name: None,
            relative_path: None,
            hash: None,
            size: None,
            bytes_downloaded: None,
        }
    }

    /// A difference with one more update. What was known of the same thing before
    /// is forgotten.
    pub open spec fn updated(self, update: FileUpdate) -> FileDiff {
        match update {
            FileUpdate::Status { status, .. } => FileDiff { status: Some(status), ..self },
            FileUpdate::Operation { operation, .. } => FileDiff {
                active_operation: Some(operation),
                ..self
            },
            FileUpdate::Hash { hash, .. } => FileDiff { hash: Some(hash), ..self },
            FileUpdate::FileSize { len, .. } => FileDiff {
                size: Some(FileSize::Known(len)),
                ..self
            },
            FileUpdate::BytesDownloaded { len, .. } => FileDiff {
                bytes_downloaded: Some(len),
                ..self
            },
        }
    }

    /// No change.
    pub fn new() -> (r: Self)
        ensures
            r == FileDiff::none(),
    {
        FileDiff {
            parent_id: None,
            status: None,
            active_operation: None,
            url: None,
            file_name: None,
            relative_path: None,
            hash: None,
            size: None,
            bytes_downloaded: None,
        }
    }

    /// Takes one more update in.
    pub fn update(&mut self, update: FileUpdate)
        ensures
            *final(self) == old(self).updated(update),
    {
        match update {
            FileUpdate::Status { status, .. } => {
                self.status = Some(status);
            },
            FileUpdate::Operation { operation, .. } => {
                self.active_operation = Some(operation);
            },
            FileUpdate::Hash { hash, .. } => {
                self.hash = Some(hash);
            },
            FileUpdate::FileSize { len, .. } => {
                self.size = Some(FileSize::Known(len));
            },
            FileUpdate::BytesDownloaded { len, .. } => {
                self.bytes_downloaded = Some(len);
            },
        }
    }
}

impl FolderDiff {
    /// No change.
    pub open spec fn none() -> FolderDiff {
        FolderDiff {
            parent_id: None,
            status: None,
            active_operation: None,
            folder_name: None,
            relative_path: None,
            child_files: None,
            child_folders: None,
        }
    }

    /// A difference with one more update. What was known of the same thing before
    /// is forgotten.
    pub open spec fn updated(self, update: FolderUpdate) -> FolderDiff {
        match update {
            FolderUpdate::Status { status, .. } => FolderDiff { status: Some(status), ..self },
            FolderUpdate::Operation { operation, .. } => FolderDiff {
                active_operation: Some(operation),
                ..self
            },
        }
    }

    /// No change.
    pub fn new() -> (r: Self)
        ensures
            r == FolderDiff::none(),
    {
        FolderDiff {
            parent_id: None,
            status: None,
            active_operation: None,
            folder_name: None,
            relative_path: None,
            child_files: None,
            child_folders: None,
        }
    }

    /// Takes one more update in.
    pub fn update(&mut self, update: FolderUpdate)
        ensures
            *final(self) == old(self).updated(update),
    {
        match update {
            FolderUpdate::Status { status, .. } => {
                self.status = Some(status);
            },
            FolderUpdate::Operation { operation, .. } => {
                self.active_operation = Some(operation);
            },
        }
    }
}

/// No change about a download.
pub open spec fn no_diff() -> DownloadDiffModel {
    DownloadDiffModel {
        url: None,
        relative_path: None,
        status: None,
        active_operation: None,
        files: Map::empty(),
        folders: Map::empty(),
    }
}

/// A difference with one more update.
pub open spec fn diff_updated(diff: DownloadDiffModel, update: DownloadUpdate) -> DownloadDiffModel {
    match update {
        DownloadUpdate::StatusChanged { status, .. } => DownloadDiffModel {
            status: Some(status),
            ..diff
        },
        DownloadUpdate::OperationChanged { operation, .. } => DownloadDiffModel {
            active_operation: Some(operation),
            ..diff
        },
        DownloadUpdate::ItemUpdated { item_update: ItemUpdate::File(u), .. } => {
            let id = u.spec_id().0;
            let before = if diff.files.contains_key(id) {
                diff.files[id]
            } else {
                FileDiff::none()
            };
            DownloadDiffModel { files: diff.files.insert(id, before.updated(u)), ..diff }
        },
        DownloadUpdate::ItemUpdated { item_update: ItemUpdate::Folder(u), .. } => {
            let id = u.spec_id().0;
            let before = if diff.folders.contains_key(id) {
                diff.folders[id]
            } else {
                FolderDiff::none()
            };
            DownloadDiffModel { folders: diff.folders.insert(id, before.updated(u)), ..diff }
        },
    }
}

/// The differences, by download, with one more update.
pub open spec fn deltas_updated(
    deltas: Map<usize, DownloadDiffModel>,
    update: DownloadUpdate,
) -> Map<usize, DownloadDiffModel> {
    let id = update.spec_id().0;
    let before = if deltas.contains_key(id) {
        deltas[id]
    } else {
        no_diff()
    };
    deltas.insert(id, diff_updated(before, update))
}

/// The differences in a map, in mathematical values.
pub open spec fn deltas_view(m: Map<usize, DownloadDiff>) -> Map<usize, DownloadDiffModel> {
    Map::new(|k: usize| m.contains_key(k), |k: usize| m[k]@)
}

impl DownloadDiff {
    /// No change.
    pub fn new() -> (r: Self)
        ensures
            r@ == no_diff(),
    {
        DownloadDiff {
            url: None,
            relative_path: None,
            status: None,
            active_operation: None,
            files: HashMap::new(),
            folders: HashMap::new(),
        }
    }

    /// Takes one more update in.
    pub fn update(&mut self, update: DownloadUpdate)
        ensures
            final(self)@ == diff_updated(old(self)@, update),
    {
        match update {
            DownloadUpdate::StatusChanged { status, .. } => {
                self.status = Some(status);
            },
            DownloadUpdate::OperationChanged { operation, .. } => {
                self.active_operation = Some(operation);
            },
            DownloadUpdate::ItemUpdated { item_update, .. } => match item_update {
                ItemUpdate::File(u) => {
                    let id: usize = u.id().0;
                    let mut diff = match self.files.remove(&id) {
                        Some(diff) => diff,
                        None => FileDiff::new(),
                    };
                    diff.update(u);
                    self.files.insert(id, diff);
                    assert(self@.files =~= diff_updated(old(self)@, update).files);
                },
                ItemUpdate::Folder(u) => {
                    let id: usize = u.id().0;
                    let mut diff = match self.folders.remove(&id) {
                        Some(diff) => diff,
                        None => FolderDiff::new(),
                    };
                    diff.update(u);
                    self.folders.insert(id, diff);
                    assert(self@.folders =~= diff_updated(old(self)@, update).folders);
                },
            },
        }
    }
}

/// Differences of several downloads, by number.
pub struct DownloadDeltaMap(pub HashMap<usize, DownloadDiff>);

impl View for DownloadDeltaMap {
    type V = Map<usize, DownloadDiffModel>;

    open spec fn view(&self) -> Map<usize, DownloadDiffModel> {
        deltas_view(self.0@)
    }
}

/// The differences that have not been sent yet.
pub struct DeltaManager {
    deltas: HashMap<usize, DownloadDiff>,
}

impl View for DeltaManager {
    type V = Map<usize, DownloadDiffModel>;

    closed spec fn view(&self) -> Map<usize, DownloadDiffModel> {
        deltas_view(self.deltas@)
    }
}

impl DeltaManager {
    /// Nothing to send.
    pub fn new() -> (r: Self)
        ensures
            r@ == Map::<usize, DownloadDiffModel>::empty(),
    {
        let r = DeltaManager { deltas: HashMap::new() };
        assert(r@ =~= Map::<usize, DownloadDiffModel>::empty());
        r
    }

    /// What is to be sent.
    pub fn deltas(&self) -> (r: &HashMap<usize, DownloadDiff>)
        ensures
            deltas_view(r@) == self@,
    {
        &self.deltas
    }

    /// Whether there is nothing to send.
    pub fn is_empty(&self) -> (r: bool)
        ensures
            r == (self@ == Map::<usize, DownloadDiffModel>::empty()),
    {
        let r = self.deltas.len() == 0;
        proof {
            if r {
                assert(self.deltas@.dom() =~= Set::empty());
                assert(self@ =~= Map::<usize, DownloadDiffModel>::empty());
            } else if self@ == Map::<usize, DownloadDiffModel>::empty() {
                assert forall|k: usize| !self.deltas@.dom().contains(k) by {
                    assert(self@.contains_key(k) == self.deltas@.contains_key(k));
                }
                assert(self.deltas@.dom() =~= Set::empty());
            }
        }
        r
    }

    /// Hands over what is to be sent, and has nothing to send then.
    pub fn drain_deltas(&mut self) -> (r: DownloadDeltaMap)
        ensures
            r@ == old(self)@,
            final(self)@ == Map::<usize, DownloadDiffModel>::empty(),
    {
        let mut taken: HashMap<usize, DownloadDiff> = HashMap::new();
        std::mem::swap(&mut taken, &mut self.deltas);
        assert(self@ =~= Map::<usize, DownloadDiffModel>::empty());
        DownloadDeltaMap(taken)
    }

    /// Takes one more update in.
    pub fn add_update(&mut self, download_update: DownloadUpdate)
        ensures
            final(self)@ == deltas_updated(old(self)@, download_update),
    {
        let id: usize = download_update.id().0;
        let ghost start = self.deltas@;
        let mut diff = match self.deltas.remove(&id) {
            Some(diff) => diff,
            None => DownloadDiff::new(),
        };
        diff.update(download_update);
        self.deltas.insert(id, diff);
        proof {
            assert(deltas_view(start).contains_key(id) == start.contains_key(id));
            assert(self@ =~= deltas_updated(deltas_view(start), download_update));
        }
    }

    /// Forgets what was to be sent of a download.
    pub fn forget(&mut self, id: DownloadId)
        ensures
            final(self)@ == old(self)@.remove(id.0),
    {
        let _ = self.deltas.remove(&id.0);
        assert(self@ =~= old(self)@.remove(id.0));
    }
}

impl Default for DeltaManager {
    fn default() -> (r: Self)
        ensures
            r@ == Map::<usize, DownloadDiffModel>::empty(),
    {
        DeltaManager::new()
    }
}

/// Something that a client should hear of.
pub enum UiStateEvent {
    AddDownload(Download),
    RemoveDownload(DownloadId),
    AddUpdate(DownloadUpdate),
}

/// What a client is sent. Added and removed downloads are told at once, changes in
/// batches.
pub enum FrontendMessage {
    DownloadAdded(Download),
    DownloadRemoved { id: DownloadId },
    BatchUpdate(DownloadDeltaMap),
}

/// What is kept for the clients between two messages.
pub struct UiState {
    deltas: DeltaManager,
    removed: HashSet<usize>,
}

/// What is kept for the clients, in mathematical values.
pub struct UiModel {
    pub deltas: Map<usize, DownloadDiffModel>,
    pub removed: Set<usize>,
}

impl View for UiState {
    type V = UiModel;

    closed spec fn view(&self) -> UiModel {
        UiModel { deltas: self.deltas@, removed: self.removed@ }
    }
}

/// What becomes of the state on an event. An update of a download that was removed
/// does not count.
pub open spec fn ui_after(ui: UiModel, event: UiStateEvent) -> UiModel {
    match event {
        UiStateEvent::AddDownload(download) => UiModel {
            removed: ui.removed.remove(download.id.0),
            ..ui
        },
        UiStateEvent::RemoveDownload(id) => UiModel {
            removed: ui.removed.insert(id.0),
            deltas: ui.deltas.remove(id.0),
        },
        UiStateEvent::AddUpdate(update) => if ui.removed.contains(update.spec_id().0) {
            ui
        } else if update is StatusChanged {
            UiModel { deltas: Map::empty(), ..ui }
        } else {
            UiModel { deltas: deltas_updated(ui.deltas, update), ..ui }
        },
    }
}

/// Whether a message is what an event is answered with: a state of a download is
/// told at once, with all that waited.
pub open spec fn ui_answer(ui: UiModel, event: UiStateEvent, message: Option<FrontendMessage>) -> bool {
    match event {
        UiStateEvent::AddDownload(download) => message == Some(
            FrontendMessage::DownloadAdded(download),
        ),
        UiStateEvent::RemoveDownload(id) => message == Some(
            FrontendMessage::DownloadRemoved { id },
        ),
        UiStateEvent::AddUpdate(update) => if update is StatusChanged && !ui.removed.contains(
            update.spec_id().0,
        ) {
            message matches Some(FrontendMessage::BatchUpdate(batch)) && batch@ == deltas_updated(
                ui.deltas,
                update,
            )
        } else {
            message.is_none()
        },
    }
}

impl UiState {
    /// Nothing to send, and nothing removed.
    pub fn new() -> (r: Self)
        ensures
            r@ == (UiModel { deltas: Map::empty(), removed: Set::empty() }),
    {
        let r = UiState { deltas: DeltaManager::new(), removed: HashSet::new() };
        assert(r@.removed =~= Set::empty());
        r
    }

    /// Takes an event in. The answer is what is sent at once.
    pub fn on_event(&mut self, event: UiStateEvent) -> (message: Option<FrontendMessage>)
        ensures
            final(self)@ == ui_after(old(self)@, event),
            ui_answer(old(self)@, event, message),
    {
        match event {
            UiStateEvent::AddDownload(download) => {
                let _ = self.removed.remove(&download.id.0);
                assert(self@.removed =~= old(self)@.removed.remove(download.id.0));
                Some(FrontendMessage::DownloadAdded(download))
            },
            UiStateEvent::RemoveDownload(id) => {
                let _ = self.removed.insert(id.0);
                self.deltas.forget(id);
                Some(FrontendMessage::DownloadRemoved { id })
            },
            UiStateEvent::AddUpdate(update) => {
                let id: usize = update.id().0;
                if self.removed.contains(&id) {
                    return None;
                }
                self.deltas.add_update(update);
                match update {
                    DownloadUpdate::StatusChanged { .. } => Some(
                        FrontendMessage::BatchUpdate(self.deltas.drain_deltas()),
                    ),
                    _ => None,
                }
            },
        }
    }

    /// Sends what waited, if anything did.
    pub fn on_tick(&mut self) -> (message: Option<FrontendMessage>)
        ensures
            final(self)@ == (UiModel { deltas: Map::empty(), ..old(self)@ }),
            match message {
                Some(FrontendMessage::BatchUpdate(batch)) => batch@ == old(self)@.deltas
                    && old(self)@.deltas != Map::<usize, DownloadDiffModel>::empty(),
                Some(_) => false,
                None => old(self)@.deltas == Map::<usize, DownloadDiffModel>::empty(),
            },
    {
        if self.deltas.is_empty() {
            None
        } else {
            Some(FrontendMessage::BatchUpdate(self.deltas.drain_deltas()))
        }
    }
}

/// Whether nothing of a removed download waits to be sent.
pub open spec fn ui_ok(ui: UiModel) -> bool {
    forall|id: usize| ui.removed.contains(id) ==> !#[trigger] ui.deltas.contains_key(id)
}

/// A client hears nothing more of a download that was removed: whatever happens,
/// nothing of it waits to be sent, and nothing of it is in a message.
pub proof fn law_removed_downloads_stay_silent(
    ui: UiModel,
    event: UiStateEvent,
    message: Option<FrontendMessage>,
)
    requires
        ui_ok(ui),
        ui_answer(ui, event, message),
    ensures
        ui_ok(ui_after(ui, event)),
        message matches Some(FrontendMessage::BatchUpdate(batch)) ==> forall|id: usize|
            ui.removed.contains(id) ==> !#[trigger] batch@.contains_key(id),
{
    match event {
        UiStateEvent::AddUpdate(update) => {
            let next = deltas_updated(ui.deltas, update);
            assert forall|id: usize| ui.removed.contains(id) && !ui.removed.contains(
                update.spec_id().0,
            ) implies !#[trigger] next.contains_key(id) by {
                assert(!ui.deltas.contains_key(id));
            }
        },
        _ => {},
    }
}

/// Of two updates of the same thing the later one counts.
pub proof fn law_later_update_counts(diff: FileDiff, first: FileUpdate, second: FileUpdate)
    requires
        first is Status <==> second is Status,
        first is Operation <==> second is Operation,
        first is Hash <==> second is Hash,
        first is FileSize <==> second is FileSize,
    ensures
        diff.updated(first).updated(second) == diff.updated(second),
{
}

/// An update of one download leaves the others alone.
pub proof fn law_update_keeps_to_its_download(
    deltas: Map<usize, DownloadDiffModel>,
    update: DownloadUpdate,
    other: usize,
)
    requires
        other != update.spec_id().0,
    ensures
        deltas_updated(deltas, update).contains_key(other) == deltas.contains_key(other),
        deltas.contains_key(other) ==> deltas_updated(deltas, update)[other] == deltas[other],
{
}

/// The update that a change of state is told with.
pub open spec fn status_update(id: DownloadId, changed: ChangedItemStatus) -> DownloadUpdate {
    match changed {
        ChangedItemStatus::File { id: file, status } => DownloadUpdate::ItemUpdated {
            id,
            item_update: ItemUpdate::File(FileUpdate::Status { id: file, status }),
        },
        ChangedItemStatus::Folder { id: folder, status } => DownloadUpdate::ItemUpdated {
            id,
            item_update: ItemUpdate::Folder(FolderUpdate::Status { id: folder, status }),
        },
        ChangedItemStatus::Download(status) => DownloadUpdate::StatusChanged { id, status },
    }
}

/// The update that a change of operation is told with.
pub open spec fn operation_update(id: DownloadId, changed: ChangedItemOperation) -> DownloadUpdate {
    match changed {
        ChangedItemOperation::File { id: file, operation } => DownloadUpdate::ItemUpdated {
            id,
            item_update: ItemUpdate::File(FileUpdate::Operation { id: file, operation }),
        },
        ChangedItemOperation::Folder { id: folder, operation } => DownloadUpdate::ItemUpdated {
            id,
            item_update: ItemUpdate::Folder(FolderUpdate::Operation { id: folder, operation }),
        },
        ChangedItemOperation::Download(operation) => DownloadUpdate::OperationChanged {
            id,
            operation,
        },
    }
}

/// The updates that changes of state are told with, in order.
pub fn update_statuses(id: DownloadId, changed: &Vec<ChangedItemStatus>) -> (r: Vec<DownloadUpdate>)
    ensures
        r@ == changed@.map_values(|c: ChangedItemStatus| status_update(id, c)),
{
    let mut r: Vec<DownloadUpdate> = Vec::new();
    let mut i: usize = 0;
    while i < changed.len()
        invariant
            i <= changed@.len(),
            r@ == changed@.take(i as int).map_values(|c: ChangedItemStatus| status_update(id, c)),
        decreases changed@.len() - i,
    {
        let update = match changed[i] {
            ChangedItemStatus::File { id: file, status } => DownloadUpdate::ItemUpdated {
                id,
                item_update: ItemUpdate::File(FileUpdate::Status { id: file, status }),
            },
            ChangedItemStatus::Folder { id: folder, status } => DownloadUpdate::ItemUpdated {
                id,
                item_update: ItemUpdate::Folder(FolderUpdate::Status { id: folder, status }),
            },
            ChangedItemStatus::Download(status) => DownloadUpdate::StatusChanged { id, status },
        };
        r.push(update);
        i += 1;
        assert(r@ =~= changed@.take(i as int).map_values(
            |c: ChangedItemStatus| status_update(id, c),
        ));
    }
    assert(changed@.take(i as int) =~= changed@);
    r
}

/// The updates that changes of operation are told with, in order.
pub fn update_operations(id: DownloadId, changed: &Vec<ChangedItemOperation>) -> (r: Vec<
    DownloadUpdate,
>)
    ensures
        r@ == changed@.map_values(|c: ChangedItemOperation| operation_update(id, c)),
{
    let mut r: Vec<DownloadUpdate> = Vec::new();
    let mut i: usize = 0;
    while i < changed.len()
        invariant
            i <= changed@.len(),
            r@ == changed@.take(i as int).map_values(
                |c: ChangedItemOperation| operation_update(id, c),
            ),
        decreases changed@.len() - i,
    {
        let update = match changed[i] {
            ChangedItemOperation::File { id: file, operation } => DownloadUpdate::ItemUpdated {
                id,
                item_update: ItemUpdate::File(FileUpdate::Operation { id: file, operation }),
            },
            ChangedItemOperation::Folder { id: folder, operation } => DownloadUpdate::ItemUpdated {
                id,
                item_update: ItemUpdate::Folder(FolderUpdate::Operation { id: folder, operation }),
            },
            ChangedItemOperation::Download(operation) => DownloadUpdate::OperationChanged {
                id,
                operation,
            },
        };
        r.push(update);
        i += 1;
        assert(r@ =~= changed@.take(i as int).map_values(
            |c: ChangedItemOperation| operation_update(id, c),
        ));
    }
    assert(changed@.take(i as int) =~= changed@);
    r
}

} // verus!
