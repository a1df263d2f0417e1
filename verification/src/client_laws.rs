//! What clients are told.

use vstd::prelude::*;
#[allow(unused_imports)]
use crate::client_state_manager::{
    deltas_updated, diff_updated, no_diff, operation_update, status_update, ui_after, ui_answer,
    DownloadDiffModel, DownloadUpdate, FileDiff, FileUpdate, FolderDiff, FolderUpdate,
    FrontendMessage, ItemUpdate, UiModel, UiStateEvent,
};
#[allow(unused_imports)]
use crate::download::items::{
    ChangedItemOperation, ChangedItemStatus, DownloadId, FileId, FileSize, FolderId,
};

verus! {

/// What is new of a file is kept until it is told, and does not hide what else is new of
/// it.
pub proof fn law_news_of_files_is_kept(diff: FileDiff, update: FileUpdate)
    ensures
        ({
            let after = diff.updated(update);
            &&& after.status == match update {
                FileUpdate::Status { status, .. } => Some(status),
                _ => diff.status,
            }
            &&& after.active_operation == match update {
                FileUpdate::Operation { operation, .. } => Some(operation),
                _ => diff.active_operation,
            }
            &&& after.hash == match update {
                FileUpdate::Hash { hash, .. } => Some(hash),
                _ => diff.hash,
            }
            &&& after.size == match update {
                FileUpdate::FileSize { len, .. } => Some(FileSize::Known(len)),
                _ => diff.size,
            }
            &&& after.bytes_downloaded == match update {
                FileUpdate::BytesDownloaded { len, .. } => Some(len),
                _ => diff.bytes_downloaded,
            }
            &&& after.parent_id == diff.parent_id && after.url == diff.url
            &&& after.file_name == diff.file_name && after.relative_path == diff.relative_path
        }),
{
}

/// What is new of a folder is kept until it is told, and does not hide what else is new of
/// it.
pub proof fn law_news_of_folders_is_kept(diff: FolderDiff, update: FolderUpdate)
    ensures
        ({
            let after = diff.updated(update);
            &&& after.status == match update {
                FolderUpdate::Status { status, .. } => Some(status),
                _ => diff.status,
            }
            &&& after.active_operation == match update {
                FolderUpdate::Operation { operation, .. } => Some(operation),
                _ => diff.active_operation,
            }
            &&& after.parent_id == diff.parent_id && after.folder_name == diff.folder_name
            &&& after.relative_path == diff.relative_path
            &&& after.child_files == diff.child_files && after.child_folders
                == diff.child_folders
        }),
{
}

/// The file that something is new of.
pub open spec fn is_about_file(update: FileUpdate, id: FileId) -> bool {
    match update {
        FileUpdate::Status { id: about, .. } => about == id,
        FileUpdate::Operation { id: about, .. } => about == id,
        FileUpdate::Hash { id: about, .. } => about == id,
        FileUpdate::FileSize { id: about, .. } => about == id,
        FileUpdate::BytesDownloaded { id: about, .. } => about == id,
    }
}

/// The folder that something is new of.
pub open spec fn is_about_folder(update: FolderUpdate, id: FolderId) -> bool {
    match update {
        FolderUpdate::Status { id: about, .. } => about == id,
        FolderUpdate::Operation { id: about, .. } => about == id,
    }
}

/// What is new of a download is kept: its state, what is done for it, and what is new of the
/// file or the folder that it is about; nothing that was new before is lost.
pub proof fn law_news_of_downloads_is_kept(
    diff: DownloadDiffModel,
    update: DownloadUpdate,
    file: FileId,
    folder: FolderId,
)
    ensures
        ({
            let after = diff_updated(diff, update);
            &&& after.url == diff.url && after.relative_path == diff.relative_path
            &&& after.status == match update {
                DownloadUpdate::StatusChanged { status, .. } => Some(status),
                _ => diff.status,
            }
            &&& after.active_operation == match update {
                DownloadUpdate::OperationChanged { operation, .. } => Some(operation),
                _ => diff.active_operation,
            }
            &&& match update {
                DownloadUpdate::ItemUpdated { item_update: ItemUpdate::File(u), .. } => {
                    let before = if diff.files.contains_key(file.0) {
                        diff.files[file.0]
                    } else {
                        FileDiff::none()
                    };
                    &&& is_about_file(u, file) ==> after.files.contains_key(file.0)
                        && after.files[file.0] == before.updated(u)
                    &&& !is_about_file(u, file) ==> after.files.contains_key(file.0)
                        == diff.files.contains_key(file.0)
                    &&& !is_about_file(u, file) && diff.files.contains_key(file.0)
                        ==> after.files[file.0] == diff.files[file.0]
                    &&& after.folders == diff.folders
                },
                DownloadUpdate::ItemUpdated { item_update: ItemUpdate::Folder(u), .. } => {
                    let before = if diff.folders.contains_key(folder.0) {
                        diff.folders[folder.0]
                    } else {
                        FolderDiff::none()
                    };
                    &&& is_about_folder(u, folder) ==> after.folders.contains_key(folder.0)
                        && after.folders[folder.0] == before.updated(u)
                    &&& !is_about_folder(u, folder) ==> after.folders.contains_key(folder.0)
                        == diff.folders.contains_key(folder.0)
                    &&& !is_about_folder(u, folder) && diff.folders.contains_key(folder.0)
                        ==> after.folders[folder.0] == diff.folders[folder.0]
                    &&& after.files == diff.files
                },
                _ => after.files == diff.files && after.folders == diff.folders,
            }
        }),
{
}

/// The download that something is new of.
pub open spec fn is_about(update: DownloadUpdate, id: DownloadId) -> bool {
    match update {
        DownloadUpdate::StatusChanged { id: about, .. } => about == id,
        DownloadUpdate::OperationChanged { id: about, .. } => about == id,
        DownloadUpdate::ItemUpdated { id: about, .. } => about == id,
    }
}

/// What is new of a download is added to what is new of it already.
pub proof fn law_news_is_kept_by_download(
    deltas: Map<usize, DownloadDiffModel>,
    update: DownloadUpdate,
    id: DownloadId,
)
    requires
        is_about(update, id),
    ensures
        deltas_updated(deltas, update).contains_key(id.0),
        deltas_updated(deltas, update)[id.0] == diff_updated(
            if deltas.contains_key(id.0) {
                deltas[id.0]
            } else {
                no_diff()
            },
            update,
        ),
        forall|other: usize|
            other != id.0 ==> (#[trigger] deltas_updated(deltas, update).contains_key(other)
                <==> deltas.contains_key(other)),
        forall|other: usize|
            other != id.0 && #[trigger] deltas.contains_key(other) ==> deltas_updated(
                deltas,
                update,
            )[other] == deltas[other],
{
}

/// Whatever is new of a download is told later, and with a new state at once, together with
/// all that is new; nothing is told of a download that was removed. One that is added or
/// removed is told at once, and one that is added again is told of again.
pub proof fn law_clients_are_told_in_time(
    ui: UiModel,
    event: UiStateEvent,
    message: Option<FrontendMessage>,
)
    requires
        ui_answer(ui, event, message),
    ensures
        ({
            let after = ui_after(ui, event);
            match event {
                UiStateEvent::AddDownload(download) => {
                    &&& message == Some(FrontendMessage::DownloadAdded(download))
                    &&& after.deltas == ui.deltas
                    &&& !after.removed.contains(download.id.0)
                    &&& forall|x: usize|
                        x != download.id.0 ==> (#[trigger] after.removed.contains(x)
                            <==> ui.removed.contains(x))
                },
                UiStateEvent::RemoveDownload(id) => {
                    &&& message == Some(FrontendMessage::DownloadRemoved { id })
                    &&& after.removed.contains(id.0)
                    &&& !after.deltas.contains_key(id.0)
                    &&& forall|x: usize|
                        x != id.0 ==> (#[trigger] after.deltas.contains_key(x)
                            <==> ui.deltas.contains_key(x))
                },
                UiStateEvent::AddUpdate(update) => {
                    &&& after.removed == ui.removed
                    &&& forall|id: DownloadId| #[trigger]
                        is_about(update, id) ==> if ui.removed.contains(id.0) {
                            after == ui && message is None
                        } else if update is StatusChanged {
                            &&& after.deltas == Map::<usize, DownloadDiffModel>::empty()
                            &&& message matches Some(FrontendMessage::BatchUpdate(batch)) && batch@
                                == deltas_updated(ui.deltas, update)
                        } else {
                            after.deltas == deltas_updated(ui.deltas, update) && message is None
                        }
                },
            }
        }),
{
}

/// A change of state is told as what it is: of the file, the folder or the download that
/// changed, and with its new state.
pub proof fn law_changes_of_state_are_told_as_such(id: DownloadId, changed: ChangedItemStatus)
    ensures
        is_about(status_update(id, changed), id),
        match (changed, status_update(id, changed)) {
            (
                ChangedItemStatus::File { id: file, status },
                DownloadUpdate::ItemUpdated { item_update: ItemUpdate::File(u), .. },
            ) => u == (FileUpdate::Status { id: file, status }),
            (
                ChangedItemStatus::Folder { id: folder, status },
                DownloadUpdate::ItemUpdated { item_update: ItemUpdate::Folder(u), .. },
            ) => u == (FolderUpdate::Status { id: folder, status }),
            (
                ChangedItemStatus::Download(status),
                DownloadUpdate::StatusChanged { status: told, .. },
            ) => told == status,
            _ => false,
        },
{
}

/// A change of what is done is told as what it is: of the file, the folder or the download
/// that it is done for, and with what is done now.
pub proof fn law_changes_of_operation_are_told_as_such(
    id: DownloadId,
    changed: ChangedItemOperation,
)
    ensures
        is_about(operation_update(id, changed), id),
        match (changed, operation_update(id, changed)) {
            (
                ChangedItemOperation::File { id: file, operation },
                DownloadUpdate::ItemUpdated { item_update: ItemUpdate::File(u), .. },
            ) => u == (FileUpdate::Operation { id: file, operation }),
            (
                ChangedItemOperation::Folder { id: folder, operation },
                DownloadUpdate::ItemUpdated { item_update: ItemUpdate::Folder(u), .. },
            ) => u == (FolderUpdate::Operation { id: folder, operation }),
            (
                ChangedItemOperation::Download(operation),
                DownloadUpdate::OperationChanged { operation: told, .. },
            ) => told == operation,
            _ => false,
        },
{
}

} // verus!
