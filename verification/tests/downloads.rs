use std::collections::HashMap;

use internet_downloader_backend::app::snapshot::{DownloadSnapshot, FileSnapshot, SnapshotManager};
use internet_downloader_backend::client_state_manager::FolderDiff;
use internet_downloader_backend::db::chunk_hashes::{
    load_chunk_hashes, load_download_chunk_hashes, put_hash,
};
use internet_downloader_backend::db::loading::{load_download, load_downloads};
use internet_downloader_backend::db::rows::{
    ChunkHashRow, DownloadFileRow, DownloadFolderRow, DownloadItemRow,
};
use internet_downloader_backend::db::state_manager::{
    load_download_chunk_hashes_with_recovery, with_retry, worth_fetching, ChunkHashLoadError,
    DbError, DbFetchErrorKind, DownloadFetchError, RecoveryKey, RetryDecision,
};
use internet_downloader_backend::db::writing::{write_chunk_hashes, write_download};
use internet_downloader_backend::download::access::{BaseItemRef, DownloadType, DownloadTypeRef};
use internet_downloader_backend::download::error::{DownloadFailureReason, FileFailureReason};
use internet_downloader_backend::download::hosts::tasks::{
    DownloadTask, FileTask, FolderTask, TaskType,
};
use internet_downloader_backend::download::items::{
    calculate_chunk_expected_len, ActiveOperation, ChangedItemOperation, ChangedItemPause,
    ChangedItemStatus, DownloadId, DownloadItem, FileDownload, FileId, FileSize, FolderDownload,
    FolderId, ItemId,
};
use internet_downloader_backend::download::ranges::RangeInfo;
use internet_downloader_backend::download::status::{
    DownloadStatus, FileStatus, StateBucketCounters, StatusBucket,
};
use internet_downloader_backend::download::supervisor::DownloadSupervisor;
use internet_downloader_backend::download::tree::Download;
use internet_downloader_backend::utils::bytes::{u128_from_be, u128_from_le, u128_to_be};
use internet_downloader_backend::utils::file_utils::TargetOs;
use internet_downloader_backend::utils::id_index::IdIndex;
use internet_downloader_backend::utils::paths::ItemPath;
use internet_downloader_backend::utils::urls::Host;

fn file_task(name: &str) -> TaskType {
    TaskType::File(FileTask::new(format!("https://h.org/{}", name), name.to_owned()))
}

/// A folder with a file, an empty folder, and a folder with two files.
fn tree() -> Download {
    let inner = FolderTask::new("inner".to_owned(), vec![file_task("b.bin"), file_task("c.bin")]);
    let empty = FolderTask::new("empty".to_owned(), vec![]);
    let root = FolderTask::new(
        "root".to_owned(),
        vec![file_task("a.bin"), TaskType::Folder(empty), TaskType::Folder(inner)],
    );
    let task = DownloadTask::new("https://h.org/".to_owned(), TaskType::Folder(root));
    Download::new(7, task, ItemPath::new().join("save"), TargetOs::Unix)
}

fn single() -> Download {
    let task = DownloadTask::new("https://h.org/x".to_owned(), file_task("x.bin"));
    Download::new(1, task, ItemPath::new(), TargetOs::Unix)
}

fn nothing_gone() -> Vec<FolderId> {
    Vec::new()
}

#[test]
fn a_task_becomes_a_tree() {
    let download = tree();
    assert_eq!(download.id(), DownloadId(7));
    assert_eq!(download.url(), "https://h.org/");
    assert_eq!(download.files().items.len(), 3);
    assert_eq!(download.folders().items.len(), 3);
    assert_eq!(download.name(), "root");
    assert_eq!(download.status(), DownloadStatus::Uninitialized);
    assert!(!download.is_completed() && !download.is_paused());
    assert_eq!(download.active_operation(), None);
    let root = match download.root_item() {
        Some(DownloadTypeRef::Folder(folder)) => folder,
        _ => panic!("the root is no folder"),
    };
    assert_eq!(root.parent_id, None);
    assert_eq!(root.child_files().len(), 1);
    assert_eq!(root.child_folders().len(), 2);
    let children = download.folder_child_items(root);
    let names: Vec<&str> = children.iter().map(|c| c.name()).collect();
    assert_eq!(names, vec!["empty", "inner", "a.bin"]);
    assert!(children.iter().all(|c| c.parent_id() == Some(root.id)));
}

#[test]
fn base_items_are_files_and_empty_folders() {
    let download = tree();
    let items = download.base_item_iter();
    assert_eq!(items.len(), 4);
    let names: Vec<&str> = items.iter().map(|i| i.name()).collect();
    assert_eq!(names[3], "empty");
    assert!(matches!(items[3].id(), ItemId::Folder(_)));
    assert!(items[..3].iter().all(|i| matches!(i, BaseItemRef::File(..))));
    assert!(items.iter().all(|i| i.status() == DownloadStatus::Uninitialized && !i.is_paused()));
    assert!(items.iter().all(|i| i.active_operation().is_none()));
    assert!(items.iter().all(|i| i.parent_id().is_some()));
    assert!(items.iter().all(|i| !i.relative_path().parts.is_empty()));
}

#[test]
fn single_files_are_downloads_too() {
    let mut download = single();
    assert!(matches!(download.root_item(), Some(DownloadTypeRef::File(_))));
    assert_eq!(download.name(), "x.bin");
    assert!(download.get_file(&FileId(0)).is_some());
    assert!(download.get_file(&FileId(1)).is_none());
    assert_eq!(download.relative_path().parts.len(), 0);
    let file = &mut download.files.items[0];
    assert_eq!(file.host(), &Host::Domain("h.org".to_owned()));
    assert_eq!(file.url(), "https://h.org/x.bin");
    assert_eq!(file.size(), None);
    file.set_size(FileSize::Known(5));
    assert_eq!(file.size(), Some(FileSize::Known(5)));
    file.increment_retries();
    assert_eq!(file.retries(), 1);
    file.reset_retries();
    assert_eq!(file.retries(), 0);
    file.set_file_name("new.bin".to_owned(), TargetOs::Unix);
    assert_eq!(file.filename().server_name(), Some("new.bin"));
    assert!(!file.must_exist_in_disk());
    assert!(file.must_exist_with_status(&FileStatus::Completed));
    assert_eq!(file.hash(), None);
    assert_eq!(file.blocks().len(), 0);
    assert!(file.chunk_hashes().is_empty());
}

#[test]
fn items_look_alike_whoever_owns_them() {
    let mut download = tree();
    let folder = DownloadType::Folder(download.folders.items.pop().unwrap());
    assert!(matches!(folder.id(), ItemId::Folder(_)));
    assert_eq!(folder.as_download_status(), DownloadStatus::Uninitialized);
    let file = DownloadType::File(download.files.items.pop().unwrap());
    assert!(matches!(file.id(), ItemId::File(_)));
    assert_eq!(file.status(), DownloadStatus::Uninitialized);
    assert!(file.parent_id().is_some() && !file.is_paused());
    assert_eq!(file.active_operation(), None);
    assert!(!file.name().is_empty() && !file.relative_path().parts.is_empty());
}

#[test]
fn a_complete_tree_is_complete() {
    let mut download = tree();
    let gone = nothing_gone();
    let mut last = Vec::new();
    for i in 0..3 {
        last = download.set_file_status(FileId(i), FileStatus::Completed, &gone).unwrap();
    }
    assert!(last.iter().any(|c| matches!(
        c,
        ChangedItemStatus::File { status: FileStatus::Completed, .. }
    )));
    assert!(download.set_file_status(FileId(0), FileStatus::Completed, &gone).is_none());
    assert!(download.set_file_status(FileId(9), FileStatus::Completed, &gone).is_none());
}

#[test]
fn a_single_file_decides_its_download() {
    let mut download = single();
    let gone = nothing_gone();
    let changed = download.set_file_status(FileId(0), FileStatus::Completed, &gone).unwrap();
    assert!(matches!(
        changed[..],
        [
            ChangedItemStatus::File { id: FileId(0), status: FileStatus::Completed },
            ChangedItemStatus::Download(DownloadStatus::Completed),
        ]
    ));
    assert!(download.is_completed());
}

#[test]
fn all_files_can_fail_at_once() {
    let mut download = tree();
    let gone = nothing_gone();
    download.set_file_status(FileId(0), FileStatus::Partial, &gone);
    download.set_file_status(FileId(1), FileStatus::MetadataFetched, &gone);
    download.set_all_files_failed(FileFailureReason::DiskError, &gone);
    let failed = FileStatus::Failed(FileFailureReason::DiskError);
    assert_eq!(download.files.items[0].status, failed);
    assert_eq!(download.files.items[1].status, failed);
    assert_eq!(download.files.items[2].status, FileStatus::Uninitialized);
}

#[test]
fn a_pause_reaches_everything() {
    let root = FolderTask::new("root".to_owned(), vec![file_task("a"), file_task("b")]);
    let task = DownloadTask::new("https://h.org/".to_owned(), TaskType::Folder(root));
    let mut download = Download::new(2, task, ItemPath::new(), TargetOs::Unix);
    let changed = download.set_paused(true);
    assert!(download.is_paused());
    assert!(download.files.items.iter().all(|f| f.is_paused));
    assert!(changed.iter().any(|c| matches!(c, ChangedItemPause::Download(true))));
    assert!(download.set_paused(true).is_empty());
    // A folder without children is never paused, and keeps what it lies in from being so.
    let mut with_empty = tree();
    with_empty.set_paused(true);
    assert!(!with_empty.is_paused());
    assert!(with_empty.files.items.iter().all(|f| f.is_paused));
}

/// A folder with a file and a folder that holds a folder with two files.
fn full_tree() -> Download {
    let deep = FolderTask::new("deep".to_owned(), vec![file_task("b"), file_task("c")]);
    let inner = FolderTask::new("inner".to_owned(), vec![TaskType::Folder(deep)]);
    let root = FolderTask::new("root".to_owned(), vec![file_task("a"), TaskType::Folder(inner)]);
    let task = DownloadTask::new("https://h.org/".to_owned(), TaskType::Folder(root));
    Download::new(3, task, ItemPath::new(), TargetOs::Unix)
}

#[test]
fn a_download_completes_with_its_last_file() {
    let mut download = full_tree();
    let gone = nothing_gone();
    let root = |d: &Download| d.root_item().map(|item| item.status());
    for (id, status, complete) in [
        (1, FileStatus::Completed, false),
        (2, FileStatus::Partial, false),
        (0, FileStatus::Completed, false),
        (2, FileStatus::Completed, true),
        (1, FileStatus::Failed(FileFailureReason::DiskError), false),
        (1, FileStatus::Completed, true),
    ] {
        download.set_file_status(FileId(id), status, &gone);
        assert_eq!(download.is_completed(), complete);
        assert_eq!(root(&download), Some(download.status()));
    }
    assert!(download.folders.items.iter().all(|f| f.status == DownloadStatus::Completed));
}

#[test]
fn a_pause_reaches_every_folder_and_comes_once() {
    let mut download = full_tree();
    download.set_file_status(FileId(1), FileStatus::Completed, &nothing_gone());
    let before: Vec<DownloadStatus> = download.folders.items.iter().map(|f| f.status).collect();
    for is_paused in [true, false] {
        let changed = download.set_paused(is_paused);
        for id in 0..3 {
            assert!(changed.iter().any(|c| matches!(
                c,
                ChangedItemPause::File { id: FileId(k), is_paused: p } if *k == id && *p == is_paused
            )));
        }
        assert_eq!(download.is_paused(), is_paused);
        assert!(download.folders.items.iter().all(|f| f.is_paused == is_paused));
        assert!(download.set_paused(is_paused).is_empty());
    }
    let after: Vec<DownloadStatus> = download.folders.items.iter().map(|f| f.status).collect();
    assert_eq!(before, after);
}

#[test]
fn operations_are_shown_from_the_file_up() {
    let mut download = single();
    let changed = download.set_active_operation(Some(ActiveOperation::Queued));
    assert!(changed.iter().any(|c| matches!(
        c,
        ChangedItemOperation::File { id: FileId(0), operation: Some(ActiveOperation::Queued) }
    )));
    assert_eq!(download.files.items[0].active_operation, Some(ActiveOperation::Queued));
    let status = download.status();
    download.set_file_active_operation(FileId(0), Some(ActiveOperation::Downloading));
    assert_eq!(download.files.items[0].active_operation, Some(ActiveOperation::Downloading));
    assert_eq!(download.status(), status);
}

#[test]
fn a_described_file_has_blocks() {
    let mut download = single();
    let file = &mut download.files.items[0];
    file.describe(FileSize::Known(40_000), "s.bin".to_owned(), TargetOs::Unix);
    assert_eq!(file.blocks().len(), 3);
    assert_eq!(file.chunk_hashes().len(), 1);
    assert_eq!(file.blocks().get(0), Some(false));
    assert_eq!(file.blocks().get(3), None);
    let ranges = DownloadSupervisor::get_ranges(file, 40_000);
    assert_eq!(ranges.len(), 1);
    assert_eq!(ranges[0].range, 0..3);
    assert_eq!((ranges[0].expected_bytes, ranges[0].previously_downloaded), (40_000, 0));
    file.range_fetched(&(0..2), &vec![]);
    assert_eq!(file.calculate_initial_bytes(16_384), 32_768);
    let rest = DownloadSupervisor::get_ranges(file, 40_000);
    assert_eq!(rest[0].range, 0..3);
    assert_eq!(rest[0].previously_downloaded, 32_768);
    file.range_fetched(&(0..3), &vec![[1; 16]]);
    assert!(DownloadSupervisor::get_ranges(file, 40_000).is_empty());
    assert_eq!(file.chunk_hashes()[0], Some([1; 16]));
    assert_eq!(file.calculate_initial_bytes(16_384), 40_000);
    file.chunks_broken(&vec![0]);
    assert_eq!(DownloadSupervisor::get_ranges(file, 40_000).len(), 1);
    let mut streamed = single();
    let file = &mut streamed.files.items[0];
    file.stream_fetched(20_000);
    assert_eq!(file.blocks().len(), 2);
    assert!(DownloadSupervisor::get_ranges(file, 20_000).is_empty());
}

#[test]
fn ranges_keep_to_chunks_and_spare_what_is_there() {
    let size = 400u64 * 16_384;
    let mut download = single();
    let file = &mut download.files.items[0];
    file.describe(FileSize::Known(size), "s".to_owned(), TargetOs::Unix);
    let ranges = DownloadSupervisor::get_ranges(file, size);
    assert_eq!(ranges.iter().map(|r| r.range.clone()).collect::<Vec<_>>(), vec![0..320, 320..384, 384..400]);
    file.range_fetched(&(64..128), &vec![[2; 16]]);
    let around = DownloadSupervisor::get_ranges(file, size);
    assert_eq!(
        around.iter().map(|r| r.range.clone()).collect::<Vec<_>>(),
        vec![0..64, 128..384, 384..400]
    );
    assert_eq!(
        DownloadSupervisor::calculate_range_expected_len(16_384, &(384..400), size),
        16 * 16_384
    );
    assert_eq!(calculate_chunk_expected_len(10, (0, 3), 25), 25);
    assert_eq!(calculate_chunk_expected_len(10, (1, 2), 25), 10);
    assert_eq!(calculate_chunk_expected_len(10, (3, 4), 25), 0);
    assert_eq!(RangeInfo::new(1..2, 3, 4).expected_bytes, 3);
}

#[test]
fn reasons_and_states_are_stored_as_text() {
    for reason in [
        FileFailureReason::HashMismatch,
        FileFailureReason::DiskError,
        FileFailureReason::ClientError,
        FileFailureReason::ServerError,
        FileFailureReason::MetadataFetchError,
        FileFailureReason::BadPath,
        FileFailureReason::Unknown,
    ] {
        assert_eq!(FileFailureReason::from_name(reason.name()), Some(reason));
        let (status, why) = FileStatus::Failed(reason).to_db_columns();
        assert_eq!(FileStatus::from_db_columns(status, why), Some(FileStatus::Failed(reason)));
    }
    for status in [
        FileStatus::Uninitialized,
        FileStatus::MetadataFetched,
        FileStatus::Partial,
        FileStatus::Completed,
        FileStatus::NotFound,
    ] {
        let (name, why) = status.to_db_columns();
        assert_eq!(FileStatus::from_db_columns(name, why), Some(status));
    }
    assert_eq!(FileFailureReason::HashMismatch.name(), "hash_mismatch");
    assert_eq!(FileFailureReason::from_name("nonsense"), None);
    assert_eq!(FileStatus::from_db_columns("nonsense", None), None);
    assert_eq!(FileFailureReason::default(), FileFailureReason::Unknown);
    assert_eq!(DownloadFailureReason::default(), DownloadFailureReason::Unknown);
    assert_eq!(
        DownloadFailureReason::from_db_string("all_files_failed:disk_error"),
        Some(DownloadFailureReason::AllFilesFailed(FileFailureReason::DiskError))
    );
    assert_eq!(
        DownloadFailureReason::from_db_string("multiple_errors"),
        Some(DownloadFailureReason::MultipleErrors)
    );
    assert_eq!(DownloadFailureReason::from_db_string("x"), None);
    let (name, why) = DownloadStatus::CompletedWithErrors.to_db_columns();
    assert_eq!(
        DownloadStatus::from_db_columns(name, why),
        Some(DownloadStatus::CompletedWithErrors)
    );
    assert_eq!(DownloadStatus::from_db_columns("?", None), None);
}

#[test]
fn states_are_counted_in_buckets() {
    let mut counters = StateBucketCounters::new();
    counters.increment(StatusBucket::Partial);
    counters.increment(StatusBucket::Partial);
    counters.decrement(StatusBucket::Partial);
    counters.decrement(StatusBucket::Error);
    assert_eq!(counters.get(StatusBucket::Partial), 1);
    assert_eq!(counters.get(StatusBucket::Error), 0);
    assert_eq!(FileStatus::Partial.bucket(), StatusBucket::Partial);
    assert_eq!(DownloadStatus::Completed.bucket(), StatusBucket::Completed);
    assert!(FileStatus::Completed.is_terminal());
    assert!(!FileStatus::Completed.can_be_failed());
    assert!(FileStatus::Partial.can_be_failed());
    assert_eq!(FileStatus::Completed.as_download_status(), DownloadStatus::Completed);
    assert_eq!(FileStatus::default(), FileStatus::Uninitialized);
}

#[test]
fn folders_sum_up_their_children() {
    let mut download = tree();
    let gone = nothing_gone();
    download.set_file_status(FileId(0), FileStatus::Completed, &gone);
    let folder = download.folders.items.iter().find(|f| f.folder_name == "root").unwrap();
    let status = folder.calculate_status(&download.files, &download.folders, false);
    assert_eq!(folder.status, status);
    assert_eq!(download.calculate_folder_operation(folder.id), None);
    assert!(!download.calculate_folder_pause_state(folder.id));
    let lone = folder.resolve_error_status(&download.files, &download.folders, true);
    assert!(matches!(lone, DownloadStatus::Failed(_) | DownloadStatus::NotFound));
}

#[test]
fn paths_of_rows_are_read_from_their_bytes() {
    let download = single();
    let row = || DownloadFileRow::of(DownloadId(1), &download.files.items[0]);
    let mut moved = row();
    moved.relative_path_raw = b"/else/where".to_vec();
    let file = FileDownload::from_db(moved, Vec::new(), TargetOs::Unix);
    assert_eq!(file.relative_path.parts, vec![b"/".to_vec(), b"else".to_vec(), b"where".to_vec()]);
    assert_eq!(file.status, FileStatus::Uninitialized);

    let mut lost = row().read();
    lost.relative_path = None;
    let file = FileDownload::from_entry(lost, Vec::new(), TargetOs::Unix);
    assert!(file.relative_path.parts.is_empty());
    assert_eq!(file.status, FileStatus::Failed(FileFailureReason::BadPath));

    let whole = tree();
    let folder = DownloadFolderRow::of(DownloadId(7), &whole.folders.items[0]);
    let read = FolderDownload::from_db(folder, vec![], vec![], StateBucketCounters::new());
    assert_eq!(read.relative_path.parts, whole.folders.items[0].relative_path.parts);
    let mut lost = DownloadFolderRow::of(DownloadId(7), &whole.folders.items[0]).read();
    lost.relative_path = None;
    let read = FolderDownload::from_entry(lost, vec![], vec![], StateBucketCounters::new());
    assert_eq!(read.status, DownloadStatus::Failed(DownloadFailureReason::BadPath));
}

#[test]
fn a_stored_download_reads_back_as_it_was() {
    let mut download = tree();
    let gone = nothing_gone();
    let size = 2_000_000u64;
    download.files.items[1].describe(FileSize::Known(size), "n".to_owned(), TargetOs::Unix);
    download.files.items[1].range_fetched(&(0..64), &vec![[9; 16]]);
    download.files.items[1].hash = Some(0x0102_0304_0506_0708_090a_0b0c_0d0e_0f10);
    download.set_file_status(FileId(1), FileStatus::Partial, &gone);
    let written = write_download(&download);
    assert_eq!(written.row.id, 7);
    assert_eq!(written.folders.iter().map(|b| b.len()).sum::<usize>(), 3);
    let mut file_rows = Vec::new();
    let mut hash_rows = Vec::new();
    for batch in written.files {
        for write in batch {
            file_rows.push(write.row);
            hash_rows.extend(write.hashes.into_iter().flatten());
        }
    }
    assert_eq!(file_rows.len(), 3);
    let names: Vec<&str> = file_rows.iter().map(|row| row.name.as_str()).collect();
    assert_eq!(names, vec!["a.bin", "b.bin", "c.bin"]);
    assert!(file_rows.iter().all(|row| row.wait_time.is_none()));
    if std::path::MAIN_SEPARATOR == '/' {
        assert_eq!(file_rows[1].relative_path_raw, b"save/root/inner/b.bin".to_vec());
        assert_eq!(file_rows[1].relative_path, "save/root/inner/b.bin");
    }
    let folder_rows = written.folders.into_iter().flatten().collect();
    let (hashes, broken) = load_download_chunk_hashes(hash_rows);
    assert!(broken.is_empty());
    let again =
        load_download(written.row, file_rows, folder_rows, hashes, TargetOs::Unix).unwrap();
    assert_eq!(again.id(), download.id());
    assert_eq!(again.name(), "root");
    assert_eq!(again.status(), download.status());
    for (old, new) in download.files.items.iter().zip(&again.files.items) {
        assert_eq!(old.id, new.id);
        assert_eq!(old.parent_id, new.parent_id);
        assert_eq!(old.status, new.status);
        assert_eq!(old.hash, new.hash);
        assert_eq!(old.size, new.size);
        assert_eq!(old.relative_path.parts, new.relative_path.parts);
        assert_eq!(old.filename.as_str(), new.filename.as_str());
        assert_eq!(old.blocks.len(), new.blocks.len());
        for i in 0..old.blocks.len() {
            assert_eq!(old.blocks.get(i), new.blocks.get(i));
        }
    }
    assert_eq!(again.files.items[1].chunk_hashes[0], Some([9; 16]));
    for (old, new) in download.folders.items.iter().zip(&again.folders.items) {
        assert_eq!(old.id, new.id);
        assert_eq!(old.folder_name, new.folder_name);
        assert_eq!(old.status, new.status);
        assert_eq!(old.bucket_counters, new.bucket_counters);
    }
}

#[test]
fn several_downloads_are_loaded_at_once() {
    let one = write_download(&single());
    let two = write_download(&tree());
    let mut file_rows = Vec::new();
    let mut folder_rows = Vec::new();
    let mut rows = Vec::new();
    for written in [one, two] {
        rows.push(written.row);
        folder_rows.extend(written.folders.into_iter().flatten());
        file_rows.extend(written.files.into_iter().flatten().map(|w| w.row));
    }
    let downloads =
        load_downloads(rows, file_rows, folder_rows, HashMap::new(), TargetOs::Unix).unwrap();
    assert_eq!(downloads.len(), 2);
    assert_eq!(downloads[0].name(), "x.bin");
    assert_eq!(downloads[1].name(), "root");
    let lost = write_download(&single());
    assert!(matches!(
        load_downloads(vec![lost.row], vec![], vec![], HashMap::new(), TargetOs::Unix),
        Err(DownloadId(1))
    ));
}

#[test]
fn digests_are_stored_by_chunk() {
    let row = |file_id, chunk_index, hash: Option<Vec<u8>>| ChunkHashRow {
        download_id: 1,
        file_id,
        chunk_index,
        hash,
    };
    let rows = vec![row(0, 2, Some(vec![5; 16])), row(0, 0, None), row(1, 0, Some(vec![6; 16]))];
    let all = load_chunk_hashes(&rows).unwrap();
    assert_eq!(all[&1][&0], vec![None, None, Some([5; 16])]);
    assert_eq!(all[&1][&1], vec![Some([6; 16])]);
    let mut hashes = vec![];
    put_hash(&mut hashes, 1, &Some(vec![3; 16]));
    assert_eq!(hashes, vec![None, Some([3; 16])]);
    let mut download = single();
    download.files.items[0].describe(FileSize::Known(1), "n".to_owned(), TargetOs::Unix);
    download.files.items[0].range_fetched(&(0..1), &vec![[4; 16]]);
    let written = write_chunk_hashes(DownloadId(1), &download.files.items[0]);
    assert_eq!(written.len(), 1);
    assert_eq!(written[0][0].hash, Some(vec![4; 16]));
}

#[test]
fn broken_digests_are_fetched_one_by_one() {
    let keys = vec![
        RecoveryKey { file_id: 0, chunk_index: 1, fetched: Some(Some(vec![1; 16])) },
        RecoveryKey { file_id: 0, chunk_index: 0, fetched: None },
    ];
    let (hashes, broken) = load_download_chunk_hashes_with_recovery(keys);
    assert_eq!(hashes[&0][1], Some([1; 16]));
    assert_eq!(broken, vec![(0, 0)]);
    assert!(worth_fetching(0));
    assert!(!worth_fetching(-1));
    assert_eq!(with_retry(2, true), RetryDecision::TryAgain(1));
    assert_eq!(with_retry(0, true), RetryDecision::GiveUp);
    assert_eq!(with_retry(2, false), RetryDecision::GiveUp);
}

#[test]
fn database_errors_are_told_apart() {
    assert_eq!(DbFetchErrorKind::of(DbError::PoolTimedOut), DbFetchErrorKind::ConnectionFailed);
    assert_eq!(DbFetchErrorKind::of(DbError::Database), DbFetchErrorKind::QueryFailed);
    assert_eq!(DbFetchErrorKind::of(DbError::RowNotFound), DbFetchErrorKind::NotFound);
    assert_eq!(DbFetchErrorKind::of(DbError::ColumnNotFound), DbFetchErrorKind::SchemaCorrupted);
    assert_eq!(DbFetchErrorKind::of(DbError::Decode), DbFetchErrorKind::DataCorrupted);
    assert_eq!(DbFetchErrorKind::of(DbError::Other), DbFetchErrorKind::Unexpected);
    assert!(DbFetchErrorKind::DataCorrupted.calls_for_recovery());
    assert!(!DbFetchErrorKind::QueryFailed.calls_for_recovery());
    assert_eq!(DbFetchErrorKind::NotFound.describe(), "Item was not found");
    let hashes = ChunkHashLoadError::new("m".to_owned(), DbError::Decode);
    assert_eq!(hashes.kind(), DbFetchErrorKind::DataCorrupted);
    let fetch = DownloadFetchError::of_chunk_hashes(&hashes);
    assert_eq!(fetch.message, "Failed to fetch chunk hashes for download");
    assert_eq!(*fetch.kind(), DbFetchErrorKind::DataCorrupted);
    assert_eq!(
        *DownloadFetchError::new("m".to_owned(), DbError::Io).kind(),
        DbFetchErrorKind::ConnectionFailed
    );
}

#[test]
fn one_table_holds_files_and_folders() {
    let row = |item_type: &str, size_bytes| DownloadItemRow {
        download_id: 1,
        item_id: 1,
        parent_id: None,
        item_type: item_type.to_owned(),
        name: "n".to_owned(),
        relative_path_raw: Vec::new(),
        relative_path: String::new(),
        status: "s".to_owned(),
        failure_reason: None,
        url: None,
        hash: None,
        chunks_raw: None,
        chunks_len: None,
        size_type: None,
        size_bytes,
        retries: 0,
        wait_time: None,
    };
    assert!(row("folder", None).is_folder());
    assert!(!row("file", None).is_folder());
    assert!(row("file", None).empty_chunk_hashes().is_empty());
    assert_eq!(row("file", Some(1_048_576)).empty_chunk_hashes(), vec![None]);
    assert_eq!(row("file", Some(1_048_577)).empty_chunk_hashes(), vec![None, None]);
}

#[test]
fn numbers_are_stored_as_bytes() {
    let n = 0x0102_0304_0506_0708_090a_0b0c_0d0e_0f10u128;
    assert_eq!(u128_to_be(n), n.to_be_bytes().to_vec());
    assert_eq!(u128_from_be(&u128_to_be(n)), n);
    assert_eq!(u128_from_le(&n.to_le_bytes()), n);
}

#[test]
fn the_index_keeps_the_order_of_arrival() {
    let mut index = IdIndex::new();
    index.insert(5);
    index.insert(3);
    index.insert(5);
    index.insert(9);
    assert_eq!(index.position(5), Some(0));
    assert_eq!(index.position(9), Some(2));
    assert_eq!(index.position(4), None);
    assert_eq!(index.at(1), 3);
    index.remove_at(0);
    assert_eq!(index.position(9), Some(1));
    index.remove_at(7);
    assert_eq!(index.at(0), 3);
}

#[test]
fn snapshots_say_how_downloads_stand() {
    let mut download = tree();
    download.files.items[0].describe(FileSize::Known(40_000), "n".to_owned(), TargetOs::Unix);
    download.files.items[0].range_fetched(&(0..1), &vec![]);
    let snapshot = DownloadSnapshot::of(&download);
    assert_eq!(snapshot.id, DownloadId(7));
    assert_eq!(snapshot.name, "root");
    assert_eq!(snapshot.files.len(), 3);
    assert_eq!(snapshot.folders.len(), 3);
    assert_eq!(snapshot.files[0].bytes_downloaded, 16_384);
    assert_eq!(snapshot.files[0].host, Host::Domain("h.org".to_owned()));
    let alone = FileSnapshot::of(&download.files.items[1]);
    assert_eq!(alone.file_name, download.files.items[1].name());
    let diff = FolderDiff::of(&download.folders.items[0]);
    assert_eq!(diff.folder_name, Some(download.folders.items[0].folder_name.clone()));
    assert_eq!(diff.child_files, Some(download.folders.items[0].child_files.clone()));
    let twin = download.folders.items[0].duplicate();
    assert_eq!(twin.bucket_counters, download.folders.items[0].bucket_counters);
}

#[test]
fn workers_know_best_how_downloads_stand() {
    let mut manager: SnapshotManager<&str> = SnapshotManager::new();
    manager.add_supervisor("one");
    manager.add_supervisor("two");
    let mut stored = DownloadSnapshot::of(&single());
    stored.name = "stored".to_owned();
    let all = manager.take_snapshot(
        vec![stored, DownloadSnapshot::of(&tree())],
        vec![None, Some(DownloadSnapshot::of(&single()))],
    );
    assert_eq!(all.len(), 2);
    assert_eq!(all[&1].name, "x.bin");
    assert_eq!(manager.listeners(), &mut vec!["two"]);
}
