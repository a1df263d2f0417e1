use std::collections::HashMap;

use internet_downloader_backend::client_state_manager::{
    update_operations, update_statuses, DeltaManager, DownloadUpdate, FileUpdate, FolderUpdate,
    FrontendMessage, ItemUpdate, UiState, UiStateEvent,
};
use internet_downloader_backend::download::error::FileFailureReason;
use internet_downloader_backend::download::hosts::failures::{
    DownloadError, DownloadOperation, IoErrorKind, PermanentFailure, PermanentFailureKind,
    RangeDownloadError,
};
use internet_downloader_backend::download::hosts::jobs::{DownloadResult, MetadataResult};
use internet_downloader_backend::download::hosts::metadata::Reply;
use internet_downloader_backend::download::hosts::tasks::{DownloadTask, FileTask, TaskType};
use internet_downloader_backend::download::items::{
    ActiveOperation, ChangedItemOperation, ChangedItemStatus, DownloadId, FileId, FileSize,
    FolderId,
};
use internet_downloader_backend::download::status::{DownloadStatus, FileStatus};
use internet_downloader_backend::download::supervisor::{
    can_be_supervised, is_trackable, DownloadCommand, DownloadSupervisor, Phase,
    SupervisorAction, SupervisorEvent,
};
use internet_downloader_backend::download::tree::Download;
use internet_downloader_backend::download::verification::{
    check_chunk, verify_download, verify_file_chunks, ChunksOutcome, DiskFinding, FileCheck,
    FileReading, Verifier, VerifierAction, VerifierMessage, WholeOutcome,
};
use internet_downloader_backend::download_task::{
    judge_size_get, judge_size_head, Job, RetryKind, RootState, SizeResult, SupervisorMessage,
    SupervisorState, TaskAction, TaskFile, TaskStatus,
};
use internet_downloader_backend::host_manager::{HostAction, HostManager, HostMessage};
use internet_downloader_backend::utils::file_utils::TargetOs;
use internet_downloader_backend::utils::hashing::digest_of;
use internet_downloader_backend::utils::paths::ItemPath;
use internet_downloader_backend::utils::urls::Host;

fn single() -> Download {
    let file = FileTask::new("https://h.org/x.bin".to_owned(), "x.bin".to_owned());
    let task = DownloadTask::new("https://h.org/x".to_owned(), TaskType::File(file));
    Download::new(1, task, ItemPath::new(), TargetOs::Unix)
}

fn hear(supervisor: &mut DownloadSupervisor, event: SupervisorEvent) -> Vec<SupervisorAction> {
    assert!(supervisor.accepts(&event));
    supervisor.on_event(event, &vec![], TargetOs::Unix)
}

fn downloading() -> DownloadSupervisor {
    let mut supervisor = DownloadSupervisor::new(single());
    supervisor.start();
    hear(&mut supervisor, SupervisorEvent::Verified(single()));
    supervisor
}

#[test]
fn work_begins_with_a_verification() {
    assert!(can_be_supervised(&single()));
    let mut supervisor = DownloadSupervisor::new(single());
    let out = supervisor.start();
    assert!(matches!(
        out[..],
        [
            SupervisorAction::ShowOperations(_),
            SupervisorAction::Save,
            SupervisorAction::StartVerification,
        ]
    ));
    assert_eq!(supervisor.phase(), Phase::Verifying { awaiting: true });
    let out = hear(&mut supervisor, SupervisorEvent::Verified(single()));
    match &out[0] {
        SupervisorAction::QueueMetadata(jobs) => {
            assert_eq!(jobs.len(), 1);
            assert_eq!(jobs[0].host, Host::Domain("h.org".to_owned()));
        }
        _ => panic!("the server was not asked"),
    }
    assert_eq!(supervisor.phase(), Phase::Downloading);
    assert_eq!(supervisor.get_metadata_jobs().len(), 1);
}

#[test]
fn the_last_range_finishes_a_download() {
    let mut supervisor = downloading();
    let told = DownloadResult::Metadata {
        file_id: FileId(0),
        metadata: MetadataResult::Chunked { file_size: 20_000, file_name: "n".to_owned() },
    };
    let out = hear(&mut supervisor, SupervisorEvent::Result(told));
    match &out[..] {
        [
            SupervisorAction::ShowFile(FileUpdate::FileSize { len: 20_000, .. }),
            SupervisorAction::QueueRanges { file_id: FileId(0), opened: Some(0), ranges },
        ] => assert_eq!(ranges[0].range, 0..2),
        _ => panic!("no ranges were queued"),
    }
    let part = DownloadResult::Range { file_id: FileId(0), range: 0..1, hashes: vec![] };
    hear(&mut supervisor, SupervisorEvent::Result(part));
    assert_eq!(supervisor.download.status(), DownloadStatus::Partial);
    let rest = DownloadResult::Range { file_id: FileId(0), range: 0..2, hashes: vec![[1; 16]] };
    let out = hear(&mut supervisor, SupervisorEvent::Result(rest));
    assert!(supervisor.download.is_completed());
    assert!(matches!(out.last(), Some(SupervisorAction::Finish)));
    hear(&mut supervisor, SupervisorEvent::Command(DownloadCommand::Finish));
    assert_eq!(supervisor.phase(), Phase::Ended);
    assert!(hear(&mut supervisor, SupervisorEvent::Tick).is_empty());
}

#[test]
fn a_stream_finishes_a_download() {
    let mut supervisor = downloading();
    let told = DownloadResult::Metadata {
        file_id: FileId(0),
        metadata: MetadataResult::Stream { file_size: FileSize::Unknown, file_name: "n".to_owned() },
    };
    let out = hear(&mut supervisor, SupervisorEvent::Result(told));
    assert!(matches!(out[..], [SupervisorAction::QueueStream { file_id: FileId(0) }]));
    let done = DownloadResult::Stream { file_id: FileId(0), bytes_downloaded: 100 };
    hear(&mut supervisor, SupervisorEvent::Result(done));
    assert!(supervisor.download.is_completed());
    assert_eq!(supervisor.download.files.items[0].size, Some(FileSize::Known(100)));
}

#[test]
fn a_pause_loses_nothing_and_a_resume_asks_for_what_is_missing() {
    let mut supervisor = downloading();
    let told = DownloadResult::Metadata {
        file_id: FileId(0),
        metadata: MetadataResult::Chunked { file_size: 20_000, file_name: "n".to_owned() },
    };
    hear(&mut supervisor, SupervisorEvent::Result(told));
    let part = DownloadResult::Range { file_id: FileId(0), range: 0..1, hashes: vec![] };
    hear(&mut supervisor, SupervisorEvent::Result(part));
    let out = hear(&mut supervisor, SupervisorEvent::Command(DownloadCommand::Pause));
    assert!(matches!(out[0], SupervisorAction::CancelJobs));
    assert_eq!(supervisor.download.files.items[0].blocks.get(0), Some(true));
    let out = hear(&mut supervisor, SupervisorEvent::Command(DownloadCommand::Resume));
    assert!(out.iter().any(|a| matches!(
        a,
        SupervisorAction::QueueRanges { ranges, .. } if ranges[0].previously_downloaded == 16_384
    )));
}

#[test]
fn a_cancelled_download_is_gone() {
    let mut supervisor = downloading();
    let out =
        hear(&mut supervisor, SupervisorEvent::Command(DownloadCommand::Cancel { from_disk: true }));
    assert!(matches!(out[0], SupervisorAction::CancelJobs));
    assert!(out.iter().any(|a| matches!(a, SupervisorAction::DeleteFromDisk)));
    assert!(out.iter().any(|a| matches!(a, SupervisorAction::DeleteFromDatabase)));
    assert_eq!(supervisor.phase(), Phase::Ended);
    let mut early = DownloadSupervisor::new(single());
    early.start();
    let out =
        hear(&mut early, SupervisorEvent::Command(DownloadCommand::Cancel { from_disk: false }));
    assert!(matches!(out[0], SupervisorAction::CancelVerification));
    assert!(!out.iter().any(|a| matches!(a, SupervisorAction::DeleteFromDisk)));
}

#[test]
fn failures_end_what_they_are_about() {
    let failure = |kind| PermanentFailure {
        operation: DownloadOperation::DownloadingStream {
            download_id: DownloadId(1),
            file_id: FileId(0),
        },
        kind,
    };
    let sized = || {
        SupervisorEvent::Result(DownloadResult::Metadata {
            file_id: FileId(0),
            metadata: MetadataResult::Chunked { file_size: 20_000, file_name: "n".to_owned() },
        })
    };
    let begun = || {
        SupervisorEvent::Result(DownloadResult::Range {
            file_id: FileId(0),
            range: 0..1,
            hashes: vec![],
        })
    };
    let mut disk = downloading();
    hear(&mut disk, sized());
    hear(&mut disk, begun());
    let broken = failure(PermanentFailureKind::Disk(IoErrorKind::StorageFull));
    hear(&mut disk, SupervisorEvent::Result(DownloadResult::Failed(broken)));
    assert_eq!(
        disk.download.files.items[0].status,
        FileStatus::Failed(FileFailureReason::DiskError)
    );
    assert_eq!(disk.phase(), Phase::Ended);
    let mut tired = downloading();
    let often = failure(PermanentFailureKind::TooManyRetries { attempts: 5 });
    hear(&mut tired, SupervisorEvent::Result(DownloadResult::Failed(often)));
    assert_eq!(
        tired.download.files.items[0].status,
        FileStatus::Failed(FileFailureReason::ClientError)
    );
    let mut lost = DownloadSupervisor::new(single());
    lost.start();
    hear(&mut lost, SupervisorEvent::VerifierLost);
    assert_eq!(lost.phase(), Phase::Ended);
    let mut shown = downloading();
    let operation = SupervisorEvent::Operation(FileId(0), ActiveOperation::Downloading);
    let out = hear(&mut shown, operation);
    assert!(matches!(out[..], [SupervisorAction::ShowOperations(_)]));
    assert!(is_trackable(1 << 40));
}

#[test]
fn one_comparison_at_a_time() {
    let mut verifier = Verifier::new();
    let begun = verifier.on_message(VerifierMessage::VerifyDownload(single()));
    assert!(matches!(begun, Some(VerifierAction::Begin(_))));
    let again = verifier.on_message(VerifierMessage::VerifyDownload(single()));
    assert!(!matches!(again, Some(VerifierAction::Begin(_))));
    let paused = verifier.on_message(VerifierMessage::PauseVerification(DownloadId(1)));
    assert!(matches!(paused, Some(VerifierAction::Abort(DownloadId(1)))));
    verifier.on_message(VerifierMessage::VerifyDownload(single()));
    let cancelled = verifier.on_message(VerifierMessage::CancelVerification(DownloadId(1)));
    assert!(matches!(cancelled, Some(VerifierAction::CleanUp { abort: true, .. })));
    verifier.on_message(VerifierMessage::VerifyDownload(single()));
    verifier.on_message(VerifierMessage::VerificationFinished(DownloadId(1)));
    let late = verifier.on_message(VerifierMessage::CancelVerification(DownloadId(1)));
    assert!(matches!(late, Some(VerifierAction::CleanUp { abort: false, .. })));
}

#[test]
fn small_files_must_not_be_cut_short() {
    let contents = [1u8, 2, 3];
    let chunks = vec![Some(digest_of(&contents[..2])), Some([0u8; 16])];
    let cut = verify_file_chunks(&contents, 2, 5, &chunks, || true);
    assert_eq!(cut, Err(IoErrorKind::UnexpectedEof));
    // A large file is looked at as far as it goes.
    let found = verify_file_chunks(&contents, 2, 16_384, &chunks, || true);
    assert_eq!(found, Ok(vec![1]));
    let stopped = verify_file_chunks(&contents, 2, 3, &chunks, || false);
    assert_eq!(stopped, Err(IoErrorKind::Interrupted));
    assert_eq!(verify_file_chunks(&contents, 2, 3, &vec![], || false), Ok(vec![]));
}

#[test]
fn broken_chunks_are_found_and_fetched_again() {
    let contents = [1u8, 2, 3, 4, 5];
    let good = Some(digest_of(&contents[..2]));
    let bad = Some([0u8; 16]);
    assert!(!check_chunk(&contents, 2, 5, 0, &good));
    assert!(check_chunk(&contents, 2, 5, 1, &bad));
    let tail = Some(digest_of(&contents[4..]));
    assert_eq!(verify_file_chunks(&contents, 2, 5, &vec![good, bad, tail], || true), Ok(vec![1]));

    let mut download = single();
    let file = &mut download.files.items[0];
    file.describe(FileSize::Known(2_000_000), "n".to_owned(), TargetOs::Unix);
    file.range_fetched(&(0..64), &vec![[1; 16]]);
    file.status = FileStatus::Partial;
    assert!(matches!(file.check(true), FileCheck::Chunks(2_000_000)));
    assert!(matches!(file.check(false), FileCheck::Missing));
    let diff = file.found_chunks(ChunksOutcome::Broken(vec![0])).unwrap();
    assert!(file.found_chunks(ChunksOutcome::Broken(vec![])).is_none());
    assert_eq!(
        file.found_chunks(ChunksOutcome::ReadError).unwrap().new_status,
        Some(FileStatus::Failed(FileFailureReason::DiskError))
    );
    assert_eq!(
        file.found_chunks(ChunksOutcome::TaskError).unwrap().new_status,
        Some(FileStatus::Failed(FileFailureReason::ClientError))
    );
    assert_eq!(
        file.found_chunks(ChunksOutcome::NotFound).unwrap().new_status,
        Some(FileStatus::NotFound)
    );
    download.apply_diff(&diff, &vec![]);
    assert_eq!(download.files.items[0].blocks.get(0), Some(false));
    download.apply_diffs(&vec![diff], &vec![]);
    assert_eq!(DownloadSupervisor::get_ranges(&download.files.items[0], 2_000_000)[0].range, 0..64);
}

#[test]
fn whole_files_are_compared_by_their_digest() {
    let mut download = single();
    let file = &mut download.files.items[0];
    file.status = FileStatus::Completed;
    file.hash = Some(5);
    assert!(matches!(file.check(true), FileCheck::Whole));
    assert!(file.found_whole(WholeOutcome::Hash(5)).is_none());
    assert_eq!(
        file.found_whole(WholeOutcome::Hash(6)).unwrap().new_status,
        Some(FileStatus::Failed(FileFailureReason::HashMismatch))
    );
    assert_eq!(
        file.found_whole(WholeOutcome::ReadError).unwrap().new_status,
        Some(FileStatus::Failed(FileFailureReason::DiskError))
    );
    assert_eq!(
        file.found_whole(WholeOutcome::TaskError).unwrap().new_status,
        Some(FileStatus::Failed(FileFailureReason::ClientError))
    );
    assert_eq!(file.found_missing().unwrap().new_status, Some(FileStatus::NotFound));
}

#[test]
fn a_verification_begins_and_ends() {
    let mut download = single();
    let changed = download.begin_verification();
    let verifying = Some(ActiveOperation::Verifying);
    assert_eq!(changed.len(), 2);
    assert!(changed.contains(&ChangedItemOperation::Download(verifying)));
    assert_eq!(download.active_operation, verifying);

    let unread = DiskFinding { exists: false, reading: FileReading::Nothing };
    assert!(verify_download(&download, vec![unread]).is_empty());

    download.files.items[0].status = FileStatus::Partial;
    let missing = DiskFinding { exists: false, reading: FileReading::Nothing };
    let diffs = verify_download(&download, vec![missing]);
    assert_eq!(diffs.len(), 1);
    assert_eq!(diffs[0].file_id, FileId(0));
    let (statuses, operations) = download.end_verification(&diffs, &vec![]);
    assert_eq!(
        statuses,
        vec![
            ChangedItemStatus::File { id: FileId(0), status: FileStatus::NotFound },
            ChangedItemStatus::Download(DownloadStatus::NotFound),
        ]
    );
    assert_eq!(download.files.items[0].status, FileStatus::NotFound);
    // Nothing is noted of a file that is done.
    assert!(operations.is_empty());

    let mut sound = single();
    sound.begin_verification();
    let (statuses, operations) = sound.end_verification(&vec![], &vec![]);
    assert!(statuses.is_empty());
    assert_eq!(operations.len(), 2);
    assert_eq!(sound.active_operation, None);
}

#[test]
fn sound_files_stay_and_broken_ones_are_told() {
    let mut download = single();
    download.files.items[0].status = FileStatus::Completed;
    download.files.items[0].hash = Some(5);
    let sound = DiskFinding { exists: true, reading: FileReading::Whole(WholeOutcome::Hash(5)) };
    assert!(verify_download(&download, vec![sound]).is_empty());
    let other = DiskFinding { exists: true, reading: FileReading::Whole(WholeOutcome::Hash(6)) };
    let diffs = verify_download(&download, vec![other]);
    assert_eq!(
        diffs[0].new_status,
        Some(FileStatus::Failed(FileFailureReason::HashMismatch))
    );

    let file = &mut download.files.items[0];
    file.describe(FileSize::Known(2_000_000), "n".to_owned(), TargetOs::Unix);
    file.status = FileStatus::Partial;
    file.range_fetched(&(0..64), &vec![[1; 16]]);
    let reading = FileReading::Chunks(ChunksOutcome::Broken(vec![0]));
    let diffs = verify_download(&download, vec![DiskFinding { exists: true, reading }]);
    assert_eq!(diffs[0].failed_chunks, Some(vec![0]));
    assert_eq!(diffs[0].new_status, None);
}

#[test]
fn restored_downloads_are_compared_once_each() {
    let mut verifier = Verifier::new();
    let begun = verifier.verify_downloads(vec![single(), single()]);
    assert_eq!(begun.len(), 1);
    assert!(verifier.verify_downloads(vec![single()]).is_empty());
    verifier.on_message(VerifierMessage::VerificationFinished(DownloadId(1)));
    assert_eq!(verifier.verify_downloads(vec![single()]).len(), 1);
}

fn task() -> SupervisorState {
    let mut download = single();
    let file = download.files.items.pop().unwrap();
    SupervisorState::new(vec![TaskFile::of(file, TaskStatus::Queued)])
}

fn tell(state: &mut SupervisorState, message: SupervisorMessage) -> Vec<TaskAction> {
    assert!(state.accepts(&message));
    state.on_message(message)
}

#[test]
fn a_task_asks_for_the_size_and_then_for_the_bytes() {
    let mut state = task();
    assert_eq!(state.calculate_initial_demand(), 1);
    assert!(state.begin(false, RootState::Running).is_empty());
    state.permit_count = 1;
    let out = tell(&mut state, SupervisorMessage::ProcessPermit { valid: true });
    assert!(matches!(out[..], [TaskAction::SpawnWorker]));
    let out = tell(&mut state, SupervisorMessage::SpawnWorker);
    assert!(out.iter().any(|a| matches!(a, TaskAction::FetchSize { file_id: 0 })));
    let known = SupervisorMessage::MetadataFetched { file_id: 0, result: SizeResult::Known(20_000) };
    let out = tell(&mut state, known);
    assert!(out.iter().any(|a| matches!(a, TaskAction::ShowSize { file_id: 0, len: 20_000 })));
    state.permit_count = 1;
    let out = tell(&mut state, SupervisorMessage::SpawnWorker);
    assert!(out.iter().any(|a| matches!(
        a,
        TaskAction::FetchRange { file_id: 0, range } if range.start == 0 && range.end == 2
    )));
    let done = SupervisorMessage::RangeSuccess { file_id: 0, start: 0, end: 2 };
    tell(&mut state, done);
    assert!(state.is_download_finished());
    assert_eq!(state.files[0].status, TaskStatus::Completed);
}

#[test]
fn permits_that_are_not_valid_go_back() {
    let mut state = task();
    state.permit_count = 2;
    let out = tell(&mut state, SupervisorMessage::ProcessPermit { valid: false });
    assert!(matches!(out[..], [TaskAction::ReturnPermit]));
    assert_eq!(state.permit_count, 1);
    assert!(!state.accepts(&SupervisorMessage::RetryReady { retry: RetryKind::Metadata(0) }));
}

#[test]
fn failed_streams_are_tried_again() {
    let mut state = task();
    state.permit_count = 1;
    tell(&mut state, SupervisorMessage::SpawnWorker);
    tell(
        &mut state,
        SupervisorMessage::MetadataFetched { file_id: 0, result: SizeResult::Stream },
    );
    state.permit_count = 1;
    let out = tell(&mut state, SupervisorMessage::SpawnWorker);
    assert!(out.iter().any(|a| matches!(a, TaskAction::FetchStream { file_id: 0 })));
    let failed = SupervisorMessage::StreamFailed { file_id: 0, error: DownloadError::Network };
    let out = tell(&mut state, failed);
    assert!(out.iter().any(|a| matches!(
        a,
        TaskAction::RetryAfter { retry: RetryKind::StreamDownload(0), .. }
    )));
    let ready = SupervisorMessage::RetryReady { retry: RetryKind::StreamDownload(0) };
    tell(&mut state, ready);
    state.permit_count = 1;
    assert!(matches!(state.get_next_job(), Some(Job::DownloadStream { file_id: 0 })));
}

#[test]
fn a_paused_task_waits() {
    let mut state = task();
    let out = tell(&mut state, SupervisorMessage::Pause);
    assert!(out.iter().any(|a| matches!(a, TaskAction::ShowPaused)));
    let out = tell(&mut state, SupervisorMessage::Tick);
    assert!(matches!(out[..], [TaskAction::Save]));
    let mut complete = task();
    let out = complete.begin(true, RootState::Ended);
    assert!(matches!(
        out[..],
        [TaskAction::Save, TaskAction::TellFinished, TaskAction::Stop]
    ));
    let mut halted = task();
    halted.begin(false, RootState::Halted);
    assert_eq!(halted.demand, 0);
}

#[test]
fn failed_ranges_are_tried_again() {
    let mut state = task();
    state.permit_count = 1;
    tell(&mut state, SupervisorMessage::SpawnWorker);
    let known = SupervisorMessage::MetadataFetched { file_id: 0, result: SizeResult::Known(20_000) };
    tell(&mut state, known);
    state.permit_count = 1;
    let out = tell(&mut state, SupervisorMessage::SpawnWorker);
    let range = out
        .iter()
        .find_map(|a| match a {
            TaskAction::FetchRange { range, .. } => Some(*range),
            _ => None,
        })
        .unwrap();
    let failed = SupervisorMessage::RangeFailed {
        file_id: 0,
        range,
        error: RangeDownloadError::UnexpectedLength(1, 2),
    };
    let out = tell(&mut state, failed);
    assert!(out.iter().any(|a| matches!(
        a,
        TaskAction::RetryAfter { retry: RetryKind::RangeDownload(0, r), .. } if *r == range
    )));
}

#[test]
fn jobs_that_end_are_no_longer_counted() {
    let mut state = task();
    state.permit_count = 1;
    tell(&mut state, SupervisorMessage::SpawnWorker);
    assert_eq!(state.active_metadata_requests, 1);
    let known = SupervisorMessage::MetadataFetched { file_id: 0, result: SizeResult::Known(20_000) };
    assert!(state.accepts(&known));
    tell(&mut state, known);
    assert_eq!(state.active_metadata_requests, 0);
    state.permit_count = 1;
    let out = tell(&mut state, SupervisorMessage::SpawnWorker);
    assert_eq!(state.active_downloads, 1);
    let range = out
        .iter()
        .find_map(|a| match a {
            TaskAction::FetchRange { range, .. } => Some(*range),
            _ => None,
        })
        .unwrap();
    let error = RangeDownloadError::UnexpectedLength(1, 2);
    tell(&mut state, SupervisorMessage::RangeFailed { file_id: 0, range, error });
    assert_eq!(state.active_downloads, 0);
}

#[test]
fn word_of_a_file_that_is_not_there_gives_the_permit_back() {
    let mut state = task();
    state.permit_count = 1;
    tell(&mut state, SupervisorMessage::SpawnWorker);
    let stray = SupervisorMessage::MetadataFetched { file_id: 9, result: SizeResult::Known(5) };
    let out = tell(&mut state, stray);
    assert!(out.iter().any(|a| matches!(a, TaskAction::ReturnPermit)));
    assert_eq!(state.active_metadata_requests, 0);
    assert_eq!(state.files.len(), 1);
}

#[test]
fn jobs_of_a_file_that_is_not_there_are_done_again() {
    for (error, now) in [(DownloadError::Network, false), (DownloadError::RateLimited(Some(3)), true)] {
        let mut state = task();
        state.uninitialized_cursor = 1;
        state.permit_count = 1;
        state.active_downloads = 1;
        let out = tell(&mut state, SupervisorMessage::StreamFailed { file_id: 9, error });
        let retry = RetryKind::StreamDownload(9);
        if now {
            assert!(out.contains(&TaskAction::RetryNow { retry }));
            assert!(out.contains(&TaskAction::TellRateLimited { seconds: Some(3) }));
        } else {
            assert!(out.contains(&TaskAction::RetryAfter { millis: 5000, retry }));
        }
        assert!(out.contains(&TaskAction::ReturnPermit));
        assert_eq!((state.retry_queue_count, state.active_downloads), (1, 0));
        tell(&mut state, SupervisorMessage::RetryReady { retry });
        state.permit_count = 1;
        let out = tell(&mut state, SupervisorMessage::SpawnWorker);
        assert!(matches!(out[..], [TaskAction::FetchStream { file_id: 9 }]));
    }
    let mut state = task();
    state.permit_count = 1;
    state.active_downloads = 1;
    let error = DownloadError::ServerError(500);
    let out = tell(&mut state, SupervisorMessage::StreamFailed { file_id: 9, error });
    assert!(matches!(out[..], [TaskAction::ReturnPermit]));
    assert_eq!(state.retry_queue_count, 0);
}

#[test]
fn a_stream_is_handed_out_once() {
    let mut state = task();
    state.permit_count = 1;
    tell(&mut state, SupervisorMessage::SpawnWorker);
    let stream = SupervisorMessage::MetadataFetched { file_id: 0, result: SizeResult::Stream };
    tell(&mut state, stream);
    assert!(matches!(state.get_next_job(), Some(Job::DownloadStream { file_id: 0 })));
    assert!(state.get_next_job().is_none());
}

#[test]
fn replies_tell_sizes() {
    let reply = |status, length| {
        Some(Reply {
            status,
            content_length: length,
            accept_ranges: Some(b"bytes".to_vec()),
            content_disposition: None,
            content_range: Some("bytes 0-0/77".to_owned()),
        })
    };
    assert!(matches!(judge_size_head(&reply(200, Some(9))), Some(SizeResult::Known(9))));
    assert!(matches!(judge_size_get(&reply(206, Some(1))), SizeResult::Known(77)));
    assert!(matches!(judge_size_get(&None), SizeResult::Retryable(0)));
}

#[test]
fn permits_are_shared_in_order() {
    let mut host = HostManager::new();
    let mut demands = HashMap::new();
    demands.insert(1, 10);
    demands.insert(2, 10);
    let out = host.on_message(HostMessage::QueueDownload(DownloadId(1)), &demands);
    let given = out.iter().filter(|a| matches!(a, HostAction::Give(DownloadId(1)))).count();
    assert_eq!(given, 10);
    demands.insert(1, 0);
    let out = host.on_message(HostMessage::QueueDownload(DownloadId(2)), &demands);
    let given = out.iter().filter(|a| matches!(a, HostAction::Give(DownloadId(2)))).count();
    assert_eq!(given, 6);
    assert!(matches!(
        host.on_message(HostMessage::RateLimited(None), &demands)[..],
        [HostAction::CallBack(5)]
    ));
    assert!(host.on_message(HostMessage::PermitReleased, &demands).is_empty());
    let out = host.on_message(HostMessage::RateLimitLifted, &demands);
    assert_eq!(out.len(), 1);
    let mut out = Vec::new();
    host.distribute_permits(&demands, &mut out);
    assert!(out.is_empty());
    host.remove_permits(1);
    assert!(host.on_message(HostMessage::PermitReleased, &demands).is_empty());
    for complete in [false, true] {
        let resumed = HostMessage::ResumeDownload { id: DownloadId(1), complete };
        assert!(matches!(host.on_message(resumed, &demands)[..], [HostAction::Stop]));
    }
    assert!(matches!(
        host.on_message(HostMessage::PauseDownload(DownloadId(1)), &demands)[..],
        [HostAction::PauseWork(DownloadId(1))]
    ));
    assert!(matches!(
        host.on_message(HostMessage::CancelDownload(DownloadId(2)), &demands)[..],
        [HostAction::CleanUp { id: DownloadId(2), abort: true }]
    ));
    let out = host.on_message(HostMessage::DownloadFinished(DownloadId(3)), &demands);
    assert!(matches!(out[0], HostAction::ShowCompleted(DownloadId(3))));
}

#[test]
fn later_updates_count() {
    let mut deltas = DeltaManager::default();
    assert!(deltas.is_empty());
    let status = |status| DownloadUpdate::ItemUpdated {
        id: DownloadId(1),
        item_update: ItemUpdate::File(FileUpdate::Status { id: FileId(2), status }),
    };
    deltas.add_update(status(FileStatus::Partial));
    deltas.add_update(status(FileStatus::Completed));
    deltas.add_update(DownloadUpdate::ItemUpdated {
        id: DownloadId(1),
        item_update: ItemUpdate::Folder(FolderUpdate::Status {
            id: FolderId(3),
            status: DownloadStatus::Partial,
        }),
    });
    deltas.add_update(DownloadUpdate::StatusChanged {
        id: DownloadId(4),
        status: DownloadStatus::Completed,
    });
    assert_eq!(deltas.deltas()[&1].files[&2].status, Some(FileStatus::Completed));
    deltas.forget(DownloadId(4));
    let drained = deltas.drain_deltas();
    assert_eq!(drained.0.len(), 1);
    assert_eq!(drained.0[&1].folders[&3].status, Some(DownloadStatus::Partial));
    assert!(deltas.is_empty());
}

#[test]
fn removed_downloads_stay_silent() {
    let mut ui = UiState::new();
    let update = || {
        UiStateEvent::AddUpdate(DownloadUpdate::OperationChanged {
            id: DownloadId(1),
            operation: Some(ActiveOperation::Queued),
        })
    };
    assert!(matches!(
        ui.on_event(UiStateEvent::AddDownload(single())),
        Some(FrontendMessage::DownloadAdded(_))
    ));
    assert!(ui.on_event(update()).is_none());
    assert!(matches!(ui.on_tick(), Some(FrontendMessage::BatchUpdate(_))));
    assert!(ui.on_tick().is_none());
    ui.on_event(update());
    assert!(matches!(
        ui.on_event(UiStateEvent::RemoveDownload(DownloadId(1))),
        Some(FrontendMessage::DownloadRemoved { id: DownloadId(1) })
    ));
    ui.on_event(update());
    assert!(ui.on_tick().is_none());
}

#[test]
fn changes_become_updates() {
    let statuses = vec![
        ChangedItemStatus::File { id: FileId(1), status: FileStatus::Partial },
        ChangedItemStatus::Download(DownloadStatus::Partial),
    ];
    let updates = update_statuses(DownloadId(9), &statuses);
    assert_eq!(updates.len(), 2);
    assert!(updates.iter().all(|u| u.id() == DownloadId(9)));
    assert!(matches!(
        updates[1],
        DownloadUpdate::StatusChanged { status: DownloadStatus::Partial, .. }
    ));
    let operations = vec![ChangedItemOperation::Folder { id: FolderId(1), operation: None }];
    assert!(matches!(
        update_operations(DownloadId(9), &operations)[0],
        DownloadUpdate::ItemUpdated {
            item_update: ItemUpdate::Folder(FolderUpdate::Operation { id: FolderId(1), .. }),
            ..
        }
    ));
}

#[test]
fn a_download_that_waits_twice_gets_no_more_than_it_wants() {
    let mut host = HostManager::new();
    let mut demands = HashMap::new();
    demands.insert(1, 0);
    host.on_message(HostMessage::QueueDownload(DownloadId(1)), &demands);
    demands.insert(1, 3);
    let out = host.on_message(HostMessage::QueueDownload(DownloadId(1)), &demands);
    let given = out.iter().filter(|a| matches!(a, HostAction::Give(DownloadId(1)))).count();
    assert_eq!(given, 3);
}

#[test]
fn permits_are_called_back_in_a_pause() {
    let mut host = HostManager::new();
    let demands = HashMap::new();
    let first = host.permit();
    let second = host.permit();
    let used = first.validate(&host).unwrap();
    host.on_message(HostMessage::RateLimited(Some(1)), &demands);
    assert!(second.validate(&host).is_err());
    assert!(used.downgrade().validate(&host).is_err());
    host.on_message(HostMessage::RateLimitLifted, &demands);
    assert!(host.permit().validate(&host).is_ok());
}
