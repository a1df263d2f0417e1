use std::collections::VecDeque;

use internet_downloader_backend::client_state_manager::FileUpdate;
use internet_downloader_backend::download::hosts::chunk_hasher::ChunkHasher;
use internet_downloader_backend::download::hosts::failing::{
    handle_client_error, handle_io_error, handle_metdata_failed, handle_network_error,
    handle_range_failed, handle_rate_limited, handle_server_error, handle_stream_failed,
    judge_metadata_failure, judge_range_failure, judge_stream_failure, FailureAction, MAX_RETRIES,
};
use internet_downloader_backend::download::hosts::failures::{
    is_client_error, is_server_error, is_success, DownloadError, DownloadOperation,
    HttpFailureKind, IoErrorKind, MetadataError, PermanentFailure, PermanentFailureKind,
    RangeDownloadError,
};
use internet_downloader_backend::download::hosts::jobs::{
    get_metadata_job, get_range_jobs, get_stream_job,
    FailedJob, MetadataJob, MetadataResult, NextJob, RangeJob, StreamJob,
};
use internet_downloader_backend::download::hosts::manager::{
    prolonged, HostManager, HostMessage, PauseAction,
};
use internet_downloader_backend::download::hosts::metadata::{
    extract_filename, judge_get, judge_head, parse_content_disposition_filename,
    parse_content_range, HeadVerdict, Reply,
};
use internet_downloader_backend::download::hosts::ranging::{
    byte_range, judge_range_response, judge_stream_response, range_header, RangeProgress,
    RangeWorker, BUFFER_CAPACITY,
};
use internet_downloader_backend::download::hosts::retry_after::{parse_retry_after, Moment};
use internet_downloader_backend::download::hosts::scheduler::{HostScheduler, SchedulingStrategy};
use internet_downloader_backend::download::items::{DownloadId, FileDownload, FileId, FileSize};
use internet_downloader_backend::download::hosts::tasks::FileTask;
use internet_downloader_backend::download::ranges::RangeInfo;
use internet_downloader_backend::download::supervisor::MetadataInfo;
use internet_downloader_backend::utils::file_utils::TargetOs;
use internet_downloader_backend::utils::hashing::{digest_of, FileHasher};
use internet_downloader_backend::utils::paths::ItemPath;
use internet_downloader_backend::utils::urls::Host;

fn metadata(file: usize, retries: usize) -> MetadataJob<()> {
    MetadataJob {
        download_id: DownloadId(1),
        file_id: FileId(file),
        url: "u".to_owned(),
        retries,
        context: (),
    }
}

fn stream(file: usize, retries: usize) -> StreamJob<()> {
    StreamJob {
        download_id: DownloadId(1),
        file_id: FileId(file),
        url: "u".to_owned(),
        path: ItemPath::new(),
        retries,
        context: (),
    }
}

fn range(download: usize, file: usize, expected: u64, retries: usize) -> RangeJob<()> {
    RangeJob {
        download_id: DownloadId(download),
        file_id: FileId(file),
        url: "u".to_owned(),
        path: ItemPath::new(),
        range: 2..4,
        expected_bytes: expected,
        previously_downloaded: 0,
        retries,
        context: (),
    }
}

#[test]
fn the_pause_doubles_with_every_failure() {
    let waits: Vec<u128> = (0..4)
        .map(|n| match handle_network_error(FailedJob::Stream(stream(0, n)), MAX_RETRIES, 7) {
            FailureAction::RetryAfter { job, millis } => {
                assert_eq!(job.retries(), n + 1);
                millis - 7
            }
            _ => panic!("the job was not done again"),
        })
        .collect();
    for pair in waits.windows(2) {
        assert_eq!(pair[1], 2 * pair[0]);
    }
    match handle_network_error(FailedJob::Stream(stream(0, 4)), MAX_RETRIES, 7) {
        FailureAction::GiveUp { failure, .. } => {
            assert!(matches!(failure.kind, PermanentFailureKind::TooManyRetries { .. }))
        }
        _ => panic!("the job was done again"),
    }
}

#[test]
fn a_missing_file_is_given_up() {
    match handle_client_error(FailedJob::Stream(stream(3, 0)), 404, MAX_RETRIES, 0) {
        FailureAction::GiveUp { failure, job } => {
            assert!(matches!(
                failure.kind,
                PermanentFailureKind::Http(HttpFailureKind::FileNotFound)
            ));
            assert_eq!(job.file_id(), FileId(3));
            assert_eq!(job.download_id(), DownloadId(1));
            assert_eq!(
                failure.describe(),
                "Failed to download file 3 of download 1: File not found (404)"
            );
        }
        _ => panic!("the job was done again"),
    }
    assert!(matches!(
        handle_client_error(FailedJob::Stream(stream(3, 0)), 403, MAX_RETRIES, 0),
        FailureAction::RetryAfter { .. }
    ));
}

#[test]
fn rate_limits_cost_no_attempt() {
    match handle_rate_limited(FailedJob::Stream(stream(0, 2)), Some(3)) {
        FailureAction::RateLimit { job, millis } => {
            assert_eq!(millis, 3000);
            assert_eq!(job.retries(), 2);
        }
        _ => panic!("the pause was not kept"),
    }
    assert!(matches!(
        handle_rate_limited(FailedJob::Stream(stream(0, 2)), None),
        FailureAction::RateLimit { millis: 5000, .. }
    ));
}

#[test]
fn disk_errors_are_final_unless_they_pass() {
    assert!(matches!(
        handle_io_error(FailedJob::Stream(stream(0, 0)), IoErrorKind::StorageFull, MAX_RETRIES, 0),
        FailureAction::GiveUp { .. }
    ));
    assert!(matches!(
        handle_io_error(FailedJob::Stream(stream(0, 0)), IoErrorKind::TimedOut, MAX_RETRIES, 0),
        FailureAction::RetryAfter { .. }
    ));
    assert!(matches!(
        handle_server_error(FailedJob::Metadata(metadata(0, 0)), MAX_RETRIES, 0),
        FailureAction::RetryAfter { .. }
    ));
}

#[test]
fn each_failure_of_a_metadata_job_is_answered() {
    let judge = |error| judge_metadata_failure(metadata(0, 0), error, MAX_RETRIES, 0);
    assert!(matches!(judge(MetadataError::HttpStatus(404)), FailureAction::GiveUp { .. }));
    assert!(matches!(judge(MetadataError::HttpStatus(500)), FailureAction::RetryAfter { .. }));
    assert!(matches!(judge(MetadataError::HttpStatus(302)), FailureAction::RetryAfter { .. }));
    assert!(matches!(judge(MetadataError::Network), FailureAction::RetryAfter { .. }));
    assert!(matches!(
        handle_metdata_failed(metadata(0, 4), MetadataError::Network, MAX_RETRIES),
        FailureAction::GiveUp { .. }
    ));
}

#[test]
fn pauses_are_a_little_longer_at_random() {
    let mut seen = Vec::new();
    for _ in 0..20 {
        match handle_stream_failed(stream(0, 0), DownloadError::Network, MAX_RETRIES) {
            FailureAction::RetryAfter { millis, .. } => seen.push(millis),
            _ => panic!("the job was not done again"),
        }
    }
    let exact = match judge_stream_failure(stream(0, 0), DownloadError::Network, MAX_RETRIES, 0) {
        FailureAction::RetryAfter { millis, .. } => millis,
        _ => panic!("the job was not done again"),
    };
    assert!(seen.iter().all(|m| *m >= exact && *m < exact + 500));
    assert!(seen.iter().any(|m| m != &seen[0]));
}

#[test]
fn a_file_without_ranges_is_fetched_as_a_stream_once() {
    let mut converting = false;
    let error = || RangeDownloadError::RangeNotSupported;
    match judge_range_failure(range(1, 5, 9, 0), error(), &mut converting, MAX_RETRIES, 0) {
        FailureAction::RetryNow { job: FailedJob::Stream(job) } => assert_eq!(job.file_id, FileId(5)),
        _ => panic!("no stream took the place of the range"),
    }
    assert!(converting);
    assert!(matches!(
        handle_range_failed(range(1, 5, 9, 0), error(), &mut converting, MAX_RETRIES),
        FailureAction::Forget
    ));
    assert!(matches!(
        judge_range_failure(
            range(1, 5, 9, 0),
            RangeDownloadError::DiskPoolDropped,
            &mut converting,
            MAX_RETRIES,
            0
        ),
        FailureAction::Shutdown
    ));
    assert!(matches!(
        judge_range_failure(
            range(1, 5, 9, 0),
            RangeDownloadError::UnexpectedLength(1, 2),
            &mut converting,
            MAX_RETRIES,
            0
        ),
        FailureAction::RetryAfter { .. }
    ));
    let mut fresh = false;
    assert!(StreamJob::try_from(range(1, 5, 9, 2), &mut fresh).is_ok());
    assert!(StreamJob::try_from(range(1, 5, 9, 2), &mut fresh).is_err());
}

#[test]
fn failures_tell_what_was_tried() {
    let failure = PermanentFailure {
        operation: DownloadOperation::DownloadingRange {
            download_id: DownloadId(4),
            file_id: FileId(2),
            range: 0..64,
        },
        kind: PermanentFailureKind::TooManyRetries { attempts: 5 },
    };
    assert_eq!(
        failure.describe(),
        "Failed to download range 0-64 for file 2 of download 4: Failed after 5 retries"
    );
    let fetch = DownloadOperation::FetchingMetadata {
        download_id: DownloadId(4),
        file_id: FileId(2),
    };
    assert_eq!(fetch.describe(), "Failed to fetch metadata for file 2 of download 4");
    assert_eq!(fetch.file_id(), FileId(2));
    assert_eq!(
        HttpFailureKind::UnexpectedStatus { status: 302 }.describe(),
        "Unexpected HTTP status 302 during download"
    );
    assert_eq!(
        HttpFailureKind::MetadataError { status: 302 }.describe(),
        "Metadata fetch failed with status 302"
    );
    assert_eq!(PermanentFailureKind::Disk(IoErrorKind::StorageFull).describe(), "Disk error");
    assert!(is_client_error(404) && is_server_error(503) && is_success(204));
    assert!(!is_client_error(500) && !is_server_error(404) && !is_success(301));
}

#[test]
fn the_biggest_range_is_taken_first() {
    let mut queue = VecDeque::new();
    queue.push_back(range(1, 0, 10, 0));
    queue.push_back(range(2, 1, 30, 0));
    queue.push_back(range(2, 2, 20, 0));
    assert_eq!(SchedulingStrategy::Fifo.select_range(&queue), Some(0));
    assert_eq!(SchedulingStrategy::BiggestFirst.select_range(&queue), Some(1));
    assert_eq!(SchedulingStrategy::PrioritizeFile(FileId(2)).select_range(&queue), Some(2));
    assert_eq!(SchedulingStrategy::PrioritizeDownload(DownloadId(2)).select_range(&queue), Some(1));
    assert_eq!(SchedulingStrategy::PrioritizeFile(FileId(9)).select_range(&queue), Some(0));
    let empty: VecDeque<RangeJob<()>> = VecDeque::new();
    assert_eq!(SchedulingStrategy::Fifo.select_range(&empty), None);
}

#[test]
fn retries_go_first_and_no_job_is_lost() {
    let mut scheduler: HostScheduler<()> = HostScheduler::new(SchedulingStrategy::Fifo);
    assert!(!scheduler.has_work());
    scheduler.push_metadata(metadata(0, 0));
    scheduler.push_stream(stream(1, 0));
    scheduler.push_range(range(1, 2, 5, 0));
    scheduler.retry(FailedJob::Range(range(1, 3, 5, 1)));
    let mut order = Vec::new();
    while let Some(job) = scheduler.next(5, 5) {
        order.push(match job {
            NextJob::Metadata(job) => job.file_id.0,
            NextJob::Stream(job) => job.file_id.0,
            NextJob::Range(job) => job.file_id.0,
        });
    }
    assert_eq!(order, vec![3, 1, 2, 0]);
    assert!(!scheduler.has_work());
}

#[test]
fn busy_hosts_are_asked_about_files_first() {
    let mut scheduler: HostScheduler<()> = HostScheduler::new(SchedulingStrategy::Fifo);
    scheduler.push_metadata(metadata(0, 0));
    scheduler.push_stream(stream(1, 0));
    scheduler.set_strategy(SchedulingStrategy::BiggestFirst);
    assert!(matches!(scheduler.next(2, 5), Some(NextJob::Metadata(_))));
    assert!(matches!(scheduler.next(2, 5), Some(NextJob::Stream(_))));
    assert!(scheduler.next(2, 5).is_none());
}

#[test]
fn one_pause_at_a_time() {
    let mut host: HostManager<()> = HostManager::new();
    assert_eq!(host.max_permits(), 5);
    assert!(matches!(
        host.on_message(HostMessage::RateLimited(10)),
        Some(PauseAction::Begin(10))
    ));
    assert!(matches!(
        host.on_message(HostMessage::RateLimited(20)),
        Some(PauseAction::Prolong(20))
    ));
    assert!(host.on_message(HostMessage::RateLimitExpired).is_none());
    assert!(matches!(
        host.on_message(HostMessage::RateLimited(30)),
        Some(PauseAction::Begin(30))
    ));
    host.on_message(HostMessage::QueueRanges(vec![range(1, 7, 1, 0), range(1, 8, 1, 0)]));
    host.on_message(HostMessage::QueueMetadata(metadata(1, 0)));
    host.on_message(HostMessage::QueueStream(stream(2, 0)));
    host.on_message(HostMessage::RetryReady(FailedJob::Metadata(metadata(3, 1))));
    assert!(host.has_work());
    assert!(matches!(host.next_job(5), Some(NextJob::Metadata(job)) if job.file_id == FileId(3)));
    assert_eq!(prolonged(100, 50, 20), 100);
    assert_eq!(prolonged(100, 90, 20), 110);
}

#[test]
fn digests_depend_on_the_bytes_alone() {
    let data: Vec<u8> = (0..1_500_000u32).map(|i| (i % 251) as u8).collect();
    let mut whole = ChunkHasher::new();
    whole.update(&data);
    let mut parts = ChunkHasher::new();
    for part in data.chunks(70_001) {
        parts.update(part);
    }
    let first = whole.finish();
    assert_eq!(first, parts.finish());
    assert_eq!(first.len(), 2);
    assert_eq!(first[0], digest_of(&data[..1_048_576]));
    assert_eq!(first[1], digest_of(&data[1_048_576..]));
    assert!(ChunkHasher::new().finish().is_empty());
}

#[test]
fn digests_are_those_of_blake3() {
    let mut expected = [0u8; 16];
    let mut hasher = blake3::Hasher::new();
    hasher.update(b"abc");
    hasher.finalize_xof().fill(&mut expected);
    assert_eq!(digest_of(b"abc"), expected);
    let mut file = FileHasher::new();
    file.update(b"a");
    file.update(b"bc");
    assert_eq!(file.finish(), u128::from_le_bytes(expected));
    assert_ne!(digest_of(b"abc"), digest_of(b"abd"));
}

#[test]
fn servers_say_how_long_a_pause_is() {
    let now = Moment { seconds: 784_111_777, nanos: 0 };
    assert_eq!(parse_retry_after(Some("120"), &now), Some(120));
    assert_eq!(parse_retry_after(Some("Sun, 06 Nov 1994 08:49:47 GMT"), &now), Some(10));
    assert_eq!(parse_retry_after(Some("Sun, 06 Nov 1994 08:49:27 GMT"), &now), Some(0));
    assert_eq!(parse_retry_after(Some("soon"), &now), None);
    assert_eq!(parse_retry_after(None, &now), None);
    let later = Moment { seconds: 784_111_779, nanos: 500_000_000 };
    assert_eq!(later.wait_from(&now), 2);
}

fn reply(status: u16, length: Option<u64>, ranges: Option<&[u8]>) -> Reply {
    Reply {
        status,
        content_length: length,
        accept_ranges: ranges.map(|r| r.to_vec()),
        content_disposition: None,
        content_range: None,
    }
}

#[test]
fn a_head_reply_settles_what_a_file_is_like() {
    let url = "https://h.org/a/file.zip?x=1";
    match judge_head(Some(reply(200, Some(10), Some(b"bytes"))), url) {
        HeadVerdict::Settled(Ok(MetadataResult::Chunked { file_size: 10, file_name })) => {
            assert_eq!(file_name, "file.zip")
        }
        _ => panic!("ranges were not believed"),
    }
    assert!(matches!(
        judge_head(Some(reply(200, Some(10), None)), url),
        HeadVerdict::Settled(Ok(MetadataResult::Stream { file_size: FileSize::Known(10), .. }))
    ));
    assert!(matches!(
        judge_head(Some(reply(200, None, None)), url),
        HeadVerdict::Settled(Ok(MetadataResult::Stream { file_size: FileSize::Unknown, .. }))
    ));
    assert!(matches!(judge_head(Some(reply(200, Some(0), None)), url), HeadVerdict::AskForBody));
    assert!(matches!(judge_head(None, url), HeadVerdict::AskForBody));
    assert!(matches!(
        judge_head(Some(reply(404, None, None)), url),
        HeadVerdict::Settled(Err(MetadataError::HttpStatus(404)))
    ));
}

#[test]
fn a_get_reply_settles_the_rest() {
    let url = "https://h.org/f";
    let mut partial = reply(206, Some(1), None);
    partial.content_range = Some("bytes 0-0/1234".to_owned());
    assert!(matches!(
        judge_get(Some(partial), url),
        Ok(MetadataResult::Chunked { file_size: 1234, .. })
    ));
    assert!(matches!(
        judge_get(Some(reply(206, Some(1), None)), url),
        Ok(MetadataResult::Stream { file_size: FileSize::Unknown, .. })
    ));
    assert!(matches!(
        judge_get(Some(reply(200, Some(7), None)), url),
        Ok(MetadataResult::Stream { file_size: FileSize::Known(7), .. })
    ));
    assert!(matches!(judge_get(Some(reply(500, None, None)), url), Err(MetadataError::HttpStatus(500))));
    assert!(matches!(judge_get(None, url), Err(MetadataError::Network)));
    assert_eq!(parse_content_range("bytes 0-0/*"), None);
    assert_eq!(parse_content_range("bytes 0-0/99"), Some(99));
}

#[test]
fn servers_name_files() {
    assert_eq!(
        parse_content_disposition_filename("attachment; filename=\"a b.txt\""),
        Some("a b.txt".to_owned())
    );
    assert_eq!(parse_content_disposition_filename("inline"), None);
    let mut named = reply(200, None, None);
    named.content_disposition = Some("attachment; filename=n.bin".to_owned());
    assert_eq!(extract_filename(&named, "https://h.org/u.bin"), "n.bin");
    assert_eq!(extract_filename(&reply(200, None, None), "https://h.org/u.bin"), "u.bin");
}

#[test]
fn ranges_are_asked_for_in_bytes() {
    let job = range(1, 0, 20_000, 0);
    assert_eq!(byte_range(&job), (32_768, 52_767));
    assert_eq!(range_header(32_768, 52_767), "bytes=32768-52767");
}

#[test]
fn each_answer_to_a_range_is_judged() {
    let judge = |status, length| judge_range_response(status, length, Some(3), 0, 9);
    assert!(judge(206, None).is_ok());
    assert!(judge(200, Some(10)).is_ok());
    assert!(matches!(judge(200, Some(11)), Err(RangeDownloadError::RangeNotSupported)));
    assert!(matches!(
        judge_range_response(200, Some(10), None, 5, 9),
        Err(RangeDownloadError::RangeNotSupported)
    ));
    assert!(matches!(
        judge(429, None),
        Err(RangeDownloadError::Download(DownloadError::RateLimited(Some(3))))
    ));
    assert!(matches!(
        judge(503, None),
        Err(RangeDownloadError::Download(DownloadError::ServerError(503)))
    ));
    assert!(matches!(
        judge(416, None),
        Err(RangeDownloadError::Download(DownloadError::ClientError(416)))
    ));
    assert!(matches!(judge(301, None), Err(RangeDownloadError::UnexpectedStatus(301))));
    assert!(judge_stream_response(200, None).is_ok());
    assert!(matches!(judge_stream_response(429, None), Err(DownloadError::RateLimited(None))));
    assert!(matches!(judge_stream_response(500, None), Err(DownloadError::ServerError(500))));
    assert!(matches!(judge_stream_response(403, None), Err(DownloadError::ClientError(403))));
}

#[test]
fn writes_follow_each_other() {
    let size = BUFFER_CAPACITY as u64 + 5;
    let mut worker = RangeWorker::new(FileId(1), 100, size, 0);
    let first = worker.receive(&vec![7u8; BUFFER_CAPACITY]);
    let write = first.write.unwrap();
    assert_eq!((write.offset, write.data.len()), (100, BUFFER_CAPACITY));
    assert!(!first.wait);
    assert!(worker.receive(&[8u8; 5]).write.is_none());
    let last = worker.flush().unwrap();
    assert_eq!((last.offset, last.data), (100 + BUFFER_CAPACITY as u64, vec![8u8; 5]));
    assert!(worker.flush().is_none());
    let mut progress = 1000u64;
    assert!(matches!(
        worker.acknowledge(&mut progress, true),
        Some(FileUpdate::BytesDownloaded { id: FileId(1), len: 1_049_576 })
    ));
    assert!(worker.acknowledge(&mut progress, true).is_none());
    assert_eq!(progress, 1000 + size);
    let (update, counted, result) = worker.finish();
    assert!(matches!(update, Some(FileUpdate::BytesDownloaded { len, .. }) if len == progress));
    assert!(counted.completed);
    assert_eq!(result.unwrap().len(), 2);
    counted.close(&mut progress);
    assert_eq!(progress, 1000 + size);
}

#[test]
fn a_failed_range_counts_for_nothing() {
    let mut worker = RangeWorker::new(FileId(1), 0, 100, 4);
    worker.receive(&[1u8; 10]);
    worker.flush();
    let mut progress = 50u64;
    worker.acknowledge(&mut progress, false);
    assert_eq!(progress, 56);
    let (_, counted, result) = worker.finish();
    assert!(matches!(result, Err(RangeDownloadError::UnexpectedLength(10, 100))));
    counted.close(&mut progress);
    assert_eq!(progress, 50);
    let abandoned = RangeWorker::new(FileId(1), 0, 100, 0).abandon();
    assert!(!abandoned.completed);
    let mut manual = RangeProgress::new();
    let mut total = 3u64;
    assert_eq!(manual.add(&mut total, 4), 7);
    manual.complete();
    manual.close(&mut total);
    assert_eq!(total, 7);
}

#[test]
fn jobs_say_what_is_to_be_fetched() {
    let task = FileTask::new("https://a.org/x.bin".to_string(), "x.bin".to_string());
    let file = FileDownload::new(&task, &ItemPath::new().join("d"), FileId(3), None, TargetOs::Unix);
    let id = DownloadId(7);

    let info = MetadataInfo::new(FileId(3), "https://a.org/x.bin".to_string(), Host::Domain("a.org".to_string()));
    let job = get_metadata_job(id, info, 1u8);
    assert_eq!((job.download_id, job.file_id, job.retries, job.context), (id, FileId(3), 0, 1));
    assert_eq!(job.url, "https://a.org/x.bin");

    let job = get_stream_job(id, &file, 2u8);
    assert_eq!((job.download_id, job.file_id, job.retries, job.context), (id, FileId(3), 0, 2));
    assert_eq!(job.path.parts, vec![b"d".to_vec(), b"x.bin".to_vec()]);

    let ranges = vec![
        RangeInfo { range: 0..2, expected_bytes: 20, previously_downloaded: 0 },
        RangeInfo { range: 2..3, expected_bytes: 5, previously_downloaded: 1 },
    ];
    let jobs = get_range_jobs(id, &file, ranges, &"told".to_string());
    assert_eq!(jobs.len(), 2);
    assert_eq!(jobs[1].range, 2..3);
    assert_eq!((jobs[1].expected_bytes, jobs[1].previously_downloaded, jobs[1].retries), (5, 1, 0));
    assert_eq!((jobs[0].url.as_str(), jobs[0].context.as_str()), ("https://a.org/x.bin", "told"));
}
