//! What the work by permits does with a permit, and what it makes of every answer.

use vstd::prelude::*;
#[allow(unused_imports)]
use crate::download::error::FileFailureReason;
#[allow(unused_imports)]
use crate::download::fetched::block_count;
#[allow(unused_imports)]
use crate::download::hosts::failing_laws::{lasts, law_errors_pass_or_last};
#[allow(unused_imports)]
use crate::download::hosts::failures::{DownloadError, IoErrorKind, RangeDownloadError};
#[allow(unused_imports)]
use crate::download::items::FileSize;
#[allow(unused_imports)]
use crate::download::ranges::{first_missing, lemma_first_missing, lemma_first_present};
#[allow(unused_imports)]
use crate::download::ranges_laws::just_holds;
#[allow(unused_imports)]
use crate::download::supervisor::all_there;
#[allow(unused_imports)]
use crate::download_task::{
    all_complete, begun, chunk_taken, data_taken, demand_of, file_demand, first_stream,
    first_unknown, job_over, job_taken, jobs_for, message_fits, paused_first, stream_taken,
    task_step, Job, RangeRetryJob, RetryKind, RootState, SizeResult, SupervisorMessage, TaskAction,
    TaskFileModel, TaskModel, TaskStatus,
};

verus! {

/// Whether of all files only the one at place `i` may have changed.
pub open spec fn others_stay(
    before: Seq<TaskFileModel>,
    after: Seq<TaskFileModel>,
    i: int,
) -> bool {
    &&& after.len() == before.len()
    &&& forall|j: int| 0 <= j < before.len() && j != i ==> #[trigger] after[j] == before[j]
}

/// Whether a job is done again later: it waits with the others for so many
/// milliseconds, and its file is shown so, having failed so often.
pub open spec fn waits_again(
    m: TaskModel,
    after: TaskModel,
    actions: Seq<TaskAction>,
    i: int,
    millis: u64,
    retry: RetryKind,
    retries: int,
) -> bool {
    &&& actions.len() > 0
    &&& actions.last() == (TaskAction::RetryAfter { millis, retry })
    &&& after.retry_queue_count == m.retry_queue_count + 1
    &&& after.files[i].retries == retries
    &&& after.files[i] == (TaskFileModel {
        status: TaskStatus::Retrying,
        retries: after.files[i].retries,
        ..m.files[i]
    })
    &&& others_stay(m.files, after.files, i)
}

/// Whether a file has failed for good: nothing is done for it again.
pub open spec fn has_failed(
    m: TaskModel,
    after: TaskModel,
    actions: Seq<TaskAction>,
    i: int,
    reason: FileFailureReason,
) -> bool {
    &&& after.files[i] == (TaskFileModel {
        status: TaskStatus::Failed(reason),
        retries: after.files[i].retries,
        ..m.files[i]
    })
    &&& others_stay(m.files, after.files, i)
    &&& after.retry_queue_count == m.retry_queue_count
    &&& forall|k: int|
        0 <= k < actions.len() ==> !((#[trigger] actions[k]) is RetryAfter)
            && !(actions[k] is RetryNow)
}

/// Whether a job is done again five seconds later, for the first five times that its
/// file fails, and else the file fails for good.
pub open spec fn has_five_more(
    m: TaskModel,
    after: TaskModel,
    actions: Seq<TaskAction>,
    i: int,
    retry: RetryKind,
    reason: FileFailureReason,
) -> bool {
    if m.files[i].retries < 5 {
        waits_again(m, after, actions, i, 5000, retry, m.files[i].retries + 1)
    } else {
        has_failed(m, after, actions, i, reason)
    }
}

/// Whether an error of the operating system was answered: with a failure if it will
/// last, with five more attempts if little is known of it, and else with another
/// attempt.
pub open spec fn io_error_answered(
    m: TaskModel,
    after: TaskModel,
    actions: Seq<TaskAction>,
    i: int,
    retry: RetryKind,
    kind: IoErrorKind,
) -> bool {
    if lasts(kind) {
        has_failed(m, after, actions, i, FileFailureReason::DiskError)
    } else if kind is UnexpectedEof || kind is Other {
        has_five_more(m, after, actions, i, retry, FileFailureReason::DiskError)
    } else {
        waits_again(m, after, actions, i, 5000, retry, m.files[i].retries as int)
    }
}

/// Whether data that could not be fetched was answered by what stood in the way.
pub open spec fn error_answered(
    m: TaskModel,
    after: TaskModel,
    actions: Seq<TaskAction>,
    i: int,
    retry: RetryKind,
    error: DownloadError,
) -> bool {
    match error {
        DownloadError::Io(kind) => io_error_answered(m, after, actions, i, retry, kind),
        DownloadError::Network => waits_again(
            m,
            after,
            actions,
            i,
            5000,
            retry,
            m.files[i].retries as int,
        ),
        DownloadError::RateLimited(seconds) => {
            &&& after.files[i] == (TaskFileModel {
                status: TaskStatus::Waiting(seconds),
                ..m.files[i]
            })
            &&& others_stay(m.files, after.files, i)
            &&& after.retry_queue_count == m.retry_queue_count + 1
            &&& actions.contains(TaskAction::RetryNow { retry })
            &&& actions.contains(TaskAction::TellRateLimited { seconds })
        },
        DownloadError::ServerError(_) => has_five_more(
            m,
            after,
            actions,
            i,
            retry,
            FileFailureReason::ServerError,
        ),
        DownloadError::ClientError(_) => has_failed(
            m,
            after,
            actions,
            i,
            FileFailureReason::ClientError,
        ),
    }
}

/// Whether a file is fetched as a whole from now on, with all its attempts.
pub open spec fn is_streamed_now(m: TaskModel, after: TaskModel, i: int) -> bool {
    &&& after.files[i] == (TaskFileModel {
        size: Some(FileSize::Unknown),
        retries: 0,
        open: false,
        ..m.files[i]
    })
    &&& others_stay(m.files, after.files, i)
    &&& after.retry_streams == m.retry_streams.push(i as usize)
    &&& m.demand < usize::MAX ==> after.demand == m.demand + 1
}

proof fn lemma_error_answered(m: TaskModel, error: DownloadError, retry: RetryKind, i: int)
    requires
        0 <= i < m.files.len(),
        i == retry.spec_file_id(),
        m.permit_count > 0,
        m.retry_queue_count < usize::MAX,
    ensures
        ({
            let (after, actions) = crate::download_task::download_failed(m, error, retry);
            error_answered(m, after, actions, i, retry, error)
        }),
{
    let (after, actions) = crate::download_task::download_failed(m, error, retry);
    match error {
        DownloadError::Io(kind) => {
            law_errors_pass_or_last(kind);
        },
        DownloadError::RateLimited(seconds) => {
            let n = actions.len() as int;
            assert(actions[n - 3] == (TaskAction::RetryNow { retry }));
            assert(actions[n - 2] == (TaskAction::TellRateLimited { seconds }));
        },
        _ => {},
    }
}

/// A whole file that could not be fetched is fetched again, waits for the server, or
/// fails, by what stood in the way.
pub proof fn law_failed_streams_are_answered(m: TaskModel, file_id: usize, error: DownloadError)
    requires
        file_id < m.files.len(),
        m.permit_count > 0,
        m.active_downloads > 0,
        m.retry_queue_count < usize::MAX,
    ensures
        ({
            let message = SupervisorMessage::StreamFailed { file_id, error };
            let (after, actions) = task_step(m, message);
            let retry = RetryKind::StreamDownload(file_id);
            error_answered(m, after, actions, file_id as int, retry, error)
        }),
{
    let message = SupervisorMessage::StreamFailed { file_id, error };
    let over = job_over(m, message);
    lemma_error_answered(over, error, RetryKind::StreamDownload(file_id), file_id as int);
}

/// A range that could not be fetched is fetched again, waits for the server, or has its
/// file fail, by what stood in the way. A file whose ranges come wrong too often, or
/// cannot be had at all, is fetched as a whole. Where nothing can be written any more,
/// everything ends.
pub proof fn law_failed_ranges_are_answered(
    m: TaskModel,
    file_id: usize,
    range: RangeRetryJob,
    error: RangeDownloadError,
)
    requires
        file_id < m.files.len(),
        m.permit_count > 0,
        m.active_downloads > 0,
        m.retry_queue_count < usize::MAX,
    ensures
        ({
            let message = SupervisorMessage::RangeFailed { file_id, range, error };
            let (after, actions) = task_step(m, message);
            let i = file_id as int;
            let retry = RetryKind::RangeDownload(file_id, range);
            match error {
                RangeDownloadError::Download(e) => error_answered(m, after, actions, i, retry, e),
                RangeDownloadError::UnexpectedStatus(_) => if m.files[i].retries < 5 {
                    waits_again(m, after, actions, i, 5000, retry, m.files[i].retries + 1)
                } else {
                    is_streamed_now(m, after, i)
                },
                RangeDownloadError::UnexpectedLength(_, _) => if m.files[i].retries < 5 {
                    waits_again(m, after, actions, i, 300, retry, m.files[i].retries + 1)
                } else {
                    is_streamed_now(m, after, i)
                },
                RangeDownloadError::RangeNotSupported => is_streamed_now(m, after, i),
                RangeDownloadError::DiskWriteError(kind) => io_error_answered(
                    m,
                    after,
                    actions,
                    i,
                    retry,
                    kind,
                ),
                RangeDownloadError::DiskPoolDropped => {
                    &&& after.files == m.files
                    &&& actions.contains(TaskAction::Shutdown)
                    &&& actions.contains(TaskAction::Save)
                    &&& actions.contains(TaskAction::Stop)
                },
            }
        }),
{
    let message = SupervisorMessage::RangeFailed { file_id, range, error };
    let over = job_over(m, message);
    let retry = RetryKind::RangeDownload(file_id, range);
    let (after, actions) = task_step(m, message);
    match error {
        RangeDownloadError::Download(e) => {
            lemma_error_answered(over, e, retry, file_id as int);
        },
        RangeDownloadError::DiskWriteError(kind) => {
            law_errors_pass_or_last(kind);
        },
        RangeDownloadError::DiskPoolDropped => {
            assert(actions[0] == TaskAction::Shutdown);
            assert(actions[2] == TaskAction::Save);
            assert(actions[3] == TaskAction::Stop);
        },
        _ => {},
    }
}

/// How many ranges, of the greatest length, so many blocks make.
pub open spec fn ranges_of(blocks: nat, ranges: int) -> bool {
    (ranges - 1) * 320 < blocks <= ranges * 320
}

/// A file whose size a server told has this size and room for all blocks, keeps those
/// that are there, and is fetched from then on, by one more permit for every range; an
/// empty file is complete. A file that can only be fetched as a whole wants one more
/// permit. One that the server says nothing of yet is asked for again, five times at
/// most, and one that it will never say anything of fails.
pub proof fn law_sizes_are_taken_in(m: TaskModel, file_id: usize, result: SizeResult)
    requires
        m.wf(),
        file_id < m.files.len(),
        message_fits(m, SupervisorMessage::MetadataFetched { file_id, result }),
        m.demand < usize::MAX,
        result matches SizeResult::Known(size) ==> m.demand + jobs_for(block_count(size))
            <= usize::MAX,
    ensures
        ({
            let message = SupervisorMessage::MetadataFetched { file_id, result };
            let (after, actions) = task_step(m, message);
            let i = file_id as int;
            let before = m.files[i];
            let f = after.files[i];
            match result {
                SizeResult::Known(size) => {
                    &&& others_stay(m.files, after.files, i)
                    &&& f.size == Some(FileSize::Known(size))
                    &&& f.retries == 0
                    &&& f.url == before.url && f.path == before.path && f.retry_ranges
                        == before.retry_ranges
                    &&& actions.contains(TaskAction::ShowSize { file_id, len: size })
                    &&& if size == 0 {
                        f.status is Completed && f.blocks == before.blocks && after.demand
                            == m.demand
                    } else {
                        &&& f.status is InProgress
                        &&& just_holds(f.blocks.len(), 16384, size as nat)
                        &&& forall|b: int|
                            0 <= b < f.blocks.len() ==> (#[trigger] f.blocks[b] <==> b
                                < before.blocks.len() && before.blocks[b])
                        &&& ranges_of(f.blocks.len(), after.demand - m.demand)
                        &&& actions.contains(TaskAction::RequestPermits)
                    }
                },
                SizeResult::Stream => {
                    &&& others_stay(m.files, after.files, i)
                    &&& f == (TaskFileModel {
                        size: Some(FileSize::Unknown),
                        retries: 0,
                        status: TaskStatus::InProgress,
                        ..before
                    })
                    &&& after.demand == m.demand + 1
                    &&& actions.contains(TaskAction::RequestPermits)
                },
                SizeResult::Retryable(_) => has_five_more(
                    m,
                    after,
                    actions,
                    i,
                    RetryKind::Metadata(file_id),
                    FileFailureReason::MetadataFetchError,
                ),
                SizeResult::PermanentFail => has_failed(
                    m,
                    after,
                    actions,
                    i,
                    FileFailureReason::MetadataFetchError,
                ),
            }
        }),
{
    let message = SupervisorMessage::MetadataFetched { file_id, result };
    let (after, actions) = task_step(m, message);
    let n = actions.len() as int;
    match result {
        SizeResult::Known(size) => {
            assert(actions[0] == (TaskAction::ShowSize { file_id, len: size }));
            if size > 0 {
                assert(actions[n - 2] == TaskAction::RequestPermits);
            }
        },
        SizeResult::Stream => {
            assert(actions[n - 2] == TaskAction::RequestPermits);
        },
        _ => {},
    }
}

/// Whether the work is said to be at its end.
pub open spec fn tells_the_end(actions: Seq<TaskAction>) -> bool {
    &&& actions.len() > 0 && actions.last() is Stop
    &&& actions.contains(TaskAction::TellFinished)
    &&& actions.contains(TaskAction::Save)
}

/// Whether nothing is said of the end of the work.
pub open spec fn goes_on(actions: Seq<TaskAction>) -> bool {
    forall|k: int|
        0 <= k < actions.len() ==> !((#[trigger] actions[k]) is Stop)
            && !(actions[k] is TellFinished)
}

/// A file that was fetched as a whole is complete, with the size that came and no block
/// missing that was not known before. Once every file is complete the work ends, and
/// not before.
pub proof fn law_fetched_streams_are_complete(m: TaskModel, file_id: usize, size: u64)
    requires
        m.wf(),
        file_id < m.files.len(),
        message_fits(m, SupervisorMessage::StreamSuccess { file_id, size }),
    ensures
        ({
            let (after, actions) = task_step(m, SupervisorMessage::StreamSuccess { file_id, size });
            let i = file_id as int;
            let before = m.files[i];
            let f = after.files[i];
            &&& others_stay(m.files, after.files, i)
            &&& f.status is Completed
            &&& f.size == Some(FileSize::Known(size))
            &&& f.retries == 0
            &&& size > 0 ==> just_holds(f.blocks.len(), 16384, size as nat)
            &&& size > 0 ==> forall|b: int|
                0 <= b < f.blocks.len() ==> (#[trigger] f.blocks[b] <==> b >= before.blocks.len()
                    || before.blocks[b])
            &&& actions.contains(TaskAction::ShowSize { file_id, len: size })
            &&& if forall|k: int|
                0 <= k < after.files.len() ==> (#[trigger] after.files[k]).status is Completed {
                tells_the_end(actions)
            } else {
                goes_on(actions)
            }
        }),
{
    let (after, actions) = task_step(m, SupervisorMessage::StreamSuccess { file_id, size });
    let n = actions.len() as int;
    assert(actions[1] == (TaskAction::ShowSize { file_id, len: size }));
    if all_complete(after.files) {
        assert(actions[n - 3] == TaskAction::TellFinished);
        assert(actions[n - 2] == TaskAction::Save);
    }
}

/// The blocks of a range that was fetched are there, and no others change. The file is
/// complete once all are, and closed then; and once every file is complete the work
/// ends, and not before.
pub proof fn law_fetched_ranges_are_there(m: TaskModel, file_id: usize, start: usize, end: usize)
    requires
        m.wf(),
        file_id < m.files.len(),
        message_fits(m, SupervisorMessage::RangeSuccess { file_id, start, end }),
    ensures
        ({
            let message = SupervisorMessage::RangeSuccess { file_id, start, end };
            let (after, actions) = task_step(m, message);
            let i = file_id as int;
            let before = m.files[i];
            let f = after.files[i];
            let complete = forall|b: int| 0 <= b < f.blocks.len() ==> #[trigger] f.blocks[b];
            &&& others_stay(m.files, after.files, i)
            &&& f == (TaskFileModel {
                retries: 0,
                blocks: f.blocks,
                status: if complete {
                    TaskStatus::Completed
                } else {
                    before.status
                },
                open: before.open && !complete,
                ..before
            })
            &&& f.blocks.len() == before.blocks.len()
            &&& forall|b: int|
                0 <= b < f.blocks.len() ==> (#[trigger] f.blocks[b] <==> start <= b < end
                    || before.blocks[b])
            &&& if complete && forall|k: int|
                0 <= k < after.files.len() ==> (#[trigger] after.files[k]).status is Completed {
                tells_the_end(actions)
            } else {
                goes_on(actions)
            }
        }),
{
    let message = SupervisorMessage::RangeSuccess { file_id, start, end };
    let (after, actions) = task_step(m, message);
    let n = actions.len() as int;
    let f = after.files[file_id as int];
    assert(all_there(f.blocks) == forall|b: int|
        0 <= b < f.blocks.len() ==> #[trigger] f.blocks[b]);
    if all_there(f.blocks) && all_complete(after.files) {
        assert(actions[n - 3] == TaskAction::TellFinished);
        assert(actions[n - 2] == TaskAction::Save);
    }
}

/// A job that has waited long enough waits with its kind to be done, and a permit is
/// asked for it.
pub proof fn law_waiting_jobs_come_back(m: TaskModel, retry: RetryKind)
    requires
        m.retry_queue_count > 0,
        m.demand < usize::MAX,
        match retry {
            RetryKind::Metadata(i) => i < m.files.len(),
            RetryKind::StreamDownload(i) => i < m.files.len(),
            RetryKind::RangeDownload(i, _) => i < m.files.len(),
        },
    ensures
        ({
            let (after, actions) = task_step(m, SupervisorMessage::RetryReady { retry });
            &&& actions == seq![TaskAction::RequestPermits]
            &&& after.demand == m.demand + 1
            &&& after.retry_queue_count == m.retry_queue_count - 1
            &&& match retry {
                RetryKind::Metadata(i) => after.retry_uninitialized == m.retry_uninitialized.push(
                    i,
                ) && after.retry_streams == m.retry_streams && after.files == m.files,
                RetryKind::StreamDownload(i) => after.retry_streams == m.retry_streams.push(i)
                    && after.retry_uninitialized == m.retry_uninitialized && after.files
                    == m.files,
                RetryKind::RangeDownload(i, range) => {
                    &&& after.retry_uninitialized == m.retry_uninitialized
                    &&& after.retry_streams == m.retry_streams
                    &&& after.files[i as int] == (TaskFileModel {
                        retry_ranges: m.files[i as int].retry_ranges.push(range),
                        ..m.files[i as int]
                    })
                    &&& others_stay(m.files, after.files, i as int)
                },
            }
        }),
{
}

/// Whether a file has ended, or is paused.
pub open spec fn rests(status: TaskStatus) -> bool {
    status is Completed || status is Failed || status is Paused
}

proof fn lemma_paused(m: TaskModel, n: nat)
    requires
        n <= m.files.len(),
    ensures
        ({
            let (after, actions) = paused_first(m, n);
            &&& after == (TaskModel { files: after.files, ..m })
            &&& after.files.len() == m.files.len()
            &&& forall|i: int|
                0 <= i < m.files.len() ==> #[trigger] after.files[i] == if i < n && !rests(
                    m.files[i].status,
                ) {
                    TaskFileModel { status: TaskStatus::Paused, ..m.files[i] }
                } else {
                    m.files[i]
                }
            &&& forall|k: int|
                0 <= k < actions.len() ==> ((#[trigger] actions[k]) matches TaskAction::ShowStatus {
                    file_id,
                    status,
                } && status is Paused && file_id < n)
        }),
    decreases n,
{
    if n > 0 {
        lemma_paused(m, (n - 1) as nat);
        let (before, shown) = paused_first(m, (n - 1) as nat);
        let (after, actions) = paused_first(m, n);
        assert(before.files[n - 1] == m.files[n - 1]);
    }
}

/// When the work is paused, every file that has not ended is, and no other changes; the
/// download is saved and the work ends for now.
pub proof fn law_pausing_reaches_every_file(m: TaskModel)
    ensures
        ({
            let (after, actions) = task_step(m, SupervisorMessage::Pause);
            &&& after == (TaskModel { files: after.files, ..m })
            &&& after.files.len() == m.files.len()
            &&& forall|i: int|
                0 <= i < m.files.len() ==> #[trigger] after.files[i] == if rests(
                    m.files[i].status,
                ) {
                    m.files[i]
                } else {
                    TaskFileModel { status: TaskStatus::Paused, ..m.files[i] }
                }
            &&& actions[0] is ShowPaused
            &&& actions.contains(TaskAction::Save)
            &&& actions.last() is Stop
        }),
{
    lemma_paused(m, m.files.len());
    let actions = task_step(m, SupervisorMessage::Pause).1;
    assert(actions[actions.len() - 2] == TaskAction::Save);
}

/// A permit that was called back is given back at once, and a good one is used. From time
/// to time the download is saved, and nothing else happens.
pub proof fn law_good_permits_are_used(m: TaskModel)
    requires
        m.permit_count > 0,
    ensures
        task_step(m, SupervisorMessage::ProcessPermit { valid: true }).0 == m,
        task_step(m, SupervisorMessage::ProcessPermit { valid: true }).1
            == seq![TaskAction::SpawnWorker],
        task_step(m, SupervisorMessage::ProcessPermit { valid: false }).0.permit_count
            == m.permit_count - 1,
        task_step(m, SupervisorMessage::ProcessPermit { valid: false }).0.files == m.files,
        task_step(m, SupervisorMessage::ProcessPermit { valid: false }).1
            == seq![TaskAction::ReturnPermit],
        task_step(m, SupervisorMessage::Tick).0 == m,
        task_step(m, SupervisorMessage::Tick).1 == seq![TaskAction::Save],
{
}

/// Whether nothing more can be fetched of a file in ranges: it is complete, or nothing
/// that failed waits and nothing is missing behind the cursor.
pub open spec fn wants_no_range(f: TaskFileModel) -> bool {
    f.status is Completed || (f.retry_ranges.len() == 0 && forall|b: int|
        f.cursor <= b < f.blocks.len() ==> #[trigger] f.blocks[b])
}

/// Whether a range is the next new one of a file: it begins with the first block missing
/// behind the cursor, misses all its blocks, and ends only where a block is there, the
/// file ends, or it is as long as a range should be. It says how many bytes it holds.
pub open spec fn is_next_range(f: TaskFileModel, size: u64, range: RangeRetryJob) -> bool {
    &&& f.cursor <= range.start < range.end <= f.blocks.len()
    &&& forall|b: int| f.cursor <= b < range.start ==> #[trigger] f.blocks[b]
    &&& forall|b: int| range.start <= b < range.end ==> !#[trigger] f.blocks[b]
    &&& range.end - range.start <= 320
    &&& range.end == f.blocks.len() || range.end - range.start == 320 || f.blocks[range.end as int]
    &&& just_holds(f.blocks.len(), 16384, size as nat) ==> range.start * 16384 + range.expected_len
        == if range.end == f.blocks.len() {
        size as int
    } else {
        range.end * 16384
    }
}

proof fn lemma_next_range(m: TaskModel, from: int)
    requires
        m.wf(),
        0 <= from <= m.files.len(),
    ensures
        match chunk_taken(m, from) {
            (after, Some(job)) => job matches Job::DownloadChunk { file_id, range } && {
                let i = file_id as int;
                let f = m.files[i];
                &&& from <= i < m.files.len()
                &&& forall|j: int| from <= j < i ==> wants_no_range(#[trigger] m.files[j])
                &&& !(f.status is Completed)
                &&& after == (TaskModel { files: after.files, ..m })
                &&& others_stay(m.files, after.files, i)
                &&& if f.retry_ranges.len() > 0 {
                    &&& range == f.retry_ranges.last()
                    &&& after.files[i] == (TaskFileModel {
                        retry_ranges: f.retry_ranges.drop_last(),
                        ..f
                    })
                } else {
                    &&& f.size matches Some(FileSize::Known(size)) && is_next_range(f, size, range)
                    &&& after.files[i] == (TaskFileModel { cursor: range.end, open: true, ..f })
                }
            },
            (after, None) => {
                ||| after == m && forall|j: int|
                    from <= j < m.files.len() ==> wants_no_range(#[trigger] m.files[j])
                ||| exists|j: int|
                    from <= j < m.files.len() && !((#[trigger] m.files[j]).size matches Some(
                        FileSize::Known(_),
                    )) && !wants_no_range(m.files[j])
            },
        },
    decreases m.files.len() - from,
{
    if from < m.files.len() {
        let f = m.files[from];
        lemma_first_missing(f.blocks, f.cursor as int);
        let missing = first_missing(f.blocks, f.cursor as int);
        if f.status is Completed || (f.retry_ranges.len() == 0 && missing.is_none()) {
            assert(wants_no_range(f));
            lemma_next_range(m, from + 1);
            match chunk_taken(m, from) {
                (after, Some(Job::DownloadChunk { file_id, range })) => {
                    assert forall|j: int| from <= j < file_id implies wants_no_range(
                        #[trigger] m.files[j],
                    ) by {
                        if j > from {
                        }
                    }
                },
                _ => {},
            }
        } else if f.retry_ranges.len() == 0 {
            let start = missing->0;
            let far = if start + 320 < f.blocks.len() {
                start + 320
            } else {
                f.blocks.len() as int
            };
            lemma_first_present(f.blocks, start, far);
            assert(!f.blocks[start]);
            assert(f.blocks.len() * 16384 <= u64::MAX);
            let end = crate::download::ranges::first_present(f.blocks, start, far);
            if let Some(FileSize::Known(size)) = f.size {
                if just_holds(f.blocks.len(), 16384, size as nat) {
                    assert(size > start * 16384);
                    if end < f.blocks.len() {
                        assert(end * 16384 < size);
                    }
                }
            }
        }
    }
}

/// The next range is one that failed before, the latest first, or else the next new one,
/// of the first file that anything can be fetched of in ranges. A new one is not taken
/// again, and its file is open from then on.
pub proof fn law_the_next_range_is_the_first_missing(m: TaskModel)
    requires
        m.wf(),
    ensures
        match chunk_taken(m, 0) {
            (after, Some(job)) => job matches Job::DownloadChunk { file_id, range } && {
                let i = file_id as int;
                let f = m.files[i];
                &&& i < m.files.len()
                &&& forall|j: int| 0 <= j < i ==> wants_no_range(#[trigger] m.files[j])
                &&& !(f.status is Completed)
                &&& others_stay(m.files, after.files, i)
                &&& if f.retry_ranges.len() > 0 {
                    &&& range == f.retry_ranges.last()
                    &&& after.files[i] == (TaskFileModel {
                        retry_ranges: f.retry_ranges.drop_last(),
                        ..f
                    })
                } else {
                    &&& f.size matches Some(FileSize::Known(size)) && is_next_range(f, size, range)
                    &&& after.files[i] == (TaskFileModel { cursor: range.end, open: true, ..f })
                }
            },
            (after, None) => {
                ||| after == m && forall|j: int|
                    0 <= j < m.files.len() ==> wants_no_range(#[trigger] m.files[j])
                ||| exists|j: int|
                    0 <= j < m.files.len() && !((#[trigger] m.files[j]).size matches Some(
                        FileSize::Known(_),
                    )) && !wants_no_range(m.files[j])
            },
        },
{
    lemma_next_range(m, 0);
}

proof fn lemma_firsts(files: Seq<TaskFileModel>, from: int)
    requires
        0 <= from <= files.len(),
    ensures
        match first_unknown(files, from) {
            Some(i) => from <= i < files.len() && files[i].size is None && forall|j: int|
                from <= j < i ==> (#[trigger] files[j]).size is Some,
            None => forall|j: int| from <= j < files.len() ==> (#[trigger] files[j]).size is Some,
        },
        match first_stream(files, from) {
            Some(i) => from <= i < files.len() && files[i].size == Some(FileSize::Unknown)
                && forall|j: int|
                from <= j < i ==> (#[trigger] files[j]).size != Some(FileSize::Unknown),
            None => forall|j: int|
                from <= j < files.len() ==> (#[trigger] files[j]).size != Some(FileSize::Unknown),
        },
    decreases files.len() - from,
{
    if from < files.len() {
        lemma_firsts(files, from + 1);
    }
}

/// The next whole file is one that failed before, the latest first, or else the first
/// behind the cursor that can only be fetched as a whole.
pub proof fn law_the_next_stream_is_the_first(m: TaskModel)
    requires
        m.wf(),
    ensures
        ({
            let (after, job) = stream_taken(m);
            &&& after.files == m.files
            &&& if m.retry_streams.len() > 0 {
                &&& job == Some(Job::DownloadStream { file_id: m.retry_streams.last() })
                &&& after.retry_streams == m.retry_streams.drop_last()
            } else {
                match job {
                    Some(Job::DownloadStream { file_id }) => {
                        &&& m.streams_cursor <= file_id < m.files.len()
                        &&& m.files[file_id as int].size == Some(FileSize::Unknown)
                        &&& forall|j: int|
                            m.streams_cursor <= j < file_id ==> (#[trigger] m.files[j]).size
                                != Some(FileSize::Unknown)
                        &&& after.streams_cursor == file_id + 1
                    },
                    Some(_) => false,
                    None => after == m && forall|j: int|
                        m.streams_cursor <= j < m.files.len() ==> (#[trigger] m.files[j]).size
                            != Some(FileSize::Unknown),
                }
            }
        }),
{
    lemma_firsts(m.files, m.streams_cursor as int);
}

/// Whether a file waits to be asked for its size.
pub open spec fn sizes_are_wanted(m: TaskModel) -> bool {
    m.retry_uninitialized.len() > 0 || exists|i: int|
        m.uninitialized_cursor <= i < m.files.len() && (#[trigger] m.files[i]).size is None
}

/// Whether this is the file to be asked for its size: the latest that failed before, or
/// else the first behind the cursor without a size.
pub open spec fn is_next_unknown(m: TaskModel, file_id: usize) -> bool {
    if m.retry_uninitialized.len() > 0 {
        file_id == m.retry_uninitialized.last()
    } else {
        &&& m.uninitialized_cursor <= file_id < m.files.len()
        &&& m.files[file_id as int].size is None
        &&& forall|j: int|
            m.uninitialized_cursor <= j < file_id ==> (#[trigger] m.files[j]).size is Some
    }
}

/// The work with no file waiting to be asked for its size again.
pub open spec fn without_asked(m: TaskModel) -> TaskModel {
    if m.retry_uninitialized.len() > 0 {
        TaskModel { retry_uninitialized: m.retry_uninitialized.drop_last(), ..m }
    } else {
        m
    }
}

/// With a single permit sizes are asked for first. Else data is fetched first while less
/// than half of the permits fetch data, and sizes are asked for first otherwise. A
/// permit is left over only if neither is to be done.
pub proof fn law_permits_go_to_what_is_due(m: TaskModel)
    requires
        m.wf(),
    ensures
        ({
            let job = job_taken(m).1;
            let data = data_taken(without_asked(m)).1;
            let asks = job matches Some(Job::GetSize { file_id }) && is_next_unknown(m, file_id);
            if sizes_are_wanted(m) && m.permit_count == 1 {
                asks
            } else if m.active_downloads < m.permit_count / 2 && data is Some {
                job == data
            } else if sizes_are_wanted(m) {
                asks
            } else {
                job == data
            }
        }),
{
    lemma_firsts(m.files, m.uninitialized_cursor as int);
}

/// Ranges are fetched before whole files.
pub proof fn law_ranges_go_before_streams(m: TaskModel)
    ensures
        chunk_taken(m, 0).1 is Some ==> data_taken(m).1 == chunk_taken(m, 0).1,
        chunk_taken(m, 0).1 is None ==> data_taken(m).1 == stream_taken(chunk_taken(m, 0).0).1,
{
}

/// What is due is begun with the permit, and counts as under way. Where nothing is due
/// the permit is given back; where nothing waits to be done again either no more are
/// wanted; and where nothing is under way either and every file is complete the work
/// ends, and not before.
pub proof fn law_permits_are_used_or_given_back(m: TaskModel)
    requires
        m.permit_count > 0,
        m.active_downloads < usize::MAX,
        m.active_metadata_requests < usize::MAX,
    ensures
        ({
            let (after, actions) = task_step(m, SupervisorMessage::SpawnWorker);
            let (looked, job) = job_taken(m);
            match job {
                Some(Job::GetSize { file_id }) => {
                    &&& after.active_metadata_requests == looked.active_metadata_requests + 1
                    &&& after.active_downloads == looked.active_downloads
                    &&& after.permit_count == looked.permit_count
                    &&& actions.last() == (TaskAction::FetchSize { file_id })
                    &&& file_id < looked.files.len() ==> after.files[file_id as int].status is
                        FetchingMetadata
                },
                Some(Job::DownloadChunk { file_id, range }) => {
                    &&& after.active_downloads == looked.active_downloads + 1
                    &&& after.active_metadata_requests == looked.active_metadata_requests
                    &&& after.files == looked.files
                    &&& actions == seq![TaskAction::FetchRange { file_id, range }]
                },
                Some(Job::DownloadStream { file_id }) => {
                    &&& after.active_downloads == looked.active_downloads + 1
                    &&& after.active_metadata_requests == looked.active_metadata_requests
                    &&& after.files == looked.files
                    &&& actions == seq![TaskAction::FetchStream { file_id }]
                },
                None => {
                    &&& after.files == looked.files
                    &&& after.permit_count == looked.permit_count - 1
                    &&& actions[0] is ReturnPermit
                    &&& looked.retry_queue_count > 0 ==> after.demand == looked.demand && goes_on(
                        actions,
                    )
                    &&& looked.retry_queue_count == 0 ==> after.demand == 0
                    &&& if looked.retry_queue_count == 0 && after.permit_count == 0
                        && after.active_downloads == 0 && forall|k: int|
                        0 <= k < after.files.len() ==> (#[trigger] after.files[k]).status is
                            Completed {
                        tells_the_end(actions)
                    } else {
                        goes_on(actions)
                    }
                },
            }
        }),
{
    lemma_counts(m);
    let (after, actions) = task_step(m, SupervisorMessage::SpawnWorker);
    let (looked, job) = job_taken(m);
    let n = actions.len() as int;
    if job is None && looked.retry_queue_count == 0 && after.permit_count == 0
        && after.active_downloads == 0 && all_complete(after.files) {
        assert(actions[n - 3] == TaskAction::TellFinished);
        assert(actions[n - 2] == TaskAction::Save);
    }
}

proof fn lemma_chunk_counts(m: TaskModel, from: int)
    ensures
        chunk_taken(m, from).0 == (TaskModel { files: chunk_taken(m, from).0.files, ..m }),
    decreases m.files.len() - from,
{
    if from < m.files.len() {
        lemma_chunk_counts(m, from + 1);
    }
}

proof fn lemma_counts(m: TaskModel)
    ensures
        ({
            let looked = job_taken(m).0;
            &&& looked.active_downloads == m.active_downloads
            &&& looked.active_metadata_requests == m.active_metadata_requests
            &&& looked.permit_count == m.permit_count
            &&& looked.retry_queue_count == m.retry_queue_count
            &&& looked.demand == m.demand
        }),
{
    lemma_chunk_counts(m, 0);
    lemma_chunk_counts(crate::download_task::next_uninitialized(m).0, 0);
}

/// Looking for what is due counts nothing.
pub proof fn law_looking_counts_nothing(m: TaskModel)
    ensures
        ({
            let looked = job_taken(m).0;
            &&& looked.active_downloads == m.active_downloads
            &&& looked.active_metadata_requests == m.active_metadata_requests
            &&& looked.permit_count == m.permit_count
            &&& looked.retry_queue_count == m.retry_queue_count
            &&& looked.demand == m.demand
        }),
{
    lemma_counts(m);
}

/// Whether something is missing in a stretch of blocks as long as a range should be.
pub open spec fn stretch_misses(blocks: Seq<bool>, stretch: int) -> bool {
    exists|b: int|
        stretch * 320 <= b < (stretch + 1) * 320 && b < blocks.len() && !#[trigger] blocks[b]
}

/// How many of the stretches before `n` miss something.
pub open spec fn stretches_missing(blocks: Seq<bool>, n: nat) -> nat
    decreases n,
{
    if n == 0 {
        0
    } else {
        stretches_missing(blocks, (n - 1) as nat) + if stretch_misses(blocks, n - 1) {
            1nat
        } else {
            0nat
        }
    }
}

proof fn lemma_stretches(blocks: Seq<bool>, from: nat, n: nat)
    requires
        (n - 1) * 320 < blocks.len() <= n * 320,
        from <= n,
    ensures
        crate::download_task::broken_stretches(
            blocks,
            if from * 320 < blocks.len() {
                (from * 320) as int
            } else {
                blocks.len() as int
            },
        ) == stretches_missing(blocks, n) - stretches_missing(blocks, from),
    decreases n - from,
{
    if from < n {
        lemma_stretches(blocks, from + 1, n);
        lemma_stretches_step(blocks, from, n);
        let start = (from * 320) as int;
        let to = if start + 320 < blocks.len() {
            start + 320
        } else {
            blocks.len() as int
        };
        let part = blocks.subrange(start, to);
        assert(all_there(part) == !stretch_misses(blocks, from as int)) by {
            if stretch_misses(blocks, from as int) {
                let b = choose|b: int|
                    from * 320 <= b < (from + 1) * 320 && b < blocks.len() && !#[trigger] blocks[b];
                assert(part[b - start] == blocks[b]);
            } else {
                assert forall|i: int| 0 <= i < part.len() implies part[i] by {
                    assert(part[i] == blocks[start + i]);
                    assert(blocks[start + i]);
                }
            }
        }
    }
}

proof fn lemma_stretches_step(blocks: Seq<bool>, from: nat, n: nat)
    requires
        from < n,
    ensures
        stretches_missing(blocks, from + 1) == stretches_missing(blocks, from) + if stretch_misses(
            blocks,
            from as int,
        ) {
            1nat
        } else {
            0nat
        },
{
}

/// A file that is complete wants no permit, and one of which no block is known wants one;
/// any other wants one for each stretch, as long as a range should be, that misses
/// something.
pub proof fn law_files_want_a_permit_for_every_stretch(f: TaskFileModel, stretches: nat)
    requires
        (stretches - 1) * 320 < f.blocks.len() <= stretches * 320,
    ensures
        f.status is Completed ==> file_demand(f) == 0,
        !(f.status is Completed) && f.blocks.len() == 0 ==> file_demand(f) == 1,
        !(f.status is Completed) && f.blocks.len() > 0 ==> file_demand(f) == stretches_missing(
            f.blocks,
            stretches,
        ),
{
    lemma_stretches(f.blocks, 0, stretches);
}

/// The work wants as many permits as its files together.
pub proof fn law_demands_add_up(a: Seq<TaskFileModel>, b: Seq<TaskFileModel>)
    ensures
        demand_of(a + b, (a + b).len()) == demand_of(a, a.len()) + demand_of(b, b.len()),
        a.len() == 1 ==> demand_of(a, a.len()) == file_demand(a[0]),
    decreases b.len(),
{
    if b.len() == 0 {
        assert(a + b =~= a);
        if a.len() == 1 {
            assert(demand_of(a, 0) == 0);
        }
    } else {
        let rest = b.drop_last();
        law_demands_add_up(a, rest);
        lemma_demand_same(a + b, a + rest, (a + rest).len());
        lemma_demand_same(b, rest, rest.len());
        if a.len() == 1 {
            assert(demand_of(a, 0) == 0);
        }
    }
}

proof fn lemma_demand_same(a: Seq<TaskFileModel>, b: Seq<TaskFileModel>, n: nat)
    requires
        n <= a.len(),
        n <= b.len(),
        forall|i: int| 0 <= i < n ==> #[trigger] a[i] == b[i],
    ensures
        demand_of(a, n) == demand_of(b, n),
    decreases n,
{
    if n > 0 {
        lemma_demand_same(a, b, (n - 1) as nat);
        assert(a[n - 1] == b[n - 1]);
    }
}

/// The work on a download that is complete ends at once and is told to have finished.
/// Otherwise it goes on if the download runs; where that is paused or failed nothing is
/// wanted, and the work stops.
pub proof fn law_work_begins_only_where_it_is_due(m: TaskModel, complete: bool, root: RootState)
    ensures
        ({
            let (after, actions) = begun(m, complete, root);
            &&& after.files == m.files
            &&& !complete && root is Running <==> actions.len() == 0
            &&& actions.len() > 0 ==> actions.last() is Stop
            &&& complete || root is Running ==> after == m
            &&& !complete && !(root is Running) ==> after.demand == 0 && actions[0] is TellHalted
            &&& actions.contains(TaskAction::TellFinished) <==> complete || root is Ended
        }),
{
    let actions = begun(m, complete, root).1;
    if complete {
        assert(actions[1] == TaskAction::TellFinished);
    } else if root is Ended {
        assert(actions[2] == TaskAction::TellFinished);
    }
}

/// A file that is asked for its size is not asked again unless that fails: the cursor moves
/// behind it, or it does not wait to be asked again any more.
pub proof fn law_sizes_are_asked_for_once(m: TaskModel)
    requires
        m.wf(),
    ensures
        ({
            let (after, job) = job_taken(m);
            job matches Some(Job::GetSize { file_id }) ==> {
                &&& m.retry_uninitialized.len() > 0 ==> after.retry_uninitialized
                    == m.retry_uninitialized.subrange(0, m.retry_uninitialized.len() - 1)
                &&& m.retry_uninitialized.len() == 0 ==> after.uninitialized_cursor == file_id + 1
                &&& after.uninitialized_cursor >= m.uninitialized_cursor
            }
        }),
{
    lemma_firsts(m.files, m.uninitialized_cursor as int);
    let looked = crate::download_task::next_uninitialized(m).0;
    lemma_data_counts(looked);
    if m.retry_uninitialized.len() > 0 {
        assert(m.retry_uninitialized.drop_last() =~= m.retry_uninitialized.subrange(
            0,
            m.retry_uninitialized.len() - 1,
        ));
    }
}

proof fn lemma_data_counts(m: TaskModel)
    ensures
        data_taken(m).0.uninitialized_cursor == m.uninitialized_cursor,
        data_taken(m).0.retry_uninitialized == m.retry_uninitialized,
        data_taken(m).0.files.len() == m.files.len(),
        data_taken(m).1 matches Some(job) ==> !(job is GetSize),
{
    lemma_chunk_counts(m, 0);
    lemma_chunk_len(m, 0);
}

proof fn lemma_chunk_len(m: TaskModel, from: int)
    requires
        0 <= from,
    ensures
        chunk_taken(m, from).0.files.len() == m.files.len(),
        chunk_taken(m, from).1 matches Some(job) ==> job is DownloadChunk,
    decreases m.files.len() - from,
{
    if from < m.files.len() {
        lemma_chunk_len(m, from + 1);
    }
}

/// Word of a file that is not there changes no file. A range of it is not taken up again;
/// any other job that waited for it is.
pub proof fn law_strays_change_no_file(m: TaskModel, message: SupervisorMessage)
    requires
        match message {
            SupervisorMessage::MetadataFetched { file_id, .. } => file_id >= m.files.len(),
            SupervisorMessage::StreamSuccess { file_id, .. } => file_id >= m.files.len(),
            SupervisorMessage::StreamFailed { file_id, .. } => file_id >= m.files.len(),
            SupervisorMessage::RangeSuccess { file_id, .. } => file_id >= m.files.len(),
            SupervisorMessage::RangeFailed { file_id, .. } => file_id >= m.files.len(),
            SupervisorMessage::RetryReady { retry } => match retry {
                RetryKind::Metadata(i) => i >= m.files.len(),
                RetryKind::StreamDownload(i) => i >= m.files.len(),
                RetryKind::RangeDownload(i, _) => i >= m.files.len(),
            },
            _ => false,
        },
    ensures
        ({
            let (after, actions) = task_step(m, message);
            &&& after.files == m.files
            &&& message matches SupervisorMessage::RetryReady { retry } ==> {
                &&& actions == seq![TaskAction::RequestPermits]
                &&& retry matches RetryKind::Metadata(i) ==> after.retry_uninitialized
                    == m.retry_uninitialized.push(i)
                &&& retry matches RetryKind::StreamDownload(i) ==> after.retry_streams
                    == m.retry_streams.push(i)
                &&& retry is RangeDownload ==> after.retry_uninitialized == m.retry_uninitialized
                    && after.retry_streams == m.retry_streams
            }
            &&& message matches SupervisorMessage::StreamFailed { file_id, error } ==> (
            error is Network ==> actions.len() > 0 && actions.last() == (TaskAction::RetryAfter {
                millis: 5000,
                retry: RetryKind::StreamDownload(file_id),
            }))
        }),
{
}

} // verus!
