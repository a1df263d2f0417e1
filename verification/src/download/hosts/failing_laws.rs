//! What holds of every decision about a job that failed.

use vstd::arithmetic::power2::{lemma2_to64, lemma_pow2_unfold, pow2};
use vstd::prelude::*;
#[allow(unused_imports)]
use crate::download::hosts::failing::{
    after_download_error, after_metadata_error, after_range_error, backoff, power_of_two,
    FailureAction,
};
#[allow(unused_imports)]
use crate::download::hosts::failures::{
    DownloadError, DownloadOperation, HttpFailureKind, IoErrorKind, MetadataError,
    PermanentFailureKind, RangeDownloadError,
};
#[allow(unused_imports)]
use crate::download::hosts::jobs::{FailedJob, MetadataJob, RangeJob, StreamJob};

verus! {

/// How often a job has failed.
pub open spec fn failures_of<C>(job: FailedJob<C>) -> int {
    match job {
        FailedJob::Metadata(j) => j.retries as int,
        FailedJob::Stream(j) => j.retries as int,
        FailedJob::Range(j) => j.retries as int,
    }
}

/// Whether a job is another that has failed once more, and the same in all else.
pub open spec fn failed_once_more<C>(job: FailedJob<C>, again: FailedJob<C>) -> bool {
    match (job, again) {
        (FailedJob::Metadata(a), FailedJob::Metadata(b)) => {
            &&& b.retries == a.retries + 1
            &&& b.download_id == a.download_id
            &&& b.file_id == a.file_id
            &&& b.url == a.url
            &&& b.context == a.context
        },
        (FailedJob::Stream(a), FailedJob::Stream(b)) => {
            &&& b.retries == a.retries + 1
            &&& b.download_id == a.download_id
            &&& b.file_id == a.file_id
            &&& b.url == a.url
            &&& b.path == a.path
            &&& b.context == a.context
        },
        (FailedJob::Range(a), FailedJob::Range(b)) => {
            &&& b.retries == a.retries + 1
            &&& b.download_id == a.download_id
            &&& b.file_id == a.file_id
            &&& b.url == a.url
            &&& b.path == a.path
            &&& b.range == a.range
            &&& b.expected_bytes == a.expected_bytes
            &&& b.previously_downloaded == a.previously_downloaded
            &&& b.context == a.context
        },
        _ => false,
    }
}

/// Whether a report says what a job was doing, and for what.
pub open spec fn names_job<C>(operation: DownloadOperation, job: FailedJob<C>) -> bool {
    match (operation, job) {
        (DownloadOperation::FetchingMetadata { download_id, file_id }, FailedJob::Metadata(j)) =>
            download_id == j.download_id && file_id == j.file_id,
        (DownloadOperation::DownloadingStream { download_id, file_id }, FailedJob::Stream(j)) =>
            download_id == j.download_id && file_id == j.file_id,
        (
            DownloadOperation::DownloadingRange { download_id, file_id, range },
            FailedJob::Range(j),
        ) => download_id == j.download_id && file_id == j.file_id && range == j.range,
        _ => false,
    }
}

/// Whether a job is done again after a pause while it has attempts left, and given up for
/// `kind` with the last of them.
pub open spec fn tried_again<C>(
    action: FailureAction<C>,
    job: FailedJob<C>,
    max_retries: usize,
    pause: int,
    kind: PermanentFailureKind,
) -> bool {
    if failures_of(job) + 1 < max_retries {
        action matches FailureAction::RetryAfter { job: again, millis } && failed_once_more(
            job,
            again,
        ) && millis == pause
    } else {
        action matches FailureAction::GiveUp { job: again, failure } && failed_once_more(job, again)
            && names_job(failure.operation, job) && failure.kind == kind
    }
}

/// Whether a job is given up at once, as often as it has failed so far.
pub open spec fn given_up_at_once<C>(
    action: FailureAction<C>,
    job: FailedJob<C>,
    kind: PermanentFailureKind,
) -> bool {
    action matches FailureAction::GiveUp { job: same, failure } && same == job && names_job(
        failure.operation,
        job,
    ) && failure.kind == kind
}

/// The pause before the next attempt: a second, twice as long for every failure, and what
/// chance adds.
pub open spec fn doubled_pause<C>(job: FailedJob<C>, jitter: u64) -> int {
    1000 * pow2((failures_of(job) + 1) as nat) + jitter
}

/// Why a job is given up that has no attempts left.
pub open spec fn out_of_attempts<C>(job: FailedJob<C>) -> PermanentFailureKind {
    PermanentFailureKind::TooManyRetries { attempts: (failures_of(job) + 1) as usize }
}

/// Whether an error of the operating system says that something is wrong with the disk, the
/// path or the request: doing the same again will not help.
pub open spec fn lasts(kind: IoErrorKind) -> bool {
    match kind {
        IoErrorKind::NotFound
        | IoErrorKind::PermissionDenied
        | IoErrorKind::NotADirectory
        | IoErrorKind::IsADirectory
        | IoErrorKind::InvalidInput
        | IoErrorKind::AddrInUse
        | IoErrorKind::AddrNotAvailable
        | IoErrorKind::AlreadyExists
        | IoErrorKind::DirectoryNotEmpty
        | IoErrorKind::ReadOnlyFilesystem
        | IoErrorKind::StaleNetworkFileHandle
        | IoErrorKind::InvalidData
        | IoErrorKind::NotSeekable
        | IoErrorKind::CrossesDevices
        | IoErrorKind::TooManyLinks
        | IoErrorKind::InvalidFilename
        | IoErrorKind::ArgumentListTooLong
        | IoErrorKind::Unsupported
        | IoErrorKind::WriteZero
        | IoErrorKind::StorageFull
        | IoErrorKind::QuotaExceeded
        | IoErrorKind::FileTooLarge
        | IoErrorKind::OutOfMemory => true,
        _ => false,
    }
}

proof fn lemma_power(n: nat)
    ensures
        power_of_two(n) == pow2(n),
    decreases n,
{
    lemma2_to64();
    if n > 0 {
        lemma_power((n - 1) as nat);
        lemma_pow2_unfold(n);
    }
}

proof fn lemma_pause_fits(n: nat, jitter: u64)
    requires
        n < 32,
    ensures
        backoff(n, jitter as nat) as u128 == 1000 * pow2(n) + jitter,
{
    lemma_power(n);
    lemma2_to64();
    if n < 31 {
        vstd::arithmetic::power2::lemma_pow2_strictly_increases(n, 31);
    }
}

/// An error of the operating system may pass exactly if it does not last.
pub proof fn law_errors_pass_or_last(kind: IoErrorKind)
    ensures
        kind.spec_is_temporary() <==> !lasts(kind),
{
}

/// A connection that failed, a server that erred, a refusal other than for a missing file,
/// and a hitch of the machine may all pass: the job is done again while it has attempts left.
pub proof fn law_what_may_pass_is_tried_again<C>(
    job: FailedJob<C>,
    error: DownloadError,
    max_retries: usize,
    jitter: u64,
)
    requires
        failures_of(job) + 1 < 32,
        match error {
            DownloadError::Network => true,
            DownloadError::ServerError(_) => true,
            DownloadError::ClientError(status) => status != 404,
            DownloadError::Io(kind) => !lasts(kind),
            DownloadError::RateLimited(_) => false,
        },
    ensures
        tried_again(
            after_download_error(job, error, max_retries, jitter),
            job,
            max_retries,
            doubled_pause(job, jitter),
            out_of_attempts(job),
        ),
{
    lemma_pause_fits((failures_of(job) + 1) as nat, jitter);
}

/// A file that is not there, and an error that lasts, are final at once, and nothing else
/// is while attempts are left.
pub proof fn law_what_lasts_is_given_up<C>(
    job: FailedJob<C>,
    error: DownloadError,
    max_retries: usize,
    jitter: u64,
)
    requires
        failures_of(job) + 1 < max_retries,
    ensures
        ({
            let action = after_download_error(job, error, max_retries, jitter);
            match error {
                DownloadError::ClientError(status) if status == 404 => given_up_at_once(
                    action,
                    job,
                    PermanentFailureKind::Http(HttpFailureKind::FileNotFound),
                ),
                DownloadError::Io(kind) if lasts(kind) => given_up_at_once(
                    action,
                    job,
                    PermanentFailureKind::Disk(kind),
                ),
                _ => !(action is GiveUp),
            }
        }),
{
}

/// A server that wants a pause gets it, as long as it asks for and five seconds if it does
/// not say: the job waits, no others are begun, and it has not failed.
pub proof fn law_wanted_pauses_are_kept<C>(
    job: FailedJob<C>,
    retry_after: Option<u64>,
    max_retries: usize,
    jitter: u64,
)
    ensures
        after_download_error(
            job,
            DownloadError::RateLimited(retry_after),
            max_retries,
            jitter,
        ) matches FailureAction::RateLimit { job: same, millis } && same == job && millis == 1000
            * match retry_after {
            Some(seconds) => seconds as int,
            None => 5,
        },
{
}

/// A job that asks what a file is like is given up at once only if the file is not there.
/// Any other failure may pass; a status that blames neither side is named when it is given
/// up.
pub proof fn law_questions_are_asked_again<C>(
    job: MetadataJob<C>,
    error: MetadataError,
    max_retries: usize,
    jitter: u64,
)
    requires
        job.retries + 1 < 32,
    ensures
        ({
            let failed = FailedJob::Metadata(job);
            let action = after_metadata_error(job, error, max_retries, jitter);
            match error {
                MetadataError::HttpStatus(status) => if status == 404 {
                    given_up_at_once(
                        action,
                        failed,
                        PermanentFailureKind::Http(HttpFailureKind::FileNotFound),
                    )
                } else {
                    tried_again(
                        action,
                        failed,
                        max_retries,
                        doubled_pause(failed, jitter),
                        if 400 <= status <= 599 {
                            out_of_attempts(failed)
                        } else {
                            PermanentFailureKind::Http(
                                HttpFailureKind::UnexpectedStatus { status },
                            )
                        },
                    )
                },
                MetadataError::Network => tried_again(
                    action,
                    failed,
                    max_retries,
                    doubled_pause(failed, jitter),
                    out_of_attempts(failed),
                ),
            }
        }),
{
    lemma_pause_fits((job.retries + 1) as nat, jitter);
}

/// A range that failed as any file can is treated as a file is. One that was cut is fetched
/// again after less than a second, one that came with a strange status after the usual
/// pause; an error of the disk counts as one while fetching. Nothing goes on when nothing
/// can be written any more.
pub proof fn law_ranges_are_fetched_again<C>(
    job: RangeJob<C>,
    error: RangeDownloadError,
    max_retries: usize,
    jitter: u64,
)
    requires
        job.retries + 1 < 32,
    ensures
        ({
            let failed = FailedJob::Range(job);
            let action = after_range_error(job, error, max_retries, jitter);
            match error {
                RangeDownloadError::Download(e) => action == after_download_error(
                    failed,
                    e,
                    max_retries,
                    jitter,
                ),
                RangeDownloadError::DiskWriteError(kind) => action == after_download_error(
                    failed,
                    DownloadError::Io(kind),
                    max_retries,
                    jitter,
                ),
                RangeDownloadError::UnexpectedLength(_, _) => tried_again(
                    action,
                    failed,
                    max_retries,
                    300,
                    out_of_attempts(failed),
                ),
                RangeDownloadError::UnexpectedStatus(status) => tried_again(
                    action,
                    failed,
                    max_retries,
                    doubled_pause(failed, jitter),
                    PermanentFailureKind::Http(HttpFailureKind::UnexpectedStatus { status }),
                ),
                RangeDownloadError::RangeNotSupported => action is Forget,
                RangeDownloadError::DiskPoolDropped => action is Shutdown,
            }
        }),
{
    lemma_pause_fits((job.retries + 1) as nat, jitter);
}

/// A stream that takes the place of a range fetches the same file to the same place, with
/// all attempts left.
pub proof fn law_streams_replace_ranges<C>(stream: StreamJob<C>, range: RangeJob<C>)
    requires
        stream.replaces(range),
    ensures
        stream.download_id == range.download_id,
        stream.file_id == range.file_id,
        stream.url == range.url,
        stream.path == range.path,
        stream.context == range.context,
        stream.retries == 0,
{
}

} // verus!
