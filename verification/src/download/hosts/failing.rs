//! What is done about a job that failed.

use rand::RngExt;
use vstd::prelude::*;
use crate::download::hosts::failures::{
    is_client_error, is_server_error, DownloadError, HttpFailureKind, IoErrorKind, MetadataError,
    PermanentFailure, PermanentFailureKind, RangeDownloadError,
};
#[allow(unused_imports)]
use crate::download::hosts::failures::{spec_is_client_error, spec_is_server_error};
use crate::download::hosts::jobs::{FailedJob, MetadataJob, RangeJob, StreamJob};

verus! {

/// How often a job may fail before it is given up.
pub const MAX_RETRIES: usize = 5;

/// How many milliseconds, less than this, a pause is lengthened by at random.
pub const JITTER_MS: u64 = 500;

/// How many milliseconds to wait after a connection was cut.
pub const DROPPED_DELAY_MS: u128 = 300;

/// How many seconds to wait if the server does not say how long.
pub const RATE_LIMIT_SECONDS: u64 = 5;

/// What is done about a job that failed.
#[allow(inconsistent_fields)]
pub enum FailureAction<C> {
    /// The failure is final, and is reported.
    GiveUp { job: FailedJob<C>, failure: PermanentFailure },
    /// The job is done again after so many milliseconds.
    RetryAfter { job: FailedJob<C>, millis: u128 },
    /// No job is begun for so many milliseconds, and this one is done again.
    RateLimit { job: FailedJob<C>, millis: u128 },
    /// The job is done at once.
    RetryNow { job: FailedJob<C> },
    /// Another job does what this one should.
    Forget,
    /// Nothing can be written any more, and the program ends.
    Shutdown,
}

/// Two to the power of `n`.
pub open spec fn power_of_two(n: nat) -> nat
    decreases n,
{
    if n == 0 {
        1
    } else {
        2 * power_of_two((n - 1) as nat)
    }
}

/// The pause after so many failures, in milliseconds: twice as long each time, and
/// a little longer at random.
pub open spec fn backoff(retries: nat, jitter: nat) -> nat {
    1000 * power_of_two(retries) + jitter
}

/// A job that failed once more is given up for `kind` if it has failed often enough,
/// and done again after `millis` otherwise.
pub open spec fn once_more<C>(
    job: FailedJob<C>,
    max_retries: usize,
    kind: PermanentFailureKind,
    millis: u128,
) -> FailureAction<C> {
    let again = job.with_retries((job.spec_retries() + 1) as usize);
    if again.spec_retries() >= max_retries {
        FailureAction::GiveUp {
            job: again,
            failure: PermanentFailure { operation: job.operation(), kind },
        }
    } else {
        FailureAction::RetryAfter { job: again, millis }
    }
}

/// The pause before the next attempt of a job.
pub open spec fn next_pause<C>(job: FailedJob<C>, jitter: u64) -> u128 {
    backoff((job.spec_retries() + 1) as nat, jitter as nat) as u128
}

/// Why a job is given up that failed once more, for want of attempts.
pub open spec fn too_many<C>(job: FailedJob<C>) -> PermanentFailureKind {
    PermanentFailureKind::TooManyRetries { attempts: (job.spec_retries() + 1) as usize }
}

/// What is done about a job that may succeed if it is done again.
pub open spec fn temporary<C>(job: FailedJob<C>, max_retries: usize, jitter: u64) -> FailureAction<
    C,
> {
    once_more(job, max_retries, too_many(job), next_pause(job, jitter))
}

/// What is done about a job that is given up at once.
pub open spec fn fatal<C>(job: FailedJob<C>, kind: PermanentFailureKind) -> FailureAction<C> {
    FailureAction::GiveUp {
        job,
        failure: PermanentFailure { operation: job.operation(), kind },
    }
}

/// What is done about an error of the operating system.
pub open spec fn after_io_error<C>(
    job: FailedJob<C>,
    error: IoErrorKind,
    max_retries: usize,
    jitter: u64,
) -> FailureAction<C> {
    if error.spec_is_temporary() {
        temporary(job, max_retries, jitter)
    } else {
        fatal(job, PermanentFailureKind::Disk(error))
    }
}

/// What is done about a status that blames the client. A file that is not there will
/// not be there later.
pub open spec fn after_client_error<C>(
    job: FailedJob<C>,
    status: u16,
    max_retries: usize,
    jitter: u64,
) -> FailureAction<C> {
    if status == 404 {
        fatal(job, PermanentFailureKind::Http(HttpFailureKind::FileNotFound))
    } else {
        temporary(job, max_retries, jitter)
    }
}

/// What is done about a status that nothing is known of.
pub open spec fn after_unexpected_status<C>(
    job: FailedJob<C>,
    status: u16,
    max_retries: usize,
    jitter: u64,
) -> FailureAction<C> {
    once_more(
        job,
        max_retries,
        PermanentFailureKind::Http(HttpFailureKind::UnexpectedStatus { status }),
        next_pause(job, jitter),
    )
}

/// What is done about a server that wants a pause.
pub open spec fn after_rate_limit<C>(job: FailedJob<C>, retry_after: Option<u64>) -> FailureAction<
    C,
> {
    FailureAction::RateLimit {
        job,
        millis: (1000 * match retry_after {
            Some(seconds) => seconds as int,
            None => RATE_LIMIT_SECONDS as int,
        }) as u128,
    }
}

/// What is done about a file that could not be fetched.
pub open spec fn after_download_error<C>(
    job: FailedJob<C>,
    error: DownloadError,
    max_retries: usize,
    jitter: u64,
) -> FailureAction<C> {
    match error {
        DownloadError::Io(kind) => after_io_error(job, kind, max_retries, jitter),
        DownloadError::Network => temporary(job, max_retries, jitter),
        DownloadError::RateLimited(retry_after) => after_rate_limit(job, retry_after),
        DownloadError::ServerError(_) => temporary(job, max_retries, jitter),
        DownloadError::ClientError(status) => after_client_error(job, status, max_retries, jitter),
    }
}

/// What is done if nothing could be learned of a file.
pub open spec fn after_metadata_error<C>(
    job: MetadataJob<C>,
    error: MetadataError,
    max_retries: usize,
    jitter: u64,
) -> FailureAction<C> {
    let job = FailedJob::Metadata(job);
    match error {
        MetadataError::HttpStatus(status) => if spec_is_client_error(status) {
            after_client_error(job, status, max_retries, jitter)
        } else if spec_is_server_error(status) {
            temporary(job, max_retries, jitter)
        } else {
            after_unexpected_status(job, status, max_retries, jitter)
        },
        MetadataError::Network => temporary(job, max_retries, jitter),
    }
}

/// What is done about a range that could not be fetched, apart from one of a file
/// that cannot be fetched in ranges.
pub open spec fn after_range_error<C>(
    job: RangeJob<C>,
    error: RangeDownloadError,
    max_retries: usize,
    jitter: u64,
) -> FailureAction<C> {
    let failed = FailedJob::Range(job);
    match error {
        RangeDownloadError::Download(error) => after_download_error(
            failed,
            error,
            max_retries,
            jitter,
        ),
        RangeDownloadError::UnexpectedStatus(status) => after_unexpected_status(
            failed,
            status,
            max_retries,
            jitter,
        ),
        RangeDownloadError::UnexpectedLength(_, _) => once_more(
            failed,
            max_retries,
            too_many(failed),
            DROPPED_DELAY_MS,
        ),
        RangeDownloadError::RangeNotSupported => FailureAction::Forget,
        RangeDownloadError::DiskWriteError(kind) => after_io_error(
            failed,
            kind,
            max_retries,
            jitter,
        ),
        RangeDownloadError::DiskPoolDropped => FailureAction::Shutdown,
    }
}

/// Whether a job can be counted as failed once more, and the pause can be told if it is
/// done again.
pub open spec fn countable_failure<C>(job: FailedJob<C>, max_retries: usize) -> bool {
    &&& job.spec_retries() < usize::MAX
    &&& job.spec_retries() + 1 < max_retries ==> job.spec_retries() + 1 < 32
}

/// The same for a job that failed with an error of the operating system: one that is
/// given up at once is not counted.
pub open spec fn countable_io_failure<C>(
    job: FailedJob<C>,
    error: IoErrorKind,
    max_retries: usize,
) -> bool {
    error.spec_is_temporary() ==> countable_failure(job, max_retries)
}

/// The same for a job that failed with a status that blames the client.
pub open spec fn countable_client_failure<C>(
    job: FailedJob<C>,
    status: u16,
    max_retries: usize,
) -> bool {
    status != 404 ==> countable_failure(job, max_retries)
}

/// The same for a file that could not be fetched.
pub open spec fn countable_download_failure<C>(
    job: FailedJob<C>,
    error: DownloadError,
    max_retries: usize,
) -> bool {
    match error {
        DownloadError::Io(kind) => countable_io_failure(job, kind, max_retries),
        DownloadError::RateLimited(_) => true,
        DownloadError::ClientError(status) => countable_client_failure(job, status, max_retries),
        _ => countable_failure(job, max_retries),
    }
}

/// The same for a file of which nothing could be learned.
pub open spec fn countable_metadata_failure<C>(
    job: MetadataJob<C>,
    error: MetadataError,
    max_retries: usize,
) -> bool {
    match error {
        MetadataError::HttpStatus(status) => countable_client_failure(
            FailedJob::Metadata(job),
            status,
            max_retries,
        ),
        MetadataError::Network => countable_failure(FailedJob::Metadata(job), max_retries),
    }
}

/// The same for a range that could not be fetched.
pub open spec fn countable_range_failure<C>(
    job: RangeJob<C>,
    error: RangeDownloadError,
    max_retries: usize,
) -> bool {
    let failed = FailedJob::Range(job);
    match error {
        RangeDownloadError::Download(error) => countable_download_failure(
            failed,
            error,
            max_retries,
        ),
        RangeDownloadError::UnexpectedStatus(_) => countable_failure(failed, max_retries),
        RangeDownloadError::UnexpectedLength(_, _) => failed.spec_retries() < usize::MAX,
        RangeDownloadError::DiskWriteError(kind) => countable_io_failure(
            failed,
            kind,
            max_retries,
        ),
        _ => true,
    }
}

/// `rand::rng` and `RngExt::random_range`: a number below the bound, at random. Which
/// one is left open. The call panics if the system has no randomness to give.
#[verifier::external_body]
fn random_below(end: u64) -> (r: u64)
    requires
        end > 0,
    ensures
        r < end,
{
    rand::rng().random_range(0..end)
}

proof fn lemma_power_bound(n: nat)
    requires
        n < 32,
    ensures
        1 <= power_of_two(n) <= 0x8000_0000,
    decreases n,
{
    reveal_with_fuel(power_of_two, 33);
    if n > 0 {
        lemma_power_grows(n, 31);
    }
}

proof fn lemma_power_grows(n: nat, m: nat)
    requires
        n <= m,
    ensures
        1 <= power_of_two(n) <= power_of_two(m),
    decreases m,
{
    if n < m {
        lemma_power_grows(n, (m - 1) as nat);
    } else if n > 0 {
        lemma_power_grows((n - 1) as nat, (n - 1) as nat);
    }
}

fn pause_after(retries: usize, jitter: u64) -> (millis: u128)
    requires
        retries < 32,
        jitter < JITTER_MS,
    ensures
        millis as nat == backoff(retries as nat, jitter as nat),
        backoff(retries as nat, jitter as nat) <= u128::MAX,
{
    let mut power: u128 = 1;
    let mut i: usize = 0;
    proof {
        lemma_power_bound(retries as nat);
    }
    while i < retries
        invariant
            i <= retries < 32,
            power as nat == power_of_two(i as nat),
            power_of_two(retries as nat) <= 0x8000_0000,
        decreases retries - i,
    {
        i += 1;
        proof {
            lemma_power_grows(i as nat, retries as nat);
        }
        power = power * 2;
    }
    1000 * power + jitter as u128
}

fn retry_or_give_up<C>(
    job: FailedJob<C>,
    max_retries: usize,
    kind: PermanentFailureKind,
    jitter: Option<u64>,
) -> (r: FailureAction<C>)
    requires
        job.spec_retries() < usize::MAX,
        jitter matches Some(j) ==> j < JITTER_MS && countable_failure(job, max_retries),
    ensures
        r == once_more(
            job,
            max_retries,
            kind,
            match jitter {
                Some(j) => next_pause(job, j),
                None => DROPPED_DELAY_MS,
            },
        ),
{
    let failure = job.into_permanent_failure(kind);
    let job = job.increment_retries();
    let retries: usize = job.retries();
    if retries >= max_retries {
        FailureAction::GiveUp { job, failure }
    } else {
        let millis: u128 = match jitter {
            Some(j) => pause_after(retries, j),
            None => DROPPED_DELAY_MS,
        };
        FailureAction::RetryAfter { job, millis }
    }
}

fn try_again<C>(job: FailedJob<C>, max_retries: usize, jitter: u64) -> (r: FailureAction<C>)
    requires
        countable_failure(job, max_retries),
        jitter < JITTER_MS,
    ensures
        r == temporary(job, max_retries, jitter),
{
    let attempts: usize = job.retries() + 1;
    retry_or_give_up(
        job,
        max_retries,
        PermanentFailureKind::TooManyRetries { attempts },
        Some(jitter),
    )
}

fn give_up<C>(job: FailedJob<C>, kind: PermanentFailureKind) -> (r: FailureAction<C>)
    ensures
        r == fatal(job, kind),
{
    let failure = job.into_permanent_failure(kind);
    FailureAction::GiveUp { job, failure }
}

/// What is done about an error of the operating system.
pub fn handle_io_error<C>(
    job: FailedJob<C>,
    error: IoErrorKind,
    max_retries: usize,
    jitter: u64,
) -> (r: FailureAction<C>)
    requires
        countable_io_failure(job, error, max_retries),
        jitter < JITTER_MS,
    ensures
        r == after_io_error(job, error, max_retries, jitter),
{
    if error.is_temporary() {
        try_again(job, max_retries, jitter)
    } else {
        give_up(job, PermanentFailureKind::Disk(error))
    }
}

/// What is done about a connection that failed.
pub fn handle_network_error<C>(job: FailedJob<C>, max_retries: usize, jitter: u64) -> (r:
    FailureAction<C>)
    requires
        countable_failure(job, max_retries),
        jitter < JITTER_MS,
    ensures
        r == temporary(job, max_retries, jitter),
{
    try_again(job, max_retries, jitter)
}

/// What is done about a server that wants a pause. It costs no attempt.
pub fn handle_rate_limited<C>(job: FailedJob<C>, retry_after: Option<u64>) -> (r: FailureAction<C>)
    ensures
        r == after_rate_limit(job, retry_after),
{
    let seconds: u64 = match retry_after {
        Some(seconds) => seconds,
        None => RATE_LIMIT_SECONDS,
    };
    FailureAction::RateLimit { job, millis: 1000 * seconds as u128 }
}

/// What is done about a status that blames the server.
pub fn handle_server_error<C>(job: FailedJob<C>, max_retries: usize, jitter: u64) -> (r:
    FailureAction<C>)
    requires
        countable_failure(job, max_retries),
        jitter < JITTER_MS,
    ensures
        r == temporary(job, max_retries, jitter),
{
    try_again(job, max_retries, jitter)
}

/// What is done about a status that blames the client.
pub fn handle_client_error<C>(
    job: FailedJob<C>,
    status: u16,
    max_retries: usize,
    jitter: u64,
) -> (r: FailureAction<C>)
    requires
        countable_client_failure(job, status, max_retries),
        jitter < JITTER_MS,
    ensures
        r == after_client_error(job, status, max_retries, jitter),
{
    if status == 404 {
        give_up(job, PermanentFailureKind::Http(HttpFailureKind::FileNotFound))
    } else {
        try_again(job, max_retries, jitter)
    }
}

fn handle_unexpected_status<C>(
    job: FailedJob<C>,
    status: u16,
    max_retries: usize,
    jitter: u64,
) -> (r: FailureAction<C>)
    requires
        countable_failure(job, max_retries),
        jitter < JITTER_MS,
    ensures
        r == after_unexpected_status(job, status, max_retries, jitter),
{
    retry_or_give_up(
        job,
        max_retries,
        PermanentFailureKind::Http(HttpFailureKind::UnexpectedStatus { status }),
        Some(jitter),
    )
}

fn handle_download_error<C>(
    job: FailedJob<C>,
    error: DownloadError,
    max_retries: usize,
    jitter: u64,
) -> (r: FailureAction<C>)
    requires
        countable_download_failure(job, error, max_retries),
        jitter < JITTER_MS,
    ensures
        r == after_download_error(job, error, max_retries, jitter),
{
    match error {
        DownloadError::Io(kind) => handle_io_error(job, kind, max_retries, jitter),
        DownloadError::Network => handle_network_error(job, max_retries, jitter),
        DownloadError::RateLimited(retry_after) => handle_rate_limited(job, retry_after),
        DownloadError::ServerError(_) => handle_server_error(job, max_retries, jitter),
        DownloadError::ClientError(status) => handle_client_error(job, status, max_retries, jitter),
    }
}

/// What is done if nothing could be learned of a file, with the part of the pause
/// that is left to chance given.
pub fn judge_metadata_failure<C>(
    metadata_job: MetadataJob<C>,
    error: MetadataError,
    max_retries: usize,
    jitter: u64,
) -> (r: FailureAction<C>)
    requires
        countable_metadata_failure(metadata_job, error, max_retries),
        jitter < JITTER_MS,
    ensures
        r == after_metadata_error(metadata_job, error, max_retries, jitter),
{
    let job = FailedJob::Metadata(metadata_job);
    match error {
        MetadataError::HttpStatus(status) => if is_client_error(status) {
            handle_client_error(job, status, max_retries, jitter)
        } else if is_server_error(status) {
            handle_server_error(job, max_retries, jitter)
        } else {
            handle_unexpected_status(job, status, max_retries, jitter)
        },
        MetadataError::Network => handle_network_error(job, max_retries, jitter),
    }
}

/// What is done about a file that could not be fetched, with the part of the pause
/// that is left to chance given.
pub fn judge_stream_failure<C>(
    stream_job: StreamJob<C>,
    error: DownloadError,
    max_retries: usize,
    jitter: u64,
) -> (r: FailureAction<C>)
    requires
        countable_download_failure(FailedJob::Stream(stream_job), error, max_retries),
        jitter < JITTER_MS,
    ensures
        r == after_download_error(FailedJob::Stream(stream_job), error, max_retries, jitter),
{
    handle_download_error(FailedJob::Stream(stream_job), error, max_retries, jitter)
}

/// What is done about a range that could not be fetched, with the part of the pause
/// that is left to chance given. All ranges of a file share `converting`: if the file
/// cannot be fetched in ranges, the first of them fetches all of it.
pub fn judge_range_failure<C>(
    range_job: RangeJob<C>,
    error: RangeDownloadError,
    converting: &mut bool,
    max_retries: usize,
    jitter: u64,
) -> (r: FailureAction<C>)
    requires
        countable_range_failure(range_job, error, max_retries),
        jitter < JITTER_MS,
    ensures
        *final(converting) == (*old(converting) || error is RangeNotSupported),
        if error is RangeNotSupported && !*old(converting) {
            r matches FailureAction::RetryNow { job: FailedJob::Stream(job) } && job.replaces(
                range_job,
            )
        } else {
            r == after_range_error(range_job, error, max_retries, jitter)
        },
{
    match error {
        RangeDownloadError::Download(error) => handle_download_error(
            FailedJob::Range(range_job),
            error,
            max_retries,
            jitter,
        ),
        RangeDownloadError::UnexpectedStatus(status) => handle_unexpected_status(
            FailedJob::Range(range_job),
            status,
            max_retries,
            jitter,
        ),
        RangeDownloadError::UnexpectedLength(_, _) => {
            let attempts: usize = range_job.retries + 1;
            retry_or_give_up(
                FailedJob::Range(range_job),
                max_retries,
                PermanentFailureKind::TooManyRetries { attempts },
                None,
            )
        },
        RangeDownloadError::RangeNotSupported => match StreamJob::try_from(range_job, converting) {
            Ok(job) => FailureAction::RetryNow { job: FailedJob::Stream(job) },
            Err(_) => FailureAction::Forget,
        },
        RangeDownloadError::DiskWriteError(kind) => handle_io_error(
            FailedJob::Range(range_job),
            kind,
            max_retries,
            jitter,
        ),
        RangeDownloadError::DiskPoolDropped => FailureAction::Shutdown,
    }
}

/// What is done if nothing could be learned of a file.
pub fn handle_metdata_failed<C>(
    metadata_job: MetadataJob<C>,
    error: MetadataError,
    max_retries: usize,
) -> (r: FailureAction<C>)
    requires
        countable_metadata_failure(metadata_job, error, max_retries),
    ensures
        exists|jitter: u64|
            jitter < JITTER_MS && r == #[trigger] after_metadata_error(
                metadata_job,
                error,
                max_retries,
                jitter,
            ),
{
    let jitter: u64 = random_below(JITTER_MS);
    judge_metadata_failure(metadata_job, error, max_retries, jitter)
}

/// What is done about a file that could not be fetched.
pub fn handle_stream_failed<C>(
    stream_job: StreamJob<C>,
    error: DownloadError,
    max_retries: usize,
) -> (r: FailureAction<C>)
    requires
        countable_download_failure(FailedJob::Stream(stream_job), error, max_retries),
    ensures
        exists|jitter: u64|
            jitter < JITTER_MS && r == #[trigger] after_download_error(
                FailedJob::Stream(stream_job),
                error,
                max_retries,
                jitter,
            ),
{
    let jitter: u64 = random_below(JITTER_MS);
    judge_stream_failure(stream_job, error, max_retries, jitter)
}

/// What is done about a range that could not be fetched.
pub fn handle_range_failed<C>(
    range_job: RangeJob<C>,
    error: RangeDownloadError,
    converting: &mut bool,
    max_retries: usize,
) -> (r: FailureAction<C>)
    requires
        countable_range_failure(range_job, error, max_retries),
    ensures
        *final(converting) == (*old(converting) || error is RangeNotSupported),
        if error is RangeNotSupported && !*old(converting) {
            r matches FailureAction::RetryNow { job: FailedJob::Stream(job) } && job.replaces(
                range_job,
            )
        } else {
            exists|jitter: u64|
                jitter < JITTER_MS && r == #[trigger] after_range_error(
                    range_job,
                    error,
                    max_retries,
                    jitter,
                )
        },
{
    let jitter: u64 = random_below(JITTER_MS);
    judge_range_failure(range_job, error, converting, max_retries, jitter)
}

/// The pause doubles with every failure.
pub proof fn law_pause_doubles(retries: nat, jitter: nat)
    ensures
        backoff(retries + 1, jitter) - jitter == 2 * (backoff(retries, jitter) - jitter),
{
}

/// A job that is done again after a pause has failed once more, and less often than
/// it may: so a job is given up in time.
pub proof fn law_jobs_are_given_up_in_time<C>(
    job: FailedJob<C>,
    error: DownloadError,
    max_retries: usize,
    jitter: u64,
)
    requires
        job.spec_retries() < usize::MAX,
    ensures
        after_download_error(job, error, max_retries, jitter) matches FailureAction::RetryAfter {
            job: again,
            ..
        } ==> again.spec_retries() == job.spec_retries() + 1 && again.spec_retries() < max_retries,
{
}

/// The same holds of a job that asks what a file is like.
pub proof fn law_metadata_jobs_are_given_up_in_time<C>(
    job: MetadataJob<C>,
    error: MetadataError,
    max_retries: usize,
    jitter: u64,
)
    requires
        FailedJob::Metadata(job).spec_retries() < usize::MAX,
    ensures
        after_metadata_error(job, error, max_retries, jitter) matches FailureAction::RetryAfter {
            job: again,
            ..
        } ==> again.spec_retries() == FailedJob::Metadata(job).spec_retries() + 1
            && again.spec_retries() < max_retries,
{
}

/// The same holds of a job that fetches a range.
pub proof fn law_range_jobs_are_given_up_in_time<C>(
    job: RangeJob<C>,
    error: RangeDownloadError,
    max_retries: usize,
    jitter: u64,
)
    requires
        FailedJob::Range(job).spec_retries() < usize::MAX,
    ensures
        after_range_error(job, error, max_retries, jitter) matches FailureAction::RetryAfter {
            job: again,
            ..
        } ==> again.spec_retries() == FailedJob::Range(job).spec_retries() + 1
            && again.spec_retries() < max_retries,
{
}

/// A file that is not there is given up at once, however often the job has failed.
pub proof fn law_missing_file_is_given_up<C>(job: FailedJob<C>, max_retries: usize, jitter: u64)
    ensures
        after_download_error(job, DownloadError::ClientError(404), max_retries, jitter) == fatal(
            job,
            PermanentFailureKind::Http(HttpFailureKind::FileNotFound),
        ),
{
}

/// A pause that the server wants costs no attempt.
pub proof fn law_rate_limit_costs_no_attempt<C>(
    job: FailedJob<C>,
    retry_after: Option<u64>,
    max_retries: usize,
    jitter: u64,
)
    ensures
        after_download_error(
            job,
            DownloadError::RateLimited(retry_after),
            max_retries,
            jitter,
        ) matches FailureAction::RateLimit { job: again, .. } && again == job,
{
}

} // verus!
