//! What holds of single calls, whatever they are given.

use vstd::prelude::*;
#[allow(unused_imports)]
use crate::client_state_manager::{FileUpdate, FrontendMessage, UiState};
#[allow(unused_imports)]
use crate::db::state_manager::{with_retry, worth_fetching, DbFetchErrorKind, RetryDecision};
#[allow(unused_imports)]
use crate::download::download_manager::DownloadManager;
#[allow(unused_imports)]
use crate::download::hosts::chunk_hasher::are_chunk_digests;
#[allow(unused_imports)]
use crate::download::hosts::failures::{PermanentFailure, PermanentFailureKind, RangeDownloadError};
#[allow(unused_imports)]
use crate::download::hosts::failing_laws::names_job;
#[allow(unused_imports)]
use crate::download::hosts::jobs::{get_range_jobs, FailedJob, RangeJob};
#[allow(unused_imports)]
use crate::download::hosts::manager::prolonged;
#[allow(unused_imports)]
use crate::download::hosts::ranging::{byte_range, range_header, RangeProgress, RangeWorker};
#[allow(unused_imports)]
use crate::download::items::{DownloadId, FileDownload};
#[allow(unused_imports)]
use crate::download::ranges::RangeInfo;
#[allow(unused_imports)]
use crate::download::status::FileStatus;
#[allow(unused_imports)]
use crate::download::tree::Download;
#[allow(unused_imports)]
use crate::host_manager::{ActiveDownloadPermit, HostManager, ValidDownloadPermit};
#[allow(unused_imports)]
use crate::plugin_laws::named_url;
#[allow(unused_imports)]
use crate::plugin_registry::{list_of, PluginError, PluginRegistry, PluginSource};
#[allow(unused_imports)]
use crate::utils::network_utils::{greatest_of, ThrottledStream};
#[allow(unused_imports)]
use crate::utils::numbers::{decimal, law_written_number_reads_back, number_in};
#[allow(unused_imports)]
use crate::utils::shared_file_map::{
    ChunkWrite, NextWrite, SharedFileMap, WriteError, WriteOutcome,
};
#[allow(unused_imports)]
use crate::utils::urls::path_of_url;
#[allow(unused_imports)]
use crate::utils::valid_path::{after_write, temp_name_for, SavePathStep};
#[allow(unused_imports)]
use crate::verification_tracker::VerificationTracker;

verus! {

/// Each range of a file gets a job of its own, in the order of the ranges, that says where
/// the file comes from, where it goes, and which bytes are meant; none was tried yet.
pub proof fn law_each_range_gets_a_job<C: Clone>(
    download: DownloadId,
    file: &FileDownload,
    ranges: Vec<RangeInfo>,
    context: &C,
    jobs: Vec<RangeJob<C>>,
)
    requires
        call_ensures(get_range_jobs::<C>, (download, file, ranges, context), jobs),
    ensures
        jobs@.len() == ranges@.len(),
        forall|i: int|
            0 <= i < jobs@.len() ==> {
                let job = #[trigger] jobs@[i];
                &&& job.download_id == download
                &&& job.file_id == file@.id
                &&& job.url@ == file@.url
                &&& job.path@ == file@.path
                &&& job.range == ranges@[i].range
                &&& job.expected_bytes == ranges@[i].expected_bytes
                &&& job.previously_downloaded == ranges@[i].previously_downloaded
                &&& job.retries == 0
            },
{
    assert forall|i: int| 0 <= i < jobs@.len() implies {
        let job = #[trigger] jobs@[i];
        &&& job.download_id == download
        &&& job.file_id == file@.id
        &&& job.url@ == file@.url
        &&& job.path@ == file@.path
        &&& job.range == ranges@[i].range
        &&& job.expected_bytes == ranges@[i].expected_bytes
        &&& job.previously_downloaded == ranges@[i].previously_downloaded
        &&& job.retries == 0
    } by {
        assert(jobs@[i].fetches(download, file@, ranges@[i]));
    }
}

/// A job that is given up is reported with what it was doing, and why.
pub proof fn law_given_up_jobs_are_reported<C>(
    job: &FailedJob<C>,
    kind: PermanentFailureKind,
    report: PermanentFailure,
)
    requires
        call_ensures(FailedJob::<C>::into_permanent_failure, (job, kind), report),
    ensures
        names_job(report.operation, *job),
        report.kind == kind,
{
}

/// A pause that is prolonged ends when the later of the two does.
pub proof fn law_the_longer_pause_counts(deadline: u128, now: u128, millis: u128, end: u128)
    requires
        call_ensures(prolonged, (deadline, now, millis), end),
        now + millis <= u128::MAX,
    ensures
        end >= deadline,
        end >= now + millis,
        end == deadline || end == now + millis,
{
}

/// The bytes that are asked for are written as two numbers that read back.
pub proof fn law_asked_bytes_read_back(first: u64, last: u64, header: String)
    requires
        call_ensures(range_header, (first, last), header),
    ensures
        exists|a: Seq<char>, b: Seq<char>|
            #![trigger number_in(a), number_in(b)]
            header@ == "bytes="@ + a + "-"@ + b && number_in(a) == Some(first) && number_in(b)
                == Some(last),
{
    law_written_number_reads_back(first);
    law_written_number_reads_back(last);
    let a = decimal(first as nat);
    let b = decimal(last as nat);
    assert(number_in(a) == Some(first) && number_in(b) == Some(last));
}

/// A range asks for its bytes and for no others.
pub proof fn law_jobs_ask_for_their_bytes<C>(job: &RangeJob<C>, bytes: (u64, u64))
    requires
        call_ensures(byte_range::<C>, (job,), bytes),
        job.expected_bytes > 0,
    ensures
        bytes.0 == job.range.start * 16384,
        bytes.1 - bytes.0 + 1 == job.expected_bytes,
{
}

/// A range of which all bytes came has the digests of these; with more or fewer bytes it
/// fails, with how many came. What was not told yet is told.
pub proof fn law_ranges_end_with_all_their_bytes(
    worker: RangeWorker,
    r: (Option<FileUpdate>, RangeProgress, Result<Vec<[u8; 16]>, RangeDownloadError>),
)
    requires
        call_ensures(RangeWorker::finish, (worker,), r),
    ensures
        r.2 is Ok <==> worker@.data.len() == worker@.expected,
        r.2 matches Ok(hashes) ==> are_chunk_digests(hashes@, worker@.data) && r.1.completed,
        r.2 matches Err(error) ==> error == RangeDownloadError::UnexpectedLength(
            worker@.data.len() as u64,
            worker@.expected as u64,
        ),
        worker@.unnotified > 0 ==> r.0 == Some(
            FileUpdate::BytesDownloaded { id: worker@.file_id, len: worker@.shown as u64 },
        ),
        worker@.unnotified == 0 ==> r.0 is None,
        r.1.local_bytes_downloaded == worker@.added(),
{
}

/// A file can be queued again unless it is complete or not found.
pub proof fn law_failed_files_can_be_queued_again(status: &FileStatus, can: bool)
    requires
        call_ensures(FileStatus::can_set_to_queued, (status,), can),
    ensures
        *status is Completed || *status is NotFound ==> !can,
        *status is Failed || *status is Partial || *status is Uninitialized || *status is
            MetadataFetched ==> can,
{
}

/// A permit goes to the download that has waited longest, which does not wait any more; the
/// others keep their order.
pub proof fn law_the_first_gets_the_permit(manager: &mut DownloadManager, url: Option<String>)
    requires
        call_ensures(DownloadManager::on_permit, (manager,), url),
    ensures
        ({
            let before = old(manager)@.queue;
            let after = final(manager)@.queue;
            &&& before.len() == 0 ==> url is None && after.len() == 0
            &&& before.len() > 0 ==> (url matches Some(u) && u@ == before[0].1)
            &&& before.len() > 0 ==> after == before.subrange(1, before.len() as int)
            &&& final(manager)@.registry == old(manager)@.registry
        }),
{
    let before = old(manager)@.queue;
    if before.len() > 0 {
        assert(before.remove(0) =~= before.subrange(1, before.len() as int));
    }
}

/// Somebody waits exactly if the queue is not empty.
pub proof fn law_waiting_shows(manager: &DownloadManager, waiting: bool)
    requires
        call_ensures(DownloadManager::is_waiting, (manager,), waiting),
    ensures
        waiting <==> manager@.queue.len() > 0,
{
}

/// What owes nothing may read on, and what owes waits for as long as it owes.
pub proof fn law_debtors_wait(
    stream: &mut ThrottledStream,
    now: u64,
    bytes: usize,
    debts: &Vec<Option<u64>>,
)
    requires
        call_ensures(ThrottledStream::read, (stream, now, bytes, debts), ()),
        now + greatest_of(debts@) <= u64::MAX,
    ensures
        bytes > 0 && greatest_of(debts@) > 0 ==> final(stream).sleep == now + greatest_of(debts@),
        bytes == 0 || greatest_of(debts@) == 0 ==> final(stream).sleep == old(stream).sleep,
{
}

/// With other limits what is owed is counted anew.
pub proof fn law_new_limits_are_minded(
    stream: &mut ThrottledStream,
    now: u64,
    debts: &Vec<Option<u64>>,
)
    requires
        call_ensures(ThrottledStream::settings_changed, (stream, now, debts), ()),
        now + greatest_of(debts@) <= u64::MAX,
    ensures
        final(stream).sleep == now + greatest_of(debts@),
{
}

/// One may read as soon as the time has come.
pub proof fn law_waiting_ends(stream: &ThrottledStream, now: u64, ready: bool)
    requires
        call_ensures(ThrottledStream::is_ready, (stream, now), ready),
    ensures
        ready <==> now >= stream.sleep,
{
}

/// A write within the file begins with its first byte where it belongs, and one that does not
/// fit is refused.
pub proof fn law_writes_begin_where_they_belong(
    file: &SharedFileMap,
    offset: u64,
    len: usize,
    r: Result<ChunkWrite, WriteError>,
)
    requires
        call_ensures(SharedFileMap::write_chunk, (file, offset, len), r),
    ensures
        r is Ok <==> offset + len <= file.size,
        r matches Ok(w) ==> w@.offset == offset && w@.len == len && w@.written == 0,
{
}

/// The next bytes to be written are those behind the ones that were, where they belong, and
/// there are none once all are written.
pub proof fn law_writes_go_on_where_they_stopped(w: &ChunkWrite, next: Option<NextWrite>)
    requires
        call_ensures(ChunkWrite::next, (w,), next),
        w@.offset + w@.written <= u64::MAX,
    ensures
        next is None <==> w@.written >= w@.len,
        next matches Some(n) ==> n.from == w@.written && n.at == w@.offset + w@.written,
{
}

/// What was written is not written again; a write that is interrupted goes on, and one that
/// writes nothing has failed.
pub proof fn law_every_byte_is_written_once(
    w: &mut ChunkWrite,
    outcome: WriteOutcome,
    r: Result<(), WriteError>,
)
    requires
        call_ensures(ChunkWrite::on_outcome, (w, outcome), r),
        outcome matches WriteOutcome::Written(n) ==> old(w)@.written + n <= usize::MAX,
    ensures
        final(w)@.offset == old(w)@.offset && final(w)@.len == old(w)@.len,
        outcome matches WriteOutcome::Written(n) ==> final(w)@.written == old(w)@.written + n,
        outcome matches WriteOutcome::Written(n) ==> (r is Err <==> n == 0),
        r matches Err(e) ==> e == WriteError::WriteZero,
        outcome is Interrupted ==> r is Ok && final(w)@.written == old(w)@.written,
{
}

/// A place can be saved to if it could be written to, and the names of what is written there
/// to try it are told apart by their numbers.
pub proof fn law_places_are_tried(
    written: bool,
    step: SavePathStep,
    a: u64,
    b: u64,
    one: String,
    other: String,
)
    requires
        call_ensures(after_write, (written,), step),
        call_ensures(temp_name_for, (a,), one),
        call_ensures(temp_name_for, (b,), other),
    ensures
        written ==> step is Fine,
        !written ==> step is PermissionDenied,
        one@ == other@ ==> a == b,
        one@.len() > 4 && one@.subrange(one@.len() - 4, one@.len() as int) == ".tmp"@,
{
    reveal_strlit(".tmp");
    let x = decimal(a as nat);
    let y = decimal(b as nat);
    law_written_number_reads_back(a);
    law_written_number_reads_back(b);
    crate::utils::text_laws::law_numbers_are_written_in_digits(a as nat);
    assert(one@.subrange(one@.len() - 4, one@.len() as int) =~= ".tmp"@);
    if one@ == other@ {
        assert(x.len() == y.len());
        assert(one@.subrange(0, x.len() as int) =~= x);
        assert(other@.subrange(0, y.len() as int) =~= y);
    }
}

/// What was read wrong or not found can be recovered, and nothing else is tried to be.
pub proof fn law_broken_data_can_be_recovered(kind: &DbFetchErrorKind, recover: bool)
    requires
        call_ensures(DbFetchErrorKind::calls_for_recovery, (kind,), recover),
    ensures
        *kind is DataCorrupted || *kind is NotFound ==> recover,
        !(*kind is DataCorrupted) && !(*kind is NotFound) ==> !recover,
{
}

/// What may pass is tried again as often as is left, one time less after each, and what will
/// not pass is not.
pub proof fn law_tries_run_out(retries: usize, may_pass: bool, decision: RetryDecision)
    requires
        call_ensures(with_retry, (retries, may_pass), decision),
    ensures
        decision matches RetryDecision::TryAgain(left) ==> may_pass && left + 1 == retries,
        retries == 0 || !may_pass ==> decision is GiveUp,
{
}

/// Only digests that have a place are worth being read.
pub proof fn law_digests_without_a_place_are_not_read(index: i64, worth: bool)
    requires
        call_ensures(worth_fetching, (index,), worth),
    ensures
        worth <==> index >= 0,
{
}

/// All downloads that were stored are due to be compared, and counted as being so; no other
/// is.
pub proof fn law_stored_downloads_are_due(downloads: &Vec<Download>, tracker: VerificationTracker)
    requires
        call_ensures(VerificationTracker::from_downloads, (downloads,), tracker),
    ensures
        forall|id: usize| #[trigger]
            tracker@.needed.contains(id) <==> exists|i: int|
                0 <= i < downloads@.len() && (#[trigger] downloads@[i]).id.0 == id,
        forall|id: usize| #[trigger]
            tracker@.verifying.contains(id) <==> exists|i: int|
                0 <= i < downloads@.len() && (#[trigger] downloads@[i]).id.0 == id,
{
}

/// A comparison that begins counts as running, and is still due; one that is paused is due
/// but does not run. Those of other downloads are not affected.
pub proof fn law_comparisons_begin_and_pause(
    begun: &mut VerificationTracker,
    paused: &mut VerificationTracker,
    id: DownloadId,
    other: usize,
)
    requires
        call_ensures(VerificationTracker::verify, (begun, id), ()),
        call_ensures(VerificationTracker::pause, (paused, id), ()),
    ensures
        final(begun)@.verifying.contains(id.0),
        !final(paused)@.verifying.contains(id.0),
        final(begun)@.needed == old(begun)@.needed,
        final(paused)@.needed == old(paused)@.needed,
        other != id.0 ==> final(begun)@.verifying.contains(other) == old(
            begun,
        )@.verifying.contains(other),
        other != id.0 ==> final(paused)@.verifying.contains(other) == old(
            paused,
        )@.verifying.contains(other),
{
}

/// Permits that are withdrawn are taken from those that are free; those that are missing for
/// it are owed, and taken when they come back.
pub proof fn law_withdrawn_permits_are_taken(host: &mut HostManager, amount: usize)
    requires
        call_ensures(HostManager::remove_permits, (host, amount), ()),
    ensures
        final(host)@.available - final(host)@.debt == old(host)@.available - old(host)@.debt
            - amount,
        final(host)@.debt > old(host)@.debt ==> final(host)@.available == 0,
        final(host)@.debt >= old(host)@.debt,
        final(host)@.queue == old(host)@.queue && final(host)@.active == old(host)@.active,
        final(host)@.authority == old(host)@.authority,
{
}

/// A permit is good exactly if it was given under the authority that holds now; one that is
/// not is handed back as it is.
pub proof fn law_only_current_permits_are_good(
    permit: ActiveDownloadPermit,
    host: &HostManager,
    r: Result<ValidDownloadPermit, ActiveDownloadPermit>,
)
    requires
        call_ensures(ActiveDownloadPermit::validate, (permit, host), r),
    ensures
        r is Ok <==> permit.authority() == host@.authority,
        r matches Ok(valid) ==> valid.authority() == permit.authority(),
        r matches Err(back) ==> back == permit,
{
}

/// A plugin that does not say which URLs it is for is refused, and so is one that names what
/// is no URL, and nothing changes then. Any other is taken in.
pub proof fn law_only_sound_plugins_are_taken_in(
    registry: &mut PluginRegistry,
    source: PluginSource,
    r: Result<(), PluginError>,
)
    requires
        call_ensures(PluginRegistry::add_plugin, (registry, source), r),
    ensures
        source.supports is None && source.supports_regex is None <==> r matches Err(
            PluginError::NoSupports,
        ),
        r is Ok <==> (source.supports is Some || source.supports_regex is Some) && forall|i: int|
            0 <= i < list_of(source.supports).len() ==> path_of_url(
                named_url(#[trigger] list_of(source.supports)[i]),
            ) is Some,
        r is Ok ==> final(registry)@ == old(registry)@.with_plugin(source),
        r is Err ==> final(registry)@ == old(registry)@,
{
    crate::plugin_laws::law_the_first_bad_url_is_told(list_of(source.supports));
}

/// A worker that is done with a plugin has one less to do, and keeps the plugin.
pub proof fn law_workers_become_idle(registry: &mut PluginRegistry, worker: usize)
    requires
        call_ensures(PluginRegistry::finished, (registry, worker), ()),
        worker < old(registry)@.workers.len(),
        old(registry)@.workers[worker as int].load > 0,
    ensures
        final(registry)@.workers.len() == old(registry)@.workers.len(),
        final(registry)@.workers[worker as int].load == old(
            registry,
        )@.workers[worker as int].load - 1,
        final(registry)@.workers[worker as int].loaded == old(
            registry,
        )@.workers[worker as int].loaded,
        forall|i: int|
            0 <= i < old(registry)@.workers.len() && i != worker
                ==> final(registry)@.workers[i] == old(registry)@.workers[i],
        final(registry)@.entries == old(registry)@.entries,
{
}

/// From time to time all that is new is told, and counts as told; without anything new
/// nothing is.
pub proof fn law_news_is_told_from_time_to_time(ui: &mut UiState, message: Option<FrontendMessage>)
    requires
        call_ensures(UiState::on_tick, (ui,), message),
    ensures
        message matches Some(m) ==> (m matches FrontendMessage::BatchUpdate(batch) && batch@ == old(
            ui,
        )@.deltas),
        (exists|id: usize| #[trigger] old(ui)@.deltas.contains_key(id)) ==> message is Some,
        forall|id: usize| !#[trigger] final(ui)@.deltas.contains_key(id),
        final(ui)@.removed == old(ui)@.removed,
{
}

/// After a start the next number is greater than all that were stored, and every download that
/// was stored waits, behind those that waited.
pub proof fn law_stored_downloads_are_taken_up(
    manager: &mut DownloadManager,
    stored: &Vec<Download>,
)
    requires
        call_ensures(DownloadManager::load_state, (manager, stored), ()),
        crate::download::download_manager::greatest(stored@) < usize::MAX,
        forall|i: int, j: int|
            0 <= i < j < stored@.len() ==> (#[trigger] stored@[i]).id != (#[trigger] stored@[j]).id,
        forall|i: int, j: int|
            0 <= i < old(manager)@.queue.len() && 0 <= j < stored@.len() ==> (#[trigger] old(
                manager,
            )@.queue[i]).0 != (#[trigger] stored@[j]).id.0,
    ensures
        ({
            let before = old(manager)@;
            let after = final(manager)@;
            let n = before.queue.len();
            &&& forall|i: int| 0 <= i < stored@.len() ==> (#[trigger] stored@[i]).id.0 < after.next
            &&& after.queue.len() == n + stored@.len()
            &&& forall|i: int| 0 <= i < n ==> #[trigger] after.queue[i] == before.queue[i]
            &&& forall|j: int|
                0 <= j < stored@.len() ==> after.queue[(n + j) as int] == (
                    (#[trigger] stored@[j]).id.0,
                    stored@[j].url@,
                )
            &&& after.registry == before.registry && after.settings == before.settings
        }),
{
    crate::manager_laws::law_stored_downloads_wait(old(manager)@.queue, stored@);
    crate::manager_laws::law_the_greatest_number_is_found(stored@);
}

} // verus!
