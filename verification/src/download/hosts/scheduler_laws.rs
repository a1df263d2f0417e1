//! What holds of every job that is chosen.

#[allow(unused_imports)]
use std::collections::VecDeque;

use vstd::prelude::*;
#[allow(unused_imports)]
use crate::download::hosts::jobs::{MetadataJob, NextJob, RangeJob, StreamJob};
#[allow(unused_imports)]
use crate::download::hosts::scheduler::{
    biggest, first_of_download, first_of_file, keys_of, lemma_selected, selected, Job, JobKey,
    SchedulerModel, SchedulingStrategy,
};
#[allow(unused_imports)]
use crate::download::items::{DownloadId, FileId};

verus! {

/// Whether a place is the first of those that something holds of.
pub open spec fn is_first(n: int, at: int, wanted: spec_fn(int) -> bool) -> bool {
    &&& 0 <= at < n
    &&& wanted(at)
    &&& forall|i: int| 0 <= i < at ==> !#[trigger] wanted(i)
}

/// Where jobs are taken as they come, the first in the queue is taken, of whatever kind the
/// jobs are.
pub proof fn law_first_come_first_chosen(keys: Seq<JobKey>, sized: bool)
    ensures
        selected(SchedulingStrategy::Fifo, keys, sized) == if keys.len() > 0 {
            Some(0int)
        } else {
            None
        },
{
}

/// Only ranges differ in size: where the biggest goes first, it is a range with the most
/// bytes missing, the last of several, and any other job is taken as it came.
pub proof fn law_the_biggest_is_chosen(keys: Seq<JobKey>, sized: bool)
    requires
        keys.len() > 0,
    ensures
        selected(SchedulingStrategy::BiggestFirst, keys, sized) matches Some(at) && 0 <= at
            < keys.len() && if sized {
            forall|i: int|
                0 <= i < keys.len() ==> (#[trigger] keys[i]).missing <= keys[at].missing && (i > at
                    ==> keys[i].missing < keys[at].missing)
        } else {
            at == 0
        },
{
    lemma_selected(SchedulingStrategy::BiggestFirst, keys, sized);
    lemma_last_biggest(keys);
}

proof fn lemma_last_biggest(keys: Seq<JobKey>)
    requires
        keys.len() > 0,
    ensures
        0 <= biggest(keys) < keys.len(),
        forall|i: int|
            0 <= i < keys.len() ==> (#[trigger] keys[i]).missing <= keys[biggest(keys)].missing && (
            i > biggest(keys) ==> keys[i].missing < keys[biggest(keys)].missing),
    decreases keys.len(),
{
    if keys.len() > 1 {
        let before = keys.drop_last();
        lemma_last_biggest(before);
        assert forall|i: int| 0 <= i < keys.len() implies (#[trigger] keys[i]).missing
            <= keys[biggest(keys)].missing && (i > biggest(keys) ==> keys[i].missing
            < keys[biggest(keys)].missing) by {
            if i < before.len() {
                assert(before[i] == keys[i]);
            }
        }
    }
}

proof fn lemma_first_file(keys: Seq<JobKey>, id: FileId, from: int)
    requires
        0 <= from <= keys.len(),
    ensures
        ({
            let at = first_of_file(keys, id, from);
            if exists|i: int| from <= i < keys.len() && (#[trigger] keys[i]).file_id == id {
                &&& from <= at < keys.len()
                &&& keys[at].file_id == id
                &&& forall|i: int| from <= i < at ==> (#[trigger] keys[i]).file_id != id
            } else {
                at == 0
            }
        }),
    decreases keys.len() - from,
{
    if from < keys.len() && keys[from].file_id != id {
        lemma_first_file(keys, id, from + 1);
    }
}

proof fn lemma_first_download(keys: Seq<JobKey>, id: DownloadId, from: int)
    requires
        0 <= from <= keys.len(),
    ensures
        ({
            let at = first_of_download(keys, id, from);
            if exists|i: int| from <= i < keys.len() && (#[trigger] keys[i]).download_id == id {
                &&& from <= at < keys.len()
                &&& keys[at].download_id == id
                &&& forall|i: int| from <= i < at ==> (#[trigger] keys[i]).download_id != id
            } else {
                at == 0
            }
        }),
    decreases keys.len() - from,
{
    if from < keys.len() && keys[from].download_id != id {
        lemma_first_download(keys, id, from + 1);
    }
}

/// Of a prioritized file the job that came first is taken; if there is none, the one that
/// came first of all.
pub proof fn law_prioritized_files_keep_their_order(keys: Seq<JobKey>, id: FileId, sized: bool)
    requires
        keys.len() > 0,
    ensures
        selected(SchedulingStrategy::PrioritizeFile(id), keys, sized) matches Some(at) && (if exists|
            i: int,
        |
            0 <= i < keys.len() && (#[trigger] keys[i]).file_id == id {
            is_first(keys.len() as int, at, |i: int| keys[i].file_id == id)
        } else {
            at == 0
        }),
{
    lemma_first_file(keys, id, 0);
}

/// The same holds of a prioritized download.
pub proof fn law_prioritized_downloads_keep_their_order(
    keys: Seq<JobKey>,
    id: DownloadId,
    sized: bool,
)
    requires
        keys.len() > 0,
    ensures
        selected(SchedulingStrategy::PrioritizeDownload(id), keys, sized) matches Some(at) && (
        if exists|i: int| 0 <= i < keys.len() && (#[trigger] keys[i]).download_id == id {
            is_first(keys.len() as int, at, |i: int| keys[i].download_id == id)
        } else {
            at == 0
        }),
{
    lemma_first_download(keys, id, 0);
}

/// A job is chosen by what it is for, and a range by the bytes that it still has to fetch.
pub proof fn law_jobs_are_chosen_by_what_they_are_for<C>(
    metadata: MetadataJob<C>,
    stream: StreamJob<C>,
    range: RangeJob<C>,
)
    ensures
        metadata.spec_key().file_id == metadata.file_id,
        metadata.spec_key().download_id == metadata.download_id,
        stream.spec_key().file_id == stream.file_id,
        stream.spec_key().download_id == stream.download_id,
        range.spec_key().file_id == range.file_id,
        range.spec_key().download_id == range.download_id,
        range.previously_downloaded <= range.expected_bytes ==> range.spec_key().missing
            + range.previously_downloaded == range.expected_bytes,
        range.previously_downloaded > range.expected_bytes ==> range.spec_key().missing == 0,
{
}

/// Jobs that are taken as they come leave their queue in the order in which they entered it.
pub proof fn law_queues_are_first_in_first_out<C>(
    s: SchedulerModel<C>,
    available: nat,
    total: nat,
)
    requires
        s.strategy is Fifo,
    ensures
        ({
            let (after, job) = s.step(available, total);
            match job {
                Some(NextJob::Metadata(j)) => s.metadata_retry + s.metadata == seq![j]
                    + after.metadata_retry + after.metadata,
                Some(NextJob::Stream(j)) => s.stream_retry + s.stream == seq![j]
                    + after.stream_retry + after.stream,
                Some(NextJob::Range(j)) => s.range_retry + s.range == seq![j] + after.range_retry
                    + after.range,
                None => true,
            }
        }),
{
    let (after, job) = s.step(available, total);
    match job {
        Some(NextJob::Metadata(j)) => {
            assert(s.metadata_retry + s.metadata =~= seq![j] + after.metadata_retry
                + after.metadata);
        },
        Some(NextJob::Stream(j)) => {
            assert(s.stream_retry + s.stream =~= seq![j] + after.stream_retry + after.stream);
        },
        Some(NextJob::Range(j)) => {
            assert(s.range_retry + s.range =~= seq![j] + after.range_retry + after.range);
        },
        None => {},
    }
}

/// Jobs that failed before go first, whatever the strategy: questions before whole files,
/// these before ranges, and each in the order in which they failed.
pub proof fn law_failed_jobs_go_in_order<C>(s: SchedulerModel<C>, available: nat, total: nat)
    ensures
        ({
            let (after, job) = s.step(available, total);
            &&& s.metadata_retry.len() > 0 ==> job == Some(NextJob::Metadata(s.metadata_retry[0]))
                && after.metadata_retry == s.metadata_retry.skip(1)
            &&& s.metadata_retry.len() == 0 && s.stream_retry.len() > 0 ==> job == Some(
                NextJob::Stream(s.stream_retry[0]),
            ) && after.stream_retry == s.stream_retry.skip(1)
            &&& s.metadata_retry.len() == 0 && s.stream_retry.len() == 0 && s.range_retry.len() > 0
                ==> job == Some(NextJob::Range(s.range_retry[0])) && after.range_retry
                == s.range_retry.skip(1)
        }),
{
    let after = s.step(available, total).0;
    if s.metadata_retry.len() > 0 {
        assert(after.metadata_retry =~= s.metadata_retry.skip(1));
    } else if s.stream_retry.len() > 0 {
        assert(after.stream_retry =~= s.stream_retry.skip(1));
    } else if s.range_retry.len() > 0 {
        assert(after.range_retry =~= s.range_retry.skip(1));
    }
}

/// Where nothing failed before: a question is asked if a single job can be begun, or more
/// than half of what can be done at once is being done, or there is nothing else to do.
/// Else a whole file is fetched if one waits, and a range if none does.
pub proof fn law_kinds_take_turns<C>(s: SchedulerModel<C>, available: nat, total: nat)
    requires
        s.metadata_retry.len() == 0,
        s.stream_retry.len() == 0,
        s.range_retry.len() == 0,
        0 < available <= total,
    ensures
        ({
            let job = s.step(available, total).1;
            let busy = total - available;
            let asks = s.metadata.len() > 0 && (available == 1 || busy > available || (
            s.stream.len() == 0 && s.range.len() == 0));
            &&& (job matches Some(NextJob::Metadata(_))) <==> asks
            &&& (job matches Some(NextJob::Stream(_))) <==> !asks && s.stream.len() > 0
            &&& (job matches Some(NextJob::Range(_))) <==> !asks && s.stream.len() == 0
                && s.range.len() > 0
        }),
{
    lemma_selected(s.strategy, keys_of(s.metadata), false);
    lemma_selected(s.strategy, keys_of(s.stream), false);
    lemma_selected(s.strategy, keys_of(s.range), true);
}

/// The job that is taken is the one that the strategy chooses among those of its kind.
pub proof fn law_the_strategy_is_followed<C>(s: SchedulerModel<C>, available: nat, total: nat)
    requires
        s.metadata_retry.len() == 0,
        s.stream_retry.len() == 0,
        s.range_retry.len() == 0,
    ensures
        ({
            let (after, job) = s.step(available, total);
            match job {
                Some(NextJob::Metadata(j)) => selected(s.strategy, keys_of(s.metadata), false)
                    matches Some(at) && j == s.metadata[at] && after == (SchedulerModel {
                    metadata: after.metadata,
                    ..s
                }) && after.metadata
                    == s.metadata.take(at) + s.metadata.skip(at + 1),
                Some(NextJob::Stream(j)) => selected(s.strategy, keys_of(s.stream), false)
                    matches Some(at) && j == s.stream[at] && after == (SchedulerModel {
                    stream: after.stream,
                    ..s
                }) && after.stream == s.stream.take(at)
                    + s.stream.skip(at + 1),
                Some(NextJob::Range(j)) => selected(s.strategy, keys_of(s.range), true)
                    matches Some(at) && j == s.range[at] && after == (SchedulerModel {
                    range: after.range,
                    ..s
                }) && after.range == s.range.take(at)
                    + s.range.skip(at + 1),
                None => after == s,
            }
        }),
{
    lemma_selected(s.strategy, keys_of(s.metadata), false);
    lemma_selected(s.strategy, keys_of(s.stream), false);
    lemma_selected(s.strategy, keys_of(s.range), true);
    let (after, job) = s.step(available, total);
    match job {
        Some(NextJob::Metadata(_)) => {
            let at = selected(s.strategy, keys_of(s.metadata), false)->0;
            assert(after.metadata =~= s.metadata.take(at) + s.metadata.skip(at + 1));
        },
        Some(NextJob::Stream(_)) => {
            let at = selected(s.strategy, keys_of(s.stream), false)->0;
            assert(after.stream =~= s.stream.take(at) + s.stream.skip(at + 1));
        },
        Some(NextJob::Range(_)) => {
            let at = selected(s.strategy, keys_of(s.range), true)->0;
            assert(after.range =~= s.range.take(at) + s.range.skip(at + 1));
        },
        None => {},
    }
}

/// Jobs of every kind that come first are chosen first where they are done as they come.
pub proof fn law_all_kinds_are_done_as_they_come<C>(
    metadata: &VecDeque<MetadataJob<C>>,
    streams: &VecDeque<StreamJob<C>>,
    ranges: &VecDeque<RangeJob<C>>,
    a: Option<usize>,
    b: Option<usize>,
    c: Option<usize>,
)
    requires
        call_ensures(
            SchedulingStrategy::select_metadata::<C>,
            (&SchedulingStrategy::Fifo, metadata),
            a,
        ),
        call_ensures(
            SchedulingStrategy::select_stream::<C>,
            (&SchedulingStrategy::Fifo, streams),
            b,
        ),
        call_ensures(
            SchedulingStrategy::select_range::<C>,
            (&SchedulingStrategy::Fifo, ranges),
            c,
        ),
    ensures
        metadata@.len() > 0 ==> a == Some(0usize),
        streams@.len() > 0 ==> b == Some(0usize),
        ranges@.len() > 0 ==> c == Some(0usize),
        metadata@.len() == 0 ==> a is None,
        streams@.len() == 0 ==> b is None,
        ranges@.len() == 0 ==> c is None,
{
}

} // verus!
