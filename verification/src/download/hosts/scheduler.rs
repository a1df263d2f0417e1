//! In which order a server is asked to do its jobs.

use std::collections::VecDeque;

#[allow(unused_imports)]
use vstd::multiset::Multiset;
use vstd::prelude::*;
use crate::download::hosts::jobs::{FailedJob, MetadataJob, NextJob, RangeJob, StreamJob};
use crate::download::items::{DownloadId, FileId};

verus! {

/// Which job of a kind goes first.
#[derive(Debug, Clone, Copy, PartialEq, Eq, Structural)]
pub enum SchedulingStrategy {
    /// The one that came first.
    Fifo,
    /// The range with the most bytes missing.
    BiggestFirst,
    /// One of a file, if there is one.
    PrioritizeFile(FileId),
    /// One of a download, if there is one.
    PrioritizeDownload(DownloadId),
}

/// What a job is chosen by.
#[derive(Clone, Copy)]
pub struct JobKey {
    pub download_id: DownloadId,
    pub file_id: FileId,
    /// How many bytes are missing, of a range.
    pub missing: u64,
}

/// What can be chosen by a key.
pub trait Job {
    spec fn spec_key(&self) -> JobKey;

    fn key(&self) -> (r: JobKey)
        ensures
            r == self.spec_key(),
    ;
}

impl<C> Job for MetadataJob<C> {
    open spec fn spec_key(&self) -> JobKey {
        JobKey { download_id: self.download_id, file_id: self.file_id, missing: 0 }
    }

    fn key(&self) -> (r: JobKey) {
        JobKey { download_id: self.download_id, file_id: self.file_id, missing: 0 }
    }
}

impl<C> Job for StreamJob<C> {
    open spec fn spec_key(&self) -> JobKey {
        JobKey { download_id: self.download_id, file_id: self.file_id, missing: 0 }
    }

    fn key(&self) -> (r: JobKey) {
        JobKey { download_id: self.download_id, file_id: self.file_id, missing: 0 }
    }
}

impl<C> Job for RangeJob<C> {
    open spec fn spec_key(&self) -> JobKey {
        JobKey {
            download_id: self.download_id,
            file_id: self.file_id,
            missing: if self.expected_bytes > self.previously_downloaded {
                (self.expected_bytes - self.previously_downloaded) as u64
            } else {
                0
            },
        }
    }

    fn key(&self) -> (r: JobKey) {
        JobKey {
            download_id: self.download_id,
            file_id: self.file_id,
            missing: self.expected_bytes.saturating_sub(self.previously_downloaded),
        }
    }
}

/// The keys of the jobs in a queue.
pub open spec fn keys_of<J: Job>(queue: Seq<J>) -> Seq<JobKey> {
    queue.map_values(|j: J| j.spec_key())
}

/// The first place of a job of a file, or the front.
pub open spec fn first_of_file(keys: Seq<JobKey>, id: FileId, from: int) -> int
    decreases keys.len() - from,
{
    if from >= keys.len() {
        0
    } else if keys[from].file_id == id {
        from
    } else {
        first_of_file(keys, id, from + 1)
    }
}

/// The first place of a job of a download, or the front.
pub open spec fn first_of_download(keys: Seq<JobKey>, id: DownloadId, from: int) -> int
    decreases keys.len() - from,
{
    if from >= keys.len() {
        0
    } else if keys[from].download_id == id {
        from
    } else {
        first_of_download(keys, id, from + 1)
    }
}

/// The place of the job with the most bytes missing; of several, the last.
pub open spec fn biggest(keys: Seq<JobKey>) -> int
    decreases keys.len(),
{
    if keys.len() <= 1 {
        0
    } else {
        let best = biggest(keys.drop_last());
        if keys.last().missing >= keys[best].missing {
            keys.len() - 1
        } else {
            best
        }
    }
}

/// The place of the job that a strategy chooses. Only ranges have sizes: among jobs
/// without, the first is the biggest.
pub open spec fn selected(strategy: SchedulingStrategy, keys: Seq<JobKey>, sized: bool) -> Option<
    int,
> {
    if keys.len() == 0 {
        None
    } else {
        Some(
            match strategy {
                SchedulingStrategy::Fifo => 0,
                SchedulingStrategy::BiggestFirst => if sized {
                    biggest(keys)
                } else {
                    0
                },
                SchedulingStrategy::PrioritizeFile(id) => first_of_file(keys, id, 0),
                SchedulingStrategy::PrioritizeDownload(id) => first_of_download(keys, id, 0),
            },
        )
    }
}

proof fn lemma_first_of_file(keys: Seq<JobKey>, id: FileId, from: int, to: int)
    requires
        0 <= from <= to <= keys.len(),
        forall|i: int| from <= i < to ==> (#[trigger] keys[i]).file_id != id,
    ensures
        first_of_file(keys, id, from) == first_of_file(keys, id, to),
    decreases to - from,
{
    if from < to {
        lemma_first_of_file(keys, id, from + 1, to);
    }
}

proof fn lemma_first_of_download(keys: Seq<JobKey>, id: DownloadId, from: int, to: int)
    requires
        0 <= from <= to <= keys.len(),
        forall|i: int| from <= i < to ==> (#[trigger] keys[i]).download_id != id,
    ensures
        first_of_download(keys, id, from) == first_of_download(keys, id, to),
    decreases to - from,
{
    if from < to {
        lemma_first_of_download(keys, id, from + 1, to);
    }
}

/// A job that is chosen is there.
pub proof fn lemma_selected(strategy: SchedulingStrategy, keys: Seq<JobKey>, sized: bool)
    ensures
        match selected(strategy, keys, sized) {
            Some(i) => 0 <= i < keys.len(),
            None => keys.len() == 0,
        },
{
    if keys.len() > 0 {
        match strategy {
            SchedulingStrategy::Fifo => {},
            SchedulingStrategy::BiggestFirst => {
                lemma_biggest(keys);
            },
            SchedulingStrategy::PrioritizeFile(id) => {
                lemma_file_bounds(keys, id, 0);
            },
            SchedulingStrategy::PrioritizeDownload(id) => {
                lemma_download_bounds(keys, id, 0);
            },
        }
    }
}

proof fn lemma_file_bounds(keys: Seq<JobKey>, id: FileId, from: int)
    requires
        0 <= from <= keys.len(),
        keys.len() > 0,
    ensures
        0 <= first_of_file(keys, id, from) < keys.len(),
        (exists|i: int| from <= i < keys.len() && (#[trigger] keys[i]).file_id == id)
            ==> keys[first_of_file(keys, id, from)].file_id == id,
    decreases keys.len() - from,
{
    if from < keys.len() && keys[from].file_id != id {
        lemma_file_bounds(keys, id, from + 1);
    }
}

proof fn lemma_download_bounds(keys: Seq<JobKey>, id: DownloadId, from: int)
    requires
        0 <= from <= keys.len(),
        keys.len() > 0,
    ensures
        0 <= first_of_download(keys, id, from) < keys.len(),
        (exists|i: int| from <= i < keys.len() && (#[trigger] keys[i]).download_id == id)
            ==> keys[first_of_download(keys, id, from)].download_id == id,
    decreases keys.len() - from,
{
    if from < keys.len() && keys[from].download_id != id {
        lemma_download_bounds(keys, id, from + 1);
    }
}

proof fn lemma_biggest(keys: Seq<JobKey>)
    requires
        keys.len() > 0,
    ensures
        0 <= biggest(keys) < keys.len(),
        forall|i: int| 0 <= i < keys.len() ==> (#[trigger] keys[i]).missing <= keys[biggest(
            keys,
        )].missing,
    decreases keys.len(),
{
    if keys.len() > 1 {
        let before = keys.drop_last();
        lemma_biggest(before);
        assert forall|i: int| 0 <= i < keys.len() implies (#[trigger] keys[i]).missing
            <= keys[biggest(keys)].missing by {
            if i < before.len() {
                assert(before[i] == keys[i]);
            }
        }
    }
}

/// The biggest range is taken: none has more bytes missing.
pub proof fn law_biggest_is_taken(keys: Seq<JobKey>)
    requires
        keys.len() > 0,
    ensures
        ({
            let chosen = selected(SchedulingStrategy::BiggestFirst, keys, true)->0;
            forall|i: int| 0 <= i < keys.len() ==> (#[trigger] keys[i]).missing
                <= keys[chosen].missing
        }),
{
    lemma_biggest(keys);
}

/// A prioritized file goes first, if there is a job of it.
pub proof fn law_prioritized_file_goes_first(keys: Seq<JobKey>, id: FileId, sized: bool)
    requires
        exists|i: int| 0 <= i < keys.len() && (#[trigger] keys[i]).file_id == id,
    ensures
        keys[selected(SchedulingStrategy::PrioritizeFile(id), keys, sized)->0].file_id == id,
{
    lemma_file_bounds(keys, id, 0);
}

/// A prioritized download goes first, if there is a job of it.
pub proof fn law_prioritized_download_goes_first(keys: Seq<JobKey>, id: DownloadId, sized: bool)
    requires
        exists|i: int| 0 <= i < keys.len() && (#[trigger] keys[i]).download_id == id,
    ensures
        keys[selected(SchedulingStrategy::PrioritizeDownload(id), keys, sized)->0].download_id
            == id,
{
    lemma_download_bounds(keys, id, 0);
}

/// Whether an exec choice is the one that a strategy makes.
pub open spec fn is_selected(r: Option<usize>, choice: Option<int>) -> bool {
    match r {
        Some(i) => choice == Some(i as int),
        None => choice.is_none(),
    }
}

fn select_file<J: Job>(queue: &VecDeque<J>, id: FileId) -> (r: usize)
    requires
        queue@.len() > 0,
    ensures
        r as int == first_of_file(keys_of(queue@), id, 0),
{
    let ghost keys = keys_of(queue@);
    let n: usize = queue.len();
    let mut i: usize = 0;
    while i < n
        invariant
            i <= n,
            n == queue@.len(),
            keys == keys_of(queue@),
            forall|k: int| 0 <= k < i ==> (#[trigger] keys[k]).file_id != id,
        decreases n - i,
    {
        let key = queue[i].key();
        assert(keys[i as int] == key);
        if key.file_id == id {
            proof {
                lemma_first_of_file(keys, id, 0, i as int);
            }
            return i;
        }
        i += 1;
    }
    proof {
        lemma_first_of_file(keys, id, 0, n as int);
    }
    0
}

fn select_download<J: Job>(queue: &VecDeque<J>, id: DownloadId) -> (r: usize)
    requires
        queue@.len() > 0,
    ensures
        r as int == first_of_download(keys_of(queue@), id, 0),
{
    let ghost keys = keys_of(queue@);
    let n: usize = queue.len();
    let mut i: usize = 0;
    while i < n
        invariant
            i <= n,
            n == queue@.len(),
            keys == keys_of(queue@),
            forall|k: int| 0 <= k < i ==> (#[trigger] keys[k]).download_id != id,
        decreases n - i,
    {
        let key = queue[i].key();
        assert(keys[i as int] == key);
        if key.download_id == id {
            proof {
                lemma_first_of_download(keys, id, 0, i as int);
            }
            return i;
        }
        i += 1;
    }
    proof {
        lemma_first_of_download(keys, id, 0, n as int);
    }
    0
}

fn select_biggest<J: Job>(queue: &VecDeque<J>) -> (r: usize)
    requires
        queue@.len() > 0,
    ensures
        r as int == biggest(keys_of(queue@)),
{
    let ghost keys = keys_of(queue@);
    let n: usize = queue.len();
    let mut best: usize = 0;
    let mut most: u64 = queue[0].key().missing;
    let mut i: usize = 1;
    assert(keys.take(1).len() == 1);
    while i < n
        invariant
            1 <= i <= n,
            n == queue@.len(),
            keys == keys_of(queue@),
            best < i,
            best as int == biggest(keys.take(i as int)),
            most == keys[best as int].missing,
        decreases n - i,
    {
        let missing: u64 = queue[i].key().missing;
        assert(keys.take(i + 1).drop_last() =~= keys.take(i as int));
        if missing >= most {
            best = i;
            most = missing;
        }
        i += 1;
    }
    assert(keys.take(n as int) =~= keys);
    best
}

fn select<J: Job>(strategy: &SchedulingStrategy, queue: &VecDeque<J>, sized: bool) -> (r: Option<
    usize,
>)
    ensures
        is_selected(r, selected(*strategy, keys_of(queue@), sized)),
{
    if queue.len() == 0 {
        return None;
    }
    Some(
        match strategy {
            SchedulingStrategy::Fifo => 0,
            SchedulingStrategy::BiggestFirst => if sized {
                select_biggest(queue)
            } else {
                0
            },
            SchedulingStrategy::PrioritizeFile(id) => select_file(queue, *id),
            SchedulingStrategy::PrioritizeDownload(id) => select_download(queue, *id),
        },
    )
}

impl SchedulingStrategy {
    /// The place of the job to be done first; all count the same.
    pub fn select_metadata<C>(&self, queue: &VecDeque<MetadataJob<C>>) -> (r: Option<usize>)
        ensures
            is_selected(r, selected(*self, keys_of(queue@), false)),
    {
        select(self, queue, false)
    }

    /// The place of the job to be done first; no size is known.
    pub fn select_stream<C>(&self, queue: &VecDeque<StreamJob<C>>) -> (r: Option<usize>)
        ensures
            is_selected(r, selected(*self, keys_of(queue@), false)),
    {
        select(self, queue, false)
    }

    /// The place of the job to be done first.
    pub fn select_range<C>(&self, queue: &VecDeque<RangeJob<C>>) -> (r: Option<usize>)
        ensures
            is_selected(r, selected(*self, keys_of(queue@), true)),
    {
        select(self, queue, true)
    }
}

/// The jobs that wait for a server. Those that failed before wait apart.
pub struct HostScheduler<C> {
    strategy: SchedulingStrategy,
    metadata_retry: VecDeque<MetadataJob<C>>,
    stream_retry: VecDeque<StreamJob<C>>,
    range_retry: VecDeque<RangeJob<C>>,
    metadata: VecDeque<MetadataJob<C>>,
    stream: VecDeque<StreamJob<C>>,
    range: VecDeque<RangeJob<C>>,
}

/// The jobs that wait for a server, in mathematical values.
#[verifier::ext_equal]
pub struct SchedulerModel<C> {
    pub strategy: SchedulingStrategy,
    pub metadata_retry: Seq<MetadataJob<C>>,
    pub stream_retry: Seq<StreamJob<C>>,
    pub range_retry: Seq<RangeJob<C>>,
    pub metadata: Seq<MetadataJob<C>>,
    pub stream: Seq<StreamJob<C>>,
    pub range: Seq<RangeJob<C>>,
}

impl<C> View for HostScheduler<C> {
    type V = SchedulerModel<C>;

    closed spec fn view(&self) -> SchedulerModel<C> {
        SchedulerModel {
            strategy: self.strategy,
            metadata_retry: self.metadata_retry@,
            stream_retry: self.stream_retry@,
            range_retry: self.range_retry@,
            metadata: self.metadata@,
            stream: self.stream@,
            range: self.range@,
        }
    }
}

impl<C> SchedulerModel<C> {
    /// Whether any job waits.
    pub open spec fn has_work(self) -> bool {
        ||| self.metadata_retry.len() > 0
        ||| self.stream_retry.len() > 0
        ||| self.range_retry.len() > 0
        ||| self.metadata.len() > 0
        ||| self.stream.len() > 0
        ||| self.range.len() > 0
    }

    /// Whether metadata should go before data: only one job can be begun, or more
    /// than half of what can be done at once is being done.
    pub open spec fn metadata_first(available: nat, total: nat) -> bool {
        available == 1 || 2 * available < if total > 1 {
            total
        } else {
            1
        }
    }

    /// What is left, and which job is done next. What failed before goes first, what
    /// is about metadata before whole files, these before ranges. Else whole files go
    /// before ranges and these before metadata, unless metadata should go first.
    pub open spec fn step(self, available: nat, total: nat) -> (SchedulerModel<C>, Option<
        NextJob<C>,
    >) {
        let metadata = selected(self.strategy, keys_of(self.metadata), false);
        let stream = selected(self.strategy, keys_of(self.stream), false);
        let range = selected(self.strategy, keys_of(self.range), true);
        if self.metadata_retry.len() > 0 {
            (
                SchedulerModel { metadata_retry: self.metadata_retry.drop_first(), ..self },
                Some(NextJob::Metadata(self.metadata_retry[0])),
            )
        } else if self.stream_retry.len() > 0 {
            (
                SchedulerModel { stream_retry: self.stream_retry.drop_first(), ..self },
                Some(NextJob::Stream(self.stream_retry[0])),
            )
        } else if self.range_retry.len() > 0 {
            (
                SchedulerModel { range_retry: self.range_retry.drop_first(), ..self },
                Some(NextJob::Range(self.range_retry[0])),
            )
        } else if metadata.is_some() && (Self::metadata_first(available, total) || (stream.is_none()
            && range.is_none())) {
            (
                SchedulerModel { metadata: self.metadata.remove(metadata->0), ..self },
                Some(NextJob::Metadata(self.metadata[metadata->0])),
            )
        } else if stream.is_some() {
            (
                SchedulerModel { stream: self.stream.remove(stream->0), ..self },
                Some(NextJob::Stream(self.stream[stream->0])),
            )
        } else if range.is_some() {
            (
                SchedulerModel { range: self.range.remove(range->0), ..self },
                Some(NextJob::Range(self.range[range->0])),
            )
        } else {
            (self, None)
        }
    }
}

impl<C> HostScheduler<C> {
    /// No jobs.
    pub fn new(strategy: SchedulingStrategy) -> (r: Self)
        ensures
            r@ == (SchedulerModel::<C> {
                strategy,
                metadata_retry: Seq::empty(),
                stream_retry: Seq::empty(),
                range_retry: Seq::empty(),
                metadata: Seq::empty(),
                stream: Seq::empty(),
                range: Seq::empty(),
            }),
    {
        HostScheduler {
            strategy,
            metadata_retry: VecDeque::new(),
            stream_retry: VecDeque::new(),
            range_retry: VecDeque::new(),
            metadata: VecDeque::new(),
            stream: VecDeque::new(),
            range: VecDeque::new(),
        }
    }

    /// Chooses by another strategy from now on.
    pub fn set_strategy(&mut self, strategy: SchedulingStrategy)
        ensures
            final(self)@ == (SchedulerModel { strategy, ..old(self)@ }),
    {
        self.strategy = strategy;
    }

    /// One more job.
    pub fn push_metadata(&mut self, job: MetadataJob<C>)
        ensures
            final(self)@ == (SchedulerModel { metadata: old(self)@.metadata.push(job), ..old(
                self,
            )@ }),
    {
        self.metadata.push_back(job);
    }

    /// One more job.
    pub fn push_stream(&mut self, job: StreamJob<C>)
        ensures
            final(self)@ == (SchedulerModel { stream: old(self)@.stream.push(job), ..old(self)@ }),
    {
        self.stream.push_back(job);
    }

    /// One more job.
    pub fn push_range(&mut self, job: RangeJob<C>)
        ensures
            final(self)@ == (SchedulerModel { range: old(self)@.range.push(job), ..old(self)@ }),
    {
        self.range.push_back(job);
    }

    /// A job that failed is to be done again.
    pub fn retry(&mut self, failed_job: FailedJob<C>)
        ensures
            final(self)@ == match failed_job {
                FailedJob::Metadata(job) => SchedulerModel {
                    metadata_retry: old(self)@.metadata_retry.push(job),
                    ..old(self)@
                },
                FailedJob::Stream(job) => SchedulerModel {
                    stream_retry: old(self)@.stream_retry.push(job),
                    ..old(self)@
                },
                FailedJob::Range(job) => SchedulerModel {
                    range_retry: old(self)@.range_retry.push(job),
                    ..old(self)@
                },
            },
    {
        match failed_job {
            FailedJob::Metadata(job) => self.metadata_retry.push_back(job),
            FailedJob::Stream(job) => self.stream_retry.push_back(job),
            FailedJob::Range(job) => self.range_retry.push_back(job),
        }
    }

    /// Takes the job that is done next, if any waits. So many can be begun out of so
    /// many that can be done at once.
    pub fn next(&mut self, permits_available: usize, permits_total: usize) -> (r: Option<
        NextJob<C>,
    >)
        ensures
            (final(self)@, r) == old(self)@.step(permits_available as nat, permits_total as nat),
    {
        let ghost start = self@;
        proof {
            lemma_selected(start.strategy, keys_of(start.metadata), false);
            lemma_selected(start.strategy, keys_of(start.stream), false);
            lemma_selected(start.strategy, keys_of(start.range), true);
        }
        if let Some(job) = self.metadata_retry.pop_front() {
            assert(self@ =~= start.step(permits_available as nat, permits_total as nat).0);
            return Some(NextJob::Metadata(job));
        }
        if let Some(job) = self.stream_retry.pop_front() {
            assert(self@ =~= start.step(permits_available as nat, permits_total as nat).0);
            return Some(NextJob::Stream(job));
        }
        if let Some(job) = self.range_retry.pop_front() {
            assert(self@ =~= start.step(permits_available as nat, permits_total as nat).0);
            return Some(NextJob::Range(job));
        }
        assert(self@ =~= start);
        let total: usize = if permits_total > 1 {
            permits_total
        } else {
            1
        };
        let metadata_first: bool = permits_available == 1 || (permits_available < total
            && permits_available < total - permits_available);
        if metadata_first {
            if let Some(job) = self.take_metadata() {
                return Some(NextJob::Metadata(job));
            }
        }
        if let Some(job) = self.take_stream() {
            return Some(NextJob::Stream(job));
        }
        if let Some(job) = self.take_range() {
            return Some(NextJob::Range(job));
        }
        if let Some(job) = self.take_metadata() {
            return Some(NextJob::Metadata(job));
        }
        None
    }

    fn take_metadata(&mut self) -> (r: Option<MetadataJob<C>>)
        ensures
            match selected(old(self)@.strategy, keys_of(old(self)@.metadata), false) {
                Some(i) => r == Some(old(self)@.metadata[i]) && final(self)@ == (SchedulerModel {
                    metadata: old(self)@.metadata.remove(i),
                    ..old(self)@
                }),
                None => r.is_none() && final(self)@ == old(self)@,
            },
    {
        proof {
            lemma_selected(self@.strategy, keys_of(self@.metadata), false);
        }
        match self.strategy.select_metadata(&self.metadata) {
            Some(index) => self.metadata.remove(index),
            None => None,
        }
    }

    fn take_stream(&mut self) -> (r: Option<StreamJob<C>>)
        ensures
            match selected(old(self)@.strategy, keys_of(old(self)@.stream), false) {
                Some(i) => r == Some(old(self)@.stream[i]) && final(self)@ == (SchedulerModel {
                    stream: old(self)@.stream.remove(i),
                    ..old(self)@
                }),
                None => r.is_none() && final(self)@ == old(self)@,
            },
    {
        proof {
            lemma_selected(self@.strategy, keys_of(self@.stream), false);
        }
        match self.strategy.select_stream(&self.stream) {
            Some(index) => self.stream.remove(index),
            None => None,
        }
    }

    fn take_range(&mut self) -> (r: Option<RangeJob<C>>)
        ensures
            match selected(old(self)@.strategy, keys_of(old(self)@.range), true) {
                Some(i) => r == Some(old(self)@.range[i]) && final(self)@ == (SchedulerModel {
                    range: old(self)@.range.remove(i),
                    ..old(self)@
                }),
                None => r.is_none() && final(self)@ == old(self)@,
            },
    {
        proof {
            lemma_selected(self@.strategy, keys_of(self@.range), true);
        }
        match self.strategy.select_range(&self.range) {
            Some(index) => self.range.remove(index),
            None => None,
        }
    }

    /// Whether any job waits.
    pub fn has_work(&self) -> (r: bool)
        ensures
            r == self@.has_work(),
    {
        self.metadata_retry.len() > 0 || self.stream_retry.len() > 0 || self.range_retry.len() > 0
            || self.metadata.len() > 0 || self.stream.len() > 0 || self.range.len() > 0
    }
}

/// While any job waits, one is taken.
pub proof fn law_work_is_found<C>(s: SchedulerModel<C>, available: nat, total: nat)
    ensures
        s.step(available, total).1.is_some() <==> s.has_work(),
        s.step(available, total).1.is_none() ==> s.step(available, total).0 == s,
{
    lemma_selected(s.strategy, keys_of(s.metadata), false);
    lemma_selected(s.strategy, keys_of(s.stream), false);
    lemma_selected(s.strategy, keys_of(s.range), true);
}

/// How many times each job waits, about metadata.
pub open spec fn metadata_jobs<C>(s: SchedulerModel<C>) -> Multiset<MetadataJob<C>> {
    s.metadata_retry.to_multiset().add(s.metadata.to_multiset())
}

/// How many times each job waits, of whole files.
pub open spec fn stream_jobs<C>(s: SchedulerModel<C>) -> Multiset<StreamJob<C>> {
    s.stream_retry.to_multiset().add(s.stream.to_multiset())
}

/// How many times each job waits, of ranges.
pub open spec fn range_jobs<C>(s: SchedulerModel<C>) -> Multiset<RangeJob<C>> {
    s.range_retry.to_multiset().add(s.range.to_multiset())
}

proof fn lemma_remove_is_taken<J>(s: Seq<J>, i: int)
    requires
        0 <= i < s.len(),
    ensures
        s.remove(i).to_multiset() == s.to_multiset().remove(s[i]),
        s.to_multiset().contains(s[i]),
{
    s.to_multiset_ensures();
}

proof fn lemma_first_is_taken<J>(s: Seq<J>)
    requires
        s.len() > 0,
    ensures
        s.drop_first().to_multiset() == s.to_multiset().remove(s[0]),
        s.to_multiset().contains(s[0]),
{
    lemma_remove_is_taken(s, 0);
    assert(s.drop_first() =~= s.remove(0));
}

/// No job is lost, and none is done twice: the job that is taken is gone, once, and
/// every other job still waits.
pub proof fn law_no_job_is_lost<C>(s: SchedulerModel<C>, available: nat, total: nat)
    ensures
        ({
            let (after, job) = s.step(available, total);
            match job {
                Some(NextJob::Metadata(j)) => metadata_jobs(s).contains(j) && metadata_jobs(after)
                    == metadata_jobs(s).remove(j) && stream_jobs(after) == stream_jobs(s)
                    && range_jobs(after) == range_jobs(s),
                Some(NextJob::Stream(j)) => stream_jobs(s).contains(j) && stream_jobs(after)
                    == stream_jobs(s).remove(j) && metadata_jobs(after) == metadata_jobs(s)
                    && range_jobs(after) == range_jobs(s),
                Some(NextJob::Range(j)) => range_jobs(s).contains(j) && range_jobs(after)
                    == range_jobs(s).remove(j) && metadata_jobs(after) == metadata_jobs(s)
                    && stream_jobs(after) == stream_jobs(s),
                None => after == s,
            }
        }),
{
    lemma_selected(s.strategy, keys_of(s.metadata), false);
    lemma_selected(s.strategy, keys_of(s.stream), false);
    lemma_selected(s.strategy, keys_of(s.range), true);
    let after = s.step(available, total).0;
    if s.metadata_retry.len() > 0 {
        lemma_first_is_taken(s.metadata_retry);
        assert(metadata_jobs(after) =~= metadata_jobs(s).remove(s.metadata_retry[0]));
    } else if s.stream_retry.len() > 0 {
        lemma_first_is_taken(s.stream_retry);
        assert(stream_jobs(after) =~= stream_jobs(s).remove(s.stream_retry[0]));
    } else if s.range_retry.len() > 0 {
        lemma_first_is_taken(s.range_retry);
        assert(range_jobs(after) =~= range_jobs(s).remove(s.range_retry[0]));
    } else {
        match s.step(available, total).1 {
            Some(NextJob::Metadata(j)) => {
                let i = selected(s.strategy, keys_of(s.metadata), false)->0;
                lemma_remove_is_taken(s.metadata, i);
                assert(metadata_jobs(after) =~= metadata_jobs(s).remove(j));
            },
            Some(NextJob::Stream(j)) => {
                let i = selected(s.strategy, keys_of(s.stream), false)->0;
                lemma_remove_is_taken(s.stream, i);
                assert(stream_jobs(after) =~= stream_jobs(s).remove(j));
            },
            Some(NextJob::Range(j)) => {
                let i = selected(s.strategy, keys_of(s.range), true)->0;
                lemma_remove_is_taken(s.range, i);
                assert(range_jobs(after) =~= range_jobs(s).remove(j));
            },
            None => {},
        }
    }
}

/// A job that failed before goes before every job that did not.
pub proof fn law_retries_go_first<C>(s: SchedulerModel<C>, available: nat, total: nat)
    requires
        s.metadata_retry.len() + s.stream_retry.len() + s.range_retry.len() > 0,
    ensures
        ({
            let after = s.step(available, total).0;
            after.metadata == s.metadata && after.stream == s.stream && after.range == s.range
        }),
{
}

} // verus!
