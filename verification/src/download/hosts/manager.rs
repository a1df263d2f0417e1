//! The work that one server is asked to do.

use vstd::prelude::*;
use crate::download::hosts::jobs::{FailedJob, MetadataJob, NextJob, RangeJob, StreamJob};
use crate::download::hosts::scheduler::{HostScheduler, SchedulingStrategy};
#[allow(unused_imports)]
use crate::download::hosts::scheduler::SchedulerModel;

verus! {

/// How many jobs a server does at once.
pub const MAX_PERMITS: usize = 5;

/// What the work on a server is told.
pub enum HostMessage<C> {
    QueueMetadata(MetadataJob<C>),
    QueueStream(StreamJob<C>),
    QueueRanges(Vec<RangeJob<C>>),
    RetryReady(FailedJob<C>),
    /// The server wants a pause of so many milliseconds.
    RateLimited(u128),
    RateLimitExpired,
}

/// What is done about a server that wants a pause.
#[derive(Debug, Clone, Copy, PartialEq, Eq, Structural)]
pub enum PauseAction {
    /// No job is begun for so many milliseconds.
    Begin(u128),
    /// The pause that is under way lasts so many milliseconds from now, at least.
    Prolong(u128),
}

/// The jobs of one server, and whether it wants a pause.
pub struct HostManager<C> {
    scheduler: HostScheduler<C>,
    max_permits: usize,
    pausing: bool,
}

/// The jobs of one server, in mathematical values.
#[verifier::ext_equal]
pub struct HostModel<C> {
    pub scheduler: SchedulerModel<C>,
    pub max_permits: usize,
    pub pausing: bool,
}

impl<C> View for HostManager<C> {
    type V = HostModel<C>;

    closed spec fn view(&self) -> HostModel<C> {
        HostModel {
            scheduler: self.scheduler@,
            max_permits: self.max_permits,
            pausing: self.pausing,
        }
    }
}

/// What becomes of the work on a server when it is told something. Ranges are queued
/// in the order in which they come.
pub open spec fn host_after<C>(h: HostModel<C>, message: HostMessage<C>) -> HostModel<C> {
    let s = h.scheduler;
    match message {
        HostMessage::QueueMetadata(job) => HostModel {
            scheduler: SchedulerModel { metadata: s.metadata.push(job), ..s },
            ..h
        },
        HostMessage::QueueStream(job) => HostModel {
            scheduler: SchedulerModel { stream: s.stream.push(job), ..s },
            ..h
        },
        HostMessage::QueueRanges(jobs) => HostModel {
            scheduler: SchedulerModel { range: s.range + jobs@, ..s },
            ..h
        },
        HostMessage::RetryReady(FailedJob::Metadata(job)) => HostModel {
            scheduler: SchedulerModel { metadata_retry: s.metadata_retry.push(job), ..s },
            ..h
        },
        HostMessage::RetryReady(FailedJob::Stream(job)) => HostModel {
            scheduler: SchedulerModel { stream_retry: s.stream_retry.push(job), ..s },
            ..h
        },
        HostMessage::RetryReady(FailedJob::Range(job)) => HostModel {
            scheduler: SchedulerModel { range_retry: s.range_retry.push(job), ..s },
            ..h
        },
        HostMessage::RateLimited(_) => HostModel { pausing: true, ..h },
        HostMessage::RateLimitExpired => HostModel { pausing: false, ..h },
    }
}

/// What is done when the work on a server is told something.
pub open spec fn host_answer<C>(h: HostModel<C>, message: HostMessage<C>) -> Option<PauseAction> {
    match message {
        HostMessage::RateLimited(millis) => Some(
            if h.pausing {
                PauseAction::Prolong(millis)
            } else {
                PauseAction::Begin(millis)
            },
        ),
        _ => None,
    }
}

impl<C> HostManager<C> {
    /// No jobs and no pause. Jobs are done in the order in which they come.
    pub fn new() -> (r: Self)
        ensures
            r@ == (HostModel::<C> {
                scheduler: SchedulerModel {
                    strategy: SchedulingStrategy::Fifo,
                    metadata_retry: Seq::empty(),
                    stream_retry: Seq::empty(),
                    range_retry: Seq::empty(),
                    metadata: Seq::empty(),
                    stream: Seq::empty(),
                    range: Seq::empty(),
                },
                max_permits: MAX_PERMITS,
                pausing: false,
            }),
    {
        HostManager {
            scheduler: HostScheduler::new(SchedulingStrategy::Fifo),
            max_permits: MAX_PERMITS,
            pausing: false,
        }
    }

    /// How many jobs the server does at once.
    pub fn max_permits(&self) -> (r: usize)
        ensures
            r == self@.max_permits,
    {
        self.max_permits
    }

    /// Takes a message in.
    pub fn on_message(&mut self, message: HostMessage<C>) -> (r: Option<PauseAction>)
        ensures
            final(self)@ == host_after(old(self)@, message),
            r == host_answer(old(self)@, message),
    {
        match message {
            HostMessage::QueueMetadata(job) => {
                self.scheduler.push_metadata(job);
                None
            },
            HostMessage::QueueStream(job) => {
                self.scheduler.push_stream(job);
                None
            },
            HostMessage::QueueRanges(jobs) => {
                self.queue_ranges(jobs);
                None
            },
            HostMessage::RetryReady(job) => {
                self.scheduler.retry(job);
                None
            },
            HostMessage::RateLimited(millis) => {
                if self.pausing {
                    Some(PauseAction::Prolong(millis))
                } else {
                    self.pausing = true;
                    Some(PauseAction::Begin(millis))
                }
            },
            HostMessage::RateLimitExpired => {
                self.pausing = false;
                None
            },
        }
    }

    fn queue_ranges(&mut self, jobs: Vec<RangeJob<C>>)
        ensures
            final(self)@ == (HostModel {
                scheduler: SchedulerModel {
                    range: old(self)@.scheduler.range + jobs@,
                    ..old(self)@.scheduler
                },
                ..old(self)@
            }),
    {
        let ghost start = self@;
        assert(start.scheduler.range + jobs@.take(0) =~= start.scheduler.range);
        for job in iter: jobs
            invariant
                iter.seq() == jobs@,
                self@ == (HostModel {
                    scheduler: SchedulerModel {
                        range: start.scheduler.range + jobs@.take(iter.index() as int),
                        ..start.scheduler
                    },
                    ..start
                }),
        {
            let ghost at = iter.index() as int;
            self.scheduler.push_range(job);
            assert(start.scheduler.range + jobs@.take(at + 1) =~= (start.scheduler.range
                + jobs@.take(at)).push(jobs@[at]));
        }
        assert(jobs@.take(jobs@.len() as int) =~= jobs@);
    }

    /// Takes the job that is done next, if any waits; so many can be begun.
    pub fn next_job(&mut self, permits_available: usize) -> (r: Option<NextJob<C>>)
        ensures
            ({
                let step = old(self)@.scheduler.step(
                    permits_available as nat,
                    old(self)@.max_permits as nat,
                );
                final(self)@ == (HostModel { scheduler: step.0, ..old(self)@ }) && r == step.1
            }),
    {
        self.scheduler.next(permits_available, self.max_permits)
    }

    /// Whether any job waits.
    pub fn has_work(&self) -> (r: bool)
        ensures
            r == self@.scheduler.has_work(),
    {
        self.scheduler.has_work()
    }
}

/// When a pause ends that should last `millis` from now: never sooner than it was to
/// end before.
pub fn prolonged(deadline: u128, now: u128, millis: u128) -> (r: u128)
    requires
        now + millis <= u128::MAX,
    ensures
        r == if now + millis > deadline {
            (now + millis) as u128
        } else {
            deadline
        },
{
    let later: u128 = now + millis;
    if later > deadline {
        later
    } else {
        deadline
    }
}

/// Whatever a server is told, only one pause is under way: none is begun while one
/// lasts.
pub proof fn law_one_pause_at_a_time<C>(h: HostModel<C>, message: HostMessage<C>)
    ensures
        host_answer(h, message) matches Some(PauseAction::Begin(_)) ==> !h.pausing && host_after(
            h,
            message,
        ).pausing,
        host_answer(h, message) matches Some(PauseAction::Prolong(_)) ==> h.pausing && host_after(
            h,
            message,
        ).pausing,
{
}

} // verus!
