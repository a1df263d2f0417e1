//! How the permits of one server are shared among downloads.

use std::collections::{HashMap, HashSet};

use vstd::prelude::*;
use crate::download::items::DownloadId;

verus! {

broadcast use vstd::std_specs::hash::group_hash_axioms;

/// How many connections a server gets at once.
pub const CONNECTIONS_BUDGET: usize = 16;

/// How many seconds to wait if the server does not say how long.
pub const DEFAULT_PAUSE_SECONDS: u64 = 5;

/// A permit that is out. It is as good as the authority under which it was given.
#[derive(Debug, PartialEq, Eq, Structural)]
pub struct ActiveDownloadPermit {
    authority: u64,
}

/// A permit that was found to be good, and is being used.
#[derive(Debug, PartialEq, Eq, Structural)]
pub struct ValidDownloadPermit {
    authority: u64,
}

impl ActiveDownloadPermit {
    /// The authority under which the permit was given.
    pub closed spec fn authority(&self) -> nat {
        self.authority as nat
    }

    /// The permit to be used, if the server still gives permits under the authority of
    /// this one. If not, the permit was called back, and is to be returned.
    pub fn validate(self, host: &HostManager) -> (r: Result<ValidDownloadPermit, Self>)
        ensures
            match r {
                Ok(valid) => self.authority() == host@.authority && valid.authority()
                    == self.authority(),
                Err(permit) => self.authority() != host@.authority && permit == self,
            },
    {
        if self.authority == host.authority {
            Ok(ValidDownloadPermit { authority: self.authority })
        } else {
            Err(self)
        }
    }
}

impl ValidDownloadPermit {
    /// The authority under which the permit was given.
    pub closed spec fn authority(&self) -> nat {
        self.authority as nat
    }

    /// The permit is out of use. It may have been called back meanwhile.
    pub fn downgrade(self) -> (r: ActiveDownloadPermit)
        ensures
            r.authority() == self.authority(),
    {
        ActiveDownloadPermit { authority: self.authority }
    }
}

/// Something that happened.
#[derive(Debug, Clone, Copy, PartialEq, Eq, Structural)]
pub enum HostMessage {
    /// A download joins the queue.
    QueueDownload(DownloadId),
    CancelDownload(DownloadId),
    PauseDownload(DownloadId),
    /// A download is taken up again. If it is complete, or worked on, the work with the
    /// server ends.
    ResumeDownload { id: DownloadId, complete: bool },
    DownloadFinished(DownloadId),
    PermitReleased,
    RequestPermits,
    /// The server wants a pause, of so many seconds if it says how long.
    RateLimited(Option<u64>),
    RateLimitLifted,
}

/// Something to be done.
#[derive(Debug, Clone, Copy, PartialEq, Eq, Structural)]
pub enum HostAction {
    ShowAdded(DownloadId),
    ShowInProgress(DownloadId),
    ShowCompleted(DownloadId),
    /// Begin the work on a download.
    StartWork(DownloadId),
    PauseWork(DownloadId),
    /// Stop the work on a download if there is any, and have it cleaned up.
    CleanUp { id: DownloadId, abort: bool },
    /// Call back all permits that are out, and wait so many seconds.
    CallBack(u64),
    /// Give a permit to a download.
    Give(DownloadId),
    /// The work with the server ends.
    Stop,
}

/// The permits of one server, and the downloads that want them.
pub struct HostManager {
    queue: Vec<usize>,
    active: HashSet<usize>,
    available: usize,
    /// How many permits are to be withdrawn when they come back.
    debt: usize,
    rate_limited: bool,
    /// Another number whenever all permits that are out are called back.
    authority: u64,
}

/// The permits of one server, in mathematical values.
#[verifier::ext_equal]
pub struct PermitModel {
    pub queue: Seq<usize>,
    pub active: Set<usize>,
    pub available: nat,
    pub debt: nat,
    pub rate_limited: bool,
    pub authority: nat,
}

impl View for HostManager {
    type V = PermitModel;

    closed spec fn view(&self) -> PermitModel {
        PermitModel {
            queue: self.queue@,
            active: self.active@,
            available: self.available as nat,
            debt: self.debt as nat,
            rate_limited: self.rate_limited,
            authority: self.authority as nat,
        }
    }
}

/// How many permits a download could use.
pub open spec fn wanted(demands: Map<usize, usize>, id: usize) -> nat {
    if demands.contains_key(id) {
        demands[id] as nat
    } else {
        0
    }
}

/// How many permits are left, and who gets the others: downloads are served in the
/// order of the queue, each with as many as it could still use. With one that nobody
/// works on the serving ends.
pub open spec fn shared(
    available: nat,
    queue: Seq<usize>,
    active: Set<usize>,
    demands: Map<usize, usize>,
) -> (nat, Seq<HostAction>)
    decreases queue.len(),
{
    if queue.len() == 0 || !active.contains(queue[0]) {
        (available, Seq::empty())
    } else {
        let id = queue[0];
        let n = if wanted(demands, id) < available {
            wanted(demands, id)
        } else {
            available
        };
        let (left, rest) = shared(
            (available - n) as nat,
            queue.drop_first(),
            active,
            demands.insert(id, (wanted(demands, id) - n) as usize),
        );
        (left, Seq::new(n, |i: int| HostAction::Give(DownloadId(id))) + rest)
    }
}

/// Permits are given out, unless the server wants a pause.
pub open spec fn distributed(m: PermitModel, demands: Map<usize, usize>) -> (PermitModel, Seq<
    HostAction,
>) {
    if m.rate_limited {
        (m, Seq::empty())
    } else {
        let (available, gifts) = shared(m.available, m.queue, m.active, demands);
        (PermitModel { available, ..m }, gifts)
    }
}

/// The place of a download in the queue.
pub open spec fn place_of(queue: Seq<usize>, id: usize) -> Option<int>
    decreases queue.len(),
{
    if queue.len() == 0 {
        None
    } else if queue[0] == id {
        Some(0)
    } else {
        match place_of(queue.drop_first(), id) {
            Some(i) => Some(i + 1),
            None => None,
        }
    }
}

/// A queue without the first entry of a download.
pub open spec fn without(queue: Seq<usize>, id: usize) -> Seq<usize> {
    match place_of(queue, id) {
        Some(i) => queue.remove(i),
        None => queue,
    }
}

/// What is done when something happens.
pub open spec fn host_step(m: PermitModel, message: HostMessage, demands: Map<usize, usize>) -> (
    PermitModel,
    Seq<HostAction>,
) {
    match message {
        HostMessage::QueueDownload(id) => {
            let (after, gifts) = distributed(
                PermitModel {
                    queue: m.queue.push(id.0),
                    active: m.active.insert(id.0),
                    ..m
                },
                demands,
            );
            (after, seq![HostAction::StartWork(id), HostAction::ShowAdded(id)] + gifts)
        },
        HostMessage::CancelDownload(id) => (
            PermitModel { queue: without(m.queue, id.0), active: m.active.remove(id.0), ..m },
            seq![HostAction::CleanUp { id, abort: m.active.contains(id.0) }],
        ),
        HostMessage::PauseDownload(id) => (
            PermitModel { queue: without(m.queue, id.0), active: m.active.remove(id.0), ..m },
            if m.active.contains(id.0) {
                seq![HostAction::PauseWork(id)]
            } else {
                Seq::empty()
            },
        ),
        HostMessage::ResumeDownload { id, complete } => if complete || m.active.contains(id.0)
            || m.queue.contains(id.0) {
            (m, seq![HostAction::Stop])
        } else {
            let (after, gifts) = distributed(
                PermitModel {
                    queue: m.queue.push(id.0),
                    active: m.active.insert(id.0),
                    ..m
                },
                demands,
            );
            (after, seq![HostAction::StartWork(id), HostAction::ShowInProgress(id)] + gifts)
        },
        HostMessage::DownloadFinished(id) => {
            let (after, gifts) = distributed(
                PermitModel {
                    queue: without(m.queue, id.0),
                    active: m.active.remove(id.0),
                    ..m
                },
                demands,
            );
            (after, seq![HostAction::ShowCompleted(id)] + gifts)
        },
        HostMessage::PermitReleased => distributed(
            if m.debt > 0 {
                PermitModel { debt: (m.debt - 1) as nat, ..m }
            } else {
                PermitModel { available: m.available + 1, ..m }
            },
            demands,
        ),
        HostMessage::RequestPermits => distributed(m, demands),
        HostMessage::RateLimited(seconds) => (
            PermitModel { rate_limited: true, authority: m.authority + 1, ..m },
            seq![
                HostAction::CallBack(
                    match seconds {
                        Some(n) => n,
                        None => DEFAULT_PAUSE_SECONDS,
                    },
                ),
            ],
        ),
        HostMessage::RateLimitLifted => distributed(
            PermitModel { rate_limited: false, ..m },
            demands,
        ),
    }
}

proof fn lemma_place_of(queue: Seq<usize>, id: usize)
    ensures
        match place_of(queue, id) {
            Some(i) => 0 <= i < queue.len() && queue[i] == id && forall|k: int|
                0 <= k < i ==> queue[k] != id,
            None => !queue.contains(id),
        },
    decreases queue.len(),
{
    if queue.len() > 0 && queue[0] != id {
        lemma_place_of(queue.drop_first(), id);
        match place_of(queue.drop_first(), id) {
            Some(i) => {
                assert forall|k: int| 0 <= k < i + 1 implies queue[k] != id by {
                    if k > 0 {
                        assert(queue[k] == queue.drop_first()[k - 1]);
                    }
                }
            },
            None => {
                assert forall|k: int| 0 <= k < queue.len() implies queue[k] != id by {
                    if k > 0 {
                        assert(queue[k] == queue.drop_first()[k - 1]);
                        assert(queue.drop_first().contains(queue.drop_first()[k - 1]));
                    }
                }
            },
        }
    }
}

impl HostManager {
    /// All permits are there, and nobody wants any.
    pub fn new() -> (r: Self)
        ensures
            r@ == (PermitModel {
                queue: Seq::empty(),
                active: Set::empty(),
                available: CONNECTIONS_BUDGET as nat,
                debt: 0,
                rate_limited: false,
                authority: 0,
            }),
    {
        let r = HostManager {
            queue: Vec::new(),
            active: HashSet::new(),
            available: CONNECTIONS_BUDGET,
            debt: 0,
            rate_limited: false,
            authority: 0,
        };
        assert(r@.active =~= Set::empty());
        r
    }

    fn find(&self, id: usize) -> (r: Option<usize>)
        ensures
            match r {
                Some(i) => place_of(self@.queue, id) == Some(i as int) && i < self@.queue.len(),
                None => place_of(self@.queue, id).is_none(),
            },
    {
        proof {
            lemma_place_of(self.queue@, id);
        }
        let mut i: usize = 0;
        while i < self.queue.len()
            invariant
                i <= self.queue@.len(),
                forall|k: int| 0 <= k < i ==> self.queue@[k] != id,
                match place_of(self.queue@, id) {
                    Some(p) => 0 <= p < self.queue@.len() && self.queue@[p] == id && forall|k: int|
                        0 <= k < p ==> self.queue@[k] != id,
                    None => !self.queue@.contains(id),
                },
            decreases self.queue@.len() - i,
        {
            if self.queue[i] == id {
                assert(self.queue@.contains(id));
                return Some(i);
            }
            i += 1;
        }
        None
    }

    fn leave(&mut self, id: usize) -> (active: bool)
        ensures
            final(self)@ == (PermitModel {
                queue: without(old(self)@.queue, id),
                active: old(self)@.active.remove(id),
                ..old(self)@
            }),
            active == old(self)@.active.contains(id),
    {
        if let Some(i) = self.find(id) {
            let _ = self.queue.remove(i);
        }
        let active = self.active.remove(&id);
        assert(self@.active =~= old(self)@.active.remove(id));
        active
    }

    fn join(&mut self, id: usize)
        ensures
            final(self)@ == (PermitModel {
                queue: old(self)@.queue.push(id),
                active: old(self)@.active.insert(id),
                ..old(self)@
            }),
    {
        self.queue.push(id);
        let _ = self.active.insert(id);
        assert(self@.active =~= old(self)@.active.insert(id));
    }

    /// Gives out what is there, unless the server wants a pause.
    pub fn distribute_permits(&mut self, demands: &HashMap<usize, usize>, out: &mut Vec<HostAction>)
        ensures
            final(self)@ == distributed(old(self)@, demands@).0,
            final(out)@ == old(out)@ + distributed(old(self)@, demands@).1,
    {
        let ghost start = self@;
        let ghost told = out@;
        let ghost all = shared(start.available, start.queue, start.active, demands@);
        if self.rate_limited {
            assert(out@ =~= told + Seq::<HostAction>::empty());
            return;
        }
        // What the downloads that were served could still use.
        let mut served: HashMap<usize, usize> = HashMap::new();
        let mut i: usize = 0;
        assert(start.queue.skip(0) =~= start.queue);
        assert(demands@.union_prefer_right(served@) =~= demands@);
        assert(told + all.1 =~= out@ + all.1);
        while i < self.queue.len() && self.active.contains(&self.queue[i])
            invariant
                i <= self.queue@.len(),
                self@ == (PermitModel { available: self.available as nat, ..start }),
                ({
                    let rest = shared(
                        self.available as nat,
                        start.queue.skip(i as int),
                        start.active,
                        demands@.union_prefer_right(served@),
                    );
                    rest.0 == all.0 && out@ + rest.1 == told + all.1
                }),
            decreases self.queue@.len() - i,
        {
            let id: usize = self.queue[i];
            let ghost now = demands@.union_prefer_right(served@);
            let want: usize = match served.get(&id) {
                Some(n) => *n,
                None => match demands.get(&id) {
                    Some(n) => *n,
                    None => 0,
                },
            };
            assert(want as nat == wanted(now, id));
            let n: usize = if want < self.available {
                want
            } else {
                self.available
            };
            let ghost before = out@;
            let ghost rest = shared(
                self.available as nat,
                start.queue.skip(i as int),
                start.active,
                now,
            );
            proof {
                assert(start.queue.skip(i as int)[0] == id);
                assert(start.queue.skip(i as int).drop_first() =~= start.queue.skip(i + 1));
            }
            let mut k: usize = 0;
            while k < n
                invariant
                    k <= n,
                    out@ == before + Seq::new(k as nat, |j: int| HostAction::Give(DownloadId(id))),
                decreases n - k,
            {
                out.push(HostAction::Give(DownloadId(id)));
                k += 1;
                assert(out@ =~= before + Seq::new(
                    k as nat,
                    |j: int| HostAction::Give(DownloadId(id)),
                ));
            }
            let _ = served.insert(id, want - n);
            self.available = self.available - n;
            i += 1;
            proof {
                assert(demands@.union_prefer_right(served@) =~= now.insert(
                    id,
                    (wanted(now, id) - n) as usize,
                ));
                let next = shared(
                    self.available as nat,
                    start.queue.skip(i as int),
                    start.active,
                    demands@.union_prefer_right(served@),
                );
                let gifts = Seq::new(n as nat, |j: int| HostAction::Give(DownloadId(id)));
                assert(rest.1 =~= gifts + next.1);
                assert(before + (gifts + next.1) =~= (before + gifts) + next.1);
            }
        }
        proof {
            let rest = start.queue.skip(i as int);
            if i < start.queue.len() {
                assert(rest[0] == start.queue[i as int]);
            }
            assert(out@ + Seq::<HostAction>::empty() =~= out@);
        }
    }

    /// A permit that is given out now.
    pub fn permit(&self) -> (r: ActiveDownloadPermit)
        ensures
            r.authority() == self@.authority,
    {
        ActiveDownloadPermit { authority: self.authority }
    }

    /// Withdraws permits: those that are there at once, and the others when they come
    /// back.
    pub fn remove_permits(&mut self, amount: usize)
        requires
            old(self)@.debt + amount <= usize::MAX,
        ensures
            final(self)@ == (PermitModel {
                available: if amount <= old(self)@.available {
                    (old(self)@.available - amount) as nat
                } else {
                    0
                },
                debt: if amount <= old(self)@.available {
                    old(self)@.debt
                } else {
                    (old(self)@.debt + amount - old(self)@.available) as nat
                },
                ..old(self)@
            }),
    {
        if amount <= self.available {
            self.available = self.available - amount;
        } else {
            self.debt = self.debt + (amount - self.available);
            self.available = 0;
        }
    }

    /// Takes in something that happened, and says what is to be done. `demands` says
    /// how many permits each download could use.
    pub fn on_message(&mut self, message: HostMessage, demands: &HashMap<usize, usize>) -> (out:
        Vec<HostAction>)
        requires
            old(self)@.available < usize::MAX,
            old(self)@.authority < u64::MAX,
        ensures
            (final(self)@, out@) == host_step(old(self)@, message, demands@),
    {
        let mut out: Vec<HostAction> = Vec::new();
        match message {
            HostMessage::QueueDownload(id) => {
                self.join(id.0);
                out.push(HostAction::StartWork(id));
                out.push(HostAction::ShowAdded(id));
                self.distribute_permits(demands, &mut out);
            },
            HostMessage::CancelDownload(id) => {
                let abort = self.leave(id.0);
                out.push(HostAction::CleanUp { id, abort });
            },
            HostMessage::PauseDownload(id) => {
                if self.leave(id.0) {
                    out.push(HostAction::PauseWork(id));
                }
            },
            HostMessage::ResumeDownload { id, complete } => {
                proof {
                    lemma_place_of(self.queue@, id.0);
                }
                if !complete && !self.active.contains(&id.0) && self.find(id.0).is_none() {
                    self.join(id.0);
                    out.push(HostAction::StartWork(id));
                    out.push(HostAction::ShowInProgress(id));
                    self.distribute_permits(demands, &mut out);
                } else {
                    out.push(HostAction::Stop);
                }
            },
            HostMessage::DownloadFinished(id) => {
                let _ = self.leave(id.0);
                out.push(HostAction::ShowCompleted(id));
                self.distribute_permits(demands, &mut out);
            },
            HostMessage::PermitReleased => {
                if self.debt > 0 {
                    self.debt = self.debt - 1;
                } else {
                    self.available = self.available + 1;
                }
                self.distribute_permits(demands, &mut out);
            },
            HostMessage::RequestPermits => {
                self.distribute_permits(demands, &mut out);
            },
            HostMessage::RateLimited(seconds) => {
                self.rate_limited = true;
                self.authority = self.authority + 1;
                out.push(
                    HostAction::CallBack(
                        match seconds {
                            Some(n) => n,
                            None => DEFAULT_PAUSE_SECONDS,
                        },
                    ),
                );
            },
            HostMessage::RateLimitLifted => {
                self.rate_limited = false;
                self.distribute_permits(demands, &mut out);
            },
        }
        assert(out@ =~= host_step(old(self)@, message, demands@).1);
        out
    }
}

/// No permit is made or lost when they are given out: those that are given and those
/// that are left are those that were there.
pub proof fn law_no_permit_is_made(
    available: nat,
    queue: Seq<usize>,
    active: Set<usize>,
    demands: Map<usize, usize>,
)
    ensures
        ({
            let (left, gifts) = shared(available, queue, active, demands);
            left + gifts.len() == available
        }),
    decreases queue.len(),
{
    if queue.len() > 0 && active.contains(queue[0]) {
        let id = queue[0];
        let n = if wanted(demands, id) < available {
            wanted(demands, id)
        } else {
            available
        };
        law_no_permit_is_made(
            (available - n) as nat,
            queue.drop_first(),
            active,
            demands.insert(id, (wanted(demands, id) - n) as usize),
        );
    }
}

/// The download at the head of the queue is served first: as long as it could use more,
/// nobody else gets a permit.
pub proof fn law_first_is_served_first(
    available: nat,
    queue: Seq<usize>,
    active: Set<usize>,
    demands: Map<usize, usize>,
)
    requires
        queue.len() > 0,
        active.contains(queue[0]),
        wanted(demands, queue[0]) >= available,
    ensures
        ({
            let (left, gifts) = shared(available, queue, active, demands);
            &&& left == 0
            &&& gifts.len() == available
            &&& forall|i: int|
                0 <= i < gifts.len() ==> #[trigger] gifts[i] == HostAction::Give(
                    DownloadId(queue[0]),
                )
        }),
{
    law_no_permit_is_made(available, queue, active, demands);
    let later = demands.insert(queue[0], (wanted(demands, queue[0]) - available) as usize);
    law_no_permit_is_made(0, queue.drop_first(), active, later);
}

/// No download gets more permits than it could use, however often it is in the queue.
pub proof fn law_nobody_gets_too_much(
    available: nat,
    queue: Seq<usize>,
    active: Set<usize>,
    demands: Map<usize, usize>,
    id: usize,
)
    ensures
        gifts_to(shared(available, queue, active, demands).1, id) <= wanted(demands, id),
    decreases queue.len(),
{
    if queue.len() > 0 && active.contains(queue[0]) {
        let first = queue[0];
        let n = if wanted(demands, first) < available {
            wanted(demands, first)
        } else {
            available
        };
        let later = demands.insert(first, (wanted(demands, first) - n) as usize);
        let gifts = Seq::new(n, |i: int| HostAction::Give(DownloadId(first)));
        let rest = shared((available - n) as nat, queue.drop_first(), active, later).1;
        law_nobody_gets_too_much((available - n) as nat, queue.drop_first(), active, later, id);
        lemma_gifts_add(gifts, rest, id);
        lemma_same_gifts(n, first, id);
    }
}

/// How many permits a download gets.
pub open spec fn gifts_to(gifts: Seq<HostAction>, id: usize) -> nat
    decreases gifts.len(),
{
    if gifts.len() == 0 {
        0
    } else {
        gifts_to(gifts.drop_last(), id) + if gifts.last() == HostAction::Give(DownloadId(id)) {
            1nat
        } else {
            0nat
        }
    }
}

/// Gifts add up.
pub proof fn lemma_gifts_add(a: Seq<HostAction>, b: Seq<HostAction>, id: usize)
    ensures
        gifts_to(a + b, id) == gifts_to(a, id) + gifts_to(b, id),
    decreases b.len(),
{
    if b.len() == 0 {
        assert(a + b =~= a);
    } else {
        assert((a + b).drop_last() =~= a + b.drop_last());
        lemma_gifts_add(a, b.drop_last(), id);
    }
}

/// Gifts to one download are gifts to no other.
pub proof fn lemma_same_gifts(n: nat, first: usize, id: usize)
    ensures
        gifts_to(Seq::new(n, |i: int| HostAction::Give(DownloadId(first))), id) == if first == id {
            n
        } else {
            0
        },
    decreases n,
{
    let gifts = Seq::new(n, |i: int| HostAction::Give(DownloadId(first)));
    if n > 0 {
        lemma_same_gifts((n - 1) as nat, first, id);
        assert(gifts.drop_last() =~= Seq::new(
            (n - 1) as nat,
            |i: int| HostAction::Give(DownloadId(first)),
        ));
    }
}

/// When the server wants a pause, no permit that is out is good any more, and none that
/// was called back ever is again.
pub proof fn law_called_back_permits_stay_bad(
    m: PermitModel,
    message: HostMessage,
    demands: Map<usize, usize>,
    permit: ActiveDownloadPermit,
)
    requires
        permit.authority() <= m.authority,
    ensures
        ({
            let after = host_step(m, message, demands).0;
            &&& permit.authority() <= after.authority
            &&& message is RateLimited ==> permit.authority() != after.authority
            &&& permit.authority() != m.authority ==> permit.authority() != after.authority
            &&& message !is RateLimited ==> after.authority == m.authority
        }),
{
}

/// While the server wants a pause, nobody gets a permit.
pub proof fn law_nobody_is_served_in_a_pause(m: PermitModel, demands: Map<usize, usize>)
    requires
        m.rate_limited,
    ensures
        distributed(m, demands) == (m, Seq::<HostAction>::empty()),
{
}

} // verus!
