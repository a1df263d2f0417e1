//! How permits are shared out, and which servers are worked with.

use vstd::prelude::*;
#[allow(unused_imports)]
use crate::app::limiters::{host_limiter, LimitersModel};
#[allow(unused_imports)]
use crate::download::items::DownloadId;
#[allow(unused_imports)]
use crate::host_manager::{
    gifts_to, host_step, law_no_permit_is_made, lemma_gifts_add, lemma_same_gifts, place_of, shared,
    wanted, without, HostAction, HostMessage, PermitModel,
};
#[allow(unused_imports)]
use crate::network_manager::NetworkModel;
#[allow(unused_imports)]
use crate::utils::urls::{host_label, host_of_url, HostModel};

verus! {

/// How many permits a download could use.
pub open spec fn could_use(demands: Map<usize, usize>, id: usize) -> int {
    if demands.contains_key(id) {
        demands[id] as int
    } else {
        0
    }
}

/// How many permits the downloads before a place in the queue could use together.
pub open spec fn wanted_before(queue: Seq<usize>, demands: Map<usize, usize>, n: int) -> int
    decreases n,
{
    if n <= 0 {
        0
    } else {
        wanted_before(queue, demands, n - 1) + could_use(demands, queue[n - 1])
    }
}

/// What is left for a download when those before it have taken what they could use.
pub open spec fn its_share(available: int, taken: int, wants: int) -> int {
    if available - taken >= wants {
        wants
    } else if available > taken {
        available - taken
    } else {
        0
    }
}

proof fn lemma_wanted_tail(queue: Seq<usize>, demands: Map<usize, usize>, n: int)
    requires
        0 <= n < queue.len(),
    ensures
        wanted_before(queue, demands, n + 1) == could_use(demands, queue[0]) + wanted_before(
            queue.drop_first(),
            demands,
            n,
        ),
    decreases n,
{
    if n > 0 {
        lemma_wanted_tail(queue, demands, n - 1);
        assert(queue.drop_first()[n - 1] == queue[n]);
    } else {
        assert(wanted_before(queue, demands, 0) == 0);
    }
}

proof fn lemma_wanted_same(
    queue: Seq<usize>,
    a: Map<usize, usize>,
    b: Map<usize, usize>,
    n: int,
)
    requires
        0 <= n <= queue.len(),
        forall|i: int|
            0 <= i < queue.len() ==> could_use(a, #[trigger] queue[i]) == could_use(b, queue[i]),
    ensures
        wanted_before(queue, a, n) == wanted_before(queue, b, n),
        wanted_before(queue, a, n) >= 0,
    decreases n,
{
    if n > 0 {
        lemma_wanted_same(queue, a, b, n - 1);
        assert(could_use(a, queue[n - 1]) == could_use(b, queue[n - 1]));
    }
}

proof fn lemma_shares(
    available: nat,
    queue: Seq<usize>,
    active: Set<usize>,
    demands: Map<usize, usize>,
    k: int,
)
    requires
        0 <= k < queue.len(),
        queue.no_duplicates(),
        forall|i: int| 0 <= i <= k ==> active.contains(#[trigger] queue[i]),
    ensures
        gifts_to(shared(available, queue, active, demands).1, queue[k]) == its_share(
            available as int,
            wanted_before(queue, demands, k),
            could_use(demands, queue[k]),
        ),
    decreases queue.len(),
{
    let first = queue[0];
    assert(active.contains(queue[0]));
    let n = if wanted(demands, first) < available {
        wanted(demands, first)
    } else {
        available
    };
    let later = demands.insert(first, (wanted(demands, first) - n) as usize);
    let gifts = Seq::new(n, |i: int| HostAction::Give(DownloadId(first)));
    let tail = queue.drop_first();
    let rest = shared((available - n) as nat, tail, active, later).1;
    lemma_gifts_add(gifts, rest, queue[k]);
    lemma_same_gifts(n, first, queue[k]);
    assert(forall|i: int| 0 <= i < tail.len() ==> #[trigger] tail[i] == queue[i + 1]);
    assert forall|i: int| 0 <= i < tail.len() implies could_use(demands, #[trigger] tail[i])
        == could_use(later, tail[i]) by {
        assert(queue[i + 1] != queue[0]);
    }
    lemma_wanted_same(tail, demands, later, 0);
    if k == 0 {
        lemma_nothing_for_others((available - n) as nat, tail, active, later, first);
        assert(wanted_before(queue, demands, 0) == 0);
    } else {
        assert(queue[k] != queue[0]);
        assert forall|i: int, j: int|
            0 <= i < tail.len() && 0 <= j < tail.len() && i != j implies tail[i] != tail[j] by {
            assert(queue[i + 1] != queue[j + 1]);
        }
        assert forall|i: int| 0 <= i <= k - 1 implies active.contains(#[trigger] tail[i]) by {
            assert(queue[i + 1] == tail[i]);
        }
        lemma_shares((available - n) as nat, tail, active, later, k - 1);
        lemma_wanted_same(tail, demands, later, k - 1);
        lemma_wanted_tail(queue, demands, k - 1);
        assert(tail[k - 1] == queue[k]);
    }
}

proof fn lemma_nothing_for_others(
    available: nat,
    queue: Seq<usize>,
    active: Set<usize>,
    demands: Map<usize, usize>,
    id: usize,
)
    requires
        !queue.contains(id),
    ensures
        gifts_to(shared(available, queue, active, demands).1, id) == 0,
    decreases queue.len(),
{
    if queue.len() > 0 && active.contains(queue[0]) {
        let first = queue[0];
        let n = if wanted(demands, first) < available {
            wanted(demands, first)
        } else {
            available
        };
        let later = demands.insert(first, (wanted(demands, first) - n) as usize);
        let gifts = Seq::new(n, |i: int| HostAction::Give(DownloadId(first)));
        let tail = queue.drop_first();
        let rest = shared((available - n) as nat, tail, active, later).1;
        assert(queue.contains(queue[0]));
        assert(!tail.contains(id)) by {
            if tail.contains(id) {
                let i = choose|i: int| 0 <= i < tail.len() && tail[i] == id;
                assert(queue[i + 1] == id);
            }
        }
        lemma_nothing_for_others((available - n) as nat, tail, active, later, id);
        lemma_gifts_add(gifts, rest, id);
        lemma_same_gifts(n, first, id);
    }
}

/// Each download in the queue gets as many permits as it could use, as far as those before
/// it have left any; one that is not in the queue gets none.
pub proof fn law_everybody_gets_a_share_in_turn(
    available: nat,
    queue: Seq<usize>,
    active: Set<usize>,
    demands: Map<usize, usize>,
)
    requires
        queue.no_duplicates(),
        forall|i: int| 0 <= i < queue.len() ==> active.contains(#[trigger] queue[i]),
    ensures
        ({
            let (left, gifts) = shared(available, queue, active, demands);
            &&& forall|k: int|
                0 <= k < queue.len() ==> gifts_to(gifts, #[trigger] queue[k]) == its_share(
                    available as int,
                    wanted_before(queue, demands, k),
                    could_use(demands, queue[k]),
                )
            &&& forall|id: usize| !queue.contains(id) ==> #[trigger] gifts_to(gifts, id) == 0
            &&& left + gifts.len() == available
        }),
{
    let gifts = shared(available, queue, active, demands).1;
    law_no_permit_is_made(available, queue, active, demands);
    assert forall|k: int| 0 <= k < queue.len() implies gifts_to(gifts, #[trigger] queue[k])
        == its_share(
        available as int,
        wanted_before(queue, demands, k),
        could_use(demands, queue[k]),
    ) by {
        lemma_shares(available, queue, active, demands, k);
    }
    assert forall|id: usize| !queue.contains(id) implies #[trigger] gifts_to(gifts, id) == 0 by {
        lemma_nothing_for_others(available, queue, active, demands, id);
    }
}

/// While a permit is left, nobody in the queue could use another.
pub proof fn law_no_permit_is_kept_back(
    available: nat,
    queue: Seq<usize>,
    active: Set<usize>,
    demands: Map<usize, usize>,
)
    requires
        queue.no_duplicates(),
        forall|i: int| 0 <= i < queue.len() ==> active.contains(#[trigger] queue[i]),
        shared(available, queue, active, demands).0 > 0,
    ensures
        forall|k: int|
            0 <= k < queue.len() ==> gifts_to(
                shared(available, queue, active, demands).1,
                #[trigger] queue[k],
            ) == could_use(demands, queue[k]),
    decreases queue.len(),
{
    let all = shared(available, queue, active, demands).1;
    if queue.len() > 0 {
        let first = queue[0];
        assert(active.contains(queue[0]));
        let n = if wanted(demands, first) < available {
            wanted(demands, first)
        } else {
            available
        };
        let later = demands.insert(first, (wanted(demands, first) - n) as usize);
        let gifts = Seq::new(n, |i: int| HostAction::Give(DownloadId(first)));
        let tail = queue.drop_first();
        let rest = shared((available - n) as nat, tail, active, later).1;
        assert(forall|i: int| 0 <= i < tail.len() ==> #[trigger] tail[i] == queue[i + 1]);
        assert forall|i: int, j: int|
            0 <= i < tail.len() && 0 <= j < tail.len() && i != j implies tail[i] != tail[j] by {
            assert(queue[i + 1] != queue[j + 1]);
        }
        assert forall|i: int| 0 <= i < tail.len() implies active.contains(#[trigger] tail[i]) by {
            assert(queue[i + 1] == tail[i]);
        }
        law_no_permit_is_made((available - n) as nat, tail, active, later);
        law_no_permit_is_kept_back((available - n) as nat, tail, active, later);
        assert forall|k: int| 0 <= k < queue.len() implies gifts_to(all, #[trigger] queue[k])
            == could_use(demands, queue[k]) by {
            lemma_gifts_add(gifts, rest, queue[k]);
            lemma_same_gifts(n, first, queue[k]);
            if k == 0 {
                assert(!tail.contains(first)) by {
                    if tail.contains(first) {
                        let i = choose|i: int| 0 <= i < tail.len() && tail[i] == first;
                        assert(queue[i + 1] == queue[0]);
                    }
                }
                lemma_nothing_for_others((available - n) as nat, tail, active, later, first);
            } else {
                assert(queue[k] != queue[0]);
                assert(tail[k - 1] == queue[k]);
            }
        }
    }
}

proof fn lemma_place(queue: Seq<usize>, id: usize)
    ensures
        match place_of(queue, id) {
            Some(i) => 0 <= i < queue.len() && queue[i] == id && forall|j: int|
                0 <= j < i ==> #[trigger] queue[j] != id,
            None => !queue.contains(id),
        },
    decreases queue.len(),
{
    if queue.len() > 0 {
        let tail = queue.drop_first();
        lemma_place(tail, id);
        assert(forall|i: int| 1 <= i < queue.len() ==> #[trigger] queue[i] == tail[i - 1]);
        if queue[0] != id && place_of(tail, id) is None {
            if queue.contains(id) {
                let i = choose|i: int| 0 <= i < queue.len() && queue[i] == id;
                assert(tail[i - 1] == id);
            }
        }
    }
}

/// A download that leaves the queue is not in it any more, and the others stay in their
/// order.
pub proof fn law_who_leaves_the_queue_is_gone(queue: Seq<usize>, id: usize)
    requires
        queue.no_duplicates(),
    ensures
        !without(queue, id).contains(id),
        without(queue, id).no_duplicates(),
        forall|x: usize|
            x != id ==> (#[trigger] without(queue, id).contains(x) <==> queue.contains(x)),
        queue.contains(id) ==> exists|i: int|
            0 <= i < queue.len() && #[trigger] queue[i] == id && without(queue, id)
                == queue.subrange(0, i) + queue.subrange(i + 1, queue.len() as int),
        !queue.contains(id) ==> without(queue, id) == queue,
{
    lemma_place(queue, id);
    let after = without(queue, id);
    if let Some(i) = place_of(queue, id) {
        assert(queue[i] == id);
        assert(after =~= queue.subrange(0, i) + queue.subrange(i + 1, queue.len() as int));
        assert(!after.contains(id)) by {
            if after.contains(id) {
                let j = choose|j: int| 0 <= j < after.len() && after[j] == id;
                if j < i {
                    assert(queue[j] == id);
                } else {
                    assert(queue[j + 1] == id);
                }
            }
        }
        assert forall|x: usize| x != id implies (#[trigger] after.contains(x) <==> queue.contains(
            x,
        )) by {
            if after.contains(x) {
                let j = choose|j: int| 0 <= j < after.len() && after[j] == x;
                if j < i {
                    assert(queue[j] == x);
                } else {
                    assert(queue[j + 1] == x);
                }
            }
            if queue.contains(x) {
                let j = choose|j: int| 0 <= j < queue.len() && queue[j] == x;
                if j < i {
                    assert(after[j] == x);
                } else {
                    assert(after[j - 1] == x);
                }
            }
        }
        assert(after.no_duplicates()) by {
            assert forall|a: int, b: int|
                0 <= a < after.len() && 0 <= b < after.len() && a != b implies after[a]
                != after[b] by {
                let p = if a < i {
                    a
                } else {
                    a + 1
                };
                let q = if b < i {
                    b
                } else {
                    b + 1
                };
                assert(queue[p] != queue[q]);
            }
        }
        assert(queue.contains(id));
    }
}

/// The permits that are free, and those that are given out, are as many as were free
/// before: one more for one that comes back, unless it is withdrawn.
pub proof fn law_returned_permits_go_round(m: PermitModel, demands: Map<usize, usize>)
    ensures
        ({
            let (after, gifts) = host_step(m, HostMessage::PermitReleased, demands);
            if m.debt > 0 {
                after.debt == m.debt - 1 && after.available + gifts.len() == m.available
            } else {
                after.debt == 0 && after.available + gifts.len() == m.available + 1
            }
        }),
{
    law_no_permit_is_made(m.available, m.queue, m.active, demands);
    law_no_permit_is_made(m.available + 1, m.queue, m.active, demands);
}

/// A download that is queued is worked on, last in the queue, and shown; one that is taken
/// up again likewise, unless it is complete or worked on already, which ends the work with
/// the server. One that is paused or cancelled leaves the queue and gets nothing more; its
/// work is stopped if there is any, and one that is cancelled is cleaned up. One that is
/// finished leaves the queue, is shown, and its permits go round.
pub proof fn law_downloads_come_and_go(
    m: PermitModel,
    id: DownloadId,
    complete: bool,
    demands: Map<usize, usize>,
)
    requires
        m.queue.no_duplicates(),
    ensures
        ({
            let (after, out) = host_step(m, HostMessage::QueueDownload(id), demands);
            &&& after.queue == m.queue.push(id.0)
            &&& after.active == m.active.insert(id.0)
            &&& out.len() >= 2 && out[0] == HostAction::StartWork(id) && out[1]
                == HostAction::ShowAdded(id)
            &&& after.available + (out.len() - 2) == m.available
        }),
        ({
            let message = HostMessage::ResumeDownload { id, complete };
            let (after, out) = host_step(m, message, demands);
            if complete || m.active.contains(id.0) || m.queue.contains(id.0) {
                after == m && out == seq![HostAction::Stop]
            } else {
                &&& after.queue == m.queue.push(id.0)
                &&& after.active == m.active.insert(id.0)
                &&& out.len() >= 2 && out[0] == HostAction::StartWork(id) && out[1]
                    == HostAction::ShowInProgress(id)
                &&& after.available + (out.len() - 2) == m.available
            }
        }),
        ({
            let (after, out) = host_step(m, HostMessage::CancelDownload(id), demands);
            &&& !after.queue.contains(id.0) && !after.active.contains(id.0)
            &&& forall|x: usize|
                x != id.0 ==> (#[trigger] after.queue.contains(x) <==> m.queue.contains(x))
            &&& after.available == m.available
            &&& out == seq![HostAction::CleanUp { id, abort: m.active.contains(id.0) }]
        }),
        ({
            let (after, out) = host_step(m, HostMessage::PauseDownload(id), demands);
            &&& !after.queue.contains(id.0) && !after.active.contains(id.0)
            &&& forall|x: usize|
                x != id.0 ==> (#[trigger] after.queue.contains(x) <==> m.queue.contains(x))
            &&& after.available == m.available
            &&& m.active.contains(id.0) ==> out == seq![HostAction::PauseWork(id)]
            &&& !m.active.contains(id.0) ==> out.len() == 0
        }),
        ({
            let (after, out) = host_step(m, HostMessage::DownloadFinished(id), demands);
            &&& !after.queue.contains(id.0) && !after.active.contains(id.0)
            &&& forall|x: usize|
                x != id.0 ==> (#[trigger] after.queue.contains(x) <==> m.queue.contains(x))
            &&& out.len() >= 1 && out[0] == HostAction::ShowCompleted(id)
            &&& after.available + (out.len() - 1) == m.available
        }),
{
    law_who_leaves_the_queue_is_gone(m.queue, id.0);
    law_no_permit_is_made(m.available, m.queue.push(id.0), m.active.insert(id.0), demands);
    law_no_permit_is_made(
        m.available,
        without(m.queue, id.0),
        m.active.remove(id.0),
        demands,
    );
}

/// A server that wants a pause gets one of as many seconds as it says, or of five, and all
/// permits that are out are called back; when the pause is over, or permits are asked for,
/// those that are free go round.
pub proof fn law_servers_get_their_pauses(
    m: PermitModel,
    seconds: Option<u64>,
    demands: Map<usize, usize>,
)
    ensures
        ({
            let (after, out) = host_step(m, HostMessage::RateLimited(seconds), demands);
            &&& after.rate_limited
            &&& after.authority == m.authority + 1
            &&& after.available == m.available && after.queue == m.queue && after.active
                == m.active
            &&& out.len() == 1
            &&& seconds matches Some(n) ==> out[0] == HostAction::CallBack(n)
            &&& seconds is None ==> out[0] == HostAction::CallBack(5)
        }),
        ({
            let (after, out) = host_step(m, HostMessage::RateLimitLifted, demands);
            &&& !after.rate_limited
            &&& (after.available, out) == shared(m.available, m.queue, m.active, demands)
        }),
        ({
            let (after, out) = host_step(m, HostMessage::RequestPermits, demands);
            &&& after.rate_limited == m.rate_limited
            &&& !m.rate_limited ==> (after.available, out) == shared(
                m.available,
                m.queue,
                m.active,
                demands,
            )
            &&& m.rate_limited ==> after == m && out.len() == 0
        }),
{
}

/// A server that is worked with for the first time gets its own limit, which the settings
/// tell by its name; the limits of the other servers stay, and so do the settings.
pub proof fn law_new_servers_get_their_limits(
    m: NetworkModel,
    limiters: LimitersModel,
    host: HostModel,
    other: Seq<char>,
)
    ensures
        ({
            let (after, l, is_new) = m.asked(limiters, host);
            &&& after.settings == m.settings
            &&& l.global == limiters.global && l.downloads == limiters.downloads
            &&& is_new ==> l.hosts.contains_key(host.key()) && l.hosts[host.key()] == host_limiter(
                if m.settings.hosts.contains_key(host.text()) {
                    Some(m.settings.hosts[host.text()])
                } else {
                    None
                },
            )
            &&& !is_new ==> l == limiters
            &&& other != host.key() ==> (l.hosts.contains_key(other)
                <==> limiters.hosts.contains_key(other))
            &&& other != host.key() && limiters.hosts.contains_key(other) ==> l.hosts[other]
                == limiters.hosts[other]
            &&& other != host.key() ==> (after.hosts.contains_key(other) <==> m.hosts.contains_key(
                other,
            ))
        }),
{
}

/// For each URL it is told which server is meant, in the order of the URLs; a server is new
/// if it was not worked with before and no URL before this one means it.
pub proof fn law_each_url_is_answered(
    m: NetworkModel,
    limiters: LimitersModel,
    urls: Seq<String>,
)
    ensures
        ({
            let (after, _, out) = m.asked_all(limiters, urls);
            &&& out.len() == urls.len()
            &&& forall|i: int|
                0 <= i < urls.len() ==> (#[trigger] out[i]).0 == host_label(
                    urls[i]@,
                    host_of_url(urls[i]@),
                )
            &&& forall|i: int|
                0 <= i < urls.len() ==> ((#[trigger] out[i]).1 <==> !m.hosts.contains_key(
                    out[i].0.key(),
                ) && forall|j: int| 0 <= j < i ==> (#[trigger] out[j]).0.key() != out[i].0.key())
            &&& forall|key: Seq<char>| #[trigger]
                after.hosts.contains_key(key) <==> m.hosts.contains_key(key) || exists|i: int|
                    0 <= i < out.len() && (#[trigger] out[i]).0.key() == key
        }),
    decreases urls.len(),
{
    if urls.len() > 0 {
        let rest = urls.drop_last();
        law_each_url_is_answered(m, limiters, rest);
        let (was, l, before) = m.asked_all(limiters, rest);
        let (after, _, out) = m.asked_all(limiters, urls);
        let n = rest.len() as int;
        let last = out[n].0;
        assert(forall|i: int| 0 <= i < n ==> #[trigger] out[i] == before[i]);
        assert forall|i: int| 0 <= i < urls.len() implies (#[trigger] out[i]).0 == host_label(
            urls[i]@,
            host_of_url(urls[i]@),
        ) by {
            if i < n {
                assert(out[i] == before[i]);
                assert(rest[i] == urls[i]);
            }
        }
        assert forall|i: int| 0 <= i < urls.len() implies ((#[trigger] out[i]).1
            <==> !m.hosts.contains_key(out[i].0.key()) && forall|j: int|
            0 <= j < i ==> (#[trigger] out[j]).0.key() != out[i].0.key()) by {
            if i < n {
                assert(out[i] == before[i]);
                assert(forall|j: int| 0 <= j < i ==> #[trigger] out[j] == before[j]);
                if forall|j: int| 0 <= j < i ==> (#[trigger] out[j]).0.key() != out[i].0.key() {
                    assert forall|j: int| 0 <= j < i implies (#[trigger] before[j]).0.key()
                        != before[i].0.key() by {
                        assert(out[j] == before[j]);
                    }
                }
            } else {
                assert(out[i].1 == !was.hosts.contains_key(last.key()));
                if exists|j: int| 0 <= j < before.len() && (#[trigger] before[j]).0.key()
                    == last.key() {
                    let j = choose|j: int|
                        0 <= j < before.len() && (#[trigger] before[j]).0.key() == last.key();
                    assert(out[j].0.key() == last.key());
                }
                if !(forall|j: int| 0 <= j < i ==> (#[trigger] out[j]).0.key() != out[i].0.key()) {
                    let j = choose|j: int|
                        0 <= j < i && (#[trigger] out[j]).0.key() == out[i].0.key();
                    assert(before[j].0.key() == last.key());
                }
            }
        }
        assert forall|key: Seq<char>| #[trigger]
            after.hosts.contains_key(key) <==> m.hosts.contains_key(key) || exists|i: int|
                0 <= i < out.len() && (#[trigger] out[i]).0.key() == key by {
            assert(after.hosts.contains_key(key) <==> was.hosts.contains_key(key) || key
                == last.key());
            if was.hosts.contains_key(key) && !m.hosts.contains_key(key) {
                let i = choose|i: int|
                    0 <= i < before.len() && (#[trigger] before[i]).0.key() == key;
                assert(out[i].0.key() == key);
            }
            if key == last.key() {
                assert(out[n].0.key() == key);
            }
            if exists|i: int| 0 <= i < out.len() && (#[trigger] out[i]).0.key() == key {
                let i = choose|i: int| 0 <= i < out.len() && (#[trigger] out[i]).0.key() == key;
                if i < n {
                    assert(before[i].0.key() == key);
                }
            }
        }
    }
}

} // verus!
