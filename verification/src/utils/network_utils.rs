//! How fast bytes may come.
//!
//! Time is counted in microseconds from when the program began to count.

use vstd::prelude::*;

verus! {

/// Microseconds in a second.
pub const MICROS: u64 = 1_000_000;

/// A thousand years, in microseconds. Who waits for ever waits so long, as nothing can
/// wait longer.
pub const FOR_EVER: u64 = 31_536_000_000_000_000;

/// Microseconds in the numbers that clocks have.
pub open spec fn saturated(micros: u128) -> u64 {
    if micros > u64::MAX {
        u64::MAX
    } else {
        micros as u64
    }
}

/// Microseconds in the numbers that clocks have.
pub fn saturate(micros: u128) -> (r: u64)
    ensures
        r == saturated(micros),
{
    if micros > u64::MAX as u128 {
        u64::MAX
    } else {
        micros as u64
    }
}

/// The time until which there is a debt.
#[derive(Debug, Clone, Copy, PartialEq, Eq, Structural)]
pub struct DebtClock {
    pub clock: u64,
}

impl DebtClock {
    /// The clock when so much more is owed: it goes on from where it stands, or from
    /// now if that is past.
    pub open spec fn owing(self, now: u64, debt: u128) -> DebtClock {
        let base = if now > self.clock {
            now
        } else {
            self.clock
        };
        DebtClock { clock: saturated((base + saturated(debt)) as u128) }
    }

    /// What is left of the debt now.
    pub open spec fn owed(self, now: u64) -> Option<u64> {
        if self.clock > now {
            Some((self.clock - now) as u64)
        } else {
            None
        }
    }

    /// No debt.
    pub fn new() -> (r: Self)
        ensures
            r == (DebtClock { clock: 0 }),
    {
        DebtClock { clock: 0 }
    }

    /// So many microseconds more are owed.
    pub fn add_debt(&mut self, now: u64, debt: u128)
        ensures
            *final(self) == old(self).owing(now, debt),
    {
        let base: u64 = if now > self.clock {
            now
        } else {
            self.clock
        };
        let sum: u128 = base as u128 + saturate(debt) as u128;
        self.clock = saturate(sum);
    }

    /// What is left of the debt, in microseconds.
    pub fn get_debt(&self, now: u64) -> (r: Option<u64>)
        ensures
            r == self.owed(now),
    {
        if self.clock > now {
            Some(self.clock - now)
        } else {
            None
        }
    }

    /// Nothing is owed any more.
    pub fn clear_debt(&mut self)
        ensures
            *final(self) == (DebtClock { clock: 0 }),
    {
        self.clock = 0;
    }
}

impl Default for DebtClock {
    fn default() -> (r: Self)
        ensures
            r == (DebtClock { clock: 0 }),
    {
        DebtClock::new()
    }
}

/// Keeps bytes from coming faster than they may.
#[derive(Debug, Clone, Copy, PartialEq, Eq, Structural)]
pub struct BandwidthLimiter {
    pub bytes_per_second: u64,
    /// Bytes that came and are not worth a microsecond yet.
    pub leftover_bytes: u64,
    pub clock: DebtClock,
    pub unlimited: bool,
}

/// What some bytes cost, in microseconds.
pub open spec fn price(bytes: nat, limit: nat) -> nat {
    bytes * 1_000_000 / limit
}

/// How many bytes some microseconds pay for.
pub open spec fn paid_for(micros: nat, limit: nat) -> nat {
    micros * limit / 1_000_000
}

impl BandwidthLimiter {
    /// A limiter that has let nothing through.
    pub open spec fn fresh(bytes_per_second: u64) -> BandwidthLimiter {
        BandwidthLimiter {
            bytes_per_second,
            leftover_bytes: 0,
            clock: DebtClock { clock: 0 },
            unlimited: false,
        }
    }

    /// The limiter with another limit, and with nothing owed.
    pub open spec fn limited(self, bytes_per_second: u64) -> BandwidthLimiter {
        BandwidthLimiter {
            bytes_per_second,
            leftover_bytes: 0,
            clock: DebtClock { clock: 0 },
            ..self
        }
    }

    /// The limiter with its limit taken off, or put on again.
    pub open spec fn freed(self, is_unlimited: bool) -> BandwidthLimiter {
        if is_unlimited {
            BandwidthLimiter {
                leftover_bytes: 0,
                clock: DebtClock { clock: 0 },
                unlimited: true,
                ..self
            }
        } else {
            BandwidthLimiter { unlimited: false, ..self }
        }
    }

    /// The limiter with a limit, or with none.
    pub open spec fn applied(self, limit: Option<u64>) -> BandwidthLimiter {
        match limit {
            Some(n) => self.freed(false).limited(n),
            None => self.freed(true),
        }
    }

    /// Whether bytes cost anything here. Where nothing may come, nothing costs.
    pub open spec fn charges(self) -> bool {
        !self.unlimited && self.bytes_per_second != 0
    }

    /// What some bytes cost here, together with those that are not paid for yet.
    pub open spec fn cost(self, bytes: u64) -> nat {
        price((self.leftover_bytes + bytes) as nat, self.bytes_per_second as nat)
    }

    /// The bytes that are not paid for yet when some more have come.
    pub open spec fn left(self, bytes: u64) -> nat {
        (self.leftover_bytes + bytes - paid_for(
            self.cost(bytes),
            self.bytes_per_second as nat,
        )) as nat
    }

    /// The limiter when some bytes have come.
    pub open spec fn charged(self, now: u64, bytes: u64) -> BandwidthLimiter {
        if !self.charges() {
            self
        } else {
            let micros = self.cost(bytes) % 0x1_0000_0000_0000_0000;
            BandwidthLimiter {
                leftover_bytes: self.left(bytes) as u64,
                clock: if micros > 0 {
                    self.clock.owing(now, micros as u128)
                } else {
                    self.clock
                },
                ..self
            }
        }
    }

    /// How long nothing may come: for ever where nothing may, and not at all where
    /// everything may.
    pub open spec fn debt(self, now: u64) -> Option<u64> {
        if self.unlimited {
            None
        } else if self.bytes_per_second == 0 {
            Some(FOR_EVER)
        } else {
            self.clock.owed(now)
        }
    }

    /// A limiter that lets so many bytes through in a second.
    pub fn new(bytes_per_second: u64) -> (r: Self)
        ensures
            r == BandwidthLimiter::fresh(bytes_per_second),
    {
        BandwidthLimiter {
            bytes_per_second,
            leftover_bytes: 0,
            clock: DebtClock::new(),
            unlimited: false,
        }
    }

    /// From now on so many bytes may come in a second, and nothing is owed.
    pub fn set_limit(&mut self, bytes_per_second: u64)
        ensures
            *final(self) == old(self).limited(bytes_per_second),
    {
        self.bytes_per_second = bytes_per_second;
        self.leftover_bytes = 0;
        self.clock.clear_debt();
    }

    /// How many bytes may come in a second.
    pub fn get_limit(&self) -> (r: u64)
        ensures
            r == self.bytes_per_second,
    {
        self.bytes_per_second
    }

    /// From now on everything may come, or no more than the limit.
    pub fn set_unlimited(&mut self, is_unlimited: bool)
        ensures
            *final(self) == old(self).freed(is_unlimited),
    {
        self.unlimited = is_unlimited;
        if is_unlimited {
            self.leftover_bytes = 0;
            self.clock.clear_debt();
        }
    }

    /// Whether everything may come.
    pub fn is_unlimited(&self) -> (r: bool)
        ensures
            r == self.unlimited,
    {
        self.unlimited
    }

    /// From now on the limit is this one, or there is none.
    pub fn apply(&mut self, limit: Option<u64>)
        ensures
            *final(self) == old(self).applied(limit),
    {
        match limit {
            Some(n) => {
                self.set_unlimited(false);
                self.set_limit(n);
            },
            None => {
                self.set_unlimited(true);
            },
        }
    }

    /// Some bytes have come.
    pub fn register_bytes(&mut self, now: u64, bytes: u64)
        ensures
            *final(self) == old(self).charged(now, bytes),
    {
        let limit: u64 = self.bytes_per_second;
        if self.unlimited || limit == 0 {
            return;
        }
        let total: u128 = self.leftover_bytes as u128 + bytes as u128;
        let cost: u128 = (total * 1_000_000) / limit as u128;
        proof {
            lemma_prices(total as nat, limit as nat);
        }
        let paid: u128 = (cost * (limit as u128)) / 1_000_000;
        let left: u128 = total - paid;
        self.leftover_bytes = left as u64;
        let micros: u64 = #[verifier::truncate] (cost as u64);
        assert(micros == cost % 0x1_0000_0000_0000_0000) by (bit_vector)
            requires
                micros == cost as u64,
        ;
        if micros > 0 {
            self.clock.add_debt(now, micros as u128);
        }
    }

    /// How long nothing may come, in microseconds.
    pub fn get_debt(&self, now: u64) -> (r: Option<u64>)
        ensures
            r == self.debt(now),
    {
        if self.unlimited {
            return None;
        }
        if self.bytes_per_second == 0 {
            return Some(FOR_EVER);
        }
        self.clock.get_debt(now)
    }
}

/// What is paid for is never more than what came, and what is left over is worth less
/// than two microseconds or is a single byte.
pub proof fn lemma_prices(total: nat, limit: nat)
    requires
        limit > 0,
        limit <= u64::MAX,
        total <= 2 * u64::MAX,
    ensures
        price(total, limit) * limit <= total * 1_000_000,
        total * 1_000_000 < price(total, limit) * limit + limit,
        paid_for(price(total, limit), limit) <= total,
        paid_for(price(total, limit), limit) * 1_000_000 <= price(total, limit) * limit,
        (total - paid_for(price(total, limit), limit)) * 1_000_000 < limit + 1_000_000,
        total - paid_for(price(total, limit), limit) <= u64::MAX,
{
    let t = total * 1_000_000;
    let cost = price(total, limit);
    vstd::arithmetic::div_mod::lemma_fundamental_div_mod(t as int, limit as int);
    vstd::arithmetic::div_mod::lemma_mod_bound(t as int, limit as int);
    vstd::arithmetic::mul::lemma_mul_is_commutative(limit as int, cost as int);
    let worth = cost * limit;
    let paid = paid_for(cost, limit);
    vstd::arithmetic::div_mod::lemma_fundamental_div_mod(worth as int, 1_000_000);
    vstd::arithmetic::div_mod::lemma_mod_bound(worth as int, 1_000_000);
    assert(paid * 1_000_000 <= worth);
    assert(worth < paid * 1_000_000 + 1_000_000);
}

/// What all the bytes of a stream cost, when each part comes right after the other, and
/// what is left unpaid.
pub open spec fn all_costs(limiter: BandwidthLimiter, parts: Seq<u64>) -> (nat, BandwidthLimiter)
    decreases parts.len(),
{
    if parts.len() == 0 {
        (0, limiter)
    } else {
        let (before, l) = all_costs(limiter, parts.drop_last());
        (before + l.cost(parts.last()), l.charged(0, parts.last()))
    }
}

/// How many bytes come in a stream.
pub open spec fn all_bytes(parts: Seq<u64>) -> nat
    decreases parts.len(),
{
    if parts.len() == 0 {
        0
    } else {
        all_bytes(parts.drop_last()) + parts.last() as nat
    }
}

/// Every byte is paid for once: what came is what was paid for and what is left over.
pub proof fn law_every_byte_is_paid_once(limiter: BandwidthLimiter, now: u64, bytes: u64)
    requires
        limiter.charges(),
    ensures
        limiter.charged(now, bytes).leftover_bytes + paid_for(
            limiter.cost(bytes),
            limiter.bytes_per_second as nat,
        ) == limiter.leftover_bytes + bytes,
{
    lemma_prices((limiter.leftover_bytes + bytes) as nat, limiter.bytes_per_second as nat);
}

/// The limit is kept however the bytes of a stream are split: at the limit, the time
/// that they cost is enough for all of them but those that are left over, and those
/// are worth less than two microseconds or are a single byte.
pub proof fn law_the_limit_is_kept(limiter: BandwidthLimiter, parts: Seq<u64>)
    requires
        limiter.charges(),
        limiter.leftover_bytes == 0,
    ensures
        ({
            let (micros, end) = all_costs(limiter, parts);
            let limit = limiter.bytes_per_second;
            &&& end.bytes_per_second == limit
            &&& end.leftover_bytes <= all_bytes(parts)
            &&& (all_bytes(parts) - end.leftover_bytes) * 1_000_000 <= micros * limit
            &&& end.leftover_bytes * 1_000_000 < limit + 1_000_000
        }),
    decreases parts.len(),
{
    if parts.len() > 0 {
        law_the_limit_is_kept(limiter, parts.drop_last());
        let (before, l) = all_costs(limiter, parts.drop_last());
        let bytes = parts.last();
        let limit = limiter.bytes_per_second as nat;
        lemma_charges(limiter, parts.drop_last());
        lemma_prices((l.leftover_bytes + bytes) as nat, limit);
        let cost = l.cost(bytes);
        assert((before + cost) * limit == before * limit + cost * limit) by (nonlinear_arith);
    }
}

proof fn lemma_charges(limiter: BandwidthLimiter, parts: Seq<u64>)
    requires
        limiter.charges(),
    ensures
        all_costs(limiter, parts).1.charges(),
        all_costs(limiter, parts).1.bytes_per_second == limiter.bytes_per_second,
    decreases parts.len(),
{
    if parts.len() > 0 {
        lemma_charges(limiter, parts.drop_last());
    }
}

/// A debt that is taken on is owed for as long as it is, and then no more.
pub proof fn law_debts_run_off(clock: DebtClock, now: u64, debt: u64, later: u64)
    requires
        debt > 0,
        now <= later,
        clock.clock + debt <= u64::MAX,
        now + debt <= u64::MAX,
    ensures
        ({
            let after = clock.owing(now, debt as u128);
            &&& after.owed(now).is_some()
            &&& after.owed(now)->0 == match clock.owed(now) {
                Some(before) => before + debt,
                None => debt as int,
            }
            &&& after.owed(later).is_some() <==> later - now < after.owed(now)->0
        }),
{
}

/// The greatest of some debts, or zero.
pub open spec fn greatest_of(debts: Seq<Option<u64>>) -> u64
    decreases debts.len(),
{
    if debts.len() == 0 {
        0
    } else {
        let before = greatest_of(debts.drop_last());
        match debts.last() {
            Some(debt) => if debt > before {
                debt
            } else {
                before
            },
            None => before,
        }
    }
}

/// The greatest of some debts: by the time that it has run off, so have all the others.
pub fn greatest_debt(debts: &Vec<Option<u64>>) -> (r: u64)
    ensures
        r == greatest_of(debts@),
{
    let mut r: u64 = 0;
    let n: usize = debts.len();
    let mut i: usize = 0;
    assert(debts@.take(0) =~= Seq::<Option<u64>>::empty());
    while i < n
        invariant
            i <= n,
            n == debts@.len(),
            r == greatest_of(debts@.take(i as int)),
        decreases n - i,
    {
        proof {
            assert(debts@.take(i + 1).drop_last() =~= debts@.take(i as int));
            assert(debts@.take(i + 1).last() == debts@[i as int]);
        }
        if let Some(debt) = debts[i] {
            if debt > r {
                r = debt;
            }
        }
        i += 1;
    }
    assert(debts@.take(n as int) =~= debts@);
    r
}

/// When the next bytes of a stream may be read.
#[derive(Debug, Clone, Copy, PartialEq, Eq, Structural)]
pub struct ThrottledStream {
    pub sleep: u64,
}

/// So much later, or as late as clocks go.
pub open spec fn later(now: u64, debt: u64) -> u64 {
    saturated((now + debt) as u128)
}

impl ThrottledStream {
    /// A stream that may be read at once.
    pub fn new(now: u64) -> (r: Self)
        ensures
            r.sleep == now,
    {
        ThrottledStream { sleep: now }
    }

    /// A limit changed. The stream wakes when nothing is owed under the limits that
    /// hold now, which may be sooner or later than it was.
    pub fn settings_changed(&mut self, now: u64, debts: &Vec<Option<u64>>)
        ensures
            final(self).sleep == later(now, greatest_of(debts@)),
    {
        self.sleep = saturate(now as u128 + greatest_debt(debts) as u128);
    }

    /// Whether the stream may be read now.
    pub fn is_ready(&self, now: u64) -> (r: bool)
        ensures
            r == (self.sleep <= now),
    {
        self.sleep <= now
    }

    /// Bytes were read, and so much is owed for them. What was read is handed on in
    /// any case; the next bytes wait until nothing is owed.
    pub fn read(&mut self, now: u64, bytes_read: usize, debts: &Vec<Option<u64>>)
        ensures
            final(self).sleep == if bytes_read == 0 || greatest_of(debts@) == 0 {
                old(self).sleep
            } else {
                later(now, greatest_of(debts@))
            },
    {
        if bytes_read == 0 {
            return;
        }
        let debt: u64 = greatest_debt(debts);
        if debt == 0 {
            return;
        }
        self.sleep = saturate(now as u128 + debt as u128);
    }
}

/// The greatest debt is one of the debts, and no debt is greater.
pub proof fn law_the_greatest_debt_counts(debts: Seq<Option<u64>>, i: int)
    requires
        0 <= i < debts.len(),
    ensures
        debts[i].is_some() ==> debts[i]->0 <= greatest_of(debts),
        greatest_of(debts) > 0 ==> debts.contains(Some(greatest_of(debts))),
    decreases debts.len(),
{
    let last = debts.len() - 1;
    reveal_with_fuel(greatest_of, 2);
    if debts.len() > 1 {
        law_the_greatest_debt_counts(debts.drop_last(), if i < last {
            i
        } else {
            0
        });
    }
    if greatest_of(debts) > 0 {
        if debts.last() == Some(greatest_of(debts)) {
            assert(debts[last] == Some(greatest_of(debts)));
        } else {
            let j = choose|j: int|
                0 <= j < debts.drop_last().len() && debts.drop_last()[j] == Some(
                    greatest_of(debts),
                );
            assert(debts[j] == Some(greatest_of(debts)));
        }
    }
}

} // verus!
