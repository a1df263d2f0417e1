//! Large numbers as byte strings.

use vstd::prelude::*;

verus! {

/// The number that bytes stand for, the highest first.
pub open spec fn be_value(bytes: Seq<u8>) -> nat
    decreases bytes.len(),
{
    if bytes.len() == 0 {
        0
    } else {
        be_value(bytes.drop_last()) * 256 + bytes.last() as nat
    }
}

/// The lowest `n` bytes of a number, the highest first.
pub open spec fn be_digits(v: nat, n: nat) -> Seq<u8>
    decreases n,
{
    if n == 0 {
        Seq::empty()
    } else {
        be_digits(v / 256, (n - 1) as nat).push((v % 256) as u8)
    }
}

/// How many numbers `n` bytes can tell apart.
pub open spec fn span_of(n: nat) -> nat
    decreases n,
{
    if n == 0 {
        1
    } else {
        256 * span_of((n - 1) as nat)
    }
}

/// What sixteen bytes can hold is what a `u128` can.
pub proof fn lemma_span_of_u128()
    ensures
        span_of(16) == u128::MAX + 1,
{
    reveal_with_fuel(span_of, 17);
}

/// Bytes stand for a number below their span.
pub proof fn lemma_be_value_bound(bytes: Seq<u8>)
    ensures
        be_value(bytes) < span_of(bytes.len()),
    decreases bytes.len(),
{
    if bytes.len() > 0 {
        lemma_be_value_bound(bytes.drop_last());
    }
}

/// A number that fits reads back from its bytes.
pub proof fn lemma_be_round_trip(v: nat, n: nat)
    requires
        v < span_of(n),
    ensures
        be_value(be_digits(v, n)) == v,
        be_digits(v, n).len() == n,
    decreases n,
{
    if n > 0 {
        lemma_be_round_trip(v / 256, (n - 1) as nat);
        assert(be_digits(v, n).drop_last() =~= be_digits(v / 256, (n - 1) as nat));
    }
}

/// The number that the first sixteen bytes stand for, the highest first.
pub fn u128_from_be(bytes: &Vec<u8>) -> (r: u128)
    requires
        bytes@.len() >= 16,
    ensures
        r as nat == be_value(bytes@.take(16)),
{
    let mut r: u128 = 0;
    let mut i: usize = 0;
    assert(bytes@.take(0) =~= Seq::<u8>::empty());
    while i < 16
        invariant
            i <= 16,
            bytes@.len() >= 16,
            r as nat == be_value(bytes@.take(i as int)),
        decreases 16 - i,
    {
        proof {
            assert(bytes@.take(i + 1).drop_last() =~= bytes@.take(i as int));
            lemma_be_value_bound(bytes@.take(i + 1));
            lemma_span_grows((i + 1) as nat, 16);
            lemma_span_of_u128();
        }
        r = r * 256 + bytes[i] as u128;
        i += 1;
    }
    r
}

proof fn lemma_span_grows(a: nat, b: nat)
    requires
        a <= b,
    ensures
        span_of(a) <= span_of(b),
    decreases b,
{
    if a < b {
        lemma_span_grows(a, (b - 1) as nat);
    }
}

/// The sixteen bytes of a number, the highest first.
pub fn u128_to_be(v: u128) -> (r: Vec<u8>)
    ensures
        r@ == be_digits(v as nat, 16),
{
    digits(v, 16)
}

fn digits(v: u128, n: usize) -> (r: Vec<u8>)
    ensures
        r@ == be_digits(v as nat, n as nat),
    decreases n,
{
    if n == 0 {
        Vec::new()
    } else {
        let mut r = digits(v / 256, n - 1);
        r.push((v % 256) as u8);
        r
    }
}

/// The number that sixteen bytes stand for, the lowest first.
pub open spec fn le_value(bytes: Seq<u8>) -> nat {
    be_value(bytes.reverse())
}

/// The number that sixteen bytes stand for, the lowest first.
pub fn u128_from_le(bytes: &[u8; 16]) -> (r: u128)
    ensures
        r as nat == le_value(bytes@),
{
    let mut turned: Vec<u8> = Vec::new();
    let mut i: usize = 16;
    while i > 0
        invariant
            i <= 16,
            turned@.len() == 16 - i,
            forall|k: int| 0 <= k < turned@.len() ==> turned@[k] == bytes@[15 - k],
        decreases i,
    {
        i -= 1;
        turned.push(bytes[i]);
    }
    assert(turned@.take(16) =~= bytes@.reverse());
    u128_from_be(&turned)
}

/// A number reads back from the bytes that it is stored as.
pub proof fn law_stored_number_reads_back(v: u128)
    ensures
        be_digits(v as nat, 16).len() == 16,
        be_value(be_digits(v as nat, 16).take(16)) == v,
{
    lemma_span_of_u128();
    lemma_be_round_trip(v as nat, 16);
    assert(be_digits(v as nat, 16).take(16) =~= be_digits(v as nat, 16));
}

} // verus!
