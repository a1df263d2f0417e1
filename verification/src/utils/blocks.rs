//! Which blocks of a file are on disk.

use bitvec::order::Msb0;
use bitvec::vec::BitVec;
use vstd::prelude::*;

verus! {

/// One bit for each block, in a bit vector of the `bitvec` crate whose first bit
/// is the highest of the first byte.
#[verifier::external_body]
pub struct Blocks {
    inner: BitVec<u8, Msb0>,
}

/// The bits that a set of blocks holds, in order.
pub uninterp spec fn block_bits(b: Blocks) -> Seq<bool>;

/// The bits of a byte string, the highest bit of each byte first.
pub open spec fn bits_of_bytes(bytes: Seq<u8>) -> Seq<bool> {
    Seq::new(
        8 * bytes.len(),
        |i: int| (bytes[i / 8] >> ((7 - i % 8) as u8)) & 1 == 1,
    )
}

/// How many of the bits are set.
pub open spec fn ones(bits: Seq<bool>) -> nat
    decreases bits.len(),
{
    if bits.len() == 0 {
        0
    } else {
        ones(bits.drop_last()) + if bits.last() {
            1nat
        } else {
            0nat
        }
    }
}

impl View for Blocks {
    type V = Seq<bool>;

    open spec fn view(&self) -> Seq<bool> {
        block_bits(*self)
    }
}

impl Blocks {
    /// `BitVec::new`: no bits.
    #[verifier::external_body]
    pub(crate) fn new() -> (r: Self)
        ensures
            block_bits(r) == Seq::<bool>::empty(),
    {
        Blocks { inner: BitVec::new() }
    }

    /// `BitVec::from_vec`: the bits of the bytes, eight for each. The crate holds
    /// an eighth of the address space in bits, and more is not taken.
    #[verifier::external_body]
    pub(crate) fn from_raw(bytes: Vec<u8>) -> (r: Self)
        requires
            8 * bytes@.len() <= usize::MAX / 8,
        ensures
            block_bits(r) == bits_of_bytes(bytes@),
    {
        Blocks { inner: BitVec::from_vec(bytes) }
    }

    /// `BitVec::as_raw_slice`: the bytes that hold the bits, as many as the bits
    /// need. What stands behind the last bit in the last byte is left open.
    #[verifier::external_body]
    pub(crate) fn raw_bytes(&self) -> (r: Vec<u8>)
        ensures
            r@.len() == (block_bits(*self).len() + 7) / 8,
            bits_of_bytes(r@).take(block_bits(*self).len() as int) == block_bits(*self),
    {
        self.inner.as_raw_slice().to_vec()
    }

    /// `BitVec::truncate`: only the first `n` bits stay, where there are more.
    #[verifier::external_body]
    pub(crate) fn truncate(&mut self, n: usize)
        ensures
            block_bits(*final(self)) == if n < block_bits(*old(self)).len() {
                block_bits(*old(self)).take(n as int)
            } else {
                block_bits(*old(self))
            },
    {
        self.inner.truncate(n);
    }

    /// `BitVec::resize`: cut to `n` bits, or filled up to `n` with `value`. More
    /// than an eighth of the address space is not taken.
    #[verifier::external_body]
    pub(crate) fn resize(&mut self, n: usize, value: bool)
        requires
            n <= usize::MAX / 8,
        ensures
            block_bits(*final(self)) == Seq::new(
                n as nat,
                |i: int|
                    if i < block_bits(*old(self)).len() {
                        block_bits(*old(self))[i]
                    } else {
                        value
                    },
            ),
    {
        self.inner.resize(n, value);
    }

    /// `BitSlice::len`: the number of bits.
    #[verifier::external_body]
    fn bit_len(&self) -> (n: usize)
        ensures
            n as nat == block_bits(*self).len(),
    {
        self.inner.len()
    }

    /// `BitSlice` indexing: the bit at a place. Past the end it panics.
    #[verifier::external_body]
    fn bit_at(&self, i: usize) -> (r: bool)
        requires
            i < block_bits(*self).len(),
        ensures
            r == block_bits(*self)[i as int],
    {
        self.inner[i]
    }

    /// `BitSlice::set`: writes one bit. Past the end it panics.
    #[verifier::external_body]
    pub(crate) fn set(&mut self, i: usize, value: bool)
        requires
            i < block_bits(*old(self)).len(),
        ensures
            block_bits(*final(self)) == block_bits(*old(self)).update(i as int, value),
    {
        self.inner.set(i, value);
    }

    /// `BitSlice::first_zero` on the bits from `from` on: the distance to the first
    /// of them that is not set. Past the end the slice panics.
    #[verifier::external_body]
    pub(crate) fn first_zero_from(&self, from: usize) -> (r: Option<usize>)
        requires
            from <= block_bits(*self).len(),
        ensures
            match r {
                Some(d) => from + d < block_bits(*self).len() && !block_bits(*self)[from + d]
                    && forall|i: int| from <= i < from + d ==> block_bits(*self)[i],
                None => forall|i: int|
                    from <= i < block_bits(*self).len() ==> block_bits(*self)[i],
            },
    {
        self.inner[from..].first_zero()
    }

    /// `BitSlice::first_one` on the bits from `from` up to `to`: the distance to
    /// the first of them that is set. Past the end the slice panics.
    #[verifier::external_body]
    pub(crate) fn first_one_between(&self, from: usize, to: usize) -> (r: Option<usize>)
        requires
            from <= to <= block_bits(*self).len(),
        ensures
            match r {
                Some(d) => from + d < to && block_bits(*self)[from + d] && forall|i: int|
                    from <= i < from + d ==> !block_bits(*self)[i],
                None => forall|i: int| from <= i < to ==> !block_bits(*self)[i],
            },
    {
        self.inner[from..to].first_one()
    }

    /// `BitSlice::count_ones`: how many bits are set.
    #[verifier::external_body]
    pub(crate) fn count_ones(&self) -> (n: usize)
        ensures
            n as nat == ones(block_bits(*self)),
    {
        self.inner.count_ones()
    }

    /// `BitSlice::all`: whether every bit is set, which holds of no bits too.
    #[verifier::external_body]
    pub(crate) fn all(&self) -> (r: bool)
        ensures
            r == forall|i: int| 0 <= i < block_bits(*self).len() ==> block_bits(*self)[i],
    {
        self.inner.all()
    }

    /// The number of blocks.
    pub fn len(&self) -> (n: usize)
        ensures
            n as nat == self@.len(),
    {
        self.bit_len()
    }

    /// Whether a block is on disk; there is none past the end.
    pub fn get(&self, i: usize) -> (r: Option<bool>)
        ensures
            r == if i < self@.len() {
                Some(self@[i as int])
            } else {
                None
            },
    {
        if i < self.bit_len() {
            Some(self.bit_at(i))
        } else {
            None
        }
    }
}

} // verus!
