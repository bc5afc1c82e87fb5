//! A bitmap allocator, for benchmarking the checker end to end.
//!
//! A 16-bit leaf allocates single bits; cascades of sixteen children build
//! the larger maps as a segment tree whose summary word marks which child
//! still has free bits.  Every operation is specified against the flat
//! sequence of bits, where `true` means available.

use vstd::prelude::*;

verus! {

use vstd::std_specs::bits::u16_trailing_zeros;
use vstd::std_specs::bits::axiom_u16_trailing_zeros;

/// Bit `i` of a 16-bit word.
pub open spec fn u16_bit(x: u16, i: int) -> bool
    recommends
        0 <= i < 16,
{
    (x >> (i as u16)) & 1u16 == 1u16
}

/// Extracting and setting bits and bit ranges of a word.
pub trait BitField: Sized {
    /// The number of bits of the word.
    spec fn width() -> nat;

    /// The bit at index `i`; index 0 is the least significant bit.
    spec fn bit_at(&self, i: int) -> bool;

    /// The number of bits of the word.
    fn bit_length() -> (r: usize)
        ensures
            r == Self::width(),
    ;

    /// The bit at index `bit`.
    fn get_bit(&self, bit: usize) -> (r: bool)
        requires
            bit < Self::width(),
        ensures
            r == self.bit_at(bit as int),
    ;

    /// The bits of `range`, moved down to the low end of the result.
    fn get_bits(&self, range: core::ops::Range<usize>) -> (r: Self)
        requires
            range.start < Self::width(),
            range.end <= Self::width(),
            range.start < range.end,
        ensures
            forall|i: int|
                0 <= i < range.end - range.start ==> r.bit_at(i) == self.bit_at(
                    range.start + i,
                ),
            forall|i: int| range.end - range.start <= i < Self::width() ==> !r.bit_at(i),
    ;

    /// Set the bit at index `bit`.
    fn set_bit(&mut self, bit: usize, value: bool)
        requires
            bit < Self::width(),
        ensures
            forall|i: int|
                0 <= i < Self::width() ==> final(self).bit_at(i) == if i == bit {
                    value
                } else {
                    old(self).bit_at(i)
                },
    ;

    /// Set the bits of `range` from the low bits of `value`; the bits of
    /// `value` above the range width must be clear.
    fn set_bits(&mut self, range: core::ops::Range<usize>, value: Self)
        requires
            range.start < Self::width(),
            range.end <= Self::width(),
            range.start < range.end,
            forall|i: int| range.end - range.start <= i < Self::width() ==> !value.bit_at(i),
        ensures
            forall|i: int|
                0 <= i < Self::width() ==> final(self).bit_at(i) == if range.start <= i
                    < range.end {
                    value.bit_at(i - range.start)
                } else {
                    old(self).bit_at(i)
                },
    ;
}

/// One bit of an or-with-mask word.
proof fn lemma_or_bit_one(o: u16, k: u16, j: u16)
    requires
        k < 16,
        j < 16,
    ensures
        (((o | (1u16 << k)) >> j) & 1u16 == 1u16) == (j == k || ((o >> j) & 1u16 == 1u16)),
{
    assert((((o | (1u16 << k)) >> j) & 1u16 == 1u16) == (j == k || ((o >> j) & 1u16 == 1u16)))
        by (bit_vector)
        requires
            k < 16,
            j < 16,
    ;
}

/// Setting a bit by or: every other bit is kept.
pub proof fn lemma_or_bit(o: u16, k: u16)
    requires
        k < 16,
    ensures
        forall|i: int|
            0 <= i < 16 ==> (#[trigger] u16_bit(o | (1u16 << k), i)) == (i == k || u16_bit(o, i)),
{
    assert forall|i: int|
        0 <= i < 16 implies (#[trigger] u16_bit(o | (1u16 << k), i)) == (i == k || u16_bit(
        o,
        i,
    )) by {
        lemma_or_bit_one(o, k, i as u16);
        assert((i as u16) as int == i);
        assert(((i as u16) == k) == (i == k));
        assert(u16_bit(o | (1u16 << k), i) == (((o | (1u16 << k)) >> (i as u16)) & 1u16
            == 1u16));
        assert(u16_bit(o, i) == (((o >> (i as u16)) & 1u16) == 1u16));
    }
}

/// One bit of an and-with-negated-mask word.
proof fn lemma_and_not_bit_one(o: u16, k: u16, j: u16)
    requires
        k < 16,
        j < 16,
    ensures
        (((o & !(1u16 << k)) >> j) & 1u16 == 1u16) == (j != k && ((o >> j) & 1u16 == 1u16)),
{
    assert((((o & !(1u16 << k)) >> j) & 1u16 == 1u16) == (j != k && ((o >> j) & 1u16 == 1u16)))
        by (bit_vector)
        requires
            k < 16,
            j < 16,
    ;
}

/// Clearing a bit by masked and: every other bit is kept.
pub proof fn lemma_and_not_bit(o: u16, k: u16)
    requires
        k < 16,
    ensures
        forall|i: int|
            0 <= i < 16 ==> (#[trigger] u16_bit(o & !(1u16 << k), i)) == (i != k && u16_bit(
                o,
                i,
            )),
{
    assert forall|i: int|
        0 <= i < 16 implies (#[trigger] u16_bit(o & !(1u16 << k), i)) == (i != k && u16_bit(
        o,
        i,
    )) by {
        lemma_and_not_bit_one(o, k, i as u16);
        assert((i as u16) as int == i);
        assert(((i as u16) == k) == (i == k));
        assert(u16_bit(o & !(1u16 << k), i) == (((o & !(1u16 << k)) >> (i as u16)) & 1u16
            == 1u16));
        assert(u16_bit(o, i) == (((o >> (i as u16)) & 1u16) == 1u16));
    }
}

/// Testing a bit by mask agrees with the bit projection.
pub proof fn lemma_test_bit(s: u16, k: u16)
    requires
        k < 16,
    ensures
        ((s & (1u16 << k)) != 0) == u16_bit(s, k as int),
{
    assert(((s & (1u16 << k)) != 0) == ((s >> k) & 1u16 == 1u16)) by (bit_vector)
        requires
            k < 16,
    ;
}

/// The zero word has no set bit.
pub proof fn lemma_zero_bit(j: u16)
    requires
        j < 16,
    ensures
        !u16_bit(0u16, j as int),
{
    assert(!((0u16 >> j) & 1u16 == 1u16)) by (bit_vector);
}

/// A word is nonzero exactly when some bit of it is set.
pub proof fn lemma_nonzero_bit(s: u16)
    ensures
        (s != 0) == exists|i: int| 0 <= i < 16 && u16_bit(s, i),
{
    if s != 0 {
        lemma_lowest_bit(s);
        let t = u16_trailing_zeros(s) as int;
        assert(u16_bit(s, t));
    } else {
        if exists|i: int| 0 <= i < 16 && u16_bit(s, i) {
            let w = choose|i: int| 0 <= i < 16 && u16_bit(s, i);
            lemma_zero_bit(w as u16);
        }
    }
}

/// The trailing-zero count of a nonzero word is its least set bit.
pub proof fn lemma_lowest_bit(s: u16)
    requires
        s != 0,
    ensures
        0 <= u16_trailing_zeros(s) < 16,
        u16_bit(s, u16_trailing_zeros(s) as int),
        forall|j: int| 0 <= j < u16_trailing_zeros(s) ==> !u16_bit(s, j),
{
    axiom_u16_trailing_zeros(s);
    assert forall|j: int| 0 <= j < u16_trailing_zeros(s) implies !u16_bit(s, j) by {
        let j16 = j as u16;
        assert((s >> j16) & 1u16 == 0u16);
        assert(((s >> j16) & 1u16 == 0u16) ==> !((s >> j16) & 1u16 == 1u16)) by (bit_vector);
    }
}

impl BitField for u16 {
    /// The word has 16 bits.
    open spec fn width() -> nat {
        16
    }

    /// The bit at index `i`.
    open spec fn bit_at(&self, i: int) -> bool {
        u16_bit(*self, i)
    }

    fn bit_length() -> (r: usize) {
        16
    }

    fn get_bit(&self, bit: usize) -> (r: bool) {
        proof {
            lemma_test_bit(*self, bit as u16);
        }
        (*self & (1u16 << (bit as u16))) != 0
    }

    fn get_bits(&self, range: core::ops::Range<usize>) -> (r: u16) {
        let mut r: u16 = 0;
        let mut i: usize = range.start;
        proof {
            assert forall|j: int| 0 <= j < 16 implies !u16_bit(0u16, j) by {
                lemma_zero_bit(j as u16);
            }
        }
        while i < range.end
            invariant
                range.start <= i <= range.end,
                range.start < 16,
                range.end <= 16,
                forall|j: int|
                    0 <= j < i - range.start ==> u16_bit(r, j) == u16_bit(*self, range.start + j),
                forall|j: int| i - range.start <= j < 16 ==> !u16_bit(r, j),
            decreases range.end - i,
        {
            let b = self.get_bit(i);
            let ghost old_r = r;
            let k = i - range.start;
            if b {
                r = r | (1u16 << (k as u16));
                proof {
                    lemma_or_bit(old_r, k as u16);
                }
            }
            i += 1;
        }
        r
    }

    fn set_bit(&mut self, bit: usize, value: bool) {
        let ghost o = *self;
        if value {
            *self = *self | (1u16 << (bit as u16));
            proof {
                lemma_or_bit(o, bit as u16);
            }
        } else {
            *self = *self & !(1u16 << (bit as u16));
            proof {
                lemma_and_not_bit(o, bit as u16);
            }
        }
    }

    fn set_bits(&mut self, range: core::ops::Range<usize>, value: u16) {
        let mut i: usize = range.start;
        let ghost o = *self;
        while i < range.end
            invariant
                range.start <= i <= range.end,
                range.start < 16,
                range.end <= 16,
                forall|j: int| range.end - range.start <= j < 16 ==> !value.bit_at(j),
                forall|j: int|
                    0 <= j < 16 ==> (*self).bit_at(j) == if range.start <= j < i {
                        value.bit_at(j - range.start)
                    } else {
                        o.bit_at(j)
                    },
            decreases range.end - i,
        {
            let ghost pre = *self;
            let b = value.get_bit(i - range.start);
            self.set_bit(i, b);
            proof {
                assert forall|j: int|
                    0 <= j < 16 implies (*self).bit_at(j) == if range.start <= j < i + 1 {
                    value.bit_at(j - range.start)
                } else {
                    o.bit_at(j)
                } by {
                    assert((*self).bit_at(j) == if j == i {
                        b
                    } else {
                        pre.bit_at(j)
                    });
                }
            }
            i += 1;
        }
    }
}

/// Two to the power `n`.
pub open spec fn pow2(n: nat) -> nat
    decreases n,
{
    if n == 0 {
        1
    } else {
        2 * pow2((n - 1) as nat)
    }
}

/// An allocator of a bitmap: able to allocate and free bits.  The value of
/// an allocator is its sequence of bits, `true` meaning available.
pub trait BitAlloc: Sized {
    /// The total number of bits.
    spec fn cap() -> nat;

    /// The bits, `true` meaning available.
    spec fn free_bits(&self) -> Seq<bool>;

    /// Well-formedness of the representation.
    spec fn wf(&self) -> bool;

    /// A well-formed allocator has exactly `cap` bits, and `cap` is a
    /// positive multiple of sixteen.
    proof fn lemma_wf_len(&self)
        requires
            self.wf(),
        ensures
            self.free_bits().len() == Self::cap(),
            Self::cap() >= 16,
            Self::cap() % 16 == 0,
    ;

    /// The total number of bits.
    fn capacity() -> (r: usize)
        requires
            Self::cap() <= usize::MAX,
        ensures
            r == Self::cap(),
    ;

    /// The allocator with every bit unavailable.
    fn empty() -> (r: Self)
        ensures
            r.wf(),
            forall|i: int| 0 <= i < Self::cap() ==> !r.free_bits()[i],
    ;

    /// The raw words of the bitmap, low words first.
    fn verieasy_get(&self) -> (r: Vec<u16>)
        requires
            self.wf(),
            Self::cap() <= usize::MAX,
        ensures
            r@.len() * 16 == Self::cap(),
            forall|i: int|
                0 <= i < Self::cap() ==> self.free_bits()[i] == u16_bit(r@[i / 16], i % 16),
    ;

    /// Allocate a free bit: the lowest available one.
    fn allocate(&mut self) -> (r: Option<usize>)
        requires
            old(self).wf(),
            Self::cap() <= usize::MAX,
        ensures
            final(self).wf(),
            match r {
                Some(i) => i < Self::cap() && old(self).free_bits()[i as int]
                    && final(self).free_bits() == old(self).free_bits().update(i as int, false)
                    && (forall|j: int|
                    0 <= j < i ==> !old(self).free_bits()[j]),
                None => final(self).free_bits() == old(self).free_bits() && (forall|j: int|
                    0 <= j < Self::cap() ==> !old(self).free_bits()[j]),
            },
    ;

    /// Free one bit.
    fn dealloc(&mut self, key: usize)
        requires
            old(self).wf(),
            Self::cap() <= usize::MAX,
            key < Self::cap(),
        ensures
            final(self).wf(),
            final(self).free_bits() == old(self).free_bits().update(key as int, true),
    ;

    /// Mark the bits of the range as available.  An empty range changes
    /// nothing.
    fn insert(&mut self, range: core::ops::Range<usize>)
        requires
            old(self).wf(),
            Self::cap() <= usize::MAX,
            range.start <= range.end,
            range.end <= Self::cap(),
        ensures
            final(self).wf(),
            final(self).free_bits().len() == Self::cap(),
            forall|i: int|
                0 <= i < Self::cap() ==> final(self).free_bits()[i] == if range.start <= i
                    < range.end {
                    true
                } else {
                    old(self).free_bits()[i]
                },
    ;

    /// Mark the bits of the range as unavailable.  An empty range changes
    /// nothing.
    fn remove(&mut self, range: core::ops::Range<usize>)
        requires
            old(self).wf(),
            Self::cap() <= usize::MAX,
            range.start <= range.end,
            range.end <= Self::cap(),
        ensures
            final(self).wf(),
            final(self).free_bits().len() == Self::cap(),
            forall|i: int|
                0 <= i < Self::cap() ==> final(self).free_bits()[i] == if range.start <= i
                    < range.end {
                    false
                } else {
                    old(self).free_bits()[i]
                },
    ;

    /// Whether any bit is available.
    fn any(&self) -> (r: bool)
        requires
            self.wf(),
        ensures
            r == exists|i: int| 0 <= i < Self::cap() && self.free_bits()[i],
    ;

    /// Whether the bit at `key` is available.
    fn test(&self, key: usize) -> (r: bool)
        requires
            self.wf(),
            Self::cap() <= usize::MAX,
            key < Self::cap(),
        ensures
            r == self.free_bits()[key as int],
    ;

    /// The lowest available bit at or above `key`, if any.
    fn next(&self, key: usize) -> (r: Option<usize>)
        requires
            self.wf(),
            Self::cap() <= usize::MAX,
        ensures
            match r {
                Some(n) => key <= n < Self::cap() && self.free_bits()[n as int] && (forall|j: int|
                    key <= j < n ==> !self.free_bits()[j]),
                None => forall|j: int| key <= j < Self::cap() ==> !self.free_bits()[j],
            },
    ;
}

/// The bits of a range cleared.
pub open spec fn clear_range(bits: Seq<bool>, from: int, to: int) -> Seq<bool> {
    Seq::new(bits.len(), |i: int| if from <= i < to {
        false
    } else {
        bits[i]
    })
}

/// Whether the whole window starting at `b` is inside the bits and free.
pub open spec fn window_free(bits: Seq<bool>, b: int, size: nat) -> bool {
    &&& b >= 0
    &&& b + size <= bits.len()
    &&& forall|k: int| b <= k < b + size ==> #[trigger] bits[k]
}

/// A position inside a free window is in bounds and free.
pub proof fn lemma_window_at(bits: Seq<bool>, b: int, size: nat, k: int)
    requires
        window_free(bits, b, size),
        b <= k < b + size,
    ensures
        0 <= k < bits.len() && bits[k],
{
}

/// The first-fit search over aligned bases: starting from base `b`, step by
/// the alignment, and take the first whole free window that fits below
/// `capacity`.
pub open spec fn first_fit_from(
    bits: Seq<bool>,
    capacity: nat,
    size: nat,
    step: nat,
    b: nat,
) -> Option<int>
    recommends
        step >= 1,
        size >= 1,
    decreases capacity + step - b,
{
    if step < 1 || b + size > capacity {
        None
    } else if window_free(bits, b as int, size) {
        Some(b as int)
    } else {
        first_fit_from(bits, capacity, size, step, b + step)
    }
}

/// The guarded first-fit search: the documented refusals, then the aligned
/// scan from zero.
pub open spec fn first_fit(bits: Seq<bool>, capacity: nat, size: nat, align_log2: nat) -> Option<
    int,
> {
    if align_log2 >= 64 || capacity < pow2(align_log2) || !(exists|i: int|
        0 <= i < bits.len() && bits[i]) {
        None
    } else {
        first_fit_from(bits, capacity, size, pow2(align_log2), 0)
    }
}

/// `first_fit_from` finds exactly the least stepped base with a free
/// window.
pub proof fn lemma_first_fit_from(bits: Seq<bool>, capacity: nat, size: nat, step: nat, b0: nat)
    requires
        step >= 1,
        size >= 1,
    ensures
        match first_fit_from(bits, capacity, size, step, b0) {
            Some(b) => b0 <= b && (b - b0) % (step as int) == 0 && b + size <= capacity
                && window_free(bits, b, size) && (forall|b2: int|
                b0 <= b2 < b && (b2 - b0) % (step as int) == 0 ==> !(b2 + size <= capacity
                    && window_free(bits, b2, size))),
            None => forall|b2: int|
                b0 <= b2 && (b2 - b0) % (step as int) == 0 ==> !(b2 + size <= capacity
                    && window_free(bits, b2, size)),
        },
    decreases capacity + step - b0,
{
    if b0 + size > capacity {
        assert forall|b2: int|
            b0 <= b2 && (b2 - b0) % (step as int) == 0 implies !(b2 + size <= capacity
            && window_free(bits, b2, size)) by {}
    } else if window_free(bits, b0 as int, size) {
        assert((b0 - b0) % (step as int) == 0) by {
            vstd::arithmetic::div_mod::lemma_mod_self_0(step as int);
            vstd::arithmetic::div_mod::lemma_small_mod(0, step);
        }
    } else {
        lemma_first_fit_from(bits, capacity, size, step, b0 + step);
        match first_fit_from(bits, capacity, size, step, b0 + step) {
            Some(b) => {
                assert((b - b0) % (step as int) == 0) by {
                    assert((b - (b0 + step)) % (step as int) == 0);
                    assert(b - b0 == (b - (b0 + step)) + step);
                    vstd::arithmetic::div_mod::lemma_mod_add_multiples_vanish(
                        b - (b0 + step),
                        step as int,
                    );
                }
                assert forall|b2: int|
                    b0 <= b2 < b && (b2 - b0) % (step as int) == 0 implies !(b2 + size <= capacity
                    && window_free(bits, b2, size)) by {
                    if b2 == b0 {
                    } else {
                        assert(b2 - b0 >= 1);
                        assert((b2 - b0) % (step as int) == 0);
                        assert(b2 - b0 >= step) by {
                            if b2 - b0 < step {
                                vstd::arithmetic::div_mod::lemma_small_mod(
                                    (b2 - b0) as nat,
                                    step,
                                );
                            }
                        }
                        assert((b2 - (b0 + step)) % (step as int) == 0) by {
                            assert(b2 - (b0 + step) == (b2 - b0) - step);
                            assert(((b2 - b0) - step) % (step as int) == (b2 - b0) % (
                            step as int)) by {
                                vstd::arithmetic::div_mod::lemma_mod_sub_multiples_vanish(
                                    b2 - b0,
                                    step as int,
                                );
                            }
                        }
                    }
                }
            },
            None => {
                assert forall|b2: int|
                    b0 <= b2 && (b2 - b0) % (step as int) == 0 implies !(b2 + size <= capacity
                    && window_free(bits, b2, size)) by {
                    if b2 != b0 {
                        assert(b2 - b0 >= 1);
                        assert(b2 - b0 >= step) by {
                            if b2 - b0 < step {
                                vstd::arithmetic::div_mod::lemma_small_mod(
                                    (b2 - b0) as nat,
                                    step,
                                );
                            }
                        }
                        assert((b2 - (b0 + step)) % (step as int) == 0) by {
                            assert(b2 - (b0 + step) == (b2 - b0) - step);
                            vstd::arithmetic::div_mod::lemma_mod_sub_multiples_vanish(
                                b2 - b0,
                                step as int,
                            );
                        }
                    }
                }
            },
        }
    }
}

/// No stepped candidate base below `base` carries a free window that fits.
pub open spec fn no_candidate_below(
    bits: Seq<bool>,
    capacity: nat,
    size: nat,
    step: nat,
    base: int,
) -> bool {
    forall|b2: int|
        0 <= b2 < base && (#[trigger] (b2 % (step as int))) == 0 ==> !(b2 + size <= capacity
            && window_free(bits, b2, size))
}

/// Instantiate [`no_candidate_below`] at one candidate.
pub proof fn lemma_no_candidate_at(
    bits: Seq<bool>,
    capacity: nat,
    size: nat,
    step: nat,
    base: int,
    b2: int,
)
    requires
        no_candidate_below(bits, capacity, size, step, base),
        0 <= b2 < base,
        b2 % (step as int) == 0,
    ensures
        !(b2 + size <= capacity && window_free(bits, b2, size)),
{
}

/// Find a contiguous aligned run of free bits, first fit: scan forward;
/// on a hit bit, jump to the next aligned base after it.
#[verifier::loop_isolation(false)]
pub fn find_contiguous<T: BitAlloc>(
    ba: &T,
    capacity: usize,
    size: usize,
    align_log2: usize,
) -> (r: Option<usize>)
    requires
        ba.wf(),
        T::cap() <= usize::MAX / 2,
        capacity <= usize::MAX / 2,
        size >= 1,
    ensures
        match r {
            Some(base) => first_fit(ba.free_bits(), capacity as nat, size as nat, align_log2 as nat)
                == Some(base as int),
            None => first_fit(ba.free_bits(), capacity as nat, size as nat, align_log2 as nat)
                is None,
        },
{
    proof {
        ba.lemma_wf_len();
    }
    if align_log2 >= 64 {
        return None;
    }
    proof {
        lemma_pow2_shift_u64(align_log2 as nat);
    }
    if (capacity as u64) < (1u64 << (align_log2 as u64)) {
        return None;
    }
    if !ba.any() {
        return None;
    }
    proof {
        lemma_pow2_pos(align_log2 as nat);
        assert(pow2(align_log2 as nat) <= capacity);
    }
    let step: usize = (1u64 << (align_log2 as u64)) as usize;
    proof {
        assert(step == pow2(align_log2 as nat));
        assert(step >= 1);
    }
    let mut base: usize = 0;
    let mut offset: usize = base;
    let ghost bits0 = ba.free_bits();
    loop
        invariant
            ba.wf(),
            T::cap() <= usize::MAX / 2,
            capacity <= usize::MAX / 2,
            size >= 1,
            step == pow2(align_log2 as nat),
            step >= 1,
            base % step == 0,
            base <= offset,
            offset - base < size,
            offset <= capacity,
            bits0 == ba.free_bits(),
            base < offset ==> window_free(bits0, base as int, (offset - base) as nat),
            no_candidate_below(bits0, capacity as nat, size as nat, step as nat, base as int),
        decreases capacity - offset,
    {
        if offset >= capacity {
            proof {
                lemma_none_case(
                    bits0,
                    capacity as nat,
                    size as nat,
                    step as nat,
                    base as int,
                    offset as int,
                );
            }
            return None;
        }
        match ba.next(offset) {
            Some(next_free) => {
                if next_free != offset {
                    proof {
                        assert(next_free > offset);
                        assert(!ba.free_bits()[offset as int]);
                        lemma_align_up(next_free as int, step as int);
                    }
                    let aligned = (((next_free - 1) / step) + 1) * step;
                    proof {
                        assert(aligned % step == 0);
                        assert(next_free <= aligned < next_free + step);
                        assert forall|b2: int|
                            0 <= b2 < aligned && (#[trigger] (b2 % (step as int))) == 0 implies !(
                        b2 + size <= capacity && window_free(bits0, b2, size as nat)) by {
                            if b2 < base {
                                lemma_no_candidate_at(
                                    bits0,
                                    capacity as nat,
                                    size as nat,
                                    step as nat,
                                    base as int,
                                    b2,
                                );
                            } else {
                                if window_free(bits0, b2, size as nat) && b2 + size <= capacity {
                                    assert(b2 <= next_free - 1);
                                    if b2 <= offset {
                                        assert(b2 + size > offset) by {
                                            assert(b2 >= base);
                                            assert(offset - base < size);
                                        }
                                        assert(b2 <= offset < b2 + size);
                                        lemma_window_at(bits0, b2, size as nat, offset as int);
                                        assert(bits0[offset as int]);
                                    } else {
                                        assert(offset < b2 < next_free);
                                        lemma_window_at(bits0, b2, size as nat, b2);
                                        assert(!bits0[b2]);
                                    }
                                }
                            }
                        }
                        assert(no_candidate_below(
                            bits0,
                            capacity as nat,
                            size as nat,
                            step as nat,
                            aligned as int,
                        ));
                    }
                    base = aligned;
                    offset = aligned;
                    if offset >= capacity {
                        proof {
                            lemma_none_case(
                                ba.free_bits(),
                                capacity as nat,
                                size as nat,
                                step as nat,
                                base as int,
                                offset as int,
                            );
                        }
                        return None;
                    }
                } else {
                    let ghost old_offset = offset as int;
                    offset = offset + 1;
                    proof {
                        assert(bits0[old_offset]);
                        assert(0 <= old_offset < bits0.len());
                        assert forall|k: int|
                            base <= k < base + (offset - base) implies #[trigger] bits0[k] by {
                            if k < old_offset {
                                lemma_window_at(
                                    bits0,
                                    base as int,
                                    (old_offset - base) as nat,
                                    k,
                                );
                            }
                        }
                        assert(window_free(bits0, base as int, (offset - base) as nat));
                    }
                    if offset - base == size {
                        proof {
                            lemma_some_case(
                                bits0,
                                capacity as nat,
                                size as nat,
                                step as nat,
                                base as int,
                            );
                        }
                        return Some(base);
                    }
                }
            },
            None => {
                proof {
                    assert forall|b2: int|
                        0 <= b2 && (#[trigger] (b2 % (step as int))) == 0 implies !(b2 + size
                        <= capacity && window_free(bits0, b2, size as nat)) by {
                        if b2 < base {
                            lemma_no_candidate_at(
                                bits0,
                                capacity as nat,
                                size as nat,
                                step as nat,
                                base as int,
                                b2,
                            );
                        } else if window_free(bits0, b2, size as nat) && b2 + size <= capacity {
                            if b2 <= offset {
                                assert(b2 + size > offset) by {
                                    assert(b2 >= base);
                                    assert(offset - base < size);
                                }
                                assert(b2 <= offset < b2 + size);
                                lemma_window_at(bits0, b2, size as nat, offset as int);
                                assert(!bits0[offset as int]);
                            } else {
                                lemma_window_at(bits0, b2, size as nat, b2);
                                assert(offset <= b2 < T::cap());
                                assert(!bits0[b2]);
                            }
                        }
                    }
                    lemma_first_fit_from(bits0, capacity as nat, size as nat, step as nat, 0);
                    if first_fit_from(bits0, capacity as nat, size as nat, step as nat, 0)
                        is Some {
                        let w = first_fit_from(
                            bits0,
                            capacity as nat,
                            size as nat,
                            step as nat,
                            0,
                        ).unwrap();
                        assert(w % (step as int) == 0);
                        assert(!(w + size <= capacity && window_free(bits0, w, size as nat)));
                    }
                }
                return None;
            },
        }
    }
}

/// Allocate a contiguous aligned run of `size` bits, first fit: find the
/// least aligned base whose whole window is free, and mark it unavailable.
pub fn alloc_contiguous<T: BitAlloc>(ba: &mut T, size: usize, align_log2: usize) -> (r: Option<
    usize,
>)
    requires
        old(ba).wf(),
        T::cap() <= usize::MAX / 2,
        size >= 1,
    ensures
        final(ba).wf(),
        match r {
            Some(base) => first_fit(
                old(ba).free_bits(),
                T::cap(),
                size as nat,
                align_log2 as nat,
            ) == Some(base as int) && base + size <= T::cap() && final(ba).free_bits()
                =~= clear_range(old(ba).free_bits(), base as int, base + size),
            None => first_fit(old(ba).free_bits(), T::cap(), size as nat, align_log2 as nat)
                is None && final(ba).free_bits() == old(ba).free_bits(),
        },
{
    proof {
        ba.lemma_wf_len();
    }
    let capacity = T::capacity();
    let found = find_contiguous(ba, capacity, size, align_log2);
    match found {
        Some(base) => {
            proof {
                assert(first_fit(ba.free_bits(), T::cap(), size as nat, align_log2 as nat)
                    == Some(base as int));
                lemma_pow2_pos(align_log2 as nat);
                lemma_first_fit_from(
                    ba.free_bits(),
                    T::cap(),
                    size as nat,
                    pow2(align_log2 as nat),
                    0,
                );
                assert(base + size <= T::cap());
            }
            let ghost o = ba.free_bits();
            ba.remove(base..base + size);
            proof {
                assert(ba.free_bits() =~= clear_range(o, base as int, base + size));
            }
            Some(base)
        },
        None => None,
    }
}

/// At loop exit the remaining candidates cannot fit: everything below the
/// base was ruled out, and everything at or above it overruns the capacity.
proof fn lemma_none_case(
    bits: Seq<bool>,
    capacity: nat,
    size: nat,
    step: nat,
    base: int,
    offset: int,
)
    requires
        step >= 1,
        size >= 1,
        0 <= base <= offset,
        offset - base < size,
        offset >= capacity,
        base % (step as int) == 0,
        no_candidate_below(bits, capacity, size, step, base),
    ensures
        first_fit_from(bits, capacity, size, step, 0) is None,
{
    lemma_first_fit_from(bits, capacity, size, step, 0);
    match first_fit_from(bits, capacity, size, step, 0) {
        Some(b) => {
            assert(b % (step as int) == 0);
            assert(b + size <= capacity && window_free(bits, b, size));
            if b < base {
                lemma_no_candidate_at(bits, capacity, size, step, base, b);
            } else {
                assert(b + size > capacity);
            }
        },
        None => {},
    }
}

/// On a full window the base is the first fit.
proof fn lemma_some_case(bits: Seq<bool>, capacity: nat, size: nat, step: nat, base: int)
    requires
        step >= 1,
        size >= 1,
        0 <= base,
        base + size <= capacity,
        base % (step as int) == 0,
        window_free(bits, base, size),
        no_candidate_below(bits, capacity, size, step, base),
    ensures
        first_fit_from(bits, capacity, size, step, 0) == Some(base),
{
    lemma_first_fit_from(bits, capacity, size, step, 0);
    match first_fit_from(bits, capacity, size, step, 0) {
        Some(b) => {
            if b < base {
                lemma_no_candidate_at(bits, capacity, size, step, base, b);
            }
            if base < b {
                assert(!(base + size <= capacity && window_free(bits, base, size)));
            }
        },
        None => {
            assert(!(base + size <= capacity && window_free(bits, base, size)));
        },
    }
}

/// A bitmap of sixteen bits: the leaf of the segment tree.
pub struct BitAlloc16(pub u16);

impl BitAlloc16 {
    /// Build a leaf from its raw word.
    pub fn verieasy_new(bits: u16) -> (r: BitAlloc16)
        ensures
            r.wf(),
            forall|i: int| 0 <= i < 16 ==> r.free_bits()[i] == u16_bit(bits, i),
    {
        BitAlloc16(bits)
    }
}

impl BitAlloc for BitAlloc16 {
    /// Sixteen bits in total.
    open spec fn cap() -> nat {
        16
    }

    /// The bits of the word, lowest first.
    open spec fn free_bits(&self) -> Seq<bool> {
        Seq::new(16, |i: int| u16_bit(self.0, i))
    }

    /// A raw word is always well formed.
    open spec fn wf(&self) -> bool {
        true
    }

    proof fn lemma_wf_len(&self) {
        assert(Self::cap() == 16);
        assert(16nat % 16 == 0);
    }

    fn capacity() -> (r: usize) {
        16
    }

    fn empty() -> (r: Self) {
        let r = BitAlloc16(0);
        proof {
            assert forall|i: int| 0 <= i < 16 implies !r.free_bits()[i] by {
                lemma_zero_bit(i as u16);
            }
        }
        r
    }

    fn verieasy_get(&self) -> (r: Vec<u16>) {
        let mut r: Vec<u16> = Vec::new();
        r.push(self.0);
        proof {
            assert forall|i: int| 0 <= i < 16 implies self.free_bits()[i] == u16_bit(
                r@[i / 16],
                i % 16,
            ) by {
                assert(i / 16 == 0);
                assert(i % 16 == i);
            }
        }
        r
    }

    fn allocate(&mut self) -> (r: Option<usize>) {
        if self.0 != 0 {
            proof {
                lemma_lowest_bit(self.0);
            }
            let i = self.0.trailing_zeros() as usize;
            let ghost o = *self;
            self.0.set_bit(i, false);
            proof {
                assert forall|j: int| 0 <= j < 16 implies self.free_bits()[j]
                    == o.free_bits().update(i as int, false)[j] by {
                    assert(self.0.bit_at(j) == if j == i {
                        false
                    } else {
                        o.0.bit_at(j)
                    });
                }
                assert(self.free_bits() =~= o.free_bits().update(i as int, false));
            }
            Some(i)
        } else {
            proof {
                assert forall|j: int| 0 <= j < 16 implies !self.free_bits()[j] by {
                    lemma_zero_bit(j as u16);
                }
            }
            None
        }
    }

    fn dealloc(&mut self, key: usize) {
        let ghost o = *self;
        self.0.set_bit(key, true);
        proof {
            assert forall|j: int| 0 <= j < 16 implies self.free_bits()[j]
                == o.free_bits().update(key as int, true)[j] by {
                assert(self.0.bit_at(j) == if j == key {
                    true
                } else {
                    o.0.bit_at(j)
                });
            }
            assert(self.free_bits() =~= o.free_bits().update(key as int, true));
        }
    }

    fn insert(&mut self, range: core::ops::Range<usize>) {
        let start = range.start;
        let end = range.end;
        if start >= end {
            return;
        }
        let all: u16 = 0xffff;
        let value = all.get_bits(start..end);
        let ghost o = *self;
        self.0.set_bits(start..end, value);
        proof {
            assert forall|i: int| 0 <= i < 16 implies self.free_bits()[i] == if start <= i < end {
                true
            } else {
                o.free_bits()[i]
            } by {
                assert(self.0.bit_at(i) == if start <= i < end {
                    value.bit_at(i - start)
                } else {
                    o.0.bit_at(i)
                });
                if start <= i < end {
                    assert(value.bit_at(i - start) == all.bit_at(start + (i - start)));
                    assert(u16_bit(all, i)) by {
                        let j = i as u16;
                        assert(j < 16 ==> (0xffffu16 >> j) & 1u16 == 1u16) by (bit_vector);
                    }
                }
            }
        }
    }

    fn remove(&mut self, range: core::ops::Range<usize>) {
        let start = range.start;
        let end = range.end;
        if start >= end {
            return;
        }
        let ghost o = *self;
        proof {
            assert forall|q: int| end - start <= q < 16 implies !0u16.bit_at(q) by {
                lemma_zero_bit(q as u16);
            }
        }
        self.0.set_bits(start..end, 0u16);
        proof {
            assert forall|i: int| 0 <= i < 16 implies self.free_bits()[i] == if start <= i < end {
                false
            } else {
                o.free_bits()[i]
            } by {
                assert(self.0.bit_at(i) == if start <= i < end {
                    0u16.bit_at(i - start)
                } else {
                    o.0.bit_at(i)
                });
                if start <= i < end {
                    lemma_zero_bit((i - start) as u16);
                }
            }
        }
    }

    fn any(&self) -> (r: bool) {
        proof {
            lemma_nonzero_bit(self.0);
            if self.0 != 0 {
                let w = choose|i: int| 0 <= i < 16 && u16_bit(self.0, i);
                assert(self.free_bits()[w]);
            }
            if exists|i: int| 0 <= i < Self::cap() && self.free_bits()[i] {
                let w = choose|i: int| 0 <= i < Self::cap() && self.free_bits()[i];
                assert(u16_bit(self.0, w));
            }
        }
        self.0 != 0
    }

    fn test(&self, key: usize) -> (r: bool) {
        self.0.get_bit(key)
    }

    fn next(&self, key: usize) -> (r: Option<usize>) {
        let mut i: usize = key;
        while i < 16
            invariant
                key <= i,
                forall|j: int| key <= j < i ==> !self.free_bits()[j],
            decreases 16 - i,
        {
            if self.0.get_bit(i) {
                return Some(i);
            }
            proof {
                assert(!self.free_bits()[i as int]);
            }
            i += 1;
        }
        None
    }
}

/// Whether a child allocator still has a free bit.
pub open spec fn child_any<T: BitAlloc>(c: T) -> bool {
    exists|j: int| 0 <= j < T::cap() && (#[trigger] c.free_bits()[j])
}

/// Split a flat index into child and local position.
pub proof fn lemma_split_index(cap: nat, i: int)
    requires
        cap >= 1,
        0 <= i < 16 * cap,
    ensures
        0 <= i / (cap as int) < 16,
        0 <= i % (cap as int) < cap,
        i == (i / (cap as int)) * (cap as int) + i % (cap as int),
{
    vstd::arithmetic::div_mod::lemma_fundamental_div_mod(i, cap as int);
    vstd::arithmetic::div_mod::lemma_mod_bound(i, cap as int);
    let q = i / (cap as int);
    assert(q * (cap as int) == (cap as int) * q) by (nonlinear_arith);
    assert(q >= 0) by (nonlinear_arith)
        requires
            cap >= 1,
            i >= 0,
            i == (cap as int) * q + i % (cap as int),
            0 <= i % (cap as int) < cap,
    ;
    assert(q < 16) by (nonlinear_arith)
        requires
            cap >= 1,
            i < 16 * cap,
            i == (cap as int) * q + i % (cap as int),
            0 <= i % (cap as int) < cap,
    ;
}

/// Join a child index and a local position into a flat index.
pub proof fn lemma_join_index(cap: nat, c: int, b: int)
    requires
        cap >= 1,
        0 <= c < 16,
        0 <= b < cap,
    ensures
        0 <= c * (cap as int) + b < 16 * cap,
        (c * (cap as int) + b) / (cap as int) == c,
        (c * (cap as int) + b) % (cap as int) == b,
{
    assert(0 <= c * (cap as int) + b < 16 * cap) by (nonlinear_arith)
        requires
            cap >= 1,
            0 <= c < 16,
            0 <= b < cap,
    ;
    vstd::arithmetic::div_mod::lemma_fundamental_div_mod_converse(
        c * (cap as int) + b,
        cap as int,
        c,
        b,
    );
}

/// Every bit of the range is unavailable.
pub open spec fn all_unset_in(bits: Seq<bool>, lo: int, hi: int) -> bool {
    forall|j: int| lo <= j < hi ==> !(#[trigger] bits[j])
}

/// Instantiate [`all_unset_in`] at one position.
pub proof fn lemma_all_unset_at(bits: Seq<bool>, lo: int, hi: int, j: int)
    requires
        all_unset_in(bits, lo, hi),
        lo <= j < hi,
    ensures
        !bits[j],
{
}

/// The bits below `upto` of the range are marked with `value`; everything
/// else still holds its old value.
pub open spec fn marked_upto(
    bits: Seq<bool>,
    obits: Seq<bool>,
    start: int,
    end: int,
    upto: int,
    value: bool,
) -> bool {
    forall|j: int|
        0 <= j < bits.len() ==> (#[trigger] bits[j]) == if start <= j < end && j < upto {
            value
        } else {
            obits[j]
        }
}

/// Instantiate [`marked_upto`] at one position.
pub proof fn lemma_marked_at(
    bits: Seq<bool>,
    obits: Seq<bool>,
    start: int,
    end: int,
    upto: int,
    value: bool,
    j: int,
)
    requires
        marked_upto(bits, obits, start, end, upto, value),
        0 <= j < bits.len(),
    ensures
        bits[j] == if start <= j < end && j < upto {
            value
        } else {
            obits[j]
        },
{
}

/// The child capacity is bounded by the cascade capacity.
pub proof fn lemma_child_cap<T: BitAlloc>()
    requires
        16 * T::cap() <= usize::MAX,
    ensures
        T::cap() <= usize::MAX,
{
    assert(T::cap() <= 16 * T::cap()) by (nonlinear_arith)
        requires
            T::cap() >= 0,
    ;
}

/// The cascade: a summary word whose bit `i` says whether child `i` still
/// has free bits, over sixteen children.
pub struct BitAllocCascade16<T: BitAlloc> {
    /// The summary word.
    pub bitset: u16,
    /// The sixteen children.
    pub sub: Vec<T>,
}

impl<T: BitAlloc> BitAlloc for BitAllocCascade16<T> {
    /// Sixteen times the child capacity.
    open spec fn cap() -> nat {
        16 * T::cap()
    }

    /// The concatenated bits of the children.
    open spec fn free_bits(&self) -> Seq<bool> {
        Seq::new(
            16 * T::cap(),
            |i: int| self.sub@[i / (T::cap() as int)].free_bits()[i % (T::cap() as int)],
        )
    }

    /// Sixteen well-formed children, with the summary word marking exactly
    /// the children that still have a free bit.
    open spec fn wf(&self) -> bool {
        &&& self.sub@.len() == 16
        &&& forall|i: int| 0 <= i < 16 ==> (#[trigger] self.sub@[i]).wf()
        &&& forall|i: int| 0 <= i < 16 ==> u16_bit(self.bitset, i) == child_any(self.sub@[i])
    }

    proof fn lemma_wf_len(&self) {
        self.sub@[0].lemma_wf_len();
        assert(T::cap() >= 16);
        assert(16 * T::cap() >= 16) by (nonlinear_arith)
            requires
                T::cap() >= 16,
        ;
        assert((16 * T::cap()) % 16 == 0) by {
            vstd::arithmetic::div_mod::lemma_mod_multiples_basic(T::cap() as int, 16);
        }
    }

    fn capacity() -> (r: usize) {
        let c = T::capacity();
        16 * c
    }

    #[verifier::loop_isolation(false)]
    fn empty() -> (r: Self) {
        let mut sub: Vec<T> = Vec::new();
        let mut i: usize = 0;
        while i < 16
            invariant
                i <= 16,
                sub@.len() == i,
                forall|k: int| 0 <= k < i ==> (#[trigger] sub@[k]).wf(),
                forall|k: int, j: int|
                    0 <= k < i && 0 <= j < T::cap() ==> !(#[trigger] sub@[k].free_bits()[j]),
            decreases 16 - i,
        {
            let child = T::empty();
            sub.push(child);
            i += 1;
        }
        let r = BitAllocCascade16 { bitset: 0, sub };
        proof {
            r.sub@[0].lemma_wf_len();
            assert forall|k: int| 0 <= k < 16 implies u16_bit(r.bitset, k) == child_any(
                r.sub@[k],
            ) by {
                lemma_zero_bit(k as u16);
                if child_any(r.sub@[k]) {
                    let w = choose|j: int| 0 <= j < T::cap() && (#[trigger] r.sub@[k].free_bits()[j]);
                    assert(!r.sub@[k].free_bits()[w]);
                }
            }
            assert forall|i2: int| 0 <= i2 < Self::cap() implies !r.free_bits()[i2] by {
                lemma_split_index(T::cap(), i2);
            }
        }
        r
    }

    #[verifier::loop_isolation(false)]
    fn verieasy_get(&self) -> (r: Vec<u16>) {
        proof {
            self.lemma_wf_len();
            self.sub@[0].lemma_wf_len();
            lemma_child_cap::<T>();
        }
        let mut r: Vec<u16> = Vec::new();
        let mut i: usize = 0;
        let ghost tc = T::cap() as int;
        let ghost wpc = T::cap() as int / 16;
        proof {
            assert(tc % 16 == 0);
            assert(wpc * 16 == tc) by {
                vstd::arithmetic::div_mod::lemma_fundamental_div_mod(tc, 16);
            }
        }
        while i < 16
            invariant
                i <= 16,
                self.wf(),
                tc == T::cap() as int,
                tc >= 16,
                tc % 16 == 0,
                wpc == tc / 16,
                wpc * 16 == tc,
                r@.len() == i * wpc,
                forall|c: int, jj: int|
                    0 <= c < i && 0 <= jj < tc ==> (#[trigger] self.sub@[c].free_bits()[jj])
                        == u16_bit(r@[c * wpc + jj / 16], jj % 16),
            decreases 16 - i,
        {
            let child_words = self.sub[i].verieasy_get();
            let ghost prev = r@;
            let ghost cw = child_words@;
            proof {
                assert(cw.len() * 16 == tc);
                assert(cw.len() == wpc) by (nonlinear_arith)
                    requires
                        cw.len() * 16 == tc,
                        wpc * 16 == tc,
                ;
            }
            let mut child_words = child_words;
            r.append(&mut child_words);
            proof {
                assert(r@ =~= prev + cw);
                assert(r@.len() == (i + 1) * wpc) by (nonlinear_arith)
                    requires
                        r@.len() == prev.len() + cw.len(),
                        prev.len() == i * wpc,
                        cw.len() == wpc,
                ;
                assert forall|c: int, jj: int|
                    0 <= c < i + 1 && 0 <= jj < tc implies (#[trigger] self.sub@[c].free_bits()[
                jj]) == u16_bit(r@[c * wpc + jj / 16], jj % 16) by {
                    vstd::arithmetic::div_mod::lemma_mod_bound(jj, 16);
                    vstd::arithmetic::div_mod::lemma_fundamental_div_mod(jj, 16);
                    assert(0 <= jj / 16 < wpc) by (nonlinear_arith)
                        requires
                            0 <= jj < tc,
                            jj == 16 * (jj / 16) + jj % 16,
                            0 <= jj % 16 < 16,
                            wpc * 16 == tc,
                    ;
                    assert(0 <= c * wpc + jj / 16) by (nonlinear_arith)
                        requires
                            c >= 0,
                            wpc >= 1,
                            jj / 16 >= 0,
                    ;
                    if c < i {
                        assert(c * wpc + jj / 16 < i * wpc) by (nonlinear_arith)
                            requires
                                0 <= c < i,
                                0 <= jj / 16 < wpc,
                        ;
                        assert(r@[c * wpc + jj / 16] == prev[c * wpc + jj / 16]);
                    } else {
                        assert(c == i);
                        assert(r@[c * wpc + jj / 16] == cw[jj / 16]) by (nonlinear_arith)
                            requires
                                c == i,
                                prev.len() == i * wpc,
                                0 <= jj / 16 < wpc,
                                r@ == prev + cw,
                                cw.len() == wpc,
                        ;
                        assert(self.sub@[c].free_bits()[jj] == u16_bit(cw[jj / 16], jj % 16));
                    }
                }
            }
            i += 1;
        }
        proof {
            assert(r@.len() * 16 == Self::cap()) by (nonlinear_arith)
                requires
                    r@.len() == 16 * wpc,
                    wpc * 16 == tc,
                    Self::cap() == 16 * T::cap(),
                    tc == T::cap() as int,
            ;
            assert forall|i2: int| 0 <= i2 < Self::cap() implies self.free_bits()[i2] == u16_bit(
                r@[i2 / 16],
                i2 % 16,
            ) by {
                lemma_split_index(T::cap(), i2);
                let c = i2 / tc;
                let jj = i2 % tc;
                assert(self.free_bits()[i2] == self.sub@[c].free_bits()[jj]);
                assert(self.sub@[c].free_bits()[jj] == u16_bit(r@[c * wpc + jj / 16], jj % 16));
                vstd::arithmetic::div_mod::lemma_fundamental_div_mod(jj, 16);
                vstd::arithmetic::div_mod::lemma_mod_bound(jj, 16);
                assert(i2 / 16 == c * wpc + jj / 16 && i2 % 16 == jj % 16) by {
                    assert(i2 == (c * wpc + jj / 16) * 16 + jj % 16) by (nonlinear_arith)
                        requires
                            i2 == c * tc + jj,
                            wpc * 16 == tc,
                            jj == 16 * (jj / 16) + jj % 16,
                    ;
                    vstd::arithmetic::div_mod::lemma_fundamental_div_mod_converse(
                        i2,
                        16,
                        c * wpc + jj / 16,
                        jj % 16,
                    );
                }
            }
        }
        r
    }

    fn allocate(&mut self) -> (r: Option<usize>) {
        proof {
            self.lemma_wf_len();
            self.sub@[0].lemma_wf_len();
            lemma_child_cap::<T>();
        }
        let ghost o = *self;
        let ghost tc = T::cap() as int;
        if self.bitset == 0 {
            proof {
                assert forall|j: int| 0 <= j < Self::cap() implies !o.free_bits()[j] by {
                    lemma_split_index(T::cap(), j);
                    let c = j / tc;
                    lemma_zero_bit(c as u16);
                    assert(!child_any(o.sub@[c]));
                    if o.free_bits()[j] {
                        assert(o.sub@[c].free_bits()[j % tc]);
                    }
                }
            }
            return None;
        }
        proof {
            lemma_lowest_bit(self.bitset);
        }
        let i = self.bitset.trailing_zeros() as usize;
        let tcap = T::capacity();
        let mut child = self.sub.remove(i);
        proof {
            assert(child == o.sub@[i as int]);
            assert(child.wf());
            assert(child_any(child));
            child.lemma_wf_len();
        }
        let got = child.allocate();
        let local = match got {
            Some(local) => local,
            None => {
                proof {
                    let w = choose|j: int| 0 <= j < T::cap() && (#[trigger] child.free_bits()[j]);
                    assert(false);
                }
                unreached()
            },
        };
        let still = child.any();
        self.sub.insert(i, child);
        self.bitset.set_bit(i, still);
        let ghost oldchild = o.sub@[i as int];
        proof {
            assert(self.sub@ =~= o.sub@.update(i as int, child));
            lemma_join_index(T::cap(), i as int, local as int);
            assert((i as int) * tc + local < 16 * tc);
            assert(16 * tc == Self::cap());
        }
        let res = local + i * tcap;
        proof {
            assert(res == (i as int) * tc + local);
            assert(res < Self::cap());
            // the updated state is well formed
            assert forall|k: int| 0 <= k < 16 implies u16_bit(self.bitset, k) == child_any(
                self.sub@[k],
            ) by {
                assert(self.bitset.bit_at(k) == if k == i {
                    still
                } else {
                    o.bitset.bit_at(k)
                });
                if k != i {
                    assert(self.sub@[k] == o.sub@[k]);
                }
                if k == i {
                    assert(self.sub@[k] == child);
                    if still {
                        let w = choose|j: int|
                            0 <= j < T::cap() && (#[trigger] child.free_bits()[j]);
                        assert(child_any(self.sub@[k]));
                    } else {
                        if child_any(self.sub@[k]) {
                            let w = choose|j: int|
                                0 <= j < T::cap() && (#[trigger] self.sub@[k].free_bits()[j]);
                            assert(child.free_bits()[w]);
                        }
                    }
                }
            }
            // the flat bits are the old ones with the allocated bit cleared
            assert forall|j: int|
                0 <= j < Self::cap() implies self.free_bits()[j] == o.free_bits().update(
                res as int,
                false,
            )[j] by {
                lemma_split_index(T::cap(), j);
                let c = j / tc;
                let b = j % tc;
                if c == i {
                    assert(self.sub@[c].free_bits()[b] == oldchild.free_bits().update(
                        local as int,
                        false,
                    )[b]);
                    if j == res {
                        assert(b == local);
                    } else {
                        assert(b != local) by {
                            if b == local {
                                lemma_join_index(T::cap(), c, b);
                            }
                        }
                    }
                } else {
                    assert(self.sub@[c] == o.sub@[c]);
                    assert(j != res) by {
                        if j == res {
                            lemma_join_index(T::cap(), i as int, local as int);
                        }
                    }
                }
            }
            assert(self.free_bits() =~= o.free_bits().update(res as int, false));
            // the allocated bit was free and is the lowest free one
            assert(o.free_bits()[res as int] == oldchild.free_bits()[local as int]);
            assert forall|j: int| 0 <= j < res implies !o.free_bits()[j] by {
                lemma_split_index(T::cap(), j);
                let c = j / tc;
                let b = j % tc;
                assert(c <= i) by (nonlinear_arith)
                    requires
                        j == c * tc + b,
                        0 <= b < tc,
                        j < res,
                        res == i * tc + local,
                        0 <= local < tc,
                        tc >= 1,
                ;
                if c < i {
                    assert(!u16_bit(o.bitset, c));
                    assert(!child_any(o.sub@[c]));
                    if o.free_bits()[j] {
                        assert(o.sub@[c].free_bits()[b]);
                    }
                } else {
                    assert(b < local) by (nonlinear_arith)
                        requires
                            j == c * tc + b,
                            c == i,
                            j < res,
                            res == i * tc + local,
                    ;
                    assert(!oldchild.free_bits()[b]);
                }
            }
        }
        Some(res)
    }

    fn dealloc(&mut self, key: usize) {
        proof {
            self.lemma_wf_len();
            self.sub@[0].lemma_wf_len();
            lemma_split_index(T::cap(), key as int);
            lemma_child_cap::<T>();
        }
        let ghost o = *self;
        let ghost tc = T::cap() as int;
        let tcap = T::capacity();
        let i = key / tcap;
        let local = key % tcap;
        let mut child = self.sub.remove(i);
        proof {
            assert(child == o.sub@[i as int]);
            child.lemma_wf_len();
        }
        child.dealloc(local);
        self.sub.insert(i, child);
        self.bitset.set_bit(i, true);
        let ghost oldchild = o.sub@[i as int];
        proof {
            assert(self.sub@ =~= o.sub@.update(i as int, child));
            assert forall|k: int| 0 <= k < 16 implies u16_bit(self.bitset, k) == child_any(
                self.sub@[k],
            ) by {
                assert(self.bitset.bit_at(k) == if k == i {
                    true
                } else {
                    o.bitset.bit_at(k)
                });
                if k != i {
                    assert(self.sub@[k] == o.sub@[k]);
                }
                if k == i {
                    assert(self.sub@[k] == child);
                    assert(child.free_bits()[local as int]);
                    assert(child_any(self.sub@[k]));
                }
            }
            assert forall|j: int|
                0 <= j < Self::cap() implies self.free_bits()[j] == o.free_bits().update(
                key as int,
                true,
            )[j] by {
                lemma_split_index(T::cap(), j);
                let c = j / tc;
                let b = j % tc;
                if c == i {
                    if j != key {
                        assert(b != local) by {
                            if b == local {
                                lemma_join_index(T::cap(), c, b);
                            }
                        }
                    }
                } else {
                    assert(self.sub@[c] == o.sub@[c]);
                    assert(j != key);
                }
            }
            assert(self.free_bits() =~= o.free_bits().update(key as int, true));
        }
    }

    fn insert(&mut self, range: core::ops::Range<usize>) {
        if range.start < range.end {
            self.for_range(range, true);
        }
    }

    fn remove(&mut self, range: core::ops::Range<usize>) {
        if range.start < range.end {
            self.for_range(range, false);
        }
    }

    fn any(&self) -> (r: bool) {
        proof {
            self.lemma_wf_len();
            self.sub@[0].lemma_wf_len();
            lemma_nonzero_bit(self.bitset);
            if self.bitset != 0 {
                let c = choose|i: int| 0 <= i < 16 && u16_bit(self.bitset, i);
                assert(child_any(self.sub@[c]));
                let b = choose|j: int|
                    0 <= j < T::cap() && (#[trigger] self.sub@[c].free_bits()[j]);
                lemma_join_index(T::cap(), c, b);
                assert(self.free_bits()[c * (T::cap() as int) + b]);
            }
            if exists|i: int| 0 <= i < Self::cap() && self.free_bits()[i] {
                let w = choose|i: int| 0 <= i < Self::cap() && self.free_bits()[i];
                lemma_split_index(T::cap(), w);
                let c = w / (T::cap() as int);
                assert(self.sub@[c].free_bits()[w % (T::cap() as int)]);
                assert(child_any(self.sub@[c]));
                assert(u16_bit(self.bitset, c));
            }
        }
        self.bitset != 0
    }

    fn test(&self, key: usize) -> (r: bool) {
        proof {
            self.lemma_wf_len();
            self.sub@[0].lemma_wf_len();
            lemma_split_index(T::cap(), key as int);
            lemma_child_cap::<T>();
        }
        let tcap = T::capacity();
        self.sub[key / tcap].test(key % tcap)
    }

    #[verifier::loop_isolation(false)]
    fn next(&self, key: usize) -> (r: Option<usize>) {
        proof {
            self.lemma_wf_len();
            self.sub@[0].lemma_wf_len();
            lemma_child_cap::<T>();
        }
        let ghost tc = T::cap() as int;
        let tcap = T::capacity();
        let idx = key / tcap;
        proof {
            vstd::arithmetic::div_mod::lemma_fundamental_div_mod(key as int, tc);
            vstd::arithmetic::div_mod::lemma_mod_bound(key as int, tc);
            assert(key >= (key as int / tc) * tc);
        }
        let mut i = if idx >= 16 {
            16
        } else {
            idx
        };
        proof {
            assert(key as int >= i * tc) by (nonlinear_arith)
                requires
                    key == tc * idx + (key as int) % tc,
                    0 <= (key as int) % tc,
                    tc >= 1,
                    idx >= 0,
                    i == if idx >= 16 {
                        16int
                    } else {
                        idx as int
                    },
            ;
            assert(all_unset_in(self.free_bits(), key as int, i * tc));
        }
        while i < 16
            invariant
                self.wf(),
                tc == T::cap() as int,
                tc >= 16,
                T::cap() <= usize::MAX,
                tcap == T::cap(),
                idx == key as int / tc,
                i <= 16,
                idx < 16 ==> idx <= i,
                idx >= 16 ==> i == 16,
                all_unset_in(self.free_bits(), key as int, i * tc),
            decreases 16 - i,
        {
            proof {
                assert(idx <= i);
                assert(key as int <= i * tc + tc) by (nonlinear_arith)
                    requires
                        key == tc * idx + (key as int) % tc,
                        0 <= (key as int) % tc < tc,
                        idx <= i,
                        tc >= 1,
                ;
            }
            if self.bitset.get_bit(i) {
                let k = if i == idx {
                    key - tcap * idx
                } else {
                    0
                };
                proof {
                    vstd::arithmetic::div_mod::lemma_fundamental_div_mod(key as int, tc);
                    vstd::arithmetic::div_mod::lemma_mod_bound(key as int, tc);
                    assert(self.sub@[i as int].wf());
                }
                match self.sub[i].next(k) {
                    Some(x) => {
                        proof {
                            lemma_join_index(T::cap(), i as int, x as int);
                            assert((i as int) * tc + x < 16 * tc);
                            assert(16 * tc == Self::cap());
                        }
                        let res = i * tcap + x;
                        proof {
                            assert(res == (i as int) * tc + x);
                            assert(self.free_bits()[res as int] == self.sub@[i as int].free_bits()[
                            x as int]);
                            assert forall|j: int| key <= j < res implies !(
                            #[trigger] self.free_bits()[j]) by {
                                if j < i * tc {
                                    lemma_all_unset_at(
                                        self.free_bits(),
                                        key as int,
                                        i * tc,
                                        j,
                                    );
                                }
                                if j >= i * tc {
                                    lemma_split_index(T::cap(), j);
                                    let c = j / tc;
                                    let b = j % tc;
                                    assert(c == i) by (nonlinear_arith)
                                        requires
                                            j == c * tc + b,
                                            0 <= b < tc,
                                            i * tc <= j < i * tc + x,
                                            0 <= x < tc,
                                            tc >= 1,
                                    ;
                                    assert(k <= b < x) by (nonlinear_arith)
                                        requires
                                            j == c * tc + b,
                                            c == i,
                                            i * tc <= j < i * tc + x,
                                            j >= key,
                                            i == idx ==> k == key - tc * idx,
                                            i != idx ==> k == 0,
                                            idx <= i,
                                    ;
                                    assert(!self.sub@[i as int].free_bits()[b]);
                                }
                            }
                            assert(key <= res) by (nonlinear_arith)
                                requires
                                    res == i * tc + x,
                                    x >= k,
                                    i == idx ==> k == key - tc * idx,
                                    i != idx ==> idx < i,
                                    key == tc * idx + (key as int) % tc,
                                    0 <= (key as int) % tc < tc,
                                    x >= 0,
                                    tc >= 1,
                            ;
                        }
                        return Some(res);
                    },
                    None => {
                        proof {
                            assert forall|j: int| key <= j < (i + 1) * tc implies !(
                            #[trigger] self.free_bits()[j]) by {
                                assert((i + 1) * tc <= 16 * tc) by (nonlinear_arith)
                                    requires
                                        i < 16,
                                        tc >= 1,
                                ;
                                if j < i * tc {
                                    lemma_all_unset_at(
                                        self.free_bits(),
                                        key as int,
                                        i * tc,
                                        j,
                                    );
                                }
                                if j >= i * tc {
                                    lemma_split_index(T::cap(), j);
                                    let c = j / tc;
                                    let b = j % tc;
                                    assert(c == i) by (nonlinear_arith)
                                        requires
                                            j == c * tc + b,
                                            0 <= b < tc,
                                            i * tc <= j < (i + 1) * tc,
                                            tc >= 1,
                                    ;
                                    assert(k <= b) by (nonlinear_arith)
                                        requires
                                            j == c * tc + b,
                                            0 <= b < tc,
                                            c == i,
                                            j >= key,
                                            i == idx ==> k == key - tc * idx,
                                            i != idx ==> k == 0,
                                            idx <= i,
                                            key == tc * idx + (key as int) % tc,
                                            0 <= (key as int) % tc < tc,
                                    ;
                                    assert(!self.sub@[i as int].free_bits()[b]);
                                }
                            }
                            assert(all_unset_in(self.free_bits(), key as int, (i + 1) * tc));
                        }
                    },
                }
            } else {
                proof {
                    assert(!child_any(self.sub@[i as int]));
                    assert forall|j: int| key <= j < (i + 1) * tc implies !(
                    #[trigger] self.free_bits()[j]) by {
                        assert((i + 1) * tc <= 16 * tc) by (nonlinear_arith)
                            requires
                                i < 16,
                                tc >= 1,
                        ;
                        if j < i * tc {
                            lemma_all_unset_at(self.free_bits(), key as int, i * tc, j);
                        }
                        if j >= i * tc {
                            lemma_split_index(T::cap(), j);
                            let c = j / tc;
                            let b = j % tc;
                            assert(c == i) by (nonlinear_arith)
                                requires
                                    j == c * tc + b,
                                    0 <= b < tc,
                                    i * tc <= j < (i + 1) * tc,
                                    tc >= 1,
                            ;
                            if self.free_bits()[j] {
                                assert(self.sub@[c].free_bits()[b]);
                                assert(child_any(self.sub@[c]));
                            }
                        }
                    }
                    assert(all_unset_in(self.free_bits(), key as int, (i + 1) * tc));
                }
            }
            i += 1;
        }
        proof {
            assert(Self::cap() == 16 * tc);
            assert(i == 16);
            assert(i * tc == 16 * tc);
            assert(all_unset_in(self.free_bits(), key as int, 16 * tc));
            assert forall|j: int| key <= j < Self::cap() implies !self.free_bits()[j] by {
                lemma_all_unset_at(self.free_bits(), key as int, 16 * tc, j);
            }
        }
        None
    }
}

impl<T: BitAlloc> BitAllocCascade16<T> {
    /// Apply one marking to every child slice the range touches, and
    /// refresh the summary bits.
    #[verifier::loop_isolation(false)]
    fn for_range(&mut self, range: core::ops::Range<usize>, value: bool)
        requires
            old(self).wf(),
            Self::cap() <= usize::MAX,
            range.start <= range.end,
            range.end <= Self::cap(),
            range.start < range.end,
        ensures
            final(self).wf(),
            final(self).free_bits().len() == Self::cap(),
            forall|i: int|
                0 <= i < Self::cap() ==> final(self).free_bits()[i] == if range.start <= i
                    < range.end {
                    value
                } else {
                    old(self).free_bits()[i]
                },
    {
        proof {
            self.lemma_wf_len();
            self.sub@[0].lemma_wf_len();
            lemma_child_cap::<T>();
        }
        let ghost o = *self;
        let ghost tc = T::cap() as int;
        let start = range.start;
        let end = range.end;
        let tcap = T::capacity();
        let first = start / tcap;
        let last = (end - 1) / tcap;
        proof {
            lemma_split_index(T::cap(), start as int);
            lemma_split_index(T::cap(), end - 1);
            vstd::arithmetic::div_mod::lemma_div_is_ordered(start as int, end - 1, tc);
        }
        let mut i = first;
        while i <= last
            invariant
                self.wf(),
                tc == T::cap() as int,
                tc >= 16,
                T::cap() <= usize::MAX,
                tcap == T::cap(),
                start < end <= Self::cap(),
                first == start as int / tc,
                last == (end - 1) / tc,
                first <= i <= last + 1,
                0 <= first <= last < 16,
                self.sub@.len() == 16,
                marked_upto(
                    self.free_bits(),
                    o.free_bits(),
                    start as int,
                    end as int,
                    i * tc,
                    value,
                ),
            decreases last + 1 - i,
        {
            let begin = if start / tcap == i {
                start % tcap
            } else {
                0
            };
            let e = if end / tcap == i {
                end % tcap
            } else {
                tcap
            };
            proof {
                vstd::arithmetic::div_mod::lemma_fundamental_div_mod(start as int, tc);
                vstd::arithmetic::div_mod::lemma_mod_bound(start as int, tc);
                vstd::arithmetic::div_mod::lemma_fundamental_div_mod(end as int, tc);
                vstd::arithmetic::div_mod::lemma_mod_bound(end as int, tc);
                vstd::arithmetic::div_mod::lemma_fundamental_div_mod(end - 1, tc);
                vstd::arithmetic::div_mod::lemma_mod_bound(end - 1, tc);
                assert(begin < e) by (nonlinear_arith)
                    requires
                        start < end,
                        tc >= 1,
                        first <= i <= last,
                        first == start as int / tc,
                        last == (end - 1) / tc,
                        start == tc * (start as int / tc) + (start as int) % tc,
                        end == tc * (end as int / tc) + (end as int) % tc,
                        end - 1 == tc * ((end - 1) / tc) + (end - 1) % tc,
                        0 <= (start as int) % tc < tc,
                        0 <= (end as int) % tc < tc,
                        0 <= (end - 1) % tc < tc,
                        begin == if start as int / tc == i {
                            (start as int) % tc
                        } else {
                            0
                        },
                        e == if end as int / tc == i {
                            (end as int) % tc
                        } else {
                            tc
                        },
                ;
            }
            let ghost before = *self;
            let mut child = self.sub.remove(i);
            proof {
                assert(child == before.sub@[i as int]);
                child.lemma_wf_len();
            }
            if value {
                child.insert(begin..e);
            } else {
                child.remove(begin..e);
            }
            let still = child.any();
            self.sub.insert(i, child);
            self.bitset.set_bit(i, still);
            proof {
                assert(self.sub@ =~= before.sub@.update(i as int, child));
                assert forall|k: int| 0 <= k < 16 implies u16_bit(self.bitset, k) == child_any(
                    self.sub@[k],
                ) by {
                    assert(self.bitset.bit_at(k) == if k == i {
                        still
                    } else {
                        before.bitset.bit_at(k)
                    });
                    if k != i {
                        assert(self.sub@[k] == before.sub@[k]);
                    }
                    if k == i {
                        assert(self.sub@[k] == child);
                        if still {
                            let w = choose|j: int|
                                0 <= j < T::cap() && (#[trigger] child.free_bits()[j]);
                            assert(child_any(self.sub@[k]));
                        } else {
                            if child_any(self.sub@[k]) {
                                let w = choose|j: int|
                                    0 <= j < T::cap() && (#[trigger] self.sub@[k].free_bits()[j]);
                                assert(child.free_bits()[w]);
                            }
                        }
                    }
                }
                assert forall|j: int|
                    0 <= j < Self::cap() implies self.free_bits()[j] == if start <= j < end && j
                    < (i + 1) * tc {
                    value
                } else {
                    o.free_bits()[j]
                } by {
                    lemma_marked_at(
                        before.free_bits(),
                        o.free_bits(),
                        start as int,
                        end as int,
                        i * tc,
                        value,
                        j,
                    );
                    lemma_split_index(T::cap(), j);
                    let c = j / tc;
                    let b = j % tc;
                    if c == i {
                        assert(self.free_bits()[j] == child.free_bits()[b]);
                        assert(child.free_bits()[b] == if begin <= b < e {
                            value
                        } else {
                            before.sub@[i as int].free_bits()[b]
                        });
                        assert(before.free_bits()[j] == before.sub@[i as int].free_bits()[b]);
                        assert((begin <= b < e) == (start <= j < end)) by (nonlinear_arith)
                            requires
                                j == c * tc + b,
                                c == i,
                                0 <= b < tc,
                                first <= i <= last,
                                first == start as int / tc,
                                last == (end - 1) / tc,
                                start == tc * (start as int / tc) + (start as int) % tc,
                                end == tc * (end as int / tc) + (end as int) % tc,
                                end - 1 == tc * ((end - 1) / tc) + (end - 1) % tc,
                                0 <= (start as int) % tc < tc,
                                0 <= (end as int) % tc < tc,
                                0 <= (end - 1) % tc < tc,
                                begin == if start as int / tc == i {
                                    (start as int) % tc
                                } else {
                                    0
                                },
                                e == if end as int / tc == i {
                                    (end as int) % tc
                                } else {
                                    tc
                                },
                                tc >= 1,
                        ;
                        assert(j < (i + 1) * tc) by (nonlinear_arith)
                            requires
                                j == c * tc + b,
                                c == i,
                                0 <= b < tc,
                        ;
                    } else {
                        assert(self.free_bits()[j] == self.sub@[c].free_bits()[b]);
                        assert(self.sub@[c] == before.sub@[c]);
                        assert(before.free_bits()[j] == before.sub@[c].free_bits()[b]);
                        assert((j < i * tc) == (j < (i + 1) * tc)) by (nonlinear_arith)
                            requires
                                j == c * tc + b,
                                0 <= b < tc,
                                c != i,
                                tc >= 1,
                        ;
                    }
                }
                assert(marked_upto(
                    self.free_bits(),
                    o.free_bits(),
                    start as int,
                    end as int,
                    (i + 1) * tc,
                    value,
                ));
            }
            i += 1;
        }
        proof {
            vstd::arithmetic::div_mod::lemma_fundamental_div_mod(end - 1, tc);
            vstd::arithmetic::div_mod::lemma_mod_bound(end - 1, tc);
            assert forall|j: int|
                0 <= j < Self::cap() implies self.free_bits()[j] == if start <= j < end {
                value
            } else {
                o.free_bits()[j]
            } by {
                lemma_marked_at(
                    self.free_bits(),
                    o.free_bits(),
                    start as int,
                    end as int,
                    i * tc,
                    value,
                    j,
                );
                if start <= j < end {
                    assert(j < (last + 1) * tc) by (nonlinear_arith)
                        requires
                            j <= end - 1,
                            end - 1 == tc * last + (end - 1) % tc,
                            0 <= (end - 1) % tc < tc,
                            tc >= 1,
                    ;
                    assert(j < i * tc) by (nonlinear_arith)
                        requires
                            j < (last + 1) * tc,
                            i == last + 1,
                            tc >= 1,
                    ;
                }
            }
        }
    }
}

/// Shifting one left by `n` computes the power of two.
pub proof fn lemma_pow2_shift_u64(n: nat)
    requires
        n < 64,
    ensures
        (1u64 << (n as u64)) as nat == pow2(n),
    decreases n,
{
    if n == 0 {
        assert(1u64 << 0u64 == 1u64) by (bit_vector);
    } else {
        lemma_pow2_shift_u64((n - 1) as nat);
        let m = (n - 1) as u64;
        assert(m < 63 ==> ((1u64 << (m + 1)) == 2 * (1u64 << m) && (1u64 << m) <= 0x8000000000000000u64))
            by (bit_vector);
    }
}

/// Powers of two are positive.
pub proof fn lemma_pow2_pos(n: nat)
    ensures
        pow2(n) >= 1,
    decreases n,
{
    if n > 0 {
        lemma_pow2_pos((n - 1) as nat);
    }
}

/// Rounding up to the next multiple of `step` after `next - 1`: the result
/// is the least multiple of `step` that is at least `next`.
proof fn lemma_align_up(next: int, step: int)
    requires
        next >= 1,
        step >= 1,
    ensures
        ((((next - 1) / step) + 1) * step) % step == 0,
        next <= (((next - 1) / step) + 1) * step < next + step,
        forall|b2: int|
            (#[trigger] (b2 % step)) == 0 && b2 < (((next - 1) / step) + 1) * step ==> b2 <= next
                - 1,
{
    let q = (next - 1) / step;
    vstd::arithmetic::div_mod::lemma_fundamental_div_mod(next - 1, step);
    let rr = (next - 1) % step;
    vstd::arithmetic::div_mod::lemma_mod_bound(next - 1, step);
    assert(next - 1 == q * step + rr);
    assert((q + 1) * step == q * step + step) by (nonlinear_arith);
    assert(((q + 1) * step) % step == 0) by {
        vstd::arithmetic::div_mod::lemma_mod_multiples_basic(q + 1, step);
    }
    assert forall|b2: int|
        (#[trigger] (b2 % step)) == 0 && b2 < (q + 1) * step implies b2 <= next - 1 by {
        let k = b2 / step;
        vstd::arithmetic::div_mod::lemma_fundamental_div_mod(b2, step);
        assert(b2 == k * step);
        assert(k * step < (q + 1) * step ==> k < q + 1) by (nonlinear_arith)
            requires
                step >= 1,
        ;
        assert(k <= q ==> k * step <= q * step) by (nonlinear_arith)
            requires
                step >= 1,
        ;
    }
}


/// A bitmap of 256 bits.
pub type BitAlloc256 = BitAllocCascade16<BitAlloc16>;

/// A bitmap of 4K bits.
pub type BitAlloc4K = BitAllocCascade16<BitAlloc256>;

/// A bitmap of 64K bits.
pub type BitAlloc64K = BitAllocCascade16<BitAlloc4K>;

/// A bitmap of 1M bits.
pub type BitAlloc1M = BitAllocCascade16<BitAlloc64K>;

impl Default for BitAlloc16 {
    /// The empty leaf: no bit available.
    fn default() -> (r: BitAlloc16)
        ensures
            r.wf(),
            forall|i: int| 0 <= i < 16 ==> !r.free_bits()[i],
    {
        BitAlloc16::empty()
    }
}

impl<T: BitAlloc> Default for BitAllocCascade16<T> {
    /// The empty cascade: no bit available.
    fn default() -> (r: BitAllocCascade16<T>)
        ensures
            r.wf(),
            forall|i: int|
                0 <= i < <BitAllocCascade16<T> as BitAlloc>::cap() ==> !r.free_bits()[i],
    {
        BitAllocCascade16::<T>::empty()
    }
}

/// The bits below `upto` agree with the raw words of the bitmap.
pub open spec fn bits_match_below(bits: Seq<bool>, words: Seq<u16>, upto: int) -> bool {
    forall|i: int| 0 <= i < upto ==> (#[trigger] bits[i]) == u16_bit(words[i / 16], i % 16)
}

/// Instantiate [`bits_match_below`] at one position.
pub proof fn lemma_bits_match_at(bits: Seq<bool>, words: Seq<u16>, upto: int, i: int)
    requires
        bits_match_below(bits, words, upto),
        0 <= i < upto,
    ensures
        bits[i] == u16_bit(words[i / 16], i % 16),
{
}

/// Build an allocator whose availability map is given by raw words, low
/// words first: start empty and free every set bit.
#[verifier::loop_isolation(false)]
pub fn from_bitmap<T: BitAlloc, const N: usize>(bitmap: &[u16; N]) -> (r: T)
    requires
        N * 16 == T::cap(),
        T::cap() <= usize::MAX,
    ensures
        r.wf(),
        forall|i: int|
            0 <= i < T::cap() ==> (#[trigger] r.free_bits()[i]) == u16_bit(
                bitmap@[i / 16],
                i % 16,
            ),
{
    let mut r = T::empty();
    proof {
        r.lemma_wf_len();
        assert(all_unset_in(r.free_bits(), 0, T::cap() as int));
        assert(bits_match_below(r.free_bits(), bitmap@, 0));
    }
    let mut w: usize = 0;
    while w < N
        invariant
            r.wf(),
            w <= N,
            bits_match_below(r.free_bits(), bitmap@, w * 16),
            all_unset_in(r.free_bits(), w * 16, T::cap() as int),
        decreases N - w,
    {
        let word = bitmap[w];
        let mut b: usize = 0;
        proof {
            assert(w * 16 + 16 <= N * 16) by (nonlinear_arith)
                requires
                    w < N,
            ;
        }
        while b < 16
            invariant
                r.wf(),
                w < N,
                b <= 16,
                word == bitmap@[w as int],
                w * 16 + 16 <= T::cap(),
                bits_match_below(r.free_bits(), bitmap@, w * 16 + b),
                all_unset_in(r.free_bits(), w * 16 + b, T::cap() as int),
            decreases 16 - b,
        {
            let ghost prev = r.free_bits();
            let idx = w * 16 + b;
            proof {
                r.lemma_wf_len();
                vstd::arithmetic::div_mod::lemma_fundamental_div_mod_converse(
                    idx as int,
                    16,
                    w as int,
                    b as int,
                );
                assert(idx as int / 16 == w && idx as int % 16 == b);
            }
            let is_set = word.get_bit(b);
            if is_set {
                r.dealloc(idx);
            }
            proof {
                r.lemma_wf_len();
                let cur = r.free_bits();
                assert(is_set == u16_bit(word, b as int));
                assert(prev.len() == T::cap());
                assert(0 <= idx < prev.len());
                if is_set {
                    assert(cur == prev.update(idx as int, true));
                } else {
                    assert(cur == prev);
                }
                assert forall|i: int|
                    0 <= i < w * 16 + b + 1 implies (#[trigger] cur[i]) == u16_bit(
                    bitmap@[i / 16],
                    i % 16,
                ) by {
                    if i < w * 16 + b {
                        lemma_bits_match_at(prev, bitmap@, w * 16 + b, i);
                        if is_set {
                            assert(prev.update(idx as int, true)[i] == prev[i]);
                        }
                        assert(cur[i] == prev[i]);
                    } else {
                        assert(i == idx);
                        if is_set {
                            assert(prev.update(idx as int, true)[idx as int] == true);
                            assert(cur[i] == true);
                        } else {
                            lemma_all_unset_at(prev, w * 16 + b, T::cap() as int, i);
                            assert(cur[i] == false);
                        }
                        assert(bitmap@[i / 16] == word);
                        assert(i % 16 == b);
                    }
                }
                assert(bits_match_below(cur, bitmap@, w * 16 + b + 1));
                assert forall|i: int| w * 16 + b + 1 <= i < T::cap() implies !(#[trigger] cur[
                i]) by {
                    lemma_all_unset_at(prev, w * 16 + b, T::cap() as int, i);
                    if is_set {
                        assert(prev.update(idx as int, true)[i] == prev[i]);
                    }
                    assert(cur[i] == prev[i]);
                }
                assert(all_unset_in(cur, w * 16 + b + 1, T::cap() as int));
            }
            b += 1;
        }
        proof {
            assert(w * 16 + 16 == (w + 1) * 16) by (nonlinear_arith);
        }
        w += 1;
    }
    proof {
        assert(N * 16 == T::cap());
        assert forall|i: int| 0 <= i < T::cap() implies (#[trigger] r.free_bits()[i]) == u16_bit(
            bitmap@[i / 16],
            i % 16,
        ) by {
            lemma_bits_match_at(r.free_bits(), bitmap@, N as int * 16, i);
        }
    }
    r
}

impl BitAlloc256 {
    /// Build a 256-bit map from its sixteen raw words.
    pub fn verieasy_new(bitmap: [u16; 16]) -> (r: BitAlloc256)
        ensures
            r.wf(),
            forall|i: int|
                0 <= i < 256 ==> (#[trigger] r.free_bits()[i]) == u16_bit(
                    bitmap@[i / 16],
                    i % 16,
                ),
    {
        from_bitmap::<BitAlloc256, 16>(&bitmap)
    }
}

impl BitAlloc4K {
    /// Build a 4K-bit map from its raw words.
    pub fn verieasy_new(bitmap: [u16; 256]) -> (r: BitAlloc4K)
        ensures
            r.wf(),
            forall|i: int|
                0 <= i < 4096 ==> (#[trigger] r.free_bits()[i]) == u16_bit(
                    bitmap@[i / 16],
                    i % 16,
                ),
    {
        from_bitmap::<BitAlloc4K, 256>(&bitmap)
    }
}

impl BitAlloc64K {
    /// Build a 64K-bit map from its raw words.
    pub fn verieasy_new(bitmap: [u16; 4096]) -> (r: BitAlloc64K)
        ensures
            r.wf(),
            forall|i: int|
                0 <= i < 65536 ==> (#[trigger] r.free_bits()[i]) == u16_bit(
                    bitmap@[i / 16],
                    i % 16,
                ),
    {
        from_bitmap::<BitAlloc64K, 4096>(&bitmap)
    }
}

impl BitAlloc1M {
    /// Build a 1M-bit map from its raw words.
    pub fn verieasy_new(bitmap: [u16; 65536]) -> (r: BitAlloc1M)
        ensures
            r.wf(),
            forall|i: int|
                0 <= i < 1048576 ==> (#[trigger] r.free_bits()[i]) == u16_bit(
                    bitmap@[i / 16],
                    i % 16,
                ),
    {
        from_bitmap::<BitAlloc1M, 65536>(&bitmap)
    }
}

/// Pin the first-fit result: the expected base is valid and every stepped
/// candidate below it is not.
pub proof fn lemma_first_fit_pins(
    bits: Seq<bool>,
    capacity: nat,
    size: nat,
    align_log2: nat,
    expected: int,
)
    requires
        size >= 1,
        align_log2 < 64,
        pow2(align_log2) <= capacity,
        exists|i: int| 0 <= i < bits.len() && bits[i],
        expected % (pow2(align_log2) as int) == 0,
        0 <= expected,
        expected + size <= capacity,
        window_free(bits, expected, size),
        forall|b2: int|
            0 <= b2 < expected && (#[trigger] (b2 % (pow2(align_log2) as int))) == 0 ==> !(b2
                + size <= capacity && window_free(bits, b2, size)),
    ensures
        first_fit(bits, capacity, size, align_log2) == Some(expected),
{
    lemma_pow2_pos(align_log2);
    lemma_some_case(bits, capacity, size, pow2(align_log2), expected);
}

/// Pin a first-fit failure: every stepped candidate carries a hole.
pub proof fn lemma_first_fit_refuses(
    bits: Seq<bool>,
    capacity: nat,
    size: nat,
    align_log2: nat,
)
    requires
        size >= 1,
        align_log2 < 64,
        forall|b2: int|
            0 <= b2 && (#[trigger] (b2 % (pow2(align_log2) as int))) == 0 ==> !(b2 + size
                <= capacity && window_free(bits, b2, size)),
    ensures
        first_fit(bits, capacity, size, align_log2) is None,
{
    lemma_pow2_pos(align_log2);
    let step = pow2(align_log2);
    lemma_first_fit_from(bits, capacity, size, step, 0);
    match first_fit_from(bits, capacity, size, step, 0) {
        Some(b) => {
            assert((b - 0) % (step as int) == 0);
            assert(!(b + size <= capacity && window_free(bits, b, size)));
        },
        None => {},
    }
}

/// Drive the sixteen-bit leaf through its paces; every assertion is
/// discharged statically from the contracts.
pub fn bitalloc16() {
    let mut ba = BitAlloc16::default();
    let c = BitAlloc16::capacity();
    assert(c == 16);
    ba.insert(0..16);
    let ghost b1 = ba.free_bits();
    let mut i: usize = 0;
    while i < 16
        invariant
            ba.wf(),
            ba.free_bits() == b1,
            forall|j: int| 0 <= j < 16 ==> b1[j],
        decreases 16 - i,
    {
        let t = ba.test(i);
        assert(t);
        i += 1;
    }
    ba.remove(2..8);
    let ghost b2 = ba.free_bits();
    proof {
        assert(forall|j: int| 0 <= j < 16 ==> b2[j] == (j < 2 || j >= 8));
    }
    let r = ba.allocate();
    proof {
        if r is None {
            assert(!b2[0]);
        }
        if r is Some && r.unwrap() != 0 {
            assert(!b2[0]);
        }
    }
    assert(r == Some(0usize));
    let ghost b3 = ba.free_bits();
    proof {
        assert(forall|j: int| 0 <= j < 16 ==> b3[j] == (j == 1 || j >= 8));
    }
    let r = ba.allocate();
    proof {
        if r is None {
            assert(!b3[1]);
        }
        if r is Some && r.unwrap() != 1 {
            if r.unwrap() < 1 {
                assert(b3[r.unwrap() as int]);
            } else {
                assert(!b3[1]);
            }
        }
    }
    assert(r == Some(1usize));
    let ghost b4 = ba.free_bits();
    proof {
        assert(forall|j: int| 0 <= j < 16 ==> b4[j] == (j >= 8));
    }
    let r = ba.allocate();
    proof {
        if r is None {
            assert(!b4[8]);
        }
        if r is Some && r.unwrap() != 8 {
            if r.unwrap() < 8 {
                assert(b4[r.unwrap() as int]);
            } else {
                assert(!b4[8]);
            }
        }
    }
    assert(r == Some(8usize));
    ba.dealloc(0);
    ba.dealloc(1);
    ba.dealloc(8);
    let ghost s0 = ba.free_bits();
    proof {
        assert(forall|j: int| 0 <= j < 16 ==> s0[j] == (j < 2 || j >= 8));
    }
    let mut k: usize = 0;
    let ghost order = seq![0int, 1, 8, 9, 10, 11, 12, 13, 14, 15];
    while k < 10
        invariant
            ba.wf(),
            k <= 10,
            order == seq![0int, 1, 8, 9, 10, 11, 12, 13, 14, 15],
            forall|j: int|
                0 <= j < 16 ==> ba.free_bits()[j] == exists|m: int| k <= m < 10 && order[m] == j,
        decreases 10 - k,
    {
        let ghost pre = ba.free_bits();
        let r = ba.allocate();
        proof {
            let e = order[k as int];
            assert(pre[e]) by {
                assert(k <= k < 10 && order[k as int] == e);
            }
            if r is None {
                assert(!pre[e]);
            }
        }
        assert(r.is_some());
        proof {
            let e = order[k as int];
            let got = r.unwrap() as int;
            if got != e {
                if got < e {
                    let m = choose|m: int| k <= m < 10 && order[m] == got;
                    assert(m > k);
                    assert(order[m] > order[k as int]) by {
                        assert(forall|a: int, b: int|
                            0 <= a < b < 10 ==> order[a] < order[b]);
                    }
                } else {
                    assert(!pre[e]);
                    assert(pre[e]);
                }
            }
            assert(got == e);
            assert forall|j: int|
                0 <= j < 16 implies ba.free_bits()[j] == exists|m: int|
                k + 1 <= m < 10 && order[m] == j by {
                if j == e {
                    if exists|m: int| k + 1 <= m < 10 && order[m] == j {
                        let m = choose|m: int| k + 1 <= m < 10 && order[m] == j;
                        assert(order[m] != order[k as int] || m == k);
                        assert(forall|a: int, b: int|
                            0 <= a < b < 10 ==> order[a] < order[b]);
                    }
                } else {
                    if pre[j] {
                        let m = choose|m: int| k <= m < 10 && order[m] == j;
                        assert(m != k);
                        assert(k + 1 <= m < 10 && order[m] == j);
                    }
                }
            }
        }
        k += 1;
    }
    proof {
        assert forall|j: int| 0 <= j < 16 implies !ba.free_bits()[j] by {
            if exists|m: int| 10 <= m < 10 && order[m] == j {
                let m = choose|m: int| 10 <= m < 10 && order[m] == j;
            }
        }
    }
    let a = ba.any();
    assert(!a);
    let r = ba.allocate();
    assert(r.is_none());
}

/// Drive the 4K cascade through its paces; every assertion is discharged
/// statically from the contracts.
pub fn bitalloc4k() {
    let mut ba = BitAlloc4K::default();
    let cap = BitAlloc4K::capacity();
    assert(cap == 4096);
    ba.insert(0..4096);
    let ghost b1 = ba.free_bits();
    let mut i: usize = 0;
    while i < 4096
        invariant
            ba.wf(),
            ba.free_bits() == b1,
            b1.len() == 4096,
            forall|j: int| 0 <= j < 4096 ==> b1[j],
        decreases 4096 - i,
    {
        let t = ba.test(i);
        assert(t);
        i += 1;
    }
    ba.remove(2..4094);
    let ghost b2 = ba.free_bits();
    proof {
        assert(forall|j: int| 0 <= j < 4096 ==> b2[j] == (j < 2 || j >= 4094));
    }
    let mut i: usize = 0;
    while i < 4096
        invariant
            ba.wf(),
            ba.free_bits() == b2,
            b2.len() == 4096,
            forall|j: int| 0 <= j < 4096 ==> b2[j] == (j < 2 || j >= 4094),
        decreases 4096 - i,
    {
        let t = ba.test(i);
        assert(t == (i < 2 || i >= 4094));
        i += 1;
    }
    let r = ba.allocate();
    proof {
        if r is None {
            assert(!b2[0]);
        }
        if r is Some && r.unwrap() != 0 {
            assert(!b2[0]);
        }
    }
    assert(r == Some(0usize));
    let ghost b3 = ba.free_bits();
    proof {
        assert(forall|j: int| 0 <= j < 4096 ==> b3[j] == (j == 1 || j >= 4094));
    }
    let r = ba.allocate();
    proof {
        if r is None {
            assert(!b3[1]);
        }
        if r is Some && r.unwrap() != 1 {
            if r.unwrap() < 1 {
                assert(b3[r.unwrap() as int]);
            } else {
                assert(!b3[1]);
            }
        }
    }
    assert(r == Some(1usize));
    let ghost b4 = ba.free_bits();
    proof {
        assert(forall|j: int| 0 <= j < 4096 ==> b4[j] == (j >= 4094));
    }
    let r = ba.allocate();
    proof {
        if r is None {
            assert(!b4[4094]);
        }
        if r is Some && r.unwrap() != 4094 {
            if r.unwrap() < 4094 {
                assert(b4[r.unwrap() as int]);
            } else {
                assert(!b4[4094]);
            }
        }
    }
    assert(r == Some(4094usize));
    ba.dealloc(0);
    ba.dealloc(1);
    ba.dealloc(4094);
    let ghost s0 = ba.free_bits();
    proof {
        assert(forall|j: int| 0 <= j < 4096 ==> s0[j] == (j < 2 || j >= 4094));
    }
    let mut k: usize = 0;
    let ghost order = seq![0int, 1, 4094, 4095];
    while k < 4
        invariant
            ba.wf(),
            k <= 4,
            order == seq![0int, 1, 4094, 4095],
            forall|j: int|
                0 <= j < 4096 ==> ba.free_bits()[j] == exists|m: int| k <= m < 4 && order[m] == j,
        decreases 4 - k,
    {
        let ghost pre = ba.free_bits();
        let r = ba.allocate();
        proof {
            let e = order[k as int];
            assert(pre[e]) by {
                assert(k <= k < 4 && order[k as int] == e);
            }
            if r is None {
                assert(!pre[e]);
            }
        }
        assert(r.is_some());
        proof {
            let e = order[k as int];
            let got = r.unwrap() as int;
            if got != e {
                if got < e {
                    let m = choose|m: int| k <= m < 4 && order[m] == got;
                    assert(m > k);
                    assert(forall|a: int, b: int| 0 <= a < b < 4 ==> order[a] < order[b]);
                } else {
                    assert(!pre[e]);
                    assert(pre[e]);
                }
            }
            assert(got == e);
            assert forall|j: int|
                0 <= j < 4096 implies ba.free_bits()[j] == exists|m: int|
                k + 1 <= m < 4 && order[m] == j by {
                if j == e {
                    if exists|m: int| k + 1 <= m < 4 && order[m] == j {
                        let m = choose|m: int| k + 1 <= m < 4 && order[m] == j;
                        assert(forall|a: int, b: int| 0 <= a < b < 4 ==> order[a] < order[b]);
                    }
                } else {
                    if pre[j] {
                        let m = choose|m: int| k <= m < 4 && order[m] == j;
                        assert(m != k);
                        assert(k + 1 <= m < 4 && order[m] == j);
                    }
                }
            }
        }
        k += 1;
    }
    proof {
        assert forall|j: int| 0 <= j < 4096 implies !ba.free_bits()[j] by {
            if exists|m: int| 4 <= m < 4 && order[m] == j {
                let m = choose|m: int| 4 <= m < 4 && order[m] == j;
            }
        }
    }
    let r = ba.allocate();
    assert(r.is_none());
}

/// Small powers of two, unfolded.
proof fn lemma_small_pow2()
    ensures
        pow2(0) == 1,
        pow2(1) == 2,
        pow2(2) == 4,
        pow2(3) == 8,
        pow2(4) == 16,
        pow2(5) == 32,
        pow2(6) == 64,
        pow2(7) == 128,
{
    assert(pow2(0) == 1);
    assert(pow2(1) == 2);
    assert(pow2(2) == 4);
    assert(pow2(3) == 8);
    assert(pow2(4) == 16);
    assert(pow2(5) == 32);
    assert(pow2(6) == 64);
    assert(pow2(7) == 128);
}

/// Drive the contiguous first-fit search through its paces, on the leaf and
/// on the 4K cascade; every assertion is discharged statically.
#[verifier::rlimit(100)]
pub fn bitalloc_contiguous() {
    proof {
        lemma_small_pow2();
    }
    let mut ba0 = BitAlloc16::default();
    ba0.insert(0..16);
    ba0.remove(3..6);
    let ghost t1 = ba0.free_bits();
    proof {
        assert(forall|j: int| 0 <= j < 16 ==> t1[j] == !(3 <= j < 6));
    }
    let r = ba0.next(0);
    proof {
        if r is None {
            assert(!t1[0]);
        }
        if r is Some && r.unwrap() != 0 {
            assert(!t1[0]);
        }
    }
    assert(r == Some(0usize));
    proof {
        assert(t1[0]);
        lemma_first_fit_pins(t1, 16, 1, 1, 0);
    }
    let r = alloc_contiguous(&mut ba0, 1, 1);
    assert(r == Some(0usize));
    let ghost t2 = ba0.free_bits();
    proof {
        assert(forall|j: int| 0 <= j < 16 ==> t2[j] == (j != 0 && !(3 <= j < 6)));
        assert forall|b2: int|
            0 <= b2 < 1 && (#[trigger] (b2 % (pow2(0) as int))) == 0 implies !(b2 + 2 <= 4096
            && window_free(t2, b2, 2)) by {
            if window_free(t2, b2, 2) {
                lemma_window_at(t2, b2, 2, b2);
            }
        }
        assert(window_free(t2, 1, 2));
        assert(t2[1]);
        lemma_first_fit_pins(t2, 4096, 2, 0, 1);
    }
    let r = find_contiguous(&ba0, 4096, 2, 0);
    assert(r == Some(1usize));

    let mut ba = BitAlloc4K::default();
    let r = ba.allocate();
    proof {
        if r is Some {
            assert(false);
        }
    }
    let cap = BitAlloc4K::capacity();
    assert(cap == 4096);
    ba.insert(0..4096);
    ba.remove(3..6);
    let ghost s1 = ba.free_bits();
    proof {
        assert(forall|j: int| 0 <= j < 4096 ==> s1[j] == !(3 <= j < 6));
    }
    let r = ba.next(0);
    proof {
        if r is None {
            assert(!s1[0]);
        }
        if r is Some && r.unwrap() != 0 {
            assert(!s1[0]);
        }
    }
    assert(r == Some(0usize));
    proof {
        assert(s1[0]);
        lemma_first_fit_pins(s1, 4096, 1, 1, 0);
    }
    let r = alloc_contiguous(&mut ba, 1, 1);
    assert(r == Some(0usize));
    let ghost s2 = ba.free_bits();
    proof {
        assert(forall|j: int| 0 <= j < 4096 ==> s2[j] == (j != 0 && !(3 <= j < 6)));
    }
    let r = ba.next(0);
    proof {
        if r is None {
            assert(!s2[1]);
        }
        if r is Some {
            let n = r.unwrap() as int;
            if n > 1 {
                assert(!s2[1]);
            }
            if n < 1 {
                assert(s2[n]);
            }
        }
    }
    assert(r == Some(1usize));
    let r = ba.next(1);
    proof {
        if r is None {
            assert(!s2[1]);
        }
        if r is Some && r.unwrap() != 1 {
            assert(!s2[1]);
        }
    }
    assert(r == Some(1usize));
    let r = ba.next(2);
    proof {
        if r is None {
            assert(!s2[2]);
        }
        if r is Some && r.unwrap() != 2 {
            assert(!s2[2]);
        }
    }
    assert(r == Some(2usize));
    proof {
        assert forall|b2: int|
            0 <= b2 < 1 && (#[trigger] (b2 % (pow2(0) as int))) == 0 implies !(b2 + 2 <= 4096
            && window_free(s2, b2, 2)) by {
            if window_free(s2, b2, 2) {
                lemma_window_at(s2, b2, 2, b2);
            }
        }
        assert(window_free(s2, 1, 2));
        assert(s2[1]);
        lemma_first_fit_pins(s2, 4096, 2, 0, 1);
    }
    let r = find_contiguous(&ba, 4096, 2, 0);
    assert(r == Some(1usize));
    let r = alloc_contiguous(&mut ba, 2, 0);
    assert(r == Some(1usize));
    let ghost s3 = ba.free_bits();
    proof {
        assert(forall|j: int| 0 <= j < 4096 ==> s3[j] == (6 <= j));
        assert forall|b2: int|
            0 <= b2 < 8 && (#[trigger] (b2 % (pow2(3) as int))) == 0 implies !(b2 + 2 <= 4096
            && window_free(s3, b2, 2)) by {
            if window_free(s3, b2, 2) {
                lemma_window_at(s3, b2, 2, b2);
            }
        }
        assert(window_free(s3, 8, 2));
        assert(s3[8]);
        lemma_first_fit_pins(s3, 4096, 2, 3, 8);
    }
    let r = alloc_contiguous(&mut ba, 2, 3);
    assert(r == Some(8usize));
    let ghost s4 = ba.free_bits();
    proof {
        assert(forall|j: int| 0 <= j < 4096 ==> s4[j] == (j == 6 || j == 7 || 10 <= j));
    }
    ba.remove(0..4032);
    let ghost s5 = ba.free_bits();
    proof {
        assert(forall|j: int| 0 <= j < 4096 ==> s5[j] == (4032 <= j));
        assert forall|b2: int|
            0 <= b2 && (#[trigger] (b2 % (pow2(7) as int))) == 0 implies !(b2 + 128 <= 4096
            && window_free(s5, b2, 128)) by {
            if b2 + 128 <= 4096 && window_free(s5, b2, 128) {
                assert(b2 <= 3968);
                vstd::arithmetic::div_mod::lemma_mod_bound(b2, 128);
                vstd::arithmetic::div_mod::lemma_fundamental_div_mod(b2, 128);
                assert(b2 < 4032);
                lemma_window_at(s5, b2, 128, b2);
            }
        }
        lemma_first_fit_refuses(s5, 4096, 128, 7);
    }
    let r = alloc_contiguous(&mut ba, 128, 7);
    assert(r.is_none());
    proof {
        assert forall|b2: int|
            0 <= b2 < 4032 && (#[trigger] (b2 % (pow2(3) as int))) == 0 implies !(b2 + 7 <= 4096
            && window_free(s5, b2, 7)) by {
            if window_free(s5, b2, 7) {
                lemma_window_at(s5, b2, 7, b2);
            }
        }
        assert(window_free(s5, 4032, 7));
        assert(4032int % 8 == 0);
        assert(s5[4032]);
        lemma_first_fit_pins(s5, 4096, 7, 3, 4032);
    }
    let r = alloc_contiguous(&mut ba, 7, 3);
    assert(r == Some(4032usize));
    let ghost s6 = ba.free_bits();
    proof {
        assert(forall|j: int| 0 <= j < 4096 ==> s6[j] == (4039 <= j));
    }
    ba.insert(321..323);
    let ghost s7 = ba.free_bits();
    proof {
        assert(forall|j: int| 0 <= j < 4096 ==> s7[j] == (j == 321 || j == 322 || 4039 <= j));
        assert forall|b2: int|
            0 <= b2 < 4040 && (#[trigger] (b2 % (pow2(1) as int))) == 0 implies !(b2 + 2 <= 4096
            && window_free(s7, b2, 2)) by {
            if b2 + 2 <= 4096 && window_free(s7, b2, 2) {
                if b2 == 322 {
                    lemma_window_at(s7, b2, 2, 323);
                } else {
                    assert(b2 != 321) by {
                        if b2 == 321 {
                            assert(321int % 2 == 1);
                        }
                    }
                    lemma_window_at(s7, b2, 2, b2);
                    if 4039 <= b2 {
                        assert(b2 == 4039);
                        assert(4039int % 2 == 1);
                    }
                }
            }
        }
        assert(window_free(s7, 4040, 2));
        assert(4040int % 2 == 0);
        assert(s7[4040]);
        lemma_first_fit_pins(s7, 4096, 2, 1, 4040);
    }
    let r = alloc_contiguous(&mut ba, 2, 1);
    assert(r == Some(4040usize));
    let ghost s8 = ba.free_bits();
    proof {
        assert(forall|j: int|
            0 <= j < 4096 ==> s8[j] == (j == 321 || j == 322 || j == 4039 || 4042 <= j));
        assert forall|b2: int|
            0 <= b2 < 321 && (#[trigger] (b2 % (pow2(0) as int))) == 0 implies !(b2 + 2 <= 4096
            && window_free(s8, b2, 2)) by {
            if window_free(s8, b2, 2) {
                lemma_window_at(s8, b2, 2, b2);
            }
        }
        assert(window_free(s8, 321, 2));
        assert(s8[321]);
        lemma_first_fit_pins(s8, 4096, 2, 0, 321);
    }
    let r = alloc_contiguous(&mut ba, 2, 0);
    assert(r == Some(321usize));
    let ghost s9 = ba.free_bits();
    proof {
        assert(forall|j: int| 0 <= j < 4096 ==> s9[j] == (j == 4039 || 4042 <= j));
        assert forall|b2: int|
            0 <= b2 && (#[trigger] (b2 % (pow2(6) as int))) == 0 implies !(b2 + 64 <= 4096
            && window_free(s9, b2, 64)) by {
            if b2 + 64 <= 4096 && window_free(s9, b2, 64) {
                assert(b2 <= 4032);
                vstd::arithmetic::div_mod::lemma_mod_bound(b2, 64);
                vstd::arithmetic::div_mod::lemma_fundamental_div_mod(b2, 64);
                assert(b2 != 4039 && b2 < 4042) by {
                    if b2 == 4039 {
                        assert(4039int % 64 == 7);
                    }
                }
                lemma_window_at(s9, b2, 64, b2);
            }
        }
        lemma_first_fit_refuses(s9, 4096, 64, 6);
    }
    let r = alloc_contiguous(&mut ba, 64, 6);
    assert(r.is_none());
    proof {
        assert forall|b2: int|
            0 <= b2 < 4048 && (#[trigger] (b2 % (pow2(4) as int))) == 0 implies !(b2 + 32 <= 4096
            && window_free(s9, b2, 32)) by {
            if b2 + 32 <= 4096 && window_free(s9, b2, 32) {
                assert(b2 != 4039 && !(4042 <= b2)) by {
                    if b2 == 4039 {
                        assert(4039int % 16 == 7);
                    }
                    if 4042 <= b2 {
                        assert(b2 <= 4032 || b2 == 4036 || false) by {
                            vstd::arithmetic::div_mod::lemma_fundamental_div_mod(b2, 16);
                            vstd::arithmetic::div_mod::lemma_mod_bound(b2, 16);
                        }
                    }
                }
                lemma_window_at(s9, b2, 32, b2);
            }
        }
        assert(window_free(s9, 4048, 32));
        assert(4048int % 16 == 0);
        assert(s9[4048]);
        lemma_first_fit_pins(s9, 4096, 32, 4, 4048);
    }
    let r = alloc_contiguous(&mut ba, 32, 4);
    assert(r == Some(4048usize));
    let mut i: usize = 0;
    while i < 4039
        invariant
            ba.wf(),
        decreases 4039 - i,
    {
        ba.dealloc(i);
        i += 1;
    }
    let mut i: usize = 4040;
    while i < 4042
        invariant
            ba.wf(),
            i >= 4040,
        decreases 4042 - i,
    {
        ba.dealloc(i);
        i += 1;
    }
    let mut i: usize = 4048;
    while i < 4080
        invariant
            ba.wf(),
            i >= 4048,
        decreases 4080 - i,
    {
        ba.dealloc(i);
        i += 1;
    }
}

/// Drive the contiguous first-fit search on the map of a million bits;
/// every assertion is discharged statically.
#[verifier::rlimit(100)]
pub fn bitalloc1m() {
    proof {
        lemma_small_pow2();
    }
    let mut ba0 = BitAlloc1M::default();
    let cap = BitAlloc1M::capacity();
    assert(cap == 1048576);
    ba0.insert(0..cap);
    ba0.remove(3..6);
    let ghost t1 = ba0.free_bits();
    proof {
        assert(forall|j: int| 0 <= j < 1048576 ==> t1[j] == !(3 <= j < 6));
    }
    let r = ba0.next(0);
    proof {
        if r is None {
            assert(!t1[0]);
        }
        if r is Some && r.unwrap() != 0 {
            assert(!t1[0]);
        }
    }
    assert(r == Some(0usize));
    proof {
        assert(t1[0]);
        lemma_first_fit_pins(t1, 1048576, 1, 1, 0);
    }
    let r = alloc_contiguous(&mut ba0, 1, 1);
    assert(r == Some(0usize));
    let ghost t2 = ba0.free_bits();
    proof {
        assert(forall|j: int| 0 <= j < 1048576 ==> t2[j] == (j != 0 && !(3 <= j < 6)));
        assert forall|b2: int|
            0 <= b2 < 1 && (#[trigger] (b2 % (pow2(0) as int))) == 0 implies !(b2 + 2 <= 4096
            && window_free(t2, b2, 2)) by {
            if window_free(t2, b2, 2) {
                lemma_window_at(t2, b2, 2, b2);
            }
        }
        assert(window_free(t2, 1, 2));
        assert(t2[1]);
        lemma_first_fit_pins(t2, 4096, 2, 0, 1);
    }
    let r = find_contiguous(&ba0, 4096, 2, 0);
    assert(r == Some(1usize));

    let mut ba = BitAlloc1M::default();
    let r = ba.allocate();
    proof {
        if r is Some {
            assert(false);
        }
    }
    ba.insert(0..cap);
    ba.remove(3..6);
    let ghost s1 = ba.free_bits();
    proof {
        assert(forall|j: int| 0 <= j < 1048576 ==> s1[j] == !(3 <= j < 6));
    }
    let r = ba.next(0);
    proof {
        if r is None {
            assert(!s1[0]);
        }
        if r is Some && r.unwrap() != 0 {
            assert(!s1[0]);
        }
    }
    assert(r == Some(0usize));
    proof {
        assert(s1[0]);
        lemma_first_fit_pins(s1, 1048576, 1, 1, 0);
    }
    let r = alloc_contiguous(&mut ba, 1, 1);
    assert(r == Some(0usize));
    let ghost s2 = ba.free_bits();
    proof {
        assert(forall|j: int| 0 <= j < 1048576 ==> s2[j] == (j != 0 && !(3 <= j < 6)));
    }
    let r = ba.next(0);
    proof {
        if r is None {
            assert(!s2[1]);
        }
        if r is Some {
            let n = r.unwrap() as int;
            if n > 1 {
                assert(!s2[1]);
            }
            if n < 1 {
                assert(s2[n]);
            }
        }
    }
    assert(r == Some(1usize));
    let r = ba.next(1);
    proof {
        if r is None {
            assert(!s2[1]);
        }
        if r is Some && r.unwrap() != 1 {
            assert(!s2[1]);
        }
    }
    assert(r == Some(1usize));
    let r = ba.next(2);
    proof {
        if r is None {
            assert(!s2[2]);
        }
        if r is Some && r.unwrap() != 2 {
            assert(!s2[2]);
        }
    }
    assert(r == Some(2usize));
    proof {
        assert forall|b2: int|
            0 <= b2 < 1 && (#[trigger] (b2 % (pow2(0) as int))) == 0 implies !(b2 + 2 <= 1048576
            && window_free(s2, b2, 2)) by {
            if window_free(s2, b2, 2) {
                lemma_window_at(s2, b2, 2, b2);
            }
        }
        assert(window_free(s2, 1, 2));
        assert(s2[1]);
        lemma_first_fit_pins(s2, 1048576, 2, 0, 1);
    }
    let r = alloc_contiguous(&mut ba, 2, 0);
    assert(r == Some(1usize));
    let ghost s3 = ba.free_bits();
    proof {
        assert(forall|j: int| 0 <= j < 1048576 ==> s3[j] == (6 <= j));
        assert forall|b2: int|
            0 <= b2 < 8 && (#[trigger] (b2 % (pow2(3) as int))) == 0 implies !(b2 + 2 <= 1048576
            && window_free(s3, b2, 2)) by {
            if window_free(s3, b2, 2) {
                lemma_window_at(s3, b2, 2, b2);
            }
        }
        assert(window_free(s3, 8, 2));
        assert(s3[8]);
        lemma_first_fit_pins(s3, 1048576, 2, 3, 8);
    }
    let r = alloc_contiguous(&mut ba, 2, 3);
    assert(r == Some(8usize));
    ba.remove(0..4032);
    let ghost s5 = ba.free_bits();
    proof {
        assert(forall|j: int| 0 <= j < 1048576 ==> s5[j] == (4032 <= j));
        assert forall|b2: int|
            0 <= b2 < 4096 && (#[trigger] (b2 % (pow2(7) as int))) == 0 implies !(b2 + 128
            <= 1048576 && window_free(s5, b2, 128)) by {
            if b2 + 128 <= 1048576 && window_free(s5, b2, 128) {
                assert(b2 < 4032) by {
                    vstd::arithmetic::div_mod::lemma_fundamental_div_mod(b2, 128);
                    vstd::arithmetic::div_mod::lemma_mod_bound(b2, 128);
                }
                lemma_window_at(s5, b2, 128, b2);
            }
        }
        assert(window_free(s5, 4096, 128));
        assert(4096int % 128 == 0);
        assert(s5[4096]);
        lemma_first_fit_pins(s5, 1048576, 128, 7, 4096);
    }
    let r = alloc_contiguous(&mut ba, 128, 7);
    assert(r == Some(4096usize));
    let ghost s6 = ba.free_bits();
    proof {
        assert(forall|j: int|
            0 <= j < 1048576 ==> s6[j] == ((4032 <= j < 4096) || 4224 <= j));
        assert forall|b2: int|
            0 <= b2 < 4032 && (#[trigger] (b2 % (pow2(3) as int))) == 0 implies !(b2 + 7
            <= 1048576 && window_free(s6, b2, 7)) by {
            if window_free(s6, b2, 7) {
                lemma_window_at(s6, b2, 7, b2);
            }
        }
        assert(window_free(s6, 4032, 7));
        assert(4032int % 8 == 0);
        assert(s6[4032]);
        lemma_first_fit_pins(s6, 1048576, 7, 3, 4032);
    }
    let r = alloc_contiguous(&mut ba, 7, 3);
    assert(r == Some(4032usize));
    let ghost s7a = ba.free_bits();
    proof {
        assert(forall|j: int|
            0 <= j < 1048576 ==> s7a[j] == ((4039 <= j < 4096) || 4224 <= j));
    }
    ba.insert(321..323);
    let ghost s7 = ba.free_bits();
    proof {
        assert(forall|j: int|
            0 <= j < 1048576 ==> s7[j] == (j == 321 || j == 322 || (4039 <= j < 4096) || 4224
                <= j));
        assert forall|b2: int|
            0 <= b2 < 4040 && (#[trigger] (b2 % (pow2(1) as int))) == 0 implies !(b2 + 2
            <= 1048576 && window_free(s7, b2, 2)) by {
            if b2 + 2 <= 1048576 && window_free(s7, b2, 2) {
                if b2 == 322 {
                    lemma_window_at(s7, b2, 2, 323);
                } else {
                    assert(b2 != 321) by {
                        if b2 == 321 {
                            assert(321int % 2 == 1);
                        }
                    }
                    lemma_window_at(s7, b2, 2, b2);
                    if 4039 <= b2 {
                        assert(b2 == 4039);
                        assert(4039int % 2 == 1);
                    }
                }
            }
        }
        assert(window_free(s7, 4040, 2));
        assert(4040int % 2 == 0);
        assert(s7[4040]);
        lemma_first_fit_pins(s7, 1048576, 2, 1, 4040);
    }
    let r = alloc_contiguous(&mut ba, 2, 1);
    assert(r == Some(4040usize));
    let ghost s8 = ba.free_bits();
    proof {
        assert(forall|j: int|
            0 <= j < 1048576 ==> s8[j] == (j == 321 || j == 322 || j == 4039 || (4042 <= j
                < 4096) || 4224 <= j));
        assert forall|b2: int|
            0 <= b2 < 321 && (#[trigger] (b2 % (pow2(0) as int))) == 0 implies !(b2 + 2
            <= 1048576 && window_free(s8, b2, 2)) by {
            if window_free(s8, b2, 2) {
                lemma_window_at(s8, b2, 2, b2);
            }
        }
        assert(window_free(s8, 321, 2));
        assert(s8[321]);
        lemma_first_fit_pins(s8, 1048576, 2, 0, 321);
    }
    let r = alloc_contiguous(&mut ba, 2, 0);
    assert(r == Some(321usize));
    let ghost s9 = ba.free_bits();
    proof {
        assert(forall|j: int|
            0 <= j < 1048576 ==> s9[j] == (j == 4039 || (4042 <= j < 4096) || 4224 <= j));
        assert forall|b2: int|
            0 <= b2 < 4224 && (#[trigger] (b2 % (pow2(6) as int))) == 0 implies !(b2 + 64
            <= 1048576 && window_free(s9, b2, 64)) by {
            if b2 + 64 <= 1048576 && window_free(s9, b2, 64) {
                assert(b2 <= 4032 || b2 == 4096 || b2 == 4160) by {
                    vstd::arithmetic::div_mod::lemma_fundamental_div_mod(b2, 64);
                    vstd::arithmetic::div_mod::lemma_mod_bound(b2, 64);
                }
                lemma_window_at(s9, b2, 64, b2);
            }
        }
        assert(window_free(s9, 4224, 64));
        assert(4224int % 64 == 0);
        assert(s9[4224]);
        lemma_first_fit_pins(s9, 1048576, 64, 6, 4224);
    }
    let r = alloc_contiguous(&mut ba, 64, 6);
    assert(r == Some(4224usize));
    let ghost s10 = ba.free_bits();
    proof {
        assert(forall|j: int|
            0 <= j < 1048576 ==> s10[j] == (j == 4039 || (4042 <= j < 4096) || 4288 <= j));
        assert forall|b2: int|
            0 <= b2 < 4048 && (#[trigger] (b2 % (pow2(4) as int))) == 0 implies !(b2 + 32
            <= 1048576 && window_free(s10, b2, 32)) by {
            if b2 + 32 <= 1048576 && window_free(s10, b2, 32) {
                assert(b2 <= 4032) by {
                    vstd::arithmetic::div_mod::lemma_fundamental_div_mod(b2, 16);
                    vstd::arithmetic::div_mod::lemma_mod_bound(b2, 16);
                    if b2 == 4039 {
                        assert(4039int % 16 == 7);
                    }
                }
                lemma_window_at(s10, b2, 32, b2);
            }
        }
        assert(window_free(s10, 4048, 32));
        assert(4048int % 16 == 0);
        assert(s10[4048]);
        lemma_first_fit_pins(s10, 1048576, 32, 4, 4048);
    }
    let r = alloc_contiguous(&mut ba, 32, 4);
    assert(r == Some(4048usize));
    let mut i: usize = 0;
    while i < 4039
        invariant
            ba.wf(),
        decreases 4039 - i,
    {
        ba.dealloc(i);
        i += 1;
    }
    let mut i: usize = 4040;
    while i < 4042
        invariant
            ba.wf(),
            i >= 4040,
        decreases 4042 - i,
    {
        ba.dealloc(i);
        i += 1;
    }
    let mut i: usize = 4048;
    while i < 4080
        invariant
            ba.wf(),
            i >= 4048,
        decreases 4080 - i,
    {
        ba.dealloc(i);
        i += 1;
    }
}

/// Allocate once from an empty map of a million bits: nothing is free.
pub fn bitalloc1m_alloc() {
    let mut ba = BitAlloc1M::default();
    let r = ba.allocate();
    assert(r.is_none());
}

/// A contiguous request against an empty map of a million bits fails.
pub fn bitalloc1m_alloc_contiguous() {
    let mut ba = BitAlloc1M::default();
    let r = alloc_contiguous(&mut ba, 1588, 1);
    proof {
        if r is Some {
            let base = r.unwrap() as int;
            lemma_pow2_pos(1);
            lemma_first_fit_from(
                ba.free_bits(),
                <BitAlloc1M as BitAlloc>::cap(),
                1588,
                pow2(1),
                0,
            );
        }
    }
    assert(r.is_none());
}

/// Free one bit of an empty map of a million bits.
pub fn bitalloc1m_dealloc() {
    let mut ba = BitAlloc1M::default();
    ba.dealloc(251);
    assert(ba.free_bits()[251]);
}

/// Mark the whole map of a million bits available.
pub fn bitalloc1m_insert() {
    let mut ba = BitAlloc1M::default();
    let cap = BitAlloc1M::capacity();
    ba.insert(0..cap);
    assert(ba.free_bits()[0]);
}

/// Mark the whole map of a million bits unavailable.
pub fn bitalloc1m_remove() {
    let mut ba = BitAlloc1M::default();
    let cap = BitAlloc1M::capacity();
    ba.remove(0..cap);
    assert(!ba.free_bits()[0]);
}

} // verus!
