//! 128-bit bitmaps: the bit-level model, counting, and the std bit-query
//! functions that the chunk code relies on.
use vstd::prelude::*;

verus! {

/// The bitmap type used by chunks: one bit per byte of a chunk.
pub type Bitmap = u128;

/// Number of bits in a [`Bitmap`], which is also the largest chunk size in bytes.
pub const MAX_BASE: usize = 128;

/// `true` when bit `i` (counted from the least significant end) of `x` is set.
pub open spec fn bit(x: u128, i: int) -> bool {
    0 <= i < 128 && ((x >> (i as u128)) & 1u128) == 1u128
}

/// Number of indices `i` in `[lo, hi)` for which `p(i)` holds.
pub open spec fn count_if(lo: int, hi: int, p: spec_fn(int) -> bool) -> nat
    decreases hi - lo,
{
    if hi <= lo {
        0
    } else {
        count_if(lo, hi - 1, p) + (if p(hi - 1) { 1nat } else { 0nat })
    }
}

/// Number of set bits of `x` with index in `[lo, hi)`.
pub open spec fn ones(x: u128, lo: int, hi: int) -> nat {
    count_if(lo, hi, |i: int| bit(x, i))
}

pub proof fn lemma_count_if_ext(lo: int, hi: int, p: spec_fn(int) -> bool, q: spec_fn(int) -> bool)
    requires
        forall|i: int| lo <= i < hi ==> #[trigger] p(i) == q(i),
    ensures
        count_if(lo, hi, p) == count_if(lo, hi, q),
    decreases hi - lo,
{
    if hi > lo {
        lemma_count_if_ext(lo, hi - 1, p, q);
    }
}

pub proof fn lemma_count_if_split(lo: int, mid: int, hi: int, p: spec_fn(int) -> bool)
    requires
        lo <= mid <= hi,
    ensures
        count_if(lo, hi, p) == count_if(lo, mid, p) + count_if(mid, hi, p),
    decreases hi - mid,
{
    if hi > mid {
        lemma_count_if_split(lo, mid, hi - 1, p);
    }
}

pub proof fn lemma_count_if_none(lo: int, hi: int, p: spec_fn(int) -> bool)
    requires
        forall|i: int| lo <= i < hi ==> !#[trigger] p(i),
    ensures
        count_if(lo, hi, p) == 0,
    decreases hi - lo,
{
    if hi > lo {
        lemma_count_if_none(lo, hi - 1, p);
    }
}

pub proof fn lemma_count_if_bound(lo: int, hi: int, p: spec_fn(int) -> bool)
    ensures
        count_if(lo, hi, p) <= if hi <= lo { 0 } else { hi - lo },
    decreases hi - lo,
{
    if hi > lo {
        lemma_count_if_bound(lo, hi - 1, p);
    }
}

/// Shifting the window of a count.
pub proof fn lemma_count_if_shift(lo: int, hi: int, d: int, p: spec_fn(int) -> bool, q: spec_fn(int) -> bool)
    requires
        forall|i: int| lo <= i < hi ==> #[trigger] q(i) == p(i + d),
    ensures
        count_if(lo, hi, q) == count_if(lo + d, hi + d, p),
    decreases hi - lo,
{
    if hi > lo {
        lemma_count_if_shift(lo, hi - 1, d, p, q);
    }
}

/// Trailing indices for which `p` fails do not change a count.
pub proof fn lemma_count_if_clip(lo: int, m: int, hi: int, p: spec_fn(int) -> bool)
    requires
        lo <= m <= hi,
        forall|i: int| m <= i < hi ==> !#[trigger] p(i),
    ensures
        count_if(lo, hi, p) == count_if(lo, m, p),
{
    lemma_count_if_split(lo, m, hi, p);
    lemma_count_if_none(m, hi, p);
}

/// Counting the bits of a bitmap that mirrors a predicate.
pub proof fn lemma_ones_match(x: u128, p: spec_fn(int) -> bool, lo: int, hi: int)
    requires
        forall|i: int| #[trigger] bit(x, i) == p(i),
    ensures
        ones(x, lo, hi) == count_if(lo, hi, p),
{
    lemma_count_if_ext(lo, hi, |i: int| bit(x, i), p);
}

/// Counting the bits of a bitmap that mirrors a predicate moved down by `d`.
pub proof fn lemma_ones_match_shifted(x: u128, p: spec_fn(int) -> bool, d: int, k: int)
    requires
        forall|i: int| #[trigger] bit(x, i) == (0 <= i && p(i + d)),
    ensures
        ones(x, 0, k) == count_if(d, d + k, p),
{
    let q = |i: int| p(i + d);
    lemma_count_if_ext(0, k, |i: int| bit(x, i), q);
    lemma_count_if_shift(0, k, d, p, q);
}

pub proof fn lemma_bit_and(x: u128, y: u128, i: int)
    ensures
        bit(x & y, i) == (bit(x, i) && bit(y, i)),
{
    if 0 <= i < 128 {
        let j = i as u128;
        assert((((x & y) >> j) & 1u128) == 1u128 <==> (((x >> j) & 1u128) == 1u128 && ((y >> j)
            & 1u128) == 1u128)) by (bit_vector)
            requires
                j < 128u128,
        ;
    }
}

pub proof fn lemma_bit_zero(i: int)
    ensures
        !bit(0u128, i),
{
    if 0 <= i < 128 {
        let j = i as u128;
        assert(((0u128 >> j) & 1u128) == 0u128) by (bit_vector);
    }
}

pub proof fn lemma_bit_max(i: int)
    ensures
        bit(u128::MAX, i) == (0 <= i < 128),
{
    if 0 <= i < 128 {
        let j = i as u128;
        assert(((0xffff_ffff_ffff_ffff_ffff_ffff_ffff_ffffu128 >> j) & 1u128) == 1u128) by (bit_vector)
            requires
                j < 128u128,
        ;
    }
}

/// The bits of `x >> s` are the bits of `x` moved down by `s`.
pub proof fn lemma_bit_shr(x: u128, s: u128, i: int)
    requires
        s < 128,
    ensures
        bit(x >> s, i) == (0 <= i && bit(x, i + s)),
{
    if 0 <= i < 128 {
        let j = i as u128;
        if i + s < 128 {
            assert((((x >> s) >> j) & 1u128) == ((x >> (j + s)) & 1u128)) by (bit_vector)
                requires
                    j + s < 128u128,
            ;
        } else {
            assert((((x >> s) >> j) & 1u128) == 0u128) by (bit_vector)
                requires
                    j < 128u128,
                    s < 128u128,
                    j + s >= 128u128,
            ;
        }
    }
}

/// `1 << k` for `k < 128` has exactly bit `k` set.
pub proof fn lemma_bit_single(k: u128, i: int)
    requires
        k < 128,
    ensures
        bit(1u128 << k, i) == (i == k),
{
    if 0 <= i < 128 {
        let j = i as u128;
        assert(((((1u128 << k) >> j) & 1u128) == 1u128) == (j == k)) by (bit_vector)
            requires
                j < 128u128,
                k < 128u128,
        ;
    }
}

/// `(1 << k) - 1` for `k < 128` has exactly the bits below `k` set.
pub proof fn lemma_bit_low_mask(k: u128, i: int)
    requires
        k < 128,
    ensures
        1u128 << k >= 1,
        bit(((1u128 << k) - 1) as u128, i) == (0 <= i < k),
{
    assert(1u128 << k >= 1u128) by (bit_vector)
        requires
            k < 128u128,
    ;
    if 0 <= i < 128 {
        let j = i as u128;
        assert((((((1u128 << k) - 1u128) as u128 >> j) & 1u128) == 1u128) == (j < k)) by (bit_vector)
            requires
                j < 128u128,
                k < 128u128,
        ;
    }
}

/// `!(u128::MAX >> k)` for `k < 128` has exactly the top `k` bits set.
pub proof fn lemma_bit_high_mask(k: u128, i: int)
    requires
        k < 128,
    ensures
        bit(!(u128::MAX >> k), i) == (128 - k <= i < 128),
{
    if 0 <= i < 128 {
        let j = i as u128;
        assert((((!(0xffff_ffff_ffff_ffff_ffff_ffff_ffff_ffffu128 >> k) >> j) & 1u128) == 1u128) == (j
            + k >= 128u128)) by (bit_vector)
            requires
                j < 128u128,
                k < 128u128,
        ;
    }
}

pub proof fn lemma_bit_or_single(x: u128, k: u128, i: int)
    requires
        k < 128,
    ensures
        bit(x | (1u128 << k), i) == (bit(x, i) || i == k),
{
    if 0 <= i < 128 {
        let j = i as u128;
        assert(((((x | (1u128 << k)) >> j) & 1u128) == 1u128) == (((x >> j) & 1u128) == 1u128 || j
            == k)) by (bit_vector)
            requires
                j < 128u128,
                k < 128u128,
        ;
    }
}

/// Testing a single bit with a one-bit mask.
pub proof fn lemma_bit_test(x: u128, k: u128)
    requires
        k < 128,
    ensures
        ((1u128 << k) & x != 0) == bit(x, k as int),
{
    assert(((1u128 << k) & x != 0u128) == (((x >> k) & 1u128) == 1u128)) by (bit_vector)
        requires
            k < 128u128,
    ;
}

/// Number of set bits in `x` (`u128::count_ones`).
#[verifier::external_body]
pub(crate) fn count_ones(x: u128) -> (r: u32)
    ensures
        r == ones(x, 0, 128),
{
    x.count_ones()
}

/// Number of clear bits below the lowest set bit of `x`, 128 for zero (`u128::trailing_zeros`).
#[verifier::external_body]
pub(crate) fn trailing_zeros(x: u128) -> (r: u32)
    ensures
        r <= 128,
        (r == 128) == (x == 0),
        forall|i: int| 0 <= i < r ==> !#[trigger] bit(x, i),
        r < 128 ==> bit(x, r as int),
{
    x.trailing_zeros()
}

/// Number of clear bits above the highest set bit of `x`, 128 for zero (`u128::leading_zeros`).
#[verifier::external_body]
pub(crate) fn leading_zeros(x: u128) -> (r: u32)
    ensures
        r <= 128,
        (r == 128) == (x == 0),
        forall|i: int| 128 - r <= i < 128 ==> !#[trigger] bit(x, i),
        r < 128 ==> bit(x, 127 - r),
{
    x.leading_zeros()
}

/// `1 << offset`, or zero once the shift reaches the width of the bitmap.
pub fn shl_one(offset: u32) -> (r: u128)
    ensures
        offset < 128 ==> r == 1u128 << (offset as u128),
        offset >= 128 ==> r == 0,
        forall|i: int| #[trigger] bit(r, i) == (i == offset && i < 128),
{
    if offset < 128 {
        proof {
            assert forall|i: int| #[trigger] bit(1u128 << (offset as u128), i) == (i == offset && i < 128) by {
                lemma_bit_single(offset as u128, i);
            }
        }
        1u128 << offset
    } else {
        proof {
            assert forall|i: int| #[trigger] bit(0u128, i) == (i == offset && i < 128) by {
                lemma_bit_zero(i);
            }
        }
        0
    }
}

/// A mask with the lowest `offset` bits set (all bits once `offset` reaches 128).
pub fn saturating_shl_mask(offset: u32) -> (r: Bitmap)
    ensures
        forall|i: int| #[trigger] bit(r, i) == (0 <= i < offset && i < 128),
{
    if offset >= 128 {
        proof {
            assert forall|i: int| #[trigger] bit(u128::MAX, i) == (0 <= i < offset && i < 128) by {
                lemma_bit_max(i);
            }
        }
        u128::MAX
    } else {
        proof {
            assert forall|i: int| #[trigger] bit(((1u128 << (offset as u128)) - 1) as u128, i) == (0 <= i < offset && i < 128) by {
                lemma_bit_low_mask(offset as u128, i);
            }
        }
        let m = shl_one(offset);
        proof {
            lemma_bit_zero(offset as int);
            assert(bit(m, offset as int));
        }
        m - 1
    }
}

/// A mask with the highest `offset` bits set (all bits once `offset` reaches 128).
pub fn saturating_shr_mask(offset: u32) -> (r: Bitmap)
    ensures
        forall|i: int| #[trigger] bit(r, i) == (0 <= i && 128 - offset <= i < 128),
{
    if offset < 128 {
        proof {
            assert forall|i: int| #[trigger] bit(!(u128::MAX >> (offset as u128)), i) == (0 <= i && 128 - offset
                <= i < 128) by {
                lemma_bit_high_mask(offset as u128, i);
            }
        }
        !(u128::MAX >> offset)
    } else {
        proof {
            assert forall|i: int| #[trigger] bit(u128::MAX, i) == (0 <= i && 128 - offset <= i < 128) by {
                lemma_bit_max(i);
            }
        }
        u128::MAX
    }
}

} // verus!
