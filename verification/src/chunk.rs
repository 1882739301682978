//! Chunks of at most 128 bytes of text with per-byte bitmaps, and slices of them.
use vstd::prelude::*;
use vstd::utf8::*;
use vstd::string::StringSliceAdditionalSpecFns;
use crate::bitmap::{
    bit, count_if, count_ones, lemma_bit_and, lemma_bit_low_mask, lemma_bit_or_single, lemma_bit_shr, lemma_bit_test,
    lemma_bit_zero, lemma_count_if_bound, lemma_count_if_clip, lemma_count_if_ext,
    lemma_count_if_split, lemma_ones_match, lemma_ones_match_shifted, leading_zeros, ones,
    saturating_shl_mask, saturating_shr_mask, shl_one, trailing_zeros, Bitmap, MAX_BASE,
};
use crate::chunk_text::{chunk_text_bytes, ChunkText};
use crate::point::{OffsetUtf16, Point, PointUtf16};
use crate::summary::{
    lemma_line_start_before, lemma_next_newline, char_at, char_count, line_start_before, longest_row_before, newline_at, newline_count,
    next_newline, row_start, tab_at, text_metrics, utf16_count, utf16_unit_at,
    TextSummary,
};

verus! {

broadcast use vstd::utf8::group_utf8_lib;

/// The four bitmaps describe the bytes `b`, one bit per byte.
pub open spec fn bitmaps_describe(
    chars: u128,
    chars_utf16: u128,
    newlines: u128,
    tabs: u128,
    b: Seq<u8>,
) -> bool {
    &&& b.len() <= 128
    &&& forall|i: int| #[trigger] bit(chars, i) == char_at(b, i)
    &&& forall|i: int| #[trigger] bit(chars_utf16, i) == utf16_unit_at(b, i)
    &&& forall|i: int| #[trigger] bit(newlines, i) == newline_at(b, i)
    &&& forall|i: int| #[trigger] bit(tabs, i) == tab_at(b, i)
}

/// `offset` as the chunk code reads it: truncated to 32 bits, then capped at 128.
pub open spec fn clip_offset(offset: usize) -> int {
    if (offset as u32) < 128 {
        (offset as u32) as int
    } else {
        128
    }
}

/// `offset` is a character boundary of `b` in the sense of the chunk bitmaps: the end of
/// the text, or (reading the offset as 32 bits) the first byte of a character.
pub open spec fn chunk_boundary(b: Seq<u8>, offset: usize) -> bool {
    offset == b.len() || char_at(b, (offset as u32) as int)
}

/// The first character boundary at or after `i` (the end of the text when there is none).
pub open spec fn next_boundary(b: Seq<u8>, i: int) -> int
    decreases b.len() - i,
{
    if i >= b.len() {
        b.len() as int
    } else if 0 <= i && !is_continuation_byte(b[i]) {
        i
    } else {
        next_boundary(b, i + 1)
    }
}

/// The last character boundary at or before `i` (zero when there is none).
pub open spec fn prev_boundary(b: Seq<u8>, i: int) -> int
    decreases i,
{
    if i <= 0 {
        0
    } else if i < b.len() && !is_continuation_byte(b[i]) {
        i
    } else {
        prev_boundary(b, i - 1)
    }
}

/// `str::ceil_char_boundary` on the bytes `b`.
pub open spec fn ceil_char_boundary_of(b: Seq<u8>, index: int) -> int {
    if index > b.len() {
        b.len() as int
    } else {
        next_boundary(b, index)
    }
}

/// `str::floor_char_boundary` on the bytes `b`.
pub open spec fn floor_char_boundary_of(b: Seq<u8>, index: int) -> int {
    if index >= b.len() {
        b.len() as int
    } else {
        prev_boundary(b, index)
    }
}

pub proof fn lemma_next_boundary(b: Seq<u8>, i: int)
    requires
        0 <= i <= b.len(),
    ensures
        i <= next_boundary(b, i) <= b.len(),
        next_boundary(b, i) == b.len() || char_at(b, next_boundary(b, i)),
    decreases b.len() - i,
{
    if i < b.len() && is_continuation_byte(b[i]) {
        lemma_next_boundary(b, i + 1);
    }
}

pub proof fn lemma_prev_boundary(b: Seq<u8>, i: int)
    requires
        0 <= i < b.len(),
    ensures
        0 <= prev_boundary(b, i) <= i,
        prev_boundary(b, i) == 0 || char_at(b, prev_boundary(b, i)),
    decreases i,
{
    if i > 0 && is_continuation_byte(b[i]) {
        lemma_prev_boundary(b, i - 1);
    }
}

/// The smallest character boundary of `text` at or after `index`, capped at the length.
pub fn ceil_char_boundary(text: &str, index: usize) -> (r: usize)
    ensures
        r == ceil_char_boundary_of(text.spec_bytes(), index as int),
{
    let bytes = text.as_bytes();
    if index > bytes.len() {
        return bytes.len();
    }
    let mut i = index;
    while i < bytes.len() && 0x80 <= bytes[i] && bytes[i] <= 0xbf
        invariant
            bytes@ == text.spec_bytes(),
            index <= i <= bytes@.len(),
            next_boundary(bytes@, i as int) == next_boundary(bytes@, index as int),
        decreases bytes@.len() - i,
    {
        i += 1;
    }
    i
}

/// The largest character boundary of `text` at or before `index`, or the length when
/// `index` is past the end.
pub fn floor_char_boundary(text: &str, index: usize) -> (r: usize)
    ensures
        r == floor_char_boundary_of(text.spec_bytes(), index as int),
{
    let bytes = text.as_bytes();
    if index >= bytes.len() {
        return bytes.len();
    }
    let mut i = index;
    while i > 0 && 0x80 <= bytes[i] && bytes[i] <= 0xbf
        invariant
            bytes@ == text.spec_bytes(),
            i <= index < bytes@.len(),
            prev_boundary(bytes@, i as int) == prev_boundary(bytes@, index as int),
        decreases i,
    {
        i -= 1;
    }
    i
}

/// Where a slice of `range` starts once the start is moved up to a character boundary.
pub open spec fn slice_start(b: Seq<u8>, range: core::ops::Range<usize>) -> int {
    if chunk_boundary(b, range.start) {
        range.start as int
    } else {
        ceil_char_boundary_of(b, range.start as int)
    }
}

/// Where a slice of `range` ends once the end is moved down to a character boundary (and
/// not below the start).
pub open spec fn slice_end(b: Seq<u8>, range: core::ops::Range<usize>) -> int {
    if chunk_boundary(b, range.end) {
        range.end as int
    } else if (range.end as int) < slice_start(b, range) {
        slice_start(b, range)
    } else {
        floor_char_boundary_of(b, range.end as int)
    }
}

/// A borrowed view of a chunk's text together with its bitmaps.
#[derive(Clone, Copy, Debug)]
pub struct ChunkSlice<'a> {
    chars: Bitmap,
    chars_utf16: Bitmap,
    newlines: Bitmap,
    tabs: Bitmap,
    text: &'a str,
}

impl<'a> View for ChunkSlice<'a> {
    /// The UTF-8 bytes of the text.
    type V = Seq<u8>;

    closed spec fn view(&self) -> Seq<u8> {
        self.text.spec_bytes()
    }
}

impl<'a> ChunkSlice<'a> {
    #[verifier::type_invariant]
    closed spec fn inv(self) -> bool {
        bitmaps_describe(self.chars, self.chars_utf16, self.newlines, self.tabs, self.text.spec_bytes())
    }

    /// `true` when `offset` is the end of the text or the first byte of a character.
    #[inline(always)]
    pub fn is_char_boundary(&self, offset: usize) -> (r: bool)
        ensures
            r == chunk_boundary(self@, offset),
            offset <= u32::MAX ==> r == is_char_boundary(self@, offset as int),
    {
        proof {
            use_type_invariant(self);
            let k = offset as u32;
            if k < 128 {
                lemma_bit_test(self.chars, k as u128);
            } else {
                assert(0u128 & self.chars == 0u128) by (bit_vector);
            }
            if offset <= u32::MAX {
                assert((offset as u32) as int == offset as int);
                let b = self@;
                if offset < b.len() {
                    is_char_boundary_iff_not_is_continuation_byte(b, offset as int);
                } else {
                    is_char_boundary_start_end_of_seq(b);
                }
            }
        }
        (shl_one(offset as u32) & self.chars != 0) || offset == self.text.len()
    }

    /// Whether `offset` is a character boundary; with `PANIC`, a non-boundary is a
    /// caller error.
    pub fn assert_char_boundary<const PANIC: bool>(&self, offset: usize) -> (r: bool)
        requires
            PANIC ==> chunk_boundary(self@, offset),
        ensures
            r == chunk_boundary(self@, offset),
    {
        self.is_char_boundary(offset)
    }

    /// Get length in bytes
    #[inline(always)]
    pub fn len(&self) -> (r: usize)
        ensures
            r == self@.len(),
            r <= 128,
    {
        proof {
            use_type_invariant(self);
        }
        self.text.len()
    }

    /// Get length in UTF-16 code units
    #[inline(always)]
    pub fn len_utf16(&self) -> (r: OffsetUtf16)
        ensures
            r.0 == utf16_count(self@, 0, self@.len() as int),
    {
        proof {
            use_type_invariant(self);
            let b = self@;
            lemma_ones_match(self.chars_utf16, |i: int| utf16_unit_at(b, i), 0, 128);
            lemma_count_if_clip(0, b.len() as int, 128, |i: int| utf16_unit_at(b, i));
            lemma_count_if_bound(0, 128, |i: int| bit(self.chars_utf16, i));
        }
        OffsetUtf16(count_ones(self.chars_utf16) as usize)
    }
}

/// Counting the bits of `x` inside a mask that selects `[lo, hi)`.
proof fn lemma_masked_count(x: u128, m: u128, p: spec_fn(int) -> bool, lo: int, hi: int)
    requires
        0 <= lo <= hi <= 128,
        forall|i: int| #[trigger] bit(x, i) == p(i),
        forall|i: int| #[trigger] bit(m, i) == (lo <= i < hi),
    ensures
        ones(x & m, 0, 128) == count_if(lo, hi, p),
        forall|i: int| #[trigger] bit(x & m, i) == (p(i) && lo <= i < hi),
{
    assert forall|i: int| #[trigger] bit(x & m, i) == (p(i) && lo <= i < hi) by {
        lemma_bit_and(x, m, i);
    }
    let q = |i: int| p(i) && lo <= i < hi;
    lemma_ones_match(x & m, q, 0, 128);
    lemma_count_if_split(0, lo, 128, q);
    lemma_count_if_split(lo, hi, 128, q);
    lemma_count_if_clip(0, 0, lo, q);
    lemma_count_if_clip(hi, hi, 128, q);
    lemma_count_if_ext(lo, hi, q, p);
}

/// The position just past the last newline below `e`, read off the leading zeros of a
/// bitmap of those newlines.
proof fn lemma_lz_line_start(x: u128, b: Seq<u8>, e: int, lz: u32)
    requires
        b.len() <= 128,
        0 <= e <= 128,
        forall|i: int| #[trigger] bit(x, i) == (newline_at(b, i) && i < e),
        lz <= 128,
        forall|i: int| 128 - lz <= i < 128 ==> !#[trigger] bit(x, i),
        lz < 128 ==> bit(x, 127 - lz),
    ensures
        128 - lz <= e,
        128 - lz <= b.len(),
        line_start_before(b, e) == 128 - lz,
{
    let q = 128 - lz;
    assert forall|j: int| q <= j < e implies !#[trigger] newline_at(b, j) by {
        assert(!bit(x, j));
    }
    lemma_line_start_before(b, e, q);
}

impl<'a> ChunkSlice<'a> {
    /// Get point representing number of lines and length of last line
    #[inline(always)]
    pub fn lines(&self) -> (r: Point)
        ensures
            r.row == newline_count(self@, 0, self@.len() as int),
            r.column == self@.len() - line_start_before(self@, self@.len() as int),
    {
        proof {
            use_type_invariant(self);
        }
        let ghost b = self@;
        let row = count_ones(self.newlines);
        let lz = leading_zeros(self.newlines);
        let len = self.text.len() as u32;
        proof {
            lemma_ones_match(self.newlines, |i: int| newline_at(b, i), 0, 128);
            lemma_count_if_clip(0, b.len() as int, 128, |i: int| newline_at(b, i));
            lemma_lz_line_start(self.newlines, b, b.len() as int, lz);
        }
        let column = lz - (128 - len);
        Point::new(row, column)
    }

    /// Get number of chars in first line
    #[inline(always)]
    pub fn first_line_chars(&self) -> (r: u32)
        ensures
            r == char_count(self@, 0, next_newline(self@, 0)),
    {
        proof {
            use_type_invariant(self);
        }
        let ghost b = self@;
        let tz = trailing_zeros(self.newlines);
        let mask = saturating_shl_mask(tz);
        proof {
            lemma_masked_count(self.chars, mask, |i: int| char_at(b, i), 0, tz as int);
            if tz < 128 {
                assert forall|j: int| 0 <= j < tz implies !#[trigger] newline_at(b, j) by {
                    assert(!bit(self.newlines, j));
                }
                assert(bit(self.newlines, tz as int));
                lemma_next_newline(b, 0, tz as int);
            } else {
                assert forall|j: int| 0 <= j < b.len() implies !#[trigger] newline_at(b, j) by {
                    assert(!bit(self.newlines, j));
                }
                lemma_next_newline(b, 0, b.len() as int);
                lemma_count_if_clip(0, b.len() as int, 128, |i: int| char_at(b, i));
            }
        }
        count_ones(self.chars & mask)
    }

    /// Get number of chars in last line
    #[inline(always)]
    pub fn last_line_chars(&self) -> (r: u32)
        ensures
            r == char_count(self@, line_start_before(self@, self@.len() as int), self@.len() as int),
    {
        proof {
            use_type_invariant(self);
        }
        let ghost b = self@;
        let lz = leading_zeros(self.newlines);
        let mask = saturating_shr_mask(lz);
        proof {
            lemma_lz_line_start(self.newlines, b, b.len() as int, lz);
            lemma_masked_count(self.chars, mask, |i: int| char_at(b, i), 128 - lz, 128);
            lemma_count_if_clip(128 - lz, b.len() as int, 128, |i: int| char_at(b, i));
        }
        count_ones(self.chars & mask)
    }

    /// Get number of UTF-16 code units in last line
    #[inline(always)]
    pub fn last_line_len_utf16(&self) -> (r: u32)
        ensures
            r == utf16_count(self@, line_start_before(self@, self@.len() as int), self@.len() as int),
    {
        proof {
            use_type_invariant(self);
        }
        let ghost b = self@;
        let lz = leading_zeros(self.newlines);
        let mask = saturating_shr_mask(lz);
        proof {
            lemma_lz_line_start(self.newlines, b, b.len() as int, lz);
            lemma_masked_count(self.chars_utf16, mask, |i: int| utf16_unit_at(b, i), 128 - lz, 128);
            lemma_count_if_clip(128 - lz, b.len() as int, 128, |i: int| utf16_unit_at(b, i));
        }
        count_ones(self.chars_utf16 & mask)
    }
}

/// Counting the set bits of `x >> s`, where `x` mirrors `p` below `e`.
proof fn lemma_shifted_count(x: u128, p: spec_fn(int) -> bool, e: int, s: u128)
    requires
        0 <= e <= 128,
        s < 128,
        forall|i: int| #[trigger] bit(x, i) == (p(i) && 0 <= i < e),
    ensures
        ones(x >> s, 0, 128) == count_if(s as int, e, p),
{
    let q = |j: int| p(j) && 0 <= j < e;
    assert forall|i: int| #[trigger] bit(x >> s, i) == (0 <= i && q(i + s)) by {
        lemma_bit_shr(x, s, i);
    }
    lemma_ones_match_shifted(x >> s, q, s as int, 128);
    if s as int <= e {
        lemma_count_if_clip(s as int, e, s + 128, q);
        lemma_count_if_ext(s as int, e, q, p);
    } else {
        lemma_count_if_clip(s as int, s as int, s + 128, q);
    }
}

impl<'a> ChunkSlice<'a> {
    /// The row and column (in bytes) of `offset`; for an offset within the text these are
    /// the number of newlines before it and its distance from the start of its line.
    #[inline(always)]
    pub fn offset_to_point(&self, offset: usize) -> (r: Point)
        ensures
            r.row == newline_count(self@, 0, clip_offset(offset)),
            r.column == (offset - line_start_before(self@, clip_offset(offset))) as u32,
            offset <= self@.len() ==> r.row == newline_count(self@, 0, offset as int) && r.column
                == offset - line_start_before(self@, offset as int),
    {
        proof {
            use_type_invariant(self);
        }
        let ghost b = self@;
        let ghost e = clip_offset(offset);
        let mask = saturating_shl_mask(offset as u32);
        proof {
            assert forall|i: int| #[trigger] bit(mask, i) == (0 <= i < e) by {}
            lemma_masked_count(self.newlines, mask, |i: int| newline_at(b, i), 0, e);
        }
        let row = count_ones(self.newlines & mask);
        let lz = leading_zeros(self.newlines & mask);
        proof {
            lemma_lz_line_start(self.newlines & mask, b, e, lz);
            assert((offset as u32) as usize <= offset) by (bit_vector);
            if offset <= b.len() {
                assert((offset as u32) as usize == offset) by (bit_vector)
                    requires
                        offset <= 128usize,
                ;
            }
        }
        let newline_ix = 128 - lz;
        let column = (offset - newline_ix as usize) as u32;
        Point::new(row, column)
    }

    /// The row and column (in UTF-16 code units) of `offset`.
    #[inline(always)]
    pub fn offset_to_point_utf16(&self, offset: usize) -> (r: PointUtf16)
        ensures
            r.row == newline_count(self@, 0, clip_offset(offset)),
            r.column == utf16_count(
                self@,
                line_start_before(self@, clip_offset(offset)),
                clip_offset(offset),
            ),
    {
        proof {
            use_type_invariant(self);
        }
        let ghost b = self@;
        let ghost e = clip_offset(offset);
        let mask = saturating_shl_mask(offset as u32);
        proof {
            assert forall|i: int| #[trigger] bit(mask, i) == (0 <= i < e) by {}
            lemma_masked_count(self.newlines, mask, |i: int| newline_at(b, i), 0, e);
        }
        let row = count_ones(self.newlines & mask);
        let lz = leading_zeros(self.newlines & mask);
        proof {
            lemma_lz_line_start(self.newlines & mask, b, e, lz);
        }
        let newline_ix = 128 - lz;
        let column = if newline_ix as usize == MAX_BASE {
            proof {
                lemma_count_if_clip(128, 128, 128, |i: int| utf16_unit_at(b, i));
            }
            0
        } else {
            proof {
                lemma_masked_count(self.chars_utf16, mask, |i: int| utf16_unit_at(b, i), 0, e);
                lemma_shifted_count(self.chars_utf16 & mask, |i: int| utf16_unit_at(b, i), e, newline_ix as u128);
            }
            count_ones((self.chars_utf16 & mask) >> newline_ix)
        };
        PointUtf16::new(row, column)
    }
}

impl<'a> ChunkSlice<'a> {
    /// Get the longest row in the chunk and its length in characters.
    /// Calculate the total number of characters in the chunk along the way.
    #[inline(always)]
    pub fn longest_row(&self, total_chars: &mut usize) -> (r: (u32, u32))
        ensures
            *final(total_chars) == char_count(self@, 0, self@.len() as int),
            (r.0 as int, r.1 as int) == longest_row_before(
                self@,
                (newline_count(self@, 0, self@.len() as int) + 1) as nat,
            ),
    {
        proof {
            use_type_invariant(self);
        }
        let ghost b = self@;
        let mut chars = self.chars;
        let mut newlines = self.newlines;
        *total_chars = 0;
        let mut row: u32 = 0;
        let mut longest_row: u32 = 0;
        let mut longest_row_chars: u8 = 0;
        let ghost mut pos: int = 0;
        proof {
            assert forall|i: int| #[trigger] bit(chars, i) == (0 <= i && char_at(b, i + pos)) by {}
            assert forall|i: int| #[trigger] bit(newlines, i) == (0 <= i && newline_at(b, i + pos)) by {}
        }
        while newlines > 0
            invariant
                bitmaps_describe(self.chars, self.chars_utf16, self.newlines, self.tabs, b),
                0 <= pos <= b.len(),
                row <= pos,
                pos == row_start(b, row as nat),
                row as int == newline_count(b, 0, pos),
                *total_chars == char_count(b, 0, pos),
                *total_chars <= pos,
                (longest_row as int, longest_row_chars as int) == longest_row_before(b, row as nat),
                forall|i: int| #[trigger] bit(chars, i) == (0 <= i && char_at(b, i + pos)),
                forall|i: int| #[trigger] bit(newlines, i) == (0 <= i && newline_at(b, i + pos)),
            decreases b.len() - pos,
        {
            let newline_ix = trailing_zeros(newlines);
            let ghost ix = newline_ix as int;
            proof {
                assert(bit(newlines, ix));
                assert forall|j: int| pos <= j < pos + ix implies !#[trigger] newline_at(b, j) by {
                    assert(!bit(newlines, j - pos));
                }
                lemma_next_newline(b, pos, pos + ix);
                lemma_bit_low_mask(newline_ix as u128, 0);
            }
            let mask: u128 = (1u128 << newline_ix) - 1;
            proof {
                assert forall|i: int| #[trigger] bit(mask, i) == (0 <= i < ix) by {
                    lemma_bit_low_mask(newline_ix as u128, i);
                }
                lemma_masked_count(chars, mask, |i: int| 0 <= i && char_at(b, i + pos), 0, ix);
                lemma_count_if_ext(0, ix, |i: int| 0 <= i && char_at(b, i + pos), |i: int| bit(chars, i));
                lemma_ones_match_shifted(chars, |j: int| char_at(b, j), pos, ix);
                lemma_count_if_bound(pos, pos + ix, |j: int| char_at(b, j));
            }
            let row_chars = count_ones(chars & mask) as u8;
            proof {
                assert(row_chars as int == crate::summary::row_chars(b, row as nat));
                lemma_count_if_split(0, pos, pos + ix, |j: int| char_at(b, j));
                lemma_count_if_split(0, pos + ix, pos + ix + 1, |j: int| char_at(b, j));
                lemma_count_if_bound(0, pos + ix + 1, |j: int| char_at(b, j));
                lemma_count_if_split(0, pos, pos + ix, |j: int| newline_at(b, j));
                lemma_count_if_split(0, pos + ix, pos + ix + 1, |j: int| newline_at(b, j));
                lemma_count_if_clip(pos, pos, pos + ix, |j: int| newline_at(b, j));
                assert(char_at(b, pos + ix));
            }
            *total_chars += usize::from(row_chars);
            if row_chars > longest_row_chars {
                longest_row = row;
                longest_row_chars = row_chars;
            }
            let ghost old_newlines = newlines;
            let ghost old_chars = chars;
            newlines >>= newline_ix;
            newlines >>= 1;
            chars >>= newline_ix;
            chars >>= 1;
            proof {
                assert forall|i: int| #[trigger] bit(newlines, i) == (0 <= i && newline_at(b, i + pos + ix + 1)) by {
                    lemma_bit_shr(old_newlines >> newline_ix, 1, i);
                    lemma_bit_shr(old_newlines, newline_ix as u128, i + 1);
                }
                assert forall|i: int| #[trigger] bit(chars, i) == (0 <= i && char_at(b, i + pos + ix + 1)) by {
                    lemma_bit_shr(old_chars >> newline_ix, 1, i);
                    lemma_bit_shr(old_chars, newline_ix as u128, i + 1);
                }
                pos = pos + ix + 1;
            }
            row += 1;
            *total_chars += 1;
        }
        proof {
            lemma_bit_zero(0);
            assert forall|j: int| pos <= j < b.len() implies !#[trigger] newline_at(b, j) by {
                lemma_bit_zero(j - pos);
                assert(!bit(newlines, j - pos));
            }
            lemma_next_newline(b, pos, b.len() as int);
            lemma_count_if_clip(pos, pos, b.len() as int, |j: int| newline_at(b, j));
            lemma_count_if_split(0, pos, b.len() as int, |j: int| newline_at(b, j));
            lemma_ones_match_shifted(chars, |j: int| char_at(b, j), pos, 128);
            lemma_count_if_clip(pos, b.len() as int, pos + 128, |j: int| char_at(b, j));
            lemma_count_if_split(0, pos, b.len() as int, |j: int| char_at(b, j));
            lemma_count_if_bound(pos, b.len() as int, |j: int| char_at(b, j));
            lemma_count_if_bound(0, b.len() as int, |j: int| char_at(b, j));
        }
        let row_chars = count_ones(chars) as u8;
        proof {
            assert(row_chars as int == crate::summary::row_chars(b, row as nat));
        }
        *total_chars += usize::from(row_chars);
        if row_chars > longest_row_chars {
            (row, row_chars as u32)
        } else {
            (longest_row, longest_row_chars as u32)
        }
    }
}

impl<'a> ChunkSlice<'a> {
    /// The summary of the slice's text.
    #[inline(always)]
    pub fn text_summary(&self) -> (r: TextSummary)
        ensures
            r@ == text_metrics(self@),
    {
        let mut chars: usize = 0;
        let (longest_row, longest_row_chars) = self.longest_row(&mut chars);
        TextSummary {
            len: self.len(),
            chars,
            len_utf16: self.len_utf16(),
            lines: self.lines(),
            first_line_chars: self.first_line_chars(),
            last_line_chars: self.last_line_chars(),
            last_line_len_utf16: self.last_line_len_utf16(),
            longest_row,
            longest_row_chars,
        }
    }
}

impl<'a> ChunkSlice<'a> {
    /// The part of the slice in `range`, with the start moved up and the end moved down to
    /// character boundaries; a range starting at 128 gives the empty slice.
    #[inline(always)]
    pub fn slice(self, range: core::ops::Range<usize>) -> (r: Self)
        requires
            range.start == MAX_BASE || (slice_start(self@, range) < 128 && slice_start(self@, range)
                <= slice_end(self@, range) <= self@.len()),
        ensures
            range.start == MAX_BASE ==> r@ == Seq::<u8>::empty(),
            range.start != MAX_BASE ==> r@ == self@.subrange(
                slice_start(self@, range),
                slice_end(self@, range),
            ),
    {
        proof {
            use_type_invariant(self);
        }
        let ghost b = self@;
        if range.start == MAX_BASE {
            let text = "";
            proof {
                reveal_strlit("");
                assert(text.spec_bytes() =~= Seq::<u8>::empty());
                assert forall|i: int| #[trigger] bit(0u128, i) == char_at(text.spec_bytes(), i) by {
                    lemma_bit_zero(i);
                }
                assert forall|i: int| #[trigger] bit(0u128, i) == utf16_unit_at(text.spec_bytes(), i) by {
                    lemma_bit_zero(i);
                }
                assert forall|i: int| #[trigger] bit(0u128, i) == newline_at(text.spec_bytes(), i) by {
                    lemma_bit_zero(i);
                }
                assert forall|i: int| #[trigger] bit(0u128, i) == tab_at(text.spec_bytes(), i) by {
                    lemma_bit_zero(i);
                }
            }
            Self { chars: 0, chars_utf16: 0, newlines: 0, tabs: 0, text }
        } else {
            let mut start = range.start;
            let mut end = range.end;
            if !self.assert_char_boundary::<false>(start) {
                start = ceil_char_boundary(self.text, start);
            }
            if !self.assert_char_boundary::<false>(end) {
                end = if end < start {
                    start
                } else {
                    floor_char_boundary(self.text, end)
                };
            }
            let ghost s = start as int;
            let ghost e = end as int;
            proof {
                assert(s == slice_start(b, range));
                assert(e == slice_end(b, range));
                // both ends are boundaries of the text
                if range.start as int == s && s < b.len() {
                    lemma_small_u32(range.start);
                }
                if range.end as int == e && e < b.len() {
                    lemma_small_u32(range.end);
                }
                if !chunk_boundary(b, range.start) && range.start <= b.len() {
                    lemma_next_boundary(b, range.start as int);
                }
                if !chunk_boundary(b, range.end) && range.end as int >= s && range.end < b.len() {
                    lemma_prev_boundary(b, range.end as int);
                }
                assert(s == b.len() || char_at(b, s));
                assert(e == 0 || e == b.len() || char_at(b, e));
            }
            let mask = saturating_shl_mask(end as u32);
            proof {
                assert forall|i: int| #[trigger] bit(mask, i) == (0 <= i < e) by {}
            }
            let (head, _) = self.text.split_at(end);
            proof {
                let hb = head.spec_bytes();
                assert(hb =~= b.subrange(0, e));
                valid_utf8_split(b, e);
                if s == e {
                    is_char_boundary_start_end_of_seq(hb);
                } else {
                    is_char_boundary_iff_not_is_continuation_byte(hb, s);
                }
            }
            let (_, text) = head.split_at(start);
            let chars = (self.chars & mask) >> start;
            let chars_utf16 = (self.chars_utf16 & mask) >> start;
            let newlines = (self.newlines & mask) >> start;
            let tabs = (self.tabs & mask) >> start;
            proof {
                let nb = text.spec_bytes();
                assert(nb =~= b.subrange(s, e));
                lemma_slice_bits(self.chars, mask, |i: int| char_at(b, i), |i: int| char_at(nb, i), s, e);
                lemma_slice_bits(self.newlines, mask, |i: int| newline_at(b, i), |i: int| newline_at(nb, i), s, e);
                lemma_slice_bits(self.tabs, mask, |i: int| tab_at(b, i), |i: int| tab_at(nb, i), s, e);
                lemma_slice_bits(self.chars_utf16, mask, |i: int| utf16_unit_at(b, i), |i: int| utf16_unit_at(nb, i), s, e);
                assert(chars == (self.chars & mask) >> (s as u128));
                assert(forall|i: int| #[trigger] bit(chars, i) == char_at(nb, i));
                assert(forall|i: int| #[trigger] bit(chars_utf16, i) == utf16_unit_at(nb, i));
                assert(forall|i: int| #[trigger] bit(newlines, i) == newline_at(nb, i));
                assert(forall|i: int| #[trigger] bit(tabs, i) == tab_at(nb, i));
                assert(nb.len() <= 128);
            }
            let r = Self { chars, chars_utf16, newlines, tabs, text };
            r
        }
    }
}

proof fn lemma_small_u32(x: usize)
    requires
        x < 128,
    ensures
        (x as u32) as usize == x,
{
    assert((x as u32) as usize == x) by (bit_vector)
        requires
            x < 128usize,
    ;
}

/// The bits of `(x & mask) >> s` where the mask selects `[0, e)`, compared with a
/// predicate `q` that reads `p` moved down by `s`.
proof fn lemma_slice_bits(
    x: u128,
    mask: u128,
    p: spec_fn(int) -> bool,
    q: spec_fn(int) -> bool,
    s: int,
    e: int,
)
    requires
        0 <= s < 128,
        s <= e <= 128,
        forall|i: int| #[trigger] bit(x, i) == p(i),
        forall|i: int| #[trigger] bit(mask, i) == (0 <= i < e),
        forall|i: int| #[trigger] q(i) == (0 <= i < e - s && p(i + s)),
    ensures
        forall|i: int| #[trigger] bit((x & mask) >> (s as u128), i) == q(i),
{
    assert forall|i: int| #[trigger] bit((x & mask) >> (s as u128), i) == q(i) by {
        lemma_bit_shr(x & mask, s as u128, i);
        lemma_bit_and(x, mask, i + s);
    }
}

/// A piece of text of at most 128 bytes with one bitmap bit per byte: which bytes start a
/// character, which carry a UTF-16 code unit, and which are newlines and tabs.
#[derive(Debug)]
pub struct Chunk {
    /// If bit[i] is set, then the character at index i is the start of a UTF-8 character in the
    /// text.
    chars: Bitmap,
    /// The number of set bits is the number of UTF-16 code units it would take to represent the
    /// text.
    ///
    /// Bit[i] is set if text[i] is the start of a UTF-8 character. If the character would
    /// take two UTF-16 code units, then bit[i+1] is also set. (Rust chars never take more
    /// than two UTF-16 code units.)
    chars_utf16: Bitmap,
    /// If bit[i] is set, then the character at index i is an ascii newline.
    newlines: Bitmap,
    /// If bit[i] is set, then the character at index i is an ascii tab.
    tabs: Bitmap,
    pub text: ChunkText,
}

impl View for Chunk {
    /// The UTF-8 bytes of the text.
    type V = Seq<u8>;

    closed spec fn view(&self) -> Seq<u8> {
        chunk_text_bytes(self.text)
    }
}

impl Chunk {
    /// The bitmaps describe the text.
    pub closed spec fn wf(&self) -> bool {
        bitmaps_describe(self.chars, self.chars_utf16, self.newlines, self.tabs, self@)
    }

    /// A chunk holding `text`.
    pub fn new(text: &str) -> (r: Self)
        requires
            text.spec_bytes().len() <= MAX_BASE,
        ensures
            r.wf(),
            r@ == text.spec_bytes(),
            valid_utf8(r@),
    {
        proof {
            encode_utf8_valid_utf8(text@);
        }
        let bytes = text.as_bytes();
        let ghost b = bytes@;
        let mut chars: Bitmap = 0;
        let mut chars_utf16: Bitmap = 0;
        let mut newlines: Bitmap = 0;
        let mut tabs: Bitmap = 0;
        let mut i: usize = 0;
        proof {
            assert forall|j: int| #[trigger] bit(0u128, j) == false by {
                lemma_bit_zero(j);
            }
        }
        while i < bytes.len()
            invariant
                b == bytes@,
                b.len() <= 128,
                i <= b.len(),
                forall|j: int| #[trigger] bit(chars, j) == (j < i && char_at(b, j)),
                forall|j: int| #[trigger] bit(chars_utf16, j) == (j < i && utf16_unit_at(b, j)),
                forall|j: int| #[trigger] bit(newlines, j) == (j < i && newline_at(b, j)),
                forall|j: int| #[trigger] bit(tabs, j) == (j < i && tab_at(b, j)),
            decreases b.len() - i,
        {
            let byte = bytes[i];
            let bit_i: Bitmap = 1u128 << i;
            let ghost k = i as u128;
            let starts_char = !(0x80 <= byte && byte <= 0xbf);
            if starts_char {
                let ghost old_chars = chars;
                chars = chars | bit_i;
                proof {
                    assert forall|j: int| #[trigger] bit(chars, j) == (j < i + 1 && char_at(b, j)) by {
                        lemma_bit_or_single(old_chars, k, j);
                    }
                }
            }
            if starts_char || (i >= 1 && 0xf0 <= bytes[i - 1] && bytes[i - 1] <= 0xf7) {
                let ghost old_u = chars_utf16;
                chars_utf16 = chars_utf16 | bit_i;
                proof {
                    assert forall|j: int| #[trigger] bit(chars_utf16, j) == (j < i + 1 && utf16_unit_at(b, j)) by {
                        lemma_bit_or_single(old_u, k, j);
                    }
                }
            }
            if byte == 10u8 {
                let ghost old_n = newlines;
                newlines = newlines | bit_i;
                proof {
                    assert forall|j: int| #[trigger] bit(newlines, j) == (j < i + 1 && newline_at(b, j)) by {
                        lemma_bit_or_single(old_n, k, j);
                    }
                }
            }
            if byte == 9u8 {
                let ghost old_t = tabs;
                tabs = tabs | bit_i;
                proof {
                    assert forall|j: int| #[trigger] bit(tabs, j) == (j < i + 1 && tab_at(b, j)) by {
                        lemma_bit_or_single(old_t, k, j);
                    }
                }
            }
            i += 1;
        }
        Chunk { chars, chars_utf16, newlines, tabs, text: ChunkText::from_str(text) }
    }

    /// A chunk holds at most 128 bytes.
    pub proof fn lemma_wf_len(&self)
        requires
            self.wf(),
        ensures
            self@.len() <= 128,
    {
    }

    /// The chunk's text.
    pub fn as_str(&self) -> (r: &str)
        ensures
            r.spec_bytes() == self@,
    {
        self.text.as_str()
    }

    /// The chunk's text and bitmaps as a slice.
    #[inline(always)]
    pub fn as_slice(&self) -> (r: ChunkSlice<'_>)
        requires
            self.wf(),
        ensures
            r@ == self@,
    {
        ChunkSlice {
            chars: self.chars,
            chars_utf16: self.chars_utf16,
            newlines: self.newlines,
            tabs: self.tabs,
            text: self.text.as_str(),
        }
    }

    /// The part of the chunk in `range`, as [`ChunkSlice::slice`] cuts it.
    #[inline(always)]
    pub fn slice(&self, range: core::ops::Range<usize>) -> (r: ChunkSlice<'_>)
        requires
            self.wf(),
            range.start == MAX_BASE || (slice_start(self@, range) < 128 && slice_start(self@, range)
                <= slice_end(self@, range) <= self@.len()),
        ensures
            range.start == MAX_BASE ==> r@ == Seq::<u8>::empty(),
            range.start != MAX_BASE ==> r@ == self@.subrange(
                slice_start(self@, range),
                slice_end(self@, range),
            ),
    {
        self.as_slice().slice(range)
    }

    /// `true` when `offset` is the end of the text or the first byte of a character.
    #[inline(always)]
    pub fn is_char_boundary(&self, offset: usize) -> (r: bool)
        requires
            self.wf(),
        ensures
            r == chunk_boundary(self@, offset),
    {
        proof {
            let k = offset as u32;
            if k < 128 {
                lemma_bit_test(self.chars, k as u128);
            } else {
                assert(0u128 & self.chars == 0u128) by (bit_vector);
            }
        }
        let text = self.text.as_str();
        (shl_one(offset as u32) & self.chars != 0) || offset == text.len()
    }

    /// Whether `offset` is a character boundary; with `PANIC`, a non-boundary is a
    /// caller error.
    #[inline(always)]
    pub fn assert_char_boundary<const PANIC: bool>(&self, offset: usize) -> (r: bool)
        requires
            self.wf(),
            PANIC ==> chunk_boundary(self@, offset),
        ensures
            r == chunk_boundary(self@, offset),
    {
        self.is_char_boundary(offset)
    }
}

impl Default for Chunk {
    fn default() -> (r: Self)
        ensures
            r.wf(),
            r@ == Seq::<u8>::empty(),
            valid_utf8(r@),
    {
        proof {
            assert forall|j: int| #[trigger] bit(0u128, j) == false by {
                lemma_bit_zero(j);
            }
        }
        Chunk { chars: 0, chars_utf16: 0, newlines: 0, tabs: 0, text: ChunkText::new() }
    }
}

impl Clone for Chunk {
    fn clone(&self) -> (r: Self)
        ensures
            r@ == self@,
            r.wf() == self.wf(),
    {
        Chunk {
            chars: self.chars,
            chars_utf16: self.chars_utf16,
            newlines: self.newlines,
            tabs: self.tabs,
            text: self.text.copy(),
        }
    }
}

} // verus!
