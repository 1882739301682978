//! Summaries of UTF-8 text: lengths, line structure and the longest row, with the
//! byte-level model they are specified against.
use vstd::prelude::*;
use vstd::utf8::*;
use crate::bitmap::count_if;
use crate::point::{point_add, OffsetUtf16, Point};

verus! {

/* Byte-level model of a piece of UTF-8 text */

/// Byte `i` starts a character.
pub open spec fn char_at(b: Seq<u8>, i: int) -> bool {
    0 <= i < b.len() && !is_continuation_byte(b[i])
}

/// Byte `i` is a newline.
pub open spec fn newline_at(b: Seq<u8>, i: int) -> bool {
    0 <= i < b.len() && b[i] == 10u8
}

/// Byte `i` is a tab.
pub open spec fn tab_at(b: Seq<u8>, i: int) -> bool {
    0 <= i < b.len() && b[i] == 9u8
}

/// Byte `i` accounts for one UTF-16 code unit: every character starts one unit, and a
/// character of four UTF-8 bytes (outside the basic plane) takes a second unit, which is
/// attributed to its second byte.
pub open spec fn utf16_unit_at(b: Seq<u8>, i: int) -> bool {
    0 <= i < b.len() && (!is_continuation_byte(b[i]) || (i >= 1 && is_leading_byte_width_4(
        b[i - 1],
    )))
}

/// Number of characters that start in `[lo, hi)`.
pub open spec fn char_count(b: Seq<u8>, lo: int, hi: int) -> nat {
    count_if(lo, hi, |i: int| char_at(b, i))
}

/// Number of newlines in `[lo, hi)`.
pub open spec fn newline_count(b: Seq<u8>, lo: int, hi: int) -> nat {
    count_if(lo, hi, |i: int| newline_at(b, i))
}

/// Number of UTF-16 code units of the bytes in `[lo, hi)`.
pub open spec fn utf16_count(b: Seq<u8>, lo: int, hi: int) -> nat {
    count_if(lo, hi, |i: int| utf16_unit_at(b, i))
}

/// Index of the first newline at or after `i`, or the length when there is none.
pub open spec fn next_newline(b: Seq<u8>, i: int) -> int
    decreases b.len() - i,
{
    if i >= b.len() {
        b.len() as int
    } else if 0 <= i && b[i] == 10u8 {
        i
    } else {
        next_newline(b, i + 1)
    }
}

/// Index just past the last newline before `k`, or zero when there is none.
pub open spec fn line_start_before(b: Seq<u8>, k: int) -> int
    decreases k,
{
    if k <= 0 {
        0
    } else if k - 1 < b.len() && b[k - 1] == 10u8 {
        k
    } else {
        line_start_before(b, k - 1)
    }
}

/// Index of the first byte of row `r`.
pub open spec fn row_start(b: Seq<u8>, r: nat) -> int
    decreases r,
{
    if r == 0 {
        0
    } else {
        next_newline(b, row_start(b, (r - 1) as nat)) + 1
    }
}

/// Number of characters in row `r`, not counting its newline.
pub open spec fn row_chars(b: Seq<u8>, r: nat) -> int {
    char_count(b, row_start(b, r), next_newline(b, row_start(b, r))) as int
}

/// Among the rows `0..n`, the first row with the most characters and that count;
/// `(0, 0)` when there are no rows or every row is empty.
pub open spec fn longest_row_before(b: Seq<u8>, n: nat) -> (int, int)
    decreases n,
{
    if n == 0 {
        (0, 0)
    } else {
        let prev = longest_row_before(b, (n - 1) as nat);
        let c = row_chars(b, (n - 1) as nat);
        if c > prev.1 {
            ((n - 1) as int, c)
        } else {
            prev
        }
    }
}

/// `q` is the first newline at or after `i` (or the end of the text).
pub proof fn lemma_next_newline(b: Seq<u8>, i: int, q: int)
    requires
        0 <= i <= q <= b.len(),
        forall|j: int| i <= j < q ==> !#[trigger] newline_at(b, j),
        q == b.len() || newline_at(b, q),
    ensures
        next_newline(b, i) == q,
    decreases q - i,
{
    if i < q {
        assert(!newline_at(b, i));
        lemma_next_newline(b, i + 1, q);
    }
}

/// `q` is just past the last newline before `k`.
pub proof fn lemma_line_start_before(b: Seq<u8>, k: int, q: int)
    requires
        0 <= q <= k,
        q == 0 || newline_at(b, q - 1),
        forall|j: int| q <= j < k ==> !#[trigger] newline_at(b, j),
    ensures
        line_start_before(b, k) == q,
    decreases k,
{
    if k > q {
        assert(!newline_at(b, k - 1));
        lemma_line_start_before(b, k - 1, q);
    }
}

/// The mathematical content of a [`TextSummary`].
pub struct TextMetrics {
    pub len: int,
    pub chars: int,
    pub len_utf16: int,
    pub rows: int,
    pub column: int,
    pub first_line_chars: int,
    pub last_line_chars: int,
    pub last_line_len_utf16: int,
    pub longest_row: int,
    pub longest_row_chars: int,
}

/// The metrics of the text whose UTF-8 encoding is `b`.
pub open spec fn text_metrics(b: Seq<u8>) -> TextMetrics {
    let len = b.len() as int;
    let rows = newline_count(b, 0, len) as int;
    let last_start = line_start_before(b, len);
    let longest = longest_row_before(b, (rows + 1) as nat);
    TextMetrics {
        len,
        chars: char_count(b, 0, len) as int,
        len_utf16: utf16_count(b, 0, len) as int,
        rows,
        column: len - last_start,
        first_line_chars: char_count(b, 0, next_newline(b, 0)) as int,
        last_line_chars: char_count(b, last_start, len) as int,
        last_line_len_utf16: utf16_count(b, last_start, len) as int,
        longest_row: longest.0,
        longest_row_chars: longest.1,
    }
}

/// The metrics of a text followed by another text, computed from the metrics of the two.
pub open spec fn metrics_add(a: TextMetrics, b: TextMetrics) -> TextMetrics {
    let joined = a.last_line_chars + b.first_line_chars;
    let (r1, c1) = if joined > a.longest_row_chars {
        (a.rows, joined)
    } else {
        (a.longest_row, a.longest_row_chars)
    };
    let (r2, c2) = if b.longest_row_chars > c1 {
        (a.rows + b.longest_row, b.longest_row_chars)
    } else {
        (r1, c1)
    };
    let lines = point_add((a.rows, a.column), (b.rows, b.column));
    TextMetrics {
        len: a.len + b.len,
        chars: a.chars + b.chars,
        len_utf16: a.len_utf16 + b.len_utf16,
        rows: lines.0,
        column: lines.1,
        first_line_chars: if a.rows == 0 {
            a.first_line_chars + b.first_line_chars
        } else {
            a.first_line_chars
        },
        last_line_chars: if b.rows == 0 {
            a.last_line_chars + b.first_line_chars
        } else {
            b.last_line_chars
        },
        last_line_len_utf16: if b.rows == 0 {
            a.last_line_len_utf16 + b.last_line_len_utf16
        } else {
            b.last_line_len_utf16
        },
        longest_row: r2,
        longest_row_chars: c2,
    }
}

/// Summary of a string of text.
#[derive(Copy, Clone, Debug, Eq, PartialEq)]
pub struct TextSummary {
    /// Length in bytes.
    pub len: usize,
    /// Length in UTF-8.
    pub chars: usize,
    /// Length in UTF-16 code units
    pub len_utf16: OffsetUtf16,
    /// A point representing the number of lines and the length of the last line.
    ///
    /// In other words, it marks the point after the last byte in the text, (if
    /// EOF was a character, this would be its position).
    pub lines: Point,
    /// How many `char`s are in the first line
    pub first_line_chars: u32,
    /// How many `char`s are in the last line
    pub last_line_chars: u32,
    /// How many UTF-16 code units are in the last line
    pub last_line_len_utf16: u32,
    /// The row idx of the longest row
    pub longest_row: u32,
    /// How many `char`s are in the longest row
    pub longest_row_chars: u32,
}

impl View for TextSummary {
    type V = TextMetrics;

    open spec fn view(&self) -> TextMetrics {
        TextMetrics {
            len: self.len as int,
            chars: self.chars as int,
            len_utf16: self.len_utf16.0 as int,
            rows: self.lines.row as int,
            column: self.lines.column as int,
            first_line_chars: self.first_line_chars as int,
            last_line_chars: self.last_line_chars as int,
            last_line_len_utf16: self.last_line_len_utf16 as int,
            longest_row: self.longest_row as int,
            longest_row_chars: self.longest_row_chars as int,
        }
    }
}

/// Adding `b` to `a` stays within the integer widths of a [`TextSummary`]: every sum
/// that the addition computes fits.
/// Whether the line and row counts of a summary fit the `u32` fields that hold them.
pub open spec fn metrics_fit_u32(m: TextMetrics) -> bool {
    &&& m.rows <= u32::MAX
    &&& m.column <= u32::MAX
    &&& m.first_line_chars <= u32::MAX
    &&& m.last_line_chars <= u32::MAX
    &&& m.last_line_len_utf16 <= u32::MAX
    &&& m.longest_row <= u32::MAX
    &&& m.longest_row_chars <= u32::MAX
}

/// Whether the summary of every prefix of `text[start..end]` that ends at a character
/// boundary has line and row counts that fit in `u32`: the summaries met while summing
/// the range are such prefixes.
pub open spec fn prefixes_fit_u32(text: Seq<u8>, start: int, end: int) -> bool {
    forall|k: int|
        start <= k <= end && crate::rope::text_boundary(text, k) ==> metrics_fit_u32(
            #[trigger] text_metrics(text.subrange(start, k)),
        )
}

pub open spec fn summary_add_fits(a: TextMetrics, b: TextMetrics) -> bool {
    let joined = a.last_line_chars + b.first_line_chars;
    let c1 = if joined > a.longest_row_chars {
        joined
    } else {
        a.longest_row_chars
    };
    &&& joined <= u32::MAX
    &&& b.longest_row_chars > c1 ==> a.rows + b.longest_row <= u32::MAX
    &&& a.rows == 0 ==> a.first_line_chars + b.first_line_chars <= u32::MAX
    &&& b.rows == 0 ==> a.last_line_len_utf16 + b.last_line_len_utf16 <= u32::MAX
    &&& a.chars + b.chars <= usize::MAX
    &&& a.len + b.len <= usize::MAX
    &&& a.len_utf16 + b.len_utf16 <= usize::MAX
    &&& b.rows != 0 ==> a.rows + b.rows <= u32::MAX
    &&& b.rows == 0 ==> a.column + b.column <= u32::MAX
}

impl TextSummary {
    /// `self += other`: the summary of this text followed by the text `other` summarizes.
    pub fn add_assign(&mut self, other: &Self)
        requires
            summary_add_fits(old(self)@, other@),
        ensures
            final(self)@ == metrics_add(old(self)@, other@),
    {
        let joined_chars = self.last_line_chars + other.first_line_chars;
        if joined_chars > self.longest_row_chars {
            self.longest_row = self.lines.row;
            self.longest_row_chars = joined_chars;
        }
        if other.longest_row_chars > self.longest_row_chars {
            self.longest_row = self.lines.row + other.longest_row;
            self.longest_row_chars = other.longest_row_chars;
        }
        if self.lines.row == 0 {
            self.first_line_chars = self.first_line_chars + other.first_line_chars;
        }
        if other.lines.row == 0 {
            self.last_line_chars = self.last_line_chars + other.first_line_chars;
            self.last_line_len_utf16 = self.last_line_len_utf16 + other.last_line_len_utf16;
        } else {
            self.last_line_chars = other.last_line_chars;
            self.last_line_len_utf16 = other.last_line_len_utf16;
        }
        self.chars = self.chars + other.chars;
        self.len = self.len + other.len;
        self.len_utf16.add_assign(other.len_utf16);
        self.lines.add_assign(other.lines);
    }
}

impl Default for TextSummary {
    /// The summary of no text.
    fn default() -> (s: Self)
        ensures
            s@ == text_metrics(Seq::<u8>::empty()),
    {
        let s = TextSummary {
            len: 0,
            chars: 0,
            len_utf16: OffsetUtf16(0),
            lines: Point { row: 0, column: 0 },
            first_line_chars: 0,
            last_line_chars: 0,
            last_line_len_utf16: 0,
            longest_row: 0,
            longest_row_chars: 0,
        };
        proof {
            let b = Seq::<u8>::empty();
            reveal_with_fuel(longest_row_before, 2);
            assert(row_start(b, 0) == 0);
            assert(next_newline(b, 0) == 0);
        }
        s
    }
}

/// The summary that a chunk contributes to a rope.
#[derive(Clone, Debug, Eq, PartialEq)]
pub struct ChunkSummary {
    pub text: TextSummary,
}

impl Default for ChunkSummary {
    /// The summary of no text.
    fn default() -> (s: Self)
        ensures
            s.text@ == text_metrics(Seq::<u8>::empty()),
    {
        ChunkSummary { text: TextSummary::default() }
    }
}

impl ChunkSummary {
    /// The summary of no text.
    pub fn zero() -> (s: Self)
        ensures
            s.text@ == text_metrics(Seq::<u8>::empty()),
    {
        ChunkSummary { text: TextSummary::default() }
    }

    /// Appends the summary of the text that follows.
    pub fn add_summary(&mut self, summary: &Self)
        requires
            summary_add_fits(old(self).text@, summary.text@),
        ensures
            final(self).text@ == metrics_add(old(self).text@, summary.text@),
    {
        self.text.add_assign(&summary.text);
    }
}

} // verus!
