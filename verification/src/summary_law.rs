//! Summaries compose: the summary of two texts one after the other is the sum of the
//! summaries of the two.
use vstd::prelude::*;
use vstd::utf8::*;
use crate::bitmap::{
    count_if, lemma_count_if_bound, lemma_count_if_ext, lemma_count_if_none, lemma_count_if_shift,
    lemma_count_if_split,
};
use crate::summary::{
    char_at, char_count, lemma_line_start_before, lemma_next_newline, line_start_before,
    longest_row_before, metrics_add, newline_at, newline_count, next_newline, row_chars, row_start,
    metrics_fit_u32, summary_add_fits, text_metrics, utf16_count, utf16_unit_at, TextSummary,
};

verus! {

broadcast use vstd::utf8::group_utf8_lib;

/* Facts about one text */

proof fn lemma_nn_basic(b: Seq<u8>, i: int)
    requires
        0 <= i <= b.len(),
    ensures
        i <= next_newline(b, i) <= b.len(),
        next_newline(b, i) < b.len() ==> newline_at(b, next_newline(b, i)),
        forall|j: int| i <= j < next_newline(b, i) ==> !#[trigger] newline_at(b, j),
    decreases b.len() - i,
{
    if i < b.len() && b[i] != 10u8 {
        lemma_nn_basic(b, i + 1);
    }
}

/// A newline in `[lo, hi)` makes the count of newlines there positive.
proof fn lemma_newline_counted(b: Seq<u8>, lo: int, q: int, hi: int)
    requires
        lo <= q < hi,
        newline_at(b, q),
    ensures
        newline_count(b, lo, hi) > 0,
{
    let p = |i: int| newline_at(b, i);
    lemma_count_if_split(lo, q, hi, p);
    lemma_count_if_split(q, q + 1, hi, p);
    assert(count_if(q, q + 1, p) == 1) by {
        assert(count_if(q, q, p) == 0);
    }
}

/// No newline in `[lo, hi)` makes the count zero.
proof fn lemma_no_newline_counted(b: Seq<u8>, lo: int, hi: int)
    requires
        forall|j: int| lo <= j < hi ==> !#[trigger] newline_at(b, j),
    ensures
        newline_count(b, lo, hi) == 0,
{
    lemma_count_if_none(lo, hi, |i: int| newline_at(b, i));
}

/// Row `r` of a text with at least `r` newlines starts after exactly `r` newlines.
proof fn lemma_row_start(b: Seq<u8>, r: nat)
    requires
        r <= newline_count(b, 0, b.len() as int),
    ensures
        0 <= row_start(b, r) <= b.len(),
        newline_count(b, 0, row_start(b, r)) == r,
        r > 0 ==> newline_at(b, row_start(b, r) - 1),
    decreases r,
{
    let p = |i: int| newline_at(b, i);
    if r > 0 {
        let r0 = (r - 1) as nat;
        lemma_row_start(b, r0);
        let s = row_start(b, r0);
        lemma_count_if_split(0, s, b.len() as int, p);
        lemma_nn_basic(b, s);
        let q = next_newline(b, s);
        if q == b.len() {
            lemma_no_newline_counted(b, s, b.len() as int);
        }
        assert(q < b.len());
        lemma_no_newline_counted(b, s, q);
        lemma_count_if_split(0, s, q, p);
        lemma_count_if_split(0, q, q + 1, p);
        assert(count_if(q, q + 1, p) == 1) by {
            assert(count_if(q, q, p) == 0);
        }
    }
}

/// The last row starts just past the last newline and runs to the end of the text.
proof fn lemma_last_row(b: Seq<u8>)
    ensures
        row_start(b, newline_count(b, 0, b.len() as int)) == line_start_before(b, b.len() as int),
        next_newline(b, line_start_before(b, b.len() as int)) == b.len(),
        0 <= line_start_before(b, b.len() as int) <= b.len(),
{
    let rows = newline_count(b, 0, b.len() as int);
    let p = |i: int| newline_at(b, i);
    lemma_row_start(b, rows);
    let q = row_start(b, rows);
    lemma_count_if_split(0, q, b.len() as int, p);
    assert forall|j: int| q <= j < b.len() implies !#[trigger] newline_at(b, j) by {
        if newline_at(b, j) {
            lemma_newline_counted(b, q, j, b.len() as int);
        }
    }
    lemma_line_start_before(b, b.len() as int, q);
    lemma_next_newline(b, q, b.len() as int);
}

/// A text with no newline starts its last line at zero, and conversely.
proof fn lemma_no_rows(b: Seq<u8>, k: int)
    requires
        0 <= k <= b.len(),
    ensures
        (line_start_before(b, k) == 0) == (newline_count(b, 0, k) == 0),
        newline_count(b, 0, k) == 0 ==> next_newline(b, 0) >= k,
    decreases k,
{
    let p = |i: int| newline_at(b, i);
    lemma_nn_basic(b, 0);
    if k > 0 {
        lemma_no_rows(b, k - 1);
        lemma_count_if_split(0, k - 1, k, p);
        assert(count_if(k - 1, k, p) == (if p(k - 1) { 1nat } else { 0nat })) by {
            assert(count_if(k - 1, k - 1, p) == 0);
        }
        if newline_count(b, 0, k) == 0 {
            lemma_nn_basic(b, 0);
            if next_newline(b, 0) < k {
                lemma_newline_counted(b, 0, next_newline(b, 0), k);
            }
        }
    }
}

/* The two parts of a concatenation */

proof fn lemma_counts_left(a: Seq<u8>, b: Seq<u8>, lo: int, hi: int)
    requires
        0 <= lo <= hi <= a.len(),
    ensures
        char_count(a + b, lo, hi) == char_count(a, lo, hi),
        newline_count(a + b, lo, hi) == newline_count(a, lo, hi),
        utf16_count(a + b, lo, hi) == utf16_count(a, lo, hi),
{
    let c = a + b;
    lemma_count_if_ext(lo, hi, |i: int| char_at(c, i), |i: int| char_at(a, i));
    lemma_count_if_ext(lo, hi, |i: int| newline_at(c, i), |i: int| newline_at(a, i));
    lemma_count_if_ext(lo, hi, |i: int| utf16_unit_at(c, i), |i: int| utf16_unit_at(a, i));
}

proof fn lemma_counts_right(a: Seq<u8>, b: Seq<u8>, lo: int, hi: int)
    requires
        0 <= lo <= hi <= b.len(),
        valid_utf8(b),
    ensures
        char_count(a + b, a.len() + lo, a.len() + hi) == char_count(b, lo, hi),
        newline_count(a + b, a.len() + lo, a.len() + hi) == newline_count(b, lo, hi),
        utf16_count(a + b, a.len() + lo, a.len() + hi) == utf16_count(b, lo, hi),
{
    let c = a + b;
    let la = a.len() as int;
    if b.len() > 0 {
        is_char_boundary_iff_not_is_continuation_byte(b, 0);
    }
    lemma_count_if_shift(lo, hi, la, |i: int| char_at(c, i), |i: int| char_at(b, i));
    lemma_count_if_shift(lo, hi, la, |i: int| newline_at(c, i), |i: int| newline_at(b, i));
    assert forall|i: int| lo <= i < hi implies #[trigger] utf16_unit_at(b, i) == utf16_unit_at(
        c,
        i + la,
    ) by {
        if i == 0 {
            assert(c[la] == b[0]);
        } else {
            assert(c[i + la - 1] == b[i - 1]);
        }
    }
    lemma_count_if_shift(lo, hi, la, |i: int| utf16_unit_at(c, i), |i: int| utf16_unit_at(b, i));
}

/// Counting across the seam.
proof fn lemma_counts_across(a: Seq<u8>, b: Seq<u8>, lo: int, hi: int)
    requires
        0 <= lo <= a.len(),
        0 <= hi <= b.len(),
        valid_utf8(b),
    ensures
        char_count(a + b, lo, a.len() + hi) == char_count(a, lo, a.len() as int) + char_count(b, 0, hi),
        newline_count(a + b, lo, a.len() + hi) == newline_count(a, lo, a.len() as int)
            + newline_count(b, 0, hi),
        utf16_count(a + b, lo, a.len() + hi) == utf16_count(a, lo, a.len() as int) + utf16_count(
            b,
            0,
            hi,
        ),
{
    let c = a + b;
    let la = a.len() as int;
    lemma_count_if_split(lo, la, la + hi, |i: int| char_at(c, i));
    lemma_count_if_split(lo, la, la + hi, |i: int| newline_at(c, i));
    lemma_count_if_split(lo, la, la + hi, |i: int| utf16_unit_at(c, i));
    lemma_counts_left(a, b, lo, la);
    lemma_counts_right(a, b, 0, hi);
}

proof fn lemma_nn_left(a: Seq<u8>, b: Seq<u8>, i: int)
    requires
        0 <= i <= a.len(),
    ensures
        next_newline(a + b, i) == if next_newline(a, i) < a.len() {
            next_newline(a, i)
        } else {
            a.len() + next_newline(b, 0)
        },
{
    let c = a + b;
    let la = a.len() as int;
    lemma_nn_basic(a, i);
    lemma_nn_basic(b, 0);
    let qa = next_newline(a, i);
    if qa < la {
        assert forall|j: int| i <= j < qa implies !#[trigger] newline_at(c, j) by {
            assert(!newline_at(a, j));
        }
        lemma_next_newline(c, i, qa);
    } else {
        let q = la + next_newline(b, 0);
        assert forall|j: int| i <= j < q implies !#[trigger] newline_at(c, j) by {
            if j < la {
                assert(!newline_at(a, j));
            } else {
                assert(!newline_at(b, j - la));
            }
        }
        if q < c.len() {
            assert(newline_at(b, next_newline(b, 0)));
        }
        lemma_next_newline(c, i, q);
    }
}

proof fn lemma_nn_right(a: Seq<u8>, b: Seq<u8>, i: int)
    requires
        0 <= i <= b.len(),
    ensures
        next_newline(a + b, a.len() + i) == a.len() + next_newline(b, i),
{
    let c = a + b;
    let la = a.len() as int;
    lemma_nn_basic(b, i);
    let q = la + next_newline(b, i);
    assert forall|j: int| la + i <= j < q implies !#[trigger] newline_at(c, j) by {
        assert(!newline_at(b, j - la));
    }
    if q < c.len() {
        assert(newline_at(b, next_newline(b, i)));
    }
    lemma_next_newline(c, la + i, q);
}

proof fn lemma_lsb_left(a: Seq<u8>, b: Seq<u8>, k: int)
    requires
        0 <= k <= a.len(),
    ensures
        line_start_before(a + b, k) == line_start_before(a, k),
    decreases k,
{
    if k > 0 {
        assert((a + b)[k - 1] == a[k - 1]);
        lemma_lsb_left(a, b, k - 1);
    }
}

proof fn lemma_lsb_right(a: Seq<u8>, b: Seq<u8>, k: int)
    requires
        0 <= k <= b.len(),
    ensures
        line_start_before(a + b, a.len() + k) == if line_start_before(b, k) > 0 {
            a.len() + line_start_before(b, k)
        } else {
            line_start_before(a, a.len() as int)
        },
    decreases k,
{
    if k == 0 {
        lemma_lsb_left(a, b, a.len() as int);
    } else {
        assert((a + b)[a.len() + k - 1] == b[k - 1]);
        lemma_lsb_right(a, b, k - 1);
    }
}

/* Rows of a concatenation */

proof fn lemma_rows_left(a: Seq<u8>, b: Seq<u8>, r: nat)
    requires
        r <= newline_count(a, 0, a.len() as int),
    ensures
        row_start(a + b, r) == row_start(a, r),
    decreases r,
{
    if r > 0 {
        let r0 = (r - 1) as nat;
        lemma_rows_left(a, b, r0);
        lemma_row_start(a, r0);
        lemma_row_start(a, r);
        lemma_nn_left(a, b, row_start(a, r0));
    }
}

proof fn lemma_row_chars_left(a: Seq<u8>, b: Seq<u8>, r: nat)
    requires
        r < newline_count(a, 0, a.len() as int),
    ensures
        row_chars(a + b, r) == row_chars(a, r),
{
    lemma_rows_left(a, b, r);
    lemma_row_start(a, r);
    lemma_row_start(a, r + 1);
    let s = row_start(a, r);
    lemma_nn_left(a, b, s);
    lemma_nn_basic(a, s);
    lemma_counts_left(a, b, s, next_newline(a, s));
}

/// The row where the texts meet holds the last line of the first and the first line of
/// the second.
proof fn lemma_row_chars_seam(a: Seq<u8>, b: Seq<u8>)
    requires
        valid_utf8(b),
    ensures
        row_chars(a + b, newline_count(a, 0, a.len() as int)) == text_metrics(a).last_line_chars
            + text_metrics(b).first_line_chars,
        row_start(a + b, newline_count(a, 0, a.len() as int) + 1) == a.len() + row_start(b, 1),
{
    let ra = newline_count(a, 0, a.len() as int);
    lemma_rows_left(a, b, ra);
    lemma_last_row(a);
    let s = row_start(a, ra);
    lemma_nn_left(a, b, s);
    lemma_nn_basic(b, 0);
    lemma_counts_across(a, b, s, next_newline(b, 0));
    assert(row_start(a + b, ra + 1) == next_newline(a + b, row_start(a + b, ra)) + 1);
    assert(row_start(b, 1) == next_newline(b, row_start(b, 0)) + 1);
}

proof fn lemma_rows_right(a: Seq<u8>, b: Seq<u8>, j: nat)
    requires
        1 <= j <= newline_count(b, 0, b.len() as int),
        valid_utf8(b),
    ensures
        row_start(a + b, newline_count(a, 0, a.len() as int) + j) == a.len() + row_start(b, j),
    decreases j,
{
    let ra = newline_count(a, 0, a.len() as int);
    if j == 1 {
        lemma_row_chars_seam(a, b);
    } else {
        let j0 = (j - 1) as nat;
        lemma_rows_right(a, b, j0);
        lemma_row_start(b, j0);
        lemma_nn_right(a, b, row_start(b, j0));
        assert(row_start(a + b, ra + j) == next_newline(a + b, row_start(a + b, (ra + j0) as nat)) + 1);
    }
}

proof fn lemma_row_chars_right(a: Seq<u8>, b: Seq<u8>, j: nat)
    requires
        1 <= j <= newline_count(b, 0, b.len() as int),
        valid_utf8(b),
    ensures
        row_chars(a + b, (newline_count(a, 0, a.len() as int) + j) as nat) == row_chars(b, j),
{
    lemma_rows_right(a, b, j);
    lemma_row_start(b, j);
    let s = row_start(b, j);
    lemma_nn_right(a, b, s);
    lemma_nn_basic(b, s);
    lemma_counts_right(a, b, s, next_newline(b, s));
}

/* The longest row of a concatenation */

proof fn lemma_longest_nonneg(b: Seq<u8>, n: nat)
    ensures
        longest_row_before(b, n).1 >= 0,
        n >= 1 ==> longest_row_before(b, n).1 >= row_chars(b, 0),
    decreases n,
{
    if n > 0 {
        lemma_longest_nonneg(b, (n - 1) as nat);
    }
}

proof fn lemma_longest_left(a: Seq<u8>, b: Seq<u8>, n: nat)
    requires
        n <= newline_count(a, 0, a.len() as int),
    ensures
        longest_row_before(a + b, n) == longest_row_before(a, n),
    decreases n,
{
    if n > 0 {
        lemma_longest_left(a, b, (n - 1) as nat);
        lemma_row_chars_left(a, b, (n - 1) as nat);
    }
}

proof fn lemma_longest_right(a: Seq<u8>, b: Seq<u8>, j: nat)
    requires
        j <= newline_count(b, 0, b.len() as int),
        valid_utf8(b),
        longest_row_before(a + b, newline_count(a, 0, a.len() as int) + 1).1 >= row_chars(b, 0),
    ensures
        ({
            let ra = newline_count(a, 0, a.len() as int);
            let init = longest_row_before(a + b, ra + 1);
            let g = longest_row_before(b, j + 1);
            longest_row_before(a + b, ra + 1 + j) == if g.1 > init.1 {
                (ra + g.0, g.1)
            } else {
                init
            }
        }),
    decreases j,
{
    let ra = newline_count(a, 0, a.len() as int);
    if j > 0 {
        let j0 = (j - 1) as nat;
        lemma_longest_right(a, b, j0);
        lemma_row_chars_right(a, b, j);
        assert(longest_row_before(a + b, ra + 1 + j) == {
            let prev = longest_row_before(a + b, (ra + 1 + j0) as nat);
            let c = row_chars(a + b, (ra + j) as nat);
            if c > prev.1 {
                ((ra + j) as int, c)
            } else {
                prev
            }
        });
        assert(longest_row_before(b, j + 1) == {
            let prev = longest_row_before(b, j);
            let c = row_chars(b, j);
            if c > prev.1 {
                (j as int, c)
            } else {
                prev
            }
        });
    } else {
        reveal_with_fuel(longest_row_before, 2);
        lemma_longest_nonneg(b, 0);
    }
}

/// The summary of a text followed by another text is the sum of the two summaries
/// (the second text being valid UTF-8, as every `str` is).
pub proof fn text_metrics_concat(a: Seq<u8>, b: Seq<u8>)
    requires
        valid_utf8(b),
    ensures
        text_metrics(a + b) == metrics_add(text_metrics(a), text_metrics(b)),
{
    let c = a + b;
    let la = a.len() as int;
    let lb = b.len() as int;
    let ma = text_metrics(a);
    let mb = text_metrics(b);
    let mc = text_metrics(c);
    let want = metrics_add(ma, mb);
    let ra = newline_count(a, 0, la);
    let rb = newline_count(b, 0, lb);
    // totals
    lemma_counts_across(a, b, 0, lb);
    // the last line
    lemma_lsb_right(a, b, lb);
    lemma_no_rows(b, lb);
    lemma_last_row(a);
    lemma_last_row(b);
    let lsa = line_start_before(a, la);
    let lsb = line_start_before(b, lb);
    if rb == 0 {
        lemma_counts_across(a, b, lsa, lb);
        lemma_nn_basic(b, 0);
        assert(next_newline(b, 0) == lb);
    } else {
        lemma_counts_right(a, b, lsb, lb);
    }
    // the first line
    lemma_nn_left(a, b, 0);
    lemma_nn_basic(a, 0);
    lemma_nn_basic(b, 0);
    if next_newline(a, 0) < la {
        lemma_newline_counted(a, 0, next_newline(a, 0), la);
        lemma_counts_left(a, b, 0, next_newline(a, 0));
    } else {
        lemma_no_newline_counted(a, 0, la);
        lemma_counts_across(a, b, 0, next_newline(b, 0));
    }
    // the longest row
    lemma_longest_left(a, b, ra);
    lemma_row_chars_seam(a, b);
    lemma_last_row(a);
    assert(row_chars(a, ra) == ma.last_line_chars);
    lemma_longest_nonneg(a, ra);
    lemma_longest_nonneg(b, 1);
    let p = longest_row_before(a, ra);
    let joined = ma.last_line_chars + mb.first_line_chars;
    assert(longest_row_before(c, ra + 1) == if joined > p.1 {
        (ra as int, joined)
    } else {
        p
    });
    assert(longest_row_before(a, ra + 1) == if ma.last_line_chars > p.1 {
        (ra as int, ma.last_line_chars)
    } else {
        p
    });
    assert(row_chars(b, 0) == mb.first_line_chars);
    lemma_longest_right(a, b, rb);
    assert(mc.longest_row == want.longest_row);
    assert(mc.longest_row_chars == want.longest_row_chars);
    assert(mc.len == want.len);
    assert(mc.chars == want.chars);
    assert(mc.len_utf16 == want.len_utf16);
    assert(mc.rows == want.rows);
    assert(mc.column == want.column);
    assert(mc.first_line_chars == want.first_line_chars);
    assert(mc.last_line_chars == want.last_line_chars);
    assert(mc.last_line_len_utf16 == want.last_line_len_utf16);
}

/// Adding summaries does not depend on how they are grouped: for three texts, the second
/// and third valid UTF-8, summing the first two and then the third gives what summing the
/// first and then the last two gives.
pub proof fn metrics_add_associative(a: Seq<u8>, b: Seq<u8>, c: Seq<u8>)
    requires
        valid_utf8(b),
        valid_utf8(c),
    ensures
        metrics_add(metrics_add(text_metrics(a), text_metrics(b)), text_metrics(c)) == metrics_add(
            text_metrics(a),
            metrics_add(text_metrics(b), text_metrics(c)),
        ),
{
    text_metrics_concat(a, b);
    text_metrics_concat(a + b, c);
    text_metrics_concat(b, c);
    valid_utf8_concat(b, c);
    text_metrics_concat(a, b + c);
    assert((a + b) + c =~= a + (b + c));
}

/* Bounds */

proof fn lemma_longest_bound(b: Seq<u8>, n: nat)
    requires
        n <= newline_count(b, 0, b.len() as int) + 1,
    ensures
        0 <= longest_row_before(b, n).0,
        n == 0 ==> longest_row_before(b, n).0 == 0,
        n > 0 ==> longest_row_before(b, n).0 < n,
        0 <= longest_row_before(b, n).1 <= b.len(),
    decreases n,
{
    if n > 0 {
        let r = (n - 1) as nat;
        lemma_longest_bound(b, r);
        lemma_row_start(b, r);
        let rs = row_start(b, r);
        lemma_nn_basic(b, rs);
        lemma_count_if_bound(rs, next_newline(b, rs), |i: int| char_at(b, i));
    }
}

/// Every count in the summary of a text is at most the text's length.
pub proof fn lemma_metrics_bounded(b: Seq<u8>)
    ensures
        ({
            let m = text_metrics(b);
            &&& 0 <= m.chars <= b.len()
            &&& 0 <= m.len_utf16 <= b.len()
            &&& 0 <= m.rows <= b.len()
            &&& 0 <= m.column <= b.len()
            &&& 0 <= m.first_line_chars <= b.len()
            &&& 0 <= m.last_line_chars <= b.len()
            &&& 0 <= m.last_line_len_utf16 <= b.len()
            &&& 0 <= m.longest_row <= m.rows
            &&& 0 <= m.longest_row_chars <= b.len()
        }),
{
    let len = b.len() as int;
    lemma_count_if_bound(0, len, |i: int| char_at(b, i));
    lemma_count_if_bound(0, len, |i: int| utf16_unit_at(b, i));
    lemma_count_if_bound(0, len, |i: int| newline_at(b, i));
    lemma_last_row(b);
    let ls = line_start_before(b, len);
    lemma_count_if_bound(ls, len, |i: int| char_at(b, i));
    lemma_count_if_bound(ls, len, |i: int| utf16_unit_at(b, i));
    lemma_nn_basic(b, 0);
    lemma_count_if_bound(0, next_newline(b, 0), |i: int| char_at(b, i));
    lemma_longest_bound(b, (newline_count(b, 0, len) + 1) as nat);
}

/// Adding the summaries of two texts that are together at most `u32::MAX` bytes long
/// stays within the widths of a summary (the second text being valid UTF-8).
/// Adding the summary of a valid UTF-8 text to that of another fits the summary's fields
/// whenever the summary of the two together does (and so do the two).
pub proof fn lemma_summary_add_fits_when_sum_fits(a: Seq<u8>, b: Seq<u8>)
    requires
        valid_utf8(b),
        a.len() + b.len() <= usize::MAX,
        metrics_fit_u32(text_metrics(a)),
        metrics_fit_u32(text_metrics(b)),
        metrics_fit_u32(text_metrics(a + b)),
    ensures
        summary_add_fits(text_metrics(a), text_metrics(b)),
{
    text_metrics_concat(a, b);
    lemma_metrics_bounded(a + b);
    lemma_metrics_bounded(a);
    lemma_metrics_bounded(b);
}

/// `x += &y`, for the summaries `x` and `y` of two texts, succeeds whenever the line and
/// row counts of the joined text fit in `u32` and its length in `usize`, and gives the
/// summary of the joined text.
pub proof fn summary_add_assign_joins(x: TextSummary, y: TextSummary, a: Seq<u8>, b: Seq<u8>)
    requires
        x@ == text_metrics(a),
        y@ == text_metrics(b),
        valid_utf8(b),
        a.len() + b.len() <= usize::MAX,
        metrics_fit_u32(text_metrics(a + b)),
    ensures
        summary_add_fits(x@, y@),
        metrics_add(x@, y@) == text_metrics(a + b),
{
    lemma_summary_add_fits_when_sum_fits(a, b);
    text_metrics_concat(a, b);
}

/// The summary of no text, `TextSummary::default()`, adds as an identity on either side
/// of the summary of a text.
pub proof fn summary_default_is_identity(x: TextSummary, a: Seq<u8>)
    requires
        x@ == text_metrics(a),
        valid_utf8(a),
    ensures
        summary_add_fits(text_metrics(Seq::<u8>::empty()), x@),
        metrics_add(text_metrics(Seq::<u8>::empty()), x@) == x@,
        summary_add_fits(x@, text_metrics(Seq::<u8>::empty())),
        metrics_add(x@, text_metrics(Seq::<u8>::empty())) == x@,
{
    let e = Seq::<u8>::empty();
    assert(e + a =~= a);
    assert(a + e =~= a);
    assert(valid_utf8(e)) by {
        assert(e =~= Seq::<u8>::empty());
    }
    lemma_metrics_bounded(e);
    lemma_summary_add_fits_when_sum_fits(e, a);
    lemma_summary_add_fits_when_sum_fits(a, e);
    text_metrics_concat(e, a);
    text_metrics_concat(a, e);
}

pub proof fn lemma_summary_add_fits(a: Seq<u8>, b: Seq<u8>)
    requires
        valid_utf8(b),
        a.len() + b.len() <= u32::MAX,
    ensures
        summary_add_fits(text_metrics(a), text_metrics(b)),
{
    text_metrics_concat(a, b);
    lemma_metrics_bounded(a + b);
    lemma_metrics_bounded(a);
    lemma_metrics_bounded(b);
}

} // verus!
