//! Window control buttons and the GNOME-style `button-layout` strings that place them.
use vstd::prelude::*;
use vstd::string::{StrSliceExecFns, StringExecFns};

verus! {

/// A window control button type used in [`WindowButtonLayout`].
#[derive(Debug, Clone, Copy, PartialEq, Eq, Hash, Structural)]
pub enum WindowButton {
    /// The minimize button
    Minimize,
    /// The maximize button
    Maximize,
    /// The close button
    Close,
}

/// Maximum number of [`WindowButton`]s per side in the titlebar.
pub const MAX_BUTTONS_PER_SIDE: usize = 3;

/// The name of a button in a layout string, which is also its element ID.
pub open spec fn button_name(b: WindowButton) -> Seq<char> {
    match b {
        WindowButton::Minimize => seq!['m', 'i', 'n', 'i', 'm', 'i', 'z', 'e'],
        WindowButton::Maximize => seq!['m', 'a', 'x', 'i', 'm', 'i', 'z', 'e'],
        WindowButton::Close => seq!['c', 'l', 'o', 's', 'e'],
    }
}

/// The slot of a button among the three kinds.
pub open spec fn button_index(b: WindowButton) -> int {
    match b {
        WindowButton::Minimize => 0,
        WindowButton::Maximize => 1,
        WindowButton::Close => 2,
    }
}

/// The button a name stands for, if any.
pub open spec fn button_from_name(name: Seq<char>) -> Option<WindowButton> {
    if name == button_name(WindowButton::Minimize) {
        Some(WindowButton::Minimize)
    } else if name == button_name(WindowButton::Maximize) {
        Some(WindowButton::Maximize)
    } else if name == button_name(WindowButton::Close) {
        Some(WindowButton::Close)
    } else {
        None
    }
}

impl WindowButton {
    /// Returns a stable element ID for rendering this button.
    pub fn id(&self) -> (r: &'static str)
        ensures
            r@ == button_name(*self),
    {
        match self {
            WindowButton::Minimize => {
                proof {
                    reveal_strlit("minimize");
                }
                "minimize"
            },
            WindowButton::Maximize => {
                proof {
                    reveal_strlit("maximize");
                }
                "maximize"
            },
            WindowButton::Close => {
                proof {
                    reveal_strlit("close");
                }
                "close"
            },
        }
    }

    fn index(&self) -> (r: usize)
        ensures
            r == button_index(*self),
    {
        match self {
            WindowButton::Minimize => 0,
            WindowButton::Maximize => 1,
            WindowButton::Close => 2,
        }
    }
}

/* The layout string grammar */

/// `char::is_whitespace`: the characters with the Unicode `White_Space` property.
pub open spec fn is_whitespace(c: char) -> bool {
    let v = c as u32;
    (0x9 <= v <= 0xd) || v == 0x20 || v == 0x85 || v == 0xa0 || v == 0x1680 || (0x2000 <= v
        <= 0x200a) || v == 0x2028 || v == 0x2029 || v == 0x202f || v == 0x205f || v == 0x3000
}

/// The first index at or after `i` that holds no whitespace (the length when there is none).
pub open spec fn skip_ws(u: Seq<char>, i: int) -> int
    decreases u.len() - i,
{
    if i >= u.len() {
        u.len() as int
    } else if is_whitespace(u[i]) {
        skip_ws(u, i + 1)
    } else {
        i
    }
}

/// One past the last index below `j` and at or after `lo` that holds no whitespace (`lo`
/// when there is none).
pub open spec fn skip_ws_back(u: Seq<char>, lo: int, j: int) -> int
    decreases j - lo,
{
    if j <= lo {
        lo
    } else if is_whitespace(u[j - 1]) {
        skip_ws_back(u, lo, j - 1)
    } else {
        j
    }
}

/// `str::trim`: the text without leading and trailing whitespace.
pub open spec fn trim(u: Seq<char>) -> Seq<char> {
    let s = skip_ws(u, 0);
    u.subrange(s, skip_ws_back(u, s, u.len() as int))
}

/// `str::split(sep)`: the pieces between the separators (one piece for a text without
/// separators, and empty pieces where separators meet).
pub open spec fn split_on(s: Seq<char>, sep: char) -> Seq<Seq<char>>
    decreases s.len(),
{
    if s.len() == 0 {
        seq![Seq::<char>::empty()]
    } else {
        let p = split_on(s.drop_last(), sep);
        if s.last() == sep {
            p.push(Seq::<char>::empty())
        } else {
            p.update(p.len() - 1, p.last().push(s.last()))
        }
    }
}

/// The index of the first `c` at or after `i`, or the length when there is none.
pub open spec fn find_char(s: Seq<char>, c: char, i: int) -> int
    decreases s.len() - i,
{
    if i >= s.len() {
        s.len() as int
    } else if s[i] == c {
        i
    } else {
        find_char(s, c, i + 1)
    }
}

/// `layout.split_once(':').unwrap_or(("", layout))`.
pub open spec fn split_sides(s: Seq<char>) -> (Seq<char>, Seq<char>) {
    let p = find_char(s, ':', 0);
    if p < s.len() {
        (s.subrange(0, p), s.subrange(p + 1, s.len() as int))
    } else {
        (Seq::<char>::empty(), s)
    }
}

/// The state of reading the names of one side.
pub struct SideParse {
    /// The buttons placed on this side so far.
    pub slots: Seq<Option<WindowButton>>,
    /// How many slots are taken.
    pub filled: int,
    /// Which buttons have been placed on either side (by [`button_index`]).
    pub seen: Seq<bool>,
    /// The names that are not buttons, on either side.
    pub unrecognized: Seq<Seq<char>>,
}

/// Reading one (trimmed) name: empty names are skipped, unknown names are recorded,
/// a button already placed is ignored, and otherwise the button takes the next free slot.
pub open spec fn side_step(st: SideParse, name: Seq<char>) -> SideParse {
    if name.len() == 0 {
        st
    } else {
        match button_from_name(name) {
            None => SideParse { unrecognized: st.unrecognized.push(name), ..st },
            Some(b) => if st.seen[button_index(b)] {
                st
            } else if st.filled < 3 {
                SideParse {
                    slots: st.slots.update(st.filled, Some(b)),
                    filled: st.filled + 1,
                    seen: st.seen.update(button_index(b), true),
                    unrecognized: st.unrecognized,
                }
            } else {
                st
            },
        }
    }
}

/// Reading the names in order.
pub open spec fn side_fold(names: Seq<Seq<char>>, st: SideParse) -> SideParse
    decreases names.len(),
{
    if names.len() == 0 {
        st
    } else {
        side_step(side_fold(names.drop_last(), st), trim(names.last()))
    }
}

/// Reading one side of a layout string, given what the other side has seen.
pub open spec fn parse_side(side: Seq<char>, seen: Seq<bool>, unrecognized: Seq<Seq<char>>) -> SideParse {
    side_fold(
        split_on(side, ','),
        SideParse { slots: seq![None, None, None], filled: 0, seen, unrecognized },
    )
}

/// Reading both sides of a layout string: the left side first, then the right side.
pub open spec fn parse_layout(s: Seq<char>) -> (SideParse, SideParse) {
    let (l, r) = split_sides(s);
    let left = parse_side(l, seq![false, false, false], Seq::empty());
    let right = parse_side(r, left.seen, left.unrecognized);
    (left, right)
}

pub open spec fn all_none(slots: Seq<Option<WindowButton>>) -> bool {
    forall|i: int| 0 <= i < slots.len() ==> slots[i] is None
}

/// A layout string is refused when it names something that is not a button and no
/// button at all.
pub open spec fn parse_refused(s: Seq<char>) -> bool {
    let (left, right) = parse_layout(s);
    right.unrecognized.len() > 0 && all_none(left.slots) && all_none(right.slots)
}

/// Why a layout string was refused: it names no valid button.
#[derive(Debug, Clone, PartialEq, Eq)]
pub struct LayoutParseError {
    /// The layout string.
    pub layout: String,
    /// The names in it that are not buttons.
    pub unrecognized: Vec<String>,
}

/// Describes which [`WindowButton`]s appear on each side of the titlebar.
///
/// On Linux, this is read from the desktop environment's configuration
/// (e.g. GNOME's `gtk-decoration-layout` gsetting) via [`WindowButtonLayout::parse`].
#[derive(Debug, Clone, Copy, PartialEq, Eq)]
pub struct WindowButtonLayout {
    /// Buttons on the left side of the titlebar.
    pub left: [Option<WindowButton>; MAX_BUTTONS_PER_SIDE],
    /// Buttons on the right side of the titlebar.
    pub right: [Option<WindowButton>; MAX_BUTTONS_PER_SIDE],
}

/* Executable pieces of the parser */

proof fn lemma_split_on_len(s: Seq<char>, sep: char)
    ensures
        split_on(s, sep).len() >= 1,
    decreases s.len(),
{
    if s.len() > 0 {
        lemma_split_on_len(s.drop_last(), sep);
    }
}

fn str_chars(s: &str) -> (r: Vec<char>)
    ensures
        r@ == s@,
{
    let n = s.unicode_len();
    let mut r: Vec<char> = Vec::new();
    let mut i: usize = 0;
    while i < n
        invariant
            n == s@.len(),
            i <= n,
            r@ == s@.subrange(0, i as int),
        decreases n - i,
    {
        r.push(s.get_char(i));
        i += 1;
    }
    r
}

fn is_whitespace_char(c: char) -> (r: bool)
    ensures
        r == is_whitespace(c),
{
    let v = c as u32;
    (0x9 <= v && v <= 0xd) || v == 0x20 || v == 0x85 || v == 0xa0 || v == 0x1680 || (0x2000 <= v
        && v <= 0x200a) || v == 0x2028 || v == 0x2029 || v == 0x202f || v == 0x205f || v == 0x3000
}

fn matches_word(chars: &Vec<char>, lo: usize, hi: usize, word: &[char]) -> (r: bool)
    requires
        lo <= hi <= chars@.len(),
    ensures
        r == (chars@.subrange(lo as int, hi as int) == word@),
{
    if hi - lo != word.len() {
        return false;
    }
    let mut k: usize = 0;
    while k < word.len()
        invariant
            lo <= hi <= chars@.len(),
            hi - lo == word@.len(),
            k <= word@.len(),
            forall|j: int| 0 <= j < k ==> chars@[lo + j] == word@[j],
        decreases word@.len() - k,
    {
        if chars[lo + k] != word[k] {
            proof {
                assert(chars@.subrange(lo as int, hi as int)[k as int] != word@[k as int]);
            }
            return false;
        }
        k += 1;
    }
    proof {
        assert(chars@.subrange(lo as int, hi as int) =~= word@);
    }
    true
}

fn button_named(chars: &Vec<char>, lo: usize, hi: usize) -> (r: Option<WindowButton>)
    requires
        lo <= hi <= chars@.len(),
    ensures
        r == button_from_name(chars@.subrange(lo as int, hi as int)),
{
    let minimize = ['m', 'i', 'n', 'i', 'm', 'i', 'z', 'e'];
    let maximize = ['m', 'a', 'x', 'i', 'm', 'i', 'z', 'e'];
    let close = ['c', 'l', 'o', 's', 'e'];
    proof {
        assert(minimize@ =~= button_name(WindowButton::Minimize));
        assert(maximize@ =~= button_name(WindowButton::Maximize));
        assert(close@ =~= button_name(WindowButton::Close));
    }
    if matches_word(chars, lo, hi, minimize.as_slice()) {
        Some(WindowButton::Minimize)
    } else if matches_word(chars, lo, hi, maximize.as_slice()) {
        Some(WindowButton::Maximize)
    } else if matches_word(chars, lo, hi, close.as_slice()) {
        Some(WindowButton::Close)
    } else {
        None
    }
}

/// The trimmed bounds of the piece `[ps, pe)`.
fn trim_bounds(chars: &Vec<char>, ps: usize, pe: usize) -> (r: (usize, usize))
    requires
        ps <= pe <= chars@.len(),
    ensures
        ps <= r.0 <= r.1 <= pe,
        trim(chars@.subrange(ps as int, pe as int)) == chars@.subrange(r.0 as int, r.1 as int),
{
    let ghost u = chars@.subrange(ps as int, pe as int);
    let mut k = ps;
    while k < pe && is_whitespace_char(chars[k])
        invariant
            ps <= k <= pe <= chars@.len(),
            u == chars@.subrange(ps as int, pe as int),
            skip_ws(u, k - ps) == skip_ws(u, 0),
        decreases pe - k,
    {
        k += 1;
    }
    let mut j = pe;
    while j > k && is_whitespace_char(chars[j - 1])
        invariant
            ps <= k <= j <= pe <= chars@.len(),
            u == chars@.subrange(ps as int, pe as int),
            skip_ws(u, 0) == k - ps,
            skip_ws_back(u, k - ps, j - ps) == skip_ws_back(u, k - ps, pe - ps),
        decreases j - k,
    {
        j -= 1;
    }
    proof {
        assert(skip_ws_back(u, k - ps, pe - ps) == j - ps);
        assert(trim(u) =~= chars@.subrange(k as int, j as int));
    }
    (k, j)
}

/// Reads the names of the side `[lo, hi)` of `chars`, which holds the characters of `text`.
fn parse_side_exec(
    text: &str,
    chars: &Vec<char>,
    lo: usize,
    hi: usize,
    seen: &mut [bool; MAX_BUTTONS_PER_SIDE],
    unrecognized: &mut Vec<String>,
) -> (r: [Option<WindowButton>; MAX_BUTTONS_PER_SIDE])
    requires
        chars@ == text@,
        lo <= hi <= chars@.len(),
    ensures
        ({
            let st = parse_side(
                chars@.subrange(lo as int, hi as int),
                old(seen)@,
                old(unrecognized)@.map_values(|s: String| s@),
            );
            &&& r@ == st.slots
            &&& final(seen)@ == st.seen
            &&& final(unrecognized)@.map_values(|s: String| s@) == st.unrecognized
        }),
{
    let ghost side = chars@.subrange(lo as int, hi as int);
    let ghost init = SideParse {
        slots: seq![None, None, None],
        filled: 0,
        seen: old(seen)@,
        unrecognized: old(unrecognized)@.map_values(|s: String| s@),
    };
    let mut result: [Option<WindowButton>; MAX_BUTTONS_PER_SIDE] = [None, None, None];
    let mut i: usize = 0;
    let mut ps = lo;
    let mut pos = lo;
    proof {
        assert(result@ =~= init.slots);
        assert(side.subrange(0, 0) =~= Seq::<char>::empty());
    }
    loop
        invariant
            chars@ == text@,
            lo <= ps <= pos <= hi <= chars@.len(),
            side == chars@.subrange(lo as int, hi as int),
            init == (SideParse {
                slots: seq![None, None, None],
                filled: 0,
                seen: old(seen)@,
                unrecognized: old(unrecognized)@.map_values(|s: String| s@),
            }),
            i <= 3,
            ({
                let pieces = split_on(side.subrange(0, pos - lo), ',');
                let st = side_fold(pieces.drop_last(), init);
                &&& pieces.last() == chars@.subrange(ps as int, pos as int)
                &&& result@ == st.slots
                &&& i == st.filled
                &&& seen@ == st.seen
                &&& unrecognized@.map_values(|s: String| s@) == st.unrecognized
                &&& st.slots.len() == 3
                &&& st.seen.len() == 3
            }),
        decreases hi - pos,
    {
        let ghost pieces = split_on(side.subrange(0, pos - lo), ',');
        proof {
            lemma_split_on_len(side.subrange(0, pos - lo), ',');
        }
        let at_end = pos == hi;
        if at_end || chars[pos] == ',' {
            // the piece [ps, pos) is complete
            let (ts, te) = trim_bounds(chars, ps, pos);
            let ghost before = side_fold(pieces.drop_last(), init);
            if ts < te {
                match button_named(chars, ts, te) {
                    Some(button) => {
                        if !seen[button.index()] {
                            if i < MAX_BUTTONS_PER_SIDE {
                                result[i] = Some(button);
                                seen[button.index()] = true;
                                i += 1;
                            }
                        }
                    },
                    None => {
                        let name = String::from_str(text.substring_char(ts, te));
                        proof {
                            assert(name@ == chars@.subrange(ts as int, te as int));
                        }
                        unrecognized.push(name);
                    },
                }
            }
            proof {
                let after = side_step(before, trim(pieces.last()));
                assert(pieces.drop_last().push(pieces.last()) =~= pieces);
                assert(side_fold(pieces, init) == after);
                assert(result@ =~= after.slots);
                assert(seen@ =~= after.seen);
                assert(unrecognized@.map_values(|s: String| s@) =~= after.unrecognized);
            }
            if at_end {
                proof {
                    assert(side.subrange(0, pos - lo) =~= side);
                    assert(split_on(side, ',') == pieces);
                    assert(parse_side(side, init.seen, init.unrecognized) == side_fold(pieces, init));
                }
                return result;
            }
            proof {
                let t = side.subrange(0, pos - lo);
                let t2 = side.subrange(0, pos + 1 - lo);
                assert(t2.drop_last() =~= t);
                assert(t2.last() == ',');
                assert(split_on(t2, ',').drop_last() =~= pieces);
                assert(split_on(t2, ',').last() =~= chars@.subrange(pos + 1, pos + 1));
            }
            ps = pos + 1;
        } else {
            proof {
                let t = side.subrange(0, pos - lo);
                let t2 = side.subrange(0, pos + 1 - lo);
                assert(t2.drop_last() =~= t);
                assert(t2.last() == chars@[pos as int]);
                assert(split_on(t2, ',').drop_last() =~= pieces.drop_last());
                assert(split_on(t2, ',').last() =~= chars@.subrange(ps as int, pos + 1));
            }
        }
        pos += 1;
    }
}

impl WindowButtonLayout {
    /// Returns Zed's built-in fallback button layout for Linux titlebars.
    pub fn linux_default() -> (r: Self)
        ensures
            r.left@ == seq![None::<WindowButton>, None, None],
            r.right@ == seq![
                Some(WindowButton::Minimize),
                Some(WindowButton::Maximize),
                Some(WindowButton::Close),
            ],
    {
        let r = Self {
            left: [None; MAX_BUTTONS_PER_SIDE],
            right: [
                Some(WindowButton::Minimize),
                Some(WindowButton::Maximize),
                Some(WindowButton::Close),
            ],
        };
        proof {
            assert(r.left@ =~= seq![None::<WindowButton>, None, None]);
            assert(r.right@ =~= seq![
                Some(WindowButton::Minimize),
                Some(WindowButton::Maximize),
                Some(WindowButton::Close),
            ]);
        }
        r
    }

    /// Parses a GNOME-style `button-layout` string (e.g. `"close,minimize:maximize"`).
    pub fn parse(layout_string: &str) -> (r: Result<Self, LayoutParseError>)
        ensures
            r is Err <==> parse_refused(layout_string@),
            r matches Ok(layout) ==> layout.left@ == parse_layout(layout_string@).0.slots
                && layout.right@ == parse_layout(layout_string@).1.slots,
            r matches Err(e) ==> e.layout@ == layout_string@ && e.unrecognized@.map_values(
                |s: String| s@,
            ) == parse_layout(layout_string@).1.unrecognized,
    {
        let chars = str_chars(layout_string);
        let n = chars.len();
        let mut p: usize = 0;
        while p < n && chars[p] != ':'
            invariant
                n == chars@.len(),
                p <= n,
                find_char(chars@, ':', p as int) == find_char(chars@, ':', 0),
            decreases n - p,
        {
            p += 1;
        }
        let (left_lo, left_hi, right_lo) = if p < n {
            (0, p, p + 1)
        } else {
            (0, 0, 0)
        };
        proof {
            let (l, r) = split_sides(chars@);
            assert(l =~= chars@.subrange(left_lo as int, left_hi as int));
            assert(r =~= chars@.subrange(right_lo as int, n as int));
        }
        let mut unrecognized: Vec<String> = Vec::new();
        let mut seen = [false; MAX_BUTTONS_PER_SIDE];
        proof {
            assert(seen@ =~= seq![false, false, false]);
            assert(unrecognized@.map_values(|s: String| s@) =~= Seq::<Seq<char>>::empty());
        }
        let left = parse_side_exec(layout_string, &chars, left_lo, left_hi, &mut seen, &mut unrecognized);
        let right = parse_side_exec(layout_string, &chars, right_lo, n, &mut seen, &mut unrecognized);
        let layout = Self { left, right };
        if unrecognized.len() > 0 && left[0].is_none() && left[1].is_none() && left[2].is_none()
            && right[0].is_none() && right[1].is_none() && right[2].is_none() {
            proof {
                assert(all_none(left@));
                assert(all_none(right@));
            }
            return Err(LayoutParseError { layout: String::from_str(layout_string), unrecognized });
        }
        proof {
            if unrecognized.len() > 0 {
                if all_none(left@) && all_none(right@) {
                    assert(left@[0] is None);
                    assert(left@[1] is None);
                    assert(left@[2] is None);
                    assert(right@[0] is None);
                    assert(right@[1] is None);
                    assert(right@[2] is None);
                }
            }
        }
        Ok(layout)
    }
}

/* Formatting a layout */

/// The names of the buttons present in `slots`, in order.
pub open spec fn present_names(slots: Seq<Option<WindowButton>>) -> Seq<Seq<char>>
    decreases slots.len(),
{
    if slots.len() == 0 {
        Seq::empty()
    } else {
        let p = present_names(slots.drop_last());
        match slots.last() {
            Some(b) => p.push(button_name(b)),
            None => p,
        }
    }
}

/// The names joined with commas.
pub open spec fn join_commas(ns: Seq<Seq<char>>) -> Seq<char>
    decreases ns.len(),
{
    if ns.len() == 0 {
        Seq::empty()
    } else if ns.len() == 1 {
        ns[0]
    } else {
        join_commas(ns.drop_last()) + seq![','] + ns.last()
    }
}

/// The layout string of a layout: the left names, a colon, the right names.
pub open spec fn format_layout(left: Seq<Option<WindowButton>>, right: Seq<Option<WindowButton>>) -> Seq<char> {
    join_commas(present_names(left)) + seq![':'] + join_commas(present_names(right))
}

fn format_side(buttons: &[Option<WindowButton>; MAX_BUTTONS_PER_SIDE]) -> (r: String)
    ensures
        r@ == join_commas(present_names(buttons@)),
{
    let mut s = String::new();
    let mut k: usize = 0;
    let mut written: usize = 0;
    proof {
        reveal_strlit(",");
        assert(buttons@.subrange(0, 0) =~= Seq::<Option<WindowButton>>::empty());
    }
    while k < MAX_BUTTONS_PER_SIDE
        invariant
            k <= 3,
            written <= k,
            written == present_names(buttons@.subrange(0, k as int)).len(),
            s@ == join_commas(present_names(buttons@.subrange(0, k as int))),
            ","@ == seq![','],
        decreases 3 - k,
    {
        let ghost before = buttons@.subrange(0, k as int);
        let ghost after = buttons@.subrange(0, k + 1);
        proof {
            assert(after.drop_last() =~= before);
        }
        if let Some(button) = buttons[k] {
            let ghost names = present_names(before);
            proof {
                assert(present_names(after) == names.push(button_name(button)));
                lemma_join_push(names, button_name(button));
            }
            if written > 0 {
                s.append(",");
            }
            s.append(button.id());
            written += 1;
        }
        k += 1;
    }
    proof {
        assert(buttons@.subrange(0, 3) =~= buttons@);
    }
    s
}

proof fn lemma_join_push(ns: Seq<Seq<char>>, n: Seq<char>)
    ensures
        join_commas(ns.push(n)) == if ns.len() == 0 {
            n
        } else {
            join_commas(ns) + seq![','] + n
        },
{
    assert(ns.push(n).drop_last() =~= ns);
    if ns.len() == 0 {
        assert(ns.push(n)[0] == n);
    }
}

impl WindowButtonLayout {
    /// Formats the layout back into a GNOME-style `button-layout` string.
    pub fn format(&self) -> (r: String)
        ensures
            r@ == format_layout(self.left@, self.right@),
    {
        let mut s = format_side(&self.left);
        proof {
            reveal_strlit(":");
        }
        s.append(":");
        let right = format_side(&self.right);
        s.append(right.as_str());
        s
    }
}

} // verus!
