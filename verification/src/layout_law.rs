//! What reading a formatted button layout gives back.
use vstd::prelude::*;
use crate::window_layout::{
    button_from_name, button_index, button_name, find_char, format_layout, is_whitespace,
    parse_layout, parse_refused, present_names, side_fold, side_step, skip_ws, skip_ws_back,
    split_on, split_sides, trim, join_commas, SideParse, WindowButton,
};

verus! {

/// The slots of one side holding `bs` in order, the rest empty.
pub open spec fn slots_of(bs: Seq<WindowButton>) -> Seq<Option<WindowButton>> {
    Seq::new(3, |i: int| if i < bs.len() { Some(bs[i]) } else { None })
}

/// The names of `bs`, in order.
pub open spec fn names_of(bs: Seq<WindowButton>) -> Seq<Seq<char>> {
    bs.map_values(|b: WindowButton| button_name(b))
}

/// `seen` with the slot of each button of `bs` set.
pub open spec fn mark_seen(seen: Seq<bool>, bs: Seq<WindowButton>) -> Seq<bool>
    decreases bs.len(),
{
    if bs.len() == 0 {
        seen
    } else {
        mark_seen(seen, bs.drop_last()).update(button_index(bs.last()), true)
    }
}

spec fn name_char(c: char) -> bool {
    'a' <= c <= 'z'
}

proof fn lemma_button_name_chars(b: WindowButton)
    ensures
        button_name(b).len() > 0,
        forall|i: int| 0 <= i < button_name(b).len() ==> name_char(#[trigger] button_name(b)[i]),
        button_from_name(button_name(b)) == Some(b),
{
    let n = button_name(b);
    match b {
        WindowButton::Minimize => {
            assert(forall|i: int| 0 <= i < n.len() ==> name_char(#[trigger] n[i]));
        },
        WindowButton::Maximize => {
            assert(forall|i: int| 0 <= i < n.len() ==> name_char(#[trigger] n[i]));
            assert(n[1] != button_name(WindowButton::Minimize)[1]);
        },
        WindowButton::Close => {
            assert(forall|i: int| 0 <= i < n.len() ==> name_char(#[trigger] n[i]));
            assert(n.len() != button_name(WindowButton::Minimize).len());
            assert(n.len() != button_name(WindowButton::Maximize).len());
        },
    }
}

proof fn lemma_trim_name(b: WindowButton)
    ensures
        trim(button_name(b)) == button_name(b),
{
    let n = button_name(b);
    lemma_button_name_chars(b);
    assert(name_char(n[0]));
    assert(name_char(n[n.len() - 1]));
    assert(!is_whitespace(n[0]));
    assert(!is_whitespace(n[n.len() - 1]));
    assert(skip_ws(n, 0) == 0);
    assert(skip_ws_back(n, 0, n.len() as int) == n.len());
    assert(n.subrange(0, n.len() as int) =~= n);
}

/// Splitting a text with no separator in it gives the text.
proof fn lemma_split_plain(b: Seq<char>, sep: char)
    requires
        forall|i: int| 0 <= i < b.len() ==> b[i] != sep,
    ensures
        split_on(b, sep) == seq![b],
    decreases b.len(),
{
    if b.len() > 0 {
        lemma_split_plain(b.drop_last(), sep);
        assert(b[b.len() - 1] != sep);
        assert(b.drop_last().push(b.last()) =~= b);
        assert(seq![b.drop_last()].update(0, b.drop_last().push(b.last())) =~= seq![b]);
    } else {
        assert(b =~= Seq::<char>::empty());
    }
}

/// Splitting `a`, a separator and a piece `b` with no separator adds `b` to the pieces of `a`.
proof fn lemma_split_sep(a: Seq<char>, b: Seq<char>, sep: char)
    requires
        forall|i: int| 0 <= i < b.len() ==> b[i] != sep,
    ensures
        split_on(a + seq![sep] + b, sep) == split_on(a, sep).push(b),
    decreases b.len(),
{
    let s = a + seq![sep] + b;
    if b.len() == 0 {
        assert(b =~= Seq::<char>::empty());
        assert(s.drop_last() =~= a);
        assert(s =~= a + seq![sep]);
    } else {
        lemma_split_sep(a, b.drop_last(), sep);
        assert(b[b.len() - 1] != sep);
        assert(b.drop_last().push(b.last()) =~= b);
        assert(s.drop_last() =~= a + seq![sep] + b.drop_last());
        assert(s.last() == b.last());
        let p = split_on(a, sep).push(b.drop_last());
        assert(p.update(p.len() - 1, p.last().push(b.last())) =~= split_on(a, sep).push(b));
    }
}

proof fn lemma_names_no_char(bs: Seq<WindowButton>, c: char)
    requires
        !name_char(c),
    ensures
        forall|k: int, i: int|
            0 <= k < names_of(bs).len() && 0 <= i < names_of(bs)[k].len() ==> #[trigger] names_of(
                bs,
            )[k][i] != c,
{
    assert forall|k: int, i: int|
        0 <= k < names_of(bs).len() && 0 <= i < names_of(bs)[k].len() implies #[trigger] names_of(
        bs,
    )[k][i] != c by {
        lemma_button_name_chars(bs[k]);
        assert(name_char(button_name(bs[k])[i]));
    }
}

/// Joined names hold no character that none of them holds, other than the commas.
proof fn lemma_join_no_char(ns: Seq<Seq<char>>, c: char)
    requires
        c != ',',
        forall|k: int, i: int| 0 <= k < ns.len() && 0 <= i < ns[k].len() ==> #[trigger] ns[k][i] != c,
    ensures
        forall|i: int| 0 <= i < join_commas(ns).len() ==> #[trigger] join_commas(ns)[i] != c,
    decreases ns.len(),
{
    if ns.len() == 1 {
        assert(forall|i: int| 0 <= i < ns[0].len() ==> #[trigger] ns[0][i] != c);
    } else if ns.len() > 1 {
        let d = ns.drop_last();
        lemma_join_no_char(d, c);
        let j = join_commas(ns);
        let jd = join_commas(d);
        let last = ns.last();
        assert(j == jd + seq![','] + last);
        assert forall|i: int| 0 <= i < j.len() implies #[trigger] j[i] != c by {
            if i < jd.len() {
                assert(j[i] == jd[i]);
            } else if i == jd.len() {
                assert(j[i] == ',');
            } else {
                assert(j[i] == last[i - jd.len() - 1]);
                assert(ns[ns.len() - 1][i - jd.len() - 1] != c);
            }
        }
    }
}

/// Splitting joined names at the commas gives the names back.
proof fn lemma_split_join(ns: Seq<Seq<char>>)
    requires
        ns.len() > 0,
        forall|k: int, i: int| 0 <= k < ns.len() && 0 <= i < ns[k].len() ==> #[trigger] ns[k][i] != ',',
    ensures
        split_on(join_commas(ns), ',') == ns,
    decreases ns.len(),
{
    if ns.len() == 1 {
        assert(forall|i: int| 0 <= i < ns[0].len() ==> #[trigger] ns[0][i] != ',');
        lemma_split_plain(ns[0], ',');
        assert(seq![ns[0]] =~= ns);
    } else {
        let d = ns.drop_last();
        lemma_split_join(d);
        assert(forall|i: int| 0 <= i < ns.last().len() ==> #[trigger] ns[ns.len() - 1][i] != ',');
        lemma_split_sep(join_commas(d), ns.last(), ',');
        assert(d.push(ns.last()) =~= ns);
    }
}

proof fn lemma_present_slots(bs: Seq<WindowButton>, j: int)
    requires
        bs.len() <= 3,
        0 <= j <= 3,
    ensures
        present_names(slots_of(bs).subrange(0, j)) == names_of(
            bs.subrange(0, if j < bs.len() { j } else { bs.len() as int }),
        ),
    decreases j,
{
    let s = slots_of(bs).subrange(0, j);
    if j == 0 {
        assert(names_of(bs.subrange(0, 0)) =~= Seq::<Seq<char>>::empty());
    } else {
        lemma_present_slots(bs, j - 1);
        assert(s.drop_last() =~= slots_of(bs).subrange(0, j - 1));
        if j - 1 < bs.len() {
            assert(names_of(bs.subrange(0, j - 1)).push(button_name(bs[j - 1])) =~= names_of(
                bs.subrange(0, j),
            ));
        }
    }
}

proof fn lemma_mark_seen(seen: Seq<bool>, bs: Seq<WindowButton>)
    requires
        seen.len() == 3,
    ensures
        mark_seen(seen, bs).len() == 3,
        forall|b: WindowButton|
            #[trigger] mark_seen(seen, bs)[button_index(b)] == (seen[button_index(b)]
                || bs.contains(b)),
    decreases bs.len(),
{
    if bs.len() > 0 {
        let d = bs.drop_last();
        lemma_mark_seen(seen, d);
        assert forall|b: WindowButton|
            #[trigger] mark_seen(seen, bs)[button_index(b)] == (seen[button_index(b)]
                || bs.contains(b)) by {
            if b == bs.last() {
                assert(bs[bs.len() - 1] == b);
            } else {
                assert(button_index(b) != button_index(bs.last()));
                if bs.contains(b) {
                    let i = choose|i: int| 0 <= i < bs.len() && bs[i] == b;
                    assert(d[i] == b);
                }
                if d.contains(b) {
                    let i = choose|i: int| 0 <= i < d.len() && d[i] == b;
                    assert(bs[i] == b);
                }
            }
        }
    }
}

/// Reading the names of distinct buttons that are not yet seen places them in order.
proof fn lemma_fold_buttons(bs: Seq<WindowButton>, seen: Seq<bool>, unrecognized: Seq<Seq<char>>)
    requires
        bs.len() <= 3,
        bs.no_duplicates(),
        seen.len() == 3,
        forall|b: WindowButton| bs.contains(b) ==> !seen[button_index(b)],
    ensures
        side_fold(
            names_of(bs),
            SideParse { slots: seq![None, None, None], filled: 0, seen, unrecognized },
        ) == (SideParse {
            slots: slots_of(bs),
            filled: bs.len() as int,
            seen: mark_seen(seen, bs),
            unrecognized,
        }),
    decreases bs.len(),
{
    let init = SideParse { slots: seq![None, None, None], filled: 0, seen, unrecognized };
    if bs.len() == 0 {
        assert(names_of(bs) =~= Seq::<Seq<char>>::empty());
        assert(slots_of(bs) =~= seq![None, None, None]);
    } else {
        let d = bs.drop_last();
        let last = bs.last();
        assert forall|b: WindowButton| d.contains(b) implies !seen[button_index(b)] by {
            let i = choose|i: int| 0 <= i < d.len() && d[i] == b;
            assert(bs[i] == b);
            assert(bs.contains(b));
        }
        lemma_fold_buttons(d, seen, unrecognized);
        assert(names_of(bs).drop_last() =~= names_of(d));
        assert(names_of(bs).last() == button_name(last));
        lemma_trim_name(last);
        lemma_button_name_chars(last);
        lemma_mark_seen(seen, d);
        assert(bs[bs.len() - 1] == last);
        assert(bs.contains(last));
        if d.contains(last) {
            let i = choose|i: int| 0 <= i < d.len() && d[i] == last;
            assert(bs[i] == bs[bs.len() - 1]);
        }
        assert(mark_seen(seen, d)[button_index(last)] == false);
        let st = side_fold(names_of(d), init);
        assert(st.slots.update(st.filled, Some(last)) =~= slots_of(bs));
    }
}

/// Reading one formatted side.
proof fn lemma_parse_side_of(bs: Seq<WindowButton>, seen: Seq<bool>, unrecognized: Seq<Seq<char>>)
    requires
        bs.len() <= 3,
        bs.no_duplicates(),
        seen.len() == 3,
        forall|b: WindowButton| bs.contains(b) ==> !seen[button_index(b)],
    ensures
        side_fold(
            split_on(join_commas(names_of(bs)), ','),
            SideParse { slots: seq![None, None, None], filled: 0, seen, unrecognized },
        ) == (SideParse {
            slots: slots_of(bs),
            filled: bs.len() as int,
            seen: mark_seen(seen, bs),
            unrecognized,
        }),
{
    let init = SideParse { slots: seq![None, None, None], filled: 0, seen, unrecognized };
    lemma_fold_buttons(bs, seen, unrecognized);
    if bs.len() == 0 {
        let e = Seq::<char>::empty();
        assert(names_of(bs) =~= Seq::<Seq<char>>::empty());
        assert(split_on(join_commas(names_of(bs)), ',') == seq![e]);
        assert(seq![e].drop_last() =~= Seq::<Seq<char>>::empty());
        assert(skip_ws(e, 0) == 0);
        assert(trim(e) =~= e);
        assert(side_step(init, trim(e)) == init);
    } else {
        lemma_names_no_char(bs, ',');
        lemma_split_join(names_of(bs));
    }
}

/// Reading a formatted layout gives back the layout, for every layout whose sides hold
/// their buttons first and whose buttons are all distinct (every layout that reading a
/// string can give); such a string is never refused.
pub proof fn parse_format_roundtrip(left: Seq<WindowButton>, right: Seq<WindowButton>)
    requires
        left.len() <= 3,
        right.len() <= 3,
        left.no_duplicates(),
        right.no_duplicates(),
        left.disjoint(right),
    ensures
        parse_layout(format_layout(slots_of(left), slots_of(right))).0.slots == slots_of(left),
        parse_layout(format_layout(slots_of(left), slots_of(right))).1.slots == slots_of(right),
        !parse_refused(format_layout(slots_of(left), slots_of(right))),
{
    let l = join_commas(names_of(left));
    let r = join_commas(names_of(right));
    let s = l + seq![':'] + r;
    lemma_present_slots(left, 3);
    lemma_present_slots(right, 3);
    assert(slots_of(left).subrange(0, 3) =~= slots_of(left));
    assert(slots_of(right).subrange(0, 3) =~= slots_of(right));
    assert(left.subrange(0, left.len() as int) =~= left);
    assert(right.subrange(0, right.len() as int) =~= right);
    assert(format_layout(slots_of(left), slots_of(right)) == s);
    // the first colon is the one between the sides
    lemma_names_no_char(left, ':');
    lemma_join_no_char(names_of(left), ':');
    assert forall|k: int| 0 <= k < l.len() implies s[k] != ':' by {
        assert(s[k] == l[k]);
    }
    assert(s[l.len() as int] == ':');
    assert forall|i: int| 0 <= i <= l.len() implies find_char(s, ':', i) == l.len() by {
        lemma_find_colon(s, l.len() as int, i);
    }
    assert(s.subrange(0, l.len() as int) =~= l);
    assert(s.subrange((l.len() + 1) as int, s.len() as int) =~= r);
    assert(split_sides(s) == (l, r));
    // the sides
    let f = seq![false, false, false];
    lemma_parse_side_of(left, f, Seq::empty());
    lemma_mark_seen(f, left);
    assert forall|b: WindowButton| right.contains(b) implies !mark_seen(f, left)[button_index(b)] by {
        let j = choose|j: int| 0 <= j < right.len() && right[j] == b;
        if left.contains(b) {
            let i = choose|i: int| 0 <= i < left.len() && left[i] == b;
            assert(left[i] != right[j]);
        }
    }
    lemma_parse_side_of(right, mark_seen(f, left), Seq::empty());
}

proof fn lemma_find_colon(s: Seq<char>, p: int, i: int)
    requires
        0 <= i <= p < s.len(),
        s[p] == ':',
        forall|k: int| 0 <= k < p ==> s[k] != ':',
    ensures
        find_char(s, ':', i) == p,
    decreases p - i,
{
    if i < p {
        lemma_find_colon(s, p, i + 1);
    }
}

/// What reading one side keeps: the slots hold distinct buttons, first the placed ones
/// and then empty slots, none of which the other side had seen.
pub open spec fn side_holds(st: SideParse, bs: Seq<WindowButton>, seen0: Seq<bool>) -> bool {
    &&& bs.len() <= 3
    &&& bs.no_duplicates()
    &&& st.slots == slots_of(bs)
    &&& st.filled == bs.len()
    &&& st.seen == mark_seen(seen0, bs)
    &&& forall|b: WindowButton| bs.contains(b) ==> !seen0[button_index(b)]
}

proof fn lemma_step_holds(st: SideParse, bs: Seq<WindowButton>, seen0: Seq<bool>, name: Seq<char>)
    -> (bs2: Seq<WindowButton>)
    requires
        seen0.len() == 3,
        side_holds(st, bs, seen0),
    ensures
        side_holds(side_step(st, name), bs2, seen0),
{
    lemma_mark_seen(seen0, bs);
    if name.len() == 0 {
        bs
    } else {
        match button_from_name(name) {
            None => bs,
            Some(b) => {
                if st.seen[button_index(b)] {
                    bs
                } else if st.filled < 3 {
                    let bs2 = bs.push(b);
                    assert(!bs.contains(b));
                    assert(bs2.drop_last() =~= bs);
                    assert(bs2.no_duplicates()) by {
                        assert forall|i: int, j: int|
                            0 <= i < bs2.len() && 0 <= j < bs2.len() && i != j implies bs2[i]
                            != bs2[j] by {
                            if i < bs.len() && j < bs.len() {
                                assert(bs[i] != bs[j]);
                            } else if i < bs.len() {
                                assert(bs[i] != b);
                            } else if j < bs.len() {
                                assert(bs[j] != b);
                            }
                        }
                    }
                    assert(st.slots.update(st.filled, Some(b)) =~= slots_of(bs2));
                    assert forall|c: WindowButton| bs2.contains(c) implies !seen0[button_index(c)] by {
                        let i = choose|i: int| 0 <= i < bs2.len() && bs2[i] == c;
                        if i < bs.len() {
                            assert(bs.contains(c));
                        }
                    }
                    bs2
                } else {
                    bs
                }
            },
        }
    }
}

proof fn lemma_fold_holds(names: Seq<Seq<char>>, seen0: Seq<bool>, unrecognized: Seq<Seq<char>>)
    -> (bs: Seq<WindowButton>)
    requires
        seen0.len() == 3,
    ensures
        side_holds(
            side_fold(
                names,
                SideParse { slots: seq![None, None, None], filled: 0, seen: seen0, unrecognized },
            ),
            bs,
            seen0,
        ),
    decreases names.len(),
{
    if names.len() == 0 {
        let bs = Seq::<WindowButton>::empty();
        assert(slots_of(bs) =~= seq![None, None, None]);
        bs
    } else {
        let bs0 = lemma_fold_holds(names.drop_last(), seen0, unrecognized);
        let init = SideParse { slots: seq![None, None, None], filled: 0, seen: seen0, unrecognized };
        lemma_step_holds(side_fold(names.drop_last(), init), bs0, seen0, trim(names.last()))
    }
}

/// The layouts that reading a string gives: each side holds distinct buttons first and
/// empty slots after, and no button is on both sides.
pub open spec fn normalized(left: Seq<Option<WindowButton>>, right: Seq<Option<WindowButton>>) -> bool {
    exists|bl: Seq<WindowButton>, br: Seq<WindowButton>|
        {
            &&& bl.len() <= 3
            &&& br.len() <= 3
            &&& bl.no_duplicates()
            &&& br.no_duplicates()
            &&& bl.disjoint(br)
            &&& left == slots_of(bl)
            &&& right == slots_of(br)
        }
}

/// Every layout that reading a string gives is normalized.
pub proof fn parse_layout_normalized(s: Seq<char>)
    ensures
        normalized(parse_layout(s).0.slots, parse_layout(s).1.slots),
{
    let (l, r) = split_sides(s);
    let f = seq![false, false, false];
    let bl = lemma_fold_holds(split_on(l, ','), f, Seq::empty());
    let left = parse_layout(s).0;
    lemma_mark_seen(f, bl);
    assert(left.seen == mark_seen(f, bl));
    let br = lemma_fold_holds(split_on(r, ','), left.seen, left.unrecognized);
    assert(bl.disjoint(br)) by {
        assert forall|i: int, j: int| 0 <= i < bl.len() && 0 <= j < br.len() implies bl[i]
            != br[j] by {
            assert(br.contains(br[j]));
            if bl[i] == br[j] {
                assert(bl.contains(br[j]));
            }
        }
    }
    assert(normalized(parse_layout(s).0.slots, parse_layout(s).1.slots));
}

/// Formatting what was read and reading it again gives what was read: reading a layout
/// string and formatting it is idempotent up to what reading keeps.
pub proof fn parse_format_parse(s: Seq<char>)
    ensures
        parse_layout(format_layout(parse_layout(s).0.slots, parse_layout(s).1.slots)).0.slots
            == parse_layout(s).0.slots,
        parse_layout(format_layout(parse_layout(s).0.slots, parse_layout(s).1.slots)).1.slots
            == parse_layout(s).1.slots,
        !parse_refused(format_layout(parse_layout(s).0.slots, parse_layout(s).1.slots)),
{
    parse_layout_normalized(s);
    let (bl, br) = choose|bl: Seq<WindowButton>, br: Seq<WindowButton>|
        {
            &&& bl.len() <= 3
            &&& br.len() <= 3
            &&& bl.no_duplicates()
            &&& br.no_duplicates()
            &&& bl.disjoint(br)
            &&& parse_layout(s).0.slots == slots_of(bl)
            &&& parse_layout(s).1.slots == slots_of(br)
        };
    parse_format_roundtrip(bl, br);
}

} // verus!
