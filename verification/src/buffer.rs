//! Offsets into the text of a buffer snapshot.
use vstd::prelude::*;
use std::ops::Range;
use vstd::utf8::valid_utf8;
use crate::anchor::{anchor_is_max, anchor_is_min, max_anchor, min_anchor, Anchor, Bias, BufferId};
use crate::chunk::{ceil_char_boundary_of, floor_char_boundary_of};
use crate::clock::{Global, Lamport, ReplicaId};
use crate::lamport_order::lamport_lt;
use crate::rope::{lemma_start_boundary, text_boundary, Rope, TextDimension};
use crate::summary::{prefixes_fit_u32, text_metrics};
use crate::text_ops::{locator_digits, InsertionFragment, LineEnding, Locator};

verus! {

/// A run of text from one insertion, in document order: the insertion's timestamp, where
/// in the insertion's text it starts, its length in bytes, and whether it is visible
/// (not deleted).
struct Fragment {
    id: Locator,
    timestamp: Lamport,
    insertion_offset: u32,
    len: u32,
    visible: bool,
}

/// How many visible bytes a fragment holds.
spec fn visible_len(f: Fragment) -> int {
    if f.visible {
        f.len as int
    } else {
        0
    }
}

/// How many visible bytes the fragments before the `k`-th hold: where its text starts.
spec fn visible_before(fs: Seq<Fragment>, k: int) -> int
    decreases k,
{
    if k <= 0 {
        0
    } else {
        visible_before(fs, k - 1) + visible_len(fs[k - 1])
    }
}

/// Whether a search for offset `t` stops at a fragment whose text ends at `end`: leaning
/// left it stops at the first fragment reaching `t`, leaning right at the first passing it.
pub open spec fn stops_at(end: int, t: int, bias: Bias) -> bool {
    match bias {
        Bias::Left => t <= end,
        Bias::Right => t < end,
    }
}

/// The first fragment from the `k`-th on at which the search for `t` stops (the number of
/// fragments if none).
spec fn fragment_at(fs: Seq<Fragment>, t: int, bias: Bias, k: int) -> int
    decreases fs.len() - k,
{
    if k < 0 || k >= fs.len() {
        fs.len() as int
    } else if stops_at(visible_before(fs, k + 1), t, bias) {
        k
    } else {
        fragment_at(fs, t, bias, k + 1)
    }
}

/// An offset moved to a character boundary in the direction of the bias (an offset past
/// the end goes to the end).
pub open spec fn biased_offset(text: Seq<u8>, offset: int, bias: Bias) -> int {
    if text_boundary(text, offset) {
        offset
    } else {
        match bias {
            Bias::Left => floor_char_boundary_of(text, offset),
            Bias::Right => ceil_char_boundary_of(text, offset),
        }
    }
}

/// Whether a piece of an insertion is where an anchor lies: a piece of the anchor's
/// insertion starting at or before the anchor's offset (leaning left, strictly before,
/// but for an anchor at the very start of its insertion).
pub open spec fn piece_holds(p: InsertionFragment, a: Anchor) -> bool {
    &&& p.timestamp == a.timestamp
    &&& match a.bias {
        Bias::Left => p.split_offset < a.offset || (a.offset == 0 && p.split_offset == 0),
        Bias::Right => p.split_offset <= a.offset,
    }
}

/// The last of the first `i` pieces where the anchor lies, or -1.
pub open spec fn last_piece(ps: Seq<InsertionFragment>, a: Anchor, i: int) -> int
    decreases i,
{
    if i <= 0 {
        -1
    } else if piece_holds(ps[i - 1], a) {
        i - 1
    } else {
        last_piece(ps, a, i - 1)
    }
}

/// The order of the pieces of insertions: by insertion, then by where they start.
pub open spec fn piece_key_lt(a: InsertionFragment, b: InsertionFragment) -> bool {
    lamport_lt(a.timestamp, b.timestamp) || (a.timestamp == b.timestamp && a.split_offset
        < b.split_offset)
}

proof fn lemma_visible_before_mono(fs: Seq<Fragment>, i: int, j: int)
    requires
        0 <= i <= j,
    ensures
        visible_before(fs, i) <= visible_before(fs, j),
    decreases j - i,
{
    if i < j {
        lemma_visible_before_mono(fs, i, j - 1);
    }
}

/// Where the search for `t` stops, when it did not stop before the `i`-th fragment: at a
/// fragment whose text reaches `t` (passes it, leaning right) and starts before it (at or
/// before it, leaning right, or at the very start); or nowhere, and then `t` lies past the
/// visible text (at or past its end, leaning right).
proof fn lemma_fragment_at(fs: Seq<Fragment>, t: int, bias: Bias, i: int)
    requires
        0 <= i <= fs.len(),
        visible_before(fs, i) <= t,
        bias is Left && i > 0 ==> visible_before(fs, i) < t,
    ensures
        ({
            let k = fragment_at(fs, t, bias, i);
            &&& i <= k <= fs.len()
            &&& k < fs.len() ==> stops_at(visible_before(fs, k + 1), t, bias) && visible_before(
                fs,
                k,
            ) <= t && (bias is Left && k > 0 ==> visible_before(fs, k) < t)
            &&& k == fs.len() ==> (bias is Right ==> t >= visible_before(fs, fs.len() as int)) && (
            bias is Left ==> t > visible_before(fs, fs.len() as int) || fs.len() == 0)
        }),
    decreases fs.len() - i,
{
    if i < fs.len() && !stops_at(visible_before(fs, i + 1), t, bias) {
        lemma_fragment_at(fs, t, bias, i + 1);
    }
}

/// The last piece that holds the anchor among the first `i` is `j0` when `j0` holds it and
/// none after it does.
proof fn lemma_last_piece_is(ps: Seq<InsertionFragment>, a: Anchor, i: int, j0: int)
    requires
        0 <= j0 < i <= ps.len(),
        piece_holds(ps[j0], a),
        forall|j: int| j0 < j < i ==> !piece_holds(#[trigger] ps[j], a),
    ensures
        last_piece(ps, a, i) == j0,
    decreases i,
{
    if i - 1 > j0 {
        lemma_last_piece_is(ps, a, i - 1, j0);
    }
}

/// The last piece that holds the anchor, when there is one, is one of the first `i` and
/// holds it.
proof fn lemma_last_piece_holds(ps: Seq<InsertionFragment>, a: Anchor, i: int)
    requires
        0 <= i <= ps.len(),
    ensures
        -1 <= last_piece(ps, a, i) < i,
        last_piece(ps, a, i) >= 0 ==> piece_holds(ps[last_piece(ps, a, i)], a),
    decreases i,
{
    if i > 0 && !piece_holds(ps[i - 1], a) {
        lemma_last_piece_holds(ps, a, i - 1);
    }
}

fn same_digits(a: &[u64], b: &[u64]) -> (r: bool)
    ensures
        r == (a@ == b@),
{
    if a.len() != b.len() {
        return false;
    }
    let mut i: usize = 0;
    while i < a.len()
        invariant
            a@.len() == b@.len(),
            i <= a@.len(),
            forall|k: int| 0 <= k < i ==> a@[k] == b@[k],
        decreases a@.len() - i,
    {
        if a[i] != b[i] {
            return false;
        }
        i += 1;
    }
    proof {
        assert(a@ =~= b@);
    }
    true
}

/// A snapshot of a buffer: its visible text; its fragments, the runs of inserted text in
/// document order, deleted ones included; the pieces of each insertion, ordered by
/// insertion and offset, each naming its fragment; the version it reflects, the replica
/// that holds it, the buffer's identifier and its line ending.
pub struct BufferSnapshot {
    visible_text: Rope,
    fragments: Vec<Fragment>,
    insertions: Vec<InsertionFragment>,
    /// For each piece, the position of its fragment.
    piece_fragment: Ghost<Seq<int>>,
    /// For each fragment, the position of its piece.
    fragment_piece: Ghost<Seq<int>>,
    pub version: Global,
    remote_id: BufferId,
    replica_id: ReplicaId,
    line_ending: LineEnding,
}

impl BufferSnapshot {
    /// The UTF-8 bytes of the visible text.
    pub closed spec fn text(&self) -> Seq<u8> {
        self.visible_text@
    }

    /// The buffer's identifier.
    pub closed spec fn buffer_id(&self) -> BufferId {
        self.remote_id
    }

    /// The fragments hold the visible text between them; each is a non-empty run within
    /// its insertion's `u32` offsets; the pieces and the fragments correspond one to one,
    /// with the same insertion, start and locator; no two fragments share a locator; the
    /// pieces ascend by insertion and start, and the pieces of one insertion do not overlap.
    pub closed spec fn wf(&self) -> bool {
        let fs = self.fragments@;
        let ps = self.insertions@;
        let pf = self.piece_fragment@;
        let fp = self.fragment_piece@;
        &&& valid_utf8(self.text())
        &&& self.text().len() <= usize::MAX
        &&& visible_before(fs, fs.len() as int) == self.text().len()
        &&& forall|k: int|
            0 <= k < fs.len() ==> (#[trigger] fs[k]).len > 0 && fs[k].insertion_offset + fs[k].len
                <= u32::MAX
        &&& pf.len() == ps.len()
        &&& fp.len() == fs.len()
        &&& forall|j: int| 0 <= j < ps.len() ==> 0 <= #[trigger] pf[j] < fs.len() && fp[pf[j]] == j
        &&& forall|k: int| 0 <= k < fs.len() ==> 0 <= #[trigger] fp[k] < ps.len() && pf[fp[k]] == k
        &&& forall|j: int|
            0 <= j < ps.len() ==> (#[trigger] ps[j]).timestamp == fs[pf[j]].timestamp
                && ps[j].split_offset == fs[pf[j]].insertion_offset && locator_digits(
                ps[j].fragment_id,
            ) == locator_digits(fs[pf[j]].id)
        &&& forall|k1: int, k2: int|
            0 <= k1 < k2 < fs.len() ==> locator_digits((#[trigger] fs[k1]).id) != locator_digits(
                (#[trigger] fs[k2]).id,
            )
        &&& forall|j1: int, j2: int|
            0 <= j1 < j2 < ps.len() ==> piece_key_lt(#[trigger] ps[j1], #[trigger] ps[j2])
        &&& forall|j1: int, j2: int|
            0 <= j1 < j2 < ps.len() && (#[trigger] ps[j1]).timestamp == (#[trigger] ps[j2]).timestamp
                ==> ps[j2].split_offset >= ps[j1].split_offset + fs[pf[j1]].len
    }

    /// The anchor for `offset` leaning to `bias`: the start of the buffer for offset 0
    /// leaning left; the end of the buffer for an offset at or past the end leaning right;
    /// otherwise the offset moves to a character boundary in the bias's direction, and
    /// the anchor names the insertion of the fragment the search for it stops at and the
    /// offset within that insertion (the end of the buffer when no fragment stops it).
    pub closed spec fn anchor_for(&self, offset: int, bias: Bias) -> Anchor {
        let fs = self.fragments@;
        if bias is Left && offset == 0 {
            min_anchor(self.remote_id)
        } else if bias is Right && offset >= self.text().len() {
            max_anchor(self.remote_id)
        } else {
            let t = biased_offset(self.text(), offset, bias);
            let k = fragment_at(fs, t, bias, 0);
            if k < fs.len() {
                Anchor {
                    timestamp: fs[k].timestamp,
                    offset: (fs[k].insertion_offset + (t - visible_before(fs, k))) as u32,
                    bias,
                    buffer_id: self.remote_id,
                }
            } else {
                max_anchor(self.remote_id)
            }
        }
    }

    /// The offset in the visible text before which `a` lies within its fragment.
    closed spec fn piece_offset(&self, a: Anchor) -> int {
        let j = last_piece(self.insertions@, a, self.insertions@.len() as int);
        let k = self.piece_fragment@[j];
        let f = self.fragments@[k];
        visible_before(self.fragments@, k) + if f.visible {
            a.offset - self.insertions@[j].split_offset
        } else {
            0
        }
    }

    /// Whether the snapshot can resolve `a`: the start or the end of the buffer, or an
    /// anchor for which some piece of its insertion holds it (and whose offset fits a
    /// `usize`).
    pub closed spec fn anchor_valid(&self, a: Anchor) -> bool {
        ||| anchor_is_min(a)
        ||| anchor_is_max(a)
        ||| (last_piece(self.insertions@, a, self.insertions@.len() as int) >= 0
            && self.piece_offset(a) <= usize::MAX)
    }

    /// The offset in the visible text that `a` resolves to: 0 for the start of the buffer,
    /// the length for its end; otherwise the last piece of the anchor's insertion that holds
    /// it names a fragment, and the anchor lies that far into the fragment (at its start if
    /// the fragment is deleted).
    pub closed spec fn anchor_offset(&self, a: Anchor) -> int {
        if anchor_is_min(a) {
            0
        } else if anchor_is_max(a) {
            self.text().len() as int
        } else {
            self.piece_offset(a)
        }
    }

    /// A snapshot of `visible_text` as the buffer's base text: one fragment for the whole
    /// text (none for no text), the insertion at the earliest timestamp.
    pub fn new(
        visible_text: Rope,
        version: Global,
        replica_id: ReplicaId,
        line_ending: LineEnding,
        remote_id: BufferId,
    ) -> (r: Self)
        requires
            visible_text@.len() <= u32::MAX,
        ensures
            r.text() == visible_text@,
            r.buffer_id() == remote_id,
            r.wf(),
    {
        let len = visible_text.len();
        let mut fragments: Vec<Fragment> = Vec::new();
        let mut insertions: Vec<InsertionFragment> = Vec::new();
        let timestamp = Lamport::min_timestamp();
        let ghost mut pf: Seq<int> = Seq::empty();
        let ghost mut fp: Seq<int> = Seq::empty();
        if len > 0 {
            let digits = [0x8000_0000_0000_0000u64];
            fragments.push(
                Fragment {
                    id: Locator::from_digits(digits.as_slice()),
                    timestamp,
                    insertion_offset: 0,
                    len: len as u32,
                    visible: true,
                },
            );
            insertions.push(
                InsertionFragment {
                    timestamp,
                    split_offset: 0,
                    fragment_id: Locator::from_digits(digits.as_slice()),
                },
            );
            proof {
                pf = seq![0int];
                fp = seq![0int];
                assert(visible_before(fragments@, 1) == len) by {
                    assert(visible_before(fragments@, 0) == 0);
                }
            }
        }
        BufferSnapshot {
            visible_text,
            fragments,
            insertions,
            piece_fragment: Ghost(pf),
            fragment_piece: Ghost(fp),
            version,
            remote_id,
            replica_id,
            line_ending,
        }
    }

    /// The anchor for `offset` leaning to `bias` (see `anchor_for`).
    pub fn anchor_at_offset(&self, offset: usize, bias: Bias) -> (r: Anchor)
        requires
            self.wf(),
        ensures
            r == self.anchor_for(offset as int, bias),
            r.buffer_id == self.buffer_id(),
            bias is Left && offset == 0 ==> r == min_anchor(self.buffer_id()),
            bias is Right && offset >= self.text().len() ==> r == max_anchor(self.buffer_id()),
            bias is Right ==> r.bias is Right,
            bias is Left && (offset == 0 || self.text().len() > 0) ==> r.bias is Left,
    {
        proof {
            anchor_leans_to_its_bias(*self, offset as int, bias);
        }
        if bias == Bias::Left && offset == 0 {
            return Anchor::min_for_buffer(self.remote_id);
        }
        let len = self.visible_text.len();
        if bias == Bias::Right && offset >= len {
            return Anchor::max_for_buffer(self.remote_id);
        }
        let ghost text = self.text();
        let ghost fs = self.fragments@;
        let t = if self.visible_text.assert_char_boundary::<false>(offset) {
            offset
        } else {
            match bias {
                Bias::Left => self.visible_text.floor_char_boundary(offset),
                Bias::Right => self.visible_text.ceil_char_boundary(offset),
            }
        };
        proof {
            if !text_boundary(text, offset as int) {
                if offset < text.len() {
                    crate::chunk::lemma_prev_boundary(text, offset as int);
                    crate::chunk::lemma_next_boundary(text, offset as int);
                }
            }
            assert(t <= text.len());
        }
        let mut start: usize = 0;
        let mut i: usize = 0;
        while i < self.fragments.len()
            invariant
                self.wf(),
                text == self.text(),
                fs == self.fragments@,
                len == text.len(),
                t == biased_offset(text, offset as int, bias),
                t <= text.len(),
                !(bias is Left && offset == 0),
                !(bias is Right && offset >= text.len()),
                i <= fs.len(),
                start == visible_before(fs, i as int),
                start <= t,
                bias is Left && i > 0 ==> start < t,
                fragment_at(fs, t as int, bias, 0) == fragment_at(fs, t as int, bias, i as int),
            decreases fs.len() - i,
        {
            let f = &self.fragments[i];
            let visible: usize = if f.visible {
                f.len as usize
            } else {
                0
            };
            proof {
                lemma_visible_before_mono(fs, i + 1, fs.len() as int);
                assert(visible_before(fs, i + 1) == start + visible);
            }
            let end = start + visible;
            let stop = match bias {
                Bias::Left => t <= end,
                Bias::Right => t < end,
            };
            if stop {
                proof {
                    assert(fs[i as int].len > 0);
                    assert(t - start <= f.len);
                }
                let overshoot = (t - start) as u32;
                return Anchor {
                    timestamp: f.timestamp,
                    offset: f.insertion_offset + overshoot,
                    bias,
                    buffer_id: self.remote_id,
                };
            }
            start = end;
            i += 1;
        }
        Anchor::max_for_buffer(self.remote_id)
    }

    /// The anchor for `position` leaning to `bias`.
    pub fn anchor_at<T: ToOffset>(&self, position: T, bias: Bias) -> (r: Anchor)
        requires
            self.wf(),
        ensures
            r == self.anchor_for(position.offset_in(self), bias),
            r.bias == bias,
            r.buffer_id == self.buffer_id(),
            bias is Left && position.offset_in(self) == 0 ==> r == min_anchor(self.buffer_id()),
            bias is Right && position.offset_in(self) == self.text().len() ==> r == max_anchor(
                self.buffer_id(),
            ),
            self.anchor_valid(r),
            self.anchor_offset(r) == position.offset_in(self),
    {
        let offset = position.to_offset(self);
        proof {
            anchor_leans_to_its_bias(*self, offset as int, bias);
            anchor_resolves_to_its_offset(*self, offset as int, bias);
        }
        self.anchor_at_offset(offset, bias)
    }

    /// The anchor for `position` that stays with the text after it.
    pub fn anchor_after<T: ToOffset>(&self, position: T) -> (r: Anchor)
        requires
            self.wf(),
        ensures
            r == self.anchor_for(position.offset_in(self), Bias::Right),
            r.bias is Right,
            r.buffer_id == self.buffer_id(),
            position.offset_in(self) == self.text().len() ==> r == max_anchor(self.buffer_id()),
            self.anchor_valid(r),
            self.anchor_offset(r) == position.offset_in(self),
    {
        self.anchor_at(position, Bias::Right)
    }

    /// The anchor for `position` that stays with the text before it.
    pub fn anchor_before<T: ToOffset>(&self, position: T) -> (r: Anchor)
        requires
            self.wf(),
        ensures
            r == self.anchor_for(position.offset_in(self), Bias::Left),
            r.bias is Left,
            r.buffer_id == self.buffer_id(),
            position.offset_in(self) == 0 ==> r == min_anchor(self.buffer_id()),
            self.anchor_valid(r),
            self.anchor_offset(r) == position.offset_in(self),
    {
        self.anchor_at(position, Bias::Left)
    }

    /// The summary of the text before `anchor`.
    pub fn summary_for_anchor<D: TextDimension>(&self, anchor: &Anchor) -> (r: D)
        requires
            self.wf(),
            self.anchor_valid(*anchor),
            prefixes_fit_u32(self.text(), 0, clipped_offset(self.text(), self.anchor_offset(*anchor))),
        ensures
            r == D::of_metrics(
                text_metrics(
                    self.text().subrange(0, clipped_offset(self.text(), self.anchor_offset(*anchor))),
                ),
            ),
    {
        let end = self.offset_for_anchor(anchor);
        proof {
            lemma_start_boundary(self.text());
            if end < self.text().len() {
                crate::chunk::lemma_prev_boundary(self.text(), end as int);
            }
        }
        self.text_summary_for_range(0..end)
    }

    /// The offset in the visible text that `anchor` resolves to (see `anchor_offset`).
    pub fn offset_for_anchor(&self, anchor: &Anchor) -> (r: usize)
        requires
            self.wf(),
            self.anchor_valid(*anchor),
        ensures
            r == self.anchor_offset(*anchor),
    {
        if anchor.is_min() {
            return 0;
        }
        if anchor.is_max() {
            return self.visible_text.len();
        }
        let ghost ps = self.insertions@;
        let ghost fs = self.fragments@;
        let mut best: Option<usize> = None;
        let mut i: usize = 0;
        while i < self.insertions.len()
            invariant
                ps == self.insertions@,
                i <= ps.len(),
                (match best {
                    Some(b) => b as int,
                    None => -1,
                }) == last_piece(ps, *anchor, i as int),
            decreases ps.len() - i,
        {
            let p = &self.insertions[i];
            let holds = p.timestamp == anchor.timestamp && match anchor.bias {
                Bias::Left => p.split_offset < anchor.offset || (anchor.offset == 0
                    && p.split_offset == 0),
                Bias::Right => p.split_offset <= anchor.offset,
            };
            if holds {
                best = Some(i);
            }
            i += 1;
        }
        proof {
            lemma_last_piece_holds(ps, *anchor, ps.len() as int);
        }
        let j = match best {
            Some(j) => j,
            None => {
                proof {
                    assert(false);
                }
                return 0;
            },
        };
        let piece = &self.insertions[j];
        let ghost k0 = self.piece_fragment@[j as int];
        let target = piece.fragment_id.digits();
        let mut start: usize = 0;
        let mut k: usize = 0;
        while k < self.fragments.len()
            invariant
                self.wf(),
                fs == self.fragments@,
                ps == self.insertions@,
                0 <= j < ps.len(),
                piece == &ps[j as int],
                k0 == self.piece_fragment@[j as int],
                target@ == locator_digits(ps[j as int].fragment_id),
                k <= k0,
                start == visible_before(fs, k as int),
                j as int == last_piece(ps, *anchor, ps.len() as int),
                piece_holds(ps[j as int], *anchor),
                !anchor_is_min(*anchor),
                !anchor_is_max(*anchor),
                self.anchor_valid(*anchor),
            decreases fs.len() - k,
        {
            let f = &self.fragments[k];
            if same_digits(f.id.digits(), target) {
                proof {
                    if k < k0 {
                        assert(locator_digits(fs[k as int].id) != locator_digits(fs[k0].id));
                    }
                }
                if f.visible {
                    return start + (anchor.offset - piece.split_offset) as usize;
                } else {
                    return start;
                }
            }
            proof {
                lemma_visible_before_mono(fs, k + 1, fs.len() as int);
            }
            start = start + if f.visible {
                f.len as usize
            } else {
                0
            };
            k += 1;
        }
        proof {
            assert(false);
        }
        0
    }

    pub fn as_rope(&self) -> (r: &Rope)
        ensures
            r@ == self.text(),
    {
        &self.visible_text
    }

    pub fn len(&self) -> (r: usize)
        ensures
            r == self.text().len(),
    {
        self.visible_text.len()
    }

    /// The summary of the text in `range`; the line and row counts of the range's prefixes
    /// must fit in `u32`.
    pub fn text_summary_for_range<D: TextDimension, O: ToOffset>(&self, range: Range<O>) -> (r: D)
        requires
            range.start.offset_in(self) <= range.end.offset_in(self),
            prefixes_fit_u32(self.text(), range.start.offset_in(self), range.end.offset_in(self)),
        ensures
            r == D::of_metrics(
                text_metrics(
                    self.text().subrange(range.start.offset_in(self), range.end.offset_in(self)),
                ),
            ),
    {
        let start = range.start.to_offset(self);
        let end = range.end.to_offset(self);
        let mut cursor = self.visible_text.cursor(start);
        cursor.summary(end)
    }
}

/// An anchor made for an offset belongs to the snapshot's buffer and leans to the bias
/// asked for; offset 0 leaning left gives the start of the buffer, an offset at or past
/// the end leaning right its end. Leaning left, an offset past 0 in an empty buffer gives
/// the end of the buffer, which leans right.
pub proof fn anchor_leans_to_its_bias(s: BufferSnapshot, offset: int, bias: Bias)
    requires
        s.wf(),
        0 <= offset,
    ensures
        s.anchor_for(offset, bias).buffer_id == s.buffer_id(),
        bias is Left && offset == 0 ==> s.anchor_for(offset, bias) == min_anchor(s.buffer_id()),
        bias is Right && offset >= s.text().len() ==> s.anchor_for(offset, bias) == max_anchor(
            s.buffer_id(),
        ),
        bias is Right ==> s.anchor_for(offset, bias).bias is Right,
        bias is Left && (offset == 0 || s.text().len() > 0) ==> s.anchor_for(offset, bias).bias is Left,
{
    let text = s.text();
    let fs = s.fragments@;
    if !(bias is Left && offset == 0) && !(bias is Right && offset >= text.len()) {
        let t = biased_offset(text, offset, bias);
        if !text_boundary(text, offset) && offset < text.len() {
            crate::chunk::lemma_prev_boundary(text, offset);
            crate::chunk::lemma_next_boundary(text, offset);
        }
        assert(0 <= t <= text.len());
        lemma_fragment_at(fs, t, bias, 0);
    }
}

/// An anchor made for an offset resolves back to that offset, moved to a character
/// boundary in the direction of the anchor's bias (an offset at or past the end, leaning
/// right, to the end). Left out: an offset inside the first character, leaning left, which
/// moves to 0 and is anchored to the start of the first fragment's insertion run.
pub proof fn anchor_resolves_to_its_offset(s: BufferSnapshot, offset: int, bias: Bias)
    requires
        s.wf(),
        0 <= offset,
        !(bias is Left && offset > 0 && biased_offset(s.text(), offset, bias) == 0),
    ensures
        s.anchor_valid(s.anchor_for(offset, bias)),
        s.anchor_offset(s.anchor_for(offset, bias)) == biased_offset(s.text(), offset, bias),
{
    let text = s.text();
    let fs = s.fragments@;
    let ps = s.insertions@;
    let pf = s.piece_fragment@;
    let fp = s.fragment_piece@;
    let a = s.anchor_for(offset, bias);
    ReplicaId::lemma_from_u16(0);
    ReplicaId::lemma_from_u16(u16::MAX);
    if bias is Left && offset == 0 {
        lemma_start_boundary(text);
    } else if bias is Right && offset >= text.len() {
    } else {
        let t = biased_offset(text, offset, bias);
        if !text_boundary(text, offset) && offset < text.len() {
            crate::chunk::lemma_prev_boundary(text, offset);
            crate::chunk::lemma_next_boundary(text, offset);
        }
        assert(0 <= t <= text.len());
        lemma_fragment_at(fs, t, bias, 0);
        let k = fragment_at(fs, t, bias, 0);
        if k < fs.len() {
            let f = fs[k];
            let ov = t - visible_before(fs, k);
            assert(visible_before(fs, k + 1) == visible_before(fs, k) + visible_len(f));
            assert(f.len > 0 && f.insertion_offset + f.len <= u32::MAX);
            assert(f.visible);
            assert(0 <= ov <= f.len);
            assert(a.offset == f.insertion_offset + ov);
            let j0 = fp[k];
            assert(pf[j0] == k);
            assert(ps[j0].timestamp == f.timestamp);
            assert(ps[j0].split_offset == f.insertion_offset);
            assert(piece_holds(ps[j0], a));
            assert forall|j: int| j0 < j < ps.len() implies !piece_holds(#[trigger] ps[j], a) by {
                if ps[j].timestamp == a.timestamp {
                    assert(ps[j0].timestamp == ps[j].timestamp);
                    assert(ps[j].split_offset >= ps[j0].split_offset + fs[pf[j0]].len);
                }
            }
            lemma_last_piece_is(ps, a, ps.len() as int, j0);
            lemma_visible_before_mono(fs, k + 1, fs.len() as int);
        }
    }
}

/// Where an offset that is not a character boundary goes: down to the character it is
/// in (past the end, to the end).
pub open spec fn clipped_offset(text: Seq<u8>, offset: int) -> int {
    if text_boundary(text, offset) {
        offset
    } else {
        floor_char_boundary_of(text, offset)
    }
}

/// A position in a buffer that can be turned into a byte offset of its text.
pub trait ToOffset {
    /// The offset this position stands for in `snapshot`.
    spec fn offset_in(&self, snapshot: &BufferSnapshot) -> int;

    /// The offset, always a character boundary of the text.
    fn to_offset(&self, snapshot: &BufferSnapshot) -> (r: usize)
        ensures
            r == self.offset_in(snapshot),
            text_boundary(snapshot.text(), r as int),
    ;

    /// The first character boundary after this position.
    fn to_next_offset(&self, snapshot: &BufferSnapshot) -> (r: usize)
        requires
            snapshot.text().len() < usize::MAX,
        ensures
            r == ceil_char_boundary_of(snapshot.text(), self.offset_in(snapshot) + 1),
    {
        let offset = self.to_offset(snapshot);
        snapshot.visible_text.ceil_char_boundary(offset + 1)
    }

    /// The last character boundary before this position (the start for the start).
    fn to_previous_offset(&self, snapshot: &BufferSnapshot) -> (r: usize)
        ensures
            r == floor_char_boundary_of(
                snapshot.text(),
                if self.offset_in(snapshot) > 0 {
                    self.offset_in(snapshot) - 1
                } else {
                    0
                },
            ),
    {
        let offset = self.to_offset(snapshot);
        snapshot.visible_text.floor_char_boundary(offset.saturating_sub(1))
    }
}

impl ToOffset for usize {
    open spec fn offset_in(&self, snapshot: &BufferSnapshot) -> int {
        clipped_offset(snapshot.text(), *self as int)
    }

    /// An offset that is a character boundary stands for itself; any other goes down to
    /// the start of its character, or to the end of the text.
    fn to_offset(&self, snapshot: &BufferSnapshot) -> (r: usize) {
        let text = snapshot.as_rope();
        if !text.assert_char_boundary::<false>(*self) {
            text.floor_char_boundary(*self)
        } else {
            *self
        }
    }
}

impl<'a, T: ToOffset> ToOffset for &'a T {
    open spec fn offset_in(&self, snapshot: &BufferSnapshot) -> int {
        (**self).offset_in(snapshot)
    }

    fn to_offset(&self, snapshot: &BufferSnapshot) -> (r: usize) {
        (**self).to_offset(snapshot)
    }
}

} // verus!
