//! A rope: a text held as a sequence of chunks, each valid UTF-8.
use vstd::prelude::*;
use vstd::utf8::*;
use crate::chunk::{
    ceil_char_boundary, ceil_char_boundary_of, chunk_boundary, floor_char_boundary,
    floor_char_boundary_of, lemma_next_boundary, lemma_prev_boundary, next_boundary,
    prev_boundary, slice_end, slice_start, Chunk, ChunkSlice,
};
use crate::summary::{
    char_at, metrics_add, metrics_fit_u32, prefixes_fit_u32, summary_add_fits, text_metrics,
    ChunkSummary, TextMetrics, TextSummary,
};
use crate::summary_law::{
    lemma_metrics_bounded, lemma_summary_add_fits_when_sum_fits, text_metrics_concat,
};

verus! {

/// The texts of the chunks, one after another.
pub open spec fn concat_chunks(cs: Seq<Seq<u8>>) -> Seq<u8>
    decreases cs.len(),
{
    if cs.len() == 0 {
        Seq::empty()
    } else {
        concat_chunks(cs.drop_last()) + cs.last()
    }
}

/// Where the chunk `i` starts in the whole text.
pub open spec fn chunk_start(cs: Seq<Seq<u8>>, i: int) -> int {
    concat_chunks(cs.take(i)).len() as int
}

/// `offset` is a character boundary of the text `t`: its end, or the first byte of a
/// character.
pub open spec fn text_boundary(t: Seq<u8>, offset: int) -> bool {
    offset == t.len() || (0 <= offset < t.len() && !is_continuation_byte(t[offset]))
}

/// Every chunk is valid UTF-8.
pub open spec fn all_valid(cs: Seq<Seq<u8>>) -> bool {
    forall|i: int| 0 <= i < cs.len() ==> valid_utf8(#[trigger] cs[i])
}

proof fn lemma_take_step(cs: Seq<Seq<u8>>, i: int)
    requires
        0 <= i < cs.len(),
    ensures
        concat_chunks(cs.take(i + 1)) == concat_chunks(cs.take(i)) + cs[i],
        chunk_start(cs, i + 1) == chunk_start(cs, i) + cs[i].len(),
{
    assert(cs.take(i + 1).drop_last() =~= cs.take(i));
}

/// The text of the first `i` chunks begins the whole text.
proof fn lemma_prefix(cs: Seq<Seq<u8>>, i: int)
    requires
        0 <= i <= cs.len(),
    ensures
        0 <= chunk_start(cs, i) <= concat_chunks(cs).len(),
        concat_chunks(cs).subrange(0, chunk_start(cs, i)) == concat_chunks(cs.take(i)),
    decreases cs.len(),
{
    if i == cs.len() {
        assert(cs.take(i) =~= cs);
        assert(concat_chunks(cs).subrange(0, chunk_start(cs, i)) =~= concat_chunks(cs));
    } else {
        let d = cs.drop_last();
        lemma_prefix(d, i);
        assert(cs.take(i) =~= d.take(i));
        assert(concat_chunks(cs).subrange(0, chunk_start(cs, i)) =~= concat_chunks(d).subrange(
            0,
            chunk_start(d, i),
        ));
    }
}

/// Byte `j` of chunk `i` is byte `chunk_start(i) + j` of the whole text.
proof fn lemma_index(cs: Seq<Seq<u8>>, i: int, j: int)
    requires
        0 <= i < cs.len(),
        0 <= j < cs[i].len(),
    ensures
        chunk_start(cs, i) + j < concat_chunks(cs).len(),
        concat_chunks(cs)[chunk_start(cs, i) + j] == cs[i][j],
{
    lemma_prefix(cs, i + 1);
    lemma_take_step(cs, i);
    let t = concat_chunks(cs);
    let p = chunk_start(cs, i + 1);
    assert(t.subrange(0, p)[chunk_start(cs, i) + j] == t[chunk_start(cs, i) + j]);
}

proof fn lemma_valid_first_byte(b: Seq<u8>)
    requires
        valid_utf8(b),
        b.len() > 0,
    ensures
        !is_continuation_byte(b[0]),
{
    is_char_boundary_start_end_of_seq(b);
    is_char_boundary_iff_not_is_continuation_byte(b, 0);
}

/// Every chunk starts at a character boundary of the whole text.
proof fn lemma_chunk_start_boundary(cs: Seq<Seq<u8>>, i: int)
    requires
        all_valid(cs),
        0 <= i <= cs.len(),
    ensures
        text_boundary(concat_chunks(cs), chunk_start(cs, i)),
    decreases cs.len(),
{
    let t = concat_chunks(cs);
    if i == cs.len() {
        assert(cs.take(i) =~= cs);
    } else {
        let d = cs.drop_last();
        let c = cs.last();
        assert(all_valid(d)) by {
            assert forall|k: int| 0 <= k < d.len() implies valid_utf8(#[trigger] d[k]) by {
                assert(d[k] == cs[k]);
            }
        }
        lemma_chunk_start_boundary(d, i);
        assert(cs.take(i) =~= d.take(i));
        let p = chunk_start(d, i);
        let td = concat_chunks(d);
        assert(t == td + c);
        if p == td.len() {
            if c.len() > 0 {
                assert(valid_utf8(cs[cs.len() - 1]));
                lemma_valid_first_byte(c);
                assert(t[p] == c[0]);
            }
        } else {
            assert(t[p] == td[p]);
        }
    }
}

/// Moving back to a character boundary from inside a chunk stays in the chunk.
proof fn lemma_prev_in_chunk(cs: Seq<Seq<u8>>, i: int, j: int)
    requires
        all_valid(cs),
        0 <= i < cs.len(),
        0 <= j < cs[i].len(),
    ensures
        prev_boundary(concat_chunks(cs), chunk_start(cs, i) + j) == chunk_start(cs, i)
            + prev_boundary(cs[i], j),
    decreases j,
{
    let t = concat_chunks(cs);
    let s = chunk_start(cs, i);
    let b = cs[i];
    lemma_index(cs, i, j);
    lemma_prefix(cs, i);
    if is_continuation_byte(b[j]) {
        if j == 0 {
            lemma_valid_first_byte(b);
        }
        lemma_prev_in_chunk(cs, i, j - 1);
    }
}

/// Moving forward to a character boundary from a chunk ends in the chunk or at its end.
proof fn lemma_next_in_chunk(cs: Seq<Seq<u8>>, i: int, j: int)
    requires
        all_valid(cs),
        0 <= i < cs.len(),
        0 <= j <= cs[i].len(),
    ensures
        next_boundary(concat_chunks(cs), chunk_start(cs, i) + j) == chunk_start(cs, i)
            + next_boundary(cs[i], j),
    decreases cs[i].len() - j,
{
    let t = concat_chunks(cs);
    let s = chunk_start(cs, i);
    let b = cs[i];
    lemma_prefix(cs, i);
    if j == b.len() {
        lemma_take_step(cs, i);
        lemma_prefix(cs, i + 1);
        lemma_chunk_start_boundary(cs, i + 1);
    } else {
        lemma_index(cs, i, j);
        if is_continuation_byte(b[j]) {
            lemma_next_in_chunk(cs, i, j + 1);
        }
    }
}

proof fn lemma_all_valid_concat(cs: Seq<Seq<u8>>)
    requires
        all_valid(cs),
    ensures
        valid_utf8(concat_chunks(cs)),
    decreases cs.len(),
{
    if cs.len() > 0 {
        let d = cs.drop_last();
        assert(all_valid(d)) by {
            assert forall|k: int| 0 <= k < d.len() implies valid_utf8(#[trigger] d[k]) by {
                assert(d[k] == cs[k]);
            }
        }
        lemma_all_valid_concat(d);
        assert(valid_utf8(cs[cs.len() - 1]));
        valid_utf8_concat(concat_chunks(d), cs.last());
    }
}

/// A valid UTF-8 text starts at a character boundary.
pub proof fn lemma_start_boundary(t: Seq<u8>)
    requires
        valid_utf8(t),
    ensures
        text_boundary(t, 0),
{
    if t.len() > 0 {
        lemma_valid_first_byte(t);
    }
}

/// Rounding to character boundaries moves no further than needed: a boundary rounds to
/// itself, and any offset within the text lies between its rounding down and up.
pub proof fn boundary_rounding_laws(t: Seq<u8>, i: int)
    requires
        0 <= i <= t.len(),
    ensures
        floor_char_boundary_of(t, i) <= i <= ceil_char_boundary_of(t, i),
        text_boundary(t, i) ==> floor_char_boundary_of(t, i) == i && ceil_char_boundary_of(t, i)
            == i,
{
    if i < t.len() {
        lemma_prev_boundary(t, i);
        lemma_next_boundary(t, i);
    }
}

/// A text held as a sequence of chunks.
pub struct Rope {
    chunks: Vec<Chunk>,
}

impl Rope {
    /// The texts of the chunks.
    pub closed spec fn chunk_texts(&self) -> Seq<Seq<u8>> {
        self.chunks@.map_values(|c: Chunk| c@)
    }

    #[verifier::type_invariant]
    closed spec fn inv(self) -> bool {
        &&& forall|i: int| 0 <= i < self.chunks@.len() ==> (#[trigger] self.chunks@[i]).wf()
        &&& all_valid(self.chunk_texts())
        &&& concat_chunks(self.chunk_texts()).len() <= usize::MAX
    }
}

impl View for Rope {
    /// The UTF-8 bytes of the text.
    type V = Seq<u8>;

    closed spec fn view(&self) -> Seq<u8> {
        concat_chunks(self.chunk_texts())
    }
}

impl Rope {
    /// Appends a chunk to the end of the text.
    pub fn push_chunk(&mut self, chunk: Chunk)
        requires
            chunk.wf(),
            valid_utf8(chunk@),
            old(self)@.len() + chunk@.len() <= usize::MAX,
        ensures
            final(self)@ == old(self)@ + chunk@,
    {
        proof {
            use_type_invariant(&*self);
        }
        let ghost before = self.chunk_texts();
        let mut chunks: Vec<Chunk> = Vec::new();
        std::mem::swap(&mut chunks, &mut self.chunks);
        chunks.push(chunk);
        proof {
            let after = chunks@.map_values(|c: Chunk| c@);
            assert(after.drop_last() =~= before);
            assert(after.last() == chunk@);
            assert forall|i: int| 0 <= i < after.len() implies valid_utf8(#[trigger] after[i]) by {
                if i < before.len() {
                    assert(after[i] == before[i]);
                }
            }
        }
        self.chunks = chunks;
    }

    /// The length of the text in bytes; the text is valid UTF-8.
    pub fn len(&self) -> (r: usize)
        ensures
            r == self@.len(),
            valid_utf8(self@),
    {
        proof {
            use_type_invariant(self);
            lemma_all_valid_concat(self.chunk_texts());
        }
        let ghost cs = self.chunk_texts();
        let mut total: usize = 0;
        let mut i: usize = 0;
        while i < self.chunks.len()
            invariant
                cs == self.chunk_texts(),
                concat_chunks(cs).len() <= usize::MAX,
                forall|k: int| 0 <= k < self.chunks@.len() ==> (#[trigger] self.chunks@[k]).wf(),
                i <= self.chunks@.len(),
                total == chunk_start(cs, i as int),
            decreases self.chunks@.len() - i,
        {
            let len = self.chunks[i].as_slice().len();
            proof {
                lemma_take_step(cs, i as int);
                lemma_prefix(cs, i + 1);
            }
            total = total + len;
            i += 1;
        }
        proof {
            assert(cs.take(i as int) =~= cs);
        }
        total
    }

    /// The first chunk whose end is at or after `offset`, with the offset it starts at;
    /// or none, with the length of the text, when the text ends before `offset`.
    fn find_left(&self, offset: usize) -> (r: (usize, Option<usize>))
        ensures
            r.1 matches Some(i) ==> {
                &&& i < self.chunk_texts().len()
                &&& r.0 == chunk_start(self.chunk_texts(), i as int)
                &&& r.0 <= offset
                &&& offset <= chunk_start(self.chunk_texts(), i + 1)
                &&& forall|k: int|
                    0 <= k < i ==> offset > #[trigger] chunk_start(self.chunk_texts(), k + 1)
            },
            r.1 is None ==> r.0 == self@.len() && (self.chunk_texts().len() == 0 || offset
                > self@.len()),
    {
        proof {
            use_type_invariant(self);
        }
        let ghost cs = self.chunk_texts();
        let mut start: usize = 0;
        let mut i: usize = 0;
        while i < self.chunks.len()
            invariant
                cs == self.chunk_texts(),
                concat_chunks(cs).len() <= usize::MAX,
                forall|k: int| 0 <= k < self.chunks@.len() ==> (#[trigger] self.chunks@[k]).wf(),
                i <= self.chunks@.len(),
                start == chunk_start(cs, i as int),
                start <= offset,
                i > 0 ==> offset > chunk_start(cs, i as int),
                forall|k: int| 0 <= k < i ==> offset > #[trigger] chunk_start(cs, k + 1),
            decreases self.chunks@.len() - i,
        {
            let len = self.chunks[i].as_slice().len();
            proof {
                lemma_take_step(cs, i as int);
                lemma_prefix(cs, i + 1);
            }
            let end = start + len;
            if offset <= end {
                return (start, Some(i));
            }
            start = end;
            i += 1;
        }
        proof {
            assert(cs.take(i as int) =~= cs);
        }
        (start, None)
    }

    /// Whether `offset` is a character boundary of the text; with `PANIC`, an offset that
    /// is not one is a caller error.
    pub fn assert_char_boundary<const PANIC: bool>(&self, offset: usize) -> (r: bool)
        requires
            PANIC ==> text_boundary(self@, offset as int),
        ensures
            r == text_boundary(self@, offset as int),
    {
        proof {
            use_type_invariant(self);
        }
        let ghost cs = self.chunk_texts();
        if self.chunks.len() == 0 && offset == 0 {
            return true;
        }
        let (start, item) = self.find_left(offset);
        match item {
            Some(i) => {
                let chunk = &self.chunks[i];
                let chunk_offset = offset - start;
                proof {
                    chunk.lemma_wf_len();
                    lemma_take_step(cs, i as int);
                    lemma_prefix(cs, i + 1);
                    let b = cs[i as int];
                    assert(b == chunk@);
                    assert((chunk_offset as u32) as int == chunk_offset as int);
                    if chunk_offset < b.len() {
                        lemma_index(cs, i as int, chunk_offset as int);
                        assert(char_at(b, chunk_offset as int) == !is_continuation_byte(
                            self@[offset as int],
                        ));
                    } else {
                        lemma_chunk_start_boundary(cs, i + 1);
                    }
                    assert(chunk_boundary(chunk@, chunk_offset) == text_boundary(
                        self@,
                        offset as int,
                    ));
                }
                chunk.assert_char_boundary::<PANIC>(chunk_offset)
            },
            None => false,
        }
    }

    /// The largest character boundary at or before `index`, or the length when `index` is
    /// past the end.
    pub fn floor_char_boundary(&self, index: usize) -> (r: usize)
        ensures
            r == floor_char_boundary_of(self@, index as int),
            text_boundary(self@, r as int),
    {
        proof {
            use_type_invariant(self);
        }
        let ghost cs = self.chunk_texts();
        let len = self.len();
        if index >= len {
            len
        } else {
            let (start, item) = self.find_left(index);
            match item {
                Some(i) => {
                    let chunk = &self.chunks[i];
                    let chunk_offset = index - start;
                    let lower = floor_char_boundary(chunk.as_str(), chunk_offset);
                    proof {
                        lemma_take_step(cs, i as int);
                        lemma_prefix(cs, i + 1);
                        let b = cs[i as int];
                        assert(b == chunk@);
                        if chunk_offset < b.len() {
                            lemma_prev_boundary(b, chunk_offset as int);
                            let pb = prev_boundary(b, chunk_offset as int);
                            if pb == 0 {
                                lemma_chunk_start_boundary(cs, i as int);
                            } else {
                                lemma_index(cs, i as int, pb);
                            }
                        }
                        if chunk_offset < b.len() {
                            lemma_prev_in_chunk(cs, i as int, chunk_offset as int);
                        } else {
                            lemma_chunk_start_boundary(cs, i + 1);
                        }
                    }
                    start + lower
                },
                None => len,
            }
        }
    }

    /// The smallest character boundary at or after `index`, or the length when `index` is
    /// past the end.
    pub fn ceil_char_boundary(&self, index: usize) -> (r: usize)
        ensures
            r == ceil_char_boundary_of(self@, index as int),
            text_boundary(self@, r as int),
    {
        proof {
            use_type_invariant(self);
        }
        let ghost cs = self.chunk_texts();
        let len = self.len();
        if index > len {
            len
        } else {
            let (start, item) = self.find_left(index);
            match item {
                Some(i) => {
                    let chunk = &self.chunks[i];
                    let chunk_offset = index - start;
                    let upper = ceil_char_boundary(chunk.as_str(), chunk_offset);
                    proof {
                        lemma_take_step(cs, i as int);
                        lemma_prefix(cs, i + 1);
                        let b = cs[i as int];
                        assert(b == chunk@);
                        lemma_next_boundary(b, chunk_offset as int);
                        let nb = next_boundary(b, chunk_offset as int);
                        if nb == b.len() {
                            lemma_chunk_start_boundary(cs, i + 1);
                        } else {
                            lemma_index(cs, i as int, nb);
                        }
                        lemma_next_in_chunk(cs, i as int, chunk_offset as int);
                    }
                    start + upper
                },
                None => len,
            }
        }
    }
}

impl Default for Rope {
    fn default() -> (r: Self)
        ensures
            r@ == Seq::<u8>::empty(),
    {
        let r = Rope { chunks: Vec::new() };
        proof {
            assert(r.chunk_texts() =~= Seq::<Seq<u8>>::empty());
        }
        r
    }
}

impl Clone for Rope {
    fn clone(&self) -> (r: Self)
        ensures
            r@ == self@,
    {
        proof {
            use_type_invariant(self);
        }
        let mut chunks: Vec<Chunk> = Vec::new();
        let mut i: usize = 0;
        while i < self.chunks.len()
            invariant
                i <= self.chunks@.len(),
                chunks@.len() == i,
                forall|k: int|
                    0 <= k < i ==> (#[trigger] chunks@[k])@ == self.chunks@[k]@ && chunks@[k].wf(),
                forall|k: int| 0 <= k < self.chunks@.len() ==> (#[trigger] self.chunks@[k]).wf(),
            decreases self.chunks@.len() - i,
        {
            chunks.push(self.chunks[i].clone());
            i += 1;
        }
        proof {
            let a = chunks@.map_values(|c: Chunk| c@);
            assert(a =~= self.chunk_texts());
        }
        Rope { chunks }
    }
}

/// The bytes `[lo, hi)` of chunk `i` are those of the whole text from the chunk's start.
proof fn lemma_piece(cs: Seq<Seq<u8>>, i: int, lo: int, hi: int)
    requires
        0 <= i < cs.len(),
        0 <= lo <= hi <= cs[i].len(),
    ensures
        chunk_start(cs, i) + hi <= concat_chunks(cs).len(),
        concat_chunks(cs).subrange(chunk_start(cs, i) + lo, chunk_start(cs, i) + hi)
            == cs[i].subrange(lo, hi),
{
    let t = concat_chunks(cs);
    let s = chunk_start(cs, i);
    lemma_take_step(cs, i);
    lemma_prefix(cs, i + 1);
    let part = t.subrange(s + lo, s + hi);
    assert forall|k: int| 0 <= k < part.len() implies part[k] == cs[i].subrange(lo, hi)[k] by {
        lemma_index(cs, i, lo + k);
    }
    assert(part =~= cs[i].subrange(lo, hi));
}

/// The bytes between two character boundaries of a valid text are valid.
proof fn lemma_valid_between(t: Seq<u8>, a: int, z: int)
    requires
        valid_utf8(t),
        0 <= a <= z <= t.len(),
        text_boundary(t, a),
        text_boundary(t, z),
    ensures
        valid_utf8(t.subrange(a, z)),
{
    is_char_boundary_start_end_of_seq(t);
    if a < t.len() {
        is_char_boundary_iff_not_is_continuation_byte(t, a);
    }
    assert(is_char_boundary(t, a));
    valid_utf8_split(t, a);
    let rest = t.subrange(a, t.len() as int);
    assert(valid_utf8(rest));
    is_char_boundary_start_end_of_seq(rest);
    if z - a < rest.len() {
        assert(rest[z - a] == t[z]);
        is_char_boundary_iff_not_is_continuation_byte(rest, z - a);
    }
    assert(is_char_boundary(rest, z - a));
    valid_utf8_split(rest, z - a);
    assert(rest.subrange(0, z - a) =~= t.subrange(a, z));
}

/// `x` held within `[lo, hi]`.
pub open spec fn clamp(x: int, lo: int, hi: int) -> int {
    if x < lo {
        lo
    } else if x > hi {
        hi
    } else {
        x
    }
}

/// A position in a rope from which the text that follows can be summarized.
pub struct Cursor<'a> {
    rope: &'a Rope,
    offset: usize,
}

impl<'a> Cursor<'a> {
    /// The text of the rope.
    pub closed spec fn text(&self) -> Seq<u8> {
        self.rope@
    }

    /// The offset the cursor stands at.
    pub closed spec fn position(&self) -> usize {
        self.offset
    }

    /// A cursor at `offset` in `rope`.
    pub fn new(rope: &'a Rope, offset: usize) -> (r: Self)
        ensures
            r.text() == rope@,
            r.position() == offset,
    {
        Cursor { rope, offset }
    }

    /// The measure `D` of the text from the cursor to `end_offset`, moving the cursor
    /// there. Both ends must be character boundaries, and the line and row counts of the
    /// range's prefixes must fit in `u32`.
    pub fn summary<D: TextDimension>(&mut self, end_offset: usize) -> (r: D)
        requires
            old(self).position() <= end_offset <= old(self).text().len(),
            text_boundary(old(self).text(), old(self).position() as int),
            text_boundary(old(self).text(), end_offset as int),
            prefixes_fit_u32(old(self).text(), old(self).position() as int, end_offset as int),
        ensures
            r == D::of_metrics(
                text_metrics(
                    old(self).text().subrange(old(self).position() as int, end_offset as int),
                ),
            ),
            final(self).text() == old(self).text(),
            final(self).position() == end_offset,
    {
        let rope = self.rope;
        let offset = self.offset;
        proof {
            use_type_invariant(rope);
        }
        let ghost cs = rope.chunk_texts();
        let ghost t = rope@;
        proof {
            lemma_all_valid_concat(cs);
        }
        let mut summary = D::from_text_summary(&ChunkSummary::zero().text);
        proof {
            assert(t.subrange(offset as int, offset as int) =~= Seq::<u8>::empty());
        }
        let mut start: usize = 0;
        let mut i: usize = 0;
        while i < rope.chunks.len() && start < end_offset
            invariant
                cs == rope.chunk_texts(),
                t == concat_chunks(cs),
                t == rope@,
                valid_utf8(t),
                all_valid(cs),
                forall|k: int| 0 <= k < rope.chunks@.len() ==> (#[trigger] rope.chunks@[k]).wf(),
                t.len() <= usize::MAX,
                offset <= end_offset <= t.len(),
                text_boundary(t, offset as int),
                text_boundary(t, end_offset as int),
                prefixes_fit_u32(t, offset as int, end_offset as int),
                i <= rope.chunks@.len(),
                start == chunk_start(cs, i as int),
                summary == D::of_metrics(
                    text_metrics(
                        t.subrange(
                            offset as int,
                            clamp(start as int, offset as int, end_offset as int),
                        ),
                    ),
                ),
            decreases rope.chunks@.len() - i,
        {
            let chunk = &rope.chunks[i];
            let len = chunk.as_slice().len();
            proof {
                chunk.lemma_wf_len();
                lemma_take_step(cs, i as int);
                lemma_prefix(cs, i + 1);
                assert(cs[i as int] == chunk@);
            }
            let end = start + len;
            if end > offset {
                let lo: usize = if offset > start {
                    offset - start
                } else {
                    0
                };
                let hi: usize = if end_offset < end {
                    end_offset - start
                } else {
                    len
                };
                let ghost b = chunk@;
                proof {
                    // both ends of the piece are character boundaries of the chunk
                    assert((lo as u32) as int == lo as int);
                    assert((hi as u32) as int == hi as int);
                    if lo > 0 {
                        lemma_index(cs, i as int, lo as int);
                    } else if b.len() > 0 {
                        lemma_valid_first_byte(b);
                    }
                    assert(chunk_boundary(b, lo));
                    if hi < b.len() {
                        lemma_index(cs, i as int, hi as int);
                    }
                    assert(chunk_boundary(b, hi));
                    assert(slice_start(b, lo..hi) == lo);
                    assert(slice_end(b, lo..hi) == hi);
                }
                let piece = D::from_chunk(chunk.slice(lo..hi));
                proof {
                    let a = start + lo;
                    let z = start + hi;
                    lemma_piece(cs, i as int, lo as int, hi as int);
                    lemma_chunk_start_boundary(cs, i as int);
                    lemma_chunk_start_boundary(cs, i + 1);
                    lemma_valid_between(t, a, z);
                    assert(clamp(start as int, offset as int, end_offset as int) == a);
                    let prefix = t.subrange(offset as int, a);
                    let part = t.subrange(a, z);
                    assert(t.subrange(offset as int, z) =~= prefix + part);
                    assert(text_boundary(t, a));
                    assert(text_boundary(t, z));
                    assert(metrics_fit_u32(text_metrics(t.subrange(offset as int, a))));
                    assert(metrics_fit_u32(text_metrics(t.subrange(offset as int, z))));
                    lemma_metrics_bounded(part);
                    D::lemma_concat(prefix, part);
                }
                summary.add_assign(&piece);
                proof {
                    assert(clamp(end as int, offset as int, end_offset as int) == start + hi);
                }
            }
            start = end;
            i += 1;
        }
        proof {
            if i == rope.chunks@.len() {
                assert(cs.take(i as int) =~= cs);
            }
            assert(clamp(start as int, offset as int, end_offset as int) == end_offset);
        }
        self.offset = end_offset;
        summary
    }
}

impl Rope {
    /// A cursor at `offset`.
    pub fn cursor(&self, offset: usize) -> (r: Cursor<'_>)
        ensures
            r.text() == self@,
            r.position() == offset,
    {
        Cursor::new(self, offset)
    }
}

/// A measure of text that adds up along the text (its length, its summary, ...).
pub trait TextDimension: Copy {
    /// The measure of a text whose summary is `m`.
    spec fn of_metrics(m: TextMetrics) -> Self;

    /// Adding `other` to `self` stays within the measure's integer widths.
    spec fn add_fits(&self, other: &Self) -> bool;

    /// The measure of a text followed by another.
    spec fn add_spec(&self, other: &Self) -> Self;

    fn from_text_summary(summary: &TextSummary) -> (r: Self)
        ensures
            r == Self::of_metrics(summary@),
    ;

    fn from_chunk(chunk: ChunkSlice) -> (r: Self)
        ensures
            r == Self::of_metrics(text_metrics(chunk@)),
    ;

    fn add_assign(&mut self, other: &Self)
        requires
            old(self).add_fits(other),
        ensures
            *final(self) == old(self).add_spec(other),
    ;

    /// The measure of a text followed by a valid UTF-8 text is the sum of the two
    /// measures, and the sum fits, when the line and row counts of both texts and of the
    /// two together fit in `u32`.
    proof fn lemma_concat(x: Seq<u8>, y: Seq<u8>)
        requires
            valid_utf8(y),
            x.len() + y.len() <= usize::MAX,
            metrics_fit_u32(text_metrics(x)),
            metrics_fit_u32(text_metrics(y)),
            metrics_fit_u32(text_metrics(x + y)),
        ensures
            Self::of_metrics(text_metrics(x)).add_fits(&Self::of_metrics(text_metrics(y))),
            Self::of_metrics(text_metrics(x + y)) == Self::of_metrics(text_metrics(x)).add_spec(
                &Self::of_metrics(text_metrics(y)),
            ),
    ;
}

/// The summary whose fields hold the metrics `m`.
pub open spec fn summary_of(m: TextMetrics) -> TextSummary {
    TextSummary {
        len: m.len as usize,
        chars: m.chars as usize,
        len_utf16: crate::point::OffsetUtf16(m.len_utf16 as usize),
        lines: crate::point::Point { row: m.rows as u32, column: m.column as u32 },
        first_line_chars: m.first_line_chars as u32,
        last_line_chars: m.last_line_chars as u32,
        last_line_len_utf16: m.last_line_len_utf16 as u32,
        longest_row: m.longest_row as u32,
        longest_row_chars: m.longest_row_chars as u32,
    }
}

impl TextDimension for TextSummary {
    open spec fn of_metrics(m: TextMetrics) -> Self {
        summary_of(m)
    }

    open spec fn add_fits(&self, other: &Self) -> bool {
        summary_add_fits(self@, other@)
    }

    open spec fn add_spec(&self, other: &Self) -> Self {
        summary_of(metrics_add(self@, other@))
    }

    fn from_text_summary(summary: &TextSummary) -> (r: Self) {
        *summary
    }

    fn from_chunk(chunk: ChunkSlice) -> (r: Self) {
        chunk.text_summary()
    }

    fn add_assign(&mut self, other: &Self) {
        TextSummary::add_assign(self, other);
    }

    proof fn lemma_concat(x: Seq<u8>, y: Seq<u8>) {
        lemma_summary_add_fits_when_sum_fits(x, y);
        text_metrics_concat(x, y);
        lemma_metrics_bounded(x);
        lemma_metrics_bounded(y);
        lemma_metrics_bounded(x + y);
    }
}

} // verus!
