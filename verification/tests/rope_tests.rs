use evk::chunk::Chunk;
use evk::point::Point;
use evk::rope::{Rope, TextDimension};
use evk::summary::TextSummary;

fn rope_of(parts: &[&str]) -> Rope {
    let mut rope = Rope::default();
    for part in parts {
        rope.push_chunk(Chunk::new(part));
    }
    rope
}

#[test]
fn rope_len_and_boundaries() {
    let rope = rope_of(&["ab", "é😀", "", "c\n"]);
    assert_eq!(rope.len(), 10);
    assert!(rope.assert_char_boundary::<false>(0));
    assert!(rope.assert_char_boundary::<false>(2));
    assert!(!rope.assert_char_boundary::<false>(3));
    assert!(rope.assert_char_boundary::<false>(4));
    assert!(!rope.assert_char_boundary::<false>(6));
    assert!(rope.assert_char_boundary::<false>(8));
    assert!(rope.assert_char_boundary::<false>(10));
    assert!(!rope.assert_char_boundary::<false>(11));
    assert!(rope.assert_char_boundary::<true>(4));
}

#[test]
fn empty_rope() {
    let rope = Rope::default();
    assert_eq!(rope.len(), 0);
    assert!(rope.assert_char_boundary::<false>(0));
    assert!(!rope.assert_char_boundary::<false>(1));
    assert_eq!(rope.floor_char_boundary(3), 0);
    assert_eq!(rope.ceil_char_boundary(0), 0);
}

#[test]
fn rope_floor_and_ceil() {
    let rope = rope_of(&["ab", "é😀", "c"]);
    assert_eq!(rope.floor_char_boundary(3), 2);
    assert_eq!(rope.floor_char_boundary(2), 2);
    assert_eq!(rope.floor_char_boundary(7), 4);
    assert_eq!(rope.floor_char_boundary(8), 8);
    assert_eq!(rope.floor_char_boundary(20), 9);
    assert_eq!(rope.ceil_char_boundary(3), 4);
    assert_eq!(rope.ceil_char_boundary(5), 8);
    assert_eq!(rope.ceil_char_boundary(9), 9);
    assert_eq!(rope.ceil_char_boundary(20), 9);
}

#[test]
fn rope_cursor_summaries() {
    let rope = rope_of(&["ab\nc", "de\nf", "ghi"]);
    let whole = Chunk::new("ab\ncde\nfghi");
    let mut cursor = rope.cursor(0);
    let all: TextSummary = cursor.summary(11);
    assert_eq!(all, whole.as_slice().text_summary());
    assert_eq!(all.lines, Point::new(2, 4));

    let mut cursor = rope.cursor(1);
    let first: TextSummary = cursor.summary(5);
    assert_eq!(first, Chunk::new("b\ncd").as_slice().text_summary());
    let rest: TextSummary = cursor.summary(11);
    assert_eq!(rest, Chunk::new("e\nfghi").as_slice().text_summary());
}

#[test]
fn rope_clone_keeps_text() {
    let rope = rope_of(&["a", "bc"]);
    let copy = rope.clone();
    assert_eq!(copy.len(), 3);
    assert_eq!(copy.floor_char_boundary(2), 2);
}

#[test]
fn text_summary_as_dimension() {
    let a = Chunk::new("ab\nc");
    let b = Chunk::new("de");
    let mut d = TextSummary::from_chunk(a.as_slice());
    TextDimension::add_assign(&mut d, &TextSummary::from_text_summary(&b.as_slice().text_summary()));
    assert_eq!(d, Chunk::new("ab\ncde").as_slice().text_summary());
}

#[test]
fn summaries_add_as_texts_join() {
    let a = Chunk::new("ab\ncdé");
    let b = Chunk::new("fg\nh");
    let joined = Chunk::new("ab\ncdéfg\nh");
    let mut x = a.as_slice().text_summary();
    x.add_assign(&b.as_slice().text_summary());
    assert_eq!(x, joined.as_slice().text_summary());
    assert_eq!(x.lines, Point::new(2, 1));
    assert_eq!(x.longest_row, 1);
}

#[test]
fn default_summary_is_identity() {
    let s = Chunk::new("one\ntwo\nthree").as_slice().text_summary();
    let mut left = TextSummary::default();
    left.add_assign(&s);
    assert_eq!(left, s);
    let mut right = s;
    right.add_assign(&TextSummary::default());
    assert_eq!(right, s);
}
