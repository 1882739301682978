use evk::chunk::{ceil_char_boundary, floor_char_boundary, Chunk};
use evk::point::{OffsetUtf16, Point, PointUtf16};
use evk::summary::{ChunkSummary, TextSummary};

#[test]
fn chunk_lines_and_lengths() {
    let chunk = Chunk::new("hello\nworld!");
    let s = chunk.as_slice();
    assert_eq!(s.len(), 12);
    assert_eq!(s.len_utf16(), OffsetUtf16(12));
    assert_eq!(s.lines(), Point::new(1, 6));
    assert_eq!(s.first_line_chars(), 5);
    assert_eq!(s.last_line_chars(), 6);
    assert_eq!(s.last_line_len_utf16(), 6);
}

#[test]
fn chunk_multibyte_counts() {
    // 'é' is two UTF-8 bytes and one UTF-16 unit; '😀' is four bytes and two units.
    let chunk = Chunk::new("é😀\nab");
    let s = chunk.as_slice();
    assert_eq!(s.len(), 9);
    assert_eq!(s.len_utf16(), OffsetUtf16(6));
    assert_eq!(s.first_line_chars(), 2);
    assert_eq!(s.last_line_chars(), 2);
    assert_eq!(s.last_line_len_utf16(), 2);
    assert_eq!(s.lines(), Point::new(1, 2));
}

#[test]
fn chunk_char_boundaries() {
    let chunk = Chunk::new("aé😀");
    assert!(chunk.is_char_boundary(0));
    assert!(chunk.is_char_boundary(1));
    assert!(!chunk.is_char_boundary(2));
    assert!(chunk.is_char_boundary(3));
    assert!(!chunk.is_char_boundary(4));
    assert!(!chunk.is_char_boundary(5));
    assert!(!chunk.is_char_boundary(6));
    assert!(chunk.is_char_boundary(7));
    assert!(!chunk.is_char_boundary(8));
    assert!(chunk.assert_char_boundary::<false>(3));
    assert!(!chunk.assert_char_boundary::<false>(2));
    assert!(chunk.as_slice().is_char_boundary(7));
    assert!(!chunk.as_slice().assert_char_boundary::<false>(5));
}

#[test]
fn chunk_offset_to_point() {
    let chunk = Chunk::new("ab\ncdé\nf");
    let s = chunk.as_slice();
    assert_eq!(s.offset_to_point(0), Point::new(0, 0));
    assert_eq!(s.offset_to_point(2), Point::new(0, 2));
    assert_eq!(s.offset_to_point(3), Point::new(1, 0));
    assert_eq!(s.offset_to_point(7), Point::new(1, 4));
    assert_eq!(s.offset_to_point(9), Point::new(2, 1));
    assert_eq!(s.offset_to_point_utf16(7), PointUtf16::new(1, 3));
    assert_eq!(s.offset_to_point_utf16(9), PointUtf16::new(2, 1));
}

#[test]
fn chunk_longest_row_and_summary() {
    let chunk = Chunk::new("a\nlonger line\nmid\n");
    let s = chunk.as_slice();
    let mut total = 0usize;
    let (row, chars) = s.longest_row(&mut total);
    assert_eq!((row, chars), (1, 11));
    assert_eq!(total, 18);
    let summary = s.text_summary();
    assert_eq!(summary.len, 18);
    assert_eq!(summary.chars, 18);
    assert_eq!(summary.lines, Point::new(3, 0));
    assert_eq!(summary.first_line_chars, 1);
    assert_eq!(summary.last_line_chars, 0);
    assert_eq!(summary.longest_row, 1);
    assert_eq!(summary.longest_row_chars, 11);
}

#[test]
fn chunk_slice_keeps_boundaries() {
    let chunk = Chunk::new("hé\nllo");
    let part = chunk.slice(1..5);
    assert_eq!(part.len(), 4);
    assert_eq!(part.lines(), Point::new(1, 1));
    // a range that starts inside 'é' starts at the next character
    let rounded = chunk.slice(2..6);
    assert_eq!(rounded.len(), 3);
    let empty = chunk.slice(128..128);
    assert_eq!(empty.len(), 0);
}

#[test]
fn chunk_text_and_clone() {
    let chunk = Chunk::new("text");
    let copy = chunk.clone();
    assert_eq!(copy.as_str(), "text");
    assert_eq!(Chunk::default().as_str(), "");
    assert_eq!(Chunk::new("").as_slice().len(), 0);
}

#[test]
fn str_char_boundaries() {
    let text = "aé😀b";
    assert_eq!(floor_char_boundary(text, 2), 1);
    assert_eq!(floor_char_boundary(text, 5), 3);
    assert_eq!(floor_char_boundary(text, 100), 8);
    assert_eq!(ceil_char_boundary(text, 2), 3);
    assert_eq!(ceil_char_boundary(text, 4), 7);
    assert_eq!(ceil_char_boundary(text, 100), 8);
}

#[test]
fn summaries_add_like_concatenated_text() {
    let a = Chunk::new("ab\ncdef");
    let b = Chunk::new("gh\ni");
    let whole = Chunk::new("ab\ncdefgh\ni");
    let mut sum: TextSummary = a.as_slice().text_summary();
    sum.add_assign(&b.as_slice().text_summary());
    assert_eq!(sum, whole.as_slice().text_summary());
    assert_eq!(sum.longest_row, 1);
    assert_eq!(sum.longest_row_chars, 6);

    let mut chunks = ChunkSummary::zero();
    chunks.add_summary(&ChunkSummary { text: a.as_slice().text_summary() });
    chunks.add_summary(&ChunkSummary { text: b.as_slice().text_summary() });
    assert_eq!(chunks.text, whole.as_slice().text_summary());
}

#[test]
fn points_add() {
    let mut p = Point::new(2, 5);
    p.add_assign(Point::new(0, 3));
    assert_eq!(p, Point::new(2, 8));
    p.add_assign(Point::new(1, 4));
    assert_eq!(p, Point::new(3, 4));
    let mut o = OffsetUtf16(3);
    o.add_assign(OffsetUtf16(4));
    assert_eq!(o, OffsetUtf16(7));
}
