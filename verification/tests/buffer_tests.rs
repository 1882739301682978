use evk::anchor::{Anchor, Bias, BufferId};
use evk::buffer::{BufferSnapshot, ToOffset};
use evk::chunk::Chunk;
use evk::clock::{Global, ReplicaId};
use evk::keybinds::{action_for_key, Action};
use evk::point::Point;
use evk::rope::Rope;
use evk::summary::TextSummary;
use evk::text_ops::LineEnding;

fn snapshot(parts: &[&str]) -> BufferSnapshot {
    let mut rope = Rope::default();
    for part in parts {
        rope.push_chunk(Chunk::new(part));
    }
    BufferSnapshot::new(
        rope,
        Global::default(),
        ReplicaId::new(0),
        LineEnding::Unix,
        BufferId::new(7).unwrap(),
    )
}

#[test]
fn offsets_snap_to_characters() {
    // "aé" then "😀b": a0 é1-2 😀3-6 b7
    let s = snapshot(&["aé", "😀b"]);
    assert_eq!(s.len(), 8);
    assert_eq!(s.as_rope().len(), 8);
    assert_eq!(1usize.to_offset(&s), 1);
    assert_eq!(2usize.to_offset(&s), 1);
    assert_eq!(5usize.to_offset(&s), 3);
    assert_eq!(8usize.to_offset(&s), 8);
    assert_eq!(42usize.to_offset(&s), 8);
    assert_eq!((&3usize).to_offset(&s), 3);
}

#[test]
fn next_and_previous_offsets() {
    let s = snapshot(&["aé", "😀b"]);
    assert_eq!(0usize.to_next_offset(&s), 1);
    assert_eq!(1usize.to_next_offset(&s), 3);
    assert_eq!(3usize.to_next_offset(&s), 7);
    assert_eq!(8usize.to_next_offset(&s), 8);
    assert_eq!(7usize.to_previous_offset(&s), 3);
    assert_eq!(3usize.to_previous_offset(&s), 1);
    assert_eq!(0usize.to_previous_offset(&s), 0);
}

#[test]
fn summaries_of_ranges() {
    let s = snapshot(&["ab\nc", "d\nef"]);
    let r: TextSummary = s.text_summary_for_range(1usize..7usize);
    assert_eq!(r, Chunk::new("b\ncd\ne").as_slice().text_summary());
    assert_eq!(r.lines, Point::new(2, 1));
}

#[test]
fn key_bindings() {
    assert_eq!(action_for_key(false, true, false, "o"), Some(Action::OpenFile));
    assert_eq!(action_for_key(false, true, false, "s"), Some(Action::SaveFile));
    assert_eq!(action_for_key(false, true, false, "t"), Some(Action::ToggleTheme));
    assert_eq!(action_for_key(false, true, false, "b"), Some(Action::ToggleTree));
    assert_eq!(action_for_key(false, true, true, "s"), Some(Action::SaveFileAs));
    assert_eq!(action_for_key(false, true, true, "o"), Some(Action::OpenFolder));
    assert_eq!(action_for_key(false, true, true, "t"), None);
    assert_eq!(action_for_key(false, false, false, "o"), None);
    assert_eq!(action_for_key(true, true, false, "o"), None);
    assert_eq!(action_for_key(false, true, false, "x"), None);
}

#[test]
fn anchors_resolve_to_their_offsets() {
    // a0 é1-2 😀3-6 b7
    let s = snapshot(&["aé", "😀b"]);
    for offset in [0usize, 1, 3, 7, 8] {
        let before = s.anchor_before(offset);
        let after = s.anchor_after(offset);
        assert_eq!(s.offset_for_anchor(&before), offset);
        assert_eq!(s.offset_for_anchor(&after), offset);
    }
    assert!(s.anchor_before(0usize).is_min());
    assert!(s.anchor_after(8usize).is_max());
    assert!(s.anchor_after(42usize).is_max());
    let a = s.anchor_after(3usize);
    assert_eq!(a.offset, 3);
    assert_eq!(a.bias, Bias::Right);
    assert_eq!(a.buffer_id.to_u64(), 7);
}

#[test]
fn anchors_inside_characters_lean_to_their_bias() {
    let s = snapshot(&["aé", "😀b"]);
    let left = s.anchor_at_offset(5, Bias::Left);
    assert_eq!(left.offset, 3);
    assert_eq!(s.offset_for_anchor(&left), 3);
    let right = s.anchor_at_offset(5, Bias::Right);
    assert_eq!(right.offset, 7);
    assert_eq!(s.offset_for_anchor(&right), 7);
    let past = s.anchor_at_offset(42, Bias::Left);
    assert_eq!(s.offset_for_anchor(&past), 8);
}

#[test]
fn start_and_end_anchors() {
    let s = snapshot(&["ab"]);
    let id = BufferId::new(7).unwrap();
    assert_eq!(s.offset_for_anchor(&Anchor::min_for_buffer(id)), 0);
    assert_eq!(s.offset_for_anchor(&Anchor::max_for_buffer(id)), 2);
    assert!(BufferId::new(0).is_none());
    let empty = snapshot(&[]);
    assert!(empty.anchor_after(0usize).is_max());
    assert!(empty.anchor_before(0usize).is_min());
    let summary: TextSummary = s.summary_for_anchor(&s.anchor_before(1usize));
    assert_eq!(summary.len, 1);
}
