//! Moving a window by dragging its title bar: a left press arms a move, releasing the
//! button or pressing outside disarms it, and the next pointer move starts one window move.
use vstd::prelude::*;

verus! {

/// What the pointer did over the title bar.
#[derive(Copy, Clone, Debug, PartialEq, Eq, Structural)]
pub enum DragEvent {
    /// The left button went down on the title bar.
    LeftMouseDown,
    /// The left button went up on the title bar.
    LeftMouseUp,
    /// A button went down outside the title bar.
    MouseDownOutside,
    /// The pointer moved over the title bar.
    MouseMove,
}

/// Whether a move is armed after `event`, and whether the window starts moving now.
pub open spec fn drag_step_spec(should_move: bool, event: DragEvent) -> (bool, bool) {
    match event {
        DragEvent::LeftMouseDown => (true, false),
        DragEvent::LeftMouseUp => (false, false),
        DragEvent::MouseDownOutside => (false, false),
        DragEvent::MouseMove => (false, should_move),
    }
}

/// Whether a move is armed after `event`, and whether the window starts moving now: a
/// pointer move starts a move exactly when one is armed, and disarms it.
pub fn title_bar_drag_step(should_move: bool, event: DragEvent) -> (r: (bool, bool))
    ensures
        r == drag_step_spec(should_move, event),
{
    match event {
        DragEvent::LeftMouseDown => (true, false),
        DragEvent::LeftMouseUp => (false, false),
        DragEvent::MouseDownOutside => (false, false),
        DragEvent::MouseMove => {
            if should_move {
                (false, true)
            } else {
                (false, false)
            }
        },
    }
}

/// How many window moves a run of events starts, from the armed state `should_move`.
pub open spec fn moves_started(should_move: bool, events: Seq<DragEvent>) -> nat
    decreases events.len(),
{
    if events.len() == 0 {
        0
    } else {
        let (next, starts) = drag_step_spec(should_move, events[0]);
        (if starts {
            1nat
        } else {
            0nat
        }) + moves_started(next, events.drop_first())
    }
}

/// A run of events without a left press on the title bar starts at most one window move,
/// and none when no move is armed at its start.
pub proof fn one_move_per_press(should_move: bool, events: Seq<DragEvent>)
    requires
        forall|i: int| 0 <= i < events.len() ==> events[i] != DragEvent::LeftMouseDown,
    ensures
        moves_started(should_move, events) <= 1,
        !should_move ==> moves_started(should_move, events) == 0,
    decreases events.len(),
{
    if events.len() > 0 {
        let rest = events.drop_first();
        assert forall|i: int| 0 <= i < rest.len() implies rest[i] != DragEvent::LeftMouseDown by {
            assert(rest[i] == events[i + 1]);
        }
        let (next, _) = drag_step_spec(should_move, events[0]);
        assert(!next);
        one_move_per_press(next, rest);
    }
}

} // verus!
