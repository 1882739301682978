//! Anchoring boxes by a corner or an edge's midpoint.
use vstd::prelude::*;

verus! {

/// Identifies a reference point on a 2D box, used to anchor positioned elements.
#[derive(Clone, Copy, Debug, PartialEq, Eq, Structural)]
pub enum Anchor {
    /// The top left corner
    TopLeft,
    /// The top right corner
    TopRight,
    /// The bottom left corner
    BottomLeft,
    /// The bottom right corner
    BottomRight,
    /// The top center position
    TopCenter,
    /// The bottom center position
    BottomCenter,
    /// The left center position
    LeftCenter,
    /// The right center position
    RightCenter,
}

/// A direction in the plane.
#[derive(Clone, Copy, Debug, PartialEq, Eq, Structural)]
pub enum Axis {
    /// The y axis, from top to bottom
    Vertical,
    /// The x axis, from left to right
    Horizontal,
}

/// The reference point across from `a`, moving along `axis`: the top and bottom swap
/// along the vertical axis, the left and right along the horizontal one, and a centre
/// on the axis stays where it is.
pub open spec fn other_side(a: Anchor, axis: Axis) -> Anchor {
    match axis {
        Axis::Vertical => match a {
            Anchor::TopLeft => Anchor::BottomLeft,
            Anchor::TopRight => Anchor::BottomRight,
            Anchor::BottomLeft => Anchor::TopLeft,
            Anchor::BottomRight => Anchor::TopRight,
            Anchor::TopCenter => Anchor::BottomCenter,
            Anchor::BottomCenter => Anchor::TopCenter,
            Anchor::LeftCenter => Anchor::LeftCenter,
            Anchor::RightCenter => Anchor::RightCenter,
        },
        Axis::Horizontal => match a {
            Anchor::TopLeft => Anchor::TopRight,
            Anchor::TopRight => Anchor::TopLeft,
            Anchor::BottomLeft => Anchor::BottomRight,
            Anchor::BottomRight => Anchor::BottomLeft,
            Anchor::TopCenter => Anchor::TopCenter,
            Anchor::BottomCenter => Anchor::BottomCenter,
            Anchor::LeftCenter => Anchor::RightCenter,
            Anchor::RightCenter => Anchor::LeftCenter,
        },
    }
}

impl Anchor {
    /// Returns the corner across from this corner, moving along the specified axis.
    pub fn other_side_along(self, axis: Axis) -> (r: Self)
        ensures
            r == other_side(self, axis),
    {
        match axis {
            Axis::Vertical => match self {
                Anchor::TopLeft => Anchor::BottomLeft,
                Anchor::TopRight => Anchor::BottomRight,
                Anchor::BottomLeft => Anchor::TopLeft,
                Anchor::BottomRight => Anchor::TopRight,
                Anchor::TopCenter => Anchor::BottomCenter,
                Anchor::BottomCenter => Anchor::TopCenter,
                Anchor::LeftCenter => Anchor::LeftCenter,
                Anchor::RightCenter => Anchor::RightCenter,
            },
            Axis::Horizontal => match self {
                Anchor::TopLeft => Anchor::TopRight,
                Anchor::TopRight => Anchor::TopLeft,
                Anchor::BottomLeft => Anchor::BottomRight,
                Anchor::BottomRight => Anchor::BottomLeft,
                Anchor::TopCenter => Anchor::TopCenter,
                Anchor::BottomCenter => Anchor::BottomCenter,
                Anchor::LeftCenter => Anchor::RightCenter,
                Anchor::RightCenter => Anchor::LeftCenter,
            },
        }
    }
}

/// Moving to the other side twice along one axis comes back; moving along both axes
/// ends at the same place in either order.
pub proof fn other_side_laws(a: Anchor, axis: Axis)
    ensures
        other_side(other_side(a, axis), axis) == a,
        other_side(other_side(a, Axis::Vertical), Axis::Horizontal) == other_side(
            other_side(a, Axis::Horizontal),
            Axis::Vertical,
        ),
{
}

/// A point in device pixels.
#[derive(Clone, Copy, Debug, Default, PartialEq, Eq, Structural)]
pub struct Point<T> {
    pub x: T,
    pub y: T,
}

/// A width and a height in device pixels.
#[derive(Clone, Copy, Debug, Default, PartialEq, Eq, Structural)]
pub struct Size<T> {
    pub width: T,
    pub height: T,
}

/// A box: its top left corner and its size.
#[derive(Clone, Copy, Debug, Default, PartialEq, Eq, Structural)]
pub struct Bounds<T> {
    pub origin: Point<T>,
    pub size: Size<T>,
}

/// Half a length of device pixels, rounded toward zero.
pub open spec fn half(v: i32) -> int {
    if v >= 0 {
        v / 2
    } else {
        -((-v) / 2)
    }
}

/// The top left corner of a box of `size` whose `corner` stands at `origin`.
pub open spec fn anchored_origin(corner: Anchor, origin: Point<i32>, size: Size<i32>) -> (int, int) {
    let (x, y, w, h) = (origin.x as int, origin.y as int, size.width as int, size.height as int);
    match corner {
        Anchor::TopLeft => (x, y),
        Anchor::TopRight => (x - w, y),
        Anchor::BottomLeft => (x, y - h),
        Anchor::BottomRight => (x - w, y - h),
        Anchor::TopCenter => (x - half(size.width), y),
        Anchor::BottomCenter => (x - half(size.width), y - h),
        Anchor::LeftCenter => (x, y - half(size.height)),
        Anchor::RightCenter => (x - w, y - half(size.height)),
    }
}

/// The corner of an anchored box fits in device pixels.
pub open spec fn anchored_fits(corner: Anchor, origin: Point<i32>, size: Size<i32>) -> bool {
    let (x, y) = anchored_origin(corner, origin, size);
    i32::MIN <= x <= i32::MAX && i32::MIN <= y <= i32::MAX
}

fn half_of(v: i32) -> (r: i32)
    ensures
        r == half(v),
{
    v / 2
}

pub trait BoundsExt: Sized {
    /// Constructs a box from a reference point and a size; the reference point given by
    /// `corner` is placed at `origin`.
    fn from_anchor_and_size(corner: Anchor, origin: Point<i32>, size: Size<i32>) -> (r: Self)
        requires
            anchored_fits(corner, origin, size),
    ;
}

impl BoundsExt for Bounds<i32> {
    fn from_anchor_and_size(corner: Anchor, origin: Point<i32>, size: Size<i32>) -> (r: Self)
        ensures
            r.size == size,
            (r.origin.x as int, r.origin.y as int) == anchored_origin(corner, origin, size),
    {
        let origin = match corner {
            Anchor::TopLeft => origin,
            Anchor::TopRight => Point { x: origin.x - size.width, y: origin.y },
            Anchor::BottomLeft => Point { x: origin.x, y: origin.y - size.height },
            Anchor::BottomRight => Point { x: origin.x - size.width, y: origin.y - size.height },
            Anchor::TopCenter => Point { x: origin.x - half_of(size.width), y: origin.y },
            Anchor::BottomCenter => Point {
                x: origin.x - half_of(size.width),
                y: origin.y - size.height,
            },
            Anchor::LeftCenter => Point { x: origin.x, y: origin.y - half_of(size.height) },
            Anchor::RightCenter => Point {
                x: origin.x - size.width,
                y: origin.y - half_of(size.height),
            },
        };
        Bounds { origin, size }
    }
}

} // verus!
