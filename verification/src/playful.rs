//! The peeking character in the corner of the page: which way it looks
//! follows the cursor.
use vstd::prelude::*;

verus! {

/// A point in whole pixels.
#[derive(Clone, Copy, Debug, PartialEq, Eq, Structural, Default)]
pub struct IVec2 {
    pub x: i32,
    pub y: i32,
}

/// A rectangle given by its least and greatest corners.
#[derive(Clone, Copy, Debug, PartialEq, Eq, Structural, Default)]
pub struct IRect {
    pub min: IVec2,
    pub max: IVec2,
}

/// Where the cursor is, in pixels from the top left of the window.
#[derive(Clone, Copy, Debug, PartialEq, Eq, Structural, Default)]
pub struct CursorPos {
    pub pos: IVec2,
}

/// The picture of the character that shows which way it looks.
#[derive(Clone, Copy, Debug, PartialEq, Eq, Structural)]
pub enum Peek {
    TopLeft,
    TopRight,
    Up,
    Left,
    Right,
    Front,
}

/// How many times its natural size the character is drawn.
pub const PEEK_SCALE: i32 = 6;

pub open spec fn min_i(a: i32, b: i32) -> i32 {
    if a <= b { a } else { b }
}

pub open spec fn max_i(a: i32, b: i32) -> i32 {
    if a >= b { a } else { b }
}

/// Where the character stands, from the bottom left of the window.
pub fn peek_pos() -> (p: IVec2)
    ensures
        p == (IVec2 { x: 40, y: 0 }),
{
    IVec2 { x: 40, y: 0 }
}

impl IRect {
    /// The rectangle with these two opposite corners.
    pub fn from_corners(p0: IVec2, p1: IVec2) -> (r: IRect)
        ensures
            r.min == (IVec2 { x: min_i(p0.x, p1.x), y: min_i(p0.y, p1.y) }),
            r.max == (IVec2 { x: max_i(p0.x, p1.x), y: max_i(p0.y, p1.y) }),
    {
        IRect {
            min: IVec2 {
                x: if p0.x <= p1.x { p0.x } else { p1.x },
                y: if p0.y <= p1.y { p0.y } else { p1.y },
            },
            max: IVec2 {
                x: if p0.x >= p1.x { p0.x } else { p1.x },
                y: if p0.y >= p1.y { p0.y } else { p1.y },
            },
        }
    }

    /// The smallest rectangle holding this one and the point.
    pub fn union_point(&self, p: IVec2) -> (r: IRect)
        ensures
            r.min == (IVec2 { x: min_i(self.min.x, p.x), y: min_i(self.min.y, p.y) }),
            r.max == (IVec2 { x: max_i(self.max.x, p.x), y: max_i(self.max.y, p.y) }),
    {
        IRect {
            min: IVec2 {
                x: if self.min.x <= p.x { self.min.x } else { p.x },
                y: if self.min.y <= p.y { self.min.y } else { p.y },
            },
            max: IVec2 {
                x: if self.max.x >= p.x { self.max.x } else { p.x },
                y: if self.max.y >= p.y { self.max.y } else { p.y },
            },
        }
    }
}

/// The rectangle the drawn character covers, from the bottom left of the
/// window, for a picture of `width` by `height` pixels: from where it stands
/// to that corner plus the picture scaled up.
pub fn peek_rect(width: i32, height: i32) -> (r: IRect)
    requires
        i32::MIN <= 40 + width * PEEK_SCALE <= i32::MAX,
        i32::MIN <= height * PEEK_SCALE <= i32::MAX,
        i32::MIN <= width * PEEK_SCALE,
    ensures
        r.min == (IVec2 { x: min_i(40, (40 + width * 6) as i32), y: min_i(0, (height * 6) as i32) }),
        r.max == (IVec2 { x: max_i(40, (40 + width * 6) as i32), y: max_i(0, (height * 6) as i32) }),
{
    let pos = peek_pos();
    let start = IRect::from_corners(pos, pos);
    let w = width * PEEK_SCALE;
    let h = height * PEEK_SCALE;
    start.union_point(IVec2 { x: pos.x + w, y: pos.y + h })
}

/// Which way the character looks for a cursor at (`x`, `y`), `y` counted
/// from the bottom: above the rectangle it looks up, to the upper left or
/// upper right; beside it, left or right; else it looks ahead.
pub open spec fn peek_for(x: int, y: int, rect: IRect) -> Peek {
    if x <= rect.min.x && y >= rect.max.y {
        Peek::TopLeft
    } else if x >= rect.max.x && y >= rect.max.y {
        Peek::TopRight
    } else if x >= rect.min.x && x <= rect.max.x && y >= rect.max.y {
        Peek::Up
    } else if x <= rect.min.x {
        Peek::Left
    } else if x >= rect.max.x {
        Peek::Right
    } else {
        Peek::Front
    }
}

/// The picture for the cursor in a window `window_height` pixels high and
/// the rectangle the character covers.
pub fn peek_sprite(cursor: CursorPos, window_height: i32, rect: IRect) -> (p: Peek)
    requires
        i32::MIN <= window_height - cursor.pos.y <= i32::MAX,
    ensures
        p == peek_for(cursor.pos.x as int, window_height - cursor.pos.y, rect),
{
    let x = cursor.pos.x;
    let y = window_height - cursor.pos.y;
    if x <= rect.min.x && y >= rect.max.y {
        Peek::TopLeft
    } else if x >= rect.max.x && y >= rect.max.y {
        Peek::TopRight
    } else if x >= rect.min.x && x <= rect.max.x && y >= rect.max.y {
        Peek::Up
    } else if x <= rect.min.x {
        Peek::Left
    } else if x >= rect.max.x {
        Peek::Right
    } else {
        Peek::Front
    }
}

} // verus!
