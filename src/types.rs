use vstd::prelude::*;
use std::rc::Rc;

verus! {

/// An axis-aligned rectangle: signed origin, unsigned extent.
#[derive(PartialEq, Eq, Clone, Copy, Hash, Debug, Structural)]
pub struct Rect {
    pub x: i32,
    pub y: i32,
    pub w: u16,
    pub h: u16,
}

impl Rect {
    /// Moves the rectangle by `(x, y)`.
    pub fn translate(&mut self, x: i32, y: i32)
        requires
            i32::MIN <= old(self).x + x <= i32::MAX,
            i32::MIN <= old(self).y + y <= i32::MAX,
        ensures
            *final(self) == (Rect { x: (old(self).x + x) as i32, y: (old(self).y + y) as i32, ..*old(self) }),
    {
        self.x += x;
        self.y += y;
    }
}

/// A signed 2D integer point.
#[derive(PartialEq, Eq, Clone, Copy, Hash, Debug, Structural)]
pub struct Vec2i(pub i32, pub i32);

/// A premultiplied RGBA8 colour.
#[derive(PartialEq, Eq, Clone, Copy, Hash, Debug, Structural)]
pub struct Rgba(pub u8, pub u8, pub u8, pub u8);

/// Relies on Rc::clone, which returns a new pointer to the same value.
#[verifier::external_body]
pub(crate) fn share<T>(rc: &Rc<T>) -> (r: Rc<T>)
    ensures
        r == *rc,
{
    Rc::clone(rc)
}

/// Channel `c` (0 = red .. 3 = alpha) of a colour.
pub open spec fn channel(col: Rgba, c: int) -> u8 {
    if c == 0 {
        col.0
    } else if c == 1 {
        col.1
    } else if c == 2 {
        col.2
    } else {
        col.3
    }
}

} // verus!
