//! A rectangle of generic scalars, used to describe the output raster.

use vstd::prelude::*;

verus! {

pub struct Rect<T> {
    pub width: T,
    pub height: T,
    pub x: T,
    pub y: T,
}

impl<T> Rect<T> {
    /// Packs an origin and a size into a rectangle.
    pub fn new(x: T, y: T, width: T, height: T) -> (r: Self)
        ensures
            r.x == x,
            r.y == y,
            r.width == width,
            r.height == height,
    {
        Self { x, y, width, height }
    }
}

} // verus!
