//! A triple of corners in counterclockwise order.

use vstd::prelude::*;

verus! {

/// Three corners `u`, `v`, `w` in counterclockwise order.
#[derive(Clone, Hash, PartialEq, Eq, Debug)]
pub struct Triangle<T: Clone> {
    pub u: T,
    pub v: T,
    pub w: T,
}

impl<T: Clone> Triangle<T> {
    /// The triangle with the three given corners.
    pub fn new(u: T, v: T, w: T) -> (triangle: Self)
        ensures
            triangle.u == u,
            triangle.v == v,
            triangle.w == w,
    {
        Self { u, v, w }
    }
}

} // verus!
