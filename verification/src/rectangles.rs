//! Axis-aligned rectangles with integer side lengths.

use vstd::prelude::*;

verus! {

/// The mathematical extent of a rectangle: its two side lengths.
pub struct Extent {
    pub width: nat,
    pub height: nat,
}

/// A rectangle given by its width and its height.
#[derive(Debug)]
pub struct Rectangle {
    width: u32,
    height: u32,
}

impl View for Rectangle {
    type V = Extent;

    closed spec fn view(&self) -> Extent {
        Extent { width: self.width as nat, height: self.height as nat }
    }
}

/// The surface covered by an extent.
pub open spec fn area_of(e: Extent) -> nat {
    e.width * e.height
}

/// Whether `outer` is strictly larger than `inner` in both directions.
pub open spec fn holds(outer: Extent, inner: Extent) -> bool {
    outer.height > inner.height && outer.width > inner.width
}

impl Rectangle {
    /// A rectangle with the given side lengths.
    pub fn new(width: u32, height: u32) -> (r: Self)
        ensures
            r@ == (Extent { width: width as nat, height: height as nat }),
    {
        Self { width: width, height: height }
    }

    /// A rectangle whose two sides have the same length.
    pub fn square(size: u32) -> (r: Self)
        ensures
            r@ == (Extent { width: size as nat, height: size as nat }),
    {
        Self::new(size, size)
    }

    /// The product of the two side lengths. It has to fit in a `u32`.
    pub fn area(&self) -> (a: u32)
        requires
            area_of(self@) <= u32::MAX,
        ensures
            a == area_of(self@),
    {
        self.width * self.height
    }

    /// True exactly when `other` fits strictly inside `self`: both sides of
    /// `self` are longer than the matching sides of `other`.
    pub fn can_hold(&self, other: &Rectangle) -> (b: bool)
        ensures
            b == holds(self@, other@),
    {
        self.height > other.height && self.width > other.width
    }
}

/// The side lengths of a rectangle always fit in a `u32`.
pub proof fn lemma_extent_bounded(r: Rectangle)
    ensures
        r@.width <= u32::MAX,
        r@.height <= u32::MAX,
{
}

/// Containment is transitive, and no rectangle holds itself.
pub proof fn lemma_holds_strict_order(a: Extent, b: Extent, c: Extent)
    ensures
        !holds(a, a),
        holds(a, b) && holds(b, c) ==> holds(a, c),
        holds(a, b) ==> !holds(b, a),
{
}

/// A rectangle that holds another covers strictly more surface.
pub proof fn lemma_holds_larger_area(a: Extent, b: Extent)
    requires
        holds(a, b),
    ensures
        area_of(a) > area_of(b),
{
    assert(a.width * a.height > b.width * b.height) by (nonlinear_arith)
        requires
            a.width > b.width,
            a.height > b.height,
    ;
}

} // verus!
