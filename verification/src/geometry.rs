//! Points, sizes and rectangles, each in the coordinate space named by its type.
use crate::scalar::{Arith, Scalar};
use std::marker::PhantomData;
use vstd::prelude::*;

verus! {

/// The space that all outputs are laid out in.
#[derive(Clone, Copy, Debug, PartialEq, Eq)]
pub struct Global;

/// The space of one output, with its origin at the output's corner.
#[derive(Clone, Copy, Debug, PartialEq, Eq)]
pub struct Local;

/// The space of the pixels of one output.
#[derive(Clone, Copy, Debug, PartialEq, Eq)]
pub struct Physical;

/// A point in the space `K`.
#[derive(Debug)]
pub struct Point<S, K> {
    pub x: S,
    pub y: S,
    pub space: PhantomData<K>,
}

/// A width and a height in the space `K`.
#[derive(Debug)]
pub struct Size<S, K> {
    pub w: S,
    pub h: S,
    pub space: PhantomData<K>,
}

/// A rectangle in the space `K`.
#[derive(Debug)]
pub struct Rectangle<S, K> {
    pub loc: Point<S, K>,
    pub size: Size<S, K>,
}

impl<S: Copy, K> Clone for Point<S, K> {
    fn clone(&self) -> (result: Self)
        ensures
            result == *self,
    {
        *self
    }
}

impl<S: Copy, K> Copy for Point<S, K> {

}

impl<S: Copy, K> Clone for Size<S, K> {
    fn clone(&self) -> (result: Self)
        ensures
            result == *self,
    {
        *self
    }
}

impl<S: Copy, K> Copy for Size<S, K> {

}

impl<S: Copy, K> Clone for Rectangle<S, K> {
    fn clone(&self) -> (result: Self)
        ensures
            result == *self,
    {
        *self
    }
}

impl<S: Copy, K> Copy for Rectangle<S, K> {

}

/// The point with these coordinates.
pub open spec fn point<S, K>(x: S, y: S) -> Point<S, K> {
    Point { x, y, space: PhantomData }
}

/// The size with these extents.
pub open spec fn extent<S, K>(w: S, h: S) -> Size<S, K> {
    Size { w, h, space: PhantomData }
}

impl<A: Arith, K> Point<A, K> {
    /// This point moved by `other`.
    pub open spec fn plus(self, other: Self) -> Self {
        point(self.x.plus(other.x), self.y.plus(other.y))
    }

    /// The way from `other` to this point.
    pub open spec fn minus(self, other: Self) -> Self {
        point(self.x.minus(other.x), self.y.minus(other.y))
    }

    /// Both coordinates multiplied by `factor`.
    pub open spec fn upscaled(self, factor: A) -> Self {
        point(self.x.times(factor), self.y.times(factor))
    }

    /// Both coordinates divided by `factor`.
    pub open spec fn downscaled(self, factor: A) -> Self {
        point(self.x.over(factor), self.y.over(factor))
    }

    /// Whether the coordinates agree.
    pub open spec fn same(self, other: Self) -> bool {
        self.x.same(other.x) && self.y.same(other.y)
    }

    /// The point on the way from `from` to `to`, coordinate by coordinate.
    pub open spec fn eased(from: Self, to: Self, elapsed: u64, duration: u64) -> Self {
        point(
            A::eased(from.x, to.x, elapsed, duration),
            A::eased(from.y, to.y, elapsed, duration),
        )
    }
}

impl<A: Arith, K> Rectangle<A, K> {
    /// Location and size divided by `factor`.
    pub open spec fn downscaled(self, factor: A) -> Self {
        Rectangle {
            loc: self.loc.downscaled(factor),
            size: extent(self.size.w.over(factor), self.size.h.over(factor)),
        }
    }

    /// The rectangle without a border of width `margin` on every side.
    pub open spec fn shrunk(self, margin: A) -> Self {
        Rectangle {
            loc: point(self.loc.x.plus(margin), self.loc.y.plus(margin)),
            size: extent(
                self.size.w.minus(margin.plus(margin)),
                self.size.h.minus(margin.plus(margin)),
            ),
        }
    }

    /// The far horizontal edge.
    pub open spec fn right(self) -> A {
        self.loc.x.plus(self.size.w)
    }

    /// The far vertical edge.
    pub open spec fn bottom(self) -> A {
        self.loc.y.plus(self.size.h)
    }

    /// Whether the point lies in the rectangle; the far edges are outside.
    pub open spec fn holds(self, p: Point<A, K>) -> bool {
        &&& self.loc.x.at_most(p.x)
        &&& p.x.below(self.right())
        &&& self.loc.y.at_most(p.y)
        &&& p.y.below(self.bottom())
    }
}

impl<S, K> Point<S, K> {
    /// The point with these coordinates.
    pub fn new(x: S, y: S) -> (result: Self)
        ensures
            result == point::<S, K>(x, y),
    {
        Point { x, y, space: PhantomData }
    }
}

impl<S, K> Size<S, K> {
    /// The size with these extents.
    pub fn new(w: S, h: S) -> (result: Self)
        ensures
            result == extent::<S, K>(w, h),
    {
        Size { w, h, space: PhantomData }
    }
}

impl<S, K> Rectangle<S, K> {
    /// The rectangle with this corner and this size.
    pub fn new(loc: Point<S, K>, size: Size<S, K>) -> (result: Self)
        ensures
            result.loc == loc,
            result.size == size,
    {
        Rectangle { loc, size }
    }
}

impl<S: Scalar, K> Point<S, K> {
    /// This point moved by `other`.
    pub fn add(self, other: Self) -> (result: Self)
        ensures
            result == self.plus(other),
    {
        Point::new(self.x.add(other.x), self.y.add(other.y))
    }

    /// The way from `other` to this point.
    pub fn sub(self, other: Self) -> (result: Self)
        ensures
            result == self.minus(other),
    {
        Point::new(self.x.sub(other.x), self.y.sub(other.y))
    }

    /// Both coordinates multiplied by `factor`.
    pub fn upscale(self, factor: S) -> (result: Self)
        ensures
            result == self.upscaled(factor),
    {
        Point::new(self.x.mul(factor), self.y.mul(factor))
    }

    /// Both coordinates divided by `factor`.
    pub fn downscale(self, factor: S) -> (result: Self)
        ensures
            result == self.downscaled(factor),
    {
        Point::new(self.x.div(factor), self.y.div(factor))
    }

    /// Whether the coordinates agree.
    pub fn eq(self, other: Self) -> (result: bool)
        ensures
            result == self.same(other),
    {
        self.x.eq(other.x) && self.y.eq(other.y)
    }

    /// The point on the way from `from` to `to`, coordinate by coordinate.
    pub fn ease(from: Self, to: Self, elapsed: u64, duration: u64) -> (result: Self)
        ensures
            result == Self::eased(from, to, elapsed, duration),
    {
        Point::new(
            S::ease(from.x, to.x, elapsed, duration),
            S::ease(from.y, to.y, elapsed, duration),
        )
    }

    /// The nearest point with whole coordinates.
    pub fn to_i32_round(self) -> (result: Point<i32, K>)
        ensures
            result == point::<i32, K>(self.x.nearest().integer(), self.y.nearest().integer()),
    {
        Point::new(self.x.round().to_i32(), self.y.round().to_i32())
    }
}

impl<S: Scalar, K> Rectangle<S, K> {
    /// Location and size divided by `factor`.
    pub fn downscale(self, factor: S) -> (result: Self)
        ensures
            result == self.downscaled(factor),
    {
        Rectangle::new(
            self.loc.downscale(factor),
            Size::new(self.size.w.div(factor), self.size.h.div(factor)),
        )
    }

    /// The rectangle without a border of width `margin` on every side.
    pub fn shrink(self, margin: S) -> (result: Self)
        ensures
            result == self.shrunk(margin),
    {
        let both = margin.add(margin);
        Rectangle::new(
            Point::new(self.loc.x.add(margin), self.loc.y.add(margin)),
            Size::new(self.size.w.sub(both), self.size.h.sub(both)),
        )
    }

    /// Whether the point lies in the rectangle; the far edges are outside.
    pub fn contains(self, p: Point<S, K>) -> (result: bool)
        ensures
            result == self.holds(p),
    {
        self.loc.x.le(p.x) && p.x.lt(self.loc.x.add(self.size.w)) && self.loc.y.le(p.y) && p.y.lt(
            self.loc.y.add(self.size.h),
        )
    }
}

/// Where an output lies in the global space and how large it is there.
#[derive(Clone, Copy, Debug)]
pub struct Output {
    pub loc: Point<i32, Global>,
    pub size: Size<i32, Global>,
}

impl Output {
    /// The output's corner in the global space.
    pub open spec fn corner<A: Arith>(self) -> Point<A, Global> {
        point(A::whole(self.loc.x as i64), A::whole(self.loc.y as i64))
    }

    /// The area of the output in the global space.
    pub open spec fn global_area<A: Arith>(self) -> Rectangle<A, Global> {
        Rectangle {
            loc: self.corner(),
            size: extent(A::whole(self.size.w as i64), A::whole(self.size.h as i64)),
        }
    }

    /// A global point seen from the output's corner.
    pub open spec fn localized<A: Arith>(self, p: Point<A, Global>) -> Point<A, Local> {
        point(p.x.minus(self.corner::<A>().x), p.y.minus(self.corner::<A>().y))
    }

    /// A point of the output in the global space.
    pub open spec fn globalized<A: Arith>(self, p: Point<A, Local>) -> Point<A, Global> {
        point(p.x.plus(self.corner::<A>().x), p.y.plus(self.corner::<A>().y))
    }

    /// The area of the output in its own space.
    pub open spec fn local_area<A: Arith>(self) -> Rectangle<A, Local> {
        let area = self.global_area::<A>();
        Rectangle { loc: self.localized(area.loc), size: extent(area.size.w, area.size.h) }
    }

    /// The area of the output in the global space.
    pub fn geometry<S: Scalar>(&self) -> (result: Rectangle<S, Global>)
        ensures
            result == self.global_area::<S>(),
    {
        Rectangle::new(
            Point::new(S::from_int(self.loc.x as i64), S::from_int(self.loc.y as i64)),
            Size::new(S::from_int(self.size.w as i64), S::from_int(self.size.h as i64)),
        )
    }

    /// The area of the output in its own space.
    pub fn local_geometry<S: Scalar>(&self) -> (result: Rectangle<S, Local>)
        ensures
            result == self.local_area::<S>(),
    {
        let area: Rectangle<S, Global> = self.geometry();
        Rectangle::new(self.to_local(area.loc), Size::new(area.size.w, area.size.h))
    }

    /// A global point seen from the output's corner.
    pub fn to_local<S: Scalar>(&self, p: Point<S, Global>) -> (result: Point<S, Local>)
        ensures
            result == self.localized(p),
    {
        let corner: Point<S, Global> = self.geometry().loc;
        Point::new(p.x.sub(corner.x), p.y.sub(corner.y))
    }

    /// A point of the output in the global space.
    pub fn to_global<S: Scalar>(&self, p: Point<S, Local>) -> (result: Point<S, Global>)
        ensures
            result == self.globalized(p),
    {
        let corner: Point<S, Global> = self.geometry().loc;
        Point::new(p.x.add(corner.x), p.y.add(corner.y))
    }
}

} // verus!
