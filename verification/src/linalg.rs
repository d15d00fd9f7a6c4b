//! Points and vectors of the three-dimensional space.
use crate::scalar::{fraction, lawful, minus, opposite, over, plus, root, times, vanishes, zero, Scalar};
use vstd::prelude::*;

verus! {

/// A pair of components.
#[derive(Clone, Copy, Debug, PartialEq, Eq)]
pub struct Vec2<T> {
    pub x: T,
    pub y: T,
}

/// A triple of components: a vector, or the three corners of a triangle.
#[derive(Clone, Copy, Debug, PartialEq, Eq)]
pub struct Vec3<T> {
    pub x: T,
    pub y: T,
    pub z: T,
}

/// A point.
#[derive(Clone, Copy, Debug, PartialEq, Eq)]
pub struct Pnt3<N> {
    pub x: N,
    pub y: N,
    pub z: N,
}

impl<T> Vec2<T> {
    pub fn new(x: T, y: T) -> (res: Self)
        ensures
            res == (Vec2 { x, y }),
    {
        Vec2 { x, y }
    }
}

impl<T> Vec3<T> {
    pub fn new(x: T, y: T, z: T) -> (res: Self)
        ensures
            res == (Vec3 { x, y, z }),
    {
        Vec3 { x, y, z }
    }
}

impl<N: Scalar> Vec3<N> {
    pub open spec fn null() -> Self {
        Vec3 { x: zero(), y: zero(), z: zero() }
    }

    pub open spec fn vanishes(self) -> bool {
        vanishes(self.x) && vanishes(self.y) && vanishes(self.z)
    }

    pub open spec fn opposite(self) -> Self {
        Vec3 { x: opposite(self.x), y: opposite(self.y), z: opposite(self.z) }
    }

    pub open spec fn times(self, s: N) -> Self {
        Vec3 { x: times(self.x, s), y: times(self.y, s), z: times(self.z, s) }
    }

    pub open spec fn over(self, s: N) -> Self {
        Vec3 { x: over(self.x, s), y: over(self.y, s), z: over(self.z, s) }
    }

    pub open spec fn scalar_product(self, o: Self) -> N {
        plus(plus(times(self.x, o.x), times(self.y, o.y)), times(self.z, o.z))
    }

    pub open spec fn vector_product(self, o: Self) -> Self {
        Vec3 {
            x: minus(times(self.y, o.z), times(self.z, o.y)),
            y: minus(times(self.z, o.x), times(self.x, o.z)),
            z: minus(times(self.x, o.y), times(self.y, o.x)),
        }
    }

    /// The Euclidean length.
    pub open spec fn length(self) -> N {
        root(self.scalar_product(self))
    }

    /// The zero vector.
    pub fn zero() -> (res: Self)
        requires
            lawful::<N>(),
        ensures
            res == Self::null(),
    {
        Vec3 { x: N::zero(), y: N::zero(), z: N::zero() }
    }

    /// Whether every component is zero.
    pub fn is_zero(&self) -> (res: bool)
        requires
            lawful::<N>(),
        ensures
            res == self.vanishes(),
    {
        self.x.is_zero() && self.y.is_zero() && self.z.is_zero()
    }

    /// The opposite vector.
    pub fn neg(&self) -> (res: Self)
        requires
            lawful::<N>(),
        ensures
            res == self.opposite(),
    {
        Vec3 { x: self.x.neg(), y: self.y.neg(), z: self.z.neg() }
    }

    /// The vector with every component multiplied by `s`.
    pub fn mul(&self, s: N) -> (res: Self)
        requires
            lawful::<N>(),
        ensures
            res == self.times(s),
    {
        Vec3 { x: self.x.mul(s), y: self.y.mul(s), z: self.z.mul(s) }
    }

    /// The scalar product.
    pub fn dot(&self, o: &Self) -> (res: N)
        requires
            lawful::<N>(),
        ensures
            res == self.scalar_product(*o),
    {
        self.x.mul(o.x).add(self.y.mul(o.y)).add(self.z.mul(o.z))
    }

    /// The vector product.
    pub fn cross(&self, o: &Self) -> (res: Self)
        requires
            lawful::<N>(),
        ensures
            res == self.vector_product(*o),
    {
        Vec3 {
            x: self.y.mul(o.z).sub(self.z.mul(o.y)),
            y: self.z.mul(o.x).sub(self.x.mul(o.z)),
            z: self.x.mul(o.y).sub(self.y.mul(o.x)),
        }
    }

    /// The Euclidean length.
    pub fn norm(&self) -> (res: N)
        requires
            lawful::<N>(),
        ensures
            res == self.length(),
    {
        self.dot(self).sqrt()
    }

    /// Divides the vector by its length, and returns that length.
    pub fn normalize(&mut self) -> (res: N)
        requires
            lawful::<N>(),
        ensures
            res == old(self).length(),
            *final(self) == old(self).over(old(self).length()),
    {
        let length = self.norm();
        *self = Vec3 { x: self.x.div(length), y: self.y.div(length), z: self.z.div(length) };
        length
    }
}

impl<N: Scalar> Pnt3<N> {
    pub open spec fn vector(self) -> Vec3<N> {
        Vec3 { x: self.x, y: self.y, z: self.z }
    }

    pub open spec fn plus(self, v: Vec3<N>) -> Self {
        Pnt3 { x: plus(self.x, v.x), y: plus(self.y, v.y), z: plus(self.z, v.z) }
    }

    pub open spec fn minus(self, o: Self) -> Vec3<N> {
        Vec3 { x: minus(self.x, o.x), y: minus(self.y, o.y), z: minus(self.z, o.z) }
    }

    pub open spec fn times(self, s: N) -> Self {
        Pnt3 { x: times(self.x, s), y: times(self.y, s), z: times(self.z, s) }
    }

    pub fn new(x: N, y: N, z: N) -> (res: Self)
        ensures
            res == (Pnt3 { x, y, z }),
    {
        Pnt3 { x, y, z }
    }

    /// The vector from the origin to the point.
    pub fn as_vec(&self) -> (res: Vec3<N>)
        ensures
            res == self.vector(),
    {
        Vec3 { x: self.x, y: self.y, z: self.z }
    }

    /// The point moved by `v`.
    pub fn add(&self, v: &Vec3<N>) -> (res: Self)
        requires
            lawful::<N>(),
        ensures
            res == self.plus(*v),
    {
        Pnt3 { x: self.x.add(v.x), y: self.y.add(v.y), z: self.z.add(v.z) }
    }

    /// The vector that leads from `o` to the point.
    pub fn sub(&self, o: &Self) -> (res: Vec3<N>)
        requires
            lawful::<N>(),
        ensures
            res == self.minus(*o),
    {
        Vec3 { x: self.x.sub(o.x), y: self.y.sub(o.y), z: self.z.sub(o.z) }
    }

    /// The point with every coordinate multiplied by `s`.
    pub fn mul(&self, s: N) -> (res: Self)
        requires
            lawful::<N>(),
        ensures
            res == self.times(s),
    {
        Pnt3 { x: self.x.mul(s), y: self.y.mul(s), z: self.z.mul(s) }
    }
}

/// The distance between two points.
pub open spec fn distance<N: Scalar>(a: Pnt3<N>, b: Pnt3<N>) -> N {
    b.minus(a).length()
}

/// The middle of two points.
pub open spec fn middle<N: Scalar>(a: Pnt3<N>, b: Pnt3<N>) -> Pnt3<N> {
    a.plus(b.vector()).times(fraction(1, 2))
}

/// The distance between two points.
pub fn dist<N: Scalar>(a: &Pnt3<N>, b: &Pnt3<N>) -> (res: N)
    requires
        lawful::<N>(),
    ensures
        res == distance(*a, *b),
{
    b.sub(a).norm()
}

/// The middle of two points.
pub fn center<N: Scalar>(a: &Pnt3<N>, b: &Pnt3<N>) -> (res: Pnt3<N>)
    requires
        lawful::<N>(),
    ensures
        res == middle(*a, *b),
{
    a.add(&b.as_vec()).mul(N::ratio(1, 2))
}

} // verus!
