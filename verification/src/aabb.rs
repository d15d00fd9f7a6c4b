//! Axis-aligned bounding boxes.
use crate::linalg::Pnt3;
use crate::scalar::{greater, lawful, max_of, min_of, rank, smaller, Scalar};
use vstd::prelude::*;

verus! {

/// An axis-aligned box, given by its lowest and its highest corner.
#[derive(Clone, Copy, Debug, PartialEq)]
pub struct AABB<N> {
    pub mins: Pnt3<N>,
    pub maxs: Pnt3<N>,
}

/// The componentwise minimum of two points.
pub open spec fn inf<N: Scalar>(a: Pnt3<N>, b: Pnt3<N>) -> Pnt3<N> {
    Pnt3 { x: smaller(a.x, b.x), y: smaller(a.y, b.y), z: smaller(a.z, b.z) }
}

/// The componentwise maximum of two points.
pub open spec fn sup<N: Scalar>(a: Pnt3<N>, b: Pnt3<N>) -> Pnt3<N> {
    Pnt3 { x: greater(a.x, b.x), y: greater(a.y, b.y), z: greater(a.z, b.z) }
}

/// Whether no component of `a` exceeds that of `b`.
pub open spec fn dominated<N: Scalar>(a: Pnt3<N>, b: Pnt3<N>) -> bool {
    rank(a.x) <= rank(b.x) && rank(a.y) <= rank(b.y) && rank(a.z) <= rank(b.z)
}

fn min_point<N: Scalar>(a: &Pnt3<N>, b: &Pnt3<N>) -> (res: Pnt3<N>)
    requires
        lawful::<N>(),
    ensures
        res == inf(*a, *b),
{
    Pnt3 { x: min_of(a.x, b.x), y: min_of(a.y, b.y), z: min_of(a.z, b.z) }
}

fn max_point<N: Scalar>(a: &Pnt3<N>, b: &Pnt3<N>) -> (res: Pnt3<N>)
    requires
        lawful::<N>(),
    ensures
        res == sup(*a, *b),
{
    Pnt3 { x: max_of(a.x, b.x), y: max_of(a.y, b.y), z: max_of(a.z, b.z) }
}

fn at_most<N: Scalar>(a: &Pnt3<N>, b: &Pnt3<N>) -> (res: bool)
    requires
        lawful::<N>(),
    ensures
        res == dominated(*a, *b),
{
    !b.x.less(a.x) && !b.y.less(a.y) && !b.z.less(a.z)
}

impl<N: Scalar> AABB<N> {
    /// The smallest box that holds both boxes.
    pub open spec fn hull(self, other: Self) -> Self {
        AABB { mins: inf(self.mins, other.mins), maxs: sup(self.maxs, other.maxs) }
    }

    /// Whether the two boxes have a point in common.
    pub open spec fn meets(self, other: Self) -> bool {
        dominated(self.mins, other.maxs) && dominated(other.mins, self.maxs)
    }

    /// Whether the point lies in the box.
    pub open spec fn holds(self, p: Pnt3<N>) -> bool {
        dominated(self.mins, p) && dominated(p, self.maxs)
    }

    pub fn new(mins: Pnt3<N>, maxs: Pnt3<N>) -> (res: Self)
        ensures
            res == (AABB { mins, maxs }),
    {
        AABB { mins, maxs }
    }

    /// The smallest box that holds both boxes.
    pub fn merged(&self, other: &Self) -> (res: Self)
        requires
            lawful::<N>(),
        ensures
            res == self.hull(*other),
    {
        AABB {
            mins: min_point(&self.mins, &other.mins),
            maxs: max_point(&self.maxs, &other.maxs),
        }
    }

    /// Whether the two boxes have a point in common.
    pub fn intersects(&self, other: &Self) -> (res: bool)
        requires
            lawful::<N>(),
        ensures
            res == self.meets(*other),
    {
        at_most(&self.mins, &other.maxs) && at_most(&other.mins, &self.maxs)
    }
}

/// The box of a cloud of points: the merge of the boxes of its points, in order.
pub open spec fn cloud_box<N: Scalar>(points: Seq<Pnt3<N>>) -> AABB<N>
    decreases points.len(),
{
    if points.len() <= 1 {
        AABB { mins: points[0], maxs: points[0] }
    } else {
        cloud_box(points.drop_last()).hull(AABB { mins: points.last(), maxs: points.last() })
    }
}

/// The lowest and the highest corner of the box of a cloud of points.
pub fn point_cloud_aabb<N: Scalar>(points: &[Pnt3<N>]) -> (res: (Pnt3<N>, Pnt3<N>))
    requires
        lawful::<N>(),
        points@.len() > 0,
    ensures
        (AABB { mins: res.0, maxs: res.1 }) == cloud_box(points@),
{
    let mut mins = points[0];
    let mut maxs = points[0];
    let mut i: usize = 1;
    assert(points@.take(1) =~= seq![points@[0]]);
    while i < points.len()
        invariant
            lawful::<N>(),
            1 <= i <= points@.len(),
            (AABB { mins, maxs }) == cloud_box(points@.take(i as int)),
        decreases points@.len() - i,
    {
        mins = min_point(&mins, &points[i]);
        maxs = max_point(&maxs, &points[i]);
        assert(points@.take(i + 1).drop_last() =~= points@.take(i as int));
        i = i + 1;
    }
    assert(points@.take(i as int) =~= points@);
    (mins, maxs)
}

/// The box of a cloud of points holds each of them.
pub proof fn cloud_box_holds_points<N: Scalar>(points: Seq<Pnt3<N>>, i: int)
    requires
        0 <= i < points.len(),
    ensures
        cloud_box(points).holds(points[i]),
    decreases points.len(),
{
    if points.len() > 1 && i < points.len() - 1 {
        cloud_box_holds_points(points.drop_last(), i);
    }
}

/// A box that meets a third one still does so once it is merged with another.
pub proof fn merging_keeps_meetings<N: Scalar>(a: AABB<N>, b: AABB<N>, c: AABB<N>)
    ensures
        a.meets(c) ==> a.hull(b).meets(c),
        b.meets(c) ==> a.hull(b).meets(c),
{
}

/// The merge of two boxes holds what one of them holds.
pub proof fn merging_keeps_points<N: Scalar>(a: AABB<N>, b: AABB<N>, p: Pnt3<N>)
    ensures
        a.holds(p) ==> a.hull(b).holds(p),
        b.holds(p) ==> a.hull(b).holds(p),
{
}

/// The merge of two boxes is the smallest one: every box that holds the corners of both holds its
/// corners.
pub proof fn merging_makes_the_smallest_box<N: Scalar>(a: AABB<N>, b: AABB<N>, c: AABB<N>)
    requires
        c.holds(a.mins),
        c.holds(a.maxs),
        c.holds(b.mins),
        c.holds(b.maxs),
    ensures
        c.holds(a.hull(b).mins),
        c.holds(a.hull(b).maxs),
{
}

/// The box of a cloud of points is the smallest one: every box that holds the points holds its
/// corners.
pub proof fn cloud_box_is_the_smallest<N: Scalar>(points: Seq<Pnt3<N>>, c: AABB<N>)
    requires
        points.len() > 0,
        forall|i: int| 0 <= i < points.len() ==> c.holds(#[trigger] points[i]),
    ensures
        c.holds(cloud_box(points).mins),
        c.holds(cloud_box(points).maxs),
    decreases points.len(),
{
    assert(c.holds(points[points.len() - 1]));
    if points.len() > 1 {
        let shorter = points.drop_last();
        assert forall|i: int| 0 <= i < shorter.len() implies c.holds(#[trigger] shorter[i]) by {
            assert(c.holds(points[i]));
        }
        cloud_box_is_the_smallest(shorter, c);
    }
}

/// Two boxes meet exactly where there is a point that lies in both. (A box holds its own corners,
/// unless its lowest corner exceeds its highest one.)
pub proof fn boxes_meet_in_a_point<N: Scalar>(a: AABB<N>, b: AABB<N>)
    requires
        a.holds(a.mins),
        b.holds(b.mins),
    ensures
        a.meets(b) <==> exists|p: Pnt3<N>| #[trigger] a.holds(p) && b.holds(p),
{
    if a.meets(b) {
        let p = sup(a.mins, b.mins);
        assert(a.holds(p) && b.holds(p));
    }
}

} // verus!
