//! The geometry that the caller of a decomposition brings along.
//!
//! Two computations are not made here: the convex hull of a cloud of points, and the
//! intersection of a ray with the convex hull of two clouds. A caller hands them over as
//! functions. This module says what is asked of these, and names what they return.
use crate::linalg::{Pnt3, Vec3};
use crate::mesh::{MeshModel, TriMesh};
use crate::rays::Ray;
use crate::scalar::{lawful, rank, Scalar};
use vstd::prelude::*;

verus! {

/// The convex hull of two clouds of points.
pub struct ConvexPair<'a, N> {
    pub a: &'a [Pnt3<N>],
    pub b: &'a [Pnt3<N>],
}

/// The two clouds of a pair.
#[verifier::ext_equal]
pub struct PairModel<N> {
    pub a: Seq<Pnt3<N>>,
    pub b: Seq<Pnt3<N>>,
}

impl<'a, N> View for ConvexPair<'a, N> {
    type V = PairModel<N>;

    open spec fn view(&self) -> PairModel<N> {
        PairModel { a: self.a@, b: self.b@ }
    }
}

/// The first point of the cloud that lies farthest along `dir`.
pub open spec fn farthest<N: Scalar>(points: Seq<Pnt3<N>>, dir: Vec3<N>) -> Pnt3<N>
    decreases points.len(),
{
    if points.len() <= 1 {
        points[0]
    } else {
        let before = farthest(points.drop_last(), dir);
        let last = points.last();
        if rank(before.vector().scalar_product(dir)) < rank(last.vector().scalar_product(dir)) {
            last
        } else {
            before
        }
    }
}

/// The farthest point is a point of the cloud, and no other one lies farther.
pub proof fn farthest_is_farthest<N: Scalar>(points: Seq<Pnt3<N>>, dir: Vec3<N>)
    requires
        points.len() > 0,
    ensures
        points.contains(farthest(points, dir)),
        forall|i: int|
            0 <= i < points.len() ==> rank((#[trigger] points[i]).vector().scalar_product(dir)) <= rank(
                farthest(points, dir).vector().scalar_product(dir),
            ),
    decreases points.len(),
{
    if points.len() == 1 {
        assert(points.contains(points[0]));
    } else {
        let shorter = points.drop_last();
        farthest_is_farthest(shorter, dir);
        let k = choose|k: int| 0 <= k < shorter.len() && shorter[k] == farthest(shorter, dir);
        assert(points[k] == farthest(shorter, dir));
        assert(points[points.len() - 1] == points.last());
        assert forall|i: int| 0 <= i < points.len() implies rank(
            (#[trigger] points[i]).vector().scalar_product(dir),
        ) <= rank(farthest(points, dir).vector().scalar_product(dir)) by {
            if i < shorter.len() {
                assert(shorter[i] == points[i]);
            }
        }
    }
}

impl<N: Scalar> PairModel<N> {
    /// The farthest point of the two clouds along `dir`: that of the second one, unless that
    /// of the first one lies strictly farther.
    pub open spec fn support(self, dir: Vec3<N>) -> Pnt3<N> {
        let sa = farthest(self.a, dir);
        let sb = farthest(self.b, dir);
        if rank(sb.vector().scalar_product(dir)) < rank(sa.vector().scalar_product(dir)) {
            sa
        } else {
            sb
        }
    }
}

/// The first point of the cloud that lies farthest along `dir`.
pub fn point_cloud_support_point<N: Scalar>(dir: &Vec3<N>, points: &[Pnt3<N>]) -> (res: Pnt3<N>)
    requires
        lawful::<N>(),
        points@.len() > 0,
    ensures
        res == farthest(points@, *dir),
{
    let mut best = points[0];
    let mut best_dot = best.as_vec().dot(dir);
    let mut i: usize = 1;
    assert(points@.take(1) =~= seq![points@[0]]);
    while i < points.len()
        invariant
            lawful::<N>(),
            1 <= i <= points@.len(),
            best == farthest(points@.take(i as int), *dir),
            best_dot == best.vector().scalar_product(*dir),
        decreases points@.len() - i,
    {
        let dot = points[i].as_vec().dot(dir);
        assert(points@.take(i + 1).drop_last() =~= points@.take(i as int));
        if best_dot.less(dot) {
            best = points[i];
            best_dot = dot;
        }
        i = i + 1;
    }
    assert(points@.take(i as int) =~= points@);
    best
}

impl<'a, N> ConvexPair<'a, N> {
    pub fn new(a: &'a [Pnt3<N>], b: &'a [Pnt3<N>]) -> (res: ConvexPair<'a, N>)
        ensures
            res@ == (PairModel { a: a@, b: b@ }),
    {
        ConvexPair { a, b }
    }
}

impl<'a, N: Scalar> ConvexPair<'a, N> {
    /// The farthest point of the two clouds along `dir`.
    pub fn support_point(&self, dir: &Vec3<N>) -> (res: Pnt3<N>)
        requires
            lawful::<N>(),
            self@.a.len() > 0,
            self@.b.len() > 0,
        ensures
            res == self@.support(*dir),
    {
        let sa = point_cloud_support_point(dir, self.a);
        let sb = point_cloud_support_point(dir, self.b);

        if sb.as_vec().dot(dir).less(sa.as_vec().dot(dir)) {
            sa
        } else {
            sb
        }
    }
}

/// Whether `cast` may return `toi` for this pair and this ray.
pub open spec fn may_hit<N: Scalar, C: Fn(&ConvexPair<N>, &Ray<N>) -> Option<N>>(
    cast: C,
    pair: PairModel<N>,
    ray: Ray<N>,
    toi: Option<N>,
) -> bool {
    exists|p: &ConvexPair<N>, r: &Ray<N>|
        p@ == pair && *r == ray && #[trigger] call_ensures(cast, (p, r), toi)
}

/// What `cast` returns for this pair and this ray: how far along the ray the hull of the pair
/// begins.
pub open spec fn time_of_impact<N: Scalar, C: Fn(&ConvexPair<N>, &Ray<N>) -> Option<N>>(
    cast: C,
    pair: PairModel<N>,
    ray: Ray<N>,
) -> Option<N> {
    choose|toi: Option<N>| may_hit(cast, pair, ray, toi)
}

/// A ray cast can be made for every ray and every pair of clouds that are not empty, and depends on
/// nothing else than the points of the pair and the ray.
pub open spec fn casts_rays<N: Scalar, C: Fn(&ConvexPair<N>, &Ray<N>) -> Option<N>>(cast: C) -> bool {
    &&& forall|p: &ConvexPair<N>, r: &Ray<N>|
        p@.a.len() > 0 && p@.b.len() > 0 ==> #[trigger] call_requires(cast, (p, r))
    &&& forall|p: &ConvexPair<N>, r: &Ray<N>, toi: Option<N>|
        p@.a.len() > 0 && p@.b.len() > 0 && #[trigger] call_ensures(cast, (p, r), toi) ==> toi
            == time_of_impact(cast, p@, *r)
}

/// How far along the ray the hull of the pair begins.
pub fn toi_with_ray<N: Scalar, C: Fn(&ConvexPair<N>, &Ray<N>) -> Option<N>>(
    cast: &C,
    pair: &ConvexPair<N>,
    ray: &Ray<N>,
) -> (res: Option<N>)
    requires
        casts_rays(*cast),
        pair@.a.len() > 0,
        pair@.b.len() > 0,
    ensures
        res == time_of_impact(*cast, pair@, *ray),
        may_hit(*cast, pair@, *ray, res),
{
    cast(pair, ray)
}

/// Whether `hull` may return the mesh `m` for this cloud.
pub open spec fn may_enclose<N: Scalar, H: Fn(&[Pnt3<N>]) -> TriMesh<N>>(
    hull: H,
    points: Seq<Pnt3<N>>,
    m: MeshModel<N>,
) -> bool {
    exists|s: &[Pnt3<N>], r: TriMesh<N>|
        s@ == points && r@ == m && #[trigger] call_ensures(hull, (s,), r)
}

/// What `hull` returns for this cloud: its convex hull.
pub open spec fn enclosure<N: Scalar, H: Fn(&[Pnt3<N>]) -> TriMesh<N>>(
    hull: H,
    points: Seq<Pnt3<N>>,
) -> MeshModel<N> {
    choose|m: MeshModel<N>| may_enclose(hull, points, m)
}

/// A hull can be computed for every cloud that is not empty, depends on nothing else than its
/// points, and is not empty either.
pub open spec fn computes_hulls<N: Scalar, H: Fn(&[Pnt3<N>]) -> TriMesh<N>>(hull: H) -> bool {
    &&& forall|s: &[Pnt3<N>]| s@.len() > 0 ==> #[trigger] call_requires(hull, (s,))
    &&& forall|s: &[Pnt3<N>], r: TriMesh<N>|
        s@.len() > 0 && #[trigger] call_ensures(hull, (s,), r) ==> {
            &&& r@ == enclosure(hull, s@)
            &&& r@.coords.len() > 0
        }
}

/// The convex hull of the cloud.
pub fn convex_hull<N: Scalar, H: Fn(&[Pnt3<N>]) -> TriMesh<N>>(hull: &H, points: &[Pnt3<N>]) -> (res:
    TriMesh<N>)
    requires
        computes_hulls(*hull),
        points@.len() > 0,
    ensures
        res@ == enclosure(*hull, points@),
        may_enclose(*hull, points@, res@),
        res@.coords.len() > 0,
{
    hull(points)
}

} // verus!
