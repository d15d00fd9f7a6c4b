//! Where rays start, how far hulls reach, and what a ray that comes back shows.
use crate::algebra::{difference_is_sum, distribute_difference, neutral, product_of_opposite};
use crate::casting::verdict;
use crate::edge::{reach, returning};
use crate::exact::{exact, field_laws};
use crate::geometry::scalar_products_are_projections;
use crate::kernel::{farthest, farthest_is_farthest, time_of_impact, ConvexPair, PairModel};
use crate::linalg::{Pnt3, Vec3};
use crate::mesh::{IndexModel, MeshModel};
use crate::rays::{corners_have_rays, direction, distinct_keeps_each_once, numbering_numbers, Ray};
use crate::scalar::{
    fraction, minus, near, one, opposite, plus, rank, times, vanishes, zero, Scalar,
};
use vstd::prelude::*;

verus! {

/// How far a point lies along a vector.
pub open spec fn along<N: Scalar>(p: Pnt3<N>, dir: Vec3<N>) -> N {
    p.vector().scalar_product(dir)
}

/// The farthest point of a cloud is the first one that lies as far: those before it lie less far.
pub proof fn farthest_comes_first<N: Scalar>(points: Seq<Pnt3<N>>, dir: Vec3<N>) -> (k: int)
    requires
        points.len() > 0,
    ensures
        0 <= k < points.len(),
        farthest(points, dir) == points[k],
        forall|i: int|
            0 <= i < points.len() ==> rank(along(#[trigger] points[i], dir)) <= rank(
                along(points[k], dir),
            ),
        forall|i: int|
            0 <= i < k ==> rank(along(#[trigger] points[i], dir)) < rank(along(points[k], dir)),
    decreases points.len(),
{
    if points.len() == 1 {
        0
    } else {
        let shorter = points.drop_last();
        let last = points.len() - 1;
        let k = farthest_comes_first(shorter, dir);
        assert(points[last] == points.last());
        assert forall|i: int| 0 <= i < last implies rank(along(#[trigger] points[i], dir)) <= rank(
            along(points[k], dir),
        ) by {
            assert(shorter[i] == points[i]);
        }
        if rank(along(points[k], dir)) < rank(along(points[last], dir)) {
            last
        } else {
            assert forall|i: int| 0 <= i < k implies rank(along(#[trigger] points[i], dir)) < rank(
                along(points[k], dir),
            ) by {
                assert(shorter[i] == points[i]);
            }
            k
        }
    }
}

/// The support of a pair is a point of one of the two clouds, and no point of either lies farther.
/// It is one of the second cloud, unless one of the first cloud lies farther than all of these.
pub proof fn supports_are_farthest<N: Scalar>(pair: PairModel<N>, dir: Vec3<N>)
    requires
        pair.a.len() > 0,
        pair.b.len() > 0,
    ensures
        pair.a.contains(pair.support(dir)) || pair.b.contains(pair.support(dir)),
        forall|i: int|
            0 <= i < pair.a.len() ==> rank(along(#[trigger] pair.a[i], dir)) <= rank(
                along(pair.support(dir), dir),
            ),
        forall|i: int|
            0 <= i < pair.b.len() ==> rank(along(#[trigger] pair.b[i], dir)) <= rank(
                along(pair.support(dir), dir),
            ),
        !pair.b.contains(pair.support(dir)) ==> forall|i: int|
            0 <= i < pair.b.len() ==> rank(along(#[trigger] pair.b[i], dir)) < rank(
                along(pair.support(dir), dir),
            ),
{
    farthest_is_farthest(pair.a, dir);
    farthest_is_farthest(pair.b, dir);
    assert forall|i: int| 0 <= i < pair.a.len() implies rank(along(#[trigger] pair.a[i], dir)) <= rank(
        along(pair.support(dir), dir),
    ) by {
        assert(rank(pair.a[i].vector().scalar_product(dir)) <= rank(along(farthest(pair.a, dir), dir)));
    }
    assert forall|i: int| 0 <= i < pair.b.len() implies rank(along(#[trigger] pair.b[i], dir)) <= rank(
        along(pair.support(dir), dir),
    ) by {
        assert(rank(pair.b[i].vector().scalar_product(dir)) <= rank(along(farthest(pair.b, dir), dir)));
    }
    if !pair.b.contains(pair.support(dir)) {
        assert forall|i: int| 0 <= i < pair.b.len() implies rank(along(#[trigger] pair.b[i], dir))
            < rank(along(pair.support(dir), dir)) by {
            assert(rank(pair.b[i].vector().scalar_product(dir)) <= rank(
                along(farthest(pair.b, dir), dir),
            ));
        }
    }
}

/// The ray that comes back runs along the ray, against it, and starts beyond the hull: along a
/// direction of length one it starts as far from the origin of the ray as the hull reaches, and a
/// tenth farther.
pub proof fn returning_rays_start_beyond<N: Scalar>(pair: PairModel<N>, ray: Ray<N>)
    requires
        exact::<N>(),
        ray.dir.scalar_product(ray.dir) == one::<N>(),
    ensures
        ({
            let back = returning(pair, ray);
            let gone = back.orig.minus(ray.orig);
            &&& gone.scalar_product(ray.dir) == plus(
                along(pair.support(ray.dir), ray.dir),
                fraction(1, 10),
            )
            &&& plus(back.dir.x, ray.dir.x) == zero::<N>()
            &&& plus(back.dir.y, ray.dir.y) == zero::<N>()
            &&& plus(back.dir.z, ray.dir.z) == zero::<N>()
            &&& times(gone.x, ray.dir.y) == times(gone.y, ray.dir.x)
            &&& times(gone.y, ray.dir.z) == times(gone.z, ray.dir.y)
            &&& times(gone.z, ray.dir.x) == times(gone.x, ray.dir.z)
        }),
{
    let back = returning(pair, ray);
    let (d, l) = (ray.dir, reach(pair, ray));
    let gone = back.orig.minus(ray.orig);
    neutral(d.x);
    neutral(d.y);
    neutral(d.z);
    crate::geometry::points_and_vectors_fit_together(ray.orig, ray.orig, d.times(l), l);
    assert(gone == d.times(l));
    scalar_products_are_projections(d, d, d, l);
    scalar_products_are_projections(gone, d, d, l);
    neutral(l);
    proportional(d.x, d.y, l);
    proportional(d.y, d.z, l);
    proportional(d.z, d.x, l);
}

proof fn proportional<N: Scalar>(a: N, b: N, l: N)
    requires
        exact::<N>(),
    ensures
        times(times(a, l), b) == times(times(b, l), a),
{
    assert(field_laws(a, l, b));
    assert(field_laws(l, b, a));
    assert(field_laws(b, l, a));
    assert(field_laws(a, times(b, l), b));
}

/// The concavity that a ray shows leads from its origin, along it, to where the ray that comes back
/// meets the hull. It is zero where that ray meets nothing, and where the hull hardly reaches along
/// the ray.
pub proof fn verdicts_lead_to_the_hull<N: Scalar, C: Fn(&ConvexPair<N>, &Ray<N>) -> Option<N>>(
    cast: C,
    pair: PairModel<N>,
    ray: Ray<N>,
)
    requires
        exact::<N>(),
    ensures
        ({
            let back = returning(pair, ray);
            let c = verdict(cast, pair, ray);
            if near(along(pair.support(ray.dir), ray.dir), zero()) {
                c == zero::<N>()
            } else {
                match time_of_impact(cast, pair, back) {
                    None => c == zero::<N>(),
                    Some(t) => {
                        &&& plus(ray.orig.x, times(ray.dir.x, c)) == plus(
                            back.orig.x,
                            times(back.dir.x, t),
                        )
                        &&& plus(ray.orig.y, times(ray.dir.y, c)) == plus(
                            back.orig.y,
                            times(back.dir.y, t),
                        )
                        &&& plus(ray.orig.z, times(ray.dir.z, c)) == plus(
                            back.orig.z,
                            times(back.dir.z, t),
                        )
                    },
                }
            }
        }),
{
    let back = returning(pair, ray);
    let l = reach(pair, ray);
    match time_of_impact(cast, pair, back) {
        None => {},
        Some(t) => {
            there_and_part_of_the_way_back(ray.orig.x, ray.dir.x, l, t);
            there_and_part_of_the_way_back(ray.orig.y, ray.dir.y, l, t);
            there_and_part_of_the_way_back(ray.orig.z, ray.dir.z, l, t);
        },
    }
}

proof fn there_and_part_of_the_way_back<N: Scalar>(o: N, d: N, l: N, t: N)
    requires
        exact::<N>(),
    ensures
        plus(o, times(d, minus(l, t))) == plus(plus(o, times(d, l)), times(opposite(d), t)),
{
    distribute_difference(l, t, d);
    product_of_opposite(d, t);
    difference_is_sum(times(d, l), times(d, t));
    assert(field_laws(o, times(d, l), opposite(times(d, t))));
}

/// The coordinates and the normal of corner `k` of triangle `i`.
pub open spec fn corner_of<N>(mesh: MeshModel<N>, i: int, k: int) -> (Pnt3<N>, Vec3<N>) {
    match mesh.indices {
        IndexModel::Unified(idx) => {
            let t = idx[i];
            let c = seq![t.x, t.y, t.z][k] as int;
            (mesh.coords[c], mesh.normals->0[c])
        },
        IndexModel::Split(idx) => {
            let t = idx[i];
            let c = seq![t.x, t.y, t.z][k];
            (mesh.coords[c.x as int], mesh.normals->0[c.y as int])
        },
    }
}

/// Each corner of a triangle has a ray that starts there, along the normal of the corner. The hull
/// of a single triangle, and the points of a triangle, are its corners.
pub proof fn rays_start_at_corners<N: Scalar>(mesh: MeshModel<N>, i: int, k: int)
    requires
        mesh.rays().len() <= usize::MAX,
        0 <= i < mesh.size(),
        0 <= k < 3,
    ensures
        ({
            let (p, n) = corner_of(mesh, i, k);
            let v = mesh.dual_vertex(mesh.ray_ids(), i);
            let r = v.ancestors->0[k].id;
            &&& r < mesh.rays().len()
            &&& mesh.rays()[r as int].orig == p
            &&& mesh.rays()[r as int].dir == direction(n)
            &&& vanishes(n.length()) ==> mesh.rays()[r as int].dir == (Vec3 {
                x: zero::<N>(),
                y: zero(),
                z: zero(),
            })
            &&& mesh.corner_points(i)[k] == p
            &&& v.chull->0.coords.len() == 3
            &&& v.chull->0.coords[k] == p
            &&& v.chull->0.normals is None
            &&& v.chull->0.size() == 1
            &&& v.chull->0.corner_points(0)[k] == p
        }),
{
    let list = mesh.ray_corners();
    let corner = mesh.corner(i, k);
    corners_have_rays(mesh, i, k);
    distinct_keeps_each_once(mesh.corner_list(mesh.size()));
    numbering_numbers(list);
    let j = list.index_of(corner);
    assert(list[j] == corner);
    assert(mesh.ray_ids()[list[j]] == j);
    assert(mesh.rays()[j] == mesh.ray_at(corner));
}

/// Every ray of a mesh starts at a corner of a triangle, along the normal of that corner.
pub proof fn rays_belong_to_corners<N: Scalar>(mesh: MeshModel<N>, r: int) -> (res: (int, int))
    requires
        0 <= r < mesh.rays().len(),
    ensures
        0 <= res.0 < mesh.size(),
        0 <= res.1 < 3,
        mesh.rays()[r].orig == corner_of(mesh, res.0, res.1).0,
        mesh.rays()[r].dir == direction(corner_of(mesh, res.0, res.1).1),
{
    let all = mesh.corner_list(mesh.size());
    let list = mesh.ray_corners();
    distinct_keeps_each_once(all);
    assert(list.contains(list[r]));
    assert(all.contains(list[r]));
    let p = choose|p: int| 0 <= p < all.len() && all[p] == list[r];
    assert(all[p] == mesh.corner(p / 3, p % 3));
    (p / 3, p % 3)
}

/// Two corners share a ray exactly where they have the same coordinates and the same normal, by
/// their indices.
pub proof fn corners_share_rays<N: Scalar>(mesh: MeshModel<N>, i: int, k: int, j: int, l: int)
    requires
        mesh.rays().len() <= usize::MAX,
        0 <= i < mesh.size(),
        0 <= j < mesh.size(),
        0 <= k < 3,
        0 <= l < 3,
    ensures
        ({
            let (a, b) = (mesh.dual_vertex(mesh.ray_ids(), i), mesh.dual_vertex(mesh.ray_ids(), j));
            a.ancestors->0[k].id == b.ancestors->0[l].id <==> match mesh.indices {
                IndexModel::Unified(idx) => seq![idx[i].x, idx[i].y, idx[i].z][k] == seq![
                    idx[j].x,
                    idx[j].y,
                    idx[j].z,
                ][l],
                IndexModel::Split(idx) => seq![idx[i].x, idx[i].y, idx[i].z][k] == seq![
                    idx[j].x,
                    idx[j].y,
                    idx[j].z,
                ][l],
            }
        }),
{
    let list = mesh.ray_corners();
    let (c, d) = (mesh.corner(i, k), mesh.corner(j, l));
    corners_have_rays(mesh, i, k);
    corners_have_rays(mesh, j, l);
    distinct_keeps_each_once(mesh.corner_list(mesh.size()));
    numbering_numbers(list);
    let (x, y) = (list.index_of(c), list.index_of(d));
    assert(list[x] == c && list[y] == d);
    assert(mesh.ray_ids()[list[x]] == x && mesh.ray_ids()[list[y]] == y);
}

} // verus!
