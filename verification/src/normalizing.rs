//! What normalizing a mesh does to it, where arithmetic is exact.
use crate::aabb::cloud_box;
use crate::algebra::{
    difference_is_sum, distribute, exchange_factors, neutral, product_of_opposite,
    quotient_times_divisor, two_halves,
};
use crate::exact::{
    boxes_move_along, difference_of_mapped, exact, field_laws, keeps_orders, mapped,
    middle_of_mapped, moved, square_of_multiple,
};
use crate::geometry::{has_root, squares};
use crate::linalg::{distance, Pnt3};
use crate::mesh::MeshModel;
use crate::scalar::{fraction, minus, one, opposite, over, plus, rank, root, times, zero, Scalar};
use vstd::prelude::*;

verus! {

/// The sum of the squares of the three extents of the box of a cloud of points.
pub open spec fn squared_extent<N: Scalar>(points: Seq<Pnt3<N>>) -> N {
    let b = cloud_box(points);
    squares(minus(b.maxs.x, b.mins.x), minus(b.maxs.y, b.mins.y), minus(b.maxs.z, b.mins.z))
}

/// The square of the diagonal of a mesh is the sum of the squares of the three extents of its
/// bounding box.
pub proof fn diagonals_measure_all_extents<N: Scalar>(mesh: MeshModel<N>)
    requires
        has_root(squared_extent(mesh.coords)),
    ensures
        times(mesh.diagonal(), mesh.diagonal()) == squared_extent(mesh.coords),
{
}

/// Whether the coordinates of two points are in the same order as those of two others.
pub open spec fn ordered_alike<N: Scalar>(p: Pnt3<N>, q: Pnt3<N>, r: Pnt3<N>, s: Pnt3<N>) -> bool {
    &&& rank(p.x) < rank(q.x) <==> rank(r.x) < rank(s.x)
    &&& rank(p.y) < rank(q.y) <==> rank(r.y) < rank(s.y)
    &&& rank(p.z) < rank(q.z) <==> rank(r.z) < rank(s.z)
}

/// Whether the points of the two clouds are in the same order along each axis.
pub open spec fn in_same_order<N: Scalar>(a: Seq<Pnt3<N>>, b: Seq<Pnt3<N>>) -> bool {
    forall|i: int, j: int|
        0 <= i < a.len() && 0 <= j < a.len() ==> ordered_alike(
            #[trigger] a[i],
            #[trigger] a[j],
            b[i],
            b[j],
        )
}

/// Subtracting and multiplying is multiplying and adding.
proof fn map_of_difference<N: Scalar>(p: N, c: N, k: N)
    requires
        exact::<N>(),
    ensures
        times(plus(p, opposite(c)), k) == mapped(p, k, times(opposite(c), k)),
{
    distribute(p, opposite(c), k);
}

/// The sum of two numbers with a middle that is mapped to zero is zero.
proof fn centered<N: Scalar>(lo: N, hi: N, k: N)
    requires
        exact::<N>(),
    ensures
        ({
            let c = times(plus(lo, hi), fraction(1, 2));
            let t = times(opposite(c), k);
            plus(mapped(lo, k, t), mapped(hi, k, t)) == zero::<N>()
        }),
{
    let c = times(plus(lo, hi), fraction::<N>(1, 2));
    let t = times(opposite(c), k);
    middle_of_mapped(lo, hi, k, t);
    product_of_opposite(c, k);
    neutral(times(c, k));
    two_halves(plus(mapped(lo, k, t), mapped(hi, k, t)));
    neutral(zero::<N>());
}

/// The bounding box of a normalized mesh is centered, and its diagonal has the length one, where
/// normalizing keeps the order of the coordinates.
pub proof fn normalized_meshes_have_unit_boxes<N: Scalar>(mesh: MeshModel<N>)
    requires
        exact::<N>(),
        mesh.coords.len() > 0,
        mesh.diagonal() != zero::<N>(),
        has_root(squared_extent(mesh.coords)),
        in_same_order(mesh.coords, mesh.normalized().coords),
    ensures
        squared_extent(mesh.normalized().coords) == one::<N>(),
        ({
            let b = cloud_box(mesh.normalized().coords);
            &&& plus(b.mins.x, b.maxs.x) == zero::<N>()
            &&& plus(b.mins.y, b.maxs.y) == zero::<N>()
            &&& plus(b.mins.z, b.maxs.z) == zero::<N>()
            &&& root(one::<N>()) == one::<N>() ==> distance(b.mins, b.maxs) == one::<N>()
        }),
{
    let (c, d) = (mesh.center(), mesh.diagonal());
    let k = over(one::<N>(), d);
    let t = c.vector().opposite().times(k);
    let points = mesh.coords;
    let image = mesh.normalized().coords;
    let b = cloud_box(points);
    let (lo, hi) = (b.mins, b.maxs);
    assert forall|i: int| 0 <= i < points.len() implies #[trigger] image[i] == moved(points[i], k, t) by {
        let p = points[i];
        map_of_difference(p.x, c.x, k);
        map_of_difference(p.y, c.y, k);
        map_of_difference(p.z, c.z, k);
    }
    assert(image =~= points.map_values(|p: Pnt3<N>| moved(p, k, t)));
    assert forall|i: int, j: int| 0 <= i < points.len() && 0 <= j < points.len() implies keeps_orders(
        #[trigger] points[i],
        #[trigger] points[j],
        k,
        t,
    ) by {
        assert(ordered_alike(points[i], points[j], image[i], image[j]));
        assert(image[i] == moved(points[i], k, t) && image[j] == moved(points[j], k, t));
    }
    boxes_move_along(points, k, t);
    centered(lo.x, hi.x, k);
    centered(lo.y, hi.y, k);
    centered(lo.z, hi.z, k);
    // The extents.
    extents_of_mapped(lo.x, hi.x, k, t.x);
    extents_of_mapped(lo.y, hi.y, k, t.y);
    extents_of_mapped(lo.z, hi.z, k, t.z);
    let (x, y, z) = (minus(hi.x, lo.x), minus(hi.y, lo.y), minus(hi.z, lo.z));
    square_of_multiple(x, k);
    square_of_multiple(y, k);
    square_of_multiple(z, k);
    let (xx, yy, zz, kk) = (times(x, x), times(y, y), times(z, z), times(k, k));
    distribute(xx, yy, kk);
    distribute(plus(xx, yy), zz, kk);
    assert(squared_extent(image) == times(squared_extent(points), kk));
    diagonals_measure_all_extents(mesh);
    exchange_factors(d, d, k, k);
    quotient_times_divisor(one(), d);
    neutral(one::<N>());
}

/// The difference of two mapped numbers is their difference, multiplied.
proof fn extents_of_mapped<N: Scalar>(lo: N, hi: N, k: N, t: N)
    requires
        exact::<N>(),
    ensures
        minus(mapped(hi, k, t), mapped(lo, k, t)) == times(minus(hi, lo), k),
{
    difference_of_mapped(hi, lo, k, t);
    difference_is_sum(hi, lo);
    difference_is_sum(mapped(hi, k, t), mapped(lo, k, t));
}

/// Normalizing divides what lies between two points of the mesh by the diagonal, and leaves the
/// triangles and the normals as they are.
pub proof fn normalizing_keeps_proportions<N: Scalar>(mesh: MeshModel<N>, i: int, j: int)
    requires
        exact::<N>(),
        mesh.diagonal() != zero::<N>(),
        0 <= i < mesh.coords.len(),
        0 <= j < mesh.coords.len(),
    ensures
        ({
            let m = mesh.normalized();
            let (p, q, r, s) = (mesh.coords[i], mesh.coords[j], m.coords[i], m.coords[j]);
            &&& times(minus(s.x, r.x), mesh.diagonal()) == minus(q.x, p.x)
            &&& times(minus(s.y, r.y), mesh.diagonal()) == minus(q.y, p.y)
            &&& times(minus(s.z, r.z), mesh.diagonal()) == minus(q.z, p.z)
            &&& m.coords.len() == mesh.coords.len()
            &&& m.indices == mesh.indices
            &&& m.normals == mesh.normals
        }),
{
    let (c, d) = (mesh.center(), mesh.diagonal());
    let (p, q) = (mesh.coords[i], mesh.coords[j]);
    proportion(p.x, q.x, c.x, d);
    proportion(p.y, q.y, c.y, d);
    proportion(p.z, q.z, c.z, d);
}

proof fn proportion<N: Scalar>(p: N, q: N, c: N, d: N)
    requires
        exact::<N>(),
        d != zero::<N>(),
    ensures
        ({
            let k = over(one::<N>(), d);
            times(minus(times(plus(q, opposite(c)), k), times(plus(p, opposite(c)), k)), d) == minus(q, p)
        }),
{
    let k = over(one::<N>(), d);
    let t = times(opposite(c), k);
    map_of_difference(p, c, k);
    map_of_difference(q, c, k);
    extents_of_mapped(p, q, k, t);
    assert(field_laws(minus(q, p), k, d));
    quotient_times_divisor(one(), d);
    neutral(minus(q, p));
}

/// Denormalizing multiplies what lies between two points of the mesh by the diagonal, and brings
/// the origin to the center.
pub proof fn denormalizing_keeps_proportions<N: Scalar>(
    mesh: MeshModel<N>,
    center: Pnt3<N>,
    diagonal: N,
    i: int,
    j: int,
)
    requires
        exact::<N>(),
        0 <= i < mesh.coords.len(),
        0 <= j < mesh.coords.len(),
    ensures
        ({
            let m = mesh.denormalized(center, diagonal);
            let (p, q, r, s) = (mesh.coords[i], mesh.coords[j], m.coords[i], m.coords[j]);
            &&& minus(s.x, r.x) == times(minus(q.x, p.x), diagonal)
            &&& minus(s.y, r.y) == times(minus(q.y, p.y), diagonal)
            &&& minus(s.z, r.z) == times(minus(q.z, p.z), diagonal)
            &&& p == (Pnt3 { x: zero::<N>(), y: zero(), z: zero() }) ==> r == center
            &&& m.coords.len() == mesh.coords.len()
            &&& m.indices == mesh.indices
            &&& m.normals == mesh.normals
        }),
{
    let (p, q) = (mesh.coords[i], mesh.coords[j]);
    extents_of_mapped(p.x, q.x, diagonal, center.x);
    extents_of_mapped(p.y, q.y, diagonal, center.y);
    extents_of_mapped(p.z, q.z, diagonal, center.z);
    neutral(diagonal);
    neutral(center.x);
    neutral(center.y);
    neutral(center.z);
}

} // verus!
