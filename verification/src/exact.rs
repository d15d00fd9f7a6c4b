//! What holds of meshes where arithmetic is exact.
use crate::aabb::{cloud_box, AABB};
use crate::decompose::describes;
use crate::linalg::{Pnt3, Vec3};
use crate::mesh::MeshModel;
use crate::scalar::{fraction, minus, one, opposite, over, plus, rank, root, times, zero, Scalar};
use crate::vertex::VertexModel;
use vstd::prelude::*;

verus! {

/// The laws of a field, for these three numbers.
pub open spec fn field_laws<N: Scalar>(a: N, b: N, c: N) -> bool {
    &&& plus(plus(a, b), c) == plus(a, plus(b, c))
    &&& plus(a, b) == plus(b, a)
    &&& plus(a, zero()) == a
    &&& plus(a, opposite(a)) == zero::<N>()
    &&& minus(a, b) == plus(a, opposite(b))
    &&& times(times(a, b), c) == times(a, times(b, c))
    &&& times(a, b) == times(b, a)
    &&& times(a, one()) == a
    &&& times(plus(a, b), c) == plus(times(a, c), times(b, c))
    &&& b != zero::<N>() ==> times(over(a, b), b) == a
}

/// Whether the arithmetic of the type is exact: it is that of a field in which one is two halves.
/// A type that rounds does not keep to it; the residues modulo an odd prime do.
pub open spec fn exact<N: Scalar>() -> bool {
    &&& forall|a: N, b: N, c: N| #[trigger] field_laws(a, b, c)
    &&& plus(fraction::<N>(1, 2), fraction::<N>(1, 2)) == one::<N>()
}

/// A number multiplied by `s` and moved by `t`.
pub open spec fn mapped<N: Scalar>(a: N, s: N, t: N) -> N {
    plus(times(a, s), t)
}

/// What has been added can be taken away.
pub proof fn difference_of_sum<N: Scalar>(u: N, w: N)
    requires
        exact::<N>(),
    ensures
        plus(plus(u, w), opposite(w)) == u,
        plus(plus(u, opposite(w)), w) == u,
{
    assert(field_laws(u, w, opposite(w)));
    assert(field_laws(w, opposite(w), u));
    assert(field_laws(u, opposite(w), w));
    assert(field_laws(u, zero(), u));
}

/// A product with zero is zero.
pub proof fn product_with_zero<N: Scalar>(a: N)
    requires
        exact::<N>(),
    ensures
        times(zero(), a) == zero::<N>(),
{
    let z = zero::<N>();
    let p = times(z, a);
    assert(field_laws(z, z, a));
    assert(p == plus(p, p));
    difference_of_sum(p, p);
    assert(field_laws(p, p, p));
}

/// What has been divided by `d` is restored by a multiplication with `d`.
proof fn product_of_quotient<N: Scalar>(a: N, d: N)
    requires
        exact::<N>(),
        d != zero::<N>(),
    ensures
        times(times(a, over(one(), d)), d) == a,
        times(times(a, d), over(one(), d)) == a,
        times(over(one(), d), d) == one::<N>(),
{
    let k = over(one::<N>(), d);
    assert(field_laws(one(), d, d));
    assert(field_laws(a, k, d));
    assert(field_laws(a, d, k));
    assert(field_laws(d, k, d));
    assert(field_laws(a, d, d));
}

/// Moving by `-m` and dividing by `d` is undone by multiplying by `d` and moving by `m`.
pub proof fn there_and_back<N: Scalar>(x: N, m: N, d: N)
    requires
        exact::<N>(),
        d != zero::<N>(),
    ensures
        plus(times(times(plus(x, opposite(m)), over(one(), d)), d), m) == x,
{
    product_of_quotient(plus(x, opposite(m)), d);
    difference_of_sum(x, m);
}

/// The difference of two mapped numbers is that of the numbers, multiplied.
pub proof fn difference_of_mapped<N: Scalar>(p: N, c: N, s: N, t: N)
    requires
        exact::<N>(),
    ensures
        plus(mapped(p, s, t), opposite(mapped(c, s, t))) == times(plus(p, opposite(c)), s),
{
    let m = opposite(c);
    let u = times(plus(p, m), s);
    let w = mapped(c, s, t);
    let (ps, ms, cs) = (times(p, s), times(m, s), times(c, s));
    assert(field_laws(p, m, s));
    assert(u == plus(ps, ms));
    assert(field_laws(ps, ms, w));
    assert(plus(u, w) == plus(ps, plus(ms, w)));
    assert(field_laws(ms, cs, t));
    assert(plus(ms, w) == plus(plus(ms, cs), t));
    assert(field_laws(m, c, s));
    assert(field_laws(c, m, s));
    assert(plus(m, c) == zero::<N>());
    product_with_zero(s);
    assert(plus(ms, cs) == zero::<N>());
    assert(field_laws(t, zero(), t));
    assert(plus(zero(), t) == t);
    assert(plus(u, w) == mapped(p, s, t));
    difference_of_sum(u, w);
}

/// Two numbers that are not zero have a product that is not zero.
proof fn product_of_two<N: Scalar>(s: N, d: N)
    requires
        exact::<N>(),
        s != zero::<N>(),
        d != zero::<N>(),
    ensures
        times(s, d) != zero::<N>(),
{
    product_of_quotient(d, s);
    assert(field_laws(d, s, d));
    if times(s, d) == zero::<N>() {
        product_with_zero(over(one(), s));
    }
}

/// Multiplying by `s` and dividing by `s * d` is dividing by `d`.
proof fn scaled_quotient<N: Scalar>(u: N, s: N, d: N)
    requires
        exact::<N>(),
        s != zero::<N>(),
        d != zero::<N>(),
    ensures
        times(times(u, s), over(one(), times(s, d))) == times(u, over(one(), d)),
{
    let sd = times(s, d);
    let k = over(one::<N>(), sd);
    let x = times(s, k);
    product_of_two(s, d);
    product_of_quotient(one(), sd);
    assert(field_laws(u, s, k));
    // The factor is the inverse of `d`.
    assert(field_laws(s, k, d));
    assert(field_laws(k, d, s));
    assert(field_laws(d, s, k));
    assert(field_laws(k, sd, d));
    assert(field_laws(k, s, d));
    assert(times(x, d) == times(k, sd)) by {
        assert(x == times(k, s));
        assert(times(times(k, s), d) == times(k, times(s, d)));
    }
    assert(times(x, d) == one::<N>());
    product_of_quotient(x, d);
    assert(times(one(), over(one(), d)) == over(one(), d)) by {
        assert(field_laws(over(one(), d), one(), d));
    }
}

/// A point multiplied by `s` and moved by `t`.
pub open spec fn moved<N: Scalar>(p: Pnt3<N>, s: N, t: Vec3<N>) -> Pnt3<N> {
    p.times(s).plus(t)
}

/// Normalizing a mesh is undone by denormalizing it, where arithmetic is exact and the bounding
/// box is not a point.
pub proof fn denormalizing_undoes_normalizing<N: Scalar>(mesh: MeshModel<N>)
    requires
        exact::<N>(),
        mesh.diagonal() != zero::<N>(),
    ensures
        mesh.normalized().denormalized(mesh.center(), mesh.diagonal()) == mesh,
{
    let (c, d) = (mesh.center(), mesh.diagonal());
    let back = mesh.normalized().denormalized(c, d);
    assert forall|i: int| 0 <= i < mesh.coords.len() implies #[trigger] back.coords[i] == mesh.coords[i] by {
        let p = mesh.coords[i];
        there_and_back(p.x, c.x, d);
        there_and_back(p.y, c.y, d);
        there_and_back(p.z, c.z, d);
    }
    assert(back.coords =~= mesh.coords);
}

/// Whether mapping keeps the order of two numbers.
pub open spec fn keeps_order<N: Scalar>(a: N, b: N, s: N, t: N) -> bool {
    rank(a) < rank(b) <==> rank(mapped(a, s, t)) < rank(mapped(b, s, t))
}

/// Whether moving keeps the order of the coordinates of two points.
pub open spec fn keeps_orders<N: Scalar>(p: Pnt3<N>, q: Pnt3<N>, s: N, t: Vec3<N>) -> bool {
    &&& keeps_order(p.x, q.x, s, t.x)
    &&& keeps_order(p.y, q.y, s, t.y)
    &&& keeps_order(p.z, q.z, s, t.z)
}

/// Whether each coordinate of `corner` is that of a point of the cloud.
pub open spec fn drawn_from<N>(corner: Pnt3<N>, points: Seq<Pnt3<N>>) -> bool {
    &&& exists|i: int| 0 <= i < points.len() && (#[trigger] points[i]).x == corner.x
    &&& exists|i: int| 0 <= i < points.len() && (#[trigger] points[i]).y == corner.y
    &&& exists|i: int| 0 <= i < points.len() && (#[trigger] points[i]).z == corner.z
}

/// The coordinates of a box are those of points of the cloud.
pub proof fn boxes_are_drawn_from_clouds<N: Scalar>(points: Seq<Pnt3<N>>)
    requires
        points.len() > 0,
    ensures
        drawn_from(cloud_box(points).mins, points),
        drawn_from(cloud_box(points).maxs, points),
    decreases points.len(),
{
    let last = points.len() - 1;
    assert(points[last] == points.last());
    if points.len() > 1 {
        let shorter = points.drop_last();
        boxes_are_drawn_from_clouds(shorter);
        let b = cloud_box(shorter);
        drawn_from_longer(b.mins, points);
        drawn_from_longer(b.maxs, points);
    }
}

proof fn drawn_from_longer<N>(corner: Pnt3<N>, points: Seq<Pnt3<N>>)
    requires
        points.len() > 0,
        drawn_from(corner, points.drop_last()),
    ensures
        drawn_from(corner, points),
{
    let shorter = points.drop_last();
    let i = choose|i: int| 0 <= i < shorter.len() && (#[trigger] shorter[i]).x == corner.x;
    let j = choose|j: int| 0 <= j < shorter.len() && (#[trigger] shorter[j]).y == corner.y;
    let k = choose|k: int| 0 <= k < shorter.len() && (#[trigger] shorter[k]).z == corner.z;
    assert(points[i].x == corner.x && points[j].y == corner.y && points[k].z == corner.z);
}

/// The box of a cloud moves with the cloud, where the order of the coordinates is kept.
pub proof fn boxes_move_along<N: Scalar>(points: Seq<Pnt3<N>>, s: N, t: Vec3<N>)
    requires
        points.len() > 0,
        forall|i: int, j: int|
            0 <= i < points.len() && 0 <= j < points.len() ==> keeps_orders(
                #[trigger] points[i],
                #[trigger] points[j],
                s,
                t,
            ),
    ensures
        cloud_box(points.map_values(|p: Pnt3<N>| moved(p, s, t))) == (AABB {
            mins: moved(cloud_box(points).mins, s, t),
            maxs: moved(cloud_box(points).maxs, s, t),
        }),
    decreases points.len(),
{
    let image = points.map_values(|p: Pnt3<N>| moved(p, s, t));
    assert(image.len() == points.len());
    if points.len() > 1 {
        let shorter = points.drop_last();
        assert forall|i: int, j: int| 0 <= i < shorter.len() && 0 <= j < shorter.len() implies keeps_orders(
            #[trigger] shorter[i],
            #[trigger] shorter[j],
            s,
            t,
        ) by {
            assert(keeps_orders(points[i], points[j], s, t));
        }
        boxes_move_along(shorter, s, t);
        assert(image.drop_last() =~= shorter.map_values(|p: Pnt3<N>| moved(p, s, t)));
        boxes_are_drawn_from_clouds(shorter);
        let b = cloud_box(shorter);
        let last = points.len() - 1;
        assert(image.last() == moved(points[last], s, t));
        orders_of_drawn(b.mins, points, s, t);
        orders_of_drawn(b.maxs, points, s, t);
    }
}

/// The coordinates of a corner that is drawn from a cloud, and those of its last point, keep their
/// order.
proof fn orders_of_drawn<N: Scalar>(corner: Pnt3<N>, points: Seq<Pnt3<N>>, s: N, t: Vec3<N>)
    requires
        points.len() > 1,
        drawn_from(corner, points.drop_last()),
        forall|i: int, j: int|
            0 <= i < points.len() && 0 <= j < points.len() ==> keeps_orders(
                #[trigger] points[i],
                #[trigger] points[j],
                s,
                t,
            ),
    ensures
        keeps_orders(corner, points.last(), s, t),
        keeps_orders(points.last(), corner, s, t),
{
    drawn_from_longer(corner, points);
    let i = choose|i: int| 0 <= i < points.len() && (#[trigger] points[i]).x == corner.x;
    let j = choose|j: int| 0 <= j < points.len() && (#[trigger] points[j]).y == corner.y;
    let k = choose|k: int| 0 <= k < points.len() && (#[trigger] points[k]).z == corner.z;
    let l = points.len() - 1;
    assert(keeps_orders(points[i], points[l], s, t) && keeps_orders(points[l], points[i], s, t));
    assert(keeps_orders(points[j], points[l], s, t) && keeps_orders(points[l], points[j], s, t));
    assert(keeps_orders(points[k], points[l], s, t) && keeps_orders(points[l], points[k], s, t));
}

/// The middle of two mapped numbers is their middle, mapped.
pub proof fn middle_of_mapped<N: Scalar>(a: N, b: N, s: N, t: N)
    requires
        exact::<N>(),
    ensures
        times(plus(mapped(a, s, t), mapped(b, s, t)), fraction(1, 2)) == mapped(
            times(plus(a, b), fraction(1, 2)),
            s,
            t,
        ),
{
    let h = fraction::<N>(1, 2);
    let (x, y) = (times(a, s), times(b, s));
    let (tt, ab) = (plus(t, t), plus(a, b));
    // (x + t) + (y + t) = (x + y) + (t + t)
    assert(field_laws(x, t, plus(y, t)));
    assert(field_laws(t, y, t));
    assert(field_laws(y, t, t));
    assert(field_laws(x, y, tt));
    assert(plus(t, plus(y, t)) == plus(y, tt));
    assert(plus(mapped(a, s, t), mapped(b, s, t)) == plus(plus(x, y), tt));
    // The halves.
    assert(field_laws(a, b, s));
    assert(plus(x, y) == times(ab, s));
    assert(field_laws(plus(x, y), tt, h));
    assert(field_laws(t, t, h));
    assert(field_laws(h, h, t));
    assert(field_laws(t, h, t));
    assert(field_laws(t, one(), t));
    assert(times(tt, h) == t) by {
        assert(times(t, h) == times(h, t));
        assert(times(plus(h, h), t) == plus(times(h, t), times(h, t)));
        assert(times(one(), t) == times(t, one()));
    }
    assert(field_laws(ab, s, h));
    assert(field_laws(s, h, ab));
    assert(field_laws(ab, h, s));
    assert(times(times(ab, s), h) == times(times(ab, h), s));
}

/// A square of a multiple.
pub proof fn square_of_multiple<N: Scalar>(x: N, s: N)
    requires
        exact::<N>(),
    ensures
        times(times(x, s), times(x, s)) == times(times(x, x), times(s, s)),
{
    let xs = times(x, s);
    assert(field_laws(x, s, xs));
    assert(field_laws(s, x, s));
    assert(field_laws(x, s, s));
    assert(times(s, xs) == times(x, times(s, s))) by {
        assert(times(s, times(x, s)) == times(times(s, x), s));
        assert(times(s, x) == times(x, s));
    }
    assert(field_laws(x, x, times(s, s)));
}

/// Mapping after denormalizing is denormalizing to the mapped place.
proof fn denormalized_to_mapped<N: Scalar>(q: N, c: N, d: N, s: N, t: N)
    requires
        exact::<N>(),
    ensures
        plus(times(q, times(s, d)), mapped(c, s, t)) == mapped(plus(times(q, d), c), s, t),
{
    assert(field_laws(times(q, d), c, s));
    assert(field_laws(q, d, s));
    assert(field_laws(d, s, q));
    assert(field_laws(times(q, times(s, d)), times(c, s), t));
}

/// The mesh with every point multiplied by `s` and moved by `t`.
pub open spec fn placed<N: Scalar>(mesh: MeshModel<N>, s: N, t: Vec3<N>) -> MeshModel<N> {
    mesh.scaled(s).translated(t)
}

/// Whether the mesh can be multiplied by `s` and moved by `t` without a change of shape: `s` is
/// not zero, the order of the coordinates is kept, and the diagonal is multiplied by `s`.
pub open spec fn scales<N: Scalar>(mesh: MeshModel<N>, s: N, t: Vec3<N>) -> bool {
    let b = cloud_box(mesh.coords);
    let v = b.maxs.minus(b.mins);
    &&& s != zero::<N>()
    &&& forall|i: int, j: int|
        0 <= i < mesh.coords.len() && 0 <= j < mesh.coords.len() ==> keeps_orders(
            #[trigger] mesh.coords[i],
            #[trigger] mesh.coords[j],
            s,
            t,
        )
    &&& root(times(v.scalar_product(v), times(s, s))) == times(s, root(v.scalar_product(v)))
}

/// The center and the diagonal of a mesh that is multiplied and moved.
proof fn placed_box<N: Scalar>(mesh: MeshModel<N>, s: N, t: Vec3<N>)
    requires
        exact::<N>(),
        mesh.coords.len() > 0,
        scales(mesh, s, t),
    ensures
        placed(mesh, s, t).center() == moved(mesh.center(), s, t),
        placed(mesh, s, t).diagonal() == times(s, mesh.diagonal()),
{
    let other = placed(mesh, s, t);
    let b = cloud_box(mesh.coords);
    let (lo, hi) = (b.mins, b.maxs);
    boxes_move_along(mesh.coords, s, t);
    assert(other.coords =~= mesh.coords.map_values(|p: Pnt3<N>| moved(p, s, t)));
    middle_of_mapped(lo.x, hi.x, s, t.x);
    middle_of_mapped(lo.y, hi.y, s, t.y);
    middle_of_mapped(lo.z, hi.z, s, t.z);
    let v = hi.minus(lo);
    let w = moved(hi, s, t).minus(moved(lo, s, t));
    difference_of_mapped(hi.x, lo.x, s, t.x);
    difference_of_mapped(hi.y, lo.y, s, t.y);
    difference_of_mapped(hi.z, lo.z, s, t.z);
    assert(field_laws(hi.x, lo.x, s) && field_laws(hi.y, lo.y, s) && field_laws(hi.z, lo.z, s));
    assert(field_laws(mapped(hi.x, s, t.x), mapped(lo.x, s, t.x), s));
    assert(field_laws(mapped(hi.y, s, t.y), mapped(lo.y, s, t.y), s));
    assert(field_laws(mapped(hi.z, s, t.z), mapped(lo.z, s, t.z), s));
    assert(w == v.times(s));
    square_of_multiple(v.x, s);
    square_of_multiple(v.y, s);
    square_of_multiple(v.z, s);
    let (xx, yy, zz, ss) = (times(v.x, v.x), times(v.y, v.y), times(v.z, v.z), times(s, s));
    assert(field_laws(xx, yy, ss));
    assert(field_laws(plus(xx, yy), zz, ss));
    assert(w.scalar_product(w) == times(v.scalar_product(v), ss));
}

/// The scale and the place of a mesh do not matter, where arithmetic is exact: the mesh, multiplied
/// by `s` and moved by `t`, is normalized to the same mesh. So its decimations are the same.
pub proof fn scale_and_place_do_not_matter<N: Scalar>(mesh: MeshModel<N>, s: N, t: Vec3<N>)
    requires
        exact::<N>(),
        mesh.coords.len() > 0,
        mesh.diagonal() != zero::<N>(),
        scales(mesh, s, t),
    ensures
        placed(mesh, s, t).normalized() == mesh.normalized(),
{
    let other = placed(mesh, s, t);
    let (c, d) = (mesh.center(), mesh.diagonal());
    placed_box(mesh, s, t);
    let (a, b) = (other.normalized(), mesh.normalized());
    assert forall|i: int| 0 <= i < mesh.coords.len() implies #[trigger] a.coords[i] == b.coords[i] by {
        let p = mesh.coords[i];
        difference_of_mapped(p.x, c.x, s, t.x);
        difference_of_mapped(p.y, c.y, s, t.y);
        difference_of_mapped(p.z, c.z, s, t.z);
        scaled_quotient(plus(p.x, opposite(c.x)), s, d);
        scaled_quotient(plus(p.y, opposite(c.y)), s, d);
        scaled_quotient(plus(p.z, opposite(c.z)), s, d);
    }
    assert(a.coords =~= b.coords);
}

/// What a decimation leaves of a mesh it leaves, multiplied by `s` and moved by `t`, of the mesh
/// that is multiplied and moved so: the parts are the same, and the hulls are placed alike.
pub proof fn results_are_placed_alike<N: Scalar>(
    mesh: MeshModel<N>,
    s: N,
    t: Vec3<N>,
    graph: Seq<VertexModel<N>>,
    meshes: Seq<MeshModel<N>>,
    parts: Seq<Seq<usize>>,
)
    requires
        exact::<N>(),
        mesh.coords.len() > 0,
        scales(mesh, s, t),
        describes(mesh, graph, meshes, parts),
    ensures
        describes(
            placed(mesh, s, t),
            graph,
            meshes.map_values(|m: MeshModel<N>| placed(m, s, t)),
            parts,
        ),
{
    let (c, d) = (mesh.center(), mesh.diagonal());
    let other = placed(mesh, s, t);
    let (c2, d2) = (other.center(), other.diagonal());
    let images = meshes.map_values(|m: MeshModel<N>| placed(m, s, t));
    let left = crate::decimation::survivors(graph);
    placed_box(mesh, s, t);
    assert forall|k: int| 0 <= k < left.len() implies #[trigger] images[k]
        == graph[left[k]].chull->0.denormalized(c2, d2) by {
        let hull = graph[left[k]].chull->0;
        assert(meshes[k] == hull.denormalized(c, d));
        let (x, y) = (placed(hull.denormalized(c, d), s, t), hull.denormalized(c2, d2));
        assert forall|i: int| 0 <= i < hull.coords.len() implies #[trigger] x.coords[i] == y.coords[i] by {
            let q = hull.coords[i];
            denormalized_to_mapped(q.x, c.x, d, s, t.x);
            denormalized_to_mapped(q.y, c.y, d, s, t.y);
            denormalized_to_mapped(q.z, c.z, d, s, t.z);
        }
        assert(x.coords =~= y.coords);
    }
}

} // verus!
