//! What parts and the edges between them measure.
use crate::algebra::{neutral, quotient_times_divisor};
use crate::ancestor::VertexWithConcavity;
use crate::decimation::{decimates, Phase, SceneModel};
use crate::edge::{length, EdgeModel};
use crate::exact::{exact, field_laws};
use crate::kernel::ConvexPair;
use crate::laws::{concatenation_holds, joins, pass_at, passes_join_or_keep, states_are_sound};
use crate::linalg::{distance, Pnt3, Vec2};
use crate::mesh::{area, MeshModel, TriMesh};
use crate::rays::Ray;
use crate::scalar::{minus, plus, rank, times, vanishes, zero, Scalar};
use crate::set::{in_one_of, sorted};
use crate::vertex::VertexModel;
use vstd::prelude::*;

verus! {

/// Whether sums do not depend on how their terms are grouped, and zero adds nothing.
pub open spec fn sums_are_exact<N: Scalar>() -> bool {
    &&& forall|a: N, b: N, c: N| #[trigger] plus(plus(a, b), c) == plus(a, plus(b, c))
    &&& forall|a: N| #[trigger] plus(a, zero()) == a
    &&& forall|a: N| #[trigger] plus(zero(), a) == a
}

/// The sum of the areas of the triangles of the list.
pub open spec fn total_area<N: Scalar>(mesh: MeshModel<N>, part: Seq<usize>) -> N
    decreases part.len(),
{
    if part.len() == 0 {
        zero()
    } else {
        let p = mesh.corner_points(part.last() as int);
        plus(total_area(mesh, part.drop_last()), area(p[0], p[1], p[2]))
    }
}

/// The areas of two lists of triangles are added, one list after the other.
proof fn areas_add_up<N: Scalar>(mesh: MeshModel<N>, a: Seq<usize>, b: Seq<usize>)
    requires
        sums_are_exact::<N>(),
    ensures
        total_area(mesh, a + b) == plus(total_area(mesh, a), total_area(mesh, b)),
    decreases b.len(),
{
    if b.len() == 0 {
        assert(a + b =~= a);
    } else {
        assert((a + b).drop_last() =~= a + b.drop_last());
        areas_add_up(mesh, a, b.drop_last());
        let p = mesh.corner_points(b.last() as int);
        let (x, y) = (total_area(mesh, a), total_area(mesh, b.drop_last()));
        assert(plus(plus(x, y), area(p[0], p[1], p[2])) == plus(x, plus(y, area(p[0], p[1], p[2]))));
    }
}

/// Whether `p` is a corner of one of the triangles.
pub open spec fn has_corner<N>(mesh: MeshModel<N>, part: Seq<usize>, p: Pnt3<N>) -> bool {
    exists|t: usize, k: int|
        part.contains(t) && 0 <= k < 3 && #[trigger] mesh.corner_points(t as int)[k] == p
}

/// Whether each coordinate of `p` is that of a corner of one of the triangles.
pub open spec fn touches<N>(mesh: MeshModel<N>, part: Seq<usize>, p: Pnt3<N>) -> bool {
    &&& exists|q: Pnt3<N>| #[trigger] has_corner(mesh, part, q) && q.x == p.x
    &&& exists|q: Pnt3<N>| #[trigger] has_corner(mesh, part, q) && q.y == p.y
    &&& exists|q: Pnt3<N>| #[trigger] has_corner(mesh, part, q) && q.z == p.z
}

impl<N: Scalar> VertexModel<N> {
    /// Whether the part measures what its triangles do: its area is the sum of theirs, and its box
    /// reaches as far as their corners and no farther.
    pub open spec fn measures_triangles(self, mesh: MeshModel<N>) -> bool {
        &&& sums_are_exact::<N>() ==> self.area == total_area(mesh, self.parts->0)
        &&& touches(mesh, self.parts->0, self.aabb.mins)
        &&& touches(mesh, self.parts->0, self.aabb.maxs)
        &&& forall|p: Pnt3<N>| #[trigger]
            has_corner(mesh, self.parts->0, p) ==> {
                &&& rank(self.aabb.mins.x) <= rank(p.x) <= rank(self.aabb.maxs.x)
                &&& rank(self.aabb.mins.y) <= rank(p.y) <= rank(self.aabb.maxs.y)
                &&& rank(self.aabb.mins.z) <= rank(p.z) <= rank(self.aabb.maxs.z)
            }
    }
}

/// A triangle on its own measures what it does.
proof fn triangles_are_measured<N: Scalar>(mesh: MeshModel<N>, i: int)
    requires
        0 <= i < mesh.size(),
        mesh.size() <= usize::MAX,
    ensures
        mesh.dual_vertex(mesh.ray_ids(), i).measures_triangles(mesh),
{
    let v = mesh.dual_vertex(mesh.ray_ids(), i);
    let part = v.parts->0;
    let t = i as usize;
    let points = mesh.corner_points(i);
    assert(part == seq![t] && part[0] == t);
    assert(part.contains(t));
    if sums_are_exact::<N>() {
        assert(part.drop_last() =~= Seq::empty());
        assert(total_area(mesh, part.drop_last()) == zero::<N>());
        assert(plus(zero(), v.area) == v.area);
    }
    assert forall|k: int| 0 <= k < 3 implies has_corner(mesh, part, #[trigger] points[k]) by {
        assert(mesh.corner_points(t as int)[k] == points[k]);
    }
    assert(points.len() == 3);
    assert(has_corner(mesh, part, points[0]));
    assert(has_corner(mesh, part, points[1]));
    assert(has_corner(mesh, part, points[2]));
    let two = points.drop_last();
    let one = two.drop_last();
    assert(two.len() == 2 && one.len() == 1);
    assert(points.last() == points[2] && two.last() == points[1] && one[0] == points[0]);
    reveal_with_fuel(crate::aabb::cloud_box, 3);
    assert forall|p: Pnt3<N>| #[trigger] has_corner(mesh, part, p) implies p == points[0] || p
        == points[1] || p == points[2] by {
        let (u, k) = choose|u: usize, k: int|
            part.contains(u) && 0 <= k < 3 && #[trigger] mesh.corner_points(u as int)[k] == p;
        assert(u == t);
    }
}

/// The corners of two lists of triangles together are those of the one and of the other.
proof fn corners_of_both<N>(mesh: MeshModel<N>, a: Seq<usize>, b: Seq<usize>, q: Pnt3<N>)
    ensures
        has_corner(mesh, a + b, q) == (has_corner(mesh, a, q) || has_corner(mesh, b, q)),
{
    if has_corner(mesh, a, q) {
        let (t, k) = choose|t: usize, k: int|
            a.contains(t) && 0 <= k < 3 && #[trigger] mesh.corner_points(t as int)[k] == q;
        concatenation_holds(a, b, t);
        assert(mesh.corner_points(t as int)[k] == q);
    }
    if has_corner(mesh, b, q) {
        let (t, k) = choose|t: usize, k: int|
            b.contains(t) && 0 <= k < 3 && #[trigger] mesh.corner_points(t as int)[k] == q;
        concatenation_holds(a, b, t);
        assert(mesh.corner_points(t as int)[k] == q);
    }
    if has_corner(mesh, a + b, q) {
        let (t, k) = choose|t: usize, k: int|
            (a + b).contains(t) && 0 <= k < 3 && #[trigger] mesh.corner_points(t as int)[k] == q;
        concatenation_holds(a, b, t);
        assert(mesh.corner_points(t as int)[k] == q);
    }
}

/// A part made of two parts that measure what their triangles do does so as well.
proof fn joining_keeps_measures<N: Scalar>(
    mesh: MeshModel<N>,
    scene: SceneModel<N>,
    pre: Phase<N>,
    post: Phase<N>,
    e: EdgeModel<N>,
    ancestors: Seq<VertexWithConcavity<N>>,
    chull: MeshModel<N>,
)
    requires
        joins(scene, pre, post, e, ancestors, chull),
        pre.graph[e.v1 as int].measures_triangles(mesh),
        pre.graph[e.v2 as int].measures_triangles(mesh),
    ensures
        post.graph[e.v1 as int].measures_triangles(mesh),
{
    let (a, b) = (pre.graph[e.v1 as int], pre.graph[e.v2 as int]);
    let v = post.graph[e.v1 as int];
    let (p, q) = (a.parts->0, b.parts->0);
    assert(v.parts->0 == p + q);
    if sums_are_exact::<N>() {
        areas_add_up(mesh, p, q);
    }
    assert forall|c: Pnt3<N>| #[trigger]
        has_corner(mesh, p + q, c) == (has_corner(mesh, p, c) || has_corner(mesh, q, c)) by {
        corners_of_both(mesh, p, q, c);
    }
    joining_touches(mesh, p, q, a.aabb.mins);
    joining_touches(mesh, p, q, b.aabb.mins);
    joining_touches(mesh, p, q, a.aabb.maxs);
    joining_touches(mesh, p, q, b.aabb.maxs);
}

/// A point that touches one of two lists of triangles touches both together.
proof fn joining_touches<N>(mesh: MeshModel<N>, a: Seq<usize>, b: Seq<usize>, p: Pnt3<N>)
    requires
        touches(mesh, a, p) || touches(mesh, b, p),
    ensures
        touches(mesh, a + b, p),
{
    let part = if touches(mesh, a, p) {
        a
    } else {
        b
    };
    let x = choose|q: Pnt3<N>| #[trigger] has_corner(mesh, part, q) && q.x == p.x;
    let y = choose|q: Pnt3<N>| #[trigger] has_corner(mesh, part, q) && q.y == p.y;
    let z = choose|q: Pnt3<N>| #[trigger] has_corner(mesh, part, q) && q.z == p.z;
    corners_of_both(mesh, a, b, x);
    corners_of_both(mesh, a, b, y);
    corners_of_both(mesh, a, b, z);
}

/// At every moment of a decimation each part measures what its triangles do: its area is the sum
/// of their areas, where sums are exact, and its box is the smallest one that holds their corners.
pub proof fn parts_measure_their_triangles<
    N: Scalar,
    C: Fn(&ConvexPair<N>, &Ray<N>) -> Option<N>,
    H: Fn(&[Pnt3<N>]) -> TriMesh<N>,
>(
    mesh: MeshModel<N>,
    error: N,
    min_components: nat,
    cast: C,
    hull: H,
    trace: Seq<Phase<N>>,
    i: int,
)
    requires
        mesh.complete(),
        mesh.countable(),
        decimates(mesh, error, min_components, cast, hull, trace),
        0 <= i < trace.len(),
    ensures
        forall|k: int|
            0 <= k < trace[i].graph.len() && trace[i].graph[k].alive() ==> (
            #[trigger] trace[i].graph[k]).measures_triangles(mesh),
    decreases i,
{
    let scene = mesh.scene(error);
    let h = trace[i].graph;
    if i == 0 {
        assert forall|k: int| 0 <= k < h.len() && h[k].alive() implies (
        #[trigger] h[k]).measures_triangles(mesh) by {
            triangles_are_measured(mesh, k);
        }
    } else {
        let g = trace[i - 1].graph;
        parts_measure_their_triangles(mesh, error, min_components, cast, hull, trace, i - 1);
        states_are_sound(mesh, error, min_components, cast, hull, trace, i - 1);
        let outcome = pass_at(mesh, error, min_components, cast, hull, trace, i - 1);
        match passes_join_or_keep(scene, cast, hull, trace[i - 1], outcome, trace[i]) {
            None => {},
            Some((e, ancestors, chull)) => {
                assert(g[e.v1 as int].alive() && g[e.v2 as int].alive());
                joining_keeps_measures(mesh, scene, trace[i - 1], trace[i], e, ancestors, chull);
                assert forall|k: int| 0 <= k < h.len() && h[k].alive() implies (
                #[trigger] h[k]).measures_triangles(mesh) by {
                    if k != e.v1 {
                        assert(g[k].measures_triangles(mesh));
                    }
                }
            },
        }
    }
}

/// The length of a list of edges of the mesh is the sum of the distances between their ends.
pub proof fn lengths_add_up<N: Scalar>(
    a: Seq<Vec2<u32>>,
    b: Seq<Vec2<u32>>,
    e: Vec2<u32>,
    coords: Seq<Pnt3<N>>,
)
    requires
        sums_are_exact::<N>(),
    ensures
        length(a + b, coords) == plus(length(a, coords), length(b, coords)),
        length(seq![e], coords) == distance(coords[e.x as int], coords[e.y as int]),
        length(Seq::empty(), coords) == zero::<N>(),
    decreases b.len(),
{
    let d = distance(coords[e.x as int], coords[e.y as int]);
    assert(seq![e].drop_last() =~= Seq::empty());
    assert(plus(zero(), d) == d);
    assert(length(seq![e].drop_last(), coords) == zero::<N>());
    if b.len() == 0 {
        assert(a + b =~= a);
        assert(plus(length(a, coords), zero()) == length(a, coords));
    } else {
        assert((a + b).drop_last() =~= a + b.drop_last());
        lengths_add_up(a, b.drop_last(), e, coords);
        let f = b.last();
        let (x, y) = (length(a, coords), length(b.drop_last(), coords));
        let z = distance(coords[f.x as int], coords[f.y as int]);
        assert(plus(plus(x, y), z) == plus(x, plus(y, z)));
    }
}

/// Whether the edges are those that bound one of the two parts, but not both.
pub open spec fn outlines<N>(edges: Set<Vec2<u32>>, a: VertexModel<N>, b: VertexModel<N>) -> bool {
    forall|e: Vec2<u32>| #[trigger]
        edges.contains(e) <==> (a.border->0.contains(e) && !b.border->0.contains(e)) || (
        b.border->0.contains(e) && !a.border->0.contains(e))
}

/// The shape of an edge, times the area of both parts together, is the diagonal of their common box
/// times the square of the length of their common outline. Where the area or the diagonal is
/// nothing, the shape is that square.
pub proof fn shapes_weigh_outlines_against_areas<N: Scalar>(
    timestamp: usize,
    a: VertexModel<N>,
    b: VertexModel<N>,
    v1: usize,
    v2: usize,
    coords: Seq<Pnt3<N>>,
    max_concavity: N,
    outline: Set<Vec2<u32>>,
)
    requires
        exact::<N>(),
        outlines(outline, a, b),
    ensures
        ({
            let e = EdgeModel::fresh(timestamp, a, b, v1, v2, coords, max_concavity);
            let common = a.aabb.hull(b.aabb);
            let diagonal = distance(common.mins, common.maxs);
            let around = length(sorted(outline), coords);
            let whole = plus(a.area, b.area);
            if vanishes(whole) || vanishes(diagonal) {
                e.shape == times(around, around)
            } else {
                whole != zero::<N>() ==> times(e.shape, whole) == times(
                    diagonal,
                    times(around, around),
                )
            }
        }),
{
    let common = a.aabb.hull(b.aabb);
    let diagonal = distance(common.mins, common.maxs);
    let around = length(sorted(outline), coords);
    let whole = plus(a.area, b.area);
    assert(outline =~= in_one_of(a.border->0, b.border->0));
    if whole != zero::<N>() {
        quotient_times_divisor(times(times(diagonal, around), around), whole);
        assert(field_laws(diagonal, around, around));
    }
}

/// Whether sums do not depend on the order of their terms, and numbers of the same rank are equal.
pub open spec fn orders_do_not_matter<N: Scalar>() -> bool {
    &&& forall|a: N, b: N| #[trigger] plus(a, b) == plus(b, a)
    &&& forall|a: N, b: N| #[trigger] rank(a) == #[trigger] rank(b) ==> a == b
}

/// The shape, the concavity and the cost of an edge do not depend on the order of the two parts.
pub proof fn edges_do_not_depend_on_order<N: Scalar>(
    timestamp: usize,
    a: VertexModel<N>,
    b: VertexModel<N>,
    v1: usize,
    v2: usize,
    coords: Seq<Pnt3<N>>,
    max_concavity: N,
)
    requires
        orders_do_not_matter::<N>(),
    ensures
        ({
            let e = EdgeModel::fresh(timestamp, a, b, v1, v2, coords, max_concavity);
            let f = EdgeModel::fresh(timestamp, b, a, v1, v2, coords, max_concavity);
            e.shape == f.shape && e.concavity == f.concavity && e.mcost == f.mcost
        }),
{
    assert(in_one_of(a.border->0, b.border->0) =~= in_one_of(b.border->0, a.border->0));
    assert(plus(a.area, b.area) == plus(b.area, a.area));
    assert(a.aabb.hull(b.aabb) == b.aabb.hull(a.aabb));
}

/// An edge is made as concave as the more concave one of its parts, and its cost is its concavity
/// and its shape, this one multiplied by the concavity that is allowed.
pub proof fn fresh_edges_cost_their_parts<N: Scalar>(
    timestamp: usize,
    a: VertexModel<N>,
    b: VertexModel<N>,
    v1: usize,
    v2: usize,
    coords: Seq<Pnt3<N>>,
    max_concavity: N,
)
    ensures
        ({
            let e = EdgeModel::fresh(timestamp, a, b, v1, v2, coords, max_concavity);
            &&& rank(a.concavity) <= rank(e.concavity)
            &&& rank(b.concavity) <= rank(e.concavity)
            &&& e.concavity == a.concavity || e.concavity == b.concavity
            &&& exact::<N>() ==> plus(e.mcost, plus(e.concavity, times(max_concavity, e.shape)))
                == zero::<N>()
        }),
{
    let e = EdgeModel::fresh(timestamp, a, b, v1, v2, coords, max_concavity);
    if exact::<N>() {
        neutral(plus(e.concavity, times(max_concavity, e.shape)));
    }
}

/// An evaluation casts rays up to a bound: the concavity that is allowed, or, where that is less,
/// what the shape leaves of the cost. The cost that it finds is the concavity, and the shape
/// multiplied by that bound.
pub proof fn evaluations_cost_concavity_and_shape<
    N: Scalar,
    C: Fn(&ConvexPair<N>, &Ray<N>) -> Option<N>,
>(
    scene: SceneModel<N>,
    cast: C,
    graph: Seq<VertexModel<N>>,
    e: EdgeModel<N>,
    max_cost: N,
)
    requires
        exact::<N>(),
    ensures
        ({
            let r = scene.evaluated(cast, graph, e, max_cost);
            let left = minus(max_cost, times(scene.error, e.shape));
            let bound = if rank(left) < rank(scene.error) {
                left
            } else {
                scene.error
            };
            plus(r.mcost, plus(r.concavity, times(bound, r.shape))) == zero::<N>()
        }),
{
    let r = scene.evaluated(cast, graph, e, max_cost);
    neutral(plus(r.concavity, times(e.bound(max_cost, scene.error), r.shape)));
}

} // verus!
