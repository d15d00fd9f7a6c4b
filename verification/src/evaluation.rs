//! What holds of the cost of an edge.
use crate::ancestor::VertexWithConcavity;
use crate::bvt::interferences;
use crate::decimation::{breaks_off, pass_explained, passes, Outcome, Phase, SceneModel};
use crate::edge::{finds_rays, EdgeModel};
use crate::kernel::{ConvexPair, PairModel};
use crate::linalg::Pnt3;
use crate::mesh::TriMesh;
use crate::rays::Ray;
use crate::scalar::{minus, monotone, opposite, plus, rank, times, top, zero, Scalar};
use crate::vertex::VertexModel;
use vstd::prelude::*;

verus! {

proof fn known_rays_deepen<N: Scalar, C: Fn(&ConvexPair<N>, &Ray<N>) -> Option<N>>(
    e: EdgeModel<N>,
    cast: C,
    pair: PairModel<N>,
    a1: Seq<VertexWithConcavity<N>>,
    a2: Seq<VertexWithConcavity<N>>,
    rays: Seq<Ray<N>>,
    bound: N,
)
    requires
        e.iv1 <= a1.len(),
        e.iv2 <= a2.len(),
    ensures
        ({
            let r = e.known_rays_cast(cast, pair, a1, a2, rays, bound);
            &&& rank(e.concavity) <= rank(r.concavity)
            &&& r.through(a1, a2) || rank(bound) < rank(r.concavity)
            &&& r.iv1 <= a1.len()
            &&& r.iv2 <= a2.len()
        }),
    decreases a1.len() - e.iv1 + a2.len() - e.iv2,
{
    if !(e.through(a1, a2) || rank(bound) < rank(e.concavity)) {
        let next = e.next_ray_cast(cast, pair, a1, a2, rays);
        known_rays_deepen(next, cast, pair, a1, a2, rays, bound);
    }
}

proof fn inner_rays_deepen<N: Scalar, C: Fn(&ConvexPair<N>, &Ray<N>) -> Option<N>>(
    e: EdgeModel<N>,
    cast: C,
    pair: PairModel<N>,
    known: Set<usize>,
    rays: Seq<Ray<N>>,
    ids: Seq<usize>,
)
    ensures
        ({
            let r = e.inner_rays_cast(cast, pair, known, rays, ids);
            &&& rank(e.concavity) <= rank(r.concavity)
            &&& r.iv1 == e.iv1
            &&& r.iv2 == e.iv2
        }),
    decreases ids.len(),
{
    if ids.len() > 0 {
        inner_rays_deepen(e, cast, pair, known, rays, ids.drop_last());
    }
}

/// Evaluating an edge never makes it less concave, takes no more rays into account than its ends
/// know, and leaves some of these out only where it has become more concave than it had to be
/// evaluated for.
pub proof fn evaluation_deepens<N: Scalar, C: Fn(&ConvexPair<N>, &Ray<N>) -> Option<N>>(
    scene: SceneModel<N>,
    cast: C,
    graph: Seq<VertexModel<N>>,
    e: EdgeModel<N>,
    max_cost: N,
)
    requires
        e.iv1 <= graph[e.v1 as int].ancestors->0.len(),
        e.iv2 <= graph[e.v2 as int].ancestors->0.len(),
    ensures
        ({
            let r = scene.evaluated(cast, graph, e, max_cost);
            &&& rank(e.concavity) <= rank(r.concavity)
            &&& r.exact || rank(e.bound(max_cost, scene.error)) < rank(r.concavity)
            &&& r.iv1 <= graph[e.v1 as int].ancestors->0.len()
            &&& r.iv2 <= graph[e.v2 as int].ancestors->0.len()
        }),
{
    let (v1, v2) = (graph[e.v1 as int], graph[e.v2 as int]);
    let pair = PairModel { a: v1.chull->0.coords, b: v2.chull->0.coords };
    let (a1, a2) = (v1.ancestors->0, v2.ancestors->0);
    let bound = e.bound(max_cost, scene.error);
    known_rays_deepen(e, cast, pair, a1, a2, scene.rays, bound);
    let outer = e.known_rays_cast(cast, pair, a1, a2, scene.rays, bound);
    inner_rays_deepen(
        EdgeModel { iray_cast: true, ..outer },
        cast,
        pair,
        v1.uancestors->0.union(v2.uancestors->0),
        scene.rays,
        interferences(scene.leaves, v1.aabb.hull(v2.aabb)),
    );
}

/// A decimation breaks off only at an edge whose shape costs so much that hardly anything is
/// left of the greatest number: less than the concavity that is allowed.
pub proof fn breaking_off_takes_huge_costs<
    N: Scalar,
    C: Fn(&ConvexPair<N>, &Ray<N>) -> Option<N>,
    H: Fn(&[Pnt3<N>]) -> TriMesh<N>,
>(scene: SceneModel<N>, cast: C, hull: H, phase: Phase<N>, min_components: nat)
    requires
        finds_rays(scene.leaves, scene.rays.len()),
        phase.sound(scene),
        breaks_off(scene, cast, hull, phase, min_components),
    ensures
        exists|e: EdgeModel<N>|
            {
                &&& #[trigger] phase.edges.contains(e)
                &&& rank(minus(top::<N>(), times(scene.error, e.shape))) < rank(scene.error)
            },
{
    let post = choose|post: Phase<N>| #[trigger]
        passes(scene, cast, hull, phase, Outcome::Inexact, post);
    let pass = pass_explained(scene, cast, hull, phase, Outcome::Inexact, post);
    evaluation_deepens(scene, cast, phase.graph, pass.bounded, top());
    assert(phase.edges.contains(pass.edge));
}

/// The edge under another timestamp, and with another cost and another claim to be exact.
pub open spec fn relabeled<N>(e: EdgeModel<N>, mcost: N, exact: bool, timestamp: usize) -> EdgeModel<N> {
    EdgeModel { mcost, exact, timestamp, ..e }
}

/// Casting the rays that two parts know does not depend on the labels of an edge, and keeps its
/// labels and its shape.
proof fn known_rays_ignore_labels<N: Scalar, C: Fn(&ConvexPair<N>, &Ray<N>) -> Option<N>>(
    e: EdgeModel<N>,
    cast: C,
    pair: PairModel<N>,
    a1: Seq<VertexWithConcavity<N>>,
    a2: Seq<VertexWithConcavity<N>>,
    rays: Seq<Ray<N>>,
    bound: N,
    mcost: N,
    exact: bool,
    timestamp: usize,
)
    ensures
        relabeled(e, mcost, exact, timestamp).known_rays_cast(cast, pair, a1, a2, rays, bound)
            == relabeled(
            e.known_rays_cast(cast, pair, a1, a2, rays, bound),
            mcost,
            exact,
            timestamp,
        ),
        ({
            let r = e.known_rays_cast(cast, pair, a1, a2, rays, bound);
            &&& r.shape == e.shape
            &&& r.v1 == e.v1
            &&& r.v2 == e.v2
            &&& r.timestamp == e.timestamp
        }),
    decreases a1.len() - e.iv1 + a2.len() - e.iv2,
{
    let other = relabeled(e, mcost, exact, timestamp);
    if !(e.iv1 > a1.len() || e.iv2 > a2.len() || e.through(a1, a2) || rank(bound) < rank(e.concavity)) {
        let next = e.next_ray_cast(cast, pair, a1, a2, rays);
        known_rays_ignore_labels(next, cast, pair, a1, a2, rays, bound, mcost, exact, timestamp);
        assert(other.next_ray_cast(cast, pair, a1, a2, rays) == relabeled(
            next,
            mcost,
            exact,
            timestamp,
        ));
    }
}

/// Casting further rays does not depend on the labels of an edge, and keeps them, its shape and
/// its place in the lists of known rays.
proof fn inner_rays_ignore_labels<N: Scalar, C: Fn(&ConvexPair<N>, &Ray<N>) -> Option<N>>(
    e: EdgeModel<N>,
    cast: C,
    pair: PairModel<N>,
    known: Set<usize>,
    rays: Seq<Ray<N>>,
    ids: Seq<usize>,
    mcost: N,
    exact: bool,
    timestamp: usize,
)
    ensures
        relabeled(e, mcost, exact, timestamp).inner_rays_cast(cast, pair, known, rays, ids) == relabeled(
            e.inner_rays_cast(cast, pair, known, rays, ids),
            mcost,
            exact,
            timestamp,
        ),
        ({
            let r = e.inner_rays_cast(cast, pair, known, rays, ids);
            &&& r.shape == e.shape
            &&& r.v1 == e.v1
            &&& r.v2 == e.v2
            &&& r.timestamp == e.timestamp
            &&& r.iv1 == e.iv1
            &&& r.iv2 == e.iv2
            &&& r.iray_cast == e.iray_cast
        }),
    decreases ids.len(),
{
    if ids.len() > 0 {
        inner_rays_ignore_labels(
            e,
            cast,
            pair,
            known,
            rays,
            ids.drop_last(),
            mcost,
            exact,
            timestamp,
        );
    }
}

/// Casting the rays that two parts know up to one bound, and on from there up to a greater one,
/// is casting them up to the greater one.
proof fn known_rays_resume<N: Scalar, C: Fn(&ConvexPair<N>, &Ray<N>) -> Option<N>>(
    e: EdgeModel<N>,
    cast: C,
    pair: PairModel<N>,
    a1: Seq<VertexWithConcavity<N>>,
    a2: Seq<VertexWithConcavity<N>>,
    rays: Seq<Ray<N>>,
    bound1: N,
    bound2: N,
)
    requires
        rank(bound1) <= rank(bound2),
    ensures
        e.known_rays_cast(cast, pair, a1, a2, rays, bound1).known_rays_cast(
            cast,
            pair,
            a1,
            a2,
            rays,
            bound2,
        ) == e.known_rays_cast(cast, pair, a1, a2, rays, bound2),
    decreases a1.len() - e.iv1 + a2.len() - e.iv2,
{
    if !(e.iv1 > a1.len() || e.iv2 > a2.len() || e.through(a1, a2) || rank(bound1) < rank(e.concavity)) {
        let next = e.next_ray_cast(cast, pair, a1, a2, rays);
        known_rays_resume(next, cast, pair, a1, a2, rays, bound1, bound2);
    }
}

/// What an evaluation finds does not depend on the labels of the edge.
pub proof fn evaluation_ignores_labels<N: Scalar, C: Fn(&ConvexPair<N>, &Ray<N>) -> Option<N>>(
    scene: SceneModel<N>,
    cast: C,
    v1: VertexModel<N>,
    v2: VertexModel<N>,
    e: EdgeModel<N>,
    max_cost: N,
    mcost: N,
    exact: bool,
    timestamp: usize,
)
    ensures
        relabeled(e, mcost, exact, timestamp).evaluated(
            cast,
            v1,
            v2,
            scene.rays,
            scene.leaves,
            max_cost,
            scene.error,
        ) == (EdgeModel {
            timestamp,
            ..e.evaluated(cast, v1, v2, scene.rays, scene.leaves, max_cost, scene.error)
        }),
        ({
            let r = e.evaluated(cast, v1, v2, scene.rays, scene.leaves, max_cost, scene.error);
            &&& r.shape == e.shape
            &&& r.v1 == e.v1
            &&& r.v2 == e.v2
            &&& r.timestamp == e.timestamp
        }),
{
    let pair = PairModel { a: v1.chull->0.coords, b: v2.chull->0.coords };
    let (a1, a2) = (v1.ancestors->0, v2.ancestors->0);
    let bound = e.bound(max_cost, scene.error);
    let known = v1.uancestors->0.union(v2.uancestors->0);
    let ids = interferences(scene.leaves, v1.aabb.hull(v2.aabb));
    known_rays_ignore_labels(e, cast, pair, a1, a2, scene.rays, bound, mcost, exact, timestamp);
    let outer = e.known_rays_cast(cast, pair, a1, a2, scene.rays, bound);
    let marked = EdgeModel { iray_cast: true, ..outer };
    inner_rays_ignore_labels(marked, cast, pair, known, scene.rays, ids, mcost, exact, timestamp);
    let other = relabeled(e, mcost, exact, timestamp);
    let outer2 = other.known_rays_cast(cast, pair, a1, a2, scene.rays, bound);
    assert(other.bound(max_cost, scene.error) == bound);
    assert(outer2 == relabeled(outer, mcost, exact, timestamp));
    assert((EdgeModel { iray_cast: true, ..outer2 }) == relabeled(marked, mcost, exact, timestamp));
}

/// An evaluation that is resumed loses no ray and repeats none: evaluating an edge for one cost
/// and then for another is evaluating it for the other one, where the first cost leaves no
/// greater bound than the second one.
pub proof fn evaluation_resumes<N: Scalar, C: Fn(&ConvexPair<N>, &Ray<N>) -> Option<N>>(
    scene: SceneModel<N>,
    cast: C,
    v1: VertexModel<N>,
    v2: VertexModel<N>,
    e: EdgeModel<N>,
    cost1: N,
    cost2: N,
)
    requires
        rank(e.bound(cost1, scene.error)) <= rank(e.bound(cost2, scene.error)),
    ensures
        e.evaluated(cast, v1, v2, scene.rays, scene.leaves, cost1, scene.error).evaluated(
            cast,
            v1,
            v2,
            scene.rays,
            scene.leaves,
            cost2,
            scene.error,
        ) == e.evaluated(cast, v1, v2, scene.rays, scene.leaves, cost2, scene.error),
{
    let pair = PairModel { a: v1.chull->0.coords, b: v2.chull->0.coords };
    let (a1, a2) = (v1.ancestors->0, v2.ancestors->0);
    let (b1, b2) = (e.bound(cost1, scene.error), e.bound(cost2, scene.error));
    let known = v1.uancestors->0.union(v2.uancestors->0);
    let ids = interferences(scene.leaves, v1.aabb.hull(v2.aabb));
    let rays = scene.rays;
    let o1 = e.known_rays_cast(cast, pair, a1, a2, rays, b1);
    let o2 = e.known_rays_cast(cast, pair, a1, a2, rays, b2);
    let r1 = e.evaluated(cast, v1, v2, rays, scene.leaves, cost1, scene.error);
    let (m, x, t) = (r1.mcost, r1.exact, r1.timestamp);
    evaluation_ignores_labels(scene, cast, v1, v2, e, cost1, e.mcost, e.exact, e.timestamp);
    assert(r1.bound(cost2, scene.error) == b2);
    known_rays_resume(e, cast, pair, a1, a2, rays, b1, b2);
    known_rays_ignore_labels(e, cast, pair, a1, a2, rays, b1, m, x, t);
    let marked1 = EdgeModel { iray_cast: true, ..o1 };
    inner_rays_ignore_labels(marked1, cast, pair, known, rays, ids, m, x, t);
    if !o1.iray_cast && o1.through(a1, a2) {
        let all = marked1.inner_rays_cast(cast, pair, known, rays, ids);
        assert(r1 == relabeled(all, m, x, t));
        assert(o2 == o1);
        assert(r1.known_rays_cast(cast, pair, a1, a2, rays, b2) == r1);
    } else {
        assert(r1 == relabeled(o1, m, x, t));
        known_rays_ignore_labels(o1, cast, pair, a1, a2, rays, b2, m, x, t);
        let resumed = r1.known_rays_cast(cast, pair, a1, a2, rays, b2);
        assert(resumed == relabeled(o2, m, x, t));
        let marked2 = EdgeModel { iray_cast: true, ..o2 };
        inner_rays_ignore_labels(marked2, cast, pair, known, rays, ids, m, x, t);
        assert((EdgeModel { iray_cast: true, ..resumed }) == relabeled(marked2, m, x, t));
        known_rays_ignore_labels(e, cast, pair, a1, a2, rays, b2, m, x, t);
    }
}

/// A greater cost leaves a greater bound, where the operations respect the order.
pub proof fn greater_costs_leave_greater_bounds<N: Scalar>(
    e: EdgeModel<N>,
    error: N,
    cost1: N,
    cost2: N,
)
    requires
        monotone::<N>(),
        rank(cost1) <= rank(cost2),
    ensures
        rank(e.bound(cost1, error)) <= rank(e.bound(cost2, error)),
{
    let charge = times(error, e.shape);
    assert(rank(minus(cost1, charge)) <= rank(minus(cost2, charge)));
}

/// The cost of an edge is only a bound until every ray has been taken into account: where the
/// operations respect the order, evaluating an edge for a cost, and then for a greater one, does
/// not make `mcost`, the opposite of its cost, greater.
pub proof fn costs_only_grow<N: Scalar, C: Fn(&ConvexPair<N>, &Ray<N>) -> Option<N>>(
    scene: SceneModel<N>,
    cast: C,
    graph: Seq<VertexModel<N>>,
    e: EdgeModel<N>,
    cost1: N,
    cost2: N,
)
    requires
        monotone::<N>(),
        rank(cost1) <= rank(cost2),
        rank(zero::<N>()) <= rank(e.shape),
        e.iv1 <= graph[e.v1 as int].ancestors->0.len(),
        e.iv2 <= graph[e.v2 as int].ancestors->0.len(),
    ensures
        ({
            let first = scene.evaluated(cast, graph, e, cost1);
            rank(scene.evaluated(cast, graph, first, cost2).mcost) <= rank(first.mcost)
        }),
{
    let (v1, v2) = (graph[e.v1 as int], graph[e.v2 as int]);
    let first = scene.evaluated(cast, graph, e, cost1);
    greater_costs_leave_greater_bounds(e, scene.error, cost1, cost2);
    evaluation_resumes(scene, cast, v1, v2, e, cost1, cost2);
    evaluation_ignores_labels(scene, cast, v1, v2, e, cost1, e.mcost, e.exact, e.timestamp);
    let second = scene.evaluated(cast, graph, first, cost2);
    evaluation_ignores_labels(
        scene,
        cast,
        v1,
        v2,
        first,
        cost2,
        first.mcost,
        first.exact,
        first.timestamp,
    );
    evaluation_deepens(scene, cast, graph, e, cost1);
    evaluation_deepens(scene, cast, graph, first, cost2);
    let (b1, b2) = (e.bound(cost1, scene.error), e.bound(cost2, scene.error));
    let (p1, p2) = (times(b1, e.shape), times(b2, e.shape));
    assert(rank(p1) <= rank(p2));
    assert(rank(plus(first.concavity, p1)) <= rank(plus(second.concavity, p2)));
    assert(first.mcost == opposite(plus(first.concavity, p1)));
    assert(second.mcost == opposite(plus(second.concavity, p2)));
}

/// The cost with which an edge is made is a bound of what it costs once it has been evaluated,
/// where the operations respect the order and its shape leaves room for the allowed concavity.
pub proof fn fresh_costs_are_bounds<N: Scalar, C: Fn(&ConvexPair<N>, &Ray<N>) -> Option<N>>(
    scene: SceneModel<N>,
    cast: C,
    graph: Seq<VertexModel<N>>,
    timestamp: usize,
    v1: usize,
    v2: usize,
    max_cost: N,
)
    requires
        monotone::<N>(),
        ({
            let e = EdgeModel::between(timestamp, v1, v2, graph, scene.coords, scene.error);
            &&& rank(zero::<N>()) <= rank(e.shape)
            &&& rank(scene.error) <= rank(minus(max_cost, times(scene.error, e.shape)))
        }),
    ensures
        ({
            let e = EdgeModel::between(timestamp, v1, v2, graph, scene.coords, scene.error);
            rank(scene.evaluated(cast, graph, e, max_cost).mcost) <= rank(e.mcost)
        }),
{
    let e = EdgeModel::between(timestamp, v1, v2, graph, scene.coords, scene.error);
    let r = scene.evaluated(cast, graph, e, max_cost);
    evaluation_deepens(scene, cast, graph, e, max_cost);
    evaluation_ignores_labels(
        scene,
        cast,
        graph[e.v1 as int],
        graph[e.v2 as int],
        e,
        max_cost,
        e.mcost,
        e.exact,
        e.timestamp,
    );
    let charge = times(scene.error, e.shape);
    assert(e.bound(max_cost, scene.error) == scene.error);
    assert(rank(plus(e.concavity, charge)) <= rank(plus(r.concavity, charge)));
    assert(r.mcost == opposite(plus(r.concavity, charge)));
}

} // verus!
