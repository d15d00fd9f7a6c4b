//! A decimation that runs out of edges leaves no two neighbors that could be made one.
use crate::ancestor::VertexWithConcavity;
use crate::connected::{adjacent, parts_are_connected};
use crate::decimation::{
    contraction_explained, decimates, fresh_edges, fresh_edges_lead, pass_explained, passes,
    passes_keep_sound, valid_edges_live, Outcome, Phase, SceneModel,
};
use crate::dual_graph::sharing_a_side_makes_neighbors;
use crate::edge::{finds_rays, some_ray_hits, EdgeModel};
use crate::evaluation::{
    evaluation_deepens, evaluation_ignores_labels, evaluation_resumes, relabeled,
};
use crate::kernel::{enclosure, ConvexPair, PairModel};
use crate::laws::{
    initial_edges_lead, owns, parts_are_a_partition, pass_at, start_is_sound, states_are_sound,
};
use crate::linalg::{Pnt3, Vec2};
use crate::mesh::{MeshModel, TriMesh};
use crate::rays::Ray;
use crate::scalar::{greater, minus, opposite, rank, times, top, Scalar};
use crate::set::{finite_sets_can_be_sorted, index_sets_are_finite, sorted};
use crate::vertex::{hull_points, VertexModel};
use vstd::multiset::Multiset;
use vstd::prelude::*;

verus! {

/// The edge after it has been evaluated for each of the costs, one after the other.
pub open spec fn refined<N: Scalar, C: Fn(&ConvexPair<N>, &Ray<N>) -> Option<N>>(
    scene: SceneModel<N>,
    cast: C,
    graph: Seq<VertexModel<N>>,
    edge: EdgeModel<N>,
    costs: Seq<N>,
) -> EdgeModel<N>
    decreases costs.len(),
{
    if costs.len() == 0 {
        edge
    } else {
        let before = refined(scene, cast, graph, edge, costs.drop_last());
        let (v1, v2) = (graph[edge.v1 as int], graph[edge.v2 as int]);
        before.evaluated(cast, v1, v2, scene.rays, scene.leaves, costs.last(), scene.error)
    }
}

/// The edge between two vertices, as it is made.
pub open spec fn made<N: Scalar>(
    scene: SceneModel<N>,
    graph: Seq<VertexModel<N>>,
    timestamp: usize,
    v1: usize,
    v2: usize,
) -> EdgeModel<N> {
    EdgeModel::between(timestamp, v1, v2, graph, scene.coords, scene.error)
}

/// Whether the concavity of `edge` is that with which it was made, or that of a ray that has hit.
pub open spec fn genuine<N: Scalar, C: Fn(&ConvexPair<N>, &Ray<N>) -> Option<N>>(
    scene: SceneModel<N>,
    cast: C,
    graph: Seq<VertexModel<N>>,
    edge: EdgeModel<N>,
) -> bool {
    let (v1, v2) = (graph[edge.v1 as int], graph[edge.v2 as int]);
    ||| edge.concavity == greater(v1.concavity, v2.concavity)
    ||| some_ray_hits(
        cast,
        PairModel { a: v1.chull->0.coords, b: v2.chull->0.coords },
        scene.rays,
        edge.concavity,
    )
}

/// Whether `edge` is what evaluations have made of the edge between its ends, with casts that
/// have been made.
pub open spec fn stems<N: Scalar, C: Fn(&ConvexPair<N>, &Ray<N>) -> Option<N>>(
    scene: SceneModel<N>,
    cast: C,
    graph: Seq<VertexModel<N>>,
    edge: EdgeModel<N>,
) -> bool {
    &&& genuine(scene, cast, graph, edge)
    &&& exists|costs: Seq<N>|
        edge == #[trigger] refined(
            scene,
            cast,
            graph,
            made(scene, graph, edge.timestamp, edge.v1, edge.v2),
            costs,
        )
}

/// Whether the edge between the two vertices, evaluated, has turned out too concave.
pub open spec fn refused<N: Scalar, C: Fn(&ConvexPair<N>, &Ray<N>) -> Option<N>>(
    scene: SceneModel<N>,
    cast: C,
    graph: Seq<VertexModel<N>>,
    v1: usize,
    v2: usize,
) -> bool {
    exists|edge: EdgeModel<N>|
        {
            &&& edge.v1 == v1
            &&& edge.v2 == v2
            &&& #[trigger] stems(scene, cast, graph, edge)
            &&& scene.too_concave(edge)
        }
}

/// Whether a valid edge between the two vertices waits.
pub open spec fn pending<N: Scalar>(phase: Phase<N>, v1: usize, v2: usize) -> bool {
    exists|edge: EdgeModel<N>|
        {
            &&& #[trigger] phase.edges.contains(edge)
            &&& edge.v1 == v1
            &&& edge.v2 == v2
            &&& edge.valid(phase.graph)
        }
}

/// Whether `v1` and a later vertex `v2` are parts of their own and neighbors.
pub open spec fn neighboring<N>(graph: Seq<VertexModel<N>>, v1: usize, v2: usize) -> bool {
    &&& v1 < v2
    &&& v2 < graph.len()
    &&& graph[v1 as int].alive()
    &&& graph[v1 as int].neighbors->0.contains(v2)
}

/// Whether the waiting edges that are valid stem from their ends, and of two neighbors the edge
/// waits or has been refused.
pub open spec fn attended<N: Scalar, C: Fn(&ConvexPair<N>, &Ray<N>) -> Option<N>>(
    scene: SceneModel<N>,
    cast: C,
    phase: Phase<N>,
) -> bool {
    &&& forall|x: EdgeModel<N>| #[trigger]
        phase.edges.contains(x) && x.valid(phase.graph) ==> stems(scene, cast, phase.graph, x)
    &&& forall|v1: usize, v2: usize| #[trigger]
        neighboring(phase.graph, v1, v2) ==> pending(phase, v1, v2) || refused(
            scene,
            cast,
            phase.graph,
            v1,
            v2,
        )
}

/// Whether two vertices differ in nothing but their neighbors.
spec fn alike<N>(a: VertexModel<N>, b: VertexModel<N>) -> bool {
    a.linked(Set::empty()) == b.linked(Set::empty())
}

/// What becomes of an edge does not depend on the neighbors of its ends.
proof fn refining_ignores_neighbors<N: Scalar, C: Fn(&ConvexPair<N>, &Ray<N>) -> Option<N>>(
    scene: SceneModel<N>,
    cast: C,
    g: Seq<VertexModel<N>>,
    h: Seq<VertexModel<N>>,
    edge: EdgeModel<N>,
    costs: Seq<N>,
)
    requires
        alike(g[edge.v1 as int], h[edge.v1 as int]),
        alike(g[edge.v2 as int], h[edge.v2 as int]),
    ensures
        refined(scene, cast, g, edge, costs) == refined(scene, cast, h, edge, costs),
    decreases costs.len(),
{
    if costs.len() > 0 {
        refining_ignores_neighbors(scene, cast, g, h, edge, costs.drop_last());
        let (a, b) = (g[edge.v1 as int], h[edge.v1 as int]);
        let (c, d) = (g[edge.v2 as int], h[edge.v2 as int]);
        assert(a.linked(Set::empty()).chull == b.linked(Set::empty()).chull);
        assert(c.linked(Set::empty()).chull == d.linked(Set::empty()).chull);
    }
}

proof fn stemming_ignores_neighbors<N: Scalar, C: Fn(&ConvexPair<N>, &Ray<N>) -> Option<N>>(
    scene: SceneModel<N>,
    cast: C,
    g: Seq<VertexModel<N>>,
    h: Seq<VertexModel<N>>,
    edge: EdgeModel<N>,
)
    requires
        edge.v1 < edge.v2,
        alike(g[edge.v1 as int], h[edge.v1 as int]),
        alike(g[edge.v2 as int], h[edge.v2 as int]),
        stems(scene, cast, g, edge),
    ensures
        stems(scene, cast, h, edge),
{
    let fresh = made(scene, g, edge.timestamp, edge.v1, edge.v2);
    let costs = choose|costs: Seq<N>| edge == #[trigger] refined(scene, cast, g, fresh, costs);
    let (a, b) = (g[edge.v1 as int], h[edge.v1 as int]);
    let (c, d) = (g[edge.v2 as int], h[edge.v2 as int]);
    assert(a.linked(Set::empty()).border == b.linked(Set::empty()).border);
    assert(c.linked(Set::empty()).border == d.linked(Set::empty()).border);
    assert(fresh == made(scene, h, edge.timestamp, edge.v1, edge.v2));
    refining_ignores_neighbors(scene, cast, g, h, fresh, costs);
}

/// An edge that stems from its ends does so after one more evaluation.
pub proof fn evaluated_stems<N: Scalar, C: Fn(&ConvexPair<N>, &Ray<N>) -> Option<N>>(
    scene: SceneModel<N>,
    cast: C,
    graph: Seq<VertexModel<N>>,
    edge: EdgeModel<N>,
    max_cost: N,
)
    requires
        edge.v1 < edge.v2,
        stems(scene, cast, graph, edge),
        ({
            let r = scene.evaluated(cast, graph, edge, max_cost);
            r.v1 == edge.v1 && r.v2 == edge.v2 && r.timestamp == edge.timestamp
        }),
        scene.witnessed(cast, graph, edge, scene.evaluated(cast, graph, edge, max_cost)),
    ensures
        stems(scene, cast, graph, scene.evaluated(cast, graph, edge, max_cost)),
{
    let fresh = made(scene, graph, edge.timestamp, edge.v1, edge.v2);
    let costs = choose|costs: Seq<N>| edge == #[trigger] refined(scene, cast, graph, fresh, costs);
    let more = costs.push(max_cost);
    assert(more.drop_last() =~= costs);
    assert(refined(scene, cast, graph, fresh, more) == scene.evaluated(cast, graph, edge, max_cost));
}

/// A pass that drops `edge`, or replaces it by `bounded`, keeps the neighbors attended.
proof fn waiting_keeps_attended<N: Scalar, C: Fn(&ConvexPair<N>, &Ray<N>) -> Option<N>>(
    scene: SceneModel<N>,
    cast: C,
    pre: Phase<N>,
    edge: EdgeModel<N>,
    edges: Multiset<EdgeModel<N>>,
)
    requires
        attended(scene, cast, pre),
        forall|x: EdgeModel<N>| #[trigger]
            edges.contains(x) && x.valid(pre.graph) ==> stems(scene, cast, pre.graph, x),
        forall|x: EdgeModel<N>| #[trigger] pre.edges.contains(x) && x != edge ==> edges.contains(x),
        edge.valid(pre.graph) ==> pending(pre.waiting(edges), edge.v1, edge.v2) || refused(
            scene,
            cast,
            pre.graph,
            edge.v1,
            edge.v2,
        ),
    ensures
        attended(scene, cast, pre.waiting(edges)),
{
    let post = pre.waiting(edges);
    assert forall|v1: usize, v2: usize| #[trigger] neighboring(post.graph, v1, v2) implies pending(
        post,
        v1,
        v2,
    ) || refused(scene, cast, post.graph, v1, v2) by {
        assert(neighboring(pre.graph, v1, v2));
        if pending(pre, v1, v2) {
            let x = choose|x: EdgeModel<N>|
                {
                    &&& #[trigger] pre.edges.contains(x)
                    &&& x.v1 == v1
                    &&& x.v2 == v2
                    &&& x.valid(pre.graph)
                };
            if x != edge {
                assert(post.edges.contains(x));
            }
        }
    }
}

/// A contraction keeps the neighbors attended.
proof fn contraction_keeps_attended<N: Scalar, C: Fn(&ConvexPair<N>, &Ray<N>) -> Option<N>>(
    scene: SceneModel<N>,
    cast: C,
    pre: Phase<N>,
    post: Phase<N>,
    edge: EdgeModel<N>,
    full: EdgeModel<N>,
    ancestors: Seq<VertexWithConcavity<N>>,
    chull: MeshModel<N>,
)
    requires
        pre.sound(scene),
        attended(scene, cast, pre),
        pre.edges.contains(edge),
        edge.valid(pre.graph),
        full.v1 == edge.v1,
        full.v2 == edge.v2,
        post == pre.after_contraction(scene, pre.edges.remove(edge), full, ancestors, chull),
        post.sound(scene),
    ensures
        attended(scene, cast, post),
{
    let rest = pre.edges.remove(edge);
    let (g, h) = (pre.graph, post.graph);
    let (v, o) = (full.v1, full.v2);
    assert(pre.edge_sound(scene, edge));
    valid_edges_live(scene, pre, edge);
    let time = post.time as usize;
    let others = sorted(h[v as int].neighbors->0);
    let fresh = fresh_edges(scene, h, time, v, others, true);
    index_sets_are_finite(h[v as int].neighbors->0);
    finite_sets_can_be_sorted(h[v as int].neighbors->0);
    assert(post.vertex_sound(scene, v as int) && post.links_sound(v as int));
    assert forall|i: int| 0 <= i < g.len() && i != v && i != o implies alike(
        g[i],
        #[trigger] h[i],
    ) by {
        assert(g[i].linked(Set::empty()) == h[i].linked(Set::empty()));
    }
    assert forall|x: EdgeModel<N>| #[trigger] post.edges.contains(x) && x.valid(h) implies stems(
        scene,
        cast,
        h,
        x,
    ) by {
        if fresh.contains(x) {
            fresh_edges_lead(scene, h, time, v, others, true, x);
            let i = choose|i: int|
                {
                    &&& 0 <= i < others.len()
                    &&& x == EdgeModel::between(
                        time,
                        v,
                        #[trigger] others[i],
                        h,
                        scene.coords,
                        scene.error,
                    )
                };
            assert(others.contains(others[i]));
            assert(h[v as int].neighbors->0.contains(others[i]));
            assert(x == made(scene, h, time, x.v1, x.v2));
            assert(refined(scene, cast, h, x, Seq::empty()) == x);
        } else {
            assert(rest.contains(x));
            assert(pre.edges.contains(x));
            assert(pre.edge_sound(scene, x));
            assert(x.v1 != v && x.v1 != o && x.v2 != v && x.v2 != o);
            assert(x.valid(g));
            assert(alike(g[x.v1 as int], h[x.v1 as int]) && alike(g[x.v2 as int], h[x.v2 as int]));
            stemming_ignores_neighbors(scene, cast, g, h, x);
        }
    }
    assert forall|v1: usize, v2: usize| #[trigger] neighboring(h, v1, v2) implies pending(post, v1, v2)
        || refused(scene, cast, h, v1, v2) by {
        assert(post.links_sound(v1 as int));
        assert(post.vertex_sound(scene, v1 as int) && post.vertex_sound(scene, v2 as int));
        if v1 == v || v2 == v {
            let n = if v1 == v {
                v2
            } else {
                v1
            };
            assert(h[v as int].neighbors->0.contains(n));
            let x = made(scene, h, time, v, n);
            assert(others.contains(n));
            let i = choose|i: int| 0 <= i < others.len() && others[i] == n;
            fresh_edges_lead(scene, h, time, v, others, true, x);
            assert(fresh.contains(x));
            assert(post.edges.contains(x));
            assert(x.valid(h));
        } else {
            assert(h[v1 as int].alive() && h[v2 as int].alive());
            assert(v1 != o && v2 != o);
            assert(g[v1 as int].neighbors->0.contains(v2));
            assert(neighboring(g, v1, v2));
            assert(alike(g[v1 as int], h[v1 as int]) && alike(g[v2 as int], h[v2 as int]));
            if pending(pre, v1, v2) {
                let x = choose|x: EdgeModel<N>|
                    {
                        &&& #[trigger] pre.edges.contains(x)
                        &&& x.v1 == v1
                        &&& x.v2 == v2
                        &&& x.valid(g)
                    };
                assert(rest.contains(x));
                assert(post.edges.contains(x));
                assert(x.valid(h));
            } else {
                let x = choose|x: EdgeModel<N>|
                    {
                        &&& x.v1 == v1
                        &&& x.v2 == v2
                        &&& #[trigger] stems(scene, cast, g, x)
                        &&& scene.too_concave(x)
                    };
                stemming_ignores_neighbors(scene, cast, g, h, x);
            }
        }
    }
}

/// Every pass keeps the neighbors attended, unless it breaks off.
proof fn passes_keep_attended<
    N: Scalar,
    C: Fn(&ConvexPair<N>, &Ray<N>) -> Option<N>,
    H: Fn(&[Pnt3<N>]) -> TriMesh<N>,
>(scene: SceneModel<N>, cast: C, hull: H, pre: Phase<N>, outcome: Outcome, post: Phase<N>)
    requires
        finds_rays(scene.leaves, scene.rays.len()),
        pre.sound(scene),
        attended(scene, cast, pre),
        passes(scene, cast, hull, pre, outcome, post),
        outcome != Outcome::Inexact,
    ensures
        attended(scene, cast, post),
{
    if pre.edges.len() > 0 {
        passes_keep_sound(scene, cast, hull, pre, outcome, post);
        let pass = pass_explained(scene, cast, hull, pre, outcome, post);
        let (edge, bounded, full) = (pass.edge, pass.bounded, pass.full);
        let rest = pre.edges.remove(edge);
        assert forall|x: EdgeModel<N>| #[trigger] rest.contains(x) && x.valid(pre.graph) implies stems(
            scene,
            cast,
            pre.graph,
            x,
        ) by {
            assert(pre.edges.contains(x));
        }
        if !edge.valid(pre.graph) {
            waiting_keeps_attended(scene, cast, pre, edge, rest);
        } else {
            if !edge.exact {
                evaluated_stems(scene, cast, pre.graph, edge, opposite(pass.limit));
            }
            if scene.witnessed(cast, pre.graph, bounded, full) {
                evaluated_stems(scene, cast, pre.graph, bounded, top());
            }
            if outcome == Outcome::Contracted {
                let chull = enclosure(hull, hull_points(pre.graph, full));
                let ancestors = contraction_explained(scene, hull, pre, rest, full, post);
                contraction_keeps_attended(scene, cast, pre, post, edge, full, ancestors, chull);
            } else if outcome == Outcome::Delayed {
                let edges = rest.insert(bounded);
                assert(edges.contains(bounded));
                assert(pre.waiting(edges).edges.contains(bounded));
                assert(bounded.valid(pre.graph));
                assert forall|x: EdgeModel<N>| #[trigger]
                    edges.contains(x) && x.valid(pre.graph) implies stems(scene, cast, pre.graph, x) by {
                    if x != bounded {
                        assert(rest.contains(x));
                    }
                }
                waiting_keeps_attended(scene, cast, pre, edge, edges);
            } else {
                waiting_keeps_attended(scene, cast, pre, edge, rest);
            }
        }
    }
}

/// At every moment of a decimation the edge between two neighbors waits, or it has been refused
/// because it is too concave.
pub proof fn neighbors_are_attended<
    N: Scalar,
    C: Fn(&ConvexPair<N>, &Ray<N>) -> Option<N>,
    H: Fn(&[Pnt3<N>]) -> TriMesh<N>,
>(
    mesh: MeshModel<N>,
    error: N,
    min_components: nat,
    cast: C,
    hull: H,
    trace: Seq<Phase<N>>,
    i: int,
)
    requires
        mesh.complete(),
        mesh.countable(),
        decimates(mesh, error, min_components, cast, hull, trace),
        0 <= i < trace.len(),
    ensures
        attended(mesh.scene(error), cast, trace[i]),
    decreases i,
{
    let scene = mesh.scene(error);
    let phase = trace[i];
    let g = phase.graph;
    if i == 0 {
        start_is_sound(mesh, error);
        assert forall|x: EdgeModel<N>| #[trigger] phase.edges.contains(x) && x.valid(g) implies stems(
            scene,
            cast,
            g,
            x,
        ) by {
            initial_edges_lead(scene, g, g.len(), x);
            let (v, n) = choose|v: usize, n: usize|
                {
                    &&& v < g.len()
                    &&& v < n
                    &&& #[trigger] g[v as int].neighbors->0.contains(n)
                    &&& x == EdgeModel::between(0, v, n, g, scene.coords, scene.error)
                };
            assert(x == made(scene, g, 0, x.v1, x.v2));
            assert(refined(scene, cast, g, x, Seq::empty()) == x);
        }
        assert forall|v1: usize, v2: usize| #[trigger] neighboring(g, v1, v2) implies pending(
            phase,
            v1,
            v2,
        ) || refused(scene, cast, g, v1, v2) by {
            let x = made(scene, g, 0, v1, v2);
            initial_edges_lead(scene, g, g.len(), x);
            assert(g[v1 as int].neighbors->0.contains(v2));
            assert(phase.edges.contains(x));
            assert(x.valid(g));
        }
    } else {
        neighbors_are_attended(mesh, error, min_components, cast, hull, trace, i - 1);
        states_are_sound(mesh, error, min_components, cast, hull, trace, i - 1);
        let outcome = pass_at(mesh, error, min_components, cast, hull, trace, i - 1);
        passes_keep_attended(scene, cast, hull, trace[i - 1], outcome, trace[i]);
    }
}

/// A decimation that has run out of edges is at its end: the edge between any two neighbors has
/// been evaluated for the parts as they are, and is too concave.
pub proof fn no_neighbors_are_left_to_join<
    N: Scalar,
    C: Fn(&ConvexPair<N>, &Ray<N>) -> Option<N>,
    H: Fn(&[Pnt3<N>]) -> TriMesh<N>,
>(
    mesh: MeshModel<N>,
    error: N,
    min_components: nat,
    cast: C,
    hull: H,
    trace: Seq<Phase<N>>,
    v1: usize,
    v2: usize,
)
    requires
        mesh.complete(),
        mesh.countable(),
        decimates(mesh, error, min_components, cast, hull, trace),
        trace.last().edges.len() == 0,
        neighboring(trace.last().graph, v1, v2),
    ensures
        refused(mesh.scene(error), cast, trace.last().graph, v1, v2),
{
    let last = trace.last();
    neighbors_are_attended(mesh, error, min_components, cast, hull, trace, trace.len() - 1);
    if pending(last, v1, v2) {
        let x = choose|x: EdgeModel<N>|
            {
                &&& #[trigger] last.edges.contains(x)
                &&& x.v1 == v1
                &&& x.v2 == v2
                &&& x.valid(last.graph)
            };
        assert(last.edges.count(x) <= last.edges.len());
    }
}

/// Evaluating an edge for several costs, and at last for one that leaves a bound as great as all
/// the others, is evaluating it once for the last one.
pub proof fn refining_is_one_evaluation<N: Scalar, C: Fn(&ConvexPair<N>, &Ray<N>) -> Option<N>>(
    scene: SceneModel<N>,
    cast: C,
    graph: Seq<VertexModel<N>>,
    edge: EdgeModel<N>,
    costs: Seq<N>,
    last: N,
)
    requires
        forall|k: int|
            0 <= k < costs.len() ==> rank(edge.bound(#[trigger] costs[k], scene.error)) <= rank(
                edge.bound(last, scene.error),
            ),
        edge.iv1 <= graph[edge.v1 as int].ancestors->0.len(),
        edge.iv2 <= graph[edge.v2 as int].ancestors->0.len(),
    ensures
        scene.evaluated(cast, graph, refined(scene, cast, graph, edge, costs), last)
            == scene.evaluated(cast, graph, edge, last),
        ({
            let r = refined(scene, cast, graph, edge, costs);
            &&& r.v1 == edge.v1
            &&& r.v2 == edge.v2
            &&& r.shape == edge.shape
            &&& r.iv1 <= graph[edge.v1 as int].ancestors->0.len()
            &&& r.iv2 <= graph[edge.v2 as int].ancestors->0.len()
        }),
    decreases costs.len(),
{
    if costs.len() > 0 {
        let fewer = costs.drop_last();
        let (v1, v2) = (graph[edge.v1 as int], graph[edge.v2 as int]);
        assert forall|k: int| 0 <= k < fewer.len() implies rank(
            edge.bound(#[trigger] fewer[k], scene.error),
        ) <= rank(edge.bound(last, scene.error)) by {
            assert(fewer[k] == costs[k]);
        }
        refining_is_one_evaluation(scene, cast, graph, edge, fewer, last);
        let before = refined(scene, cast, graph, edge, fewer);
        assert(costs[costs.len() - 1] == costs.last());
        evaluation_resumes(scene, cast, v1, v2, before, costs.last(), last);
        evaluation_ignores_labels(
            scene,
            cast,
            v1,
            v2,
            before,
            costs.last(),
            before.mcost,
            before.exact,
            before.timestamp,
        );
        evaluation_deepens(scene, cast, graph, before, costs.last());
    }
}

/// A pair that has been refused is too concave when it is evaluated once, for the greatest
/// number, where its shape leaves room for the allowed concavity.
pub proof fn refusals_hold_of_one_evaluation<
    N: Scalar,
    C: Fn(&ConvexPair<N>, &Ray<N>) -> Option<N>,
>(
    scene: SceneModel<N>,
    cast: C,
    graph: Seq<VertexModel<N>>,
    timestamp: usize,
    v1: usize,
    v2: usize,
)
    requires
        v1 < v2,
        refused(scene, cast, graph, v1, v2),
        rank(scene.error) <= rank(
            minus(top::<N>(), times(scene.error, made(scene, graph, timestamp, v1, v2).shape)),
        ),
    ensures
        scene.too_concave(
            scene.evaluated(cast, graph, made(scene, graph, timestamp, v1, v2), top()),
        ),
{
    let x = choose|x: EdgeModel<N>|
        {
            &&& x.v1 == v1
            &&& x.v2 == v2
            &&& #[trigger] stems(scene, cast, graph, x)
            &&& scene.too_concave(x)
        };
    let fresh = made(scene, graph, x.timestamp, v1, v2);
    let costs = choose|costs: Seq<N>| x == #[trigger] refined(scene, cast, graph, fresh, costs);
    assert(fresh.bound(top(), scene.error) == scene.error);
    refining_is_one_evaluation(scene, cast, graph, fresh, costs, top());
    evaluation_deepens(scene, cast, graph, x, top());
    let other = made(scene, graph, timestamp, v1, v2);
    assert(other == relabeled(fresh, other.mcost, other.exact, timestamp));
    evaluation_ignores_labels(
        scene,
        cast,
        graph[v1 as int],
        graph[v2 as int],
        fresh,
        top(),
        other.mcost,
        other.exact,
        timestamp,
    );
}

/// A decimation that has run out of edges leaves nothing to join along a side: where two triangles
/// that are alone at a side have come into two parts, making the two parts one would be too
/// concave. One evaluation of their edge, for the greatest number, shows it, where its shape
/// leaves room for the allowed concavity.
pub proof fn no_side_is_left_to_join<
    N: Scalar,
    C: Fn(&ConvexPair<N>, &Ray<N>) -> Option<N>,
    H: Fn(&[Pnt3<N>]) -> TriMesh<N>,
>(
    mesh: MeshModel<N>,
    error: N,
    min_components: nat,
    cast: C,
    hull: H,
    trace: Seq<Phase<N>>,
    side: Vec2<u32>,
    s: usize,
    t: usize,
    i: usize,
    j: usize,
    timestamp: usize,
)
    requires
        mesh.complete(),
        mesh.countable(),
        decimates(mesh, error, min_components, cast, hull, trace),
        trace.last().edges.len() == 0,
        s < mesh.size(),
        t < mesh.size(),
        s != t,
        mesh.sides(s as int).contains(side),
        mesh.sides(t as int).contains(side),
        forall|k: usize|
            k < mesh.size() && k != s && k != t ==> !(#[trigger] mesh.sides(k as int)).contains(side),
        i != j,
        i < mesh.size(),
        j < mesh.size(),
        owns(trace.last().graph, i as int, s),
        owns(trace.last().graph, j as int, t),
        rank(error) <= rank(
            minus(
                top::<N>(),
                times(error, made(mesh.scene(error), trace.last().graph, timestamp, i, j).shape),
            ),
        ),
    ensures
        mesh.scene(error).too_concave(
            mesh.scene(error).evaluated(
                cast,
                trace.last().graph,
                made(mesh.scene(error), trace.last().graph, timestamp, i, j),
                top(),
            ),
        ),
{
    let last = trace.last();
    let g = last.graph;
    let scene = mesh.scene(error);
    sharing_a_side_makes_neighbors(mesh, s, t, side);
    parts_are_a_partition(mesh, error, min_components, cast, hull, trace, trace.len() - 1);
    parts_are_connected(mesh, error, min_components, cast, hull, trace, trace.len() - 1);
    states_are_sound(mesh, error, min_components, cast, hull, trace, trace.len() - 1);
    assert(adjacent(mesh, s, t));
    assert(g[i as int].neighbors->0.contains(j));
    assert(last.links_sound(i as int));
    let (v1, v2) = if i < j {
        (i, j)
    } else {
        (j, i)
    };
    assert(neighboring(g, v1, v2));
    no_neighbors_are_left_to_join(mesh, error, min_components, cast, hull, trace, v1, v2);
    assert(made(scene, g, timestamp, i, j) == made(scene, g, timestamp, v1, v2));
    refusals_hold_of_one_evaluation(scene, cast, g, timestamp, v1, v2);
}

} // verus!
