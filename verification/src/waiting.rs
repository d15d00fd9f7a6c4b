//! No two edges between the same two parts wait at a time.
use crate::decimation::{
    contraction_explained, decimates, fresh_edges, initial_edges, pass_explained, passes,
    valid_edges_live, Outcome, Phase, SceneModel,
};
use crate::edge::{finds_rays, EdgeModel};
use crate::kernel::{enclosure, ConvexPair};
use crate::laws::{pass_at, states_are_sound};
use crate::linalg::Pnt3;
use crate::mesh::{MeshModel, TriMesh};
use crate::rays::Ray;
use crate::scalar::Scalar;
use crate::set::{ascending, finite_sets_can_be_sorted, index_sets_are_finite, sorted, Key};
use crate::vertex::{hull_points, VertexModel};
use vstd::multiset::Multiset;
use vstd::prelude::*;

verus! {

/// The number of edges between the vertices `a` and `b` that are still valid.
pub open spec fn edges_between<N: Scalar>(
    edges: Multiset<EdgeModel<N>>,
    graph: Seq<VertexModel<N>>,
    a: usize,
    b: usize,
) -> nat {
    edges.filter(|e: EdgeModel<N>| e.v1 == a && e.v2 == b && e.valid(graph)).len()
}

/// Whether `e` is one of the edges between `a` and `b` that are counted.
spec fn counts<N: Scalar>(e: EdgeModel<N>, graph: Seq<VertexModel<N>>, a: usize, b: usize) -> nat {
    if e.v1 == a && e.v2 == b && e.valid(graph) {
        1
    } else {
        0
    }
}

proof fn one_more_edge<N: Scalar>(
    edges: Multiset<EdgeModel<N>>,
    e: EdgeModel<N>,
    graph: Seq<VertexModel<N>>,
    a: usize,
    b: usize,
)
    ensures
        edges_between(edges.insert(e), graph, a, b) == edges_between(edges, graph, a, b) + counts(
            e,
            graph,
            a,
            b,
        ),
{
    let f = |x: EdgeModel<N>| x.v1 == a && x.v2 == b && x.valid(graph);
    let (x, y) = (edges.insert(e).filter(f), edges.filter(f));
    if counts(e, graph, a, b) == 1 {
        assert(x =~= y.insert(e));
    } else {
        assert(x =~= y);
    }
}

proof fn more_edges<N: Scalar>(
    edges: Multiset<EdgeModel<N>>,
    more: Multiset<EdgeModel<N>>,
    graph: Seq<VertexModel<N>>,
    a: usize,
    b: usize,
)
    ensures
        edges_between(edges.add(more), graph, a, b) == edges_between(edges, graph, a, b) + edges_between(
            more,
            graph,
            a,
            b,
        ),
{
    let f = |x: EdgeModel<N>| x.v1 == a && x.v2 == b && x.valid(graph);
    assert(edges.add(more).filter(f) =~= edges.filter(f).add(more.filter(f)));
}

proof fn no_edges<N: Scalar>(graph: Seq<VertexModel<N>>, a: usize, b: usize)
    ensures
        edges_between(Multiset::<EdgeModel<N>>::empty(), graph, a, b) == 0,
{
    let f = |x: EdgeModel<N>| x.v1 == a && x.v2 == b && x.valid(graph);
    let none = Multiset::<EdgeModel<N>>::empty();
    assert(none.filter(f) =~= none);
}

/// Whether an edge from `v` to `n` leads between `a` and `b`.
spec fn leads_between(v: usize, n: usize, a: usize, b: usize) -> bool {
    (a == v && b == n) || (a == n && b == v)
}

/// Of the edges from one vertex to others, each once, one at most leads between two given ones.
proof fn fresh_edges_differ<N: Scalar>(
    scene: SceneModel<N>,
    graph: Seq<VertexModel<N>>,
    timestamp: usize,
    v: usize,
    others: Seq<usize>,
    all: bool,
    a: usize,
    b: usize,
)
    requires
        ascending(others),
        a < b,
    ensures
        edges_between(fresh_edges(scene, graph, timestamp, v, others, all), graph, a, b) <= 1,
        a != v && b != v ==> edges_between(
            fresh_edges(scene, graph, timestamp, v, others, all),
            graph,
            a,
            b,
        ) == 0,
        !all && a != v ==> edges_between(
            fresh_edges(scene, graph, timestamp, v, others, all),
            graph,
            a,
            b,
        ) == 0,
        (forall|i: int| 0 <= i < others.len() ==> !leads_between(v, #[trigger] others[i], a, b))
            ==> edges_between(fresh_edges(scene, graph, timestamp, v, others, all), graph, a, b) == 0,
    decreases others.len(),
{
    no_edges(graph, a, b);
    if others.len() > 0 {
        let shorter = others.drop_last();
        let n = others[others.len() - 1];
        assert forall|i: int, j: int| 0 <= i < j < shorter.len() implies shorter[i] < shorter[j] by {
            assert(others[i].key() < others[j].key());
        }
        fresh_edges_differ(scene, graph, timestamp, v, shorter, all, a, b);
        let before = fresh_edges(scene, graph, timestamp, v, shorter, all);
        let e = EdgeModel::between(timestamp, v, n, graph, scene.coords, scene.error);
        one_more_edge(before, e, graph, a, b);
        if leads_between(v, n, a, b) {
            assert forall|i: int| 0 <= i < shorter.len() implies !leads_between(
                v,
                #[trigger] shorter[i],
                a,
                b,
            ) by {
                assert(others[i].key() < others[others.len() - 1].key());
            }
        } else {
            assert(counts(e, graph, a, b) == 0);
        }
        if forall|i: int| 0 <= i < others.len() ==> !leads_between(v, #[trigger] others[i], a, b) {
            assert forall|i: int| 0 <= i < shorter.len() implies !leads_between(
                v,
                #[trigger] shorter[i],
                a,
                b,
            ) by {
                assert(shorter[i] == others[i]);
            }
        }
    }
}

proof fn initial_edges_differ<N: Scalar>(
    scene: SceneModel<N>,
    graph: Seq<VertexModel<N>>,
    count: nat,
    a: usize,
    b: usize,
)
    requires
        count <= graph.len() <= usize::MAX,
        a < b,
    ensures
        edges_between(initial_edges(scene, graph, count), graph, a, b) <= 1,
        a >= count ==> edges_between(initial_edges(scene, graph, count), graph, a, b) == 0,
    decreases count,
{
    no_edges(graph, a, b);
    if count > 0 {
        let v = (count - 1) as usize;
        let fewer = (count - 1) as nat;
        let others = sorted(graph[count - 1].neighbors->0);
        index_sets_are_finite(graph[count - 1].neighbors->0);
        finite_sets_can_be_sorted(graph[count - 1].neighbors->0);
        initial_edges_differ(scene, graph, fewer, a, b);
        fresh_edges_differ(scene, graph, 0, v, others, false, a, b);
        more_edges(
            initial_edges(scene, graph, fewer),
            fresh_edges(scene, graph, 0, v, others, false),
            graph,
            a,
            b,
        );
    }
}

/// Whether no two edges that wait, and are still valid, lead between the same two vertices.
pub open spec fn wait_once<N: Scalar>(phase: Phase<N>) -> bool {
    forall|a: usize, b: usize|
        a < b ==> #[trigger] edges_between(phase.edges, phase.graph, a, b) <= 1
}

/// Taking an edge away leaves the others.
proof fn one_edge_less<N: Scalar>(
    edges: Multiset<EdgeModel<N>>,
    e: EdgeModel<N>,
    graph: Seq<VertexModel<N>>,
    a: usize,
    b: usize,
)
    requires
        edges.contains(e),
    ensures
        edges_between(edges, graph, a, b) == edges_between(edges.remove(e), graph, a, b) + counts(
            e,
            graph,
            a,
            b,
        ),
{
    assert(edges =~= edges.remove(e).insert(e));
    one_more_edge(edges.remove(e), e, graph, a, b);
}

proof fn passes_keep_waiting_once<
    N: Scalar,
    C: Fn(&ConvexPair<N>, &Ray<N>) -> Option<N>,
    H: Fn(&[Pnt3<N>]) -> TriMesh<N>,
>(scene: SceneModel<N>, cast: C, hull: H, pre: Phase<N>, outcome: Outcome, post: Phase<N>)
    requires
        finds_rays(scene.leaves, scene.rays.len()),
        pre.sound(scene),
        wait_once(pre),
        passes(scene, cast, hull, pre, outcome, post),
        outcome == Outcome::Dropped || outcome == Outcome::Delayed || outcome == Outcome::Contracted,
    ensures
        wait_once(post),
{
    let pass = pass_explained(scene, cast, hull, pre, outcome, post);
    let (edge, bounded, full) = (pass.edge, pass.bounded, pass.full);
    let rest = pre.edges.remove(edge);
    let (g, h) = (pre.graph, post.graph);
    if outcome == Outcome::Contracted {
        valid_edges_live(scene, pre, edge);
        let ancestors = contraction_explained(scene, hull, pre, rest, full, post);
        let chull = enclosure(hull, hull_points(g, full));
        let time = pre.time + 1;
        let others = sorted(h[full.v1 as int].neighbors->0);
        let fresh = fresh_edges(scene, h, time as usize, full.v1, others, true);
        assert(post.edges == rest.add(fresh));
        index_sets_are_finite(h[full.v1 as int].neighbors->0);
        finite_sets_can_be_sorted(h[full.v1 as int].neighbors->0);
        assert forall|a: usize, b: usize| a < b implies #[trigger] edges_between(post.edges, h, a, b)
            <= 1 by {
            one_edge_less(pre.edges, edge, g, a, b);
            assert(edges_between(pre.edges, g, a, b) <= 1);
            more_edges(rest, fresh, h, a, b);
            fresh_edges_differ(scene, h, time as usize, full.v1, others, true, a, b);
            let p = |x: EdgeModel<N>| x.v1 == a && x.v2 == b && x.valid(g);
            let q = |x: EdgeModel<N>| x.v1 == a && x.v2 == b && x.valid(h);
            assert forall|x: EdgeModel<N>| #[trigger] rest.contains(x) implies x.timestamp <= pre.time
                && x.v1 < x.v2 && x.v2 < g.len() by {
                assert(pre.edges.contains(x));
                assert(pre.edge_sound(scene, x));
            }
            if a == full.v1 || b == full.v1 || a == full.v2 || b == full.v2 {
                assert(rest.filter(q) =~= Multiset::empty()) by {
                    assert forall|x: EdgeModel<N>| rest.filter(q).count(x) == 0 by {
                        if rest.filter(q).count(x) > 0 {
                            assert(rest.contains(x) && q(x));
                        }
                    }
                }
            } else {
                assert(rest.filter(q) =~= rest.filter(p)) by {
                    assert forall|x: EdgeModel<N>| rest.filter(q).count(x) == rest.filter(p).count(x) by {
                        if rest.contains(x) && x.v1 == a && x.v2 == b {
                            assert(h[a as int].timestamp == g[a as int].timestamp);
                            assert(h[b as int].timestamp == g[b as int].timestamp);
                        }
                    }
                }
            }
        }
    } else {
        assert forall|a: usize, b: usize| a < b implies #[trigger] edges_between(post.edges, h, a, b)
            <= 1 by {
            one_edge_less(pre.edges, edge, g, a, b);
            assert(edges_between(pre.edges, g, a, b) <= 1);
            one_more_edge(rest, bounded, g, a, b);
        }
    }
}

/// At every moment of a decimation, between two parts one valid edge waits at most.
pub proof fn edges_wait_once<
    N: Scalar,
    C: Fn(&ConvexPair<N>, &Ray<N>) -> Option<N>,
    H: Fn(&[Pnt3<N>]) -> TriMesh<N>,
>(
    mesh: MeshModel<N>,
    error: N,
    min_components: nat,
    cast: C,
    hull: H,
    trace: Seq<Phase<N>>,
    i: int,
)
    requires
        mesh.complete(),
        mesh.countable(),
        decimates(mesh, error, min_components, cast, hull, trace),
        0 <= i < trace.len(),
    ensures
        wait_once(trace[i]),
    decreases i,
{
    let scene = mesh.scene(error);
    if i == 0 {
        let g = trace[0].graph;
        assert forall|a: usize, b: usize| a < b implies #[trigger] edges_between(
            trace[0].edges,
            g,
            a,
            b,
        ) <= 1 by {
            initial_edges_differ(scene, g, g.len(), a, b);
        }
    } else {
        edges_wait_once(mesh, error, min_components, cast, hull, trace, i - 1);
        states_are_sound(mesh, error, min_components, cast, hull, trace, i - 1);
        let outcome = pass_at(mesh, error, min_components, cast, hull, trace, i - 1);
        passes_keep_waiting_once(scene, cast, hull, trace[i - 1], outcome, trace[i]);
    }
}

} // verus!
