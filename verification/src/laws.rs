//! What holds of every decimation.
use crate::ancestor::VertexWithConcavity;
use crate::decimation::{
    contraction_explained, decimates, fresh_edges, fresh_edges_lead, initial_edges, pass_explained,
    passes, passes_keep_sound, proceeds_at, stamped, survivors, valid_edges_live, Outcome, Phase,
    SceneModel,
};
use crate::dual_graph::neighbors_share_a_side;
use crate::edge::{finds_rays, EdgeModel};
use crate::kernel::{enclosure, may_enclose, ConvexPair};
use crate::linalg::Pnt3;
use crate::mesh::{all_below, MeshModel, TriMesh};
use crate::rays::{corners_have_rays, distinct_keeps_each_once, numbering_numbers, Ray};
use crate::scalar::Scalar;
use crate::set::{finite_sets_can_be_sorted, index_sets_are_finite, sorted};
use crate::vertex::{contracted, hull_points, VertexModel};
use vstd::prelude::*;

verus! {

/// Where all vertices are parts of their own, all survive.
proof fn all_survive<N>(graph: Seq<VertexModel<N>>)
    requires
        forall|i: int| 0 <= i < graph.len() ==> (#[trigger] graph[i]).alive(),
    ensures
        survivors(graph).len() == graph.len(),
    decreases graph.len(),
{
    if graph.len() > 0 {
        assert(graph[graph.len() - 1].alive());
        assert forall|i: int| 0 <= i < graph.drop_last().len() implies (
        #[trigger] graph.drop_last()[i]).alive() by {
            assert(graph[i].alive());
        }
        all_survive(graph.drop_last());
    }
}

/// The edges in which a decimation begins lead from a vertex to a later neighbor.
pub proof fn initial_edges_lead<N: Scalar>(
    scene: SceneModel<N>,
    graph: Seq<VertexModel<N>>,
    count: nat,
    e: EdgeModel<N>,
)
    requires
        count <= graph.len() <= usize::MAX,
    ensures
        initial_edges(scene, graph, count).contains(e) <==> exists|v: usize, n: usize|
            {
                &&& v < count
                &&& v < n
                &&& #[trigger] graph[v as int].neighbors->0.contains(n)
                &&& e == EdgeModel::between(0, v, n, graph, scene.coords, scene.error)
            },
    decreases count,
{
    if count > 0 {
        let last = (count - 1) as usize;
        let fewer = (count - 1) as nat;
        let others = sorted(graph[last as int].neighbors->0);
        let fresh = fresh_edges(scene, graph, 0, last, others, false);
        initial_edges_lead(scene, graph, fewer, e);
        fresh_edges_lead(scene, graph, 0, last, others, false, e);
        index_sets_are_finite(graph[last as int].neighbors->0);
        finite_sets_can_be_sorted(graph[last as int].neighbors->0);
        assert(initial_edges(scene, graph, count).contains(e) <==> initial_edges(
            scene,
            graph,
            fewer,
        ).contains(e) || fresh.contains(e));
        if fresh.contains(e) {
            let i = choose|i: int|
                {
                    &&& 0 <= i < others.len()
                    &&& false || last < others[i]
                    &&& e == EdgeModel::between(
                        0,
                        last,
                        #[trigger] others[i],
                        graph,
                        scene.coords,
                        scene.error,
                    )
                };
            assert(others.contains(others[i]));
            assert(graph[last as int].neighbors->0.contains(others[i]));
        }
        if exists|v: usize, n: usize|
            {
                &&& v < count
                &&& v < n
                &&& #[trigger] graph[v as int].neighbors->0.contains(n)
                &&& e == EdgeModel::between(0, v, n, graph, scene.coords, scene.error)
            } {
            let (v, n) = choose|v: usize, n: usize|
                {
                    &&& v < count
                    &&& v < n
                    &&& #[trigger] graph[v as int].neighbors->0.contains(n)
                    &&& e == EdgeModel::between(0, v, n, graph, scene.coords, scene.error)
                };
            if v == last {
                assert(others.contains(n));
                let i = choose|i: int| 0 <= i < others.len() && others[i] == n;
                assert(others[i] == n);
            }
        }
    }
}

/// A decimation begins in a sound state.
pub proof fn start_is_sound<N: Scalar>(mesh: MeshModel<N>, error: N)
    requires
        mesh.complete(),
        mesh.countable(),
    ensures
        mesh.start(error).sound(mesh.scene(error)),
{
    let scene = mesh.scene(error);
    let ids = mesh.ray_ids();
    let phase = mesh.start(error);
    let g = phase.graph;
    distinct_keeps_each_once(mesh.corner_list(mesh.size()));
    numbering_numbers(mesh.ray_corners());
    assert forall|i: int| 0 <= i < g.len() implies (#[trigger] g[i]).alive() by {}
    all_survive(g);
    assert forall|i: int| 0 <= i < g.len() implies #[trigger] phase.vertex_sound(scene, i) by {
        assert(all_below(mesh.indices.corners(i), mesh.coords.len()));
        assert forall|k: int| 0 <= k < 3 implies ids[#[trigger] mesh.corner(i, k)] < scene.rays.len() by {
            corners_have_rays(mesh, i, k);
            let j = choose|j: int|
                0 <= j < mesh.ray_corners().len() && mesh.ray_corners()[j] == mesh.corner(i, k);
            assert(ids[mesh.ray_corners()[j]] == j);
        }
        assert(ids[mesh.corner(i, 0)] < scene.rays.len());
        assert(ids[mesh.corner(i, 1)] < scene.rays.len());
        assert(ids[mesh.corner(i, 2)] < scene.rays.len());
    }
    assert forall|i: int| 0 <= i < g.len() implies #[trigger] phase.links_sound(i) by {
        assert forall|j: usize| #[trigger] g[i].neighbors->0.contains(j) implies {
            &&& j < g.len()
            &&& j != i
            &&& g[j as int].alive()
            &&& g[j as int].neighbors->0.contains(i as usize)
        } by {
            neighbors_share_a_side(mesh, i as usize, j);
        }
    }
    assert forall|e: EdgeModel<N>| #[trigger] phase.edges.contains(e) implies phase.edge_sound(scene, e) by {
        initial_edges_lead(scene, g, g.len(), e);
        let (v, n) = choose|v: usize, n: usize|
            {
                &&& v < g.len()
                &&& v < n
                &&& #[trigger] g[v as int].neighbors->0.contains(n)
                &&& e == EdgeModel::between(0, v, n, g, scene.coords, scene.error)
            };
        assert(phase.links_sound(v as int));
    }
}

/// What the pass from state `i` of a decimation to the next one did.
pub proof fn pass_at<
    N: Scalar,
    C: Fn(&ConvexPair<N>, &Ray<N>) -> Option<N>,
    H: Fn(&[Pnt3<N>]) -> TriMesh<N>,
>(
    mesh: MeshModel<N>,
    error: N,
    min_components: nat,
    cast: C,
    hull: H,
    trace: Seq<Phase<N>>,
    i: int,
) -> (outcome: Outcome)
    requires
        decimates(mesh, error, min_components, cast, hull, trace),
        0 <= i < trace.len() - 1,
    ensures
        trace[i].graph.len() - trace[i].time > min_components,
        passes(mesh.scene(error), cast, hull, trace[i], outcome, trace[i + 1]),
        outcome == Outcome::Dropped || outcome == Outcome::Delayed || outcome == Outcome::Contracted,
        finds_rays(mesh.scene(error).leaves, mesh.scene(error).rays.len()),
{
    assert(proceeds_at(mesh.scene(error), cast, hull, min_components, trace, i));
    choose|outcome: Outcome|
        {
            &&& outcome == Outcome::Dropped || outcome == Outcome::Delayed || outcome
                == Outcome::Contracted
            &&& #[trigger] passes(mesh.scene(error), cast, hull, trace[i], outcome, trace[i + 1])
        }
}

/// Every state of a decimation is sound: its parts are whole, being neighbors goes both ways
/// and never leads to a part that was given up, and each waiting edge that is still valid leads
/// between two neighbors.
pub proof fn states_are_sound<
    N: Scalar,
    C: Fn(&ConvexPair<N>, &Ray<N>) -> Option<N>,
    H: Fn(&[Pnt3<N>]) -> TriMesh<N>,
>(
    mesh: MeshModel<N>,
    error: N,
    min_components: nat,
    cast: C,
    hull: H,
    trace: Seq<Phase<N>>,
    i: int,
)
    requires
        mesh.complete(),
        mesh.countable(),
        decimates(mesh, error, min_components, cast, hull, trace),
        0 <= i < trace.len(),
    ensures
        trace[i].sound(mesh.scene(error)),
    decreases i,
{
    let scene = mesh.scene(error);
    if i == 0 {
        start_is_sound(mesh, error);
    } else {
        states_are_sound(mesh, error, min_components, cast, hull, trace, i - 1);
        let outcome = pass_at(mesh, error, min_components, cast, hull, trace, i - 1);
        passes_keep_sound(scene, cast, hull, trace[i - 1], outcome, trace[i]);
    }
}

/// Whether `post` is `pre` with the two ends of `e` made one part: they are neighbors, and what
/// they make is not too concave.
pub open spec fn joins<N: Scalar>(
    scene: SceneModel<N>,
    pre: Phase<N>,
    post: Phase<N>,
    e: EdgeModel<N>,
    ancestors: Seq<VertexWithConcavity<N>>,
    chull: MeshModel<N>,
) -> bool {
    &&& e.v1 < e.v2
    &&& e.v2 < pre.graph.len()
    &&& pre.graph[e.v1 as int].alive()
    &&& pre.graph[e.v2 as int].alive()
    &&& pre.graph[e.v1 as int].neighbors->0.contains(e.v2)
    &&& !scene.too_concave(e)
    &&& post.time == pre.time + 1
    &&& post.time < usize::MAX
    &&& post.graph == stamped(
        contracted(pre.graph, e, ancestors, chull),
        e,
        post.time as usize,
    )
}

/// A pass leaves the parts as they are, or makes one part of two neighbors.
pub proof fn passes_join_or_keep<
    N: Scalar,
    C: Fn(&ConvexPair<N>, &Ray<N>) -> Option<N>,
    H: Fn(&[Pnt3<N>]) -> TriMesh<N>,
>(
    scene: SceneModel<N>,
    cast: C,
    hull: H,
    pre: Phase<N>,
    outcome: Outcome,
    post: Phase<N>,
) -> (res: Option<(EdgeModel<N>, Seq<VertexWithConcavity<N>>, MeshModel<N>)>)
    requires
        finds_rays(scene.leaves, scene.rays.len()),
        pre.sound(scene),
        passes(scene, cast, hull, pre, outcome, post),
    ensures
        match res {
            None => post.graph == pre.graph && post.time == pre.time && outcome
                != Outcome::Contracted,
            Some((e, ancestors, chull)) => {
                &&& joins(scene, pre, post, e, ancestors, chull)
                &&& may_enclose(hull, hull_points(pre.graph, e), chull)
                &&& outcome == Outcome::Contracted
            },
        },
{
    if outcome == Outcome::Contracted {
        let pass = pass_explained(scene, cast, hull, pre, outcome, post);
        let full = pass.full;
        let rest = pre.edges.remove(pass.edge);
        valid_edges_live(scene, pre, pass.edge);
        let chull = enclosure(hull, hull_points(pre.graph, full));
        let ancestors = contraction_explained(scene, hull, pre, rest, full, post);
        assert(joins(scene, pre, post, full, ancestors, chull));
        Some((full, ancestors, chull))
    } else {
        None
    }
}

/// Whether triangle `t` belongs to the part at place `i`.
pub open spec fn owns<N>(graph: Seq<VertexModel<N>>, i: int, t: usize) -> bool {
    graph[i].alive() && graph[i].parts->0.contains(t)
}

/// Whether triangle `t` belongs to a part.
pub open spec fn owned<N>(graph: Seq<VertexModel<N>>, t: usize) -> bool {
    exists|i: int| 0 <= i < graph.len() && #[trigger] owns(graph, i, t)
}

/// Whether each triangle belongs to exactly one part, and no part lists a triangle twice.
pub open spec fn partitioned<N>(graph: Seq<VertexModel<N>>) -> bool {
    &&& forall|i: int|
        0 <= i < graph.len() && graph[i].alive() ==> (#[trigger] graph[i]).parts->0.no_duplicates()
    &&& forall|i: int, t: usize| 0 <= i < graph.len() && #[trigger] owns(graph, i, t) ==> t < graph.len()
    &&& forall|i: int, j: int, t: usize|
        0 <= i < graph.len() && 0 <= j < graph.len() && #[trigger] owns(graph, i, t) && #[trigger] owns(
            graph,
            j,
            t,
        ) ==> i == j
    &&& forall|t: usize| t < graph.len() ==> #[trigger] owned(graph, t)
}

/// What belongs to which part after two parts have been made one.
pub proof fn joined_owners<N: Scalar>(
    scene: SceneModel<N>,
    pre: Phase<N>,
    post: Phase<N>,
    e: EdgeModel<N>,
    ancestors: Seq<VertexWithConcavity<N>>,
    chull: MeshModel<N>,
)
    requires
        joins(scene, pre, post, e, ancestors, chull),
    ensures
        post.graph.len() == pre.graph.len(),
        forall|i: int, t: usize|
            0 <= i < pre.graph.len() ==> #[trigger] owns(post.graph, i, t) == (if i == e.v1 {
                owns(pre.graph, e.v1 as int, t) || owns(pre.graph, e.v2 as int, t)
            } else if i == e.v2 {
                false
            } else {
                owns(pre.graph, i, t)
            }),
{
    let (g, h) = (pre.graph, post.graph);
    assert forall|i: int, t: usize| 0 <= i < g.len() implies #[trigger] owns(h, i, t) == (if i == e.v1 {
        owns(g, e.v1 as int, t) || owns(g, e.v2 as int, t)
    } else if i == e.v2 {
        false
    } else {
        owns(g, i, t)
    }) by {
        if i == e.v1 {
            concatenation_holds(g[e.v1 as int].parts->0, g[e.v2 as int].parts->0, t);
        }
    }
}

pub proof fn concatenation_holds<T>(a: Seq<T>, b: Seq<T>, x: T)
    ensures
        (a + b).contains(x) == (a.contains(x) || b.contains(x)),
{
    if a.contains(x) {
        let k = choose|k: int| 0 <= k < a.len() && a[k] == x;
        assert((a + b)[k] == x);
    }
    if b.contains(x) {
        let k = choose|k: int| 0 <= k < b.len() && b[k] == x;
        assert((a + b)[a.len() + k] == x);
    }
    if (a + b).contains(x) {
        let k = choose|k: int| 0 <= k < (a + b).len() && (a + b)[k] == x;
        if k < a.len() {
            assert(a[k] == x);
        } else {
            assert(b[k - a.len()] == x);
        }
    }
}

proof fn joining_keeps_partition<N: Scalar>(
    scene: SceneModel<N>,
    pre: Phase<N>,
    post: Phase<N>,
    e: EdgeModel<N>,
    ancestors: Seq<VertexWithConcavity<N>>,
    chull: MeshModel<N>,
)
    requires
        joins(scene, pre, post, e, ancestors, chull),
        partitioned(pre.graph),
    ensures
        partitioned(post.graph),
{
    let (g, h) = (pre.graph, post.graph);
    let (v, o) = (e.v1 as int, e.v2 as int);
    joined_owners(scene, pre, post, e, ancestors, chull);
    assert forall|i: int| 0 <= i < h.len() && h[i].alive() implies (
    #[trigger] h[i]).parts->0.no_duplicates() by {
        if i == v {
            let (a, b) = (g[v].parts->0, g[o].parts->0);
            assert(a.no_duplicates() && b.no_duplicates());
            assert forall|x: int, y: int| 0 <= x < y < (a + b).len() implies (a + b)[x] != (a + b)[y] by {
                if x < a.len() && y >= a.len() && (a + b)[x] == (a + b)[y] {
                    let t = a[x];
                    assert(b[y - a.len()] == t);
                    assert(owns(g, v, t) && owns(g, o, t));
                }
            }
        } else {
            assert(g[i].parts->0.no_duplicates());
        }
    }
    assert forall|t: usize| t < h.len() implies #[trigger] owned(h, t) by {
        assert(owned(g, t));
        let i = choose|i: int| 0 <= i < g.len() && #[trigger] owns(g, i, t);
        if i == o {
            assert(owns(h, v, t));
        } else {
            assert(owns(h, i, t));
        }
    }
}

/// At every moment of a decimation each triangle belongs to exactly one part.
pub proof fn parts_are_a_partition<
    N: Scalar,
    C: Fn(&ConvexPair<N>, &Ray<N>) -> Option<N>,
    H: Fn(&[Pnt3<N>]) -> TriMesh<N>,
>(
    mesh: MeshModel<N>,
    error: N,
    min_components: nat,
    cast: C,
    hull: H,
    trace: Seq<Phase<N>>,
    i: int,
)
    requires
        mesh.complete(),
        mesh.countable(),
        decimates(mesh, error, min_components, cast, hull, trace),
        0 <= i < trace.len(),
    ensures
        trace[i].graph.len() == mesh.size(),
        partitioned(trace[i].graph),
    decreases i,
{
    let scene = mesh.scene(error);
    if i == 0 {
        let g = trace[0].graph;
        assert forall|k: int, t: usize| 0 <= k < g.len() implies #[trigger] owns(g, k, t) == (t == k) by {
            assert(g[k].parts->0[0] == k);
        }
        assert forall|t: usize| t < g.len() implies #[trigger] owned(g, t) by {
            assert(owns(g, t as int, t));
        }
    } else {
        parts_are_a_partition(mesh, error, min_components, cast, hull, trace, i - 1);
        states_are_sound(mesh, error, min_components, cast, hull, trace, i - 1);
        let outcome = pass_at(mesh, error, min_components, cast, hull, trace, i - 1);
        match passes_join_or_keep(scene, cast, hull, trace[i - 1], outcome, trace[i]) {
            None => {},
            Some((e, ancestors, chull)) => {
                joining_keeps_partition(scene, trace[i - 1], trace[i], e, ancestors, chull);
            },
        }
    }
}

/// A decimation never has fewer parts than asked for, unless the mesh has fewer triangles: then
/// nothing is made one.
pub proof fn parts_are_enough<
    N: Scalar,
    C: Fn(&ConvexPair<N>, &Ray<N>) -> Option<N>,
    H: Fn(&[Pnt3<N>]) -> TriMesh<N>,
>(
    mesh: MeshModel<N>,
    error: N,
    min_components: nat,
    cast: C,
    hull: H,
    trace: Seq<Phase<N>>,
    i: int,
)
    requires
        mesh.complete(),
        mesh.countable(),
        decimates(mesh, error, min_components, cast, hull, trace),
        0 <= i < trace.len(),
    ensures
        survivors(trace[i].graph).len() + trace[i].time == mesh.size(),
        survivors(trace[i].graph).len() >= min_components || trace[i].time == 0,
    decreases i,
{
    let scene = mesh.scene(error);
    states_are_sound(mesh, error, min_components, cast, hull, trace, i);
    if i > 0 {
        parts_are_enough(mesh, error, min_components, cast, hull, trace, i - 1);
        states_are_sound(mesh, error, min_components, cast, hull, trace, i - 1);
        let outcome = pass_at(mesh, error, min_components, cast, hull, trace, i - 1);
        let effect = passes_join_or_keep(scene, cast, hull, trace[i - 1], outcome, trace[i]);
    }
}

/// Whether the list of the triangles of each part begins with the number of the part, which is
/// the least of them.
pub open spec fn led_by_least<N>(graph: Seq<VertexModel<N>>) -> bool {
    &&& forall|i: int|
        0 <= i < graph.len() && graph[i].alive() ==> (#[trigger] graph[i]).parts->0.len() > 0
            && graph[i].parts->0[0] == i
    &&& forall|i: int, t: usize| 0 <= i < graph.len() && #[trigger] owns(graph, i, t) ==> i <= t
}

/// At every moment of a decimation each part begins with its least triangle, whose number is that
/// of the part.
pub proof fn parts_begin_with_their_least<
    N: Scalar,
    C: Fn(&ConvexPair<N>, &Ray<N>) -> Option<N>,
    H: Fn(&[Pnt3<N>]) -> TriMesh<N>,
>(
    mesh: MeshModel<N>,
    error: N,
    min_components: nat,
    cast: C,
    hull: H,
    trace: Seq<Phase<N>>,
    i: int,
)
    requires
        mesh.complete(),
        mesh.countable(),
        decimates(mesh, error, min_components, cast, hull, trace),
        0 <= i < trace.len(),
    ensures
        led_by_least(trace[i].graph),
    decreases i,
{
    let scene = mesh.scene(error);
    let h = trace[i].graph;
    if i == 0 {
        assert forall|k: int, t: usize| 0 <= k < h.len() && #[trigger] owns(h, k, t) implies k <= t by {
            assert(h[k].parts->0[0] == k);
        }
    } else {
        let g = trace[i - 1].graph;
        parts_begin_with_their_least(mesh, error, min_components, cast, hull, trace, i - 1);
        states_are_sound(mesh, error, min_components, cast, hull, trace, i - 1);
        let outcome = pass_at(mesh, error, min_components, cast, hull, trace, i - 1);
        match passes_join_or_keep(scene, cast, hull, trace[i - 1], outcome, trace[i]) {
            None => {},
            Some((e, ancestors, chull)) => {
                joined_owners(scene, trace[i - 1], trace[i], e, ancestors, chull);
                assert forall|k: int| 0 <= k < h.len() && h[k].alive() implies (
                #[trigger] h[k]).parts->0.len() > 0 && h[k].parts->0[0] == k by {
                    assert(g[k].alive());
                    assert(g[k].parts->0[0] == k);
                }
                assert forall|k: int, t: usize| 0 <= k < h.len() && #[trigger] owns(h, k, t) implies k
                    <= t by {
                    if k == e.v1 {
                        assert(owns(g, e.v1 as int, t) || owns(g, e.v2 as int, t));
                    } else {
                        assert(owns(g, k, t));
                    }
                }
            },
        }
    }
}

} // verus!
