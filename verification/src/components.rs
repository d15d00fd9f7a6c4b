//! How many parts a decimation leaves where nothing proves too concave.
use crate::ancestor::VertexWithConcavity;
use crate::connected::{
    adjacent, connected, corners_make_neighbors, hangs_together, is_path, longer_reach,
    parts_are_connected, reaches, wider_reach,
};
use crate::decimation::{
    contraction_explained, decimates, finished, fresh_edges, fresh_edges_lead, pass_explained,
    passes, survivors, survivors_are_the_living, valid_edges_live, Outcome, Phase, SceneModel,
};
use crate::dual_graph::{first_with, linked};
use crate::edge::{finds_rays, hits, reach, returning, some_ray_hits, EdgeModel};
use crate::kernel::{enclosure, may_hit, ConvexPair, PairModel};
use crate::laws::{
    initial_edges_lead, owned, owns, partitioned, parts_are_a_partition, parts_are_enough,
    parts_begin_with_their_least, pass_at, states_are_sound,
};
use crate::linalg::{Pnt3, Vec2};
use crate::maximal::{genuine, neighboring, no_neighbors_are_left_to_join, refused, stems};
use crate::mesh::{MeshModel, TriMesh};
use crate::rays::Ray;
use crate::scalar::{minus, rank, zero, Scalar};
use crate::set::{finite_sets_can_be_sorted, index_sets_are_finite, sorted};
use crate::vertex::{hull_points, VertexModel};
use vstd::prelude::*;

verus! {

/// Whether no cast shows a concavity above `limit`, and zero is not above it either.
pub open spec fn lenient<N: Scalar, C: Fn(&ConvexPair<N>, &Ray<N>) -> Option<N>>(
    cast: C,
    limit: N,
) -> bool {
    &&& rank(zero::<N>()) <= rank(limit)
    &&& forall|pair: PairModel<N>, ray: Ray<N>, t: N| #[trigger]
        may_hit(cast, pair, returning(pair, ray), Some(t)) ==> rank(minus(reach(pair, ray), t))
            <= rank(limit)
}

/// A ray that hits shows no more than the limit.
proof fn hits_are_lenient<N: Scalar, C: Fn(&ConvexPair<N>, &Ray<N>) -> Option<N>>(
    cast: C,
    limit: N,
    pair: PairModel<N>,
    rays: Seq<Ray<N>>,
    concavity: N,
)
    requires
        lenient(cast, limit),
        some_ray_hits(cast, pair, rays, concavity),
    ensures
        rank(concavity) <= rank(limit),
{
    let id = choose|id: int| 0 <= id < rays.len() && hits(cast, pair, #[trigger] rays[id], concavity);
    let t = choose|t: N| #[trigger]
        may_hit(cast, pair, returning(pair, rays[id]), Some(t)) && concavity == minus(
            reach(pair, rays[id]),
            t,
        );
}

/// Whether no part and no waiting edge is more concave than `limit`.
pub open spec fn stays_within<N: Scalar>(phase: Phase<N>, limit: N) -> bool {
    &&& forall|k: int|
        0 <= k < phase.graph.len() && phase.graph[k].alive() ==> rank(
            (#[trigger] phase.graph[k]).concavity,
        ) <= rank(limit)
    &&& forall|x: EdgeModel<N>| #[trigger]
        phase.edges.contains(x) ==> rank(x.concavity) <= rank(limit)
}

/// A contraction of an edge that is not more concave than the limit keeps to the limit.
proof fn contraction_stays_within<N: Scalar>(
    scene: SceneModel<N>,
    pre: Phase<N>,
    post: Phase<N>,
    edge: EdgeModel<N>,
    full: EdgeModel<N>,
    ancestors: Seq<VertexWithConcavity<N>>,
    chull: MeshModel<N>,
    limit: N,
)
    requires
        stays_within(pre, limit),
        post == pre.after_contraction(scene, pre.edges.remove(edge), full, ancestors, chull),
        post.sound(scene),
        full.v1 < full.v2,
        full.v2 < pre.graph.len(),
        pre.graph[full.v1 as int].alive(),
        pre.graph[full.v2 as int].alive(),
        rank(full.concavity) <= rank(limit),
    ensures
        stays_within(post, limit),
{
    let (g, h) = (pre.graph, post.graph);
    let rest = pre.edges.remove(edge);
    assert forall|k: int| 0 <= k < h.len() && h[k].alive() implies rank((#[trigger] h[k]).concavity)
        <= rank(limit) by {
        assert(g[k].alive());
    }
    let time = post.time as usize;
    let v = full.v1;
    let others = sorted(h[v as int].neighbors->0);
    let fresh = fresh_edges(scene, h, time, v, others, true);
    assert(post.links_sound(v as int));
    assert forall|x: EdgeModel<N>| #[trigger] post.edges.contains(x) implies rank(x.concavity) <= rank(
        limit,
    ) by {
        if fresh.contains(x) {
            fresh_edges_lead(scene, h, time, v, others, true, x);
            let i = choose|i: int|
                {
                    &&& 0 <= i < others.len()
                    &&& x == EdgeModel::between(
                        time,
                        v,
                        #[trigger] others[i],
                        h,
                        scene.coords,
                        scene.error,
                    )
                };
            assert(post.edge_sound(scene, x));
            index_sets_are_finite(h[v as int].neighbors->0);
            finite_sets_can_be_sorted(h[v as int].neighbors->0);
            assert(others.contains(others[i]));
            assert(h[v as int].neighbors->0.contains(others[i]));
            assert(h[others[i] as int].alive() && h[v as int].alive());
        } else {
            assert(rest.contains(x));
            assert(pre.edges.contains(x));
        }
    }
}

/// A pass keeps to a limit above which no cast shows anything.
proof fn passes_stay_within<
    N: Scalar,
    C: Fn(&ConvexPair<N>, &Ray<N>) -> Option<N>,
    H: Fn(&[Pnt3<N>]) -> TriMesh<N>,
>(
    scene: SceneModel<N>,
    cast: C,
    hull: H,
    pre: Phase<N>,
    outcome: Outcome,
    post: Phase<N>,
    limit: N,
)
    requires
        lenient(cast, limit),
        finds_rays(scene.leaves, scene.rays.len()),
        pre.sound(scene),
        post.sound(scene),
        stays_within(pre, limit),
        passes(scene, cast, hull, pre, outcome, post),
    ensures
        stays_within(post, limit),
{
    if pre.edges.len() > 0 {
        let pass = pass_explained(scene, cast, hull, pre, outcome, post);
        let (edge, bounded, full) = (pass.edge, pass.bounded, pass.full);
        let rest = pre.edges.remove(edge);
        let g = pre.graph;
        assert forall|x: EdgeModel<N>| #[trigger] rest.contains(x) implies rank(x.concavity) <= rank(
            limit,
        ) by {
            assert(pre.edges.contains(x));
        }
        if edge.valid(g) {
            valid_edges_live(scene, pre, edge);
            let pair = PairModel {
                a: g[edge.v1 as int].chull->0.coords,
                b: g[edge.v2 as int].chull->0.coords,
            };
            if bounded.concavity != edge.concavity {
                hits_are_lenient(cast, limit, pair, scene.rays, bounded.concavity);
            }
            assert(rank(bounded.concavity) <= rank(limit));
            if outcome == Outcome::Contracted {
                if full.concavity != bounded.concavity {
                    hits_are_lenient(cast, limit, pair, scene.rays, full.concavity);
                }
                let chull = enclosure(hull, hull_points(g, full));
                let ancestors = contraction_explained(scene, hull, pre, rest, full, post);
                contraction_stays_within(scene, pre, post, edge, full, ancestors, chull, limit);
            } else if outcome == Outcome::Delayed {
                assert forall|x: EdgeModel<N>| #[trigger] post.edges.contains(x) implies rank(x.concavity)
                    <= rank(limit) by {
                    if x != bounded {
                        assert(rest.contains(x));
                    }
                }
            }
        }
    }
}

/// Where no cast shows a concavity above a limit, no part and no waiting edge of a decimation is
/// ever more concave than that. In particular, where no ray ever hits, nothing is concave.
pub proof fn concavities_stay_within<
    N: Scalar,
    C: Fn(&ConvexPair<N>, &Ray<N>) -> Option<N>,
    H: Fn(&[Pnt3<N>]) -> TriMesh<N>,
>(
    mesh: MeshModel<N>,
    error: N,
    min_components: nat,
    cast: C,
    hull: H,
    trace: Seq<Phase<N>>,
    i: int,
    limit: N,
)
    requires
        mesh.complete(),
        mesh.countable(),
        lenient(cast, limit),
        decimates(mesh, error, min_components, cast, hull, trace),
        0 <= i < trace.len(),
    ensures
        stays_within(trace[i], limit),
    decreases i,
{
    let scene = mesh.scene(error);
    let phase = trace[i];
    states_are_sound(mesh, error, min_components, cast, hull, trace, i);
    if i == 0 {
        let g = phase.graph;
        assert forall|x: EdgeModel<N>| #[trigger] phase.edges.contains(x) implies rank(x.concavity) <= rank(
            limit,
        ) by {
            initial_edges_lead(scene, g, g.len(), x);
            let (v, n) = choose|v: usize, n: usize|
                {
                    &&& v < g.len()
                    &&& v < n
                    &&& #[trigger] g[v as int].neighbors->0.contains(n)
                    &&& x == EdgeModel::between(0, v, n, g, scene.coords, scene.error)
                };
            assert(phase.links_sound(v as int));
            assert(g[v as int].concavity == zero::<N>() && g[n as int].concavity == zero::<N>());
        }
    } else {
        concavities_stay_within(mesh, error, min_components, cast, hull, trace, i - 1, limit);
        states_are_sound(mesh, error, min_components, cast, hull, trace, i - 1);
        let outcome = pass_at(mesh, error, min_components, cast, hull, trace, i - 1);
        passes_stay_within(scene, cast, hull, trace[i - 1], outcome, phase, limit);
    }
}

impl<N> MeshModel<N> {
    /// The list of all triangles.
    pub open spec fn triangles(self) -> Seq<usize> {
        Seq::new(self.size(), |i: int| i as usize)
    }

    /// Whether no triangle that a path of neighbors joins to triangle `t` comes before it.
    pub open spec fn is_first(self, t: usize) -> bool {
        forall|u: usize| #[trigger] reaches(self, self.triangles(), t, u) ==> t <= u
    }

    /// The number of those of the first `n` triangles that are the first ones of their connected
    /// component.
    pub open spec fn firsts(self, n: nat) -> nat
        decreases n,
    {
        if n == 0 {
            0
        } else {
            self.firsts((n - 1) as nat) + if self.is_first((n - 1) as usize) {
                1nat
            } else {
                0
            }
        }
    }

    /// The number of connected components of the mesh: each has one first triangle.
    pub open spec fn components(self) -> nat {
        self.firsts(self.size())
    }
}

/// There is a first triangle that has a side which some triangle has.
proof fn first_exists(s: Set<(usize, Vec2<u32>)>, t: usize, e: Vec2<u32>) -> (f: usize)
    requires
        s.contains((t, e)),
    ensures
        first_with(s, f, e),
    decreases t,
{
    if first_with(s, t, e) {
        t
    } else {
        let u = choose|u: usize| #[trigger] s.contains((u, e)) && u < t;
        first_exists(s, u, e)
    }
}

/// A triangle reaches itself, and its neighbors.
proof fn neighbors_are_reached<N>(mesh: MeshModel<N>, a: usize, b: usize)
    requires
        a < mesh.size(),
        b < mesh.size(),
        a == b || adjacent(mesh, a, b),
    ensures
        reaches(mesh, mesh.triangles(), a, b),
{
    let all = mesh.triangles();
    assert(all[a as int] == a && all[b as int] == b);
    let path = if a == b {
        seq![a]
    } else {
        seq![a, b]
    };
    assert(is_path(mesh, all, path));
    assert(path.first() == a && path.last() == b);
}

/// Triangles that share a side belong to the same connected component, however many triangles have
/// this side.
pub proof fn sharing_a_side_connects<N>(mesh: MeshModel<N>, s: usize, t: usize, side: Vec2<u32>)
    requires
        s < mesh.size(),
        t < mesh.size(),
        mesh.sides(s as int).contains(side),
        mesh.sides(t as int).contains(side),
    ensures
        reaches(mesh, mesh.triangles(), s, t),
{
    let all = mesh.incidences(mesh.size());
    assert(all.contains((s, side)) && all.contains((t, side)));
    let f = first_exists(all, s, side);
    assert(all.contains((f, side)));
    if f == t {
        if s != t {
            assert(linked(all, s, t));
        }
        neighbors_are_reached(mesh, s, t);
    } else {
        assert(linked(all, f, t));
        assert(adjacent(mesh, f, t));
        if f != s {
            assert(linked(all, s, f));
        }
        neighbors_are_reached(mesh, s, f);
        neighbors_are_reached(mesh, t, t);
        longer_reach(mesh, mesh.triangles(), s, f, t, t);
    }
}

/// Where each first triangle of a component survives, there are as many survivors as components
/// at least, and as many exactly where no other triangle survives.
proof fn survivors_and_firsts<N>(mesh: MeshModel<N>, graph: Seq<VertexModel<N>>)
    requires
        graph.len() <= usize::MAX,
        forall|t: usize| t < graph.len() && #[trigger] mesh.is_first(t) ==> graph[t as int].alive(),
    ensures
        mesh.firsts(graph.len()) <= survivors(graph).len(),
        (forall|t: usize|
            t < graph.len() && (#[trigger] graph[t as int]).alive() ==> mesh.is_first(t))
            ==> mesh.firsts(graph.len()) == survivors(graph).len(),
    decreases graph.len(),
{
    if graph.len() > 0 {
        let shorter = graph.drop_last();
        let last = (graph.len() - 1) as usize;
        assert forall|t: usize|
            t < shorter.len() && #[trigger] mesh.is_first(t) implies shorter[t as int].alive() by {
            assert(graph[t as int].alive());
        }
        survivors_and_firsts(mesh, shorter);
        assert(mesh.is_first(last) ==> graph[last as int].alive());
        if forall|t: usize| t < graph.len() && (#[trigger] graph[t as int]).alive() ==> mesh.is_first(t) {
            assert forall|t: usize|
                t < shorter.len() && (#[trigger] shorter[t as int]).alive() implies mesh.is_first(t) by {
                assert(graph[t as int].alive());
            }
            assert(graph[last as int].alive() ==> mesh.is_first(last));
        }
    }
}

/// What a part can reach it holds, where it has no neighbors.
proof fn parts_without_neighbors_are_closed<N>(
    mesh: MeshModel<N>,
    graph: Seq<VertexModel<N>>,
    i: int,
    path: Seq<usize>,
    k: int,
)
    requires
        graph.len() == mesh.size(),
        graph.len() <= usize::MAX,
        0 <= i < graph.len(),
        partitioned(graph),
        hangs_together(mesh, graph),
        graph[i].alive(),
        forall|j: usize| j < graph.len() && j != i ==> !#[trigger] graph[i].neighbors->0.contains(j),
        is_path(mesh, mesh.triangles(), path),
        owns(graph, i, path.first()),
        0 <= k < path.len(),
    ensures
        owns(graph, i, path[k]),
    decreases k,
{
    if k > 0 {
        parts_without_neighbors_are_closed(mesh, graph, i, path, k - 1);
        let (a, b) = (path[k - 1], path[k]);
        assert(adjacent(mesh, a, b));
        assert(mesh.triangles().contains(b));
        assert(owned(graph, b));
        let j = choose|j: int| 0 <= j < graph.len() && #[trigger] owns(graph, j, b);
        if j != i {
            assert(graph[i].neighbors->0.contains(j as usize));
        }
    }
}

/// At every moment of a decimation there are as many parts as connected components at least.
pub proof fn components_are_kept<
    N: Scalar,
    C: Fn(&ConvexPair<N>, &Ray<N>) -> Option<N>,
    H: Fn(&[Pnt3<N>]) -> TriMesh<N>,
>(
    mesh: MeshModel<N>,
    error: N,
    min_components: nat,
    cast: C,
    hull: H,
    trace: Seq<Phase<N>>,
    i: int,
)
    requires
        mesh.complete(),
        mesh.countable(),
        decimates(mesh, error, min_components, cast, hull, trace),
        0 <= i < trace.len(),
    ensures
        mesh.components() <= survivors(trace[i].graph).len(),
        forall|t: usize| t < mesh.size() && #[trigger] mesh.is_first(t) ==> trace[i].graph[t as int].alive(),
{
    let g = trace[i].graph;
    parts_are_a_partition(mesh, error, min_components, cast, hull, trace, i);
    parts_are_connected(mesh, error, min_components, cast, hull, trace, i);
    parts_begin_with_their_least(mesh, error, min_components, cast, hull, trace, i);
    assert forall|t: usize| t < mesh.size() && #[trigger] mesh.is_first(t) implies g[t as int].alive() by {
        assert(owned(g, t));
        let k = choose|k: int| 0 <= k < g.len() && #[trigger] owns(g, k, t);
        let part = g[k].parts->0;
        assert(connected(mesh, g[k].parts->0));
        assert(part[0] == k);
        assert(part.contains(k as usize) && part.contains(t));
        assert(reaches(mesh, part, t, k as usize));
        assert forall|u: usize| #[trigger] part.contains(u) implies mesh.triangles().contains(u) by {
            assert(owns(g, k, u));
            assert(mesh.triangles()[u as int] == u);
        }
        wider_reach(mesh, part, mesh.triangles(), t, k as usize);
    }
    survivors_and_firsts(mesh, g);
}

/// Where no cast shows a concavity above the allowed one, a decimation that comes to its end
/// leaves as many parts as asked for, or one for each triangle where there are fewer triangles,
/// or one for each connected component where there are more components.
pub proof fn parts_are_counted<
    N: Scalar,
    C: Fn(&ConvexPair<N>, &Ray<N>) -> Option<N>,
    H: Fn(&[Pnt3<N>]) -> TriMesh<N>,
>(mesh: MeshModel<N>, error: N, min_components: nat, cast: C, hull: H, trace: Seq<Phase<N>>)
    requires
        mesh.complete(),
        mesh.countable(),
        lenient(cast, error),
        decimates(mesh, error, min_components, cast, hull, trace),
        finished(trace.last(), min_components),
    ensures
        survivors(trace.last().graph).len() == most(
            mesh.components(),
            least(min_components, mesh.size()),
        ),
{
    let n = trace.len() - 1;
    let last = trace.last();
    let g = last.graph;
    let scene = mesh.scene(error);
    components_are_kept(mesh, error, min_components, cast, hull, trace, n);
    parts_are_enough(mesh, error, min_components, cast, hull, trace, n);
    parts_are_a_partition(mesh, error, min_components, cast, hull, trace, n);
    survivors_are_the_living(g);
    if last.edges.len() == 0 {
        parts_are_connected(mesh, error, min_components, cast, hull, trace, n);
        parts_begin_with_their_least(mesh, error, min_components, cast, hull, trace, n);
        states_are_sound(mesh, error, min_components, cast, hull, trace, n);
        concavities_stay_within(mesh, error, min_components, cast, hull, trace, n, error);
        assert forall|t: usize| t < g.len() && (#[trigger] g[t as int]).alive() implies mesh.is_first(t) by {
            assert forall|j: usize| j < g.len() && j != t implies !#[trigger] g[t as int].neighbors->0.contains(
                j,
            ) by {
                if g[t as int].neighbors->0.contains(j) {
                    assert(last.links_sound(t as int));
                    let (v1, v2) = if t < j {
                        (t, j)
                    } else {
                        (j, t)
                    };
                    assert(neighboring(g, v1, v2));
                    no_neighbors_are_left_to_join(
                        mesh,
                        error,
                        min_components,
                        cast,
                        hull,
                        trace,
                        v1,
                        v2,
                    );
                    nothing_is_refused(scene, cast, last, v1, v2);
                }
            }
            assert(g[t as int].parts->0[0] == t);
            assert(owns(g, t as int, t));
            assert forall|u: usize| #[trigger] reaches(mesh, mesh.triangles(), t, u) implies t <= u by {
                let path = choose|path: Seq<usize>| #[trigger]
                    is_path(mesh, mesh.triangles(), path) && path.first() == t && path.last() == u;
                parts_without_neighbors_are_closed(mesh, g, t as int, path, path.len() - 1);
                assert(owns(g, t as int, u));
            }
        }
        survivors_and_firsts(mesh, g);
    }
}

/// Where no cast shows a concavity above the allowed one, no pair of parts is refused.
proof fn nothing_is_refused<N: Scalar, C: Fn(&ConvexPair<N>, &Ray<N>) -> Option<N>>(
    scene: SceneModel<N>,
    cast: C,
    phase: Phase<N>,
    v1: usize,
    v2: usize,
)
    requires
        lenient(cast, scene.error),
        stays_within(phase, scene.error),
        phase.sound(scene),
        neighboring(phase.graph, v1, v2),
    ensures
        !refused(scene, cast, phase.graph, v1, v2),
{
    let g = phase.graph;
    assert(phase.links_sound(v1 as int));
    assert(g[v1 as int].alive() && g[v2 as int].alive());
    if refused(scene, cast, g, v1, v2) {
        let x = choose|x: EdgeModel<N>|
            {
                &&& x.v1 == v1
                &&& x.v2 == v2
                &&& #[trigger] stems(scene, cast, g, x)
                &&& scene.too_concave(x)
            };
        assert(genuine(scene, cast, g, x));
        let pair = PairModel {
            a: g[v1 as int].chull->0.coords,
            b: g[v2 as int].chull->0.coords,
        };
        if some_ray_hits(cast, pair, scene.rays, x.concavity) {
            hits_are_lenient(cast, scene.error, pair, scene.rays, x.concavity);
        }
    }
}

pub open spec fn least(a: nat, b: nat) -> nat {
    if a <= b {
        a
    } else {
        b
    }
}

pub open spec fn most(a: nat, b: nat) -> nat {
    if a >= b {
        a
    } else {
        b
    }
}

proof fn corners_make_firsts<N>(mesh: MeshModel<N>, other: MeshModel<N>, t: usize)
    requires
        mesh.indices == other.indices,
        mesh.is_first(t),
    ensures
        other.is_first(t),
{
    corners_make_neighbors(mesh, other);
    assert(mesh.triangles() == other.triangles());
    assert forall|u: usize| #[trigger] reaches(other, other.triangles(), t, u) implies t <= u by {
        let path = choose|path: Seq<usize>| #[trigger]
            is_path(other, other.triangles(), path) && path.first() == t && path.last() == u;
        assert(is_path(mesh, mesh.triangles(), path)) by {
            assert forall|k: int, l: int|
                0 <= k < path.len() && l == k + 1 && l < path.len() implies adjacent(
                mesh,
                #[trigger] path[k],
                #[trigger] path[l],
            ) by {
                assert(adjacent(other, path[k], path[l]));
                assert(adjacent(mesh, path[k], path[l]) == adjacent(other, path[k], path[l]));
            }
        }
        assert(reaches(mesh, mesh.triangles(), t, u));
    }
}

/// The number of components depends on nothing but the corners of the triangles.
pub proof fn corners_make_components<N>(mesh: MeshModel<N>, other: MeshModel<N>)
    requires
        mesh.indices == other.indices,
    ensures
        mesh.components() == other.components(),
{
    assert(mesh.triangles() == other.triangles());
    assert forall|t: usize| #[trigger] mesh.is_first(t) == other.is_first(t) by {
        if mesh.is_first(t) {
            corners_make_firsts(mesh, other, t);
        }
        if other.is_first(t) {
            corners_make_firsts(other, mesh, t);
        }
    }
    same_firsts(mesh, other, mesh.size());
}

proof fn same_firsts<N>(mesh: MeshModel<N>, other: MeshModel<N>, n: nat)
    requires
        forall|t: usize| #[trigger] mesh.is_first(t) == other.is_first(t),
    ensures
        mesh.firsts(n) == other.firsts(n),
    decreases n,
{
    if n > 0 {
        same_firsts(mesh, other, (n - 1) as nat);
        assert(mesh.is_first((n - 1) as usize) == other.is_first((n - 1) as usize));
    }
}

} // verus!
