//! What the decimation of a dual graph does: its states, its steps, and what every step keeps.
use crate::aabb::AABB;
use crate::ancestor::VertexWithConcavity;
use crate::bvt::{interferences, interferences_are_the_meeting_leaves};
use crate::edge::{finds_rays, knows_rays, within, witnessed, DualGraphEdge, EdgeModel};
use crate::kernel::{enclosure, may_enclose, ConvexPair, PairModel};
use crate::linalg::Pnt3;
use crate::mesh::{MeshModel, TriMesh};
use crate::queue::leads;
use crate::rays::{ray_leaves, Ray};
use crate::scalar::{lawful, opposite, rank, top, Scalar};
use crate::set::{finite_sets_can_be_sorted, has_pushed, index_sets_are_finite, sorted};
use crate::vertex::{contracted, first_of_runs, hull_points, ranked, VertexModel};
use vstd::multiset::Multiset;
use vstd::prelude::*;

verus! {

/// What stays the same during a decimation.
pub struct SceneModel<N> {
    pub rays: Seq<Ray<N>>,
    /// The leaves of the tree of the rays.
    pub leaves: Seq<(usize, AABB<N>)>,
    /// The points of the mesh.
    pub coords: Seq<Pnt3<N>>,
    /// The concavity that no part may exceed.
    pub error: N,
}

/// A state of a decimation.
#[verifier::ext_equal]
pub struct Phase<N> {
    pub graph: Seq<VertexModel<N>>,
    /// The edges that wait to be contracted.
    pub edges: Multiset<EdgeModel<N>>,
    /// The number of contractions made.
    pub time: nat,
}

/// What one pass of a decimation did.
#[derive(Clone, Copy, Debug, PartialEq, Eq, Structural)]
pub enum Outcome {
    /// No edge was waiting.
    Exhausted,
    /// An edge that is outdated, or too concave, was dropped.
    Dropped,
    /// An edge turned out to cost more than the next one, and waits on.
    Delayed,
    /// An edge was contracted.
    Contracted,
    /// The cost of an edge could not be computed to the end within the bounds of the numbers.
    Inexact,
}

impl<N> VertexModel<N> {
    /// Whether the vertex is a part of its own.
    pub open spec fn alive(self) -> bool {
        self.timestamp != usize::MAX
    }
}

/// The places of the vertices that are parts of their own, in order.
pub open spec fn survivors<N>(graph: Seq<VertexModel<N>>) -> Seq<int>
    decreases graph.len(),
{
    if graph.len() == 0 {
        Seq::empty()
    } else {
        let before = survivors(graph.drop_last());
        if graph.last().alive() {
            before.push(graph.len() - 1)
        } else {
            before
        }
    }
}

/// The edges from `v` to the vertices of a list: to all of them where `all` is true, to those
/// that come after `v` where it is false.
pub open spec fn fresh_edges<N: Scalar>(
    scene: SceneModel<N>,
    graph: Seq<VertexModel<N>>,
    timestamp: usize,
    v: usize,
    others: Seq<usize>,
    all: bool,
) -> Multiset<EdgeModel<N>>
    decreases others.len(),
{
    if others.len() == 0 {
        Multiset::empty()
    } else {
        let before = fresh_edges(scene, graph, timestamp, v, others.drop_last(), all);
        if all || v < others.last() {
            before.insert(
                EdgeModel::between(timestamp, v, others.last(), graph, scene.coords, scene.error),
            )
        } else {
            before
        }
    }
}

/// The edges between the first vertices and their neighbors, each of them once.
pub open spec fn initial_edges<N: Scalar>(
    scene: SceneModel<N>,
    graph: Seq<VertexModel<N>>,
    count: nat,
) -> Multiset<EdgeModel<N>>
    decreases count,
{
    if count == 0 {
        Multiset::empty()
    } else {
        let v = (count - 1) as usize;
        initial_edges(scene, graph, (count - 1) as nat).add(
            fresh_edges(scene, graph, 0, v, sorted(graph[count - 1].neighbors->0), false),
        )
    }
}

/// The state in which a decimation begins.
pub open spec fn initial_phase<N: Scalar>(scene: SceneModel<N>, graph: Seq<VertexModel<N>>) -> Phase<N> {
    Phase { graph, edges: initial_edges(scene, graph, graph.len()), time: 0 }
}

/// The graph with the first end of an edge stamped with the time, and the second one given up.
pub open spec fn stamped<N>(
    graph: Seq<VertexModel<N>>,
    edge: EdgeModel<N>,
    time: usize,
) -> Seq<VertexModel<N>> {
    Seq::new(
        graph.len(),
        |i: int|
            if i == edge.v1 {
                VertexModel { timestamp: time, ..graph[i] }
            } else if i == edge.v2 {
                VertexModel { timestamp: usize::MAX, ..graph[i] }
            } else {
                graph[i]
            },
    )
}

impl<N: Scalar> Phase<N> {
    /// The state with other edges waiting.
    pub open spec fn waiting(self, edges: Multiset<EdgeModel<N>>) -> Self {
        Phase { edges, ..self }
    }

    /// The state after `edge` has been contracted, while the edges of `rest` wait.
    pub open spec fn after_contraction(
        self,
        scene: SceneModel<N>,
        rest: Multiset<EdgeModel<N>>,
        edge: EdgeModel<N>,
        ancestors: Seq<VertexWithConcavity<N>>,
        chull: MeshModel<N>,
    ) -> Self {
        let time = self.time + 1;
        let graph = stamped(contracted(self.graph, edge, ancestors, chull), edge, time as usize);
        Phase {
            graph,
            edges: rest.add(
                fresh_edges(
                    scene,
                    graph,
                    time as usize,
                    edge.v1,
                    sorted(graph[edge.v1 as int].neighbors->0),
                    true,
                ),
            ),
            time,
        }
    }
}

impl<N: Scalar> SceneModel<N> {
    /// Whether the concavity of the edge exceeds what is allowed.
    pub open spec fn too_concave(self, edge: EdgeModel<N>) -> bool {
        rank(self.error) < rank(edge.concavity)
    }

    /// The edge after its cost has been computed, as far as it does not exceed `max_cost`.
    pub open spec fn evaluated<C: Fn(&ConvexPair<N>, &Ray<N>) -> Option<N>>(
        self,
        cast: C,
        graph: Seq<VertexModel<N>>,
        edge: EdgeModel<N>,
        max_cost: N,
    ) -> EdgeModel<N> {
        edge.evaluated(
            cast,
            graph[edge.v1 as int],
            graph[edge.v2 as int],
            self.rays,
            self.leaves,
            max_cost,
            self.error,
        )
    }
}

impl<N: Scalar> SceneModel<N> {
    /// Whether all that is new in `after`, which was `before`, is what `cast` has returned.
    pub open spec fn witnessed<C: Fn(&ConvexPair<N>, &Ray<N>) -> Option<N>>(
        self,
        cast: C,
        graph: Seq<VertexModel<N>>,
        before: EdgeModel<N>,
        after: EdgeModel<N>,
    ) -> bool {
        witnessed(
            cast,
            PairModel {
                a: graph[before.v1 as int].chull->0.coords,
                b: graph[before.v2 as int].chull->0.coords,
            },
            self.rays,
            before,
            after,
        )
    }
}

/// Whether `limit` is the opposite of the cost of the cheapest waiting edge, or the lowest
/// number where none waits.
pub open spec fn limits<N: Scalar>(limit: N, rest: Multiset<EdgeModel<N>>) -> bool {
    if rest.len() == 0 {
        limit == opposite(top::<N>())
    } else {
        exists|next: EdgeModel<N>| #[trigger]
            leads::<DualGraphEdge<N>>(next, rest) && next.mcost == limit
    }
}

/// Whether one pass takes a decimation from `pre` to `post` when `edge` is the cheapest edge
/// and `limit` is the opposite of the cost of the one after it.
///
/// An edge whose cost is only known up to a bound is evaluated first as far as the cost of the
/// next edge. If it exceeds that, it waits on. Otherwise it is evaluated to the end, and
/// contracted. An edge that proves too concave is dropped. What an evaluation finds is what the
/// casts have returned.
pub open spec fn handles<
    N: Scalar,
    C: Fn(&ConvexPair<N>, &Ray<N>) -> Option<N>,
    H: Fn(&[Pnt3<N>]) -> TriMesh<N>,
>(
    scene: SceneModel<N>,
    cast: C,
    hull: H,
    pre: Phase<N>,
    edge: EdgeModel<N>,
    limit: N,
    outcome: Outcome,
    post: Phase<N>,
) -> bool {
    let rest = pre.edges.remove(edge);
    let bounded = if edge.exact {
        edge
    } else {
        scene.evaluated(cast, pre.graph, edge, opposite(limit))
    };
    let full = scene.evaluated(cast, pre.graph, bounded, top());
    if !edge.valid(pre.graph) {
        outcome == Outcome::Dropped && post == pre.waiting(rest)
    } else {
        &&& edge.exact || scene.witnessed(cast, pre.graph, edge, bounded)
        &&& if !edge.exact && scene.too_concave(bounded) {
            outcome == Outcome::Dropped && post == pre.waiting(rest)
        } else if !edge.exact && rank(bounded.mcost) < rank(limit) {
            outcome == Outcome::Delayed && post == pre.waiting(rest.insert(bounded))
        } else {
            &&& scene.witnessed(cast, pre.graph, bounded, full)
            &&& if scene.too_concave(full) {
                outcome == Outcome::Dropped && post == pre.waiting(rest)
            } else if !full.exact {
                outcome == Outcome::Inexact && post == pre.waiting(rest)
            } else {
                outcome == Outcome::Contracted && contracts(scene, hull, pre, rest, full, post)
            }
        }
    }
}

/// Whether the contraction of `edge` takes a decimation from `pre`, with the edges of `rest`
/// waiting, to `post`.
pub open spec fn contracts<N: Scalar, H: Fn(&[Pnt3<N>]) -> TriMesh<N>>(
    scene: SceneModel<N>,
    hull: H,
    pre: Phase<N>,
    rest: Multiset<EdgeModel<N>>,
    edge: EdgeModel<N>,
    post: Phase<N>,
) -> bool {
    let chull = enclosure(hull, hull_points(pre.graph, edge));
    &&& may_enclose(hull, hull_points(pre.graph, edge), chull)
    &&& chull.coords.len() > 0
    &&& exists|ancestors: Seq<VertexWithConcavity<N>>| #[trigger]
        ranked(ancestors, edge.ancestors) && post == pre.after_contraction(
            scene,
            rest,
            edge,
            ancestors,
            chull,
        )
}

/// Whether one pass takes a decimation from `pre` to `post`.
pub open spec fn passes<
    N: Scalar,
    C: Fn(&ConvexPair<N>, &Ray<N>) -> Option<N>,
    H: Fn(&[Pnt3<N>]) -> TriMesh<N>,
>(
    scene: SceneModel<N>,
    cast: C,
    hull: H,
    pre: Phase<N>,
    outcome: Outcome,
    post: Phase<N>,
) -> bool {
    if pre.edges.len() == 0 {
        outcome == Outcome::Exhausted && post == pre
    } else {
        exists|edge: EdgeModel<N>, limit: N|
            {
                &&& leads::<DualGraphEdge<N>>(edge, pre.edges)
                &&& limits(limit, pre.edges.remove(edge))
                &&& #[trigger] handles(scene, cast, hull, pre, edge, limit, outcome, post)
            }
    }
}

/// Whether the entries of the edge are for `count` rays.
pub open spec fn entries_known<N>(edge: EdgeModel<N>, count: nat) -> bool {
    forall|x: VertexWithConcavity<N>| #[trigger] edge.ancestors.contains(x) ==> x.id < count
}

impl<N: Scalar> Phase<N> {
    /// A part of its own is whole, knows rays of the scene only, and is bounded by edges
    /// between points of the scene.
    pub open spec fn vertex_sound(self, scene: SceneModel<N>, i: int) -> bool {
        let v = self.graph[i];
        v.alive() ==> {
            &&& v.whole()
            &&& v.timestamp <= self.time
            &&& knows_rays(v, scene.rays.len())
            &&& within(v.border->0, scene.coords)
        }
    }

    /// The neighbors of a part of its own are other such parts, and have it as a neighbor.
    pub open spec fn links_sound(self, i: int) -> bool {
        self.graph[i].alive() ==> forall|j: usize| #[trigger]
            self.graph[i].neighbors->0.contains(j) ==> {
                &&& j < self.graph.len()
                &&& j != i
                &&& self.graph[j as int].alive()
                &&& self.graph[j as int].neighbors->0.contains(i as usize)
            }
    }

    /// An edge leads from a vertex to a later one, and is not newer than the state. While it is
    /// valid, its ends are neighbors, and no more of their rays are accounted for than they
    /// know.
    pub open spec fn edge_sound(self, scene: SceneModel<N>, e: EdgeModel<N>) -> bool {
        &&& e.v1 < e.v2
        &&& e.v2 < self.graph.len()
        &&& e.timestamp <= self.time
        &&& entries_known(e, scene.rays.len())
        &&& e.valid(self.graph) ==> {
            &&& e.iv1 <= self.graph[e.v1 as int].ancestors->0.len()
            &&& e.iv2 <= self.graph[e.v2 as int].ancestors->0.len()
            &&& self.graph[e.v1 as int].neighbors->0.contains(e.v2)
        }
    }

    /// What every state of a decimation keeps.
    pub open spec fn sound(self, scene: SceneModel<N>) -> bool {
        &&& self.graph.len() <= usize::MAX
        &&& self.time < usize::MAX
        &&& survivors(self.graph).len() + self.time == self.graph.len()
        &&& forall|i: int| 0 <= i < self.graph.len() ==> #[trigger] self.vertex_sound(scene, i)
        &&& forall|i: int| 0 <= i < self.graph.len() ==> #[trigger] self.links_sound(i)
        &&& forall|e: EdgeModel<N>| #[trigger] self.edges.contains(e) ==> self.edge_sound(scene, e)
    }
}

/// The survivors are the vertices that are parts of their own, in ascending order.
pub proof fn survivors_are_the_living<N>(graph: Seq<VertexModel<N>>)
    ensures
        forall|i: int| #[trigger]
            survivors(graph).contains(i) <==> 0 <= i < graph.len() && graph[i].alive(),
        forall|a: int, b: int|
            0 <= a < b < survivors(graph).len() ==> #[trigger] survivors(graph)[a]
                < #[trigger] survivors(graph)[b],
        survivors(graph).len() <= graph.len(),
    decreases graph.len(),
{
    if graph.len() > 0 {
        let shorter = graph.drop_last();
        let before = survivors(shorter);
        survivors_are_the_living(shorter);
        let last = graph.len() - 1;
        assert forall|i: int| #[trigger] survivors(graph).contains(i) <==> 0 <= i < graph.len()
            && graph[i].alive() by {
            has_pushed(before, last, i);
            assert(before.contains(i) <==> 0 <= i < shorter.len() && shorter[i].alive());
        }
        assert forall|a: int, b: int| 0 <= a < b < survivors(graph).len() implies #[trigger] survivors(
            graph,
        )[a] < #[trigger] survivors(graph)[b] by {
            if b == before.len() {
                assert(before.contains(before[a]));
            }
        }
    }
}

/// Two parts of their own are two survivors.
proof fn two_survivors<N>(graph: Seq<VertexModel<N>>, i: int, j: int)
    requires
        0 <= i < graph.len(),
        0 <= j < graph.len(),
        i != j,
        graph[i].alive(),
        graph[j].alive(),
    ensures
        survivors(graph).len() >= 2,
{
    survivors_are_the_living(graph);
    assert(survivors(graph).contains(i));
    assert(survivors(graph).contains(j));
}

/// Giving up one part leaves one survivor less.
proof fn one_survivor_less<N>(g: Seq<VertexModel<N>>, h: Seq<VertexModel<N>>, o: int)
    requires
        g.len() == h.len(),
        forall|i: int| 0 <= i < g.len() && i != o ==> (#[trigger] g[i]).alive() == h[i].alive(),
        0 <= o < g.len() ==> g[o].alive() && !h[o].alive(),
        0 <= o,
    ensures
        survivors(h).len() == survivors(g).len() - if o < g.len() {
            1int
        } else {
            0
        },
    decreases g.len(),
{
    if g.len() > 0 {
        assert forall|i: int| 0 <= i < g.drop_last().len() && i != o implies (
        #[trigger] g.drop_last()[i]).alive() == h.drop_last()[i].alive() by {
            assert(g[i].alive() == h[i].alive());
        }
        one_survivor_less(g.drop_last(), h.drop_last(), o);
        if o != g.len() - 1 {
            assert(g[g.len() - 1].alive() == h[g.len() - 1].alive());
        }
    }
}

/// Casting a ray keeps what an edge is about.
proof fn probing_keeps<N: Scalar, C: Fn(&ConvexPair<N>, &Ray<N>) -> Option<N>>(
    e: EdgeModel<N>,
    cast: C,
    pair: PairModel<N>,
    ray: Ray<N>,
    id: usize,
    count: nat,
)
    requires
        id < count,
        entries_known(e, count),
    ensures
        entries_known(e.probed(cast, pair, ray, id), count),
{
    let r = e.probed(cast, pair, ray, id);
    assert forall|x: VertexWithConcavity<N>| #[trigger] r.ancestors.contains(x) implies x.id < count by {
        assert(e.ancestors.contains(x) || x.id == id);
    }
}

/// Casting the rays that two parts know keeps what an edge is about.
proof fn known_rays_keep<N: Scalar, C: Fn(&ConvexPair<N>, &Ray<N>) -> Option<N>>(
    e: EdgeModel<N>,
    cast: C,
    pair: PairModel<N>,
    a1: Seq<VertexWithConcavity<N>>,
    a2: Seq<VertexWithConcavity<N>>,
    rays: Seq<Ray<N>>,
    bound: N,
)
    requires
        e.iv1 <= a1.len(),
        e.iv2 <= a2.len(),
        forall|i: int| 0 <= i < a1.len() ==> (#[trigger] a1[i]).id < rays.len(),
        forall|i: int| 0 <= i < a2.len() ==> (#[trigger] a2[i]).id < rays.len(),
        entries_known(e, rays.len()),
    ensures
        ({
            let r = e.known_rays_cast(cast, pair, a1, a2, rays, bound);
            &&& r.v1 == e.v1
            &&& r.v2 == e.v2
            &&& r.timestamp == e.timestamp
            &&& r.shape == e.shape
            &&& r.iray_cast == e.iray_cast
            &&& r.iv1 <= a1.len()
            &&& r.iv2 <= a2.len()
            &&& entries_known(r, rays.len())
        }),
    decreases a1.len() - e.iv1 + a2.len() - e.iv2,
{
    if !(e.through(a1, a2) || rank(bound) < rank(e.concavity)) {
        let next = e.next_ray_cast(cast, pair, a1, a2, rays);
        let advanced1 = EdgeModel { iv1: e.iv1 + 1, ..e };
        let advanced2 = EdgeModel { iv2: e.iv2 + 1, ..e };
        if e.iv1 < a1.len() {
            let id = a1[e.iv1 as int].id;
            probing_keeps(advanced1, cast, pair, rays[id as int], id, rays.len());
        }
        if e.iv2 < a2.len() {
            let id = a2[e.iv2 as int].id;
            probing_keeps(advanced2, cast, pair, rays[id as int], id, rays.len());
        }
        known_rays_keep(next, cast, pair, a1, a2, rays, bound);
    }
}

/// Casting further rays keeps what an edge is about.
proof fn inner_rays_keep<N: Scalar, C: Fn(&ConvexPair<N>, &Ray<N>) -> Option<N>>(
    e: EdgeModel<N>,
    cast: C,
    pair: PairModel<N>,
    known: Set<usize>,
    rays: Seq<Ray<N>>,
    ids: Seq<usize>,
)
    requires
        forall|i: int| 0 <= i < ids.len() ==> (#[trigger] ids[i]) < rays.len(),
        entries_known(e, rays.len()),
    ensures
        ({
            let r = e.inner_rays_cast(cast, pair, known, rays, ids);
            &&& r.v1 == e.v1
            &&& r.v2 == e.v2
            &&& r.timestamp == e.timestamp
            &&& r.shape == e.shape
            &&& r.iray_cast == e.iray_cast
            &&& r.iv1 == e.iv1
            &&& r.iv2 == e.iv2
            &&& entries_known(r, rays.len())
        }),
    decreases ids.len(),
{
    if ids.len() > 0 {
        inner_rays_keep(e, cast, pair, known, rays, ids.drop_last());
        let before = e.inner_rays_cast(cast, pair, known, rays, ids.drop_last());
        let id = ids[ids.len() - 1];
        probing_keeps(before, cast, pair, rays[id as int], id, rays.len());
    }
}

/// Evaluating an edge keeps what it is about.
pub proof fn evaluation_keeps<N: Scalar, C: Fn(&ConvexPair<N>, &Ray<N>) -> Option<N>>(
    scene: SceneModel<N>,
    cast: C,
    graph: Seq<VertexModel<N>>,
    e: EdgeModel<N>,
    max_cost: N,
)
    requires
        e.iv1 <= graph[e.v1 as int].ancestors->0.len(),
        e.iv2 <= graph[e.v2 as int].ancestors->0.len(),
        knows_rays(graph[e.v1 as int], scene.rays.len()),
        knows_rays(graph[e.v2 as int], scene.rays.len()),
        finds_rays(scene.leaves, scene.rays.len()),
        entries_known(e, scene.rays.len()),
    ensures
        ({
            let r = scene.evaluated(cast, graph, e, max_cost);
            &&& r.v1 == e.v1
            &&& r.v2 == e.v2
            &&& r.timestamp == e.timestamp
            &&& r.shape == e.shape
            &&& r.iv1 <= graph[e.v1 as int].ancestors->0.len()
            &&& r.iv2 <= graph[e.v2 as int].ancestors->0.len()
            &&& entries_known(r, scene.rays.len())
        }),
{
    let (v1, v2) = (graph[e.v1 as int], graph[e.v2 as int]);
    let pair = PairModel { a: v1.chull->0.coords, b: v2.chull->0.coords };
    let (a1, a2) = (v1.ancestors->0, v2.ancestors->0);
    let bound = e.bound(max_cost, scene.error);
    known_rays_keep(e, cast, pair, a1, a2, scene.rays, bound);
    let outer = e.known_rays_cast(cast, pair, a1, a2, scene.rays, bound);
    let volume = v1.aabb.hull(v2.aabb);
    let ids = interferences(scene.leaves, volume);
    assert forall|i: int| 0 <= i < ids.len() implies (#[trigger] ids[i]) < scene.rays.len() by {
        interferences_are_the_meeting_leaves(scene.leaves, volume, ids[i]);
        assert(ids.contains(ids[i]));
    }
    inner_rays_keep(
        EdgeModel { iray_cast: true, ..outer },
        cast,
        pair,
        v1.uancestors->0.union(v2.uancestors->0),
        scene.rays,
        ids,
    );
}

/// Each of the fresh edges leads from the vertex to one of the list.
pub proof fn fresh_edges_lead<N: Scalar>(
    scene: SceneModel<N>,
    graph: Seq<VertexModel<N>>,
    timestamp: usize,
    v: usize,
    others: Seq<usize>,
    all: bool,
    e: EdgeModel<N>,
)
    ensures
        fresh_edges(scene, graph, timestamp, v, others, all).contains(e) <==> exists|i: int|
            {
                &&& 0 <= i < others.len()
                &&& all || v < others[i]
                &&& e == EdgeModel::between(
                    timestamp,
                    v,
                    #[trigger] others[i],
                    graph,
                    scene.coords,
                    scene.error,
                )
            },
    decreases others.len(),
{
    if others.len() > 0 {
        let shorter = others.drop_last();
        fresh_edges_lead(scene, graph, timestamp, v, shorter, all, e);
        let before = fresh_edges(scene, graph, timestamp, v, shorter, all);
        if before.contains(e) {
            let i = choose|i: int|
                {
                    &&& 0 <= i < shorter.len()
                    &&& all || v < shorter[i]
                    &&& e == EdgeModel::between(
                        timestamp,
                        v,
                        #[trigger] shorter[i],
                        graph,
                        scene.coords,
                        scene.error,
                    )
                };
            assert(others[i] == shorter[i]);
        }
        if exists|i: int|
            {
                &&& 0 <= i < others.len()
                &&& all || v < others[i]
                &&& e == EdgeModel::between(
                    timestamp,
                    v,
                    #[trigger] others[i],
                    graph,
                    scene.coords,
                    scene.error,
                )
            } {
            let i = choose|i: int|
                {
                    &&& 0 <= i < others.len()
                    &&& all || v < others[i]
                    &&& e == EdgeModel::between(
                        timestamp,
                        v,
                        #[trigger] others[i],
                        graph,
                        scene.coords,
                        scene.error,
                    )
                };
            if i < shorter.len() {
                assert(shorter[i] == others[i]);
            }
        }
        assert(others[others.len() - 1] == others.last());
    }
}

/// An edge that is valid leads between two parts of their own.
pub proof fn valid_edges_live<N: Scalar>(scene: SceneModel<N>, pre: Phase<N>, e: EdgeModel<N>)
    requires
        pre.sound(scene),
        pre.edge_sound(scene, e),
        e.valid(pre.graph),
    ensures
        pre.graph[e.v1 as int].alive(),
        pre.graph[e.v2 as int].alive(),
        pre.vertex_sound(scene, e.v1 as int),
        pre.vertex_sound(scene, e.v2 as int),
        pre.time + 2 <= pre.graph.len(),
{
    assert(pre.vertex_sound(scene, e.v1 as int));
    assert(pre.vertex_sound(scene, e.v2 as int));
    two_survivors(pre.graph, e.v1 as int, e.v2 as int);
}

/// The entries that are left of a list are entries of the list.
proof fn runs_are_entries<N>(list: Seq<VertexWithConcavity<N>>)
    ensures
        forall|i: int|
            0 <= i < first_of_runs(list).len() ==> list.contains(#[trigger] first_of_runs(list)[i]),
    decreases list.len(),
{
    if list.len() > 0 {
        let shorter = list.drop_last();
        let before = first_of_runs(shorter);
        runs_are_entries(shorter);
        assert forall|i: int| 0 <= i < first_of_runs(list).len() implies list.contains(
            #[trigger] first_of_runs(list)[i],
        ) by {
            if i < before.len() {
                assert(shorter.contains(before[i]));
                let k = choose|k: int| 0 <= k < shorter.len() && shorter[k] == before[i];
                assert(list[k] == before[i]);
            } else {
                assert(list[list.len() - 1] == list.last());
            }
        }
    }
}

/// The ranked entries of an edge are entries of the edge.
pub proof fn ranked_are_entries<N: Scalar>(
    entries: Seq<VertexWithConcavity<N>>,
    all: Multiset<VertexWithConcavity<N>>,
)
    requires
        ranked(entries, all),
    ensures
        forall|i: int| 0 <= i < entries.len() ==> all.contains(#[trigger] entries[i]),
{
    broadcast use vstd::seq_lib::group_to_multiset_ensures;

    let list = choose|list: Seq<VertexWithConcavity<N>>|
        {
            &&& #[trigger] list.to_multiset() == all
            &&& crate::queue::descending::<VertexWithConcavity<N>>(list)
            &&& entries == first_of_runs(list)
        };
    runs_are_entries(list);
    list.to_multiset_ensures();
    assert forall|i: int| 0 <= i < entries.len() implies all.contains(#[trigger] entries[i]) by {
        assert(list.contains(first_of_runs(list)[i]));
    }
}

/// What a contraction makes of the vertices.
proof fn contracted_vertices<N: Scalar>(
    scene: SceneModel<N>,
    pre: Phase<N>,
    rest: Multiset<EdgeModel<N>>,
    e: EdgeModel<N>,
    ancestors: Seq<VertexWithConcavity<N>>,
    chull: MeshModel<N>,
)
    requires
        pre.sound(scene),
        pre.edge_sound(scene, e),
        e.valid(pre.graph),
        ranked(ancestors, e.ancestors),
        chull.coords.len() > 0,
    ensures
        ({
            let post = pre.after_contraction(scene, rest, e, ancestors, chull);
            &&& post.graph.len() == pre.graph.len()
            &&& post.time < usize::MAX
            &&& survivors(post.graph).len() + post.time == post.graph.len()
            &&& forall|i: int| 0 <= i < post.graph.len() ==> #[trigger] post.vertex_sound(scene, i)
            &&& forall|i: int| 0 <= i < post.graph.len() ==> #[trigger] post.links_sound(i)
        }),
{
    let post = pre.after_contraction(scene, rest, e, ancestors, chull);
    let (g, h) = (pre.graph, post.graph);
    let (v, o) = (e.v1 as int, e.v2 as int);
    valid_edges_live(scene, pre, e);
    assert forall|i: int| 0 <= i < g.len() && i != o implies (#[trigger] g[i]).alive() == h[i].alive() by {}
    one_survivor_less(g, h, o);
    assert(pre.links_sound(v) && pre.links_sound(o));
    assert forall|i: int| 0 <= i < h.len() implies #[trigger] post.vertex_sound(scene, i) by {
        assert(pre.vertex_sound(scene, i));
        if i == v {
            ranked_are_entries(ancestors, e.ancestors);
            assert forall|k: int| 0 <= k < h[i].ancestors->0.len() implies (
            #[trigger] h[i].ancestors->0[k]).id < scene.rays.len() by {
                assert(e.ancestors.contains(ancestors[k]));
            }
        }
    }
    assert forall|i: int| 0 <= i < h.len() implies #[trigger] post.links_sound(i) by {
        if h[i].alive() {
            assert(pre.links_sound(i));
            assert forall|j: usize| #[trigger] h[i].neighbors->0.contains(j) implies {
                &&& j < h.len()
                &&& j != i
                &&& h[j as int].alive()
                &&& h[j as int].neighbors->0.contains(i as usize)
            } by {
                if i == v {
                    assert(g[v].neighbors->0.contains(j) || g[o].neighbors->0.contains(j));
                } else if j == v {
                    if g[i].neighbors->0.contains(o as usize) {
                        assert(g[o].neighbors->0.contains(i as usize));
                    }
                    assert(g[v].neighbors->0.contains(i as usize) || g[o].neighbors->0.contains(
                        i as usize,
                    ));
                } else {
                    assert(g[i].neighbors->0.contains(j));
                    assert(g[j as int].neighbors->0.contains(i as usize));
                    if j == o {
                        assert(g[o].neighbors->0.contains(i as usize));
                    }
                }
            }
        }
    }
}

/// A contraction keeps a decimation sound.
pub proof fn contraction_keeps_sound<N: Scalar>(
    scene: SceneModel<N>,
    pre: Phase<N>,
    rest: Multiset<EdgeModel<N>>,
    e: EdgeModel<N>,
    ancestors: Seq<VertexWithConcavity<N>>,
    chull: MeshModel<N>,
)
    requires
        pre.sound(scene),
        pre.edge_sound(scene, e),
        e.valid(pre.graph),
        forall|x: EdgeModel<N>| #[trigger] rest.contains(x) ==> pre.edges.contains(x),
        ranked(ancestors, e.ancestors),
        chull.coords.len() > 0,
    ensures
        pre.after_contraction(scene, rest, e, ancestors, chull).sound(scene),
{
    let post = pre.after_contraction(scene, rest, e, ancestors, chull);
    let (g, h) = (pre.graph, post.graph);
    let (v, o) = (e.v1, e.v2);
    let time = post.time as usize;
    valid_edges_live(scene, pre, e);
    contracted_vertices(scene, pre, rest, e, ancestors, chull);
    let others = sorted(h[v as int].neighbors->0);
    assert(post.vertex_sound(scene, v as int));
    assert(post.links_sound(v as int));
    index_sets_are_finite(h[v as int].neighbors->0);
    finite_sets_can_be_sorted(h[v as int].neighbors->0);
    assert forall|x: EdgeModel<N>| #[trigger] post.edges.contains(x) implies post.edge_sound(scene, x) by {
        let fresh = fresh_edges(scene, h, time, v, others, true);
        if fresh.contains(x) {
            fresh_edges_lead(scene, h, time, v, others, true, x);
            let i = choose|i: int|
                {
                    &&& 0 <= i < others.len()
                    &&& x == EdgeModel::between(
                        time,
                        v,
                        #[trigger] others[i],
                        h,
                        scene.coords,
                        scene.error,
                    )
                };
            assert(others.contains(others[i]));
            assert(h[v as int].neighbors->0.contains(others[i]));
        } else {
            assert(rest.contains(x));
            assert(pre.edge_sound(scene, x));
            if x.valid(h) {
                assert(x.v1 != v && x.v1 != o && x.v2 != v && x.v2 != o);
                assert(x.valid(g));
            }
        }
    }
}

/// A pass that contracts nothing keeps a decimation sound.
pub proof fn waiting_keeps_sound<N: Scalar>(
    scene: SceneModel<N>,
    pre: Phase<N>,
    edges: Multiset<EdgeModel<N>>,
)
    requires
        pre.sound(scene),
        forall|x: EdgeModel<N>| #[trigger] edges.contains(x) ==> pre.edge_sound(scene, x),
    ensures
        pre.waiting(edges).sound(scene),
{
    let post = pre.waiting(edges);
    assert forall|i: int| 0 <= i < post.graph.len() implies #[trigger] post.vertex_sound(scene, i) by {
        assert(pre.vertex_sound(scene, i));
    }
    assert forall|i: int| 0 <= i < post.graph.len() implies #[trigger] post.links_sound(i) by {
        assert(pre.links_sound(i));
    }
    assert forall|x: EdgeModel<N>| #[trigger] post.edges.contains(x) implies post.edge_sound(scene, x) by {
        assert(pre.edge_sound(scene, x));
    }
}

/// Every pass keeps a decimation sound.
pub proof fn passes_keep_sound<
    N: Scalar,
    C: Fn(&ConvexPair<N>, &Ray<N>) -> Option<N>,
    H: Fn(&[Pnt3<N>]) -> TriMesh<N>,
>(scene: SceneModel<N>, cast: C, hull: H, pre: Phase<N>, outcome: Outcome, post: Phase<N>)
    requires
        finds_rays(scene.leaves, scene.rays.len()),
        pre.sound(scene),
        passes(scene, cast, hull, pre, outcome, post),
    ensures
        post.sound(scene),
{
    if pre.edges.len() > 0 {
        let (edge, limit) = choose|edge: EdgeModel<N>, limit: N|
            {
                &&& leads::<DualGraphEdge<N>>(edge, pre.edges)
                &&& limits(limit, pre.edges.remove(edge))
                &&& #[trigger] handles(scene, cast, hull, pre, edge, limit, outcome, post)
            };
        handling_keeps_sound(scene, cast, hull, pre, edge, limit, outcome, post);
    }
}

/// Handling an edge keeps a decimation sound.
pub proof fn handling_keeps_sound<
    N: Scalar,
    C: Fn(&ConvexPair<N>, &Ray<N>) -> Option<N>,
    H: Fn(&[Pnt3<N>]) -> TriMesh<N>,
>(
    scene: SceneModel<N>,
    cast: C,
    hull: H,
    pre: Phase<N>,
    edge: EdgeModel<N>,
    limit: N,
    outcome: Outcome,
    post: Phase<N>,
)
    requires
        finds_rays(scene.leaves, scene.rays.len()),
        pre.sound(scene),
        pre.edges.contains(edge),
        handles(scene, cast, hull, pre, edge, limit, outcome, post),
    ensures
        post.sound(scene),
{
    let rest = pre.edges.remove(edge);
    assert forall|x: EdgeModel<N>| #[trigger] rest.contains(x) implies pre.edges.contains(x) by {}
    assert(pre.edge_sound(scene, edge));
    if !edge.valid(pre.graph) {
        waiting_keeps_sound(scene, pre, rest);
    } else {
        valid_edges_live(scene, pre, edge);
        let bounded = if edge.exact {
            edge
        } else {
            scene.evaluated(cast, pre.graph, edge, opposite(limit))
        };
        evaluation_keeps(scene, cast, pre.graph, edge, opposite(limit));
        assert(pre.edge_sound(scene, bounded));
        let full = scene.evaluated(cast, pre.graph, bounded, top());
        evaluation_keeps(scene, cast, pre.graph, bounded, top());
        assert(pre.edge_sound(scene, full));
        if outcome == Outcome::Contracted {
            let chull = enclosure(hull, hull_points(pre.graph, full));
            let ancestors = contraction_explained(scene, hull, pre, rest, full, post);
            contraction_keeps_sound(scene, pre, rest, full, ancestors, chull);
        } else if outcome == Outcome::Delayed {
            assert forall|x: EdgeModel<N>| #[trigger] rest.insert(bounded).contains(x) implies pre.edge_sound(
                scene,
                x,
            ) by {
                if x != bounded {
                    assert(rest.contains(x));
                }
            }
            waiting_keeps_sound(scene, pre, rest.insert(bounded));
        } else {
            waiting_keeps_sound(scene, pre, rest);
        }
    }
}

/// What a pass of a decimation comes across.
pub struct Pass<N> {
    /// The cheapest edge.
    pub edge: EdgeModel<N>,
    /// The opposite of the cost of the edge after it.
    pub limit: N,
    /// The edge, evaluated as far as the cost of the next one, unless it is exact.
    pub bounded: EdgeModel<N>,
    /// The edge, evaluated to the end.
    pub full: EdgeModel<N>,
}

impl<N: Scalar> Pass<N> {
    /// Whether a pass from `pre` to `post` comes across this. While the edge is valid, it leads
    /// between two parts, and its evaluations are edges of the state as well.
    pub open spec fn explains<
        C: Fn(&ConvexPair<N>, &Ray<N>) -> Option<N>,
        H: Fn(&[Pnt3<N>]) -> TriMesh<N>,
    >(
        self,
        scene: SceneModel<N>,
        cast: C,
        hull: H,
        pre: Phase<N>,
        outcome: Outcome,
        post: Phase<N>,
    ) -> bool {
        let (edge, bounded, full) = (self.edge, self.bounded, self.full);
        &&& leads::<DualGraphEdge<N>>(edge, pre.edges)
        &&& limits(self.limit, pre.edges.remove(edge))
        &&& handles(scene, cast, hull, pre, edge, self.limit, outcome, post)
        &&& pre.edges.contains(edge)
        &&& pre.edge_sound(scene, edge)
        &&& bounded == if edge.exact {
            edge
        } else {
            scene.evaluated(cast, pre.graph, edge, opposite(self.limit))
        }
        &&& full == scene.evaluated(cast, pre.graph, bounded, top())
        &&& edge.valid(pre.graph) ==> {
            &&& pre.graph[edge.v1 as int].alive()
            &&& pre.graph[edge.v2 as int].alive()
            &&& bounded.v1 == edge.v1
            &&& bounded.v2 == edge.v2
            &&& bounded.timestamp == edge.timestamp
            &&& bounded.shape == edge.shape
            &&& pre.edge_sound(scene, bounded)
            &&& full.v1 == edge.v1
            &&& full.v2 == edge.v2
            &&& full.timestamp == edge.timestamp
            &&& full.shape == edge.shape
            &&& pre.edge_sound(scene, full)
        }
    }
}

/// What a pass that finds an edge comes across.
pub proof fn pass_explained<
    N: Scalar,
    C: Fn(&ConvexPair<N>, &Ray<N>) -> Option<N>,
    H: Fn(&[Pnt3<N>]) -> TriMesh<N>,
>(scene: SceneModel<N>, cast: C, hull: H, pre: Phase<N>, outcome: Outcome, post: Phase<N>) -> (pass:
    Pass<N>)
    requires
        finds_rays(scene.leaves, scene.rays.len()),
        pre.sound(scene),
        passes(scene, cast, hull, pre, outcome, post),
        pre.edges.len() > 0,
    ensures
        pass.explains(scene, cast, hull, pre, outcome, post),
{
    let (edge, limit) = choose|edge: EdgeModel<N>, limit: N|
        {
            &&& leads::<DualGraphEdge<N>>(edge, pre.edges)
            &&& limits(limit, pre.edges.remove(edge))
            &&& #[trigger] handles(scene, cast, hull, pre, edge, limit, outcome, post)
        };
    let bounded = if edge.exact {
        edge
    } else {
        scene.evaluated(cast, pre.graph, edge, opposite(limit))
    };
    let full = scene.evaluated(cast, pre.graph, bounded, top());
    assert(pre.edges.contains(edge));
    assert(pre.edge_sound(scene, edge));
    if edge.valid(pre.graph) {
        valid_edges_live(scene, pre, edge);
        evaluation_keeps(scene, cast, pre.graph, edge, opposite(limit));
        evaluation_keeps(scene, cast, pre.graph, bounded, top());
    }
    Pass { edge, limit, bounded, full }
}

/// The ranked entries with which a contraction has been made.
pub proof fn contraction_explained<N: Scalar, H: Fn(&[Pnt3<N>]) -> TriMesh<N>>(
    scene: SceneModel<N>,
    hull: H,
    pre: Phase<N>,
    rest: Multiset<EdgeModel<N>>,
    edge: EdgeModel<N>,
    post: Phase<N>,
) -> (ancestors: Seq<VertexWithConcavity<N>>)
    requires
        contracts(scene, hull, pre, rest, edge, post),
    ensures
        ranked(ancestors, edge.ancestors),
        post == pre.after_contraction(
            scene,
            rest,
            edge,
            ancestors,
            enclosure(hull, hull_points(pre.graph, edge)),
        ),
{
    choose|ancestors: Seq<VertexWithConcavity<N>>| #[trigger]
        ranked(ancestors, edge.ancestors) && post == pre.after_contraction(
            scene,
            rest,
            edge,
            ancestors,
            enclosure(hull, hull_points(pre.graph, edge)),
        )
}

/// A measure of what is left to do with the waiting edges.
pub open spec fn weight<N: Scalar>(edges: Multiset<EdgeModel<N>>) -> nat
    decreases edges.len(),
{
    if edges.len() == 0 {
        0
    } else {
        let e = edges.choose();
        rank(e.mcost) + 1 + weight(edges.remove(e))
    }
}

/// The measure can be taken in any order.
proof fn weight_without<N: Scalar>(edges: Multiset<EdgeModel<N>>, e: EdgeModel<N>)
    requires
        edges.contains(e),
    ensures
        weight(edges) == rank(e.mcost) + 1 + weight(edges.remove(e)),
    decreases edges.len(),
{
    let c = edges.choose();
    if edges.len() == 0 {
        assert(edges.count(e) <= edges.len());
    } else if c != e {
        assert(edges.contains(c));
        weight_without(edges.remove(c), e);
        assert(edges.remove(e).contains(c));
        weight_without(edges.remove(e), c);
        assert(edges.remove(c).remove(e) =~= edges.remove(e).remove(c));
    }
}

proof fn weight_with<N: Scalar>(edges: Multiset<EdgeModel<N>>, e: EdgeModel<N>)
    ensures
        weight(edges.insert(e)) == rank(e.mcost) + 1 + weight(edges),
{
    weight_without(edges.insert(e), e);
    assert(edges.insert(e).remove(e) =~= edges);
}

/// A pass that leaves an edge waiting, or drops one, comes closer to the end.
pub proof fn passes_make_progress<
    N: Scalar,
    C: Fn(&ConvexPair<N>, &Ray<N>) -> Option<N>,
    H: Fn(&[Pnt3<N>]) -> TriMesh<N>,
>(scene: SceneModel<N>, cast: C, hull: H, pre: Phase<N>, outcome: Outcome, post: Phase<N>)
    requires
        lawful::<N>(),
        passes(scene, cast, hull, pre, outcome, post),
        outcome == Outcome::Dropped || outcome == Outcome::Delayed,
    ensures
        post.time == pre.time,
        post.graph == pre.graph,
        weight(post.edges) < weight(pre.edges),
{
    let (edge, limit) = choose|edge: EdgeModel<N>, limit: N|
        {
            &&& leads::<DualGraphEdge<N>>(edge, pre.edges)
            &&& limits(limit, pre.edges.remove(edge))
            &&& #[trigger] handles(scene, cast, hull, pre, edge, limit, outcome, post)
        };
    let rest = pre.edges.remove(edge);
    weight_without(pre.edges, edge);
    if outcome == Outcome::Delayed {
        let bounded = scene.evaluated(cast, pre.graph, edge, opposite(limit));
        weight_with(rest, bounded);
        assert(rank(limit) <= rank(edge.mcost)) by {
            if rest.len() > 0 {
                let next = choose|next: EdgeModel<N>| #[trigger]
                    leads::<DualGraphEdge<N>>(next, rest) && next.mcost == limit;
                assert(pre.edges.contains(next));
            }
        }
    }
}

/// Whether a decimation that has more than `min_components` parts goes on from `pre` to `post`.
pub open spec fn proceeds<
    N: Scalar,
    C: Fn(&ConvexPair<N>, &Ray<N>) -> Option<N>,
    H: Fn(&[Pnt3<N>]) -> TriMesh<N>,
>(
    scene: SceneModel<N>,
    cast: C,
    hull: H,
    min_components: nat,
    pre: Phase<N>,
    post: Phase<N>,
) -> bool {
    &&& pre.graph.len() - pre.time > min_components
    &&& exists|outcome: Outcome|
        {
            &&& outcome == Outcome::Dropped || outcome == Outcome::Delayed || outcome
                == Outcome::Contracted
            &&& #[trigger] passes(scene, cast, hull, pre, outcome, post)
        }
}

/// Whether a decimation goes on from state `i` of the list to the next one.
pub open spec fn proceeds_at<
    N: Scalar,
    C: Fn(&ConvexPair<N>, &Ray<N>) -> Option<N>,
    H: Fn(&[Pnt3<N>]) -> TriMesh<N>,
>(
    scene: SceneModel<N>,
    cast: C,
    hull: H,
    min_components: nat,
    trace: Seq<Phase<N>>,
    i: int,
) -> bool {
    proceeds(scene, cast, hull, min_components, trace[i], trace[i + 1])
}

impl<N: Scalar> MeshModel<N> {
    /// The scene of the decimation of a mesh.
    pub open spec fn scene(self, error: N) -> SceneModel<N> {
        SceneModel {
            rays: self.rays(),
            leaves: ray_leaves(self.rays()),
            coords: self.coords,
            error,
        }
    }

    /// The state in which the decimation of a mesh begins.
    pub open spec fn start(self, error: N) -> Phase<N> {
        initial_phase(self.scene(error), self.dual_graph(self.ray_ids()))
    }

    /// Whether the triangles and the rays of the mesh can be counted.
    pub open spec fn countable(self) -> bool {
        self.size() <= usize::MAX && self.ray_corners().len() <= usize::MAX
    }
}

/// Whether `trace` lists the states of a decimation of the mesh, from the first one on.
pub open spec fn decimates<
    N: Scalar,
    C: Fn(&ConvexPair<N>, &Ray<N>) -> Option<N>,
    H: Fn(&[Pnt3<N>]) -> TriMesh<N>,
>(
    mesh: MeshModel<N>,
    error: N,
    min_components: nat,
    cast: C,
    hull: H,
    trace: Seq<Phase<N>>,
) -> bool {
    &&& trace.len() > 0
    &&& trace[0] == mesh.start(error)
    &&& forall|i: int|
        0 <= i < trace.len() - 1 ==> #[trigger] proceeds_at(
            mesh.scene(error),
            cast,
            hull,
            min_components,
            trace,
            i,
        )
}

/// Whether a decimation ends in this state: there are no more parts than asked for, or no edge
/// is left.
pub open spec fn finished<N>(phase: Phase<N>, min_components: nat) -> bool {
    phase.graph.len() - phase.time <= min_components || phase.edges.len() == 0
}

/// Whether a decimation breaks off in this state, at an edge whose cost cannot be computed.
pub open spec fn breaks_off<
    N: Scalar,
    C: Fn(&ConvexPair<N>, &Ray<N>) -> Option<N>,
    H: Fn(&[Pnt3<N>]) -> TriMesh<N>,
>(scene: SceneModel<N>, cast: C, hull: H, phase: Phase<N>, min_components: nat) -> bool {
    &&& phase.graph.len() - phase.time > min_components
    &&& exists|post: Phase<N>| #[trigger]
        passes(scene, cast, hull, phase, Outcome::Inexact, post)
}

} // verus!
