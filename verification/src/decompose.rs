//! The decomposition of a mesh.
use crate::ancestor::VertexWithConcavity;
use crate::bvt::BVT;
use crate::components::{corners_make_components, least, lenient, most, parts_are_counted};
use crate::connected::{connected, corners_make_connections, parts_are_connected};
use crate::decimation::{
    breaks_off, contraction_keeps_sound, contracts, decimates, evaluation_keeps, finished, fresh_edges,
    handles, handling_keeps_sound, initial_edges, passes, passes_make_progress, proceeds, proceeds_at,
    stamped, survivors, survivors_are_the_living, valid_edges_live, waiting_keeps_sound, weight,
    Outcome, Phase, SceneModel,
};
use crate::dual_graph::compute_dual_graph;
use crate::edge::{finds_rays, DualGraphEdge, EdgeModel};
use crate::enclosing::{
    carries_order, enclosed, encloses, extends_to, hulls_are_made_of_corners, hulls_enclose_parts,
    is_returned_corner, keeps_to_clouds, results_are_made_of_corners, results_enclose_parts, round_trip,
};
use crate::evaluation::breaking_off_takes_huge_costs;
use crate::kernel::{casts_rays, computes_hulls, enclosure, ConvexPair};
use crate::laws::{
    led_by_least, owned, owns, partitioned, parts_are_a_partition, parts_are_enough,
    parts_begin_with_their_least, passes_join_or_keep, start_is_sound,
};
use crate::linalg::{Pnt3, Vec3};
use crate::mesh::{all_below, denormalize, normalize, MeshModel, TriMesh};
use crate::queue::{viewed, PriorityQueue};
use crate::rays::{compute_ray_bvt, compute_rays, corners_have_rays, Ray};
use crate::scalar::{lawful, minus, opposite, rank, times, top, Scalar};
use crate::set::sorted;
use crate::vertex::{
    contracted, contractible, graph_wf, hull_points, ranked, DualGraphVertex, VertexModel,
};
use vstd::prelude::*;

verus! {

/// What stays the same during a decimation.
pub struct Scene<N> {
    pub rays: Vec<Ray<N>>,
    /// The tree of the origins of the rays.
    pub bvt: BVT<N>,
    /// The points of the mesh.
    pub coords: Vec<Pnt3<N>>,
    /// The concavity that no part may exceed.
    pub error: N,
}

impl<N: Scalar> View for Scene<N> {
    type V = SceneModel<N>;

    open spec fn view(&self) -> SceneModel<N> {
        SceneModel {
            rays: self.rays@,
            leaves: self.bvt.leaves(),
            coords: self.coords@,
            error: self.error,
        }
    }
}

impl<N: Scalar> Scene<N> {
    /// The tree is in order, and finds rays of the scene.
    pub open spec fn wf(&self) -> bool {
        &&& self.bvt.wf()
        &&& finds_rays(self.bvt.leaves(), self.rays@.len())
    }
}

/// A decimation in progress.
pub struct Decimation<N> {
    pub graph: Vec<DualGraphVertex<N>>,
    /// The edges that wait to be contracted.
    pub edges: PriorityQueue<DualGraphEdge<N>>,
    /// The number of contractions made.
    pub time: usize,
}

impl<N: Scalar> View for Decimation<N> {
    type V = Phase<N>;

    open spec fn view(&self) -> Phase<N> {
        Phase { graph: viewed(self.graph@), edges: self.edges@, time: self.time as nat }
    }
}

impl<N: Scalar> Decimation<N> {
    /// The vertices and the queue are in order.
    pub open spec fn wf(&self) -> bool {
        graph_wf(self.graph@) && self.edges.wf()
    }

    /// Adds the edges from `v` to its neighbors: to all of them where `all` is true, to those
    /// that come after `v` where it is false.
    fn push_edges(&mut self, scene: &Scene<N>, v: usize, all: bool)
        requires
            lawful::<N>(),
            old(self).wf(),
            v < old(self).graph@.len(),
            old(self)@.vertex_sound(scene@, v as int),
            old(self)@.links_sound(v as int),
            old(self).graph@[v as int]@.alive(),
            forall|i: int| 0 <= i < old(self).graph@.len() ==> #[trigger] old(self)@.vertex_sound(
                scene@,
                i,
            ),
        ensures
            final(self).wf(),
            final(self).graph == old(self).graph,
            final(self).time == old(self).time,
            final(self)@.edges == old(self)@.edges.add(
                fresh_edges(
                    scene@,
                    old(self)@.graph,
                    old(self).time,
                    v,
                    sorted(old(self)@.graph[v as int].neighbors->0),
                    all,
                ),
            ),
    {
        let ghost before = self@;
        let neighbors = self.graph[v].neighbors.as_ref().unwrap();
        let count: usize = neighbors.len();
        let ghost list = neighbors.list();
        proof {
            assert(before.graph[v as int] == self.graph@[v as int]@);
            assert(self.graph@[v as int].wf());
            neighbors.list_is_sorted();
            assert(list == sorted(before.graph[v as int].neighbors->0));
            assert(list.take(0) =~= Seq::empty());
            assert(before.edges.add(
                fresh_edges(scene@, before.graph, self.time, v, list.take(0), all),
            ) =~= before.edges);
        }
        let mut k: usize = 0;
        while k < count
            invariant
                lawful::<N>(),
                self.wf(),
                before == old(self)@,
                self.graph == old(self).graph,
                self.time == old(self).time,
                v < self.graph@.len(),
                self.graph@[v as int]@.alive(),
                before.links_sound(v as int),
                self.graph@[v as int].neighbors is Some,
                list == self.graph@[v as int].neighbors->0.list(),
                list.to_set() == before.graph[v as int].neighbors->0,
                count == list.len(),
                k <= count,
                before.graph == viewed(self.graph@),
                forall|i: int| 0 <= i < self.graph@.len() ==> #[trigger] before.vertex_sound(scene@, i),
                self@.edges == before.edges.add(
                    fresh_edges(scene@, before.graph, self.time, v, list.take(k as int), all),
                ),
            decreases count - k,
        {
            let n: usize = self.graph[v].neighbors.as_ref().unwrap().get(k);
            proof {
                assert(list.take(k + 1).drop_last() =~= list.take(k as int));
                assert(list.to_set().contains(list[k as int]));
                assert(before.graph[v as int] == self.graph@[v as int]@);
                assert(before.graph[v as int].neighbors->0.contains(n));
                assert(before.graph[n as int] == self.graph@[n as int]@);
                assert(before.vertex_sound(scene@, n as int));
                assert(before.vertex_sound(scene@, v as int));
            }
            if all || v < n {
                let edge = DualGraphEdge::new(
                    self.time,
                    v,
                    n,
                    self.graph.as_slice(),
                    scene.coords.as_slice(),
                    scene.error,
                );
                self.edges.push(edge);
            }
            proof {
                assert(self@.edges =~= before.edges.add(
                    fresh_edges(scene@, before.graph, self.time, v, list.take(k + 1), all),
                ));
            }
            k = k + 1;
        }
        assert(list.take(k as int) =~= list);
    }

    /// Handles the cheapest edge.
    pub fn step<
        C: Fn(&ConvexPair<N>, &Ray<N>) -> Option<N>,
        H: Fn(&[Pnt3<N>]) -> TriMesh<N>,
    >(&mut self, scene: &Scene<N>, cast: &C, hull: &H) -> (res: Outcome)
        requires
            lawful::<N>(),
            casts_rays(*cast),
            computes_hulls(*hull),
            scene.wf(),
            old(self).wf(),
            old(self)@.sound(scene@),
        ensures
            final(self).wf(),
            passes(scene@, *cast, *hull, old(self)@, res, final(self)@),
            final(self)@.sound(scene@),
    {
        let ghost pre = self@;
        let mut edge = match self.edges.pop() {
            None => {
                return Outcome::Exhausted;
            },
            Some(edge) => edge,
        };
        let limit = match self.edges.top() {
            None => N::max_value().neg(),
            Some(next) => next.mcost,
        };
        let ghost model = edge@;
        let ghost rest = self.edges@;
        let ghost (v, o) = (model.v1 as int, model.v2 as int);
        proof {
            assert(pre.edges.count(model) <= pre.edges.len());
            assert(pre.edge_sound(scene@, model));
            assert(pre.graph[v] == self.graph@[v]@);
            assert(pre.graph[o] == self.graph@[o]@);
        }

        if !edge.is_valid(self.graph.as_slice()) {
            proof {
                assert(self@ =~= pre.waiting(rest));
                assert(handles(scene@, *cast, *hull, pre, model, limit, Outcome::Dropped, self@));
                handling_keeps_sound(scene@, *cast, *hull, pre, model, limit, Outcome::Dropped, self@);
            }
            return Outcome::Dropped;
        }
        proof {
            valid_edges_live(scene@, pre, model);
        }

        if !edge.exact {
            // The cost is only a bound: compute it as far as the cost of the next edge.
            edge.compute_decimation_cost(
                self.graph.as_slice(),
                scene.rays.as_slice(),
                &scene.bvt,
                limit.neg(),
                scene.error,
                cast,
            );
            assert(scene@.witnessed(*cast, pre.graph, model, edge@));
            if scene.error.less(edge.concavity) {
                proof {
                    assert(self@ =~= pre.waiting(rest));
                    assert(handles(scene@, *cast, *hull, pre, model, limit, Outcome::Dropped, self@));
                    handling_keeps_sound(
                        scene@,
                        *cast,
                        *hull,
                        pre,
                        model,
                        limit,
                        Outcome::Dropped,
                        self@,
                    );
                }
                return Outcome::Dropped;
            }
            if edge.mcost.less(limit) {
                // Another edge is cheaper now.
                self.edges.push(edge);
                proof {
                    assert(self@ =~= pre.waiting(self.edges@));
                    assert(handles(scene@, *cast, *hull, pre, model, limit, Outcome::Delayed, self@));
                    handling_keeps_sound(
                        scene@,
                        *cast,
                        *hull,
                        pre,
                        model,
                        limit,
                        Outcome::Delayed,
                        self@,
                    );
                }
                return Outcome::Delayed;
            }
        }
        let ghost bounded = edge@;
        proof {
            evaluation_keeps(scene@, *cast, pre.graph, model, opposite(limit));
        }

        // Compute the cost to the end, up to the concavity that is allowed.
        edge.compute_decimation_cost(
            self.graph.as_slice(),
            scene.rays.as_slice(),
            &scene.bvt,
            N::max_value(),
            scene.error,
            cast,
        );
        let ghost full = edge@;
        proof {
            evaluation_keeps(scene@, *cast, pre.graph, bounded, top());
            assert(full == scene@.evaluated(*cast, pre.graph, bounded, top()));
            assert(scene@.witnessed(*cast, pre.graph, bounded, full));
        }
        if scene.error.less(edge.concavity) {
            proof {
                assert(self@ =~= pre.waiting(rest));
                assert(handles(scene@, *cast, *hull, pre, model, limit, Outcome::Dropped, self@));
                handling_keeps_sound(scene@, *cast, *hull, pre, model, limit, Outcome::Dropped, self@);
            }
            return Outcome::Dropped;
        }
        if !edge.exact {
            proof {
                assert(self@ =~= pre.waiting(rest));
                assert(handles(scene@, *cast, *hull, pre, model, limit, Outcome::Inexact, self@));
                handling_keeps_sound(scene@, *cast, *hull, pre, model, limit, Outcome::Inexact, self@);
            }
            return Outcome::Inexact;
        }

        let ghost middle = pre.waiting(rest);
        proof {
            assert(self@ =~= middle);
            assert forall|x: EdgeModel<N>| #[trigger] rest.contains(x) implies pre.edge_sound(
                scene@,
                x,
            ) by {
                assert(pre.edges.contains(x));
            }
            waiting_keeps_sound(scene@, pre, rest);
            assert(middle.edge_sound(scene@, full));
        }
        self.contract(edge, scene, hull);
        proof {
            let chull = enclosure(*hull, hull_points(pre.graph, full));
            let ancestors = choose|ancestors: Seq<VertexWithConcavity<N>>| #[trigger]
                ranked(ancestors, full.ancestors) && self@ == middle.after_contraction(
                    scene@,
                    rest,
                    full,
                    ancestors,
                    chull,
                );
            assert(self@ == pre.after_contraction(scene@, rest, full, ancestors, chull));
            assert(contracts(scene@, *hull, pre, rest, full, self@));
            assert(handles(scene@, *cast, *hull, pre, model, limit, Outcome::Contracted, self@));
            handling_keeps_sound(scene@, *cast, *hull, pre, model, limit, Outcome::Contracted, self@);
        }
        Outcome::Contracted
    }

    /// Contracts an edge, and lets the new part wait for its neighbors.
    fn contract<H: Fn(&[Pnt3<N>]) -> TriMesh<N>>(
        &mut self,
        edge: DualGraphEdge<N>,
        scene: &Scene<N>,
        hull: &H,
    )
        requires
            lawful::<N>(),
            computes_hulls(*hull),
            edge.wf(),
            edge.exact,
            old(self).wf(),
            old(self)@.sound(scene@),
            old(self)@.edge_sound(scene@, edge@),
            edge@.valid(old(self)@.graph),
        ensures
            final(self).wf(),
            contracts(scene@, *hull, old(self)@, old(self)@.edges, edge@, final(self)@),
    {
        let ghost pre = self@;
        let ghost model = edge@;
        let v1: usize = edge.v1;
        let v2: usize = edge.v2;
        let ghost chull = enclosure(*hull, hull_points(pre.graph, model));
        proof {
            valid_edges_live(scene@, pre, model);
            assert(pre.links_sound(v2 as int));
            assert forall|n: usize| #[trigger] pre.graph[v2 as int].neighbors->0.contains(n) implies {
                &&& n < pre.graph.len()
                &&& n != v2
                &&& pre.graph[n as int].neighbors is Some
            } by {
                assert(pre.vertex_sound(scene@, n as int));
            }
            assert(contractible(pre.graph, model));
        }
        self.time = self.time + 1;

        DualGraphVertex::hecol(edge, &mut self.graph, hull);

        let ghost ancestors = choose|ancestors: Seq<VertexWithConcavity<N>>|
            #![trigger ranked(ancestors, model.ancestors)]
            ranked(ancestors, model.ancestors) && viewed(self.graph@) == contracted(
                pre.graph,
                model,
                ancestors,
                chull,
            );
        let ghost collapsed = self.graph@;
        assert(viewed(collapsed).len() == collapsed.len());
        self.graph[v1].timestamp = self.time;
        self.graph[v2].timestamp = usize::MAX;  // The vertex is a piece of another part now.
        let ghost target = stamped(contracted(pre.graph, model, ancestors, chull), model, self.time);
        proof {
            assert forall|i: int| 0 <= i < collapsed.len() implies #[trigger] viewed(self.graph@)[i]
                == target[i] by {
                assert(viewed(collapsed)[i] == collapsed[i]@);
                assert(viewed(self.graph@)[i] == self.graph@[i]@);
            }
            assert(viewed(self.graph@) =~= target);
            assert forall|i: int| 0 <= i < self.graph@.len() implies (#[trigger] self.graph@[i]).wf() by {
                assert(collapsed[i].wf());
            }
            let post = pre.after_contraction(scene@, pre.edges, model, ancestors, chull);
            contraction_keeps_sound(scene@, pre, pre.edges, model, ancestors, chull);
            assert(post.graph == target);
            assert forall|i: int| 0 <= i < self.graph@.len() implies #[trigger] self@.vertex_sound(
                scene@,
                i,
            ) by {
                assert(post.vertex_sound(scene@, i));
            }
            assert(post.links_sound(v1 as int));
            assert(self@.links_sound(v1 as int));
            assert(self@.graph[v1 as int] == self.graph@[v1 as int]@);
        }
        self.push_edges(scene, v1, true);
        proof {
            assert(self@ =~= pre.after_contraction(scene@, pre.edges, model, ancestors, chull));
        }
    }
}

/// Whether the lists share out the numbers below `n`: each of these is in exactly one list, and
/// in this list once.
pub open spec fn is_partition(parts: Seq<Seq<usize>>, n: nat) -> bool {
    &&& forall|k: int| 0 <= k < parts.len() ==> (#[trigger] parts[k]).no_duplicates()
    &&& forall|k: int, t: usize|
        0 <= k < parts.len() && #[trigger] parts[k].contains(t) ==> t < n
    &&& forall|k: int, l: int, t: usize|
        0 <= k < parts.len() && 0 <= l < parts.len() && #[trigger] parts[k].contains(t)
            && #[trigger] parts[l].contains(t) ==> k == l
    &&& forall|t: usize| t < n ==> #[trigger] listed(parts, t)
}

/// Whether one of the lists holds `t`.
pub open spec fn listed(parts: Seq<Seq<usize>>, t: usize) -> bool {
    exists|k: int| 0 <= k < parts.len() && #[trigger] parts[k].contains(t)
}

/// Whether the meshes are the hulls of the parts that are left, moved back to where the mesh
/// was, and the lists are the triangles of these parts.
pub open spec fn describes<N: Scalar>(
    mesh: MeshModel<N>,
    graph: Seq<VertexModel<N>>,
    meshes: Seq<MeshModel<N>>,
    parts: Seq<Seq<usize>>,
) -> bool {
    let left = survivors(graph);
    &&& meshes.len() == left.len()
    &&& parts.len() == left.len()
    &&& forall|k: int|
        0 <= k < left.len() ==> #[trigger] meshes[k] == graph[left[k]].chull->0.denormalized(
            mesh.center(),
            mesh.diagonal(),
        )
    &&& forall|k: int| 0 <= k < left.len() ==> #[trigger] parts[k] == graph[left[k]].parts->0
}

/// The parts that are left share out the triangles.
proof fn parts_left_are_a_partition<N: Scalar>(
    mesh: MeshModel<N>,
    graph: Seq<VertexModel<N>>,
    meshes: Seq<MeshModel<N>>,
    parts: Seq<Seq<usize>>,
)
    requires
        partitioned(graph),
        describes(mesh, graph, meshes, parts),
    ensures
        is_partition(parts, graph.len()),
{
    let left = survivors(graph);
    survivors_are_the_living(graph);
    assert forall|k: int| 0 <= k < left.len() implies 0 <= #[trigger] left[k] < graph.len()
        && graph[left[k]].alive() by {
        assert(left.contains(left[k]));
    }
    assert forall|k: int| 0 <= k < parts.len() implies (#[trigger] parts[k]).no_duplicates() by {
        assert(graph[left[k]].parts->0.no_duplicates());
    }
    assert forall|k: int, t: usize| 0 <= k < parts.len() && #[trigger] parts[k].contains(t) implies t
        < graph.len() by {
        assert(owns(graph, left[k], t));
    }
    assert forall|k: int, l: int, t: usize|
        0 <= k < parts.len() && 0 <= l < parts.len() && #[trigger] parts[k].contains(t)
            && #[trigger] parts[l].contains(t) implies k == l by {
        assert(owns(graph, left[k], t) && owns(graph, left[l], t));
        assert(left[k] == left[l]);
    }
    assert forall|t: usize| t < graph.len() implies #[trigger] listed(parts, t) by {
        assert(owned(graph, t));
        let i = choose|i: int| 0 <= i < graph.len() && #[trigger] owns(graph, i, t);
        assert(left.contains(i));
        let k = choose|k: int| 0 <= k < left.len() && left[k] == i;
        assert(parts[k].contains(t));
    }
}

/// Takes the hulls and the triangles of the parts that are left out of the graph.
fn collect_parts<N: Scalar>(graph: Vec<DualGraphVertex<N>>, center: &Pnt3<N>, diag: N) -> (res: (
    Vec<TriMesh<N>>,
    Vec<Vec<usize>>,
))
    requires
        lawful::<N>(),
        forall|i: int|
            0 <= i < graph@.len() && graph@[i]@.alive() ==> (#[trigger] graph@[i])@.whole(),
    ensures
        ({
            let left = survivors(viewed(graph@));
            let meshes = viewed(res.0@);
            let parts = viewed(res.1@);
            &&& meshes.len() == left.len()
            &&& parts.len() == left.len()
            &&& forall|k: int|
                0 <= k < left.len() ==> #[trigger] meshes[k]
                    == graph@[left[k]]@.chull->0.denormalized(*center, diag)
            &&& forall|k: int| 0 <= k < left.len() ==> #[trigger] parts[k] == graph@[left[k]]@.parts->0
        }),
{
    let ghost model = viewed(graph@);
    let ghost whole = graph@;
    let mut graph = graph;
    let mut result: Vec<TriMesh<N>> = Vec::new();
    let mut parts: Vec<Vec<usize>> = Vec::new();
    let n: usize = graph.len();
    let mut i: usize = 0;
    proof {
        assert(survivors(model.take(0)) =~= Seq::empty());
    }
    while i < n
        invariant
            lawful::<N>(),
            i <= n,
            n == whole.len(),
            graph@.len() == n,
            model == viewed(whole),
            forall|j: int| 0 <= j < n && whole[j]@.alive() ==> (#[trigger] whole[j])@.whole(),
            forall|j: int| i <= j < n ==> #[trigger] graph@[j] == whole[j],
            result@.len() == survivors(model.take(i as int)).len(),
            parts@.len() == survivors(model.take(i as int)).len(),
            forall|k: int|
                0 <= k < result@.len() ==> (#[trigger] result@[k])@ == whole[survivors(
                    model.take(i as int),
                )[k]]@.chull->0.denormalized(*center, diag),
            forall|k: int|
                0 <= k < parts@.len() ==> (#[trigger] parts@[k])@ == whole[survivors(
                    model.take(i as int),
                )[k]]@.parts->0,
        decreases n - i,
    {
        proof {
            assert(model.take(i + 1).drop_last() =~= model.take(i as int));
            assert(model.take(i + 1).last() == whole[i as int]@);
            assert(graph@[i as int] == whole[i as int]);
        }
        if graph[i].timestamp != usize::MAX {
            let mut chull = graph[i].chull.take().unwrap();
            let triangles = graph[i].parts.take().unwrap();
            denormalize(&mut chull, center, diag);
            result.push(chull);
            parts.push(triangles);
        }
        i = i + 1;
    }
    assert(model.take(i as int) =~= model);
    (result, parts)
}

/// Whether the shape of a waiting edge costs so much that less than the allowed concavity is left
/// of the greatest number.
pub open spec fn overruns<N: Scalar>(phase: Phase<N>, error: N) -> bool {
    exists|e: EdgeModel<N>| #[trigger]
        phase.edges.contains(e) && rank(minus(top::<N>(), times(error, e.shape))) < rank(error)
}

/// What a decomposition returns, as it is seen from outside: the hulls of the parts and their
/// triangles.
pub open spec fn seen<N>(res: Option<(Vec<TriMesh<N>>, Vec<Vec<usize>>)>) -> Option<
    (Seq<MeshModel<N>>, Seq<Seq<usize>>),
> {
    match res {
        None => None,
        Some((meshes, parts)) => Some((viewed(meshes@), viewed(parts@))),
    }
}

/// Whether a decomposition of the mesh may pass through the states of the trace and end with this
/// result: there is none where it breaks off, and what is left where it comes to its end.
pub open spec fn allows<
    N: Scalar,
    C: Fn(&ConvexPair<N>, &Ray<N>) -> Option<N>,
    H: Fn(&[Pnt3<N>]) -> TriMesh<N>,
>(
    mesh: MeshModel<N>,
    error: N,
    min_components: nat,
    cast: C,
    hull: H,
    trace: Seq<Phase<N>>,
    res: Option<(Seq<MeshModel<N>>, Seq<Seq<usize>>)>,
) -> bool {
    let m = mesh.normalized();
    &&& decimates(m, error, min_components, cast, hull, trace)
    &&& match res {
        None => {
            &&& breaks_off(m.scene(error), cast, hull, trace.last(), min_components)
            &&& overruns(trace.last(), error)
        },
        Some((meshes, parts)) => {
            &&& finished(trace.last(), min_components)
            &&& describes(mesh, trace.last().graph, meshes, parts)
        },
    }
}

/// Whether no list is empty, each one begins with its least number, and the lists come in the order
/// of their first numbers.
pub open spec fn in_order(parts: Seq<Seq<usize>>) -> bool {
    &&& forall|k: int| 0 <= k < parts.len() ==> (#[trigger] parts[k]).len() > 0
    &&& forall|k: int, t: usize|
        0 <= k < parts.len() && #[trigger] parts[k].contains(t) ==> parts[k][0] <= t
    &&& forall|k: int, l: int|
        0 <= k < l < parts.len() ==> (#[trigger] parts[k])[0] < (#[trigger] parts[l])[0]
}

/// The parts that are left come in the order of their first triangles.
proof fn parts_left_are_in_order<N: Scalar>(
    mesh: MeshModel<N>,
    graph: Seq<VertexModel<N>>,
    meshes: Seq<MeshModel<N>>,
    parts: Seq<Seq<usize>>,
)
    requires
        led_by_least(graph),
        describes(mesh, graph, meshes, parts),
    ensures
        in_order(parts),
{
    let left = survivors(graph);
    survivors_are_the_living(graph);
    assert forall|k: int| 0 <= k < left.len() implies 0 <= #[trigger] left[k] < graph.len()
        && graph[left[k]].alive() by {
        assert(left.contains(left[k]));
    }
    assert forall|k: int, t: usize| 0 <= k < parts.len() && #[trigger] parts[k].contains(t) implies parts[k][0]
        <= t by {
        assert(owns(graph, left[k], t));
        assert(graph[left[k]].parts->0[0] == left[k]);
    }
    assert forall|k: int, l: int| 0 <= k < l < parts.len() implies (#[trigger] parts[k])[0] < (
    #[trigger] parts[l])[0] by {
        assert(graph[left[k]].parts->0[0] == left[k]);
        assert(graph[left[l]].parts->0[0] == left[l]);
    }
}

/// Approximate convex decomposition of a triangle mesh.
///
/// The parts of the mesh, which are its triangles at first, are made one by one into larger
/// parts, the cheapest pair of neighbors first, as long as the concavity of what this makes
/// does not exceed `error`, and as long as there are more than `min_components` parts. The
/// result is the convex hulls of the parts that are left, and the triangles of each of them.
///
/// `cast` tells how far along a ray the convex hull of a pair begins, and `hull` computes the
/// convex hull of a cloud of points.
///
/// There is no result where the cost of an edge cannot be computed within the bounds of the
/// numbers, which takes an edge whose shape costs nearly as much as the greatest number.
pub fn hacd<
    N: Scalar,
    C: Fn(&ConvexPair<N>, &Ray<N>) -> Option<N>,
    H: Fn(&[Pnt3<N>]) -> TriMesh<N>,
>(mesh: TriMesh<N>, error: N, min_components: usize, cast: &C, hull: &H) -> (res: Option<
    (Vec<TriMesh<N>>, Vec<Vec<usize>>),
>)
    requires
        lawful::<N>(),
        casts_rays(*cast),
        computes_hulls(*hull),
        mesh@.complete(),
    ensures
        exists|trace: Seq<Phase<N>>| #[trigger]
            allows(mesh@, error, min_components as nat, *cast, *hull, trace, seen(res)),
        res matches Some((meshes, parts)) ==> {
            &&& meshes@.len() == parts@.len()
            &&& is_partition(viewed(parts@), mesh@.size())
            &&& in_order(viewed(parts@))
            &&& forall|k: int|
                0 <= k < parts@.len() ==> connected(mesh@, (#[trigger] parts@[k])@)
            &&& parts@.len() <= mesh@.size()
            &&& parts@.len() >= min_components || parts@.len() == mesh@.size()
            &&& lenient(*cast, error) ==> parts@.len() == most(
                mesh@.components(),
                least(min_components as nat, mesh@.size()),
            )
            &&& keeps_to_clouds(*hull) ==> forall|k: int, j: int|
                0 <= k < parts@.len() && 0 <= j < meshes@[k]@.coords.len() ==> is_returned_corner(
                    mesh@,
                    parts@[k]@,
                    #[trigger] meshes@[k]@.coords[j],
                )
            &&& encloses(*hull) ==> forall|k: int, t: usize, c: int, dir: Vec3<N>|
                0 <= k < parts@.len() && parts@[k]@.contains(t) && 0 <= c < 3 && carries_order(mesh@, dir)
                    ==> #[trigger] extends_to(
                    meshes@[k]@.coords,
                    dir,
                    round_trip(mesh@, mesh@.corner_points(t as int)[c]),
                )
        },
        mesh@.size() <= min_components ==> res is Some,
{
    let ghost input = mesh@;
    let ghost m = mesh@.normalized();
    let mut normal = mesh;
    let (center, diag) = normalize(&mut normal);
    proof {
        assert(m.complete()) by {
            assert(m.indices == input.indices);
            assert(m.coords.len() == input.coords.len());
            assert forall|i: int| 0 <= i < m.size() implies all_below(
                #[trigger] m.indices.corners(i),
                m.coords.len(),
            ) by {
                assert(all_below(input.indices.corners(i), input.coords.len()));
            }
            assert forall|i: int| 0 <= i < m.size() implies all_below(
                #[trigger] m.indices.corner_normals(i),
                m.normals->0.len(),
            ) by {
                assert(all_below(input.indices.corner_normals(i), input.normals->0.len()));
            }
        }
    }
    let (rays, raymap) = compute_rays(&normal);
    proof {
        assert forall|i: int, k: int| 0 <= i < m.size() && 0 <= k < 3 implies raymap@.contains_key(
            #[trigger] m.corner(i, k),
        ) by {
            corners_have_rays(m, i, k);
        }
    }
    let graph = compute_dual_graph(&normal, &raymap);
    let bvt = compute_ray_bvt(rays.as_slice());
    let scene = Scene { rays, bvt, coords: normal.coords, error };
    let mut state = Decimation { graph, edges: PriorityQueue::new(), time: 0 };
    let n: usize = state.graph.len();
    let ghost start = m.start(error);
    proof {
        assert(viewed(state.graph@).len() == state.graph@.len());
        assert(scene.rays.len() == m.ray_corners().len());
        assert(m.countable());
        assert(scene@ == m.scene(error));
        start_is_sound(m, error);
        assert(start.graph == viewed(state.graph@));
    }

    // Every pair of neighbors waits to be made one.
    let mut i: usize = 0;
    while i < n
        invariant
            lawful::<N>(),
            i <= n,
            n == state.graph@.len(),
            state.wf(),
            state.time == 0,
            start == m.start(error),
            scene@ == m.scene(error),
            start.sound(scene@),
            state@.graph == start.graph,
            state@.edges == initial_edges(scene@, start.graph, i as nat),
        decreases n - i,
    {
        proof {
            assert forall|j: int| 0 <= j < n implies #[trigger] state@.vertex_sound(scene@, j) by {
                assert(start.vertex_sound(scene@, j));
            }
            assert(start.links_sound(i as int));
            assert(state@.links_sound(i as int));
            assert(state@.graph[i as int] == state.graph@[i as int]@);
        }
        state.push_edges(&scene, i, false);
        i = i + 1;
    }
    assert(state@ =~= start);

    // Decimation.
    let ghost mut trace = seq![state@];
    while n - state.time > min_components
        invariant
            lawful::<N>(),
            casts_rays(*cast),
            computes_hulls(*hull),
            m == mesh@.normalized(),
            m.complete(),
            m.countable(),
            scene.wf(),
            scene@ == m.scene(error),
            state.wf(),
            state@.sound(scene@),
            n == state.graph@.len(),
            n == mesh@.size(),
            state.time <= n,
            decimates(m, error, min_components as nat, *cast, *hull, trace),
            trace.last() == state@,
        ensures
            finished(state@, min_components as nat),
        decreases n - state.time, weight(state@.edges),
    {
        let ghost pre = state@;
        let outcome = state.step(&scene, cast, hull);
        proof {
            let _ = passes_join_or_keep(scene@, *cast, *hull, pre, outcome, state@);
            assert(viewed(state.graph@).len() == state.graph@.len());
        }
        match outcome {
            Outcome::Exhausted => {
                break;
            },
            Outcome::Inexact => {
                proof {
                    assert(breaks_off(scene@, *cast, *hull, pre, min_components as nat));
                    breaking_off_takes_huge_costs(scene@, *cast, *hull, pre, min_components as nat);
                    assert(allows(
                        mesh@,
                        error,
                        min_components as nat,
                        *cast,
                        *hull,
                        trace,
                        seen::<N>(None),
                    ));
                }
                return None;
            },
            _ => {},
        }
        proof {
            if outcome == Outcome::Dropped || outcome == Outcome::Delayed {
                passes_make_progress(scene@, *cast, *hull, pre, outcome, state@);
            }
            let longer = trace.push(state@);
            assert(proceeds(scene@, *cast, *hull, min_components as nat, pre, state@));
            assert forall|i: int| 0 <= i < longer.len() - 1 implies #[trigger] proceeds_at(
                scene@,
                *cast,
                *hull,
                min_components as nat,
                longer,
                i,
            ) by {
                if i < trace.len() - 1 {
                    assert(proceeds_at(scene@, *cast, *hull, min_components as nat, trace, i));
                }
            }
            trace = longer;
        }
    }

    // The parts that are left.
    proof {
        assert forall|i: int| 0 <= i < n && state.graph@[i]@.alive() implies (
        #[trigger] state.graph@[i])@.whole() by {
            assert(state@.vertex_sound(scene@, i));
            assert(state@.graph[i] == state.graph@[i]@);
        }
    }
    let ghost last = state@;
    let (result, parts) = collect_parts(state.graph, &center, diag);
    proof {
        survivors_are_the_living(last.graph);
        assert forall|k: int| 0 <= k < survivors(last.graph).len() implies #[trigger] viewed(result@)[k]
            == last.graph[survivors(last.graph)[k]].chull->0.denormalized(
            input.center(),
            input.diagonal(),
        ) by {
            assert(survivors(last.graph).contains(survivors(last.graph)[k]));
        }
        assert forall|k: int| 0 <= k < survivors(last.graph).len() implies #[trigger] viewed(parts@)[k]
            == last.graph[survivors(last.graph)[k]].parts->0 by {
            assert(survivors(last.graph).contains(survivors(last.graph)[k]));
        }
        assert(describes(input, last.graph, viewed(result@), viewed(parts@)));
        assert(allows(
            mesh@,
            error,
            min_components as nat,
            *cast,
            *hull,
            trace,
            seen(Some((result, parts))),
        ));
        parts_are_a_partition(
            m,
            error,
            min_components as nat,
            *cast,
            *hull,
            trace,
            trace.len() - 1,
        );
        parts_are_connected(
            m,
            error,
            min_components as nat,
            *cast,
            *hull,
            trace,
            trace.len() - 1,
        );
        assert forall|k: int| 0 <= k < parts@.len() implies connected(
            mesh@,
            (#[trigger] parts@[k])@,
        ) by {
            let place = survivors(last.graph)[k];
            assert(survivors(last.graph).contains(place));
            assert(viewed(parts@)[k] == parts@[k]@);
            assert(connected(m, last.graph[place].parts->0));
            corners_make_connections(m, mesh@, parts@[k]@);
        }
        parts_left_are_a_partition(input, last.graph, viewed(result@), viewed(parts@));
        parts_are_enough(m, error, min_components as nat, *cast, *hull, trace, trace.len() - 1);
        parts_begin_with_their_least(
            m,
            error,
            min_components as nat,
            *cast,
            *hull,
            trace,
            trace.len() - 1,
        );
        parts_left_are_in_order(input, last.graph, viewed(result@), viewed(parts@));
        if lenient(*cast, error) {
            parts_are_counted(m, error, min_components as nat, *cast, *hull, trace);
            corners_make_components(m, mesh@);
        }
        if encloses(*hull) {
            hulls_enclose_parts(
                m,
                error,
                min_components as nat,
                *cast,
                *hull,
                trace,
                trace.len() - 1,
            );
            assert forall|n: int| 0 <= n < last.graph.len() && last.graph[n].alive() implies enclosed(
                m,
                #[trigger] last.graph[n],
            ) && last.graph[n].chull->0.coords.len() > 0 by {
                assert(last.vertex_sound(scene@, n));
            }
            assert forall|k: int, t: usize, c: int, dir: Vec3<N>|
                0 <= k < parts@.len() && parts@[k]@.contains(t) && 0 <= c < 3 && carries_order(
                    mesh@,
                    dir,
                ) implies #[trigger] extends_to(
                result@[k]@.coords,
                dir,
                round_trip(mesh@, mesh@.corner_points(t as int)[c]),
            ) by {
                assert(viewed(result@)[k] == result@[k]@);
                assert(viewed(parts@)[k] == parts@[k]@);
                results_enclose_parts(
                    input,
                    last.graph,
                    viewed(result@),
                    viewed(parts@),
                    k,
                    t,
                    c,
                    dir,
                );
            }
        }
        if keeps_to_clouds(*hull) {
            hulls_are_made_of_corners(
                m,
                error,
                min_components as nat,
                *cast,
                *hull,
                trace,
                trace.len() - 1,
            );
            assert forall|k: int, j: int|
                0 <= k < parts@.len() && 0 <= j < result@[k]@.coords.len() implies is_returned_corner(
                mesh@,
                parts@[k]@,
                #[trigger] result@[k]@.coords[j],
            ) by {
                assert(viewed(result@)[k] == result@[k]@);
                assert(viewed(parts@)[k] == parts@[k]@);
                results_are_made_of_corners(
                    input,
                    last.graph,
                    viewed(result@),
                    viewed(parts@),
                    k,
                    j,
                );
            }
        }
    }
    Some((result, parts))
}

} // verus!
