//! What one pass of a decimation takes, keeps and makes.
use crate::ancestor::VertexWithConcavity;
use crate::casting::{
    contracted_edges_testify, has_entry, lists, part_testifies, parts_testify,
    ranked_entries_testify, verdict,
};
use crate::decimation::{
    contraction_explained, decimates, entries_known, pass_explained, passes, survivors,
    survivors_are_the_living, valid_edges_live, Outcome, Phase, SceneModel,
};
use crate::decompose::allows;
use crate::edge::{finds_rays, some_ray_hits, DualGraphEdge, EdgeModel};
use crate::evaluation::{evaluation_deepens, evaluation_ignores_labels};
use crate::kernel::{may_enclose, time_of_impact, ConvexPair, PairModel};
use crate::laws::{pass_at, states_are_sound};
use crate::linalg::Pnt3;
use crate::maximal::{
    evaluated_stems, made, neighboring, neighbors_are_attended, no_neighbors_are_left_to_join, refined,
    stems,
};
use crate::mesh::{MeshModel, TriMesh};
use crate::queue::{descending, higher, later_is_not_above, leads, Prioritized};
use crate::rays::Ray;
use crate::scalar::{opposite, rank, top, vanishes, Scalar};
use crate::shape::parts_know_their_triangles;
use crate::survey::{exact_edges_account_for_inner_rays, falls, lies_between};
use crate::vertex::{first_of_runs, ranked, VertexModel};
use vstd::multiset::Multiset;
use vstd::prelude::*;

verus! {

/// Whether no waiting edge is cheaper than what `limit` is the opposite of, and one costs that
/// much, unless none waits.
pub open spec fn is_next_cost<N: Scalar>(limit: N, rest: Multiset<EdgeModel<N>>) -> bool {
    &&& forall|other: EdgeModel<N>| #[trigger] rest.contains(other) ==> rank(other.mcost) <= rank(limit)
    &&& rest.len() > 0 ==> exists|other: EdgeModel<N>| #[trigger]
        rest.contains(other) && other.mcost == limit
}

/// Each pass takes one of the cheapest edges.
///
/// An edge that is dropped is outdated, or has proved too concave. One that waits on has proved to
/// cost more than another one, and waits with the cost that has been found. One that is contracted
/// has been found to cost no more than any other one.
pub proof fn passes_take_the_cheapest_edge<
    N: Scalar,
    C: Fn(&ConvexPair<N>, &Ray<N>) -> Option<N>,
    H: Fn(&[Pnt3<N>]) -> TriMesh<N>,
>(
    scene: SceneModel<N>,
    cast: C,
    hull: H,
    pre: Phase<N>,
    outcome: Outcome,
    post: Phase<N>,
) -> (res: (EdgeModel<N>, N))
    requires
        finds_rays(scene.leaves, scene.rays.len()),
        pre.sound(scene),
        pre.edges.len() > 0,
        passes(scene, cast, hull, pre, outcome, post),
    ensures
        ({
            let (edge, limit) = res;
            let rest = pre.edges.remove(edge);
            let found = scene.evaluated(cast, pre.graph, edge, opposite(limit));
            &&& pre.edges.contains(edge)
            &&& forall|other: EdgeModel<N>| #[trigger]
                pre.edges.contains(other) ==> rank(other.mcost) <= rank(edge.mcost)
            &&& rest.len() > 0 ==> is_next_cost(limit, rest)
            &&& rest.len() == 0 ==> limit == opposite(top::<N>())
            &&& match outcome {
                Outcome::Dropped => {
                    &&& post.graph == pre.graph && post.edges == rest && post.time == pre.time
                    &&& edge.timestamp < pre.graph[edge.v1 as int].timestamp || edge.timestamp
                        < pre.graph[edge.v2 as int].timestamp || exists|cost: N, e: EdgeModel<N>|
                        (e == edge || e == found) && rank(scene.error) < rank(
                            (#[trigger] scene.evaluated(cast, pre.graph, e, cost)).concavity,
                        )
                },
                Outcome::Delayed => {
                    &&& post.graph == pre.graph && post.time == pre.time
                    &&& post.edges == rest.insert(found)
                    &&& !edge.exact
                    &&& rank(found.mcost) < rank(limit)
                    &&& rank(found.concavity) <= rank(scene.error)
                },
                Outcome::Contracted => {
                    &&& edge.timestamp >= pre.graph[edge.v1 as int].timestamp
                    &&& edge.timestamp >= pre.graph[edge.v2 as int].timestamp
                    &&& edge.exact || rank(limit) <= rank(found.mcost)
                    &&& post.time == pre.time + 1
                    &&& pre.graph[edge.v1 as int].alive() && pre.graph[edge.v2 as int].alive()
                    &&& post.graph[edge.v1 as int].alive() && !post.graph[edge.v2 as int].alive()
                    &&& rank(post.graph[edge.v1 as int].concavity) <= rank(scene.error)
                },
                _ => true,
            }
        }),
{
    let pass = pass_explained(scene, cast, hull, pre, outcome, post);
    let (edge, limit) = (pass.edge, pass.limit);
    let rest = pre.edges.remove(edge);
    assert forall|other: EdgeModel<N>| #[trigger] pre.edges.contains(other) implies rank(other.mcost)
        <= rank(edge.mcost) by {
        assert(!higher(
            <DualGraphEdge<N> as Prioritized>::priority(other),
            <DualGraphEdge<N> as Prioritized>::priority(edge),
        ));
    }
    if rest.len() > 0 {
        let next = choose|next: EdgeModel<N>| #[trigger]
            leads::<DualGraphEdge<N>>(next, rest) && next.mcost == limit;
        assert(rest.contains(next));
        assert forall|other: EdgeModel<N>| #[trigger] rest.contains(other) implies rank(other.mcost)
            <= rank(limit) by {
            assert(!higher(
                <DualGraphEdge<N> as Prioritized>::priority(other),
                <DualGraphEdge<N> as Prioritized>::priority(next),
            ));
        }
    }
    if outcome == Outcome::Contracted {
        valid_edges_live(scene, pre, edge);
        let ancestors = contraction_explained(scene, hull, pre, rest, pass.full, post);
    }
    if outcome == Outcome::Dropped && edge.valid(pre.graph) {
        let found = scene.evaluated(cast, pre.graph, edge, opposite(limit));
        if !edge.exact && scene.too_concave(found) {
            assert(scene.evaluated(cast, pre.graph, edge, opposite(limit)).concavity == found.concavity);
        } else {
            assert(scene.evaluated(cast, pre.graph, pass.bounded, top()).concavity == pass.full.concavity);
        }
    }
    (edge, limit)
}

/// Whether two vertices differ in nothing but their neighbors.
pub open spec fn differ_in_neighbors<N>(a: VertexModel<N>, b: VertexModel<N>) -> bool {
    &&& a.ancestors == b.ancestors
    &&& a.uancestors == b.uancestors
    &&& a.border == b.border
    &&& a.chull == b.chull
    &&& a.parts == b.parts
    &&& a.timestamp == b.timestamp
    &&& a.concavity == b.concavity
    &&& a.area == b.area
    &&& a.aabb == b.aabb
}

/// A pass that contracts an edge makes one part of two, which is as concave as each of them at
/// least. Every other part keeps all but its neighbors.
///
/// The concavity of the new part is that of the more concave one of the two, or one that a ray has
/// shown. Its rays are listed from the most concave down, and a ray that starts inside of the hull
/// of the two is listed, and shows no greater concavity.
pub proof fn contractions_make_one_part_of_two<
    N: Scalar,
    C: Fn(&ConvexPair<N>, &Ray<N>) -> Option<N>,
    H: Fn(&[Pnt3<N>]) -> TriMesh<N>,
>(
    mesh: MeshModel<N>,
    error: N,
    min_components: nat,
    cast: C,
    hull: H,
    trace: Seq<Phase<N>>,
    i: int,
) -> (ends: (usize, usize))
    requires
        mesh.complete(),
        mesh.countable(),
        decimates(mesh, error, min_components, cast, hull, trace),
        0 <= i < trace.len() - 1,
        trace[i + 1].time != trace[i].time,
    ensures
        ({
            let (g, h) = (trace[i].graph, trace[i + 1].graph);
            let (a, b, v) = (g[ends.0 as int], g[ends.1 as int], h[ends.0 as int]);
            let rays = mesh.rays();
            let pair = PairModel { a: a.chull->0.coords, b: b.chull->0.coords };
            &&& ends.0 < ends.1 < g.len()
            &&& h.len() == g.len()
            &&& a.alive() && b.alive() && v.alive() && !h[ends.1 as int].alive()
            &&& a.neighbors->0.contains(ends.1)
            &&& v.timestamp == trace[i + 1].time
            &&& trace[i + 1].time == trace[i].time + 1
            &&& v.parts->0 == a.parts->0 + b.parts->0
            &&& may_enclose(hull, a.chull->0.coords + b.chull->0.coords, v.chull->0)
            &&& forall|n: usize| #[trigger]
                v.neighbors->0.contains(n) <==> n != ends.0 && n != ends.1 && (
                a.neighbors->0.contains(n) || b.neighbors->0.contains(n))
            &&& forall|k: int|
                0 <= k < g.len() && k != ends.0 && k != ends.1 ==> differ_in_neighbors(
                    #[trigger] g[k],
                    h[k],
                )
            &&& rank(a.concavity) <= rank(v.concavity)
            &&& rank(b.concavity) <= rank(v.concavity)
            &&& v.concavity == a.concavity || v.concavity == b.concavity || some_ray_hits(
                cast,
                pair,
                rays,
                v.concavity,
            )
            &&& falls(v.ancestors->0)
            &&& forall|r: usize|
                r < rays.len() && !(#[trigger] rays[r as int]).dir.vanishes() && lies_between(
                    rays[r as int].orig,
                    a.aabb,
                    b.aabb,
                ) && time_of_impact(cast, pair, rays[r as int]) is Some && vanishes(
                    time_of_impact(cast, pair, rays[r as int])->0,
                ) ==> lists(v.ancestors->0, r) && rank(verdict(cast, pair, rays[r as int])) <= rank(
                    v.concavity,
                )
        }),
{
    let scene = mesh.scene(error);
    let (pre, post) = (trace[i], trace[i + 1]);
    let (g, h) = (pre.graph, post.graph);
    parts_testify(mesh, error, min_components, cast, hull, trace, i);
    states_are_sound(mesh, error, min_components, cast, hull, trace, i);
    neighbors_are_attended(mesh, error, min_components, cast, hull, trace, i);
    let outcome = pass_at(mesh, error, min_components, cast, hull, trace, i);
    let pass = pass_explained(scene, cast, hull, pre, outcome, post);
    let (edge, bounded, full) = (pass.edge, pass.bounded, pass.full);
    assert(outcome == Outcome::Contracted);
    valid_edges_live(scene, pre, edge);
    let rest = pre.edges.remove(edge);
    let ancestors = contraction_explained(scene, hull, pre, rest, full, post);
    let (a, b, v) = (g[full.v1 as int], g[full.v2 as int], h[full.v1 as int]);
    contracted_edges_testify(scene, cast, hull, pre, post, pass);
    if !edge.exact {
        evaluated_stems(scene, cast, g, edge, opposite(pass.limit));
    }
    evaluated_stems(scene, cast, g, bounded, top());
    assert(part_testifies(scene, a) && part_testifies(scene, b));
    stemming_deepens(scene, cast, g, full);
    ranked_entries_fall(ancestors, full.ancestors);
    assert(entries_known(full, scene.rays.len()));
    ranked_entries_testify(ancestors, full.ancestors);
    let rays = mesh.rays();
    let pair = PairModel { a: a.chull->0.coords, b: b.chull->0.coords };
    assert forall|r: usize|
        r < rays.len() && !(#[trigger] rays[r as int]).dir.vanishes() && lies_between(
            rays[r as int].orig,
            a.aabb,
            b.aabb,
        ) && time_of_impact(cast, pair, rays[r as int]) is Some && vanishes(
            time_of_impact(cast, pair, rays[r as int])->0,
        ) implies lists(v.ancestors->0, r) && rank(verdict(cast, pair, rays[r as int])) <= rank(
        v.concavity,
    ) by {
        exact_edges_account_for_inner_rays(scene, cast, g, full, r);
        assert(has_entry(full.ancestors, r));
    }
    (full.v1, full.v2)
}

/// Evaluations leave an edge as concave as its two parts at least.
proof fn stemming_deepens<N: Scalar, C: Fn(&ConvexPair<N>, &Ray<N>) -> Option<N>>(
    scene: SceneModel<N>,
    cast: C,
    graph: Seq<VertexModel<N>>,
    e: EdgeModel<N>,
)
    requires
        e.v1 < e.v2,
        stems(scene, cast, graph, e),
    ensures
        rank(graph[e.v1 as int].concavity) <= rank(e.concavity),
        rank(graph[e.v2 as int].concavity) <= rank(e.concavity),
{
    let fresh = made(scene, graph, e.timestamp, e.v1, e.v2);
    let costs = choose|costs: Seq<N>| e == #[trigger] refined(scene, cast, graph, fresh, costs);
    refining_deepens(scene, cast, graph, fresh, costs);
}

proof fn refining_deepens<N: Scalar, C: Fn(&ConvexPair<N>, &Ray<N>) -> Option<N>>(
    scene: SceneModel<N>,
    cast: C,
    graph: Seq<VertexModel<N>>,
    e: EdgeModel<N>,
    costs: Seq<N>,
)
    requires
        e.iv1 <= graph[e.v1 as int].ancestors->0.len(),
        e.iv2 <= graph[e.v2 as int].ancestors->0.len(),
    ensures
        ({
            let r = refined(scene, cast, graph, e, costs);
            &&& rank(e.concavity) <= rank(r.concavity)
            &&& r.iv1 <= graph[e.v1 as int].ancestors->0.len()
            &&& r.iv2 <= graph[e.v2 as int].ancestors->0.len()
            &&& r.v1 == e.v1
            &&& r.v2 == e.v2
        }),
    decreases costs.len(),
{
    if costs.len() > 0 {
        refining_deepens(scene, cast, graph, e, costs.drop_last());
        let before = refined(scene, cast, graph, e, costs.drop_last());
        evaluation_deepens(scene, cast, graph, before, costs.last());
        evaluation_ignores_labels(
            scene,
            cast,
            graph[e.v1 as int],
            graph[e.v2 as int],
            before,
            costs.last(),
            before.mcost,
            before.exact,
            before.timestamp,
        );
    }
}

/// The concavities of ranked entries fall.
pub proof fn ranked_entries_fall<N: Scalar>(
    entries: Seq<VertexWithConcavity<N>>,
    all: Multiset<VertexWithConcavity<N>>,
)
    requires
        ranked(entries, all),
    ensures
        falls(entries),
{
    let list = choose|list: Seq<VertexWithConcavity<N>>|
        {
            &&& #[trigger] list.to_multiset() == all
            &&& descending::<VertexWithConcavity<N>>(list)
            &&& entries == first_of_runs(list)
        };
    assert forall|i: int, j: int| 0 <= i < j < list.len() implies rank((#[trigger] list[j]).concavity)
        <= rank((#[trigger] list[i]).concavity) by {
        later_is_not_above::<VertexWithConcavity<N>>(list, i, j);
    }
    runs_fall(list);
}

proof fn runs_fall<N: Scalar>(list: Seq<VertexWithConcavity<N>>)
    requires
        falls(list),
    ensures
        falls(first_of_runs(list)),
        forall|k: int|
            0 <= k < first_of_runs(list).len() ==> list.contains(#[trigger] first_of_runs(list)[k]),
    decreases list.len(),
{
    if list.len() > 0 {
        let shorter = list.drop_last();
        let (before, full) = (first_of_runs(shorter), first_of_runs(list));
        let last = list.len() - 1;
        runs_fall(shorter);
        assert forall|k: int| 0 <= k < full.len() implies list.contains(#[trigger] full[k]) by {
            if k < before.len() {
                assert(shorter.contains(before[k]));
                let m = choose|m: int| 0 <= m < shorter.len() && shorter[m] == before[k];
                assert(list[m] == before[k]);
            } else {
                assert(list[last] == full[k]);
            }
        }
        assert forall|i: int, j: int| 0 <= i < j < full.len() implies rank((#[trigger] full[j]).concavity)
            <= rank((#[trigger] full[i]).concavity) by {
            if j < before.len() {
                assert(rank(before[j].concavity) <= rank(before[i].concavity));
            } else {
                assert(shorter.contains(before[i]));
                let m = choose|m: int| 0 <= m < shorter.len() && shorter[m] == before[i];
                assert(list[m] == before[i] && list[last] == full[j]);
            }
        }
    }
}

/// The scene of a mesh shows its points and its rays, and allows the concavity that is asked for.
pub proof fn scenes_show_the_mesh<N: Scalar>(mesh: MeshModel<N>, error: N, r: int)
    requires
        0 <= r < mesh.rays().len() <= usize::MAX,
    ensures
        mesh.scene(error).error == error,
        mesh.scene(error).coords == mesh.coords,
        mesh.scene(error).rays == mesh.rays(),
        mesh.scene(error).leaves.len() == mesh.rays().len(),
        mesh.scene(error).leaves[r].0 == r,
        mesh.scene(error).leaves[r].1.mins == mesh.rays()[r].orig,
        mesh.scene(error).leaves[r].1.maxs == mesh.rays()[r].orig,
{
}

/// Whether the edge between two parts has shown a concavity above `error`.
pub open spec fn proves_too_concave<N: Scalar, C: Fn(&ConvexPair<N>, &Ray<N>) -> Option<N>>(
    mesh: MeshModel<N>,
    error: N,
    cast: C,
    graph: Seq<VertexModel<N>>,
    edge: EdgeModel<N>,
) -> bool {
    &&& stems(mesh.scene(error), cast, graph, edge)
    &&& rank(error) < rank(edge.concavity)
}

/// What a decomposition leaves keeps to the concavity that is asked for, measured on the normalized
/// mesh: no part exceeds it, but for single triangles, and where there are more parts than asked
/// for, any two that touch each other have proved to exceed it together.
pub proof fn results_keep_to_the_error<
    N: Scalar,
    C: Fn(&ConvexPair<N>, &Ray<N>) -> Option<N>,
    H: Fn(&[Pnt3<N>]) -> TriMesh<N>,
>(
    mesh: MeshModel<N>,
    error: N,
    min_components: nat,
    cast: C,
    hull: H,
    trace: Seq<Phase<N>>,
    meshes: Seq<MeshModel<N>>,
    parts: Seq<Seq<usize>>,
)
    requires
        mesh.normalized().complete(),
        mesh.normalized().countable(),
        allows(mesh, error, min_components, cast, hull, trace, Some((meshes, parts))),
    ensures
        ({
            let graph = trace.last().graph;
            let left = survivors(graph);
            &&& parts.len() == left.len()
            &&& forall|k: int|
                0 <= k < parts.len() ==> {
                    &&& #[trigger] parts[k] == graph[left[k]].parts->0
                    &&& parts[k].len() == 1 || rank(graph[left[k]].concavity) <= rank(error)
                }
            &&& parts.len() > min_components ==> forall|v1: usize, v2: usize| #[trigger]
                neighboring(graph, v1, v2) ==> exists|edge: EdgeModel<N>|
                    edge.v1 == v1 && edge.v2 == v2 && #[trigger] proves_too_concave(
                        mesh.normalized(),
                        error,
                        cast,
                        graph,
                        edge,
                    )
        }),
{
    let m = mesh.normalized();
    let last = trace.len() - 1;
    let graph = trace.last().graph;
    let left = survivors(graph);
    parts_know_their_triangles(m, error, min_components, cast, hull, trace, last);
    states_are_sound(m, error, min_components, cast, hull, trace, last);
    survivors_are_the_living(graph);
    assert forall|k: int| 0 <= k < parts.len() implies #[trigger] parts[k] == graph[left[k]].parts->0
        && (parts[k].len() == 1 || rank(graph[left[k]].concavity) <= rank(error)) by {
        assert(left.contains(left[k]));
        assert(graph[left[k]].knows_triangles(m, error));
    }
    if parts.len() > min_components {
        assert forall|v1: usize, v2: usize| #[trigger] neighboring(graph, v1, v2) implies exists|
            edge: EdgeModel<N>,
        |
            edge.v1 == v1 && edge.v2 == v2 && #[trigger] proves_too_concave(m, error, cast, graph, edge) by {
            no_neighbors_are_left_to_join(m, error, min_components, cast, hull, trace, v1, v2);
            let edge = choose|edge: EdgeModel<N>|
                {
                    &&& edge.v1 == v1
                    &&& edge.v2 == v2
                    &&& #[trigger] stems(m.scene(error), cast, graph, edge)
                    &&& m.scene(error).too_concave(edge)
                };
            assert(proves_too_concave(m, error, cast, graph, edge));
        }
    }
}

} // verus!
