//! When two decompositions agree.
use crate::ancestor::VertexWithConcavity;
use crate::casting::{contracted_edges_testify, graph_testifies, parts_testify};
use crate::decimation::{
    breaks_off, contraction_explained, decimates, finished, limits, pass_explained, passes, survivors,
    Outcome, Phase, SceneModel,
};
use crate::decompose::{allows, describes};
use crate::edge::{finds_rays, DualGraphEdge, EdgeModel};
use crate::exact::placed;
use crate::kernel::ConvexPair;
use crate::laws::{pass_at, states_are_sound};
use crate::linalg::{Pnt3, Vec3};
use crate::maximal::{attended, neighbors_are_attended};
use crate::mesh::{MeshModel, TriMesh};
use crate::queue::{descending, later_is_not_above, leads};
use crate::rays::Ray;
use crate::scalar::{rank, Scalar};
use crate::vertex::{first_of_runs, ranked, VertexModel};
use vstd::multiset::Multiset;
use vstd::prelude::*;

verus! {

/// The hulls of the parts that are left, moved back to where the mesh was.
pub open spec fn hulls_left<N: Scalar>(mesh: MeshModel<N>, graph: Seq<VertexModel<N>>) -> Seq<
    MeshModel<N>,
> {
    survivors(graph).map_values(
        |n: int| graph[n].chull->0.denormalized(mesh.center(), mesh.diagonal()),
    )
}

/// A result with its hulls moved back to where another mesh was.
pub open spec fn relocated<N: Scalar>(
    mesh: MeshModel<N>,
    graph: Seq<VertexModel<N>>,
    res: Option<(Seq<MeshModel<N>>, Seq<Seq<usize>>)>,
) -> Option<(Seq<MeshModel<N>>, Seq<Seq<usize>>)> {
    match res {
        None => None,
        Some((meshes, parts)) => Some((hulls_left(mesh, graph), parts)),
    }
}

/// What a decomposition of a mesh may pass through and end with, that of a mesh that is normalized
/// to the same one may pass through and end with, with its hulls moved back to where that mesh was.
pub proof fn meshes_normalized_alike_decompose_alike<
    N: Scalar,
    C: Fn(&ConvexPair<N>, &Ray<N>) -> Option<N>,
    H: Fn(&[Pnt3<N>]) -> TriMesh<N>,
>(
    mesh: MeshModel<N>,
    other: MeshModel<N>,
    error: N,
    min_components: nat,
    cast: C,
    hull: H,
    trace: Seq<Phase<N>>,
    res: Option<(Seq<MeshModel<N>>, Seq<Seq<usize>>)>,
)
    requires
        other.normalized() == mesh.normalized(),
        allows(mesh, error, min_components, cast, hull, trace, res),
    ensures
        allows(
            other,
            error,
            min_components,
            cast,
            hull,
            trace,
            relocated(other, trace.last().graph, res),
        ),
{
    let graph = trace.last().graph;
    if let Some((meshes, parts)) = res {
        assert(describes(mesh, graph, meshes, parts));
        assert(describes(other, graph, hulls_left(other, graph), parts));
    }
}

/// The scale and the place of a mesh do not matter: where the mesh, multiplied by `s` and moved by
/// `t`, is normalized to the same mesh, each decomposition of the one is a decomposition of the
/// other, with the same parts, and with the hulls moved back to where the other one was.
pub proof fn placed_meshes_decompose_alike<
    N: Scalar,
    C: Fn(&ConvexPair<N>, &Ray<N>) -> Option<N>,
    H: Fn(&[Pnt3<N>]) -> TriMesh<N>,
>(
    mesh: MeshModel<N>,
    s: N,
    t: Vec3<N>,
    error: N,
    min_components: nat,
    cast: C,
    hull: H,
    trace: Seq<Phase<N>>,
    res: Option<(Seq<MeshModel<N>>, Seq<Seq<usize>>)>,
)
    requires
        placed(mesh, s, t).normalized() == mesh.normalized(),
    ensures
        allows(mesh, error, min_components, cast, hull, trace, res) ==> allows(
            placed(mesh, s, t),
            error,
            min_components,
            cast,
            hull,
            trace,
            relocated(placed(mesh, s, t), trace.last().graph, res),
        ),
        allows(placed(mesh, s, t), error, min_components, cast, hull, trace, res) ==> allows(
            mesh,
            error,
            min_components,
            cast,
            hull,
            trace,
            relocated(mesh, trace.last().graph, res),
        ),
{
    let other = placed(mesh, s, t);
    if allows(mesh, error, min_components, cast, hull, trace, res) {
        meshes_normalized_alike_decompose_alike(
            mesh,
            other,
            error,
            min_components,
            cast,
            hull,
            trace,
            res,
        );
    }
    if allows(other, error, min_components, cast, hull, trace, res) {
        meshes_normalized_alike_decompose_alike(
            other,
            mesh,
            error,
            min_components,
            cast,
            hull,
            trace,
            res,
        );
    }
}

/// Whether no two waiting edges that differ cost the same.
pub open spec fn without_ties<N: Scalar>(phase: Phase<N>) -> bool {
    forall|x: EdgeModel<N>, y: EdgeModel<N>| #[trigger]
        phase.edges.contains(x) && #[trigger] phase.edges.contains(y) && rank(x.mcost) == rank(y.mcost)
            ==> x == y
}

/// Two descending lists of the same entries are the same, where a ray always has the same entry.
proof fn descending_lists_agree<N: Scalar>(
    a: Seq<VertexWithConcavity<N>>,
    b: Seq<VertexWithConcavity<N>>,
    all: Multiset<VertexWithConcavity<N>>,
)
    requires
        a.to_multiset() == all,
        b.to_multiset() == all,
        descending::<VertexWithConcavity<N>>(a),
        descending::<VertexWithConcavity<N>>(b),
        forall|x: VertexWithConcavity<N>, y: VertexWithConcavity<N>| #[trigger]
            all.contains(x) && #[trigger] all.contains(y) && x.id == y.id ==> x == y,
    ensures
        a == b,
    decreases a.len(),
{
    a.to_multiset_ensures();
    b.to_multiset_ensures();
    assert(a.len() == b.len());
    if a.len() > 0 {
        let n = a.len() - 1;
        let (x, y) = (a[n], b[n]);
        assert(a.contains(x) && b.contains(y));
        assert(all.contains(x) && all.contains(y));
        assert(b.contains(x) && a.contains(y));
        let i = choose|i: int| 0 <= i < a.len() && a[i] == y;
        let j = choose|j: int| 0 <= j < b.len() && b[j] == x;
        if i < n {
            later_is_not_above::<VertexWithConcavity<N>>(a, i, n);
        }
        if j < n {
            later_is_not_above::<VertexWithConcavity<N>>(b, j, n);
        }
        assert(x == y);
        let (c, d) = (a.drop_last(), b.drop_last());
        c.to_multiset_ensures();
        d.to_multiset_ensures();
        assert(a =~= c.push(x) && b =~= d.push(x));
        let fewer = all.remove(x);
        assert(c.to_multiset() =~= fewer);
        assert(d.to_multiset() =~= fewer);
        shorter_descends(a);
        shorter_descends(b);
        assert forall|p: VertexWithConcavity<N>, q: VertexWithConcavity<N>| #[trigger]
            fewer.contains(p) && #[trigger] fewer.contains(q) && p.id == q.id implies p == q by {
            assert(all.contains(p) && all.contains(q));
        }
        descending_lists_agree(c, d, fewer);
    } else {
        assert(a =~= b);
    }
}

proof fn shorter_descends<N: Scalar>(a: Seq<VertexWithConcavity<N>>)
    requires
        a.len() > 0,
        descending::<VertexWithConcavity<N>>(a),
    ensures
        descending::<VertexWithConcavity<N>>(a.drop_last()),
{
}

/// The ranked entries of an edge are determined, where a ray always has the same entry.
proof fn rankings_agree<N: Scalar>(
    a: Seq<VertexWithConcavity<N>>,
    b: Seq<VertexWithConcavity<N>>,
    all: Multiset<VertexWithConcavity<N>>,
)
    requires
        ranked(a, all),
        ranked(b, all),
        forall|x: VertexWithConcavity<N>, y: VertexWithConcavity<N>| #[trigger]
            all.contains(x) && #[trigger] all.contains(y) && x.id == y.id ==> x == y,
    ensures
        a == b,
{
    let p = choose|list: Seq<VertexWithConcavity<N>>|
        {
            &&& #[trigger] list.to_multiset() == all
            &&& descending::<VertexWithConcavity<N>>(list)
            &&& a == first_of_runs(list)
        };
    let q = choose|list: Seq<VertexWithConcavity<N>>|
        {
            &&& #[trigger] list.to_multiset() == all
            &&& descending::<VertexWithConcavity<N>>(list)
            &&& b == first_of_runs(list)
        };
    descending_lists_agree(p, q, all);
}

/// Two edges that lead a state without ties are the same.
proof fn leaders_agree<N: Scalar>(
    phase: Phase<N>,
    edges: Multiset<EdgeModel<N>>,
    x: EdgeModel<N>,
    y: EdgeModel<N>,
)
    requires
        without_ties(phase),
        forall|e: EdgeModel<N>| #[trigger] edges.contains(e) ==> phase.edges.contains(e),
        leads::<DualGraphEdge<N>>(x, edges),
        leads::<DualGraphEdge<N>>(y, edges),
    ensures
        x == y,
{
    assert(edges.contains(x) && edges.contains(y));
    assert(phase.edges.contains(x) && phase.edges.contains(y));
}

/// What a pass does is determined by the state, where there are no ties.
proof fn passes_agree<
    N: Scalar,
    C: Fn(&ConvexPair<N>, &Ray<N>) -> Option<N>,
    H: Fn(&[Pnt3<N>]) -> TriMesh<N>,
>(
    scene: SceneModel<N>,
    cast: C,
    hull: H,
    pre: Phase<N>,
    outcome1: Outcome,
    post1: Phase<N>,
    outcome2: Outcome,
    post2: Phase<N>,
)
    requires
        finds_rays(scene.leaves, scene.rays.len()),
        pre.sound(scene),
        attended(scene, cast, pre),
        graph_testifies(scene, pre.graph),
        without_ties(pre),
        passes(scene, cast, hull, pre, outcome1, post1),
        passes(scene, cast, hull, pre, outcome2, post2),
    ensures
        outcome1 == outcome2,
        post1 == post2,
{
    if pre.edges.len() > 0 {
        let p1 = pass_explained(scene, cast, hull, pre, outcome1, post1);
        let p2 = pass_explained(scene, cast, hull, pre, outcome2, post2);
        leaders_agree(pre, pre.edges, p1.edge, p2.edge);
        let rest = pre.edges.remove(p1.edge);
        assert(p1.limit == p2.limit) by {
            if rest.len() > 0 {
                let n1 = choose|next: EdgeModel<N>| #[trigger]
                    leads::<DualGraphEdge<N>>(next, rest) && next.mcost == p1.limit;
                let n2 = choose|next: EdgeModel<N>| #[trigger]
                    leads::<DualGraphEdge<N>>(next, rest) && next.mcost == p2.limit;
                assert(limits(p1.limit, rest) && limits(p2.limit, rest));
                leaders_agree(pre, rest, n1, n2);
            }
        }
        assert(p1.full == p2.full);
        let full = p1.full;
        if outcome1 == Outcome::Contracted {
            contracted_edges_testify(scene, cast, hull, pre, post1, p1);
            let a1 = contraction_explained(scene, hull, pre, rest, full, post1);
            let a2 = contraction_explained(scene, hull, pre, rest, full, post2);
            rankings_agree(a1, a2, full.ancestors);
        }
    }
}

/// Whether a decimation goes no further than this state.
pub open spec fn ends<
    N: Scalar,
    C: Fn(&ConvexPair<N>, &Ray<N>) -> Option<N>,
    H: Fn(&[Pnt3<N>]) -> TriMesh<N>,
>(scene: SceneModel<N>, cast: C, hull: H, phase: Phase<N>, min_components: nat) -> bool {
    finished(phase, min_components) || breaks_off(scene, cast, hull, phase, min_components)
}

/// Two decimations of a mesh pass through the same states as far as both go, where one has no ties.
proof fn traces_agree_at<
    N: Scalar,
    C: Fn(&ConvexPair<N>, &Ray<N>) -> Option<N>,
    H: Fn(&[Pnt3<N>]) -> TriMesh<N>,
>(
    mesh: MeshModel<N>,
    error: N,
    min_components: nat,
    cast: C,
    hull: H,
    trace1: Seq<Phase<N>>,
    trace2: Seq<Phase<N>>,
    i: int,
)
    requires
        mesh.complete(),
        mesh.countable(),
        decimates(mesh, error, min_components, cast, hull, trace1),
        decimates(mesh, error, min_components, cast, hull, trace2),
        forall|k: int| 0 <= k < trace1.len() ==> without_ties(#[trigger] trace1[k]),
        0 <= i < trace1.len(),
        i < trace2.len(),
    ensures
        trace1[i] == trace2[i],
    decreases i,
{
    if i > 0 {
        let scene = mesh.scene(error);
        traces_agree_at(mesh, error, min_components, cast, hull, trace1, trace2, i - 1);
        let outcome1 = pass_at(mesh, error, min_components, cast, hull, trace1, i - 1);
        let outcome2 = pass_at(mesh, error, min_components, cast, hull, trace2, i - 1);
        states_are_sound(mesh, error, min_components, cast, hull, trace1, i - 1);
        neighbors_are_attended(mesh, error, min_components, cast, hull, trace1, i - 1);
        parts_testify(mesh, error, min_components, cast, hull, trace1, i - 1);
        passes_agree(
            scene,
            cast,
            hull,
            trace1[i - 1],
            outcome1,
            trace1[i],
            outcome2,
            trace2[i],
        );
    }
}

/// A decimation does not go on from a state without ties in which another one ends.
proof fn ends_are_final<
    N: Scalar,
    C: Fn(&ConvexPair<N>, &Ray<N>) -> Option<N>,
    H: Fn(&[Pnt3<N>]) -> TriMesh<N>,
>(
    mesh: MeshModel<N>,
    error: N,
    min_components: nat,
    cast: C,
    hull: H,
    trace: Seq<Phase<N>>,
    i: int,
)
    requires
        mesh.complete(),
        mesh.countable(),
        decimates(mesh, error, min_components, cast, hull, trace),
        0 <= i < trace.len(),
        without_ties(trace[i]),
        ends(mesh.scene(error), cast, hull, trace[i], min_components),
    ensures
        i == trace.len() - 1,
{
    let scene = mesh.scene(error);
    if i < trace.len() - 1 {
        let outcome = pass_at(mesh, error, min_components, cast, hull, trace, i);
        if breaks_off(scene, cast, hull, trace[i], min_components) {
            let post = choose|post: Phase<N>| #[trigger]
                passes(scene, cast, hull, trace[i], Outcome::Inexact, post);
            states_are_sound(mesh, error, min_components, cast, hull, trace, i);
            neighbors_are_attended(mesh, error, min_components, cast, hull, trace, i);
            parts_testify(mesh, error, min_components, cast, hull, trace, i);
            passes_agree(
                scene,
                cast,
                hull,
                trace[i],
                outcome,
                trace[i + 1],
                Outcome::Inexact,
                post,
            );
        }
    }
}

/// Two decimations of a mesh that come to an end are the same, where one has no ties.
pub proof fn traces_agree<
    N: Scalar,
    C: Fn(&ConvexPair<N>, &Ray<N>) -> Option<N>,
    H: Fn(&[Pnt3<N>]) -> TriMesh<N>,
>(
    mesh: MeshModel<N>,
    error: N,
    min_components: nat,
    cast: C,
    hull: H,
    trace1: Seq<Phase<N>>,
    trace2: Seq<Phase<N>>,
)
    requires
        mesh.complete(),
        mesh.countable(),
        decimates(mesh, error, min_components, cast, hull, trace1),
        decimates(mesh, error, min_components, cast, hull, trace2),
        ends(mesh.scene(error), cast, hull, trace1.last(), min_components),
        ends(mesh.scene(error), cast, hull, trace2.last(), min_components),
        forall|k: int| 0 <= k < trace1.len() ==> without_ties(#[trigger] trace1[k]),
    ensures
        trace1 == trace2,
{
    let (n1, n2) = (trace1.len() - 1, trace2.len() - 1);
    if n1 <= n2 {
        traces_agree_at(mesh, error, min_components, cast, hull, trace1, trace2, n1);
        assert(without_ties(trace1[n1]));
        ends_are_final(mesh, error, min_components, cast, hull, trace2, n1);
    } else {
        traces_agree_at(mesh, error, min_components, cast, hull, trace1, trace2, n2);
        assert(without_ties(trace1[n2]));
        ends_are_final(mesh, error, min_components, cast, hull, trace1, n2);
    }
    assert forall|i: int| 0 <= i < trace1.len() implies #[trigger] trace1[i] == trace2[i] by {
        traces_agree_at(mesh, error, min_components, cast, hull, trace1, trace2, i);
    }
    assert(trace1 =~= trace2);
}

/// Two decompositions agree, of one mesh or of two meshes that are normalized to the same one, where
/// one of them has no ties: they have the same parts, and the hulls of the one are those of the
/// other, moved back to where its own mesh was. Where there are ties, one may handle the edges of
/// the same cost in another order than the other.
pub proof fn decompositions_agree<
    N: Scalar,
    C: Fn(&ConvexPair<N>, &Ray<N>) -> Option<N>,
    H: Fn(&[Pnt3<N>]) -> TriMesh<N>,
>(
    mesh: MeshModel<N>,
    other: MeshModel<N>,
    error: N,
    min_components: nat,
    cast: C,
    hull: H,
    trace1: Seq<Phase<N>>,
    trace2: Seq<Phase<N>>,
    res1: Option<(Seq<MeshModel<N>>, Seq<Seq<usize>>)>,
    res2: Option<(Seq<MeshModel<N>>, Seq<Seq<usize>>)>,
)
    requires
        mesh.normalized().complete(),
        mesh.normalized().countable(),
        other.normalized() == mesh.normalized(),
        allows(mesh, error, min_components, cast, hull, trace1, res1),
        allows(other, error, min_components, cast, hull, trace2, res2),
        forall|k: int| 0 <= k < trace1.len() ==> without_ties(#[trigger] trace1[k]),
    ensures
        trace1 == trace2,
        res2 == relocated(other, trace1.last().graph, res1),
{
    let m = mesh.normalized();
    traces_agree(m, error, min_components, cast, hull, trace1, trace2);
    let last = trace1.last();
    if breaks_off(m.scene(error), cast, hull, last, min_components) {
        let post = choose|post: Phase<N>| #[trigger]
            passes(m.scene(error), cast, hull, last, Outcome::Inexact, post);
        assert(!finished(last, min_components));
    }
    if res1 is Some && res2 is Some {
        let (meshes1, parts1) = res1->0;
        let (meshes2, parts2) = res2->0;
        assert(parts1 =~= parts2) by {
            assert forall|k: int| 0 <= k < parts1.len() implies #[trigger] parts1[k] == parts2[k] by {
                assert(parts2[k] == last.graph[survivors(last.graph)[k]].parts->0);
            }
        }
        assert(meshes2 =~= hulls_left(other, last.graph));
    }
}

} // verus!
