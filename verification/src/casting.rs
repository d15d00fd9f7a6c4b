//! What the rays that have been cast say of an edge and of a part.
use crate::ancestor::VertexWithConcavity;
use crate::bvt::interferences;
use crate::decimation::{
    contraction_explained, decimates, entries_known, pass_explained, passes, ranked_are_entries,
    valid_edges_live, Outcome, Pass, Phase, SceneModel,
};
use crate::edge::{finds_rays, reach, returning, EdgeModel};
use crate::kernel::{enclosure, time_of_impact, ConvexPair, PairModel};
use crate::laws::{pass_at, passes_join_or_keep, states_are_sound};
use crate::linalg::Pnt3;
use crate::maximal::{attended, evaluated_stems, made, neighbors_are_attended, refined, stems};
use crate::mesh::{MeshModel, TriMesh};
use crate::queue::{descending, later_is_not_above};
use crate::rays::Ray;
use crate::scalar::{minus, near, opposite, rank, top, zero, Scalar};
use crate::vertex::{first_of_runs, hull_points, last_id, ranked, VertexModel};
use vstd::multiset::Multiset;
use vstd::prelude::*;

verus! {

/// The concavity that a ray shows of the hull of a pair.
pub open spec fn verdict<N: Scalar, C: Fn(&ConvexPair<N>, &Ray<N>) -> Option<N>>(
    cast: C,
    pair: PairModel<N>,
    ray: Ray<N>,
) -> N {
    if near(pair.support(ray.dir).vector().scalar_product(ray.dir), zero()) {
        zero()
    } else {
        match time_of_impact(cast, pair, returning(pair, ray)) {
            None => zero(),
            Some(t) => minus(reach(pair, ray), t),
        }
    }
}

/// Whether the entries hold one for ray `id`.
pub open spec fn has_entry<N>(entries: Multiset<VertexWithConcavity<N>>, id: usize) -> bool {
    exists|x: VertexWithConcavity<N>| #[trigger] entries.contains(x) && x.id == id
}

/// Whether the list holds an entry for ray `id`.
pub open spec fn lists<N>(entries: Seq<VertexWithConcavity<N>>, id: usize) -> bool {
    exists|k: int| 0 <= k < entries.len() && (#[trigger] entries[k]).id == id
}

/// Whether ray `id` has an entry, or has no direction.
pub open spec fn accounted<N: Scalar>(e: EdgeModel<N>, rays: Seq<Ray<N>>, id: usize) -> bool {
    rays[id as int].dir.vanishes() || has_entry(e.ancestors, id)
}

/// Whether what an edge holds is what the rays show: each entry is the concavity along its ray,
/// none exceeds the concavity of the edge, which is zero at least, and of the rays that the two
/// parts know, those that have been taken into account have an entry.
pub open spec fn testifies<N: Scalar, C: Fn(&ConvexPair<N>, &Ray<N>) -> Option<N>>(
    e: EdgeModel<N>,
    cast: C,
    pair: PairModel<N>,
    a1: Seq<VertexWithConcavity<N>>,
    a2: Seq<VertexWithConcavity<N>>,
    rays: Seq<Ray<N>>,
) -> bool {
    &&& rank(zero::<N>()) <= rank(e.concavity)
    &&& forall|x: VertexWithConcavity<N>| #[trigger]
        e.ancestors.contains(x) ==> x.concavity == verdict(cast, pair, rays[x.id as int]) && rank(
            x.concavity,
        ) <= rank(e.concavity)
    &&& e.iv1 <= a1.len()
    &&& e.iv2 <= a2.len()
    &&& forall|k: int| 0 <= k < e.iv1 ==> accounted(e, rays, (#[trigger] a1[k]).id)
    &&& forall|k: int| 0 <= k < e.iv2 ==> accounted(e, rays, (#[trigger] a2[k]).id)
}

proof fn probing_testifies<N: Scalar, C: Fn(&ConvexPair<N>, &Ray<N>) -> Option<N>>(
    e: EdgeModel<N>,
    cast: C,
    pair: PairModel<N>,
    a1: Seq<VertexWithConcavity<N>>,
    a2: Seq<VertexWithConcavity<N>>,
    rays: Seq<Ray<N>>,
    id: usize,
)
    requires
        testifies(e, cast, pair, a1, a2, rays),
    ensures
        testifies(e.probed(cast, pair, rays[id as int], id), cast, pair, a1, a2, rays),
        has_entry(e.probed(cast, pair, rays[id as int], id).ancestors, id),
        forall|other: usize| #[trigger]
            has_entry(e.ancestors, other) ==> has_entry(
                e.probed(cast, pair, rays[id as int], id).ancestors,
                other,
            ),
{
    let r = e.probed(cast, pair, rays[id as int], id);
    let entry = VertexWithConcavity { id, concavity: verdict(cast, pair, rays[id as int]) };
    assert(r.ancestors == e.ancestors.insert(entry));
    assert(r.ancestors.contains(entry));
    assert forall|x: VertexWithConcavity<N>| #[trigger] e.ancestors.contains(x) implies r.ancestors.contains(
        x,
    ) by {}
    assert forall|other: usize| #[trigger] has_entry(e.ancestors, other) implies has_entry(
        r.ancestors,
        other,
    ) by {
        let x = choose|x: VertexWithConcavity<N>| #[trigger] e.ancestors.contains(x) && x.id == other;
        assert(r.ancestors.contains(x));
    }
    assert forall|x: VertexWithConcavity<N>| #[trigger] r.ancestors.contains(x) implies x.concavity
        == verdict(cast, pair, rays[x.id as int]) && rank(x.concavity) <= rank(r.concavity) by {
        if x != entry {
            assert(e.ancestors.contains(x));
        }
    }
    assert forall|k: int| 0 <= k < r.iv1 implies accounted(r, rays, (#[trigger] a1[k]).id) by {
        assert(accounted(e, rays, a1[k].id));
    }
    assert forall|k: int| 0 <= k < r.iv2 implies accounted(r, rays, (#[trigger] a2[k]).id) by {
        assert(accounted(e, rays, a2[k].id));
    }
}

proof fn next_ray_testifies<N: Scalar, C: Fn(&ConvexPair<N>, &Ray<N>) -> Option<N>>(
    e: EdgeModel<N>,
    cast: C,
    pair: PairModel<N>,
    a1: Seq<VertexWithConcavity<N>>,
    a2: Seq<VertexWithConcavity<N>>,
    rays: Seq<Ray<N>>,
)
    requires
        testifies(e, cast, pair, a1, a2, rays),
        !e.through(a1, a2),
    ensures
        testifies(e.next_ray_cast(cast, pair, a1, a2, rays), cast, pair, a1, a2, rays),
{
    let first = e.iv1 < a1.len() && (e.iv2 >= a2.len() || rank(a2[e.iv2 as int].concavity) < rank(
        a1[e.iv1 as int].concavity,
    ));
    let id = if first {
        a1[e.iv1 as int].id
    } else {
        a2[e.iv2 as int].id
    };
    let r = e.next_ray_cast(cast, pair, a1, a2, rays);
    if !rays[id as int].dir.vanishes() {
        probing_testifies(e, cast, pair, a1, a2, rays, id);
        let p = e.probed(cast, pair, rays[id as int], id);
        assert(r.ancestors == p.ancestors && r.concavity == p.concavity);
        assert forall|k: int| 0 <= k < r.iv1 implies accounted(r, rays, (#[trigger] a1[k]).id) by {
            if k < e.iv1 {
                assert(accounted(p, rays, a1[k].id));
            }
        }
        assert forall|k: int| 0 <= k < r.iv2 implies accounted(r, rays, (#[trigger] a2[k]).id) by {
            if k < e.iv2 {
                assert(accounted(p, rays, a2[k].id));
            }
        }
        assert forall|x: VertexWithConcavity<N>| #[trigger] r.ancestors.contains(x) implies x.concavity
            == verdict(cast, pair, rays[x.id as int]) && rank(x.concavity) <= rank(r.concavity) by {
            assert(p.ancestors.contains(x));
        }
    } else {
        assert forall|k: int| 0 <= k < r.iv1 implies accounted(r, rays, (#[trigger] a1[k]).id) by {
            if k < e.iv1 {
                assert(accounted(e, rays, a1[k].id));
            }
        }
        assert forall|k: int| 0 <= k < r.iv2 implies accounted(r, rays, (#[trigger] a2[k]).id) by {
            if k < e.iv2 {
                assert(accounted(e, rays, a2[k].id));
            }
        }
    }
}

proof fn known_rays_testify<N: Scalar, C: Fn(&ConvexPair<N>, &Ray<N>) -> Option<N>>(
    e: EdgeModel<N>,
    cast: C,
    pair: PairModel<N>,
    a1: Seq<VertexWithConcavity<N>>,
    a2: Seq<VertexWithConcavity<N>>,
    rays: Seq<Ray<N>>,
    bound: N,
)
    requires
        testifies(e, cast, pair, a1, a2, rays),
    ensures
        testifies(e.known_rays_cast(cast, pair, a1, a2, rays, bound), cast, pair, a1, a2, rays),
    decreases a1.len() - e.iv1 + a2.len() - e.iv2,
{
    if !(e.through(a1, a2) || rank(bound) < rank(e.concavity)) {
        next_ray_testifies(e, cast, pair, a1, a2, rays);
        known_rays_testify(
            e.next_ray_cast(cast, pair, a1, a2, rays),
            cast,
            pair,
            a1,
            a2,
            rays,
            bound,
        );
    }
}

proof fn inner_rays_testify<N: Scalar, C: Fn(&ConvexPair<N>, &Ray<N>) -> Option<N>>(
    e: EdgeModel<N>,
    cast: C,
    pair: PairModel<N>,
    a1: Seq<VertexWithConcavity<N>>,
    a2: Seq<VertexWithConcavity<N>>,
    known: Set<usize>,
    rays: Seq<Ray<N>>,
    ids: Seq<usize>,
)
    requires
        testifies(e, cast, pair, a1, a2, rays),
    ensures
        testifies(e.inner_rays_cast(cast, pair, known, rays, ids), cast, pair, a1, a2, rays),
    decreases ids.len(),
{
    if ids.len() > 0 {
        inner_rays_testify(e, cast, pair, a1, a2, known, rays, ids.drop_last());
        let before = e.inner_rays_cast(cast, pair, known, rays, ids.drop_last());
        probing_testifies(before, cast, pair, a1, a2, rays, ids.last());
    }
}

/// Whether what an edge between two vertices holds is what the rays show.
pub open spec fn edge_testifies<N: Scalar, C: Fn(&ConvexPair<N>, &Ray<N>) -> Option<N>>(
    scene: SceneModel<N>,
    cast: C,
    v1: VertexModel<N>,
    v2: VertexModel<N>,
    e: EdgeModel<N>,
) -> bool {
    testifies(
        e,
        cast,
        PairModel { a: v1.chull->0.coords, b: v2.chull->0.coords },
        v1.ancestors->0,
        v2.ancestors->0,
        scene.rays,
    )
}

/// Evaluating an edge keeps to what the rays show.
proof fn evaluation_testifies<N: Scalar, C: Fn(&ConvexPair<N>, &Ray<N>) -> Option<N>>(
    scene: SceneModel<N>,
    cast: C,
    v1: VertexModel<N>,
    v2: VertexModel<N>,
    e: EdgeModel<N>,
    max_cost: N,
)
    requires
        edge_testifies(scene, cast, v1, v2, e),
    ensures
        edge_testifies(
            scene,
            cast,
            v1,
            v2,
            e.evaluated(cast, v1, v2, scene.rays, scene.leaves, max_cost, scene.error),
        ),
{
    let pair = PairModel { a: v1.chull->0.coords, b: v2.chull->0.coords };
    let (a1, a2) = (v1.ancestors->0, v2.ancestors->0);
    let bound = e.bound(max_cost, scene.error);
    known_rays_testify(e, cast, pair, a1, a2, scene.rays, bound);
    let outer = e.known_rays_cast(cast, pair, a1, a2, scene.rays, bound);
    let marked = EdgeModel { iray_cast: true, ..outer };
    assert(testifies(marked, cast, pair, a1, a2, scene.rays)) by {
        assert forall|k: int| 0 <= k < marked.iv1 implies accounted(
            marked,
            scene.rays,
            (#[trigger] a1[k]).id,
        ) by {
            assert(accounted(outer, scene.rays, a1[k].id));
        }
        assert forall|k: int| 0 <= k < marked.iv2 implies accounted(
            marked,
            scene.rays,
            (#[trigger] a2[k]).id,
        ) by {
            assert(accounted(outer, scene.rays, a2[k].id));
        }
    }
    let known = v1.uancestors->0.union(v2.uancestors->0);
    let ids = interferences(scene.leaves, v1.aabb.hull(v2.aabb));
    inner_rays_testify(marked, cast, pair, a1, a2, known, scene.rays, ids);
    let all = if !outer.iray_cast && outer.through(a1, a2) {
        marked.inner_rays_cast(cast, pair, known, scene.rays, ids)
    } else {
        outer
    };
    let r = e.evaluated(cast, v1, v2, scene.rays, scene.leaves, max_cost, scene.error);
    assert(r.ancestors == all.ancestors && r.concavity == all.concavity);
    assert(r.iv1 == all.iv1 && r.iv2 == all.iv2);
    assert forall|k: int| 0 <= k < r.iv1 implies accounted(r, scene.rays, (#[trigger] a1[k]).id) by {
        assert(accounted(all, scene.rays, a1[k].id));
    }
    assert forall|k: int| 0 <= k < r.iv2 implies accounted(r, scene.rays, (#[trigger] a2[k]).id) by {
        assert(accounted(all, scene.rays, a2[k].id));
    }
}

proof fn refining_testifies<N: Scalar, C: Fn(&ConvexPair<N>, &Ray<N>) -> Option<N>>(
    scene: SceneModel<N>,
    cast: C,
    graph: Seq<VertexModel<N>>,
    e: EdgeModel<N>,
    costs: Seq<N>,
)
    requires
        edge_testifies(scene, cast, graph[e.v1 as int], graph[e.v2 as int], e),
    ensures
        edge_testifies(
            scene,
            cast,
            graph[e.v1 as int],
            graph[e.v2 as int],
            refined(scene, cast, graph, e, costs),
        ),
    decreases costs.len(),
{
    if costs.len() > 0 {
        refining_testifies(scene, cast, graph, e, costs.drop_last());
        evaluation_testifies(
            scene,
            cast,
            graph[e.v1 as int],
            graph[e.v2 as int],
            refined(scene, cast, graph, e, costs.drop_last()),
            costs.last(),
        );
    }
}

/// What evaluations make of the edge between two parts is what the rays show. In particular,
/// once it is exact each ray that one of the parts knows has an entry, unless it has no
/// direction.
pub proof fn edges_testify<N: Scalar, C: Fn(&ConvexPair<N>, &Ray<N>) -> Option<N>>(
    scene: SceneModel<N>,
    cast: C,
    graph: Seq<VertexModel<N>>,
    e: EdgeModel<N>,
)
    requires
        e.v1 < e.v2,
        stems(scene, cast, graph, e),
        rank(zero::<N>()) <= rank(graph[e.v1 as int].concavity),
        rank(zero::<N>()) <= rank(graph[e.v2 as int].concavity),
    ensures
        edge_testifies(scene, cast, graph[e.v1 as int], graph[e.v2 as int], e),
{
    let fresh = made(scene, graph, e.timestamp, e.v1, e.v2);
    let costs = choose|costs: Seq<N>| e == #[trigger] refined(scene, cast, graph, fresh, costs);
    assert(edge_testifies(scene, cast, graph[e.v1 as int], graph[e.v2 as int], fresh));
    refining_testifies(scene, cast, graph, fresh, costs);
}

/// Whether no two entries of the list are for the same ray.
pub open spec fn one_entry_each<N>(entries: Seq<VertexWithConcavity<N>>) -> bool {
    forall|i: int, j: int|
        0 <= i < j < entries.len() ==> (#[trigger] entries[i]).id != (#[trigger] entries[j]).id
}

/// Each ray of a list has an entry among the first ones of its runs.
proof fn runs_keep_rays<N>(list: Seq<VertexWithConcavity<N>>, k: int)
    requires
        0 <= k < list.len(),
        forall|i: int| 0 <= i < list.len() ==> (#[trigger] list[i]).id < usize::MAX,
    ensures
        lists(first_of_runs(list), list[k].id),
    decreases list.len(),
{
    let shorter = list.drop_last();
    let before = first_of_runs(shorter);
    let (full, id) = (first_of_runs(list), list[k].id);
    assert forall|i: int| 0 <= i < shorter.len() implies (#[trigger] shorter[i]).id < usize::MAX by {
        assert(list[i].id < usize::MAX);
    }
    assert(list[list.len() - 1].id < usize::MAX);
    if last_id(shorter) == list.last().id {
        let j = if k < shorter.len() {
            k
        } else {
            shorter.len() - 1
        };
        runs_keep_rays(shorter, j);
    } else if k < shorter.len() {
        runs_keep_rays(shorter, k);
        let m = choose|m: int| 0 <= m < before.len() && (#[trigger] before[m]).id == id;
        assert(full[m].id == id);
    } else {
        assert(full[before.len() as int].id == id);
    }
}

/// In a descending list in which each ray always has the same concavity, the first ones of the
/// runs are for different rays.
proof fn runs_differ<N: Scalar>(list: Seq<VertexWithConcavity<N>>)
    requires
        descending::<VertexWithConcavity<N>>(list),
        forall|i: int, j: int|
            0 <= i < list.len() && 0 <= j < list.len() && (#[trigger] list[i]).id == (
            #[trigger] list[j]).id ==> list[i] == list[j],
    ensures
        one_entry_each(first_of_runs(list)),
        forall|k: int|
            0 <= k < first_of_runs(list).len() ==> list.contains(#[trigger] first_of_runs(list)[k]),
    decreases list.len(),
{
    if list.len() > 0 {
        let shorter = list.drop_last();
        let before = first_of_runs(shorter);
        let full = first_of_runs(list);
        let last = list.len() - 1;
        assert forall|i: int, j: int|
            0 <= i < shorter.len() && 0 <= j < shorter.len() && (#[trigger] shorter[i]).id == (
            #[trigger] shorter[j]).id implies shorter[i] == shorter[j] by {
            assert(list[i].id == list[j].id);
        }
        runs_differ(shorter);
        assert forall|k: int| 0 <= k < full.len() implies list.contains(#[trigger] full[k]) by {
            if k < before.len() {
                assert(shorter.contains(before[k]));
                let m = choose|m: int| 0 <= m < shorter.len() && shorter[m] == before[k];
                assert(list[m] == before[k]);
            } else {
                assert(list[last] == full[k]);
            }
        }
        assert forall|i: int, j: int| 0 <= i < j < full.len() implies (#[trigger] full[i]).id != (
        #[trigger] full[j]).id by {
            if j < before.len() {
                assert(before[i].id != before[j].id);
            } else {
                assert(shorter.contains(before[i]));
                let m = choose|m: int| 0 <= m < shorter.len() && shorter[m] == before[i];
                assert(list[m] == before[i]);
                if list[m].id == list[last].id {
                    assert(list[m] == list[last]);
                    if m < last - 1 {
                        later_is_not_above::<VertexWithConcavity<N>>(list, m, last - 1);
                        later_is_not_above::<VertexWithConcavity<N>>(list, last - 1, last);
                        assert(list[last - 1].id == list[last].id);
                    }
                    assert(shorter.last() == list[last - 1]);
                }
            }
        }
    }
}

/// Whether what a part holds is what the rays show: its concavity is zero at least, and not
/// exceeded along any of its rays; each of its rays has an entry, unless it has no direction;
/// and once it is more than a triangle no ray has two entries.
pub open spec fn part_testifies<N: Scalar>(scene: SceneModel<N>, v: VertexModel<N>) -> bool {
    &&& rank(zero::<N>()) <= rank(v.concavity)
    &&& forall|k: int|
        0 <= k < v.ancestors->0.len() ==> rank((#[trigger] v.ancestors->0[k]).concavity) <= rank(
            v.concavity,
        )
    &&& forall|r: usize| #[trigger]
        v.uancestors->0.contains(r) ==> scene.rays[r as int].dir.vanishes() || lists(
            v.ancestors->0,
            r,
        )
    &&& v.timestamp > 0 ==> one_entry_each(v.ancestors->0)
}

/// The ranked entries of an edge that keeps to what the rays show are for different rays, and
/// for all rays of the edge.
pub proof fn ranked_entries_testify<N: Scalar>(
    entries: Seq<VertexWithConcavity<N>>,
    all: Multiset<VertexWithConcavity<N>>,
)
    requires
        ranked(entries, all),
        forall|x: VertexWithConcavity<N>, y: VertexWithConcavity<N>| #[trigger]
            all.contains(x) && #[trigger] all.contains(y) && x.id == y.id ==> x == y,
        forall|x: VertexWithConcavity<N>| #[trigger] all.contains(x) ==> x.id < usize::MAX,
    ensures
        one_entry_each(entries),
        forall|id: usize| #[trigger] has_entry(all, id) ==> lists(entries, id),
{
    let list = choose|list: Seq<VertexWithConcavity<N>>|
        {
            &&& #[trigger] list.to_multiset() == all
            &&& descending::<VertexWithConcavity<N>>(list)
            &&& entries == first_of_runs(list)
        };
    list.to_multiset_ensures();
    assert forall|i: int, j: int|
        0 <= i < list.len() && 0 <= j < list.len() && (#[trigger] list[i]).id == (
        #[trigger] list[j]).id implies list[i] == list[j] by {
        assert(list.contains(list[i]) && list.contains(list[j]));
        assert(all.contains(list[i]) && all.contains(list[j]));
    }
    assert forall|i: int| 0 <= i < list.len() implies (#[trigger] list[i]).id < usize::MAX by {
        assert(list.contains(list[i]));
        assert(all.contains(list[i]));
    }
    runs_differ(list);
    assert forall|id: usize| #[trigger] has_entry(all, id) implies lists(entries, id) by {
        let x = choose|x: VertexWithConcavity<N>| #[trigger] all.contains(x) && x.id == id;
        assert(list.contains(x));
        let k = choose|k: int| 0 <= k < list.len() && list[k] == x;
        runs_keep_rays(list, k);
    }
}

/// A part made of two parts that keep to what the rays show does so as well.
proof fn contraction_testifies<N: Scalar, C: Fn(&ConvexPair<N>, &Ray<N>) -> Option<N>>(
    scene: SceneModel<N>,
    cast: C,
    pre: Phase<N>,
    rest: Multiset<EdgeModel<N>>,
    full: EdgeModel<N>,
    ancestors: Seq<VertexWithConcavity<N>>,
    chull: MeshModel<N>,
)
    requires
        scene.rays.len() <= usize::MAX,
        full.v1 < full.v2,
        full.v2 < pre.graph.len(),
        pre.time + 1 <= usize::MAX,
        full.exact,
        full.iv1 >= pre.graph[full.v1 as int].ancestors->0.len(),
        full.iv2 >= pre.graph[full.v2 as int].ancestors->0.len(),
        entries_known(full, scene.rays.len()),
        ranked(ancestors, full.ancestors),
        edge_testifies(scene, cast, pre.graph[full.v1 as int], pre.graph[full.v2 as int], full),
        part_testifies(scene, pre.graph[full.v1 as int]),
        part_testifies(scene, pre.graph[full.v2 as int]),
    ensures
        part_testifies(
            scene,
            pre.after_contraction(scene, rest, full, ancestors, chull).graph[full.v1 as int],
        ),
{
    let (a, b) = (pre.graph[full.v1 as int], pre.graph[full.v2 as int]);
    let post = pre.after_contraction(scene, rest, full, ancestors, chull);
    let v = post.graph[full.v1 as int];
    assert(v.ancestors->0 == ancestors && v.concavity == full.concavity);
    ranked_are_entries(ancestors, full.ancestors);
    ranked_entries_testify(ancestors, full.ancestors);
    assert forall|r: usize| #[trigger] v.uancestors->0.contains(r) implies scene.rays[r as int].dir.vanishes()
        || lists(v.ancestors->0, r) by {
        if !scene.rays[r as int].dir.vanishes() {
            if a.uancestors->0.contains(r) {
                assert(lists(a.ancestors->0, r));
                let k = choose|k: int|
                    0 <= k < a.ancestors->0.len() && (#[trigger] a.ancestors->0[k]).id == r;
                assert(accounted(full, scene.rays, a.ancestors->0[k].id));
            } else {
                assert(b.uancestors->0.contains(r));
                assert(lists(b.ancestors->0, r));
                let k = choose|k: int|
                    0 <= k < b.ancestors->0.len() && (#[trigger] b.ancestors->0[k]).id == r;
                assert(accounted(full, scene.rays, b.ancestors->0[k].id));
            }
            assert(has_entry(full.ancestors, r));
        }
    }
}

/// A single triangle keeps to what the rays show.
proof fn triangles_testify<N: Scalar>(mesh: MeshModel<N>, error: N, i: int)
    ensures
        part_testifies(mesh.scene(error), mesh.dual_vertex(mesh.ray_ids(), i)),
{
    let v = mesh.dual_vertex(mesh.ray_ids(), i);
    let list = v.ancestors->0;
    assert forall|r: usize| #[trigger] v.uancestors->0.contains(r) implies lists(list, r) by {
        assert(list[0].id == r || list[1].id == r || list[2].id == r);
    }
}

/// Whether each part keeps to what the rays show.
pub open spec fn graph_testifies<N: Scalar>(scene: SceneModel<N>, graph: Seq<VertexModel<N>>) -> bool {
    forall|k: int|
        0 <= k < graph.len() && graph[k].alive() ==> part_testifies(scene, #[trigger] graph[k])
}

/// The edge that a pass contracts keeps to what the rays show.
pub proof fn contracted_edges_testify<
    N: Scalar,
    C: Fn(&ConvexPair<N>, &Ray<N>) -> Option<N>,
    H: Fn(&[Pnt3<N>]) -> TriMesh<N>,
>(scene: SceneModel<N>, cast: C, hull: H, pre: Phase<N>, post: Phase<N>, pass: Pass<N>)
    requires
        pass.explains(scene, cast, hull, pre, Outcome::Contracted, post),
        pre.sound(scene),
        attended(scene, cast, pre),
        graph_testifies(scene, pre.graph),
    ensures
        edge_testifies(
            scene,
            cast,
            pre.graph[pass.full.v1 as int],
            pre.graph[pass.full.v2 as int],
            pass.full,
        ),
{
    let g = pre.graph;
    let (edge, bounded, full) = (pass.edge, pass.bounded, pass.full);
    if !edge.exact {
        evaluated_stems(scene, cast, g, edge, opposite(pass.limit));
    }
    evaluated_stems(scene, cast, g, bounded, top());
    assert(part_testifies(scene, g[full.v1 as int]) && part_testifies(scene, g[full.v2 as int]));
    edges_testify(scene, cast, g, full);
}

/// A pass that makes one part of two keeps to what the rays show.
proof fn passes_testify<
    N: Scalar,
    C: Fn(&ConvexPair<N>, &Ray<N>) -> Option<N>,
    H: Fn(&[Pnt3<N>]) -> TriMesh<N>,
>(scene: SceneModel<N>, cast: C, hull: H, pre: Phase<N>, post: Phase<N>)
    requires
        scene.rays.len() <= usize::MAX,
        finds_rays(scene.leaves, scene.rays.len()),
        pre.sound(scene),
        attended(scene, cast, pre),
        graph_testifies(scene, pre.graph),
        passes(scene, cast, hull, pre, Outcome::Contracted, post),
    ensures
        graph_testifies(scene, post.graph),
{
    let (g, h) = (pre.graph, post.graph);
    let pass = pass_explained(scene, cast, hull, pre, Outcome::Contracted, post);
    let full = pass.full;
    let rest = pre.edges.remove(pass.edge);
    valid_edges_live(scene, pre, pass.edge);
    contracted_edges_testify(scene, cast, hull, pre, post, pass);
    assert(part_testifies(scene, g[full.v1 as int]) && part_testifies(scene, g[full.v2 as int]));
    let chull = enclosure(hull, hull_points(g, full));
    let ancestors = contraction_explained(scene, hull, pre, rest, full, post);
    assert(full.through(g[full.v1 as int].ancestors->0, g[full.v2 as int].ancestors->0));
    contraction_testifies(scene, cast, pre, rest, full, ancestors, chull);
    assert forall|k: int| 0 <= k < h.len() && h[k].alive() implies part_testifies(
        scene,
        #[trigger] h[k],
    ) by {
        if k != full.v1 {
            assert(part_testifies(scene, g[k]));
        }
    }
}

/// At every moment of a decimation each part keeps to what the rays show: its concavity is not
/// exceeded along any of its rays, none of its rays has been lost, and once it is more than a
/// triangle no ray is listed twice.
pub proof fn parts_testify<
    N: Scalar,
    C: Fn(&ConvexPair<N>, &Ray<N>) -> Option<N>,
    H: Fn(&[Pnt3<N>]) -> TriMesh<N>,
>(
    mesh: MeshModel<N>,
    error: N,
    min_components: nat,
    cast: C,
    hull: H,
    trace: Seq<Phase<N>>,
    i: int,
)
    requires
        mesh.complete(),
        mesh.countable(),
        decimates(mesh, error, min_components, cast, hull, trace),
        0 <= i < trace.len(),
    ensures
        graph_testifies(mesh.scene(error), trace[i].graph),
    decreases i,
{
    let scene = mesh.scene(error);
    let h = trace[i].graph;
    if i == 0 {
        assert forall|k: int| 0 <= k < h.len() && h[k].alive() implies part_testifies(
            scene,
            #[trigger] h[k],
        ) by {
            triangles_testify(mesh, error, k);
        }
    } else {
        parts_testify(mesh, error, min_components, cast, hull, trace, i - 1);
        states_are_sound(mesh, error, min_components, cast, hull, trace, i - 1);
        neighbors_are_attended(mesh, error, min_components, cast, hull, trace, i - 1);
        let outcome = pass_at(mesh, error, min_components, cast, hull, trace, i - 1);
        let effect = passes_join_or_keep(scene, cast, hull, trace[i - 1], outcome, trace[i]);
        if outcome == Outcome::Contracted {
            passes_testify(scene, cast, hull, trace[i - 1], trace[i]);
        }
    }
}

} // verus!
