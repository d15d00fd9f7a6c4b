//! Which rays an evaluation takes into account, and in which order.
use crate::aabb::AABB;
use crate::ancestor::VertexWithConcavity;
use crate::bvt::{interferences, interferences_are_the_meeting_leaves};
use crate::casting::{accounted, edges_testify, has_entry, lists, part_testifies, verdict};
use crate::decimation::SceneModel;
use crate::edge::EdgeModel;
use crate::kernel::{time_of_impact, ConvexPair, PairModel};
use crate::linalg::Pnt3;
use crate::maximal::{made, refined, stems};
use crate::rays::{ray_leaves, Ray};
use crate::scalar::{rank, vanishes, Scalar};
use crate::vertex::VertexModel;
use vstd::prelude::*;

verus! {

/// Whether the point lies in every box that holds the two boxes: no coordinate is below those of
/// both lowest corners, or above those of both highest corners.
pub open spec fn lies_between<N: Scalar>(p: Pnt3<N>, a: AABB<N>, b: AABB<N>) -> bool {
    &&& rank(a.mins.x) <= rank(p.x) || rank(b.mins.x) <= rank(p.x)
    &&& rank(a.mins.y) <= rank(p.y) || rank(b.mins.y) <= rank(p.y)
    &&& rank(a.mins.z) <= rank(p.z) || rank(b.mins.z) <= rank(p.z)
    &&& rank(p.x) <= rank(a.maxs.x) || rank(p.x) <= rank(b.maxs.x)
    &&& rank(p.y) <= rank(a.maxs.y) || rank(p.y) <= rank(b.maxs.y)
    &&& rank(p.z) <= rank(a.maxs.z) || rank(p.z) <= rank(b.maxs.z)
}

/// The hulls of two parts.
pub open spec fn hulls<N>(v1: VertexModel<N>, v2: VertexModel<N>) -> PairModel<N> {
    PairModel { a: v1.chull->0.coords, b: v2.chull->0.coords }
}

/// Whether the ray has a direction, and starts inside of the hull of the two parts.
pub open spec fn starts_inside<N: Scalar, C: Fn(&ConvexPair<N>, &Ray<N>) -> Option<N>>(
    cast: C,
    v1: VertexModel<N>,
    v2: VertexModel<N>,
    ray: Ray<N>,
) -> bool {
    &&& !ray.dir.vanishes()
    &&& lies_between(ray.orig, v1.aabb, v2.aabb)
    &&& time_of_impact(cast, hulls(v1, v2), ray) is Some
    &&& vanishes(time_of_impact(cast, hulls(v1, v2), ray)->0)
}

/// Whether there is a reason to cast ray `id`: it has a direction, and one of the two parts lists
/// it, or it starts inside of their hull.
pub open spec fn called_for<N: Scalar, C: Fn(&ConvexPair<N>, &Ray<N>) -> Option<N>>(
    cast: C,
    v1: VertexModel<N>,
    v2: VertexModel<N>,
    rays: Seq<Ray<N>>,
    id: usize,
) -> bool {
    &&& !rays[id as int].dir.vanishes()
    &&& lists(v1.ancestors->0, id) || lists(v2.ancestors->0, id) || starts_inside(
        cast,
        v1,
        v2,
        rays[id as int],
    )
}

/// Whether the concavities of the entries fall along the list.
pub open spec fn falls<N: Scalar>(entries: Seq<VertexWithConcavity<N>>) -> bool {
    forall|i: int, j: int|
        0 <= i < j < entries.len() ==> rank((#[trigger] entries[j]).concavity) <= rank(
            (#[trigger] entries[i]).concavity,
        )
}

/// Whether no entry that has been taken into account is less concave than one of the other list
/// that has not, and those of the second list come first where two are equally concave.
pub open spec fn deepest_first<N: Scalar>(
    e: EdgeModel<N>,
    a1: Seq<VertexWithConcavity<N>>,
    a2: Seq<VertexWithConcavity<N>>,
) -> bool {
    &&& forall|i: int, j: int|
        0 <= i < e.iv1 && i < a1.len() && e.iv2 <= j < a2.len() ==> rank((#[trigger] a2[j]).concavity)
            < rank((#[trigger] a1[i]).concavity)
    &&& forall|i: int, j: int|
        e.iv1 <= i < a1.len() && 0 <= j < e.iv2 && j < a2.len() ==> rank((#[trigger] a1[i]).concavity)
            <= rank((#[trigger] a2[j]).concavity)
}

/// Whether every ray that starts inside has an entry, or is one of those that the parts know.
pub open spec fn inside_covered<N: Scalar, C: Fn(&ConvexPair<N>, &Ray<N>) -> Option<N>>(
    e: EdgeModel<N>,
    cast: C,
    v1: VertexModel<N>,
    v2: VertexModel<N>,
    rays: Seq<Ray<N>>,
) -> bool {
    forall|r: usize|
        r < rays.len() && #[trigger] starts_inside(cast, v1, v2, rays[r as int])
            ==> v1.uancestors->0.contains(r) || v2.uancestors->0.contains(r) || has_entry(
            e.ancestors,
            r,
        )
}

/// Whether an edge has taken those rays into account that it should have.
pub open spec fn surveys<N: Scalar, C: Fn(&ConvexPair<N>, &Ray<N>) -> Option<N>>(
    e: EdgeModel<N>,
    cast: C,
    v1: VertexModel<N>,
    v2: VertexModel<N>,
    rays: Seq<Ray<N>>,
) -> bool {
    let (a1, a2) = (v1.ancestors->0, v2.ancestors->0);
    &&& e.iv1 <= a1.len()
    &&& e.iv2 <= a2.len()
    &&& e.exact ==> e.iray_cast && e.through(a1, a2)
    &&& e.iray_cast ==> inside_covered(e, cast, v1, v2, rays)
    &&& forall|x: VertexWithConcavity<N>| #[trigger]
        e.ancestors.contains(x) ==> called_for(cast, v1, v2, rays, x.id)
    &&& falls(a1) && falls(a2) ==> deepest_first(e, a1, a2)
}

/// Casting a ray adds its entry, and changes no other.
proof fn probing_adds<N: Scalar, C: Fn(&ConvexPair<N>, &Ray<N>) -> Option<N>>(
    e: EdgeModel<N>,
    cast: C,
    pair: PairModel<N>,
    ray: Ray<N>,
    id: usize,
)
    ensures
        ({
            let r = e.probed(cast, pair, ray, id);
            &&& has_entry(r.ancestors, id)
            &&& forall|other: usize| #[trigger]
                has_entry(e.ancestors, other) ==> has_entry(r.ancestors, other)
            &&& forall|x: VertexWithConcavity<N>| #[trigger]
                r.ancestors.contains(x) ==> e.ancestors.contains(x) || x.id == id
            &&& r.iv1 == e.iv1
            &&& r.iv2 == e.iv2
            &&& r.iray_cast == e.iray_cast
            &&& r.exact == e.exact
        }),
{
    let r = e.probed(cast, pair, ray, id);
    let entry = VertexWithConcavity { id, concavity: verdict(cast, pair, ray) };
    assert(r.ancestors == e.ancestors.insert(entry));
    assert(r.ancestors.contains(entry));
    assert forall|other: usize| #[trigger] has_entry(e.ancestors, other) implies has_entry(
        r.ancestors,
        other,
    ) by {
        let x = choose|x: VertexWithConcavity<N>| #[trigger] e.ancestors.contains(x) && x.id == other;
        assert(r.ancestors.contains(x));
    }
}

/// Casting the next ray keeps to the rays that are called for, and to their order.
proof fn next_ray_surveys<N: Scalar, C: Fn(&ConvexPair<N>, &Ray<N>) -> Option<N>>(
    e: EdgeModel<N>,
    cast: C,
    v1: VertexModel<N>,
    v2: VertexModel<N>,
    rays: Seq<Ray<N>>,
)
    requires
        surveys(e, cast, v1, v2, rays),
        !e.through(v1.ancestors->0, v2.ancestors->0),
    ensures
        ({
            let r = e.next_ray_cast(cast, hulls(v1, v2), v1.ancestors->0, v2.ancestors->0, rays);
            &&& surveys(r, cast, v1, v2, rays)
            &&& r.iray_cast == e.iray_cast
        }),
{
    let (a1, a2) = (v1.ancestors->0, v2.ancestors->0);
    let pair = hulls(v1, v2);
    let first = e.iv1 < a1.len() && (e.iv2 >= a2.len() || rank(a2[e.iv2 as int].concavity) < rank(
        a1[e.iv1 as int].concavity,
    ));
    let id = if first {
        a1[e.iv1 as int].id
    } else {
        a2[e.iv2 as int].id
    };
    let advanced = if first {
        EdgeModel { iv1: e.iv1 + 1, ..e }
    } else {
        EdgeModel { iv2: e.iv2 + 1, ..e }
    };
    let r = e.next_ray_cast(cast, pair, a1, a2, rays);
    probing_adds(advanced, cast, pair, rays[id as int], id);
    assert(lists(a1, id) || lists(a2, id)) by {
        if first {
            assert(a1[e.iv1 as int].id == id);
        } else {
            assert(a2[e.iv2 as int].id == id);
        }
    }
    assert forall|x: VertexWithConcavity<N>| #[trigger] r.ancestors.contains(x) implies called_for(
        cast,
        v1,
        v2,
        rays,
        x.id,
    ) by {
        if e.ancestors.contains(x) {
            assert(called_for(cast, v1, v2, rays, x.id));
        }
    }
    if falls(a1) && falls(a2) {
        assert(deepest_first(r, a1, a2));
    }
}

/// Casting the known rays keeps to the rays that are called for, and to their order.
proof fn known_rays_survey<N: Scalar, C: Fn(&ConvexPair<N>, &Ray<N>) -> Option<N>>(
    e: EdgeModel<N>,
    cast: C,
    v1: VertexModel<N>,
    v2: VertexModel<N>,
    rays: Seq<Ray<N>>,
    bound: N,
)
    requires
        surveys(e, cast, v1, v2, rays),
    ensures
        ({
            let r = e.known_rays_cast(
                cast,
                hulls(v1, v2),
                v1.ancestors->0,
                v2.ancestors->0,
                rays,
                bound,
            );
            &&& surveys(r, cast, v1, v2, rays)
            &&& r.iray_cast == e.iray_cast
        }),
    decreases v1.ancestors->0.len() - e.iv1 + v2.ancestors->0.len() - e.iv2,
{
    let (a1, a2) = (v1.ancestors->0, v2.ancestors->0);
    if !(e.through(a1, a2) || rank(bound) < rank(e.concavity)) {
        next_ray_surveys(e, cast, v1, v2, rays);
        let next = e.next_ray_cast(cast, hulls(v1, v2), a1, a2, rays);
        assert(a1.len() - next.iv1 + a2.len() - next.iv2 < a1.len() - e.iv1 + a2.len() - e.iv2);
        known_rays_survey(next, cast, v1, v2, rays, bound);
    }
}

/// Casting the rays of a list that start inside gives each of them an entry, and no other ray.
proof fn inner_rays_survey<N: Scalar, C: Fn(&ConvexPair<N>, &Ray<N>) -> Option<N>>(
    e: EdgeModel<N>,
    cast: C,
    v1: VertexModel<N>,
    v2: VertexModel<N>,
    rays: Seq<Ray<N>>,
    ids: Seq<usize>,
)
    requires
        forall|x: VertexWithConcavity<N>| #[trigger]
            e.ancestors.contains(x) ==> called_for(cast, v1, v2, rays, x.id),
        forall|k: int|
            0 <= k < ids.len() ==> lies_between(
                rays[#[trigger] ids[k] as int].orig,
                v1.aabb,
                v2.aabb,
            ),
    ensures
        ({
            let known = v1.uancestors->0.union(v2.uancestors->0);
            let r = e.inner_rays_cast(cast, hulls(v1, v2), known, rays, ids);
            &&& r.iv1 == e.iv1
            &&& r.iv2 == e.iv2
            &&& r.iray_cast == e.iray_cast
            &&& r.exact == e.exact
            &&& forall|x: VertexWithConcavity<N>| #[trigger]
                r.ancestors.contains(x) ==> called_for(cast, v1, v2, rays, x.id)
            &&& forall|other: usize| #[trigger]
                has_entry(e.ancestors, other) ==> has_entry(r.ancestors, other)
            &&& forall|k: int|
                0 <= k < ids.len() && !known.contains(#[trigger] ids[k]) && starts_inside(
                    cast,
                    v1,
                    v2,
                    rays[ids[k] as int],
                ) ==> has_entry(r.ancestors, ids[k])
        }),
    decreases ids.len(),
{
    let known = v1.uancestors->0.union(v2.uancestors->0);
    let pair = hulls(v1, v2);
    let r = e.inner_rays_cast(cast, pair, known, rays, ids);
    if ids.len() > 0 {
        let shorter = ids.drop_last();
        assert forall|k: int| 0 <= k < shorter.len() implies lies_between(
            rays[#[trigger] shorter[k] as int].orig,
            v1.aabb,
            v2.aabb,
        ) by {
            assert(shorter[k] == ids[k]);
        }
        inner_rays_survey(e, cast, v1, v2, rays, shorter);
        let before = e.inner_rays_cast(cast, pair, known, rays, shorter);
        let id = ids.last();
        assert(id == ids[ids.len() - 1]);
        probing_adds(before, cast, pair, rays[id as int], id);
        assert forall|x: VertexWithConcavity<N>| #[trigger] r.ancestors.contains(x) implies called_for(
            cast,
            v1,
            v2,
            rays,
            x.id,
        ) by {
            if before.ancestors.contains(x) {
                assert(called_for(cast, v1, v2, rays, x.id));
            }
        }
        assert forall|k: int|
            0 <= k < ids.len() && !known.contains(#[trigger] ids[k]) && starts_inside(
                cast,
                v1,
                v2,
                rays[ids[k] as int],
            ) implies has_entry(r.ancestors, ids[k]) by {
            if k < shorter.len() {
                assert(shorter[k] == ids[k]);
                assert(has_entry(before.ancestors, ids[k]));
            }
        }
    }
}

/// An evaluation takes those rays into account that it should: the ones that a part lists, from
/// the most concave down, and, once these are through, the ones that start inside.
pub proof fn evaluations_survey<N: Scalar, C: Fn(&ConvexPair<N>, &Ray<N>) -> Option<N>>(
    cast: C,
    v1: VertexModel<N>,
    v2: VertexModel<N>,
    rays: Seq<Ray<N>>,
    e: EdgeModel<N>,
    max_cost: N,
    max_concavity: N,
)
    requires
        rays.len() <= usize::MAX,
        surveys(e, cast, v1, v2, rays),
    ensures
        surveys(
            e.evaluated(cast, v1, v2, rays, ray_leaves(rays), max_cost, max_concavity),
            cast,
            v1,
            v2,
            rays,
        ),
{
    let (a1, a2) = (v1.ancestors->0, v2.ancestors->0);
    let pair = hulls(v1, v2);
    let leaves = ray_leaves(rays);
    let bound = e.bound(max_cost, max_concavity);
    known_rays_survey(e, cast, v1, v2, rays, bound);
    let outer = e.known_rays_cast(cast, pair, a1, a2, rays, bound);
    let marked = EdgeModel { iray_cast: true, ..outer };
    let known = v1.uancestors->0.union(v2.uancestors->0);
    let volume = v1.aabb.hull(v2.aabb);
    let ids = interferences(leaves, volume);
    assert forall|k: int| 0 <= k < ids.len() implies lies_between(
        rays[#[trigger] ids[k] as int].orig,
        v1.aabb,
        v2.aabb,
    ) by {
        assert(ids.contains(ids[k]));
        interferences_are_the_meeting_leaves(leaves, volume, ids[k]);
        let i = choose|i: int|
            0 <= i < leaves.len() && #[trigger] leaves[i].0 == ids[k] && leaves[i].1.meets(volume);
        assert(leaves[i].0 == i);
    }
    inner_rays_survey(marked, cast, v1, v2, rays, ids);
    let r = e.evaluated(cast, v1, v2, rays, leaves, max_cost, max_concavity);
    if !outer.iray_cast && outer.through(a1, a2) {
        let all = marked.inner_rays_cast(cast, pair, known, rays, ids);
        assert(r.ancestors == all.ancestors && r.iv1 == all.iv1 && r.iv2 == all.iv2);
        assert(inside_covered(r, cast, v1, v2, rays)) by {
            assert forall|s: usize|
                s < rays.len() && #[trigger] starts_inside(cast, v1, v2, rays[s as int])
                    && !v1.uancestors->0.contains(s) && !v2.uancestors->0.contains(
                    s,
                ) implies has_entry(r.ancestors, s) by {
                interferences_are_the_meeting_leaves(leaves, volume, s);
                assert(leaves[s as int].0 == s && leaves[s as int].1.meets(volume));
                let k = choose|k: int| 0 <= k < ids.len() && ids[k] == s;
                assert(!known.contains(ids[k]));
            }
        }
    } else {
        assert(r.ancestors == outer.ancestors && r.iv1 == outer.iv1 && r.iv2 == outer.iv2);
    }
    if falls(a1) && falls(a2) {
        assert(deepest_first(outer, a1, a2));
        assert(deepest_first(r, a1, a2));
    }
}

proof fn refining_surveys<N: Scalar, C: Fn(&ConvexPair<N>, &Ray<N>) -> Option<N>>(
    scene: SceneModel<N>,
    cast: C,
    graph: Seq<VertexModel<N>>,
    e: EdgeModel<N>,
    costs: Seq<N>,
)
    requires
        scene.rays.len() <= usize::MAX,
        scene.leaves == ray_leaves(scene.rays),
        surveys(e, cast, graph[e.v1 as int], graph[e.v2 as int], scene.rays),
    ensures
        surveys(
            refined(scene, cast, graph, e, costs),
            cast,
            graph[e.v1 as int],
            graph[e.v2 as int],
            scene.rays,
        ),
    decreases costs.len(),
{
    if costs.len() > 0 {
        refining_surveys(scene, cast, graph, e, costs.drop_last());
        evaluations_survey(
            cast,
            graph[e.v1 as int],
            graph[e.v2 as int],
            scene.rays,
            refined(scene, cast, graph, e, costs.drop_last()),
            costs.last(),
            scene.error,
        );
    }
}

/// What evaluations make of the edge between two parts has taken those rays into account that it
/// should: an entry is for a ray that a part lists or that starts inside, and of the rays that the
/// parts list, the most concave come first.
pub proof fn edges_survey<N: Scalar, C: Fn(&ConvexPair<N>, &Ray<N>) -> Option<N>>(
    scene: SceneModel<N>,
    cast: C,
    graph: Seq<VertexModel<N>>,
    e: EdgeModel<N>,
)
    requires
        scene.rays.len() <= usize::MAX,
        scene.leaves == ray_leaves(scene.rays),
        e.v1 < e.v2,
        stems(scene, cast, graph, e),
    ensures
        surveys(e, cast, graph[e.v1 as int], graph[e.v2 as int], scene.rays),
{
    let fresh = made(scene, graph, e.timestamp, e.v1, e.v2);
    let costs = choose|costs: Seq<N>| e == #[trigger] refined(scene, cast, graph, fresh, costs);
    assert(surveys(fresh, cast, graph[e.v1 as int], graph[e.v2 as int], scene.rays));
    refining_surveys(scene, cast, graph, fresh, costs);
}

/// An edge that is exact has an entry for every ray that starts inside of the hull of its two
/// parts, and is at least as concave as that ray shows.
///
/// The rays in question are those with a direction whose origin lies in every box that holds both
/// parts, and which hit the hull at once.
pub proof fn exact_edges_account_for_inner_rays<
    N: Scalar,
    C: Fn(&ConvexPair<N>, &Ray<N>) -> Option<N>,
>(scene: SceneModel<N>, cast: C, graph: Seq<VertexModel<N>>, e: EdgeModel<N>, r: usize)
    requires
        scene.rays.len() <= usize::MAX,
        scene.leaves == ray_leaves(scene.rays),
        e.v1 < e.v2,
        stems(scene, cast, graph, e),
        part_testifies(scene, graph[e.v1 as int]),
        part_testifies(scene, graph[e.v2 as int]),
        e.exact,
        r < scene.rays.len(),
        !scene.rays[r as int].dir.vanishes(),
        lies_between(
            scene.rays[r as int].orig,
            graph[e.v1 as int].aabb,
            graph[e.v2 as int].aabb,
        ),
        ({
            let pair = PairModel {
                a: graph[e.v1 as int].chull->0.coords,
                b: graph[e.v2 as int].chull->0.coords,
            };
            let toi = time_of_impact(cast, pair, scene.rays[r as int]);
            toi is Some && vanishes(toi->0)
        }),
    ensures
        has_entry(e.ancestors, r),
        ({
            let pair = PairModel {
                a: graph[e.v1 as int].chull->0.coords,
                b: graph[e.v2 as int].chull->0.coords,
            };
            rank(verdict(cast, pair, scene.rays[r as int])) <= rank(e.concavity)
        }),
{
    let (v1, v2) = (graph[e.v1 as int], graph[e.v2 as int]);
    let (a1, a2) = (v1.ancestors->0, v2.ancestors->0);
    edges_survey(scene, cast, graph, e);
    edges_testify(scene, cast, graph, e);
    assert(starts_inside(cast, v1, v2, scene.rays[r as int]));
    if v1.uancestors->0.contains(r) {
        assert(lists(a1, r));
        let k = choose|k: int| 0 <= k < a1.len() && (#[trigger] a1[k]).id == r;
        assert(accounted(e, scene.rays, a1[k].id));
    } else if v2.uancestors->0.contains(r) {
        assert(lists(a2, r));
        let k = choose|k: int| 0 <= k < a2.len() && (#[trigger] a2[k]).id == r;
        assert(accounted(e, scene.rays, a2[k].id));
    }
    assert(has_entry(e.ancestors, r));
    let x = choose|x: VertexWithConcavity<N>| #[trigger] e.ancestors.contains(x) && x.id == r;
    assert(x.concavity == verdict(cast, hulls(v1, v2), scene.rays[r as int]));
}

} // verus!
