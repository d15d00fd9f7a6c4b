//! How many entries an evaluation makes, and when it stops.
use crate::aabb::AABB;
use crate::ancestor::VertexWithConcavity;
use crate::bvt::{interferences, interferences_are_the_meeting_leaves};
use crate::casting::verdict;
use crate::decimation::SceneModel;
use crate::edge::EdgeModel;
use crate::kernel::{ConvexPair, PairModel};
use crate::maximal::{made, refined, stems};
use crate::rays::{ray_leaves, Ray};
use crate::scalar::{minus, rank, times, Scalar};
use crate::survey::{hulls, lies_between, starts_inside};
use crate::vertex::VertexModel;
use vstd::multiset::Multiset;
use vstd::prelude::*;

verus! {

/// The number of entries for ray `r`.
pub open spec fn entries_for<N>(entries: Multiset<VertexWithConcavity<N>>, r: usize) -> nat {
    entries.filter(|x: VertexWithConcavity<N>| x.id == r).len()
}

/// The number of entries for ray `r` among the first ones of a list.
pub open spec fn listed_first<N>(list: Seq<VertexWithConcavity<N>>, count: nat, r: usize) -> nat
    decreases count,
{
    if count == 0 {
        0
    } else {
        listed_first(list, (count - 1) as nat, r) + if list[count - 1].id == r {
            1nat
        } else {
            0
        }
    }
}

/// The number of entries that an edge should have for ray `r`: none where the ray has no direction;
/// otherwise one for each time that a part lists it, as far as its list has been taken into account,
/// and one more where the rays inside have been cast, the ray starts there, and it is not one of
/// those of the corners of a part.
pub open spec fn due<N: Scalar, C: Fn(&ConvexPair<N>, &Ray<N>) -> Option<N>>(
    e: EdgeModel<N>,
    cast: C,
    v1: VertexModel<N>,
    v2: VertexModel<N>,
    rays: Seq<Ray<N>>,
    r: usize,
) -> nat {
    if rays[r as int].dir.vanishes() {
        0
    } else {
        listed_first(v1.ancestors->0, e.iv1, r) + listed_first(v2.ancestors->0, e.iv2, r) + if e.iray_cast
            && !v1.uancestors->0.contains(r) && !v2.uancestors->0.contains(r) && starts_inside(
            cast,
            v1,
            v2,
            rays[r as int],
        ) {
            1nat
        } else {
            0
        }
    }
}

/// Whether the edge has the entries that it should have.
pub open spec fn counted<N: Scalar, C: Fn(&ConvexPair<N>, &Ray<N>) -> Option<N>>(
    e: EdgeModel<N>,
    cast: C,
    v1: VertexModel<N>,
    v2: VertexModel<N>,
    rays: Seq<Ray<N>>,
) -> bool {
    &&& e.iv1 <= v1.ancestors->0.len()
    &&& e.iv2 <= v2.ancestors->0.len()
    &&& forall|r: usize|
        r < rays.len() ==> #[trigger] entries_for(e.ancestors, r) == due(e, cast, v1, v2, rays, r)
}

/// One more entry is one more for its ray, and none for another.
proof fn one_more_entry<N>(entries: Multiset<VertexWithConcavity<N>>, x: VertexWithConcavity<N>, r: usize)
    ensures
        entries_for(entries.insert(x), r) == entries_for(entries, r) + if x.id == r {
            1nat
        } else {
            0
        },
{
    let f = |y: VertexWithConcavity<N>| y.id == r;
    let (a, b) = (entries.insert(x).filter(f), entries.filter(f));
    if x.id == r {
        assert(a =~= b.insert(x));
    } else {
        assert(a =~= b);
    }
}

proof fn no_entry<N>(r: usize)
    ensures
        entries_for(Multiset::<VertexWithConcavity<N>>::empty(), r) == 0,
{
    let f = |y: VertexWithConcavity<N>| y.id == r;
    let none = Multiset::<VertexWithConcavity<N>>::empty();
    assert(none.filter(f) =~= none);
}

/// Casting a ray makes one entry for it, and none for another.
proof fn probing_counts<N: Scalar, C: Fn(&ConvexPair<N>, &Ray<N>) -> Option<N>>(
    e: EdgeModel<N>,
    cast: C,
    pair: PairModel<N>,
    ray: Ray<N>,
    id: usize,
    r: usize,
)
    ensures
        ({
            let p = e.probed(cast, pair, ray, id);
            &&& entries_for(p.ancestors, r) == entries_for(e.ancestors, r) + if id == r {
                1nat
            } else {
                0
            }
            &&& p.iv1 == e.iv1
            &&& p.iv2 == e.iv2
            &&& p.iray_cast == e.iray_cast
        }),
{
    let entry = VertexWithConcavity { id, concavity: verdict(cast, pair, ray) };
    assert(e.probed(cast, pair, ray, id).ancestors == e.ancestors.insert(entry));
    one_more_entry(e.ancestors, entry, r);
}

proof fn next_ray_counts<N: Scalar, C: Fn(&ConvexPair<N>, &Ray<N>) -> Option<N>>(
    e: EdgeModel<N>,
    cast: C,
    v1: VertexModel<N>,
    v2: VertexModel<N>,
    rays: Seq<Ray<N>>,
)
    requires
        counted(e, cast, v1, v2, rays),
        !e.through(v1.ancestors->0, v2.ancestors->0),
    ensures
        ({
            let n = e.next_ray_cast(cast, hulls(v1, v2), v1.ancestors->0, v2.ancestors->0, rays);
            &&& counted(n, cast, v1, v2, rays)
            &&& n.iv1 + n.iv2 == e.iv1 + e.iv2 + 1
            &&& n.iray_cast == e.iray_cast
        }),
{
    let (a1, a2) = (v1.ancestors->0, v2.ancestors->0);
    let pair = hulls(v1, v2);
    let first = e.iv1 < a1.len() && (e.iv2 >= a2.len() || rank(a2[e.iv2 as int].concavity) < rank(
        a1[e.iv1 as int].concavity,
    ));
    let id = if first {
        a1[e.iv1 as int].id
    } else {
        a2[e.iv2 as int].id
    };
    let advanced = if first {
        EdgeModel { iv1: e.iv1 + 1, ..e }
    } else {
        EdgeModel { iv2: e.iv2 + 1, ..e }
    };
    let n = e.next_ray_cast(cast, pair, a1, a2, rays);
    probing_counts(advanced, cast, pair, rays[id as int], id, 0);
    assert forall|r: usize| r < rays.len() implies #[trigger] entries_for(n.ancestors, r) == due(
        n,
        cast,
        v1,
        v2,
        rays,
        r,
    ) by {
        assert(entries_for(e.ancestors, r) == due(e, cast, v1, v2, rays, r));
        probing_counts(advanced, cast, pair, rays[id as int], id, r);
    }
}

/// Whether an edge is done with the rays that the parts list, for this bound.
pub open spec fn done<N: Scalar>(
    e: EdgeModel<N>,
    v1: VertexModel<N>,
    v2: VertexModel<N>,
    bound: N,
) -> bool {
    e.through(v1.ancestors->0, v2.ancestors->0) || rank(bound) < rank(e.concavity)
}

/// Casting the known rays goes on as long as the concavity does not exceed the bound, and no
/// longer.
proof fn known_rays_count<N: Scalar, C: Fn(&ConvexPair<N>, &Ray<N>) -> Option<N>>(
    e: EdgeModel<N>,
    cast: C,
    v1: VertexModel<N>,
    v2: VertexModel<N>,
    rays: Seq<Ray<N>>,
    bound: N,
) -> (before: EdgeModel<N>)
    requires
        counted(e, cast, v1, v2, rays),
    ensures
        ({
            let n = e.known_rays_cast(
                cast,
                hulls(v1, v2),
                v1.ancestors->0,
                v2.ancestors->0,
                rays,
                bound,
            );
            &&& counted(n, cast, v1, v2, rays)
            &&& n.iray_cast == e.iray_cast
            &&& done(n, v1, v2, bound)
            &&& done(e, v1, v2, bound) ==> n == e
            &&& !done(e, v1, v2, bound) ==> {
                &&& counted(before, cast, v1, v2, rays)
                &&& !done(before, v1, v2, bound)
                &&& n.iv1 + n.iv2 == before.iv1 + before.iv2 + 1
                &&& before.iray_cast == e.iray_cast
                &&& n == before.next_ray_cast(
                    cast,
                    hulls(v1, v2),
                    v1.ancestors->0,
                    v2.ancestors->0,
                    rays,
                )
            }
        }),
    decreases v1.ancestors->0.len() - e.iv1 + v2.ancestors->0.len() - e.iv2,
{
    let (a1, a2) = (v1.ancestors->0, v2.ancestors->0);
    if !done(e, v1, v2, bound) {
        next_ray_counts(e, cast, v1, v2, rays);
        let next = e.next_ray_cast(cast, hulls(v1, v2), a1, a2, rays);
        let later = known_rays_count(next, cast, v1, v2, rays, bound);
        if done(next, v1, v2, bound) {
            e
        } else {
            later
        }
    } else {
        e
    }
}

/// The rays whose origins meet a box are found once each.
proof fn rays_are_found_once<N: Scalar>(rays: Seq<Ray<N>>, volume: AABB<N>)
    requires
        rays.len() <= usize::MAX,
    ensures
        interferences(ray_leaves(rays), volume).no_duplicates(),
        forall|k: int|
            0 <= k < interferences(ray_leaves(rays), volume).len() ==> #[trigger] interferences(
                ray_leaves(rays),
                volume,
            )[k] < rays.len(),
    decreases rays.len(),
{
    if rays.len() > 0 {
        let shorter = rays.drop_last();
        rays_are_found_once(shorter, volume);
        assert(ray_leaves(rays).drop_last() =~= ray_leaves(shorter));
        let before = interferences(ray_leaves(shorter), volume);
        let all = interferences(ray_leaves(rays), volume);
        let last = (rays.len() - 1) as usize;
        assert(all == before || all == before.push(last));
        assert forall|k: int| 0 <= k < all.len() implies #[trigger] all[k] < rays.len() by {
            if k < before.len() {
                assert(before[k] < shorter.len());
            }
        }
        assert forall|i: int, j: int| 0 <= i < all.len() && 0 <= j < all.len() && i != j implies all[i]
            != all[j] by {
            if i < before.len() {
                assert(before[i] < shorter.len());
            }
            if j < before.len() {
                assert(before[j] < shorter.len());
            }
        }
    }
}

proof fn inner_rays_count<N: Scalar, C: Fn(&ConvexPair<N>, &Ray<N>) -> Option<N>>(
    e: EdgeModel<N>,
    cast: C,
    v1: VertexModel<N>,
    v2: VertexModel<N>,
    rays: Seq<Ray<N>>,
    ids: Seq<usize>,
    r: usize,
)
    requires
        ids.no_duplicates(),
        forall|k: int|
            0 <= k < ids.len() ==> lies_between(
                rays[#[trigger] ids[k] as int].orig,
                v1.aabb,
                v2.aabb,
            ),
    ensures
        ({
            let known = v1.uancestors->0.union(v2.uancestors->0);
            let n = e.inner_rays_cast(cast, hulls(v1, v2), known, rays, ids);
            &&& n.iv1 == e.iv1
            &&& n.iv2 == e.iv2
            &&& n.iray_cast == e.iray_cast
            &&& entries_for(n.ancestors, r) == entries_for(e.ancestors, r) + if ids.contains(r)
                && !known.contains(r) && starts_inside(cast, v1, v2, rays[r as int]) {
                1nat
            } else {
                0
            }
        }),
    decreases ids.len(),
{
    let known = v1.uancestors->0.union(v2.uancestors->0);
    let pair = hulls(v1, v2);
    if ids.len() > 0 {
        let shorter = ids.drop_last();
        let last = ids.len() - 1;
        let id = ids[last];
        assert forall|k: int| 0 <= k < shorter.len() implies lies_between(
            rays[#[trigger] shorter[k] as int].orig,
            v1.aabb,
            v2.aabb,
        ) by {
            assert(shorter[k] == ids[k]);
        }
        inner_rays_count(e, cast, v1, v2, rays, shorter, r);
        let before = e.inner_rays_cast(cast, pair, known, rays, shorter);
        probing_counts(before, cast, pair, rays[id as int], id, r);
        if shorter.contains(r) {
            let k = choose|k: int| 0 <= k < shorter.len() && shorter[k] == r;
            assert(ids[k] == r);
            assert(id != r);
        } else if ids.contains(r) {
            let k = choose|k: int| 0 <= k < ids.len() && ids[k] == r;
            assert(k == last || shorter[k] == r);
        }
        assert(id == r ==> ids.contains(r));
    }
}

/// An evaluation makes one entry for each time that a ray is called for, and no other.
pub proof fn evaluations_count<N: Scalar, C: Fn(&ConvexPair<N>, &Ray<N>) -> Option<N>>(
    cast: C,
    v1: VertexModel<N>,
    v2: VertexModel<N>,
    rays: Seq<Ray<N>>,
    e: EdgeModel<N>,
    max_cost: N,
    max_concavity: N,
)
    requires
        rays.len() <= usize::MAX,
        counted(e, cast, v1, v2, rays),
    ensures
        counted(
            e.evaluated(cast, v1, v2, rays, ray_leaves(rays), max_cost, max_concavity),
            cast,
            v1,
            v2,
            rays,
        ),
{
    let (a1, a2) = (v1.ancestors->0, v2.ancestors->0);
    let pair = hulls(v1, v2);
    let leaves = ray_leaves(rays);
    let bound = e.bound(max_cost, max_concavity);
    let before = known_rays_count(e, cast, v1, v2, rays, bound);
    let outer = e.known_rays_cast(cast, pair, a1, a2, rays, bound);
    let marked = EdgeModel { iray_cast: true, ..outer };
    let known = v1.uancestors->0.union(v2.uancestors->0);
    let volume = v1.aabb.hull(v2.aabb);
    let ids = interferences(leaves, volume);
    let n = e.evaluated(cast, v1, v2, rays, leaves, max_cost, max_concavity);
    rays_are_found_once(rays, volume);
    assert forall|k: int| 0 <= k < ids.len() implies lies_between(
        rays[#[trigger] ids[k] as int].orig,
        v1.aabb,
        v2.aabb,
    ) by {
        assert(ids.contains(ids[k]));
        interferences_are_the_meeting_leaves(leaves, volume, ids[k]);
        let i = choose|i: int|
            0 <= i < leaves.len() && #[trigger] leaves[i].0 == ids[k] && leaves[i].1.meets(volume);
        assert(leaves[i].0 == i);
    }
    inner_rays_count(marked, cast, v1, v2, rays, ids, 0);
    assert forall|r: usize| r < rays.len() implies #[trigger] entries_for(n.ancestors, r) == due(
        n,
        cast,
        v1,
        v2,
        rays,
        r,
    ) by {
        assert(entries_for(outer.ancestors, r) == due(outer, cast, v1, v2, rays, r));
        inner_rays_count(marked, cast, v1, v2, rays, ids, r);
        interferences_are_the_meeting_leaves(leaves, volume, r);
        if starts_inside(cast, v1, v2, rays[r as int]) {
            assert(leaves[r as int].0 == r && leaves[r as int].1.meets(volume));
            assert(ids.contains(r));
        }
    }
}

proof fn refining_counts<N: Scalar, C: Fn(&ConvexPair<N>, &Ray<N>) -> Option<N>>(
    scene: SceneModel<N>,
    cast: C,
    graph: Seq<VertexModel<N>>,
    e: EdgeModel<N>,
    costs: Seq<N>,
)
    requires
        scene.rays.len() <= usize::MAX,
        scene.leaves == ray_leaves(scene.rays),
        counted(e, cast, graph[e.v1 as int], graph[e.v2 as int], scene.rays),
    ensures
        counted(
            refined(scene, cast, graph, e, costs),
            cast,
            graph[e.v1 as int],
            graph[e.v2 as int],
            scene.rays,
        ),
    decreases costs.len(),
{
    if costs.len() > 0 {
        refining_counts(scene, cast, graph, e, costs.drop_last());
        evaluations_count(
            cast,
            graph[e.v1 as int],
            graph[e.v2 as int],
            scene.rays,
            refined(scene, cast, graph, e, costs.drop_last()),
            costs.last(),
            scene.error,
        );
    }
}

/// What evaluations make of the edge between two parts has one entry for each time that a ray is
/// called for: each ray that the parts list, as far as the lists have been taken into account, and
/// once more the rays that start inside and are not those of corners of the parts.
pub proof fn edges_count_their_rays<N: Scalar, C: Fn(&ConvexPair<N>, &Ray<N>) -> Option<N>>(
    scene: SceneModel<N>,
    cast: C,
    graph: Seq<VertexModel<N>>,
    e: EdgeModel<N>,
)
    requires
        scene.rays.len() <= usize::MAX,
        scene.leaves == ray_leaves(scene.rays),
        e.v1 < e.v2,
        stems(scene, cast, graph, e),
    ensures
        counted(e, cast, graph[e.v1 as int], graph[e.v2 as int], scene.rays),
{
    let fresh = made(scene, graph, e.timestamp, e.v1, e.v2);
    let costs = choose|costs: Seq<N>| e == #[trigger] refined(scene, cast, graph, fresh, costs);
    assert forall|r: usize| r < scene.rays.len() implies #[trigger] entries_for(fresh.ancestors, r)
        == due(fresh, cast, graph[e.v1 as int], graph[e.v2 as int], scene.rays, r) by {
        no_entry::<N>(r);
    }
    refining_counts(scene, cast, graph, fresh, costs);
}

/// An evaluation casts the rays that the parts list until all are through, or until the concavity
/// exceeds what is allowed, or what the shape leaves of the cost. It casts none after that.
///
/// `before` is the edge before the last one of these casts: it was not through, and its concavity
/// exceeded neither.
pub proof fn evaluations_stop_at_the_bound<N: Scalar, C: Fn(&ConvexPair<N>, &Ray<N>) -> Option<N>>(
    cast: C,
    v1: VertexModel<N>,
    v2: VertexModel<N>,
    rays: Seq<Ray<N>>,
    e: EdgeModel<N>,
    max_cost: N,
    max_concavity: N,
) -> (before: EdgeModel<N>)
    requires
        rays.len() <= usize::MAX,
        counted(e, cast, v1, v2, rays),
    ensures
        ({
            let n = e.evaluated(cast, v1, v2, rays, ray_leaves(rays), max_cost, max_concavity);
            let left = minus(max_cost, times(max_concavity, e.shape));
            let (a1, a2) = (v1.ancestors->0, v2.ancestors->0);
            &&& n.iv1 + n.iv2 < a1.len() + a2.len() ==> rank(max_concavity) < rank(n.concavity) || rank(
                left,
            ) < rank(n.concavity)
            &&& rank(max_concavity) < rank(e.concavity) || rank(left) < rank(e.concavity) ==> n.iv1
                == e.iv1 && n.iv2 == e.iv2
            &&& n.iv1 + n.iv2 > e.iv1 + e.iv2 ==> {
                &&& before.iv1 + before.iv2 + 1 == n.iv1 + n.iv2
                &&& counted(before, cast, v1, v2, rays)
                &&& rank(before.concavity) <= rank(max_concavity)
                &&& rank(before.concavity) <= rank(left)
            }
        }),
{
    let (a1, a2) = (v1.ancestors->0, v2.ancestors->0);
    let pair = hulls(v1, v2);
    let leaves = ray_leaves(rays);
    let bound = e.bound(max_cost, max_concavity);
    let before = known_rays_count(e, cast, v1, v2, rays, bound);
    let outer = e.known_rays_cast(cast, pair, a1, a2, rays, bound);
    let n = e.evaluated(cast, v1, v2, rays, leaves, max_cost, max_concavity);
    assert(n.iv1 == outer.iv1 && n.iv2 == outer.iv2) by {
        let marked = EdgeModel { iray_cast: true, ..outer };
        let known = v1.uancestors->0.union(v2.uancestors->0);
        let ids = interferences(leaves, v1.aabb.hull(v2.aabb));
        inner_casts_keep(marked, cast, pair, known, rays, ids);
    }
    if n.iv1 + n.iv2 < a1.len() + a2.len() {
        assert(!outer.through(a1, a2));
    }
    before
}

proof fn inner_casts_keep<N: Scalar, C: Fn(&ConvexPair<N>, &Ray<N>) -> Option<N>>(
    e: EdgeModel<N>,
    cast: C,
    pair: PairModel<N>,
    known: Set<usize>,
    rays: Seq<Ray<N>>,
    ids: Seq<usize>,
)
    ensures
        ({
            let n = e.inner_rays_cast(cast, pair, known, rays, ids);
            n.iv1 == e.iv1 && n.iv2 == e.iv2
        }),
    decreases ids.len(),
{
    if ids.len() > 0 {
        inner_casts_keep(e, cast, pair, known, rays, ids.drop_last());
    }
}

} // verus!
