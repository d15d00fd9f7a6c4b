//! The edges of the dual graph: the pairs of parts that could become one.
use crate::aabb::AABB;
use crate::ancestor::VertexWithConcavity;
use crate::bvt::{interferences, interferences_are_the_meeting_leaves, BVT};
use crate::kernel::{casts_rays, may_hit, time_of_impact, toi_with_ray, ConvexPair, PairModel};
use crate::linalg::{dist, distance, Pnt3, Vec2};
use crate::queue::{higher, viewed, Prioritized, PriorityQueue};
use crate::rays::Ray;
use crate::scalar::{
    coincide, compares, fraction, greater, lawful, max_of, min_of, minus, near, opposite, over,
    plus, precedes, rank, smaller, times, vanishes, zero, Scalar,
};
use crate::set::{in_one_of, sorted};
use crate::vertex::{graph_wf, DualGraphVertex, VertexModel};
use core::cmp::Ordering;
use vstd::multiset::Multiset;
use vstd::prelude::*;
use vstd::std_specs::cmp::{PartialEqSpec, PartialOrdSpec};

verus! {

/// Two parts that touch each other, with what is known of the cost of making them one.
pub struct DualGraphEdge<N> {
    pub v1: usize,
    pub v2: usize,
    /// The opposite of the cost.
    pub mcost: N,
    /// Whether every ray has been taken into account.
    pub exact: bool,
    pub timestamp: usize,
    /// The rays that have been cast, with their concavities.
    pub ancestors: PriorityQueue<VertexWithConcavity<N>>,
    /// The number of rays of the first part that have been taken into account.
    pub iv1: usize,
    /// The number of rays of the second part that have been taken into account.
    pub iv2: usize,
    pub shape: N,
    pub concavity: N,
    /// Whether the rays inside of the two parts have been cast.
    pub iray_cast: bool,
}

/// What an edge of the dual graph holds.
#[verifier::ext_equal]
pub struct EdgeModel<N> {
    pub v1: usize,
    pub v2: usize,
    pub mcost: N,
    pub exact: bool,
    pub timestamp: usize,
    pub ancestors: Multiset<VertexWithConcavity<N>>,
    pub iv1: nat,
    pub iv2: nat,
    pub shape: N,
    pub concavity: N,
    pub iray_cast: bool,
}

impl<N: Scalar> View for DualGraphEdge<N> {
    type V = EdgeModel<N>;

    open spec fn view(&self) -> EdgeModel<N> {
        EdgeModel {
            v1: self.v1,
            v2: self.v2,
            mcost: self.mcost,
            exact: self.exact,
            timestamp: self.timestamp,
            ancestors: self.ancestors@,
            iv1: self.iv1 as nat,
            iv2: self.iv2 as nat,
            shape: self.shape,
            concavity: self.concavity,
            iray_cast: self.iray_cast,
        }
    }
}

/// The length of a list of edges of the mesh.
pub open spec fn length<N: Scalar>(edges: Seq<Vec2<u32>>, coords: Seq<Pnt3<N>>) -> N
    decreases edges.len(),
{
    if edges.len() == 0 {
        zero()
    } else {
        let e = edges.last();
        plus(length(edges.drop_last(), coords), distance(coords[e.x as int], coords[e.y as int]))
    }
}

/// The cost of the shape of a part, by its perimeter, its area and the diagonal of its box.
pub open spec fn shape_cost<N: Scalar>(perimeter: N, area: N, diagonal: N) -> N {
    if vanishes(area) || vanishes(diagonal) {
        times(perimeter, perimeter)
    } else {
        over(times(times(diagonal, perimeter), perimeter), area)
    }
}

/// Whether every edge of the set leads from one of the points to another.
pub open spec fn within<N>(border: Set<Vec2<u32>>, coords: Seq<Pnt3<N>>) -> bool {
    forall|e: Vec2<u32>| #[trigger] border.contains(e) ==> e.x < coords.len() && e.y < coords.len()
}

impl<N: Scalar> EdgeModel<N> {
    /// The edge between two parts, before any ray has been cast.
    pub open spec fn fresh(
        timestamp: usize,
        a: VertexModel<N>,
        b: VertexModel<N>,
        v1: usize,
        v2: usize,
        coords: Seq<Pnt3<N>>,
        max_concavity: N,
    ) -> Self {
        let perimeter = length(sorted(in_one_of(a.border->0, b.border->0)), coords);
        let aabb = a.aabb.hull(b.aabb);
        let shape = shape_cost(perimeter, plus(a.area, b.area), distance(aabb.mins, aabb.maxs));
        let concavity = greater(a.concavity, b.concavity);
        EdgeModel {
            v1,
            v2,
            mcost: opposite(plus(concavity, times(max_concavity, shape))),
            exact: false,
            timestamp,
            ancestors: Multiset::empty(),
            iv1: 0,
            iv2: 0,
            shape,
            concavity,
            iray_cast: false,
        }
    }

    /// The edge between the vertices `v1` and `v2` of the graph, whatever their order.
    pub open spec fn between(
        timestamp: usize,
        v1: usize,
        v2: usize,
        graph: Seq<VertexModel<N>>,
        coords: Seq<Pnt3<N>>,
        max_concavity: N,
    ) -> Self {
        if v1 > v2 {
            Self::fresh(
                timestamp,
                graph[v2 as int],
                graph[v1 as int],
                v2,
                v1,
                coords,
                max_concavity,
            )
        } else {
            Self::fresh(
                timestamp,
                graph[v1 as int],
                graph[v2 as int],
                v1,
                v2,
                coords,
                max_concavity,
            )
        }
    }

    /// Whether neither end has grown, or been given up, since the edge was made.
    pub open spec fn valid(self, graph: Seq<VertexModel<N>>) -> bool {
        &&& self.timestamp >= graph[self.v1 as int].timestamp
        &&& self.timestamp >= graph[self.v2 as int].timestamp
    }
}

/// How far the hull of a pair reaches along a ray, and a bit farther.
pub open spec fn reach<N: Scalar>(pair: PairModel<N>, ray: Ray<N>) -> N {
    plus(pair.support(ray.dir).vector().scalar_product(ray.dir), fraction(1, 10))
}

/// The ray that comes back to the hull of a pair from beyond where it reaches.
pub open spec fn returning<N: Scalar>(pair: PairModel<N>, ray: Ray<N>) -> Ray<N> {
    Ray { orig: ray.orig.plus(ray.dir.times(reach(pair, ray))), dir: ray.dir.opposite() }
}

impl<N: Scalar> EdgeModel<N> {
    /// The edge after one more ray has shown a concavity.
    pub open spec fn noted(self, id: usize, concavity: N) -> Self {
        EdgeModel {
            ancestors: self.ancestors.insert(VertexWithConcavity { id, concavity }),
            ..self
        }
    }

    /// The edge after a ray has come back from the distance `from` and met the hull after
    /// `toi`: what is left of the distance is the concavity along the ray.
    pub open spec fn recorded(self, id: usize, from: N, toi: Option<N>) -> Self {
        match toi {
            None => self.noted(id, zero()),
            Some(t) => EdgeModel {
                concavity: greater(self.concavity, minus(from, t)),
                ..self.noted(id, minus(from, t))
            },
        }
    }

    /// The edge after a ray has been cast from beyond the hull of the pair.
    pub open spec fn probed<C: Fn(&ConvexPair<N>, &Ray<N>) -> Option<N>>(
        self,
        cast: C,
        pair: PairModel<N>,
        ray: Ray<N>,
        id: usize,
    ) -> Self {
        if near(pair.support(ray.dir).vector().scalar_product(ray.dir), zero()) {
            self.noted(id, zero())
        } else {
            self.recorded(
                id,
                reach(pair, ray),
                time_of_impact(cast, pair, returning(pair, ray)),
            )
        }
    }

    /// Whether every ray that the two parts know has been taken into account.
    pub open spec fn through(
        self,
        a1: Seq<VertexWithConcavity<N>>,
        a2: Seq<VertexWithConcavity<N>>,
    ) -> bool {
        self.iv1 >= a1.len() && self.iv2 >= a2.len()
    }

    /// The edge after the rays that the two parts know have been cast, those of the greatest
    /// concavity first, until one shows a concavity above `bound`. A ray of direction zero is
    /// passed over.
    pub open spec fn known_rays_cast<C: Fn(&ConvexPair<N>, &Ray<N>) -> Option<N>>(
        self,
        cast: C,
        pair: PairModel<N>,
        a1: Seq<VertexWithConcavity<N>>,
        a2: Seq<VertexWithConcavity<N>>,
        rays: Seq<Ray<N>>,
        bound: N,
    ) -> Self
        decreases a1.len() - self.iv1 + a2.len() - self.iv2,
    {
        if self.iv1 > a1.len() || self.iv2 > a2.len() || self.through(a1, a2) || rank(bound) < rank(
            self.concavity,
        ) {
            self
        } else {
            let next = self.next_ray_cast(cast, pair, a1, a2, rays);
            next.known_rays_cast(cast, pair, a1, a2, rays, bound)
        }
    }

    /// The edge after the next ray that the two parts know has been cast.
    pub open spec fn next_ray_cast<C: Fn(&ConvexPair<N>, &Ray<N>) -> Option<N>>(
        self,
        cast: C,
        pair: PairModel<N>,
        a1: Seq<VertexWithConcavity<N>>,
        a2: Seq<VertexWithConcavity<N>>,
        rays: Seq<Ray<N>>,
    ) -> Self {
        let first = self.iv1 < a1.len() && (self.iv2 >= a2.len() || rank(
            a2[self.iv2 as int].concavity,
        ) < rank(a1[self.iv1 as int].concavity));
        let id = if first {
            a1[self.iv1 as int].id
        } else {
            a2[self.iv2 as int].id
        };
        let advanced = if first {
            EdgeModel { iv1: self.iv1 + 1, ..self }
        } else {
            EdgeModel { iv2: self.iv2 + 1, ..self }
        };
        let ray = rays[id as int];
        if ray.dir.vanishes() {
            advanced
        } else {
            advanced.probed(cast, pair, ray, id)
        }
    }

    /// The edge after those of the given rays have been cast that neither part knows and that
    /// start inside of the hull of the pair.
    pub open spec fn inner_rays_cast<C: Fn(&ConvexPair<N>, &Ray<N>) -> Option<N>>(
        self,
        cast: C,
        pair: PairModel<N>,
        known: Set<usize>,
        rays: Seq<Ray<N>>,
        ids: Seq<usize>,
    ) -> Self
        decreases ids.len(),
    {
        if ids.len() == 0 {
            self
        } else {
            let before = self.inner_rays_cast(cast, pair, known, rays, ids.drop_last());
            let id = ids.last();
            let ray = rays[id as int];
            if known.contains(id) || ray.dir.vanishes() {
                before
            } else {
                match time_of_impact(cast, pair, ray) {
                    None => before,
                    Some(t) => if vanishes(t) {
                        before.probed(cast, pair, ray, id)
                    } else {
                        before
                    },
                }
            }
        }
    }

    /// The concavity up to which rays have to be cast.
    pub open spec fn bound(self, max_cost: N, max_concavity: N) -> N {
        smaller(max_concavity, minus(max_cost, times(max_concavity, self.shape)))
    }

    /// The edge after its cost has been computed, as far as it does not exceed `max_cost`.
    pub open spec fn evaluated<C: Fn(&ConvexPair<N>, &Ray<N>) -> Option<N>>(
        self,
        cast: C,
        v1: VertexModel<N>,
        v2: VertexModel<N>,
        rays: Seq<Ray<N>>,
        leaves: Seq<(usize, AABB<N>)>,
        max_cost: N,
        max_concavity: N,
    ) -> Self {
        let pair = PairModel { a: v1.chull->0.coords, b: v2.chull->0.coords };
        let (a1, a2) = (v1.ancestors->0, v2.ancestors->0);
        let bound = self.bound(max_cost, max_concavity);
        let outer = self.known_rays_cast(cast, pair, a1, a2, rays, bound);
        let all = if !outer.iray_cast && outer.through(a1, a2) {
            (EdgeModel { iray_cast: true, ..outer }).inner_rays_cast(
                cast,
                pair,
                v1.uancestors->0.union(v2.uancestors->0),
                rays,
                interferences(leaves, v1.aabb.hull(v2.aabb)),
            )
        } else {
            outer
        };
        EdgeModel {
            mcost: opposite(plus(all.concavity, times(bound, all.shape))),
            exact: all.through(a1, a2),
            ..all
        }
    }
}

/// Whether `cast` may have returned something, for the ray that comes back, of which `concavity`
/// is what is left of the distance.
pub open spec fn hits<N: Scalar, C: Fn(&ConvexPair<N>, &Ray<N>) -> Option<N>>(
    cast: C,
    pair: PairModel<N>,
    ray: Ray<N>,
    concavity: N,
) -> bool {
    exists|t: N| #[trigger]
        may_hit(cast, pair, returning(pair, ray), Some(t)) && concavity == minus(reach(pair, ray), t)
}

/// Whether `concavity` is that of a ray of the list that has hit.
pub open spec fn some_ray_hits<N: Scalar, C: Fn(&ConvexPair<N>, &Ray<N>) -> Option<N>>(
    cast: C,
    pair: PairModel<N>,
    rays: Seq<Ray<N>>,
    concavity: N,
) -> bool {
    exists|id: int| 0 <= id < rays.len() && hits(cast, pair, #[trigger] rays[id], concavity)
}

/// Whether all that is new in `after` is what `cast` has returned: each new entry is zero or
/// that of a ray that has hit, and so is the concavity where it has changed.
pub open spec fn witnessed<N: Scalar, C: Fn(&ConvexPair<N>, &Ray<N>) -> Option<N>>(
    cast: C,
    pair: PairModel<N>,
    rays: Seq<Ray<N>>,
    before: EdgeModel<N>,
    after: EdgeModel<N>,
) -> bool {
    &&& forall|x: VertexWithConcavity<N>| #[trigger]
        after.ancestors.contains(x) ==> before.ancestors.contains(x) || x.concavity == zero::<N>()
            || hits(cast, pair, rays[x.id as int], x.concavity)
    &&& after.concavity == before.concavity || some_ray_hits(cast, pair, rays, after.concavity)
}

/// A cast that has really been made keeps an edge witnessed.
proof fn probing_is_witnessed<N: Scalar, C: Fn(&ConvexPair<N>, &Ray<N>) -> Option<N>>(
    cast: C,
    pair: PairModel<N>,
    rays: Seq<Ray<N>>,
    start: EdgeModel<N>,
    before: EdgeModel<N>,
    id: usize,
)
    requires
        id < rays.len(),
        witnessed(cast, pair, rays, start, before),
        near(pair.support(rays[id as int].dir).vector().scalar_product(rays[id as int].dir), zero())
            || may_hit(
            cast,
            pair,
            returning(pair, rays[id as int]),
            time_of_impact(cast, pair, returning(pair, rays[id as int])),
        ),
    ensures
        witnessed(cast, pair, rays, start, before.probed(cast, pair, rays[id as int], id)),
{
    let ray = rays[id as int];
    let after = before.probed(cast, pair, ray, id);
    let toi = time_of_impact(cast, pair, returning(pair, ray));
    if !near(pair.support(ray.dir).vector().scalar_product(ray.dir), zero()) && toi is Some {
        assert(may_hit(cast, pair, returning(pair, ray), Some(toi->0)));
        assert(hits(cast, pair, ray, minus(reach(pair, ray), toi->0)));
    }
    assert forall|x: VertexWithConcavity<N>| #[trigger] after.ancestors.contains(x) implies {
        ||| start.ancestors.contains(x)
        ||| x.concavity == zero::<N>()
        ||| hits(cast, pair, rays[x.id as int], x.concavity)
    } by {
        assert(before.ancestors.contains(x) || x.id == id);
    }
}

/// Whether the rays that the vertex knows are among `count` rays.
pub open spec fn knows_rays<N>(v: VertexModel<N>, count: nat) -> bool {
    forall|i: int| 0 <= i < v.ancestors->0.len() ==> (#[trigger] v.ancestors->0[i]).id < count
}

/// Whether the values of the leaves are among `count` rays.
pub open spec fn finds_rays<N>(leaves: Seq<(usize, AABB<N>)>, count: nat) -> bool {
    forall|i: int| 0 <= i < leaves.len() ==> (#[trigger] leaves[i]).0 < count
}

impl<N: Scalar> DualGraphEdge<N> {
    /// The queue of the rays is in order.
    pub open spec fn wf(&self) -> bool {
        self.ancestors.wf()
    }

    /// The edge between two vertices, with a bound of its cost.
    pub fn new(
        timestamp: usize,
        v1: usize,
        v2: usize,
        dual_graph: &[DualGraphVertex<N>],
        coords: &[Pnt3<N>],
        max_concavity: N,
    ) -> (res: DualGraphEdge<N>)
        requires
            lawful::<N>(),
            v1 < dual_graph@.len(),
            v2 < dual_graph@.len(),
            graph_wf(dual_graph@),
            dual_graph@[v1 as int]@.border is Some,
            dual_graph@[v2 as int]@.border is Some,
            within(dual_graph@[v1 as int]@.border->0, coords@),
            within(dual_graph@[v2 as int]@.border->0, coords@),
        ensures
            res.wf(),
            res@ == EdgeModel::between(timestamp, v1, v2, viewed(dual_graph@), coords@, max_concavity),
    {
        let ghost (w1, w2) = (v1, v2);
        let mut v1 = v1;
        let mut v2 = v2;

        if v1 > v2 {
            core::mem::swap(&mut v1, &mut v2);
        }
        let ghost (a, b) = (dual_graph@[v1 as int]@, dual_graph@[v2 as int]@);
        let border_1 = dual_graph[v1].border.as_ref().unwrap();
        let border_2 = dual_graph[v2].border.as_ref().unwrap();
        let outline = border_1.symmetric_difference(border_2);
        let ghost list = outline.list();
        proof {
            outline.list_is_sorted();
        }

        let mut perimeter = N::zero();
        let mut i: usize = 0;
        while i < outline.len()
            invariant
                lawful::<N>(),
                list == outline.list(),
                list.to_set() == outline@,
                outline@ == in_one_of(a.border->0, b.border->0),
                within(a.border->0, coords@),
                within(b.border->0, coords@),
                i <= list.len(),
                perimeter == length(list.take(i as int), coords@),
            decreases list.len() - i,
        {
            let e = outline.get(i);
            proof {
                assert(list.to_set().contains(list[i as int]));
                assert(a.border->0.contains(e) || b.border->0.contains(e));
                assert(list.take(i + 1).drop_last() =~= list.take(i as int));
            }
            perimeter = perimeter.add(dist(&coords[e.x as usize], &coords[e.y as usize]));
            i = i + 1;
        }
        assert(list.take(i as int) =~= list);

        let area = dual_graph[v1].area.add(dual_graph[v2].area);
        let aabb = dual_graph[v1].aabb.merged(&dual_graph[v2].aabb);
        let diagonal = dist(&aabb.mins, &aabb.maxs);
        let shape_cost = if area.is_zero() || diagonal.is_zero() {
            perimeter.mul(perimeter)
        } else {
            diagonal.mul(perimeter).mul(perimeter).div(area)
        };

        let approx_concavity = max_of(dual_graph[v1].concavity, dual_graph[v2].concavity);

        DualGraphEdge {
            v1,
            v2,
            mcost: approx_concavity.add(max_concavity.mul(shape_cost)).neg(),
            exact: false,
            timestamp,
            ancestors: PriorityQueue::new(),
            iv1: 0,
            iv2: 0,
            shape: shape_cost,
            concavity: approx_concavity,
            iray_cast: false,
        }
    }

    /// Whether neither end has grown, or been given up, since the edge was made.
    pub fn is_valid(&self, dual_graph: &[DualGraphVertex<N>]) -> (res: bool)
        requires
            self.v1 < dual_graph@.len(),
            self.v2 < dual_graph@.len(),
        ensures
            res == self@.valid(viewed(dual_graph@)),
    {
        self.timestamp >= dual_graph[self.v1].timestamp && self.timestamp
            >= dual_graph[self.v2].timestamp
    }

    /// Takes note of a ray that has come back from the distance `from` and met the hull after
    /// `toi`.
    pub fn record_cast(&mut self, id: usize, from: N, toi: Option<N>)
        requires
            lawful::<N>(),
            old(self).wf(),
        ensures
            final(self).wf(),
            final(self)@ == old(self)@.recorded(id, from, toi),
    {
        match toi {
            None => {
                self.ancestors.push(VertexWithConcavity::new(id, N::zero()));
            },
            Some(toi) => {
                let new_concavity = from.sub(toi);
                self.ancestors.push(VertexWithConcavity::new(id, new_concavity));
                if self.concavity.less(new_concavity) {
                    self.concavity = new_concavity;
                }
            },
        }
    }

    /// Casts a ray from beyond the hull of the pair.
    fn cast_ray<C: Fn(&ConvexPair<N>, &Ray<N>) -> Option<N>>(
        &mut self,
        cast: &C,
        chull: &ConvexPair<N>,
        ray: &Ray<N>,
        id: usize,
    )
        requires
            lawful::<N>(),
            casts_rays(*cast),
            chull@.a.len() > 0,
            chull@.b.len() > 0,
            old(self).wf(),
        ensures
            final(self).wf(),
            final(self)@ == old(self)@.probed(*cast, chull@, *ray, id),
            near(chull@.support(ray.dir).vector().scalar_product(ray.dir), zero()) || may_hit(
                *cast,
                chull@,
                returning(chull@, *ray),
                time_of_impact(*cast, chull@, returning(chull@, *ray)),
            ),
    {
        let sv = chull.support_point(&ray.dir);
        let dist = sv.as_vec().dot(&ray.dir);

        if !dist.approx_eq(N::zero()) {
            let from = dist.add(N::ratio(1, 10));
            let outside_point = ray.orig.add(&ray.dir.mul(from));
            let toi = toi_with_ray(cast, chull, &Ray::new(outside_point, ray.dir.neg()));
            self.record_cast(id, from, toi);
        } else {
            self.ancestors.push(VertexWithConcavity::new(id, N::zero()));
        }
    }

    /// Computes the cost of making the two parts one, as far as it does not exceed `max_cost`
    /// and the concavity does not exceed `max_concavity`.
    pub fn compute_decimation_cost<C: Fn(&ConvexPair<N>, &Ray<N>) -> Option<N>>(
        &mut self,
        dual_graph: &[DualGraphVertex<N>],
        rays: &[Ray<N>],
        bvt: &BVT<N>,
        max_cost: N,
        max_concavity: N,
        cast: &C,
    )
        requires
            lawful::<N>(),
            casts_rays(*cast),
            old(self).wf(),
            graph_wf(dual_graph@),
            bvt.wf(),
            finds_rays(bvt.leaves(), rays@.len()),
            old(self).v1 < dual_graph@.len(),
            old(self).v2 < dual_graph@.len(),
            old(self)@.valid(viewed(dual_graph@)),
            dual_graph@[old(self).v1 as int]@.measurable(),
            dual_graph@[old(self).v2 as int]@.measurable(),
            knows_rays(dual_graph@[old(self).v1 as int]@, rays@.len()),
            knows_rays(dual_graph@[old(self).v2 as int]@, rays@.len()),
            old(self).iv1 <= dual_graph@[old(self).v1 as int]@.ancestors->0.len(),
            old(self).iv2 <= dual_graph@[old(self).v2 as int]@.ancestors->0.len(),
        ensures
            final(self).wf(),
            final(self)@ == old(self)@.evaluated(
                *cast,
                dual_graph@[old(self).v1 as int]@,
                dual_graph@[old(self).v2 as int]@,
                rays@,
                bvt.leaves(),
                max_cost,
                max_concavity,
            ),
            witnessed(
                *cast,
                PairModel {
                    a: dual_graph@[old(self).v1 as int]@.chull->0.coords,
                    b: dual_graph@[old(self).v2 as int]@.chull->0.coords,
                },
                rays@,
                old(self)@,
                final(self)@,
            ),
    {
        let v1 = &dual_graph[self.v1];
        let v2 = &dual_graph[self.v2];

        let chull1 = v1.chull.as_ref().unwrap();
        let chull2 = v2.chull.as_ref().unwrap();
        let chull = ConvexPair::new(chull1.coords.as_slice(), chull2.coords.as_slice());

        let a1 = v1.ancestors.as_ref().unwrap();
        let a2 = v2.ancestors.as_ref().unwrap();

        let max_concavity = min_of(max_concavity, max_cost.sub(max_concavity.mul(self.shape)));

        let ghost start = self@;
        let ghost pair = chull@;

        // The rays that the two parts know.
        while (self.iv1 != a1.len() || self.iv2 != a2.len()) && !max_concavity.less(self.concavity)
            invariant
                lawful::<N>(),
                casts_rays(*cast),
                self.wf(),
                pair == chull@,
                pair.a.len() > 0,
                pair.b.len() > 0,
                self.iv1 <= a1@.len(),
                self.iv2 <= a2@.len(),
                forall|i: int| 0 <= i < a1@.len() ==> (#[trigger] a1@[i]).id < rays@.len(),
                forall|i: int| 0 <= i < a2@.len() ==> (#[trigger] a2@[i]).id < rays@.len(),
                witnessed(*cast, pair, rays@, start, self@),
                start.known_rays_cast(*cast, pair, a1@, a2@, rays@, max_concavity)
                    == self@.known_rays_cast(*cast, pair, a1@, a2@, rays@, max_concavity),
            decreases a1@.len() - self.iv1 + a2@.len() - self.iv2,
        {
            let id: usize;
            if self.iv1 != a1.len() && (self.iv2 == a2.len() || a2[self.iv2].concavity.less(
                a1[self.iv1].concavity,
            )) {
                id = a1[self.iv1].id;
                self.iv1 = self.iv1 + 1;
            } else {
                id = a2[self.iv2].id;
                self.iv2 = self.iv2 + 1;
            }

            let ray = &rays[id];

            // The direction is zero where the normal was.
            if ray.dir.is_zero() {
                continue;
            }
            let ghost advanced = self@;
            self.cast_ray(cast, &chull, ray, id);
            proof {
                assert(witnessed(*cast, pair, rays@, start, advanced));
                probing_is_witnessed(*cast, pair, rays@, start, advanced, id);
            }
        }
        assert(self@ == start.known_rays_cast(*cast, pair, a1@, a2@, rays@, max_concavity));

        let ghost reached = self@;
        if !self.iray_cast && self.iv1 == a1.len() && self.iv2 == a2.len() {
            self.iray_cast = true;
            assert(self@.ancestors == reached.ancestors && self@.concavity == reached.concavity);
            let aabb = v1.aabb.merged(&v2.aabb);
            let internal_rays = bvt.visit(&aabb);

            let uancestors_v1 = v1.uancestors.as_ref().unwrap();
            let uancestors_v2 = v2.uancestors.as_ref().unwrap();
            let ghost known = uancestors_v1@.union(uancestors_v2@);
            let ghost outer = self@;
            let ghost ids = internal_rays@;
            assert(ids.take(0) =~= Seq::empty());

            let mut k: usize = 0;
            while k < internal_rays.len()
                invariant
                    lawful::<N>(),
                    casts_rays(*cast),
                    self.wf(),
                    pair == chull@,
                    pair.a.len() > 0,
                    pair.b.len() > 0,
                    uancestors_v1.wf(),
                    uancestors_v2.wf(),
                    known == uancestors_v1@.union(uancestors_v2@),
                    ids == internal_rays@,
                    ids == interferences(bvt.leaves(), aabb),
                    finds_rays(bvt.leaves(), rays@.len()),
                    k <= ids.len(),
                    self.iv1 == a1@.len(),
                    self.iv2 == a2@.len(),
                    witnessed(*cast, pair, rays@, start, self@),
                    self@ == outer.inner_rays_cast(*cast, pair, known, rays@, ids.take(k as int)),
                decreases ids.len() - k,
            {
                let ray_id: usize = internal_rays[k];
                proof {
                    interferences_are_the_meeting_leaves(bvt.leaves(), aabb, ray_id);
                    assert(ids.contains(ray_id));
                    assert(ids.take(k + 1).drop_last() =~= ids.take(k as int));
                }
                k = k + 1;
                let ray = &rays[ray_id];

                if !uancestors_v1.contains(&ray_id) && !uancestors_v2.contains(&ray_id) {
                    if ray.dir.is_zero() {
                        continue;
                    }
                    // A ray that starts inside of the hull meets it at once.
                    match toi_with_ray(cast, &chull, ray) {
                        None => {
                            continue;
                        },
                        Some(inter) => {
                            if inter.is_zero() {
                                let ghost current = self@;
                                self.cast_ray(cast, &chull, ray, ray_id);
                                proof {
                                    probing_is_witnessed(*cast, pair, rays@, start, current, ray_id);
                                }
                            }
                        },
                    }
                }
            }
            assert(ids.take(k as int) =~= ids);
        }
        let ghost reached = self@;
        self.mcost = self.concavity.add(max_concavity.mul(self.shape)).neg();
        self.exact = self.iv1 == a1.len() && self.iv2 == a2.len();
        proof {
            assert(witnessed(*cast, pair, rays@, start, reached));
            assert(self@.ancestors == reached.ancestors && self@.concavity == reached.concavity);
        }
    }

    /// Compares two edges by their costs: the cheaper one is the greater one.
    pub fn cmp(&self, other: &DualGraphEdge<N>) -> (res: Ordering)
        requires
            compares::<N>(),
        ensures
            res == edge_order(*self, *other),
    {
        if self.mcost.less(other.mcost) {
            Ordering::Less
        } else if other.mcost.less(self.mcost) {
            Ordering::Greater
        } else {
            Ordering::Equal
        }
    }
}

/// The order of two edges: that of the opposites of their costs. Edges of which neither comes before
/// the other compare as equal.
pub open spec fn edge_order<N: Scalar>(a: DualGraphEdge<N>, b: DualGraphEdge<N>) -> Ordering {
    if precedes(a.mcost, b.mcost) {
        Ordering::Less
    } else if precedes(b.mcost, a.mcost) {
        Ordering::Greater
    } else {
        Ordering::Equal
    }
}

impl<N: Scalar> PartialEq for DualGraphEdge<N> {
    fn eq(&self, other: &DualGraphEdge<N>) -> (res: bool) {
        self.mcost.equals(other.mcost)
    }
}

impl<N: Scalar> vstd::std_specs::cmp::PartialEqSpecImpl for DualGraphEdge<N> {
    open spec fn obeys_eq_spec() -> bool {
        compares::<N>()
    }

    open spec fn eq_spec(&self, other: &DualGraphEdge<N>) -> bool {
        coincide(self.mcost, other.mcost)
    }
}

impl<N: Scalar> Eq for DualGraphEdge<N> {

}

impl<N: Scalar> PartialOrd for DualGraphEdge<N> {
    fn partial_cmp(&self, other: &DualGraphEdge<N>) -> (res: Option<Ordering>) {
        if self.mcost.less(other.mcost) {
            Some(Ordering::Less)
        } else if other.mcost.less(self.mcost) {
            Some(Ordering::Greater)
        } else if self.mcost.equals(other.mcost) {
            Some(Ordering::Equal)
        } else {
            None
        }
    }
}

impl<N: Scalar> vstd::std_specs::cmp::PartialOrdSpecImpl for DualGraphEdge<N> {
    open spec fn obeys_partial_cmp_spec() -> bool {
        compares::<N>()
    }

    /// The order of the opposites of the costs; there is none where these do not compare.
    open spec fn partial_cmp_spec(&self, other: &DualGraphEdge<N>) -> Option<Ordering> {
        if precedes(self.mcost, other.mcost) {
            Some(Ordering::Less)
        } else if precedes(other.mcost, self.mcost) {
            Some(Ordering::Greater)
        } else if coincide(self.mcost, other.mcost) {
            Some(Ordering::Equal)
        } else {
            None
        }
    }
}

impl<N: Scalar> Prioritized for DualGraphEdge<N> {
    open spec fn comparable() -> bool {
        lawful::<N>()
    }

    open spec fn priority(value: EdgeModel<N>) -> (int, int) {
        (rank(value.mcost) as int, 0)
    }

    open spec fn sound(&self) -> bool {
        self.wf()
    }

    fn above(&self, other: &DualGraphEdge<N>) -> (res: bool) {
        match self.cmp(other) {
            Ordering::Greater => true,
            _ => false,
        }
    }
}

/// Where the order of the numbers is total, so is that of the edges up to their costs, and the
/// cheaper one has the greater priority. Edges are equal exactly where they compare as equal,
/// provided that it is so with their costs; then `partial_cmp` agrees with `cmp`.
pub proof fn edges_are_ordered<N: Scalar>(
    a: DualGraphEdge<N>,
    b: DualGraphEdge<N>,
    c: DualGraphEdge<N>,
)
    requires
        lawful::<N>(),
    ensures
        edge_order(a, a) == Ordering::Equal,
        edge_order(a, b) == Ordering::Less <==> edge_order(b, a) == Ordering::Greater,
        (coincide(a.mcost, b.mcost) <==> rank(a.mcost) == rank(b.mcost)) ==> {
            &&& edge_order(a, b) == Ordering::Equal <==> a.eq_spec(&b)
            &&& a.partial_cmp_spec(&b) == Some(edge_order(a, b))
        },
        edge_order(a, b) != Ordering::Greater && edge_order(b, c) != Ordering::Greater ==> edge_order(
            a,
            c,
        ) != Ordering::Greater,
        edge_order(a, b) == Ordering::Greater <==> higher(
            DualGraphEdge::<N>::priority(a@),
            DualGraphEdge::<N>::priority(b@),
        ),
        rank(a.mcost) > rank(b.mcost) <==> edge_order(a, b) == Ordering::Greater,
        rank(a.mcost) == rank(b.mcost) <==> edge_order(a, b) == Ordering::Equal,
{
}

} // verus!
