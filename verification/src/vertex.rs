//! The vertices of the dual graph: the parts into which the mesh is decomposed.
use crate::aabb::{cloud_box, point_cloud_aabb, AABB};
use crate::ancestor::VertexWithConcavity;
use crate::edge::{DualGraphEdge, EdgeModel};
use crate::kernel::{computes_hulls, convex_hull, enclosure, may_enclose};
use crate::linalg::{Pnt3, Vec2};
use crate::mesh::{all_below, area, sequential, triangle_area, IndexModel, MeshModel, TriMesh};
use crate::queue::{descending, higher, viewed, Prioritized, PriorityQueue};
use crate::rays::PairMap;
use crate::scalar::{lawful, plus, zero, Scalar};
use crate::set::{has_pushed, in_one_of, SortedSet};
use vstd::multiset::Multiset;
use vstd::prelude::*;

verus! {

/// A part of the mesh.
pub struct DualGraphVertex<N> {
    /// The parts that touch this one.
    pub neighbors: Option<SortedSet<usize>>,
    /// The rays of the corners of the part, with their concavities.
    pub ancestors: Option<Vec<VertexWithConcavity<N>>>,
    /// The rays of the corners of the part.
    pub uancestors: Option<SortedSet<usize>>,
    /// The edges of the mesh that bound the part.
    pub border: Option<SortedSet<Vec2<u32>>>,
    /// The convex hull of the part.
    pub chull: Option<TriMesh<N>>,
    /// The triangles of the part.
    pub parts: Option<Vec<usize>>,
    /// When the part last grew; `usize::MAX` once it is a piece of another part.
    pub timestamp: usize,
    pub concavity: N,
    pub area: N,
    pub aabb: AABB<N>,
}

/// What a vertex of the dual graph holds.
#[verifier::ext_equal]
pub struct VertexModel<N> {
    pub neighbors: Option<Set<usize>>,
    pub ancestors: Option<Seq<VertexWithConcavity<N>>>,
    pub uancestors: Option<Set<usize>>,
    pub border: Option<Set<Vec2<u32>>>,
    pub chull: Option<MeshModel<N>>,
    pub parts: Option<Seq<usize>>,
    pub timestamp: usize,
    pub concavity: N,
    pub area: N,
    pub aabb: AABB<N>,
}

/// The value inside, where there is one.
pub open spec fn inside<T: View>(o: Option<T>) -> Option<T::V> {
    match o {
        Some(t) => Some(t@),
        None => None,
    }
}

impl<N> View for DualGraphVertex<N> {
    type V = VertexModel<N>;

    open spec fn view(&self) -> VertexModel<N> {
        VertexModel {
            neighbors: inside(self.neighbors),
            ancestors: inside(self.ancestors),
            uancestors: inside(self.uancestors),
            border: inside(self.border),
            chull: inside(self.chull),
            parts: inside(self.parts),
            timestamp: self.timestamp,
            concavity: self.concavity,
            area: self.area,
            aabb: self.aabb,
        }
    }
}

impl<N> VertexModel<N> {
    /// Whether the vertex still holds everything that belongs to a part.
    pub open spec fn whole(self) -> bool {
        &&& self.neighbors is Some
        &&& self.ancestors is Some
        &&& self.uancestors is Some
        &&& self.border is Some
        &&& self.chull is Some
        &&& self.chull->0.coords.len() > 0
        &&& self.parts is Some
    }

    /// Whether the vertex holds what the cost of making it one with another depends on.
    pub open spec fn measurable(self) -> bool {
        &&& self.ancestors is Some
        &&& self.uancestors is Some
        &&& self.chull is Some
        &&& self.chull->0.coords.len() > 0
    }

    /// Whether the vertex holds what it brings along when it is made one with another.
    pub open spec fn joinable(self) -> bool {
        &&& self.neighbors is Some
        &&& self.uancestors is Some
        &&& self.border is Some
        &&& self.chull is Some
        &&& self.parts is Some
    }

    /// The vertex with other neighbors.
    pub open spec fn linked(self, neighbors: Set<usize>) -> Self {
        VertexModel { neighbors: Some(neighbors), ..self }
    }
}

/// The undirected edge between two points of the mesh.
pub open spec fn side(a: u32, b: u32) -> Vec2<u32> {
    if a > b {
        Vec2 { x: b, y: a }
    } else {
        Vec2 { x: a, y: b }
    }
}

/// The undirected edge between two points of the mesh.
pub fn edge(a: u32, b: u32) -> (res: Vec2<u32>)
    ensures
        res == side(a, b),
{
    if a > b {
        Vec2::new(b, a)
    } else {
        Vec2::new(a, b)
    }
}

/// An edge does not depend on the order of its ends, and is determined by them.
pub proof fn edge_is_undirected(a: u32, b: u32, c: u32, d: u32)
    ensures
        side(a, b) == side(b, a),
        side(a, b).x <= side(a, b).y,
        side(a, b) == side(c, d) <==> (a == c && b == d) || (a == d && b == c),
{
}

impl<N> MeshModel<N> {
    /// Side `k` of triangle `i`.
    pub open spec fn side(self, i: int, k: int) -> Vec2<u32> {
        let t = self.indices.corners(i);
        if k == 0 {
            side(t.x, t.y)
        } else if k == 1 {
            side(t.y, t.z)
        } else {
            side(t.z, t.x)
        }
    }

    /// The sides of triangle `i`.
    pub open spec fn sides(self, i: int) -> Set<Vec2<u32>> {
        Set::empty().insert(self.side(i, 0)).insert(self.side(i, 1)).insert(self.side(i, 2))
    }
}

impl<N: Scalar> VertexModel<N> {
    /// The part that is triangle `i` alone, where `ids` numbers the rays.
    pub open spec fn single(mesh: MeshModel<N>, ids: Map<Vec2<u32>, usize>, i: int) -> Self {
        let (r1, r2, r3) = (ids[mesh.corner(i, 0)], ids[mesh.corner(i, 1)], ids[mesh.corner(i, 2)]);
        let points = mesh.corner_points(i);
        VertexModel {
            neighbors: Some(Set::empty()),
            ancestors: Some(
                seq![
                    VertexWithConcavity { id: r1, concavity: zero() },
                    VertexWithConcavity { id: r2, concavity: zero() },
                    VertexWithConcavity { id: r3, concavity: zero() },
                ],
            ),
            uancestors: Some(Set::empty().insert(r1).insert(r2).insert(r3)),
            border: Some(mesh.sides(i)),
            chull: Some(
                MeshModel {
                    coords: points,
                    normals: None,
                    indices: IndexModel::Unified(sequential(1)),
                },
            ),
            parts: Some(seq![i as usize]),
            timestamp: 0,
            concavity: zero(),
            area: area(points[0], points[1], points[2]),
            aabb: cloud_box(points),
        }
    }
}

impl<N> DualGraphVertex<N> {
    /// The sets of the vertex are in order.
    pub open spec fn wf(&self) -> bool {
        &&& self.neighbors matches Some(s) ==> s.wf()
        &&& self.uancestors matches Some(s) ==> s.wf()
        &&& self.border matches Some(s) ==> s.wf()
    }
}

/// Every vertex of the graph is in order.
pub open spec fn graph_wf<N>(graph: Seq<DualGraphVertex<N>>) -> bool {
    forall|i: int| 0 <= i < graph.len() ==> (#[trigger] graph[i]).wf()
}

/// The entries of the list that have another ray than the entry before them.
pub open spec fn first_of_runs<N>(list: Seq<VertexWithConcavity<N>>) -> Seq<VertexWithConcavity<N>>
    decreases list.len(),
{
    if list.len() == 0 {
        Seq::empty()
    } else {
        let before = first_of_runs(list.drop_last());
        if last_id(list.drop_last()) == list.last().id {
            before
        } else {
            before.push(list.last())
        }
    }
}

/// The ray of the last entry, or `usize::MAX` where there is none.
pub open spec fn last_id<N>(list: Seq<VertexWithConcavity<N>>) -> usize {
    if list.len() == 0 {
        usize::MAX
    } else {
        list.last().id
    }
}

/// Whether `entries` are those of `all` from the greatest down, without an entry for a ray
/// right after another one for the same ray.
pub open spec fn ranked<N: Scalar>(
    entries: Seq<VertexWithConcavity<N>>,
    all: Multiset<VertexWithConcavity<N>>,
) -> bool {
    exists|list: Seq<VertexWithConcavity<N>>|
        {
            &&& #[trigger] list.to_multiset() == all
            &&& descending::<VertexWithConcavity<N>>(list)
            &&& entries == first_of_runs(list)
        }
}

/// What the second vertex of a contracted edge leaves behind.
pub open spec fn absorbed<N>(v: VertexModel<N>) -> VertexModel<N> {
    VertexModel {
        neighbors: None,
        ancestors: None,
        uancestors: None,
        border: None,
        chull: None,
        parts: None,
        ..v
    }
}

/// The part made of two parts.
pub open spec fn united<N: Scalar>(
    v: VertexModel<N>,
    o: VertexModel<N>,
    edge: EdgeModel<N>,
    ancestors: Seq<VertexWithConcavity<N>>,
    chull: MeshModel<N>,
) -> VertexModel<N> {
    VertexModel {
        neighbors: Some(v.neighbors->0.union(o.neighbors->0).remove(edge.v2).remove(edge.v1)),
        ancestors: Some(ancestors),
        uancestors: Some(v.uancestors->0.union(o.uancestors->0)),
        border: Some(in_one_of(v.border->0, o.border->0)),
        chull: Some(chull),
        parts: Some(v.parts->0 + o.parts->0),
        timestamp: v.timestamp,
        concavity: edge.concavity,
        area: plus(v.area, o.area),
        aabb: v.aabb.hull(o.aabb),
    }
}

/// The graph after the contraction of an edge: its first vertex is the part made of both, its
/// second one is given up, and every neighbor of the second one is a neighbor of the first one
/// instead.
pub open spec fn contracted<N: Scalar>(
    graph: Seq<VertexModel<N>>,
    edge: EdgeModel<N>,
    ancestors: Seq<VertexWithConcavity<N>>,
    chull: MeshModel<N>,
) -> Seq<VertexModel<N>> {
    let (v, o) = (graph[edge.v1 as int], graph[edge.v2 as int]);
    Seq::new(
        graph.len(),
        |i: int|
            if i == edge.v1 {
                united(v, o, edge, ancestors, chull)
            } else if i == edge.v2 {
                absorbed(o)
            } else if o.neighbors->0.contains(i as usize) {
                graph[i].linked(graph[i].neighbors->0.remove(edge.v2).insert(edge.v1))
            } else {
                graph[i]
            },
    )
}

/// The points of the hulls of the two ends of an edge.
pub open spec fn hull_points<N>(graph: Seq<VertexModel<N>>, edge: EdgeModel<N>) -> Seq<Pnt3<N>> {
    graph[edge.v1 as int].chull->0.coords + graph[edge.v2 as int].chull->0.coords
}

/// Whether an edge can be contracted: its ends are two vertices that hold what they bring along,
/// their hulls have points, and each neighbor of the second one is a vertex that has neighbors.
pub open spec fn contractible<N>(graph: Seq<VertexModel<N>>, edge: EdgeModel<N>) -> bool {
    &&& edge.exact
    &&& edge.v1 != edge.v2
    &&& edge.v1 < graph.len()
    &&& edge.v2 < graph.len()
    &&& graph[edge.v1 as int].joinable()
    &&& graph[edge.v2 as int].joinable()
    &&& hull_points(graph, edge).len() > 0
    &&& forall|n: usize| #[trigger]
        graph[edge.v2 as int].neighbors->0.contains(n) ==> {
            &&& n < graph.len()
            &&& n != edge.v2
            &&& graph[n as int].neighbors is Some
        }
}

impl<N: Scalar> DualGraphVertex<N> {
    /// The part that is one triangle.
    pub fn new(ancestor: usize, mesh: &TriMesh<N>, raymap: &PairMap) -> (res: DualGraphVertex<N>)
        requires
            lawful::<N>(),
            ancestor < mesh@.size(),
            all_below(mesh@.indices.corners(ancestor as int), mesh@.coords.len()),
            forall|k: int|
                0 <= k < 3 ==> raymap@.contains_key(#[trigger] mesh@.corner(ancestor as int, k)),
        ensures
            res.wf(),
            res@ == VertexModel::single(mesh@, raymap@, ancestor as int),
    {
        let (idx, ns) = mesh.triangle(ancestor);
        let ghost i = ancestor as int;
        proof {
            assert(raymap@.contains_key(mesh@.corner(i, 0)));
            assert(raymap@.contains_key(mesh@.corner(i, 1)));
            assert(raymap@.contains_key(mesh@.corner(i, 2)));
        }

        let mut triangle: Vec<Pnt3<N>> = Vec::new();
        triangle.push(mesh.coords[idx.x as usize]);
        triangle.push(mesh.coords[idx.y as usize]);
        triangle.push(mesh.coords[idx.z as usize]);
        assert(triangle@ =~= mesh@.corner_points(i));

        let area = triangle_area(&triangle[0], &triangle[1], &triangle[2]);
        let (vmin, vmax) = point_cloud_aabb(triangle.as_slice());
        let aabb = AABB::new(vmin, vmax);

        let chull = TriMesh::new(triangle, None, None);

        let r1: usize = raymap.find(&Vec2::new(idx.x, ns.x)).unwrap();
        let r2: usize = raymap.find(&Vec2::new(idx.y, ns.y)).unwrap();
        let r3: usize = raymap.find(&Vec2::new(idx.z, ns.z)).unwrap();

        let mut ancestors: Vec<VertexWithConcavity<N>> = Vec::new();
        ancestors.push(VertexWithConcavity::new(r1, N::zero()));
        ancestors.push(VertexWithConcavity::new(r2, N::zero()));
        ancestors.push(VertexWithConcavity::new(r3, N::zero()));

        let mut uancestors: SortedSet<usize> = SortedSet::new();
        uancestors.insert(r1);
        uancestors.insert(r2);
        uancestors.insert(r3);

        let mut border: SortedSet<Vec2<u32>> = SortedSet::new();
        border.insert(edge(idx.x, idx.y));
        border.insert(edge(idx.y, idx.z));
        border.insert(edge(idx.z, idx.x));

        let mut parts: Vec<usize> = Vec::new();
        parts.push(ancestor);

        let res = DualGraphVertex {
            neighbors: Some(SortedSet::new()),
            ancestors: Some(ancestors),
            uancestors: Some(uancestors),
            border: Some(border),
            chull: Some(chull),
            parts: Some(parts),
            timestamp: 0,
            concavity: N::zero(),
            area,
            aabb,
        };
        assert(res@ =~~= VertexModel::single(mesh@, raymap@, i));
        res
    }

    /// Contracts an edge: the first vertex takes over everything that the second one has.
    pub fn hecol<H: Fn(&[Pnt3<N>]) -> TriMesh<N>>(
        edge: DualGraphEdge<N>,
        graph: &mut Vec<DualGraphVertex<N>>,
        hull: &H,
    )
        requires
            lawful::<N>(),
            computes_hulls(*hull),
            edge.wf(),
            graph_wf(old(graph)@),
            contractible(viewed(old(graph)@), edge@),
        ensures
            graph_wf(final(graph)@),
            exists|ancestors: Seq<VertexWithConcavity<N>>|
                #![trigger ranked(ancestors, edge@.ancestors)]
                ranked(ancestors, edge@.ancestors) && viewed(final(graph)@) == contracted(
                    viewed(old(graph)@),
                    edge@,
                    ancestors,
                    enclosure(*hull, hull_points(viewed(old(graph)@), edge@)),
                ),
            may_enclose(
                *hull,
                hull_points(viewed(old(graph)@), edge@),
                enclosure(*hull, hull_points(viewed(old(graph)@), edge@)),
            ),
            enclosure(*hull, hull_points(viewed(old(graph)@), edge@)).coords.len() > 0,
    {
        let valid: usize = edge.v1;
        let other: usize = edge.v2;
        let ghost before = viewed(graph@);
        let ghost model = edge@;
        let ghost (v, o) = (before[valid as int], before[other as int]);
        proof {
            assert(v == graph@[valid as int]@);
            assert(o == graph@[other as int]@);
            assert(graph@[valid as int].wf() && graph@[other as int].wf());
        }

        graph[other].ancestors = None;

        let other_neighbors = graph[other].neighbors.take().unwrap();
        let other_parts = graph[other].parts.take().unwrap();

        // Replace `other` by `valid` among the neighbors of its neighbors.
        let ghost list = other_neighbors.list();
        let ghost taken = graph@;
        proof {
            other_neighbors.list_is_sorted();
            assert(taken.len() == graph.len());
            assert forall|j: int| 0 <= j < list.len() implies (#[trigger] list[j]) < taken.len()
                && list[j] != other && taken[list[j] as int]@.neighbors is Some by {
                assert(list.to_set().contains(list[j]));
                assert(o.neighbors->0.contains(list[j]));
                assert(before[list[j] as int].neighbors is Some);
                assert(taken[list[j] as int] == old(graph)@[list[j] as int]);
            }
        }
        let mut k: usize = 0;
        while k < other_neighbors.len()
            invariant
                k <= list.len(),
                list == other_neighbors.list(),
                crate::set::ascending(list),
                taken.len() <= usize::MAX,
                valid < taken.len(),
                other < taken.len(),
                valid != other,
                forall|j: int|
                    0 <= j < list.len() ==> (#[trigger] list[j]) < taken.len() && list[j] != other
                        && taken[list[j] as int]@.neighbors is Some,
                graph@.len() == taken.len(),
                forall|j: int| 0 <= j < taken.len() ==> (#[trigger] taken[j]).wf(),
                forall|j: int| 0 <= j < taken.len() ==> (#[trigger] graph@[j]).wf(),
                forall|j: int|
                    0 <= j < taken.len() ==> (#[trigger] graph@[j])@ == if j != valid && list.take(
                        k as int,
                    ).contains(j as usize) {
                        relinked(taken[j]@, valid, other)
                    } else {
                        taken[j]@
                    },
                forall|j: int|
                    #![trigger graph@[j]]
                    0 <= j < taken.len() && (j == valid || !list.take(k as int).contains(j as usize))
                        ==> graph@[j] == taken[j],
            decreases list.len() - k,
        {
            let neighbor: usize = other_neighbors.get(k);
            let ghost current = graph@;
            proof {
                assert(list.take(k + 1) =~= list.take(k as int).push(neighbor));
                if list.take(k as int).contains(neighbor) {
                    let m = choose|m: int| 0 <= m < k && list.take(k as int)[m] == neighbor;
                    assert(crate::set::Key::key(list[m]) < crate::set::Key::key(list[k as int]));
                }
                assert(taken[list[k as int] as int]@.neighbors is Some);
                assert(current[neighbor as int].wf());
            }
            if neighbor != valid {
                let mut links = graph[neighbor].neighbors.take().unwrap();
                links.remove(&other);
                links.insert(valid);
                graph[neighbor].neighbors = Some(links);
                assert(graph@[neighbor as int]@ =~~= relinked(taken[neighbor as int]@, valid, other));
            }
            proof {
                assert forall|j: int| 0 <= j < taken.len() && j != neighbor implies #[trigger] graph@[j]
                    == current[j] by {}
                assert forall|j: int|
                    #![trigger graph@[j]]
                    0 <= j < taken.len() implies list.take(k + 1).contains(j as usize) == (list.take(
                    k as int,
                ).contains(j as usize) || j == neighbor) by {
                    has_pushed(list.take(k as int), neighbor, j as usize);
                }
            }
            k = k + 1;
        }
        assert(list.take(k as int) =~= list);
        let ghost relinked_graph = graph@;

        let new_ancestors = rank_ancestors(edge.ancestors);

        let other_uancestors = graph[other].uancestors.take().unwrap();
        let valid_uancestors = graph[valid].uancestors.take().unwrap();
        let new_uancestors = valid_uancestors.union(&other_uancestors);

        let valid_chull = graph[valid].chull.take().unwrap();
        let other_chull = graph[other].chull.take().unwrap();
        let mut vtx1 = valid_chull.coords;
        let mut vtx2 = other_chull.coords;
        vtx1.append(&mut vtx2);
        assert(vtx1@ == hull_points(before, model));
        let chull = convex_hull(hull, vtx1.as_slice());

        let valid_border = graph[valid].border.take().unwrap();
        let other_border = graph[other].border.take().unwrap();
        let new_border = valid_border.symmetric_difference(&other_border);

        let new_aabb = graph[valid].aabb.merged(&graph[other].aabb);
        let new_area = graph[valid].area.add(graph[other].area);

        let valid_neighbors = graph[valid].neighbors.take().unwrap();
        let mut new_neighbors = valid_neighbors.union(&other_neighbors);
        new_neighbors.remove(&other);
        new_neighbors.remove(&valid);

        let mut new_parts = graph[valid].parts.take().unwrap();
        let mut moved_parts = other_parts;
        new_parts.append(&mut moved_parts);

        graph[valid].parts = Some(new_parts);
        graph[valid].chull = Some(chull);
        graph[valid].aabb = new_aabb;
        graph[valid].neighbors = Some(new_neighbors);
        graph[valid].ancestors = Some(new_ancestors);
        graph[valid].area = new_area;
        graph[valid].concavity = edge.concavity;
        graph[valid].uancestors = Some(new_uancestors);
        graph[valid].border = Some(new_border);

        proof {
            let target = contracted(
                before,
                model,
                new_ancestors@,
                enclosure(*hull, hull_points(before, model)),
            );
            let after = viewed(graph@);
            assert forall|j: int| 0 <= j < before.len() implies #[trigger] after[j] == target[j] by {
                if j == valid {
                    assert(after[j] =~~= united(
                        v,
                        o,
                        model,
                        new_ancestors@,
                        enclosure(*hull, hull_points(before, model)),
                    ));
                } else if j == other {
                    assert(after[j] =~~= absorbed(o));
                } else {
                    assert(graph@[j] == relinked_graph[j]);
                    assert(list.contains(j as usize) == o.neighbors->0.contains(j as usize)) by {
                        assert(list.to_set().contains(j as usize) == list.contains(j as usize));
                    }
                    assert(after[j] =~~= target[j]);
                }
            }
            assert(after =~= target);
            assert(ranked(new_ancestors@, model.ancestors));
            assert forall|j: int| 0 <= j < graph@.len() implies (#[trigger] graph@[j]).wf() by {
                if j != valid && j != other {
                    assert(graph@[j] == relinked_graph[j]);
                }
            }
        }
    }
}

/// The vertex with `valid` in place of `other` among its neighbors.
spec fn relinked<N>(v: VertexModel<N>, valid: usize, other: usize) -> VertexModel<N> {
    v.linked(v.neighbors->0.remove(other).insert(valid))
}

/// The entries of the queue from the greatest down, without those that come right after
/// another one for the same ray.
fn rank_ancestors<N: Scalar>(queue: PriorityQueue<VertexWithConcavity<N>>) -> (res: Vec<
    VertexWithConcavity<N>,
>)
    requires
        lawful::<N>(),
        queue.wf(),
    ensures
        ranked(res@, queue@),
{
    let mut rest = queue;
    let mut res: Vec<VertexWithConcavity<N>> = Vec::new();
    let mut last_ancestor: usize = usize::MAX;
    let ghost mut list = Seq::<VertexWithConcavity<N>>::empty();
    proof {
        broadcast use vstd::seq_lib::group_to_multiset_ensures;

        list.to_multiset_ensures();
        assert(list.to_multiset().add(rest@) =~= queue@);
    }
    loop
        invariant
            lawful::<N>(),
            rest.wf(),
            list.to_multiset().add(rest@) == queue@,
            descending::<VertexWithConcavity<N>>(list),
            forall|i: int, x: VertexWithConcavity<N>|
                0 <= i < list.len() && #[trigger] rest@.contains(x) ==> !higher(
                    VertexWithConcavity::priority(x),
                    VertexWithConcavity::priority(#[trigger] list[i]),
                ),
            res@ == first_of_runs(list),
            last_ancestor == last_id(list),
        ensures
            ranked(res@, queue@),
        decreases rest@.len(),
    {
        let ghost before = rest@;
        match rest.pop() {
            None => {
                assert(list.to_multiset() =~= queue@);
                assert(ranked(res@, queue@));
                break;
            },
            Some(ancestor) => {
                if last_ancestor != ancestor.id {
                    last_ancestor = ancestor.id;
                    res.push(ancestor);
                }
                proof {
                    broadcast use vstd::seq_lib::group_to_multiset_ensures;

                    let longer = list.push(ancestor);
                    assert(longer.drop_last() =~= list);
                    assert(longer.to_multiset().add(rest@) =~= queue@);
                    assert forall|x: VertexWithConcavity<N>| #[trigger]
                        rest@.contains(x) implies before.contains(x) by {}
                    list = longer;
                }
            },
        }
    }
    res
}

/// The sides of a triangle are the undirected edges between any two of its corners.
pub proof fn sides_join_two_corners<N>(mesh: MeshModel<N>, i: int, e: Vec2<u32>)
    ensures
        mesh.sides(i).contains(e) <==> {
            let t = mesh.indices.corners(i);
            let c = seq![t.x, t.y, t.z];
            &&& e.x <= e.y
            &&& exists|j: int, k: int|
                0 <= j < 3 && 0 <= k < 3 && j != k && #[trigger] c[j] == e.x && #[trigger] c[k] == e.y
        },
{
    let t = mesh.indices.corners(i);
    let c = seq![t.x, t.y, t.z];
    assert(c[0] == t.x && c[1] == t.y && c[2] == t.z);
}

/// Contracting an edge gives up the second part and all that it holds, but leaves the time at which
/// each part last grew as it is, and every part that is not a neighbor of the second one.
pub proof fn contracting_keeps_times<N: Scalar>(
    graph: Seq<VertexModel<N>>,
    edge: EdgeModel<N>,
    ancestors: Seq<VertexWithConcavity<N>>,
    chull: MeshModel<N>,
    i: int,
)
    requires
        0 <= i < graph.len(),
        edge.v1 != edge.v2,
    ensures
        ({
            let h = contracted(graph, edge, ancestors, chull);
            &&& h.len() == graph.len()
            &&& h[i].timestamp == graph[i].timestamp
            &&& i == edge.v2 ==> {
                &&& h[i].parts is None && h[i].chull is None && h[i].neighbors is None
                &&& h[i].border is None && h[i].ancestors is None && h[i].uancestors is None
                &&& h[i].concavity == graph[i].concavity
                &&& h[i].area == graph[i].area
                &&& h[i].aabb == graph[i].aabb
            }
            &&& i != edge.v1 && i != edge.v2 && !graph[edge.v2 as int].neighbors->0.contains(i as usize)
                ==> h[i] == graph[i]
        }),
{
}

} // verus!
