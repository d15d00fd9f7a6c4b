//! The dual graph of a mesh: its triangles, and which of them touch each other.
use crate::linalg::Vec2;
use crate::mesh::{all_below, MeshModel, TriMesh};
use crate::queue::viewed;
use crate::rays::PairMap;
use crate::scalar::{lawful, Scalar};
use crate::vertex::{edge, graph_wf, DualGraphVertex, VertexModel};
use vstd::prelude::*;

verus! {

/// Whether `t` is the first triangle that has the side `e`.
pub open spec fn first_with(s: Set<(usize, Vec2<u32>)>, t: usize, e: Vec2<u32>) -> bool {
    s.contains((t, e)) && forall|u: usize| #[trigger] s.contains((u, e)) ==> t <= u
}

/// Whether two triangles are neighbors: they share a side, and one of the two is the first
/// triangle that has it. (Of three triangles at one side, the second and the third one are
/// neighbors of the first one only.)
pub open spec fn linked(s: Set<(usize, Vec2<u32>)>, a: usize, b: usize) -> bool {
    a != b && exists|e: Vec2<u32>|
        {
            &&& #[trigger] s.contains((a, e))
            &&& s.contains((b, e))
            &&& first_with(s, a, e) || first_with(s, b, e)
        }
}

impl<N> MeshModel<N> {
    /// The sides of the first triangles, each with its triangle.
    pub open spec fn incidences(self, triangles: nat) -> Set<(usize, Vec2<u32>)> {
        Set::new(|p: (usize, Vec2<u32>)| p.0 < triangles && self.sides(p.0 as int).contains(p.1))
    }

    /// The neighbors of triangle `i`.
    pub open spec fn touching(self, i: int) -> Set<usize> {
        Set::new(|j: usize| linked(self.incidences(self.size()), i as usize, j))
    }
}

impl<N: Scalar> MeshModel<N> {
    /// The vertex of triangle `i`.
    pub open spec fn dual_vertex(self, ids: Map<Vec2<u32>, usize>, i: int) -> VertexModel<N> {
        VertexModel::single(self, ids, i).linked(self.touching(i))
    }

    /// The dual graph, where `ids` numbers the rays.
    pub open spec fn dual_graph(self, ids: Map<Vec2<u32>, usize>) -> Seq<VertexModel<N>> {
        Seq::new(self.size(), |i: int| self.dual_vertex(ids, i))
    }
}

/// Two triangles that share a side which no third triangle has are neighbors.
pub proof fn sharing_a_side_makes_neighbors<N>(mesh: MeshModel<N>, i: usize, j: usize, e: Vec2<u32>)
    requires
        i < mesh.size(),
        j < mesh.size(),
        i != j,
        mesh.sides(i as int).contains(e),
        mesh.sides(j as int).contains(e),
        forall|k: usize|
            k < mesh.size() && k != i && k != j ==> !(#[trigger] mesh.sides(k as int)).contains(e),
    ensures
        mesh.touching(i as int).contains(j),
        mesh.touching(j as int).contains(i),
{
    let s = mesh.incidences(mesh.size());
    assert(s.contains((i, e)) && s.contains((j, e)));
    if i < j {
        assert(first_with(s, i, e));
    } else {
        assert(first_with(s, j, e));
    }
}

/// Being neighbors goes both ways, takes two triangles of the mesh, and takes a side that both
/// of them have.
pub proof fn neighbors_share_a_side<N>(mesh: MeshModel<N>, i: usize, j: usize)
    requires
        i < mesh.size(),
        mesh.touching(i as int).contains(j),
    ensures
        i != j,
        j < mesh.size(),
        mesh.touching(j as int).contains(i),
        exists|e: Vec2<u32>| #[trigger]
            mesh.sides(i as int).contains(e) && mesh.sides(j as int).contains(e),
{
    let s = mesh.incidences(mesh.size());
    let e = choose|e: Vec2<u32>|
        {
            &&& #[trigger] s.contains((i, e))
            &&& s.contains((j, e))
            &&& first_with(s, i, e) || first_with(s, j, e)
        };
    assert(s.contains((j, e)));
    assert(mesh.sides(i as int).contains(e));
}

/// Two triangles are neighbors exactly where they share a side that no triangle before the one, or
/// none before the other, has.
pub proof fn neighbors_meet_at_the_first_triangle<N>(mesh: MeshModel<N>, i: usize, j: usize)
    requires
        i < mesh.size(),
        j < mesh.size(),
        i != j,
        mesh.size() <= usize::MAX,
    ensures
        mesh.touching(i as int).contains(j) <==> exists|e: Vec2<u32>|
            {
                &&& #[trigger] mesh.sides(i as int).contains(e)
                &&& mesh.sides(j as int).contains(e)
                &&& (forall|k: int| 0 <= k < i ==> !(#[trigger] mesh.sides(k)).contains(e)) || (forall|
                    k: int,
                |
                    0 <= k < j ==> !(#[trigger] mesh.sides(k)).contains(e))
            },
{
    let s = mesh.incidences(mesh.size());
    assert forall|t: usize, e: Vec2<u32>| t < mesh.size() && mesh.sides(t as int).contains(
        e,
    ) implies #[trigger] first_with(s, t, e) == (forall|k: int|
        0 <= k < t ==> !(#[trigger] mesh.sides(k)).contains(e)) by {
        if first_with(s, t, e) {
            assert forall|k: int| 0 <= k < t implies !(#[trigger] mesh.sides(k)).contains(e) by {
                if mesh.sides(k).contains(e) {
                    assert(s.contains((k as usize, e)));
                }
            }
        }
        assert(s.contains((t, e)));
    }
    if mesh.touching(i as int).contains(j) {
        let e = choose|e: Vec2<u32>|
            {
                &&& #[trigger] s.contains((i, e))
                &&& s.contains((j, e))
                &&& first_with(s, i, e) || first_with(s, j, e)
            };
        assert(mesh.sides(i as int).contains(e));
    }
    if exists|e: Vec2<u32>|
        {
            &&& #[trigger] mesh.sides(i as int).contains(e)
            &&& mesh.sides(j as int).contains(e)
            &&& (forall|k: int| 0 <= k < i ==> !(#[trigger] mesh.sides(k)).contains(e)) || (forall|k: int|
                0 <= k < j ==> !(#[trigger] mesh.sides(k)).contains(e))
        } {
        let e = choose|e: Vec2<u32>|
            {
                &&& #[trigger] mesh.sides(i as int).contains(e)
                &&& mesh.sides(j as int).contains(e)
                &&& (forall|k: int| 0 <= k < i ==> !(#[trigger] mesh.sides(k)).contains(e)) || (forall|
                    k: int,
                |
                    0 <= k < j ==> !(#[trigger] mesh.sides(k)).contains(e))
            };
        assert(s.contains((i, e)) && s.contains((j, e)));
        assert(first_with(s, i, e) || first_with(s, j, e));
    }
}

proof fn same_first(s: Set<(usize, Vec2<u32>)>, w: Set<(usize, Vec2<u32>)>, t: usize, e: Vec2<u32>)
    requires
        forall|u: usize| s.contains((u, e)) == #[trigger] w.contains((u, e)),
    ensures
        first_with(s, t, e) == first_with(w, t, e),
{
    if first_with(w, t, e) {
        assert forall|u: usize| #[trigger] s.contains((u, e)) implies t <= u by {
            assert(w.contains((u, e)));
        }
        assert(w.contains((t, e)));
    }
    if first_with(s, t, e) {
        assert(s.contains((t, e)) == w.contains((t, e)));
    }
}

/// One more side makes its triangle a neighbor of the first triangle that has it.
proof fn one_more_side(s: Set<(usize, Vec2<u32>)>, i: usize, e: Vec2<u32>, other: usize)
    requires
        forall|t: usize, x: Vec2<u32>| #[trigger] s.contains((t, x)) ==> t <= i,
        first_with(s.insert((i, e)), other, e),
    ensures
        forall|a: usize, b: usize| #[trigger]
            linked(s.insert((i, e)), a, b) == (linked(s, a, b) || (i != other && ((a == i && b == other)
                || (a == other && b == i)))),
{
    let w = s.insert((i, e));
    assert forall|t: usize, x: Vec2<u32>| x != e implies #[trigger] first_with(w, t, x) == first_with(
        s,
        t,
        x,
    ) by {
        same_first(s, w, t, x);
    }
    assert forall|a: usize, b: usize| #[trigger] linked(w, a, b) == (linked(s, a, b) || (i != other && ((a
        == i && b == other) || (a == other && b == i)))) by {
        if linked(w, a, b) {
            let x = choose|x: Vec2<u32>|
                {
                    &&& #[trigger] w.contains((a, x))
                    &&& w.contains((b, x))
                    &&& first_with(w, a, x) || first_with(w, b, x)
                };
            if x != e {
                assert(s.contains((a, x)) && s.contains((b, x)));
                assert(first_with(s, a, x) || first_with(s, b, x));
                assert(linked(s, a, b));
            } else if s.contains((a, e)) && s.contains((b, e)) {
                assert(w.contains((a, e)) && w.contains((b, e)));
                let first = if first_with(w, a, e) {
                    a
                } else {
                    b
                };
                assert forall|u: usize| #[trigger] s.contains((u, e)) implies first <= u by {
                    assert(w.contains((u, e)));
                }
                assert(first_with(s, first, e));
                assert(linked(s, a, b));
            } else {
                assert(w.contains((a, e)) && w.contains((b, e)));
            }
        }
        if linked(s, a, b) {
            let x = choose|x: Vec2<u32>|
                {
                    &&& #[trigger] s.contains((a, x))
                    &&& s.contains((b, x))
                    &&& first_with(s, a, x) || first_with(s, b, x)
                };
            assert(w.contains((a, x)) && w.contains((b, x)));
            if x == e {
                if first_with(s, a, e) {
                    assert(first_with(w, a, e));
                } else {
                    assert(first_with(w, b, e));
                }
            } else {
                assert(first_with(w, a, x) || first_with(w, b, x));
            }
        }
        if i != other && ((a == i && b == other) || (a == other && b == i)) {
            assert(w.contains((a, e)) && w.contains((b, e)));
        }
    }
}

/// Whether the map gives each side the first triangle that has it.
spec fn first_triangles(m: Map<Vec2<u32>, usize>, s: Set<(usize, Vec2<u32>)>) -> bool {
    &&& forall|e: Vec2<u32>| #[trigger] m.contains_key(e) ==> first_with(s, m[e], e)
    &&& forall|t: usize, e: Vec2<u32>| #[trigger] s.contains((t, e)) ==> m.contains_key(e)
}

/// Whether the vertices are the triangles of the mesh, with the neighbors that the given sides
/// make.
spec fn linked_so_far<N: Scalar>(
    graph: Seq<VertexModel<N>>,
    mesh: MeshModel<N>,
    ids: Map<Vec2<u32>, usize>,
    s: Set<(usize, Vec2<u32>)>,
) -> bool {
    &&& graph.len() == mesh.size()
    &&& forall|i: int|
        0 <= i < graph.len() ==> #[trigger] graph[i] == VertexModel::single(mesh, ids, i).linked(
            Set::new(|j: usize| linked(s, i as usize, j)),
        )
}

/// Makes a vertex a neighbor of another one.
fn add_neighbor<N: Scalar>(graph: &mut Vec<DualGraphVertex<N>>, i: usize, neighbor: usize)
    requires
        i < old(graph)@.len(),
        graph_wf(old(graph)@),
        old(graph)@[i as int]@.neighbors is Some,
    ensures
        graph_wf(final(graph)@),
        viewed(final(graph)@) == viewed(old(graph)@).update(
            i as int,
            old(graph)@[i as int]@.linked(old(graph)@[i as int]@.neighbors->0.insert(neighbor)),
        ),
{
    assert(graph@[i as int].wf());
    let ghost before = graph@;
    let mut links = graph[i].neighbors.take().unwrap();
    links.insert(neighbor);
    graph[i].neighbors = Some(links);
    proof {
        assert(graph@[i as int]@ =~~= before[i as int]@.linked(
            before[i as int]@.neighbors->0.insert(neighbor),
        ));
        assert(viewed(graph@) =~= viewed(before).update(
            i as int,
            before[i as int]@.linked(before[i as int]@.neighbors->0.insert(neighbor)),
        ));
        assert forall|j: int| 0 <= j < graph@.len() implies (#[trigger] graph@[j]).wf() by {
            if j != i {
                assert(graph@[j] == before[j]);
            }
        }
    }
}

/// Takes a side of triangle `i` into account.
fn add_edge<N: Scalar>(
    i: usize,
    e: Vec2<u32>,
    prim_edges: &mut PairMap,
    graph: &mut Vec<DualGraphVertex<N>>,
    Ghost(mesh): Ghost<MeshModel<N>>,
    Ghost(ids): Ghost<Map<Vec2<u32>, usize>>,
    Ghost(s): Ghost<Set<(usize, Vec2<u32>)>>,
)
    requires
        i < mesh.size(),
        forall|t: usize, x: Vec2<u32>| #[trigger] s.contains((t, x)) ==> t <= i,
        first_triangles(old(prim_edges)@, s),
        graph_wf(old(graph)@),
        linked_so_far(viewed(old(graph)@), mesh, ids, s),
    ensures
        first_triangles(final(prim_edges)@, s.insert((i, e))),
        graph_wf(final(graph)@),
        linked_so_far(viewed(final(graph)@), mesh, ids, s.insert((i, e))),
{
    let ghost before = viewed(graph@);
    let ghost w = s.insert((i, e));
    let other: usize = match prim_edges.find(&e) {
        Some(t) => t,
        None => {
            prim_edges.insert(e, i);
            i
        },
    };
    proof {
        assert(first_with(w, other, e)) by {
            assert forall|u: usize| #[trigger] w.contains((u, e)) implies other <= u by {
                assert(u == i || s.contains((u, e)));
            }
        }
        assert forall|x: Vec2<u32>| #[trigger] prim_edges@.contains_key(x) implies first_with(
            w,
            prim_edges@[x],
            x,
        ) by {
            if x != e {
                assert(old(prim_edges)@.contains_key(x));
                assert forall|u: usize| #[trigger] w.contains((u, x)) implies prim_edges@[x] <= u by {
                    assert(s.contains((u, x)));
                }
            }
        }
        one_more_side(s, i, e, other);
        assert(other <= i) by {
            assert(w.contains((i, e)));
        }
        assert(before[i as int] == graph@[i as int]@);
        assert(before[other as int] == graph@[other as int]@);
    }
    if other != i {
        add_neighbor(graph, i, other);
        assert(viewed(graph@).len() == graph@.len());
        assert(viewed(graph@)[other as int] == graph@[other as int]@);
        add_neighbor(graph, other, i);
    }
    proof {
        let after = viewed(graph@);
        assert forall|a: int| 0 <= a < after.len() implies #[trigger] after[a] == VertexModel::single(
            mesh,
            ids,
            a,
        ).linked(Set::new(|j: usize| linked(w, a as usize, j))) by {
            let then = Set::new(|j: usize| linked(s, a as usize, j));
            let now = Set::new(|j: usize| linked(w, a as usize, j));
            assert(before[a] == VertexModel::single(mesh, ids, a).linked(then));
            assert(graph.len() == after.len());
            if other != i && a == i {
                assert(now =~= then.insert(other)) by {
                    assert forall|j: usize| now.contains(j) == then.insert(other).contains(j) by {
                        assert(linked(w, a as usize, j) == now.contains(j));
                    }
                }
            } else if other != i && a == other {
                assert(now =~= then.insert(i)) by {
                    assert forall|j: usize| now.contains(j) == then.insert(i).contains(j) by {
                        assert(linked(w, a as usize, j) == now.contains(j));
                    }
                }
            } else {
                assert(now =~= then) by {
                    assert forall|j: usize| now.contains(j) == then.contains(j) by {
                        assert(linked(w, a as usize, j) == now.contains(j));
                    }
                }
            }
        }
    }
}

/// The dual graph of the mesh.
pub fn compute_dual_graph<N: Scalar>(mesh: &TriMesh<N>, raymap: &PairMap) -> (res: Vec<
    DualGraphVertex<N>,
>)
    requires
        lawful::<N>(),
        mesh@.located(),
        forall|i: int, k: int|
            0 <= i < mesh@.size() && 0 <= k < 3 ==> raymap@.contains_key(#[trigger] mesh@.corner(i, k)),
    ensures
        graph_wf(res@),
        viewed(res@) == mesh@.dual_graph(raymap@),
{
    let n: usize = mesh.num_triangles();
    let ghost model = mesh@;
    let ghost ids = raymap@;
    let mut prim_edges = PairMap::new();
    let mut dual_vertices: Vec<DualGraphVertex<N>> = Vec::new();
    let mut i: usize = 0;
    while i < n
        invariant
            lawful::<N>(),
            model == mesh@,
            ids == raymap@,
            model.located(),
            n == model.size(),
            forall|i: int, k: int|
                0 <= i < n && 0 <= k < 3 ==> raymap@.contains_key(#[trigger] model.corner(i, k)),
            i <= n,
            dual_vertices@.len() == i,
            graph_wf(dual_vertices@),
            forall|j: int|
                0 <= j < i ==> (#[trigger] dual_vertices@[j])@ == VertexModel::single(model, ids, j),
        decreases n - i,
    {
        assert(all_below(model.indices.corners(i as int), model.coords.len()));
        dual_vertices.push(DualGraphVertex::new(i, mesh, raymap));
        i = i + 1;
    }

    let mut i: usize = 0;
    proof {
        let none = model.incidences(0);
        assert(forall|p: (usize, Vec2<u32>)| !none.contains(p));
        assert forall|j: int| 0 <= j < n implies #[trigger] viewed(dual_vertices@)[j]
            == VertexModel::single(model, ids, j).linked(Set::new(|b: usize| linked(none, j as usize, b))) by {
            assert(Set::new(|b: usize| linked(none, j as usize, b)) =~= Set::empty());
            assert(viewed(dual_vertices@)[j] == dual_vertices@[j]@);
        }
    }
    while i < n
        invariant
            model == mesh@,
            ids == raymap@,
            n == model.size(),
            i <= n,
            first_triangles(prim_edges@, model.incidences(i as nat)),
            graph_wf(dual_vertices@),
            linked_so_far(viewed(dual_vertices@), model, ids, model.incidences(i as nat)),
        decreases n - i,
    {
        let (t, _) = mesh.triangle(i);
        let ghost s0 = model.incidences(i as nat);
        let ghost s1 = s0.insert((i, model.side(i as int, 0)));
        let ghost s2 = s1.insert((i, model.side(i as int, 1)));
        proof {
            let s3 = s2.insert((i, model.side(i as int, 2)));
            assert(s3 =~= model.incidences((i + 1) as nat));
        }
        add_edge(
            i,
            edge(t.x, t.y),
            &mut prim_edges,
            &mut dual_vertices,
            Ghost(model),
            Ghost(ids),
            Ghost(s0),
        );
        add_edge(
            i,
            edge(t.y, t.z),
            &mut prim_edges,
            &mut dual_vertices,
            Ghost(model),
            Ghost(ids),
            Ghost(s1),
        );
        add_edge(
            i,
            edge(t.z, t.x),
            &mut prim_edges,
            &mut dual_vertices,
            Ghost(model),
            Ghost(ids),
            Ghost(s2),
        );
        i = i + 1;
    }
    assert(viewed(dual_vertices@) =~= model.dual_graph(ids));
    dual_vertices
}

} // verus!
