//! The parts of a decimation hang together.
use crate::ancestor::VertexWithConcavity;
use crate::decimation::{decimates, Phase, SceneModel};
use crate::dual_graph::neighbors_share_a_side;
use crate::edge::EdgeModel;
use crate::kernel::ConvexPair;
use crate::laws::{
    concatenation_holds, joined_owners, joins, owns, partitioned, parts_are_a_partition, pass_at,
    passes_join_or_keep, states_are_sound,
};
use crate::linalg::{Pnt3, Vec2};
use crate::mesh::{MeshModel, TriMesh};
use crate::rays::Ray;
use crate::scalar::Scalar;
use crate::vertex::VertexModel;
use vstd::prelude::*;

verus! {

/// Whether triangle `b` is a neighbor of triangle `a`.
pub open spec fn adjacent<N>(mesh: MeshModel<N>, a: usize, b: usize) -> bool {
    mesh.touching(a as int).contains(b)
}

/// Whether the list leads from triangle to neighboring triangle, inside of the part.
pub open spec fn is_path<N>(mesh: MeshModel<N>, part: Seq<usize>, path: Seq<usize>) -> bool {
    &&& path.len() > 0
    &&& forall|k: int| 0 <= k < path.len() ==> part.contains(#[trigger] path[k])
    &&& forall|k: int, l: int|
        0 <= k < path.len() && l == k + 1 && l < path.len() ==> adjacent(
            mesh,
            #[trigger] path[k],
            #[trigger] path[l],
        )
}

/// Whether a path inside of the part leads from `a` to `b`.
pub open spec fn reaches<N>(mesh: MeshModel<N>, part: Seq<usize>, a: usize, b: usize) -> bool {
    exists|path: Seq<usize>| #[trigger]
        is_path(mesh, part, path) && path.first() == a && path.last() == b
}

/// Whether any two triangles of the part are joined by a path of neighbors inside of the part.
pub open spec fn connected<N>(mesh: MeshModel<N>, part: Seq<usize>) -> bool {
    forall|a: usize, b: usize| #[trigger]
        part.contains(a) && #[trigger] part.contains(b) ==> reaches(mesh, part, a, b)
}

/// Whether a triangle of `p` is a neighbor of a triangle of `q`.
pub open spec fn adjoin<N>(mesh: MeshModel<N>, p: Seq<usize>, q: Seq<usize>) -> bool {
    exists|a: usize, b: usize|
        p.contains(a) && q.contains(b) && #[trigger] adjacent(mesh, a, b)
}

/// A path inside of a part is a path inside of every larger part.
pub proof fn wider_reach<N>(mesh: MeshModel<N>, p: Seq<usize>, q: Seq<usize>, a: usize, b: usize)
    requires
        forall|t: usize| #[trigger] p.contains(t) ==> q.contains(t),
        reaches(mesh, p, a, b),
    ensures
        reaches(mesh, q, a, b),
{
    let path = choose|path: Seq<usize>| #[trigger]
        is_path(mesh, p, path) && path.first() == a && path.last() == b;
    assert forall|k: int| 0 <= k < path.len() implies q.contains(#[trigger] path[k]) by {
        assert(p.contains(path[k]));
    }
    assert(is_path(mesh, q, path));
}

/// Two paths make one where the first of them ends beside the start of the second one.
pub proof fn longer_reach<N>(mesh: MeshModel<N>, p: Seq<usize>, a: usize, x: usize, y: usize, b: usize)
    requires
        reaches(mesh, p, a, x),
        adjacent(mesh, x, y),
        reaches(mesh, p, y, b),
    ensures
        reaches(mesh, p, a, b),
{
    let first = choose|path: Seq<usize>| #[trigger]
        is_path(mesh, p, path) && path.first() == a && path.last() == x;
    let second = choose|path: Seq<usize>| #[trigger]
        is_path(mesh, p, path) && path.first() == y && path.last() == b;
    let path = first + second;
    let n = first.len() as int;
    assert forall|k: int| 0 <= k < path.len() implies p.contains(#[trigger] path[k]) by {
        if k < n {
            assert(path[k] == first[k]);
        } else {
            assert(path[k] == second[k - n]);
        }
    }
    assert forall|k: int, l: int| 0 <= k < path.len() && l == k + 1 && l < path.len() implies adjacent(
        mesh,
        #[trigger] path[k],
        #[trigger] path[l],
    ) by {
        if l < n {
            assert(path[k] == first[k] && path[l] == first[l]);
        } else if l == n {
            assert(path[k] == first[n - 1] && path[l] == second[0]);
        } else {
            assert(path[k] == second[k - n] && path[l] == second[l - n]);
        }
    }
    assert(is_path(mesh, p, path));
    assert(path.first() == a && path.last() == b);
}

/// Two connected parts that adjoin make a connected part.
proof fn union_is_connected<N>(mesh: MeshModel<N>, p: Seq<usize>, q: Seq<usize>)
    requires
        connected(mesh, p),
        connected(mesh, q),
        adjoin(mesh, p, q),
        forall|t: usize| #[trigger] p.contains(t) ==> t < mesh.size(),
    ensures
        connected(mesh, p + q),
{
    let whole = p + q;
    let (x, y) = choose|a: usize, b: usize|
        p.contains(a) && q.contains(b) && #[trigger] adjacent(mesh, a, b);
    neighbors_share_a_side(mesh, x, y);
    assert(adjacent(mesh, y, x));
    assert forall|t: usize| #[trigger] p.contains(t) implies whole.contains(t) by {
        concatenation_holds(p, q, t);
    }
    assert forall|t: usize| #[trigger] q.contains(t) implies whole.contains(t) by {
        concatenation_holds(p, q, t);
    }
    assert forall|a: usize, b: usize| #[trigger] whole.contains(a) && #[trigger] whole.contains(
        b,
    ) implies reaches(mesh, whole, a, b) by {
        concatenation_holds(p, q, a);
        concatenation_holds(p, q, b);
        if p.contains(a) && p.contains(b) {
            wider_reach(mesh, p, whole, a, b);
        } else if q.contains(a) && q.contains(b) {
            wider_reach(mesh, q, whole, a, b);
        } else if p.contains(a) {
            wider_reach(mesh, p, whole, a, x);
            wider_reach(mesh, q, whole, y, b);
            longer_reach(mesh, whole, a, x, y, b);
        } else {
            wider_reach(mesh, q, whole, a, y);
            wider_reach(mesh, p, whole, x, b);
            longer_reach(mesh, whole, a, y, x, b);
        }
    }
}

/// Larger parts adjoin where smaller ones do.
proof fn wider_adjoin<N>(
    mesh: MeshModel<N>,
    p: Seq<usize>,
    q: Seq<usize>,
    wide_p: Seq<usize>,
    wide_q: Seq<usize>,
)
    requires
        adjoin(mesh, p, q),
        forall|t: usize| #[trigger] p.contains(t) ==> wide_p.contains(t),
        forall|t: usize| #[trigger] q.contains(t) ==> wide_q.contains(t),
    ensures
        adjoin(mesh, wide_p, wide_q),
{
    let (a, b) = choose|a: usize, b: usize|
        p.contains(a) && q.contains(b) && #[trigger] adjacent(mesh, a, b);
    assert(wide_p.contains(a) && wide_q.contains(b));
}

/// Whether each part is connected, and two parts are neighbors exactly where they adjoin.
pub open spec fn hangs_together<N>(mesh: MeshModel<N>, graph: Seq<VertexModel<N>>) -> bool {
    &&& forall|i: int|
        0 <= i < graph.len() && graph[i].alive() ==> connected(mesh, (#[trigger] graph[i]).parts->0)
    &&& forall|i: int, j: usize|
        0 <= i < graph.len() && graph[i].alive() && #[trigger] graph[i].neighbors->0.contains(j)
            ==> adjoin(mesh, graph[i].parts->0, graph[j as int].parts->0)
    &&& forall|i: int, j: int, a: usize, b: usize|
        0 <= i < graph.len() && 0 <= j < graph.len() && i != j && #[trigger] owns(graph, i, a)
            && #[trigger] owns(graph, j, b) && adjacent(mesh, a, b)
            ==> graph[i].neighbors->0.contains(j as usize)
}

proof fn joining_keeps_together<N: Scalar>(
    mesh: MeshModel<N>,
    scene: SceneModel<N>,
    pre: Phase<N>,
    post: Phase<N>,
    e: EdgeModel<N>,
    ancestors: Seq<VertexWithConcavity<N>>,
    chull: MeshModel<N>,
)
    requires
        joins(scene, pre, post, e, ancestors, chull),
        pre.sound(scene),
        pre.graph.len() == mesh.size(),
        partitioned(pre.graph),
        hangs_together(mesh, pre.graph),
    ensures
        forall|i: int|
            0 <= i < post.graph.len() && post.graph[i].alive() ==> connected(
                mesh,
                (#[trigger] post.graph[i]).parts->0,
            ),
        forall|i: int, j: usize|
            0 <= i < post.graph.len() && post.graph[i].alive()
                && #[trigger] post.graph[i].neighbors->0.contains(j) ==> adjoin(
                mesh,
                post.graph[i].parts->0,
                post.graph[j as int].parts->0,
            ),
{
    let (g, h) = (pre.graph, post.graph);
    let (v, o) = (e.v1 as int, e.v2 as int);
    let (p, q) = (g[v].parts->0, g[o].parts->0);
    assert(g[v].neighbors->0.contains(e.v2));
    assert forall|t: usize| #[trigger] p.contains(t) implies t < mesh.size() by {
        assert(owns(g, v, t));
    }
    assert(connected(mesh, g[v].parts->0) && connected(mesh, g[o].parts->0));
    union_is_connected(mesh, p, q);
    assert forall|t: usize| #[trigger] p.contains(t) implies (p + q).contains(t) by {
        concatenation_holds(p, q, t);
    }
    assert forall|t: usize| #[trigger] q.contains(t) implies (p + q).contains(t) by {
        concatenation_holds(p, q, t);
    }
    assert forall|i: int| 0 <= i < h.len() && h[i].alive() implies connected(
        mesh,
        (#[trigger] h[i]).parts->0,
    ) by {
        if i != v {
            assert(connected(mesh, g[i].parts->0));
        }
    }
    assert(pre.links_sound(v) && pre.links_sound(o));
    assert forall|i: int, j: usize|
        0 <= i < h.len() && h[i].alive() && #[trigger] h[i].neighbors->0.contains(j) implies adjoin(
        mesh,
        h[i].parts->0,
        h[j as int].parts->0,
    ) by {
        assert(pre.links_sound(i));
        if i == v {
            if g[v].neighbors->0.contains(j) {
                wider_adjoin(mesh, p, g[j as int].parts->0, p + q, g[j as int].parts->0);
            } else {
                assert(g[o].neighbors->0.contains(j));
                wider_adjoin(mesh, q, g[j as int].parts->0, p + q, g[j as int].parts->0);
            }
        } else if j == v {
            if g[i].neighbors->0.contains(e.v1) {
                wider_adjoin(mesh, g[i].parts->0, p, g[i].parts->0, p + q);
            } else {
                assert(g[o].neighbors->0.contains(i as usize));
                assert(g[i].neighbors->0.contains(e.v2));
                wider_adjoin(mesh, g[i].parts->0, q, g[i].parts->0, p + q);
            }
        } else {
            assert(g[i].neighbors->0.contains(j));
            if j == o {
                assert(g[o].neighbors->0.contains(i as usize));
            }
        }
    }
}

/// After two parts have been made one, parts that adjoin are neighbors.
proof fn joining_keeps_neighbors<N: Scalar>(
    mesh: MeshModel<N>,
    scene: SceneModel<N>,
    pre: Phase<N>,
    post: Phase<N>,
    e: EdgeModel<N>,
    ancestors: Seq<VertexWithConcavity<N>>,
    chull: MeshModel<N>,
    i: int,
    j: int,
    a: usize,
    b: usize,
)
    requires
        joins(scene, pre, post, e, ancestors, chull),
        pre.sound(scene),
        hangs_together(mesh, pre.graph),
        0 <= i < post.graph.len(),
        0 <= j < post.graph.len(),
        i != j,
        owns(post.graph, i, a),
        owns(post.graph, j, b),
        adjacent(mesh, a, b),
    ensures
        post.graph[i].neighbors->0.contains(j as usize),
{
    let (g, h) = (pre.graph, post.graph);
    let (v, o) = (e.v1 as int, e.v2 as int);
    joined_owners(scene, pre, post, e, ancestors, chull);
    assert(pre.links_sound(i) && pre.links_sound(j) && pre.links_sound(o));
    let i0 = if i == v && owns(g, o, a) {
        o
    } else {
        i
    };
    let j0 = if j == v && owns(g, o, b) {
        o
    } else {
        j
    };
    assert(owns(g, i0, a) && owns(g, j0, b));
    assert(g[i0].neighbors->0.contains(j0 as usize));
    assert(pre.links_sound(i0));
    if j0 == o {
        assert(g[o].neighbors->0.contains(i0 as usize));
    }
}

/// At every moment of a decimation each part is connected: any two of its triangles are joined
/// by a path of neighboring triangles inside of the part. Two parts are neighbors exactly where a
/// triangle of one is a neighbor of a triangle of the other.
pub proof fn parts_are_connected<
    N: Scalar,
    C: Fn(&ConvexPair<N>, &Ray<N>) -> Option<N>,
    H: Fn(&[Pnt3<N>]) -> TriMesh<N>,
>(
    mesh: MeshModel<N>,
    error: N,
    min_components: nat,
    cast: C,
    hull: H,
    trace: Seq<Phase<N>>,
    i: int,
)
    requires
        mesh.complete(),
        mesh.countable(),
        decimates(mesh, error, min_components, cast, hull, trace),
        0 <= i < trace.len(),
    ensures
        hangs_together(mesh, trace[i].graph),
    decreases i,
{
    let scene = mesh.scene(error);
    if i == 0 {
        let g = trace[0].graph;
        assert forall|k: int| 0 <= k < g.len() && g[k].alive() implies connected(
            mesh,
            (#[trigger] g[k]).parts->0,
        ) by {
            let part = g[k].parts->0;
            assert(part == seq![k as usize]);
            assert(part[0] == k);
            assert forall|a: usize, b: usize| #[trigger] part.contains(a) && #[trigger] part.contains(
                b,
            ) implies reaches(mesh, part, a, b) by {
                assert(is_path(mesh, part, part));
            }
        }
        assert forall|k: int, j: usize|
            0 <= k < g.len() && g[k].alive() && #[trigger] g[k].neighbors->0.contains(j) implies adjoin(
            mesh,
            g[k].parts->0,
            g[j as int].parts->0,
        ) by {
            neighbors_share_a_side(mesh, k as usize, j);
            assert(g[k].parts->0[0] == k && g[j as int].parts->0[0] == j);
            assert(g[k].parts->0.contains(k as usize) && g[j as int].parts->0.contains(j));
            assert(adjacent(mesh, k as usize, j));
        }
        assert forall|k: int, l: int, a: usize, b: usize|
            0 <= k < g.len() && 0 <= l < g.len() && k != l && #[trigger] owns(g, k, a)
                && #[trigger] owns(g, l, b) && adjacent(mesh, a, b) implies g[k].neighbors->0.contains(
            l as usize,
        ) by {
            assert(g[k].parts->0[0] == k && g[l].parts->0[0] == l);
            assert(a == k && b == l);
        }
    } else {
        parts_are_connected(mesh, error, min_components, cast, hull, trace, i - 1);
        parts_are_a_partition(mesh, error, min_components, cast, hull, trace, i - 1);
        states_are_sound(mesh, error, min_components, cast, hull, trace, i - 1);
        let outcome = pass_at(mesh, error, min_components, cast, hull, trace, i - 1);
        match passes_join_or_keep(scene, cast, hull, trace[i - 1], outcome, trace[i]) {
            None => {},
            Some((e, ancestors, chull)) => {
                let (pre, post) = (trace[i - 1], trace[i]);
                let h = post.graph;
                joining_keeps_together(mesh, scene, pre, post, e, ancestors, chull);
                assert forall|k: int, l: int, a: usize, b: usize|
                    0 <= k < h.len() && 0 <= l < h.len() && k != l && #[trigger] owns(h, k, a)
                        && #[trigger] owns(h, l, b) && adjacent(
                        mesh,
                        a,
                        b,
                    ) implies h[k].neighbors->0.contains(l as usize) by {
                    joining_keeps_neighbors(
                        mesh,
                        scene,
                        pre,
                        post,
                        e,
                        ancestors,
                        chull,
                        k,
                        l,
                        a,
                        b,
                    );
                }
            },
        }
    }
}

/// Which triangles are neighbors depends on nothing but the corners of the triangles.
pub proof fn corners_make_neighbors<N>(mesh: MeshModel<N>, other: MeshModel<N>)
    requires
        mesh.indices == other.indices,
    ensures
        forall|a: usize, b: usize| #[trigger] adjacent(mesh, a, b) == adjacent(other, a, b),
{
    assert forall|k: int| #[trigger] mesh.sides(k) == other.sides(k) by {}
    assert(mesh.incidences(mesh.size()) =~= other.incidences(other.size())) by {
        assert forall|p: (usize, Vec2<u32>)| #[trigger] mesh.incidences(mesh.size()).contains(p)
            == other.incidences(other.size()).contains(p) by {
            assert(mesh.sides(p.0 as int) == other.sides(p.0 as int));
        }
    }
}

/// Whether a part is connected depends on nothing but the corners of the triangles.
pub proof fn corners_make_connections<N>(mesh: MeshModel<N>, other: MeshModel<N>, part: Seq<usize>)
    requires
        mesh.indices == other.indices,
        connected(mesh, part),
    ensures
        connected(other, part),
{
    corners_make_neighbors(mesh, other);
    assert forall|a: usize, b: usize| #[trigger] part.contains(a) && #[trigger] part.contains(
        b,
    ) implies reaches(other, part, a, b) by {
        assert(reaches(mesh, part, a, b));
        let path = choose|path: Seq<usize>| #[trigger]
            is_path(mesh, part, path) && path.first() == a && path.last() == b;
        assert(is_path(other, part, path));
    }
}

} // verus!
