//! What a part of a decimation knows of its triangles.
use crate::aabb::{cloud_box_holds_points, merging_keeps_points};
use crate::ancestor::VertexWithConcavity;
use crate::decimation::{decimates, Phase, SceneModel};
use crate::edge::EdgeModel;
use crate::kernel::ConvexPair;
use crate::laws::{concatenation_holds, joins, pass_at, passes_join_or_keep, states_are_sound};
use crate::linalg::{Pnt3, Vec2};
use crate::mesh::{MeshModel, TriMesh};
use crate::rays::Ray;
use crate::scalar::{rank, zero, Scalar};
use crate::vertex::VertexModel;
use vstd::prelude::*;

verus! {

/// The number of triangles of the list that have the side `e`.
pub open spec fn sharing<N>(mesh: MeshModel<N>, part: Seq<usize>, e: Vec2<u32>) -> nat
    decreases part.len(),
{
    if part.len() == 0 {
        0
    } else {
        sharing(mesh, part.drop_last(), e) + if mesh.sides(part.last() as int).contains(e) {
            1nat
        } else {
            0
        }
    }
}

/// Whether ray `r` starts at corner `k` of triangle `t`.
pub open spec fn starts_at<N>(mesh: MeshModel<N>, r: usize, t: usize, k: int) -> bool {
    0 <= k < 3 && r == mesh.ray_ids()[mesh.corner(t as int, k)]
}

/// Whether ray `r` starts at a corner of one of the triangles.
pub open spec fn starts_in<N>(mesh: MeshModel<N>, part: Seq<usize>, r: usize) -> bool {
    exists|t: usize, k: int| part.contains(t) && #[trigger] starts_at(mesh, r, t, k)
}

impl<N: Scalar> VertexModel<N> {
    /// Whether the border is the edges of the mesh that an odd number of triangles of the part
    /// have as a side. Where no more than two triangles of the mesh share a side, these are the
    /// edges between a triangle of the part and what lies outside of the part.
    pub open spec fn bounded_by(self, mesh: MeshModel<N>) -> bool {
        forall|e: Vec2<u32>| #[trigger]
            self.border->0.contains(e) <==> sharing(mesh, self.parts->0, e) % 2 == 1
    }

    /// Whether the rays of the part are those that start at the corners of its triangles.
    pub open spec fn emits(self, mesh: MeshModel<N>) -> bool {
        forall|r: usize| #[trigger]
            self.uancestors->0.contains(r) <==> starts_in(mesh, self.parts->0, r)
    }

    /// Whether the box of the part holds the corners of its triangles.
    pub open spec fn boxed(self, mesh: MeshModel<N>) -> bool {
        forall|t: usize, k: int|
            self.parts->0.contains(t) && 0 <= k < 3 ==> self.aabb.holds(
                #[trigger] mesh.corner_points(t as int)[k],
            )
    }

    /// Whether the part is a single triangle, of concavity zero, or its concavity does not
    /// exceed `error`.
    pub open spec fn shallow(self, error: N) -> bool {
        ||| self.parts->0.len() == 1 && self.concavity == zero::<N>()
        ||| rank(self.concavity) <= rank(error)
    }

    /// Whether the part knows its triangles.
    pub open spec fn knows_triangles(self, mesh: MeshModel<N>, error: N) -> bool {
        &&& self.bounded_by(mesh)
        &&& self.emits(mesh)
        &&& self.boxed(mesh)
        &&& self.shallow(error)
    }
}

/// The triangles of two lists are counted one list after the other.
proof fn sharing_adds_up<N>(mesh: MeshModel<N>, a: Seq<usize>, b: Seq<usize>, e: Vec2<u32>)
    ensures
        sharing(mesh, a + b, e) == sharing(mesh, a, e) + sharing(mesh, b, e),
    decreases b.len(),
{
    if b.len() == 0 {
        assert(a + b =~= a);
    } else {
        assert((a + b).drop_last() =~= a + b.drop_last());
        sharing_adds_up(mesh, a, b.drop_last(), e);
    }
}

/// A triangle on its own is known.
proof fn triangles_are_known<N: Scalar>(mesh: MeshModel<N>, i: int, error: N)
    requires
        0 <= i < mesh.size(),
        mesh.size() <= usize::MAX,
    ensures
        mesh.dual_vertex(mesh.ray_ids(), i).knows_triangles(mesh, error),
{
    let v = mesh.dual_vertex(mesh.ray_ids(), i);
    let part = v.parts->0;
    let t = i as usize;
    assert(part == seq![t]);
    assert(part[0] == t);
    assert(part.contains(t));
    assert forall|e: Vec2<u32>| #[trigger]
        v.border->0.contains(e) <==> sharing(mesh, part, e) % 2 == 1 by {
        assert(sharing(mesh, part.drop_last(), e) == 0);
    }
    assert forall|r: usize| #[trigger] v.uancestors->0.contains(r) <==> starts_in(mesh, part, r) by {
        if v.uancestors->0.contains(r) {
            assert(starts_at(mesh, r, t, 0) || starts_at(mesh, r, t, 1) || starts_at(mesh, r, t, 2));
        }
        if starts_in(mesh, part, r) {
            let (u, k) = choose|u: usize, k: int|
                part.contains(u) && #[trigger] starts_at(mesh, r, u, k);
            assert(u == t);
        }
    }
    assert forall|u: usize, k: int| part.contains(u) && 0 <= k < 3 implies v.aabb.holds(
        #[trigger] mesh.corner_points(u as int)[k],
    ) by {
        assert(u == t);
        cloud_box_holds_points(mesh.corner_points(i), k);
    }
}

/// A part made of two parts that know their triangles knows its triangles.
proof fn joining_keeps_knowledge<N: Scalar>(
    mesh: MeshModel<N>,
    scene: SceneModel<N>,
    pre: Phase<N>,
    post: Phase<N>,
    e: EdgeModel<N>,
    ancestors: Seq<VertexWithConcavity<N>>,
    chull: MeshModel<N>,
)
    requires
        joins(scene, pre, post, e, ancestors, chull),
        pre.graph[e.v1 as int].knows_triangles(mesh, scene.error),
        pre.graph[e.v2 as int].knows_triangles(mesh, scene.error),
    ensures
        post.graph[e.v1 as int].knows_triangles(mesh, scene.error),
{
    let (a, b) = (pre.graph[e.v1 as int], pre.graph[e.v2 as int]);
    let v = post.graph[e.v1 as int];
    let (p, q) = (a.parts->0, b.parts->0);
    assert(v.parts->0 == p + q);
    assert forall|x: Vec2<u32>| #[trigger]
        v.border->0.contains(x) <==> sharing(mesh, p + q, x) % 2 == 1 by {
        sharing_adds_up(mesh, p, q, x);
        assert(v.border->0.contains(x) <==> a.border->0.contains(x) != b.border->0.contains(x));
    }
    assert forall|r: usize| #[trigger] v.uancestors->0.contains(r) <==> starts_in(mesh, p + q, r) by {
        if starts_in(mesh, p, r) {
            let (t, k) = choose|t: usize, k: int| p.contains(t) && #[trigger] starts_at(mesh, r, t, k);
            concatenation_holds(p, q, t);
        }
        if starts_in(mesh, q, r) {
            let (t, k) = choose|t: usize, k: int| q.contains(t) && #[trigger] starts_at(mesh, r, t, k);
            concatenation_holds(p, q, t);
        }
        if starts_in(mesh, p + q, r) {
            let (t, k) = choose|t: usize, k: int|
                (p + q).contains(t) && #[trigger] starts_at(mesh, r, t, k);
            concatenation_holds(p, q, t);
        }
        assert(v.uancestors->0.contains(r) <==> a.uancestors->0.contains(r) || b.uancestors->0.contains(
            r,
        ));
    }
    assert forall|t: usize, k: int| (p + q).contains(t) && 0 <= k < 3 implies v.aabb.holds(
        #[trigger] mesh.corner_points(t as int)[k],
    ) by {
        concatenation_holds(p, q, t);
        merging_keeps_points(a.aabb, b.aabb, mesh.corner_points(t as int)[k]);
    }
}

/// At every moment of a decimation each part knows its triangles: its border is the edges of
/// the mesh that an odd number of its triangles have, its rays are those that start at the
/// corners of its triangles, its box holds these corners, and unless it is a single triangle
/// its concavity does not exceed what is allowed.
pub proof fn parts_know_their_triangles<
    N: Scalar,
    C: Fn(&ConvexPair<N>, &Ray<N>) -> Option<N>,
    H: Fn(&[Pnt3<N>]) -> TriMesh<N>,
>(
    mesh: MeshModel<N>,
    error: N,
    min_components: nat,
    cast: C,
    hull: H,
    trace: Seq<Phase<N>>,
    i: int,
)
    requires
        mesh.complete(),
        mesh.countable(),
        decimates(mesh, error, min_components, cast, hull, trace),
        0 <= i < trace.len(),
    ensures
        forall|k: int|
            0 <= k < trace[i].graph.len() && trace[i].graph[k].alive() ==> (
            #[trigger] trace[i].graph[k]).knows_triangles(mesh, error),
    decreases i,
{
    let scene = mesh.scene(error);
    let h = trace[i].graph;
    if i == 0 {
        assert forall|k: int| 0 <= k < h.len() && h[k].alive() implies (
        #[trigger] h[k]).knows_triangles(mesh, error) by {
            triangles_are_known(mesh, k, error);
        }
    } else {
        let g = trace[i - 1].graph;
        parts_know_their_triangles(mesh, error, min_components, cast, hull, trace, i - 1);
        states_are_sound(mesh, error, min_components, cast, hull, trace, i - 1);
        let outcome = pass_at(mesh, error, min_components, cast, hull, trace, i - 1);
        match passes_join_or_keep(scene, cast, hull, trace[i - 1], outcome, trace[i]) {
            None => {},
            Some((e, ancestors, chull)) => {
                assert(g[e.v1 as int].alive() && g[e.v2 as int].alive());
                joining_keeps_knowledge(mesh, scene, trace[i - 1], trace[i], e, ancestors, chull);
                assert forall|k: int| 0 <= k < h.len() && h[k].alive() implies (
                #[trigger] h[k]).knows_triangles(mesh, error) by {
                    if k != e.v1 {
                        assert(g[k].knows_triangles(mesh, error));
                    }
                }
            },
        }
    }
}

} // verus!
