//! The hull of a part reaches as far as its triangles.
use crate::decimation::{decimates, survivors, survivors_are_the_living, Phase};
use crate::decompose::describes;
use crate::exact::{exact, there_and_back};
use crate::kernel::{farthest, farthest_is_farthest, may_enclose, ConvexPair};
use crate::laws::{
    concatenation_holds, owns, partitioned, pass_at, passes_join_or_keep, states_are_sound,
};
use crate::linalg::{Pnt3, Vec3};
use crate::mesh::{all_below, MeshModel, TriMesh};
use crate::rays::Ray;
use crate::scalar::{one, over, rank, zero, Scalar};
use crate::vertex::VertexModel;
use vstd::prelude::*;

verus! {

/// Whether a point of the cloud lies at least as far in the direction `dir` as `p`.
pub open spec fn extends_to<N: Scalar>(cloud: Seq<Pnt3<N>>, dir: Vec3<N>, p: Pnt3<N>) -> bool {
    rank(p.vector().scalar_product(dir)) <= rank(farthest(cloud, dir).vector().scalar_product(dir))
}

/// Whether what `hull` returns reaches, in every direction, as far as each point of the cloud.
pub open spec fn encloses<N: Scalar, H: Fn(&[Pnt3<N>]) -> TriMesh<N>>(hull: H) -> bool {
    forall|cloud: Seq<Pnt3<N>>, m: MeshModel<N>, dir: Vec3<N>, p: Pnt3<N>|
        may_enclose(hull, cloud, m) && #[trigger] cloud.contains(p) ==> #[trigger] extends_to(
            m.coords,
            dir,
            p,
        )
}

/// Whether the hull of the part reaches, in every direction, as far as the corners of its
/// triangles.
pub open spec fn enclosed<N: Scalar>(mesh: MeshModel<N>, v: VertexModel<N>) -> bool {
    forall|t: usize, k: int, dir: Vec3<N>|
        v.parts->0.contains(t) && 0 <= k < 3 ==> #[trigger] extends_to(
            v.chull->0.coords,
            dir,
            mesh.corner_points(t as int)[k],
        )
}

/// A part made of two parts that their hulls enclose is enclosed by the hull of these hulls.
proof fn union_is_enclosed<N: Scalar, H: Fn(&[Pnt3<N>]) -> TriMesh<N>>(
    mesh: MeshModel<N>,
    hull: H,
    a: VertexModel<N>,
    b: VertexModel<N>,
    chull: MeshModel<N>,
    t: usize,
    k: int,
    dir: Vec3<N>,
)
    requires
        encloses(hull),
        may_enclose(hull, a.chull->0.coords + b.chull->0.coords, chull),
        a.chull->0.coords.len() > 0,
        b.chull->0.coords.len() > 0,
        enclosed(mesh, a),
        enclosed(mesh, b),
        (a.parts->0 + b.parts->0).contains(t),
        0 <= k < 3,
    ensures
        extends_to(chull.coords, dir, mesh.corner_points(t as int)[k]),
{
    let (p, q) = (a.chull->0.coords, b.chull->0.coords);
    concatenation_holds(a.parts->0, b.parts->0, t);
    let part = if a.parts->0.contains(t) {
        p
    } else {
        q
    };
    assert(extends_to(part, dir, mesh.corner_points(t as int)[k]));
    farthest_is_farthest(part, dir);
    let far = farthest(part, dir);
    concatenation_holds(p, q, far);
    assert((p + q).contains(far));
    assert(extends_to(chull.coords, dir, far));
}

/// At every moment of a decimation the hull of each part reaches, in every direction, as far as
/// the corners of its triangles, provided that hulls enclose their clouds.
pub proof fn hulls_enclose_parts<
    N: Scalar,
    C: Fn(&ConvexPair<N>, &Ray<N>) -> Option<N>,
    H: Fn(&[Pnt3<N>]) -> TriMesh<N>,
>(
    mesh: MeshModel<N>,
    error: N,
    min_components: nat,
    cast: C,
    hull: H,
    trace: Seq<Phase<N>>,
    i: int,
)
    requires
        mesh.complete(),
        mesh.countable(),
        encloses(hull),
        decimates(mesh, error, min_components, cast, hull, trace),
        0 <= i < trace.len(),
    ensures
        forall|n: int|
            0 <= n < trace[i].graph.len() && trace[i].graph[n].alive() ==> enclosed(
                mesh,
                #[trigger] trace[i].graph[n],
            ),
    decreases i,
{
    let scene = mesh.scene(error);
    let h = trace[i].graph;
    if i == 0 {
        assert forall|n: int| 0 <= n < h.len() && h[n].alive() implies enclosed(mesh, #[trigger] h[n]) by {
            assert forall|t: usize, k: int, dir: Vec3<N>|
                h[n].parts->0.contains(t) && 0 <= k < 3 implies #[trigger] extends_to(
                h[n].chull->0.coords,
                dir,
                mesh.corner_points(t as int)[k],
            ) by {
                assert(t == n);
                farthest_is_farthest(mesh.corner_points(n), dir);
            }
        }
    } else {
        let g = trace[i - 1].graph;
        hulls_enclose_parts(mesh, error, min_components, cast, hull, trace, i - 1);
        states_are_sound(mesh, error, min_components, cast, hull, trace, i - 1);
        let outcome = pass_at(mesh, error, min_components, cast, hull, trace, i - 1);
        match passes_join_or_keep(scene, cast, hull, trace[i - 1], outcome, trace[i]) {
            None => {},
            Some((e, ancestors, chull)) => {
                let (a, b) = (g[e.v1 as int], g[e.v2 as int]);
                assert(trace[i - 1].vertex_sound(scene, e.v1 as int));
                assert(trace[i - 1].vertex_sound(scene, e.v2 as int));
                assert(enclosed(mesh, g[e.v1 as int]) && enclosed(mesh, g[e.v2 as int]));
                assert forall|n: int| 0 <= n < h.len() && h[n].alive() implies enclosed(
                    mesh,
                    #[trigger] h[n],
                ) by {
                    if n == e.v1 {
                        assert forall|t: usize, k: int, dir: Vec3<N>|
                            h[n].parts->0.contains(t) && 0 <= k < 3 implies #[trigger] extends_to(
                            h[n].chull->0.coords,
                            dir,
                            mesh.corner_points(t as int)[k],
                        ) by {
                            union_is_enclosed(mesh, hull, a, b, chull, t, k, dir);
                        }
                    } else {
                        assert(enclosed(mesh, g[n]));
                    }
                }
            },
        }
    }
}

/// Whether what `hull` returns has no other points than the cloud.
pub open spec fn keeps_to_clouds<N: Scalar, H: Fn(&[Pnt3<N>]) -> TriMesh<N>>(hull: H) -> bool {
    forall|cloud: Seq<Pnt3<N>>, m: MeshModel<N>, k: int|
        #[trigger] may_enclose(hull, cloud, m) && 0 <= k < m.coords.len() ==> cloud.contains(
            #[trigger] m.coords[k],
        )
}

/// Whether `p` is corner `k` of triangle `t`.
pub open spec fn at_corner<N>(mesh: MeshModel<N>, t: usize, k: int, p: Pnt3<N>) -> bool {
    0 <= k < 3 && p == mesh.corner_points(t as int)[k]
}

/// Whether `p` is a corner of a triangle of the part.
pub open spec fn is_corner<N>(mesh: MeshModel<N>, part: Seq<usize>, p: Pnt3<N>) -> bool {
    exists|t: usize, k: int| part.contains(t) && #[trigger] at_corner(mesh, t, k, p)
}

/// Whether each point of the hull of the part is a corner of a triangle of the part.
pub open spec fn made_of_corners<N>(mesh: MeshModel<N>, v: VertexModel<N>) -> bool {
    forall|k: int|
        0 <= k < v.chull->0.coords.len() ==> is_corner(
            mesh,
            v.parts->0,
            #[trigger] v.chull->0.coords[k],
        )
}

proof fn wider_corners<N>(mesh: MeshModel<N>, part: Seq<usize>, wide: Seq<usize>, p: Pnt3<N>)
    requires
        is_corner(mesh, part, p),
        forall|t: usize| #[trigger] part.contains(t) ==> wide.contains(t),
    ensures
        is_corner(mesh, wide, p),
{
    let (t, k) = choose|t: usize, k: int| part.contains(t) && #[trigger] at_corner(mesh, t, k, p);
    assert(wide.contains(t));
}

/// The hull of two hulls that are made of corners is made of corners.
proof fn union_is_made_of_corners<N: Scalar, H: Fn(&[Pnt3<N>]) -> TriMesh<N>>(
    mesh: MeshModel<N>,
    hull: H,
    a: VertexModel<N>,
    b: VertexModel<N>,
    chull: MeshModel<N>,
    k: int,
)
    requires
        keeps_to_clouds(hull),
        may_enclose(hull, a.chull->0.coords + b.chull->0.coords, chull),
        made_of_corners(mesh, a),
        made_of_corners(mesh, b),
        0 <= k < chull.coords.len(),
    ensures
        is_corner(mesh, a.parts->0 + b.parts->0, chull.coords[k]),
{
    let (p, q) = (a.chull->0.coords, b.chull->0.coords);
    let x = chull.coords[k];
    let (s, t) = (a.parts->0, b.parts->0);
    assert((p + q).contains(x));
    concatenation_holds(p, q, x);
    assert forall|u: usize| #[trigger] s.contains(u) implies (s + t).contains(u) by {
        concatenation_holds(s, t, u);
    }
    assert forall|u: usize| #[trigger] t.contains(u) implies (s + t).contains(u) by {
        concatenation_holds(s, t, u);
    }
    if p.contains(x) {
        let j = choose|j: int| 0 <= j < p.len() && p[j] == x;
        assert(is_corner(mesh, s, p[j]));
        wider_corners(mesh, s, s + t, x);
    } else {
        let j = choose|j: int| 0 <= j < q.len() && q[j] == x;
        assert(is_corner(mesh, t, q[j]));
        wider_corners(mesh, t, s + t, x);
    }
}

/// At every moment of a decimation each point of the hull of a part is a corner of a triangle of
/// the part, provided that hulls have no other points than their clouds.
pub proof fn hulls_are_made_of_corners<
    N: Scalar,
    C: Fn(&ConvexPair<N>, &Ray<N>) -> Option<N>,
    H: Fn(&[Pnt3<N>]) -> TriMesh<N>,
>(
    mesh: MeshModel<N>,
    error: N,
    min_components: nat,
    cast: C,
    hull: H,
    trace: Seq<Phase<N>>,
    i: int,
)
    requires
        mesh.complete(),
        mesh.countable(),
        keeps_to_clouds(hull),
        decimates(mesh, error, min_components, cast, hull, trace),
        0 <= i < trace.len(),
    ensures
        forall|n: int|
            0 <= n < trace[i].graph.len() && trace[i].graph[n].alive() ==> made_of_corners(
                mesh,
                #[trigger] trace[i].graph[n],
            ),
    decreases i,
{
    let scene = mesh.scene(error);
    let h = trace[i].graph;
    if i == 0 {
        assert forall|n: int| 0 <= n < h.len() && h[n].alive() implies made_of_corners(
            mesh,
            #[trigger] h[n],
        ) by {
            let part = h[n].parts->0;
            assert(part[0] == n);
            assert(part.contains(n as usize));
            assert forall|k: int| 0 <= k < h[n].chull->0.coords.len() implies is_corner(
                mesh,
                part,
                #[trigger] h[n].chull->0.coords[k],
            ) by {
                assert(at_corner(mesh, n as usize, k, h[n].chull->0.coords[k]));
            }
        }
    } else {
        let g = trace[i - 1].graph;
        hulls_are_made_of_corners(mesh, error, min_components, cast, hull, trace, i - 1);
        states_are_sound(mesh, error, min_components, cast, hull, trace, i - 1);
        let outcome = pass_at(mesh, error, min_components, cast, hull, trace, i - 1);
        match passes_join_or_keep(scene, cast, hull, trace[i - 1], outcome, trace[i]) {
            None => {},
            Some((e, ancestors, chull)) => {
                let (a, b) = (g[e.v1 as int], g[e.v2 as int]);
                assert(made_of_corners(mesh, g[e.v1 as int]) && made_of_corners(mesh, g[e.v2 as int]));
                assert forall|n: int| 0 <= n < h.len() && h[n].alive() implies made_of_corners(
                    mesh,
                    #[trigger] h[n],
                ) by {
                    if n == e.v1 {
                        assert forall|k: int| 0 <= k < h[n].chull->0.coords.len() implies is_corner(
                            mesh,
                            h[n].parts->0,
                            #[trigger] h[n].chull->0.coords[k],
                        ) by {
                            union_is_made_of_corners(mesh, hull, a, b, chull, k);
                        }
                    } else {
                        assert(made_of_corners(mesh, g[n]));
                    }
                }
            },
        }
    }
}

/// Where a point of a normalized mesh is moved back to.
pub open spec fn returned<N: Scalar>(mesh: MeshModel<N>, p: Pnt3<N>) -> Pnt3<N> {
    p.times(mesh.diagonal()).plus(mesh.center().vector())
}

/// Where a point of a mesh comes to by normalizing the mesh and moving it back: to itself, up to
/// rounding.
pub open spec fn round_trip<N: Scalar>(mesh: MeshModel<N>, p: Pnt3<N>) -> Pnt3<N> {
    returned(
        mesh,
        p.plus(mesh.center().vector().opposite()).times(over(one(), mesh.diagonal())),
    )
}

/// Whether `p` is where a corner of a triangle of the part comes to by normalizing the mesh and
/// moving it back.
pub open spec fn is_returned_corner<N: Scalar>(mesh: MeshModel<N>, part: Seq<usize>, p: Pnt3<N>) -> bool {
    exists|t: usize, k: int|
        part.contains(t) && 0 <= k < 3 && p == round_trip(
            mesh,
            #[trigger] mesh.corner_points(t as int)[k],
        )
}

/// The corners of a normalized mesh, moved back, are the corners of the mesh after a round trip.
proof fn corners_return<N: Scalar>(mesh: MeshModel<N>, t: usize, k: int)
    requires
        mesh.located(),
        t < mesh.size(),
        0 <= k < 3,
    ensures
        returned(mesh, mesh.normalized().corner_points(t as int)[k]) == round_trip(
            mesh,
            mesh.corner_points(t as int)[k],
        ),
{
    assert(all_below(mesh.indices.corners(t as int), mesh.coords.len()));
}

/// Each point of a hull that is left, moved back, is a corner of a triangle of its part, up to the
/// rounding of normalizing and moving back.
pub proof fn results_are_made_of_corners<N: Scalar>(
    mesh: MeshModel<N>,
    graph: Seq<VertexModel<N>>,
    meshes: Seq<MeshModel<N>>,
    parts: Seq<Seq<usize>>,
    k: int,
    j: int,
)
    requires
        mesh.located(),
        graph.len() == mesh.size(),
        partitioned(graph),
        describes(mesh, graph, meshes, parts),
        forall|n: int|
            0 <= n < graph.len() && graph[n].alive() ==> made_of_corners(
                mesh.normalized(),
                #[trigger] graph[n],
            ),
        0 <= k < meshes.len(),
        0 <= j < meshes[k].coords.len(),
    ensures
        is_returned_corner(mesh, parts[k], meshes[k].coords[j]),
{
    let n = survivors(graph)[k];
    survivors_are_the_living(graph);
    assert(survivors(graph).contains(n));
    let hull = graph[n].chull->0;
    assert(parts[k] == graph[n].parts->0);
    assert(meshes[k] == hull.denormalized(mesh.center(), mesh.diagonal()));
    assert(made_of_corners(mesh.normalized(), graph[n]));
    assert(is_corner(mesh.normalized(), graph[n].parts->0, graph[n].chull->0.coords[j]));
    let (t, c) = choose|t: usize, c: int|
        graph[n].parts->0.contains(t) && #[trigger] at_corner(mesh.normalized(), t, c, hull.coords[j]);
    assert(owns(graph, n, t));
    corners_return(mesh, t, c);
    assert(meshes[k].coords[j] == returned(mesh, hull.coords[j]));
    assert(meshes[k].coords[j] == round_trip(mesh, mesh.corner_points(t as int)[c]));
}

/// Whether moving back keeps it true that a point of the cloud lies as far in the direction `dir`
/// as `p`.
pub open spec fn returns_in_order<N: Scalar>(
    mesh: MeshModel<N>,
    cloud: Seq<Pnt3<N>>,
    dir: Vec3<N>,
    p: Pnt3<N>,
) -> bool {
    forall|k: int|
        0 <= k < cloud.len() && rank(p.vector().scalar_product(dir)) <= rank(
            (#[trigger] cloud[k]).vector().scalar_product(dir),
        ) ==> rank(returned(mesh, p).vector().scalar_product(dir)) <= rank(
            returned(mesh, cloud[k]).vector().scalar_product(dir),
        )
}

/// Whether moving back keeps the order of any two points in the direction `dir`.
pub open spec fn carries_order<N: Scalar>(mesh: MeshModel<N>, dir: Vec3<N>) -> bool {
    forall|p: Pnt3<N>, q: Pnt3<N>|
        rank(p.vector().scalar_product(dir)) <= rank(q.vector().scalar_product(dir)) ==> rank(
            (#[trigger] returned(mesh, p)).vector().scalar_product(dir),
        ) <= rank((#[trigger] returned(mesh, q)).vector().scalar_product(dir))
}

/// A hull that is left, moved back, reaches in a direction as far as the corners of the triangles of
/// its part, up to the rounding of normalizing and moving back, where moving back keeps the order of
/// the points in this direction.
pub proof fn results_enclose_parts<N: Scalar>(
    mesh: MeshModel<N>,
    graph: Seq<VertexModel<N>>,
    meshes: Seq<MeshModel<N>>,
    parts: Seq<Seq<usize>>,
    k: int,
    t: usize,
    c: int,
    dir: Vec3<N>,
)
    requires
        mesh.located(),
        graph.len() == mesh.size(),
        partitioned(graph),
        describes(mesh, graph, meshes, parts),
        forall|n: int|
            0 <= n < graph.len() && graph[n].alive() ==> enclosed(mesh.normalized(), #[trigger] graph[n])
                && graph[n].chull->0.coords.len() > 0,
        0 <= k < meshes.len(),
        parts[k].contains(t),
        0 <= c < 3,
        returns_in_order(
            mesh,
            graph[survivors(graph)[k]].chull->0.coords,
            dir,
            mesh.normalized().corner_points(t as int)[c],
        ),
    ensures
        extends_to(meshes[k].coords, dir, round_trip(mesh, mesh.corner_points(t as int)[c])),
{
    let n = survivors(graph)[k];
    survivors_are_the_living(graph);
    assert(survivors(graph).contains(n));
    let hull = graph[n].chull->0;
    let p = mesh.normalized().corner_points(t as int)[c];
    assert(parts[k] == graph[n].parts->0);
    assert(meshes[k] == hull.denormalized(mesh.center(), mesh.diagonal()));
    assert(enclosed(mesh.normalized(), graph[n]));
    assert(owns(graph, n, t));
    corners_return(mesh, t, c);
    assert(extends_to(graph[n].chull->0.coords, dir, mesh.normalized().corner_points(t as int)[c]));
    farthest_is_farthest(hull.coords, dir);
    let far = farthest(hull.coords, dir);
    let j = choose|j: int| 0 <= j < hull.coords.len() && hull.coords[j] == far;
    assert(rank(p.vector().scalar_product(dir)) <= rank(hull.coords[j].vector().scalar_product(dir)));
    assert(meshes[k].coords[j] == returned(mesh, hull.coords[j]));
    farthest_is_farthest(meshes[k].coords, dir);
}

/// Where arithmetic is exact, and the bounding box is not a point, a round trip leads back.
pub proof fn exact_round_trips_lead_back<N: Scalar>(mesh: MeshModel<N>, p: Pnt3<N>)
    requires
        exact::<N>(),
        mesh.diagonal() != zero::<N>(),
    ensures
        round_trip(mesh, p) == p,
{
    let (c, d) = (mesh.center(), mesh.diagonal());
    there_and_back(p.x, c.x, d);
    there_and_back(p.y, c.y, d);
    there_and_back(p.z, c.z, d);
}

} // verus!
