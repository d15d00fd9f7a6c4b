use hacd::decimation::Outcome;
use hacd::decompose::{Decimation, Scene};
use hacd::dual_graph::compute_dual_graph;
use hacd::queue::PriorityQueue;
use hacd::rays::{compute_ray_bvt, compute_rays};
use hacd::{
    hacd, ConvexPair, DualGraphEdge, Fixed, IndexBuffer, Pnt3, Ray, Scalar, TriMesh, Vec3,
};
use std::collections::BTreeSet;

fn f(n: i32) -> Fixed {
    Fixed::whole(n)
}

fn p(x: i32, y: i32, z: i32) -> Pnt3<Fixed> {
    Pnt3::new(f(x), f(y), f(z))
}

fn v(x: i32, y: i32, z: i32) -> Vec3<Fixed> {
    Vec3::new(f(x), f(y), f(z))
}

fn mesh(points: Vec<Pnt3<Fixed>>, normal: Vec3<Fixed>, triangles: &[(u32, u32, u32)]) -> TriMesh<Fixed> {
    let normals = points.iter().map(|_| normal).collect();
    let idx = triangles.iter().map(|t| Vec3::new(t.0, t.1, t.2)).collect();
    TriMesh::new(points, Some(normals), Some(IndexBuffer::UnifiedIndexBuffer(idx)))
}

fn rectangle() -> TriMesh<Fixed> {
    mesh(
        vec![p(0, 0, 0), p(4, 0, 0), p(4, 3, 0), p(0, 3, 0)],
        v(1, 0, 0),
        &[(0, 1, 2), (0, 2, 3)],
    )
}

const STRIP: [(u32, u32, u32); 4] = [(0, 1, 2), (1, 2, 3), (2, 3, 4), (3, 4, 5)];

/// A strip of four triangles, with rays along its width.
fn strip() -> TriMesh<Fixed> {
    mesh(
        vec![p(0, 0, 0), p(0, 2, 0), p(2, 0, 0), p(2, 2, 0), p(4, 0, 0), p(4, 2, 0)],
        v(0, 1, 0),
        &STRIP,
    )
}

/// The cloud itself stands for its hull.
fn cloud(points: &[Pnt3<Fixed>]) -> TriMesh<Fixed> {
    TriMesh::new(points.to_vec(), None, Some(IndexBuffer::UnifiedIndexBuffer(Vec::new())))
}

/// No ray meets a hull, so nothing is concave.
fn miss(_: &ConvexPair<Fixed>, _: &Ray<Fixed>) -> Option<Fixed> {
    None
}

/// Every ray goes far too deep.
fn deep(_: &ConvexPair<Fixed>, _: &Ray<Fixed>) -> Option<Fixed> {
    Some(f(-10))
}

fn start(m: TriMesh<Fixed>, error: Fixed) -> (Scene<Fixed>, Decimation<Fixed>) {
    let (rays, raymap) = compute_rays(&m);
    let graph = compute_dual_graph(&m, &raymap);
    let bvt = compute_ray_bvt(&rays);
    let scene = Scene { rays, bvt, coords: m.coords, error };
    (scene, Decimation { graph, edges: PriorityQueue::new(), time: 0 })
}

fn fresh(scene: &Scene<Fixed>, state: &Decimation<Fixed>, a: usize, b: usize) -> DualGraphEdge<Fixed> {
    DualGraphEdge::new(state.time, a, b, &state.graph, &scene.coords, scene.error)
}

fn close(a: &Pnt3<Fixed>, b: &Pnt3<Fixed>) -> bool {
    let near = |x: Fixed, y: Fixed| (x.steps - y.steps).abs() < 64;
    near(a.x, b.x) && near(a.y, b.y) && near(a.z, b.z)
}

fn sorted(mut part: Vec<usize>) -> Vec<usize> {
    part.sort();
    part
}

/// Whether each triangle is in exactly one part.
fn shared_out(parts: &[Vec<usize>], n: usize) -> bool {
    sorted(parts.concat()) == (0..n).collect::<Vec<usize>>()
}

/// Whether the triangles of the part hang together along common sides.
fn hangs_together(part: &[usize], triangles: &[(u32, u32, u32)]) -> bool {
    let sides = |t: usize| {
        let (a, b, c) = triangles[t];
        let side = |x: u32, y: u32| (x.min(y), x.max(y));
        [side(a, b), side(b, c), side(c, a)]
    };
    let mut reached = BTreeSet::from([part[0]]);
    loop {
        let more: Vec<usize> = part
            .iter()
            .copied()
            .filter(|t| !reached.contains(t))
            .filter(|t| reached.iter().any(|r| sides(*r).iter().any(|s| sides(*t).contains(s))))
            .collect();
        if more.is_empty() {
            return reached.len() == part.len();
        }
        reached.extend(more);
    }
}

#[test]
fn a_step_without_edges_is_the_last_one() {
    let (scene, mut state) = start(rectangle(), f(1));
    assert_eq!(state.step(&scene, &miss, &cloud), Outcome::Exhausted);
    assert_eq!(state.time, 0);
}

#[test]
fn a_step_contracts_the_cheapest_edge() {
    let (scene, mut state) = start(strip(), f(1));
    let edges = [fresh(&scene, &state, 0, 1), fresh(&scene, &state, 1, 2), fresh(&scene, &state, 2, 3)];
    // The middle pair makes a parallelogram, which has the longest outline.
    assert!(edges[1].mcost.less(edges[0].mcost) && edges[1].mcost.less(edges[2].mcost));
    for e in edges {
        state.edges.push(e);
    }
    assert_eq!(state.step(&scene, &miss, &cloud), Outcome::Contracted);
    assert_eq!(state.time, 1);
    let joined: Vec<Vec<usize>> =
        state.graph.iter().filter(|x| x.timestamp == 1).map(|x| x.parts.clone().unwrap()).collect();
    assert!(joined == vec![vec![0, 1]] || joined == vec![vec![2, 3]]);
    assert_eq!(state.graph.iter().filter(|x| x.timestamp == usize::MAX).count(), 1);
}

#[test]
fn a_step_drops_an_edge_that_is_too_concave() {
    let (scene, mut state) = start(rectangle(), f(1));
    let e = fresh(&scene, &state, 0, 1);
    state.edges.push(e);
    assert_eq!(state.step(&scene, &deep, &cloud), Outcome::Dropped);
    assert_eq!((state.time, state.edges.is_empty()), (0, true));
    assert!(state.graph.iter().all(|x| x.timestamp == 0));
}

#[test]
fn a_step_drops_an_edge_that_is_outdated() {
    let (scene, mut state) = start(strip(), f(1));
    let (e, old) = (fresh(&scene, &state, 0, 1), fresh(&scene, &state, 1, 2));
    state.edges.push(e);
    assert_eq!(state.step(&scene, &miss, &cloud), Outcome::Contracted);
    while state.edges.pop().is_some() {}
    state.edges.push(old);
    assert_eq!(state.step(&scene, &miss, &cloud), Outcome::Dropped);
    assert_eq!(state.step(&scene, &miss, &cloud), Outcome::Exhausted);
}

#[test]
fn a_contracted_part_waits_for_its_neighbors() {
    let (scene, mut state) = start(strip(), f(1));
    let e = fresh(&scene, &state, 1, 2);
    state.edges.push(e);
    assert_eq!(state.step(&scene, &miss, &cloud), Outcome::Contracted);
    let mut ends = Vec::new();
    while let Some(e) = state.edges.pop() {
        assert_eq!(e.timestamp, 1);
        ends.push((e.v1, e.v2));
    }
    ends.sort();
    assert_eq!(ends, vec![(0, 1), (1, 3)]);
}

#[test]
fn a_step_delays_an_edge_that_proves_dearer_than_the_next() {
    let (scene, mut state) = start(strip(), f(1));
    let (mut first, mut second) = (fresh(&scene, &state, 0, 1), fresh(&scene, &state, 2, 3));
    first.shape = f(0);
    first.mcost = f(0);
    second.mcost = Fixed::ratio(1, 20).neg();
    state.edges.push(first);
    state.edges.push(second);
    // Every ray shows a concavity of a tenth.
    let shallow = |_: &ConvexPair<Fixed>, _: &Ray<Fixed>| Some(f(2));
    assert_eq!(state.step(&scene, &shallow, &cloud), Outcome::Delayed);
    assert_eq!(state.time, 0);
    // The other edge comes first now.
    assert_eq!(state.edges.pop().map(|e| e.v1), Some(2));
    let delayed = state.edges.pop().unwrap();
    assert_eq!((delayed.v1, delayed.v2), (0, 1));
    assert!(delayed.mcost.less(Fixed::ratio(1, 20).neg()));
}

#[test]
fn a_step_stops_at_a_cost_beyond_the_numbers() {
    let (scene, mut state) = start(rectangle(), f(1));
    let mut e = fresh(&scene, &state, 0, 1);
    e.shape = Fixed::max_value();
    state.edges.push(e);
    let shallow = |_: &ConvexPair<Fixed>, _: &Ray<Fixed>| Some(f(4));
    assert_eq!(state.step(&scene, &shallow, &cloud), Outcome::Inexact);
}

#[test]
fn what_is_not_concave_becomes_one_part() {
    let (hulls, parts) = hacd(rectangle(), f(1), 1, &miss, &cloud).unwrap();
    assert_eq!(parts.len(), 1);
    assert_eq!(sorted(parts[0].clone()), vec![0, 1]);
    let expected = [p(0, 0, 0), p(4, 0, 0), p(4, 3, 0), p(0, 0, 0), p(4, 3, 0), p(0, 3, 0)];
    assert_eq!(hulls.len(), 1);
    assert_eq!(hulls[0].coords.len(), 6);
    assert!(hulls[0].coords.iter().zip(expected.iter()).all(|(a, b)| close(a, b)));
}

#[test]
fn no_more_is_joined_than_asked_for() {
    let (hulls, parts) = hacd(rectangle(), f(1), 2, &miss, &cloud).unwrap();
    assert_eq!(parts, vec![vec![0], vec![1]]);
    let expected = [p(0, 0, 0), p(4, 3, 0), p(0, 3, 0)];
    assert!(hulls[1].coords.iter().zip(expected.iter()).all(|(a, b)| close(a, b)));
    for min in 1..=4 {
        let (_, parts) = hacd(strip(), f(1), min, &miss, &cloud).unwrap();
        assert_eq!(parts.len(), min);
        assert!(shared_out(&parts, 4));
        assert!(parts.iter().all(|part| hangs_together(part, &STRIP)));
    }
}

#[test]
fn a_mesh_of_fewer_triangles_than_asked_for_stays_as_it_is() {
    let (hulls, parts) = hacd(rectangle(), f(1), 9, &miss, &cloud).unwrap();
    assert_eq!((hulls.len(), parts), (2, vec![vec![0], vec![1]]));
}

#[test]
fn a_mesh_without_triangles_has_no_parts() {
    let m = mesh(vec![p(0, 0, 0), p(1, 1, 1)], v(0, 0, 1), &[]);
    let (hulls, parts) = hacd(m, f(1), 1, &miss, &cloud).unwrap();
    assert!(hulls.is_empty() && parts.is_empty());
}

#[test]
fn what_is_too_concave_stays_apart() {
    let (_, parts) = hacd(strip(), f(1), 1, &deep, &cloud).unwrap();
    assert_eq!(parts, vec![vec![0], vec![1], vec![2], vec![3]]);
}

#[test]
fn a_greater_error_lets_more_be_joined() {
    let (_, parts) = hacd(rectangle(), f(100), 1, &deep, &cloud).unwrap();
    assert_eq!(parts.len(), 1);
}

#[test]
fn pieces_that_do_not_touch_stay_apart() {
    let triangles = [(0, 1, 2), (0, 2, 3), (4, 5, 6)];
    let m = mesh(
        vec![p(0, 0, 0), p(4, 0, 0), p(4, 3, 0), p(0, 3, 0), p(9, 0, 0), p(9, 3, 0), p(8, 0, 0)],
        v(1, 0, 0),
        &triangles,
    );
    let (_, parts) = hacd(m, f(1), 1, &miss, &cloud).unwrap();
    assert_eq!(parts.len(), 2);
    assert!(shared_out(&parts, 3));
    assert!(parts.iter().all(|part| hangs_together(part, &triangles)));
}

#[test]
fn a_cost_beyond_the_numbers_gives_no_result() {
    // A sliver, of which an enormous concavity would be allowed.
    let y = Fixed { steps: 4096 };
    let m = mesh(
        vec![
            p(0, 0, 0),
            p(4, 0, 0),
            Pnt3::new(f(4), y, f(0)),
            Pnt3::new(f(0), y, f(0)),
        ],
        v(1, 0, 0),
        &[(0, 1, 2), (0, 2, 3)],
    );
    let hit = |_: &ConvexPair<Fixed>, _: &Ray<Fixed>| Some(f(0));
    assert!(hacd(m, Fixed { steps: 1 << 58 }, 1, &hit, &cloud).is_none());
}

/// Whether no part is empty, each begins with its least triangle, and they come in order.
fn ordered(parts: &[Vec<usize>]) -> bool {
    parts.iter().all(|part| part.iter().min() == part.first() && !part.is_empty())
        && parts.windows(2).all(|w| w[0][0] < w[1][0])
}

#[test]
fn parts_come_in_the_order_of_their_first_triangles() {
    for min in 1..=4 {
        let (_, parts) = hacd(strip(), f(1), min, &miss, &cloud).unwrap();
        assert!(ordered(&parts));
    }
    let (_, parts) = hacd(strip(), f(1), 1, &deep, &cloud).unwrap();
    assert!(ordered(&parts));
}

#[test]
fn nothing_concave_leaves_a_part_for_each_component() {
    // Three triangles at one side, a rectangle, and a triangle.
    let m = || {
        mesh(
            vec![
                p(0, 0, 0),
                p(1, 0, 0),
                p(0, 1, 0),
                p(0, 0, 1),
                p(0, -1, 0),
                p(4, 0, 0),
                p(5, 0, 0),
                p(5, 1, 0),
                p(4, 1, 0),
                p(8, 0, 0),
                p(9, 0, 0),
                p(9, 1, 0),
            ],
            v(1, 0, 0),
            &[(0, 1, 2), (1, 0, 3), (0, 1, 4), (5, 6, 7), (5, 7, 8), (9, 10, 11)],
        )
    };
    for (min, count) in [(0, 3), (1, 3), (3, 3), (4, 4), (5, 5), (6, 6), (9, 6)] {
        let (_, parts) = hacd(m(), f(1), min, &miss, &cloud).unwrap();
        assert_eq!(parts.len(), count);
        assert!(shared_out(&parts, 6) && ordered(&parts));
    }
}

#[test]
fn the_points_of_a_hull_are_corners_of_its_part() {
    let (hulls, parts) = hacd(strip(), f(1), 2, &miss, &cloud).unwrap();
    let corners = strip().coords;
    for (hull, part) in hulls.iter().zip(parts.iter()) {
        for q in &hull.coords {
            assert!(part.iter().any(|t| {
                let (a, b, c) = STRIP[*t];
                [a, b, c].iter().any(|i| close(q, &corners[*i as usize]))
            }));
        }
    }
}
