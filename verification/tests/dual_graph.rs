use hacd::aabb::AABB;
use hacd::bvt::BVT;
use hacd::dual_graph::compute_dual_graph;
use hacd::queue::PriorityQueue;
use hacd::rays::{compute_ray_bvt, compute_rays};
use hacd::set::SortedSet;
use hacd::vertex::edge;
use hacd::{
    ConvexPair, DualGraphEdge, DualGraphVertex, Fixed, IndexBuffer, Pnt3, Ray, Scalar, TriMesh, Vec2,
    Vec3, VertexWithConcavity,
};
use std::cmp::Ordering;

fn f(n: i32) -> Fixed {
    Fixed::whole(n)
}

fn p(x: i32, y: i32, z: i32) -> Pnt3<Fixed> {
    Pnt3::new(f(x), f(y), f(z))
}

fn v(x: i32, y: i32, z: i32) -> Vec3<Fixed> {
    Vec3::new(f(x), f(y), f(z))
}

/// A tenth, as far as a ray is cast from beyond what it reaches.
fn margin() -> Fixed {
    Fixed::ratio(1, 10)
}

fn mesh(points: Vec<Pnt3<Fixed>>, normal: Vec3<Fixed>, triangles: &[(u32, u32, u32)]) -> TriMesh<Fixed> {
    let normals = points.iter().map(|_| normal).collect();
    let idx = triangles.iter().map(|t| Vec3::new(t.0, t.1, t.2)).collect();
    TriMesh::new(points, Some(normals), Some(IndexBuffer::UnifiedIndexBuffer(idx)))
}

/// A rectangle of two triangles.
fn rectangle(normal: Vec3<Fixed>) -> TriMesh<Fixed> {
    mesh(
        vec![p(0, 0, 0), p(4, 0, 0), p(4, 3, 0), p(0, 3, 0)],
        normal,
        &[(0, 1, 2), (0, 2, 3)],
    )
}

/// The rectangle, with a small triangle inside of it.
fn rectangle_around_triangle(normal: Vec3<Fixed>) -> TriMesh<Fixed> {
    mesh(
        vec![p(0, 0, 0), p(4, 0, 0), p(4, 3, 0), p(0, 3, 0), p(1, 1, 0), p(2, 1, 0), p(2, 2, 0)],
        normal,
        &[(0, 1, 2), (0, 2, 3), (4, 5, 6)],
    )
}

fn graph_of(mesh: &TriMesh<Fixed>) -> (Vec<DualGraphVertex<Fixed>>, Vec<Ray<Fixed>>, BVT<Fixed>) {
    let (rays, raymap) = compute_rays(mesh);
    let bvt = compute_ray_bvt(&rays);
    (compute_dual_graph(mesh, &raymap), rays, bvt)
}

fn indices(s: &Option<SortedSet<usize>>) -> Vec<usize> {
    let s = s.as_ref().unwrap();
    (0..s.len()).map(|i| s.get(i)).collect()
}

fn pairs(s: &Option<SortedSet<Vec2<u32>>>) -> Vec<(u32, u32)> {
    let s = s.as_ref().unwrap();
    (0..s.len()).map(|i| (s.get(i).x, s.get(i).y)).collect()
}

fn entries(q: &mut PriorityQueue<VertexWithConcavity<Fixed>>) -> Vec<(usize, Fixed)> {
    let mut list = Vec::new();
    while let Some(e) = q.pop() {
        list.push((e.id, e.concavity));
    }
    list
}

fn cloud(points: &[Pnt3<Fixed>]) -> TriMesh<Fixed> {
    TriMesh::new(points.to_vec(), None, Some(IndexBuffer::UnifiedIndexBuffer(Vec::new())))
}

#[test]
fn an_edge_does_not_depend_on_the_order_of_its_ends() {
    assert_eq!(edge(3, 7), Vec2::new(3, 7));
    assert_eq!(edge(7, 3), Vec2::new(3, 7));
    assert_eq!(edge(5, 5), Vec2::new(5, 5));
}

#[test]
fn each_corner_has_one_ray() {
    let m = rectangle(v(0, 2, 0));
    let (rays, raymap) = compute_rays(&m);
    assert_eq!(rays.len(), 4);
    for (i, at) in [(0, p(0, 0, 0)), (1, p(4, 0, 0)), (2, p(4, 3, 0)), (3, p(0, 3, 0))] {
        assert_eq!(rays[i], Ray::new(at, v(0, 1, 0)));
        assert_eq!(raymap.find(&Vec2::new(i as u32, i as u32)), Some(i));
    }
    assert_eq!(raymap.find(&Vec2::new(0, 1)), None);
}

#[test]
fn a_ray_without_a_normal_has_no_direction() {
    let (rays, _) = compute_rays(&rectangle(v(0, 0, 0)));
    assert!(rays.iter().all(|r| r.dir.is_zero()));
}

#[test]
fn a_point_with_two_normals_has_two_rays() {
    let t = |n: u32| Vec3::new(Vec2::new(0, n), Vec2::new(1, n), Vec2::new(2, n));
    let m = TriMesh::new(
        vec![p(0, 0, 0), p(1, 0, 0), p(0, 1, 0)],
        Some(vec![v(0, 0, 1), v(0, 0, -1)]),
        Some(IndexBuffer::SplitIndexBuffer(vec![t(0), t(1)])),
    );
    let (rays, raymap) = compute_rays(&m);
    assert_eq!(rays.len(), 6);
    assert_eq!(rays[4], Ray::new(p(1, 0, 0), v(0, 0, -1)));
    assert_eq!(raymap.find(&Vec2::new(1, 1)), Some(4));
}

#[test]
fn a_vertex_of_the_graph_is_a_triangle() {
    let m = rectangle(v(1, 0, 0));
    let (_, raymap) = compute_rays(&m);
    let vertex = DualGraphVertex::new(1, &m, &raymap);
    assert_eq!(vertex.parts, Some(vec![1]));
    assert_eq!(indices(&vertex.neighbors), Vec::<usize>::new());
    assert_eq!(indices(&vertex.uancestors), vec![0, 2, 3]);
    assert_eq!(pairs(&vertex.border), vec![(0, 2), (0, 3), (2, 3)]);
    let ids: Vec<usize> = vertex.ancestors.as_ref().unwrap().iter().map(|a| a.id).collect();
    assert_eq!(ids, vec![0, 2, 3]);
    assert!(vertex.ancestors.as_ref().unwrap().iter().all(|a| a.concavity == f(0)));
    assert_eq!(vertex.chull.as_ref().unwrap().coords, vec![p(0, 0, 0), p(4, 3, 0), p(0, 3, 0)]);
    assert_eq!(vertex.timestamp, 0);
    assert_eq!(vertex.concavity, f(0));
    assert_eq!(vertex.area, f(6));
    assert_eq!(vertex.aabb, AABB::new(p(0, 0, 0), p(4, 3, 0)));
}

#[test]
fn triangles_with_a_common_side_are_neighbors() {
    let (graph, _, _) = graph_of(&rectangle_around_triangle(v(1, 0, 0)));
    assert_eq!(indices(&graph[0].neighbors), vec![1]);
    assert_eq!(indices(&graph[1].neighbors), vec![0]);
    assert_eq!(indices(&graph[2].neighbors), Vec::<usize>::new());
}

#[test]
fn of_three_triangles_at_a_side_the_first_has_two_neighbors() {
    let m = mesh(
        vec![p(0, 0, 0), p(1, 0, 0), p(0, 1, 0), p(0, 0, 1), p(0, -1, 0)],
        v(1, 0, 0),
        &[(0, 1, 2), (1, 0, 3), (0, 1, 4)],
    );
    let (graph, _, _) = graph_of(&m);
    assert_eq!(indices(&graph[0].neighbors), vec![1, 2]);
    assert_eq!(indices(&graph[1].neighbors), vec![0]);
    assert_eq!(indices(&graph[2].neighbors), vec![0]);
}

#[test]
fn split_indices_give_the_same_neighbors() {
    let t = |a: u32, b: u32, c: u32, n: u32| Vec3::new(Vec2::new(a, n), Vec2::new(b, n), Vec2::new(c, n));
    let m = TriMesh::new(
        vec![p(0, 0, 0), p(4, 0, 0), p(4, 3, 0), p(0, 3, 0)],
        Some(vec![v(1, 0, 0), v(0, 1, 0)]),
        Some(IndexBuffer::SplitIndexBuffer(vec![t(0, 1, 2, 0), t(0, 2, 3, 1)])),
    );
    let (graph, rays, _) = graph_of(&m);
    assert_eq!(rays.len(), 6);
    assert_eq!(indices(&graph[0].neighbors), vec![1]);
    assert_eq!(indices(&graph[1].neighbors), vec![0]);
    assert_eq!(indices(&graph[1].uancestors), vec![3, 4, 5]);
}

#[test]
fn a_fresh_edge_has_the_cost_of_its_shape() {
    let m = rectangle(v(1, 0, 0));
    let (graph, _, _) = graph_of(&m);
    // A perimeter of 14, an area of 12 and a diagonal of 5.
    let shape = f(980).div(f(12));
    for (a, b) in [(0, 1), (1, 0)] {
        let e = DualGraphEdge::new(3, a, b, &graph, &m.coords, f(2));
        assert_eq!((e.v1, e.v2, e.timestamp), (0, 1, 3));
        assert_eq!(e.shape, shape);
        assert_eq!(e.concavity, f(0));
        assert_eq!(e.mcost, f(2).mul(shape).neg());
        assert!(!e.exact && !e.iray_cast);
        assert_eq!((e.iv1, e.iv2), (0, 0));
        assert!(e.ancestors.is_empty());
    }
}

#[test]
fn a_flat_edge_has_the_cost_of_its_perimeter() {
    let m = mesh(
        vec![p(0, 0, 0), p(4, 0, 0), p(1, 0, 0), p(3, 0, 0)],
        v(1, 0, 0),
        &[(0, 1, 2), (0, 2, 3)],
    );
    let (graph, _, _) = graph_of(&m);
    let e = DualGraphEdge::new(0, 0, 1, &graph, &m.coords, f(1));
    // The sides of length 4, 3, 2 and 3.
    assert_eq!(e.shape, f(144));
}

#[test]
fn a_fresh_edge_is_as_concave_as_its_ends() {
    let m = rectangle(v(1, 0, 0));
    let (mut graph, _, _) = graph_of(&m);
    graph[0].concavity = f(2);
    graph[1].concavity = f(1);
    let e = DualGraphEdge::new(0, 0, 1, &graph, &m.coords, f(3));
    assert_eq!(e.concavity, f(2));
    assert_eq!(e.mcost, f(2).add(f(3).mul(e.shape)).neg());
}

#[test]
fn an_edge_is_valid_until_one_of_its_ends_changes() {
    let m = rectangle(v(1, 0, 0));
    let (mut graph, _, _) = graph_of(&m);
    let e = DualGraphEdge::new(1, 0, 1, &graph, &m.coords, f(1));
    assert!(e.is_valid(&graph));
    graph[0].timestamp = 1;
    assert!(e.is_valid(&graph));
    graph[1].timestamp = 2;
    assert!(!e.is_valid(&graph));
    graph[1].timestamp = 0;
    graph[0].timestamp = usize::MAX;
    assert!(!e.is_valid(&graph));
}

#[test]
fn the_cheaper_edge_is_the_greater_one() {
    let m = rectangle(v(1, 0, 0));
    let (graph, _, _) = graph_of(&m);
    let cheap = DualGraphEdge::new(0, 0, 1, &graph, &m.coords, f(1));
    let dear = DualGraphEdge::new(0, 0, 1, &graph, &m.coords, f(2));
    assert_eq!(cheap.cmp(&dear), Ordering::Greater);
    assert_eq!(dear.cmp(&cheap), Ordering::Less);
    assert_eq!(cheap.cmp(&cheap), Ordering::Equal);
    assert_eq!(dear.partial_cmp(&cheap), Some(Ordering::Less));
    assert_eq!(cheap.partial_cmp(&dear), Some(Ordering::Greater));
    assert_eq!(dear.partial_cmp(&dear), Some(Ordering::Equal));
    assert!(cheap == cheap && cheap != dear);
}

#[test]
fn a_cast_is_recorded() {
    let m = rectangle(v(1, 0, 0));
    let (graph, _, _) = graph_of(&m);
    let mut e = DualGraphEdge::new(0, 0, 1, &graph, &m.coords, f(1));
    e.record_cast(7, f(5), Some(f(2)));
    assert_eq!(e.concavity, f(3));
    e.record_cast(8, f(5), Some(f(4)));
    assert_eq!(e.concavity, f(3));
    e.record_cast(9, f(5), None);
    assert_eq!(e.concavity, f(3));
    assert_eq!(entries(&mut e.ancestors), vec![(7, f(3)), (8, f(1)), (9, f(0))]);
}

#[test]
fn an_exact_cost_takes_every_ray_into_account() {
    let m = rectangle(v(1, 0, 0));
    let (graph, rays, bvt) = graph_of(&m);
    let mut e = DualGraphEdge::new(0, 0, 1, &graph, &m.coords, f(1));
    let shape = e.shape;
    let touch = |_: &ConvexPair<Fixed>, r: &Ray<Fixed>| {
        // Every ray comes back from a tenth beyond the greatest coordinate.
        assert_eq!(r.dir, v(-1, 0, 0));
        Some(f(4))
    };
    e.compute_decimation_cost(&graph, &rays, &bvt, Fixed::max_value(), f(1), &touch);
    assert!(e.exact && e.iray_cast);
    assert_eq!((e.iv1, e.iv2), (3, 3));
    assert_eq!(e.concavity, margin());
    assert_eq!(e.mcost, margin().add(shape).neg());
    let ids: Vec<usize> = entries(&mut e.ancestors).iter().map(|x| x.0).collect();
    assert_eq!(ids, vec![3, 2, 2, 1, 0, 0]);
}

#[test]
fn a_cost_above_the_bound_is_not_computed_to_the_end() {
    let m = rectangle(v(1, 0, 0));
    let (graph, rays, bvt) = graph_of(&m);
    let mut e = DualGraphEdge::new(0, 0, 1, &graph, &m.coords, f(1));
    let shape = e.shape;
    let deep = |_: &ConvexPair<Fixed>, _: &Ray<Fixed>| Some(f(-10));
    e.compute_decimation_cost(&graph, &rays, &bvt, Fixed::max_value(), f(1), &deep);
    assert!(!e.exact && !e.iray_cast);
    assert_eq!((e.iv1, e.iv2), (0, 1));
    assert_eq!(e.concavity, f(14).add(margin()));
    assert_eq!(e.mcost, f(14).add(margin()).add(shape).neg());
    // Evaluating once more changes nothing.
    e.compute_decimation_cost(&graph, &rays, &bvt, Fixed::max_value(), f(1), &deep);
    assert_eq!((e.iv1, e.iv2, e.exact), (0, 1, false));
}

#[test]
fn the_cost_of_the_next_edge_bounds_the_concavity() {
    let m = rectangle(v(1, 0, 0));
    let (graph, rays, bvt) = graph_of(&m);
    let mut e = DualGraphEdge::new(0, 0, 1, &graph, &m.coords, f(1));
    let (shape, limit) = (e.shape, e.shape.add(Fixed::ratio(1, 2)));
    let touch = |_: &ConvexPair<Fixed>, _: &Ray<Fixed>| Some(f(4));
    e.compute_decimation_cost(&graph, &rays, &bvt, limit, f(1), &touch);
    // The bound is what the limit leaves, and the mcost is computed with it.
    assert!(e.exact);
    assert_eq!(e.mcost, margin().add(Fixed::ratio(1, 2).mul(shape)).neg());
}

#[test]
fn rays_without_a_direction_are_passed_over() {
    let m = rectangle(v(0, 0, 0));
    let (graph, rays, bvt) = graph_of(&m);
    let mut e = DualGraphEdge::new(0, 0, 1, &graph, &m.coords, f(1));
    let never = |_: &ConvexPair<Fixed>, _: &Ray<Fixed>| -> Option<Fixed> { panic!("no ray is cast") };
    e.compute_decimation_cost(&graph, &rays, &bvt, Fixed::max_value(), f(1), &never);
    assert!(e.exact && e.ancestors.is_empty());
    assert_eq!(e.concavity, f(0));
}

#[test]
fn a_ray_along_which_the_hull_is_flat_shows_no_concavity() {
    let m = rectangle(v(0, 0, 1));
    let (graph, rays, bvt) = graph_of(&m);
    let mut e = DualGraphEdge::new(0, 0, 1, &graph, &m.coords, f(1));
    let never = |_: &ConvexPair<Fixed>, _: &Ray<Fixed>| -> Option<Fixed> { panic!("no ray is cast") };
    e.compute_decimation_cost(&graph, &rays, &bvt, Fixed::max_value(), f(1), &never);
    assert!(e.exact);
    assert_eq!(entries(&mut e.ancestors).len(), 6);
    assert_eq!(e.concavity, f(0));
}

#[test]
fn a_ray_that_misses_shows_no_concavity() {
    let m = rectangle(v(1, 0, 0));
    let (graph, rays, bvt) = graph_of(&m);
    let mut e = DualGraphEdge::new(0, 0, 1, &graph, &m.coords, f(1));
    let miss = |_: &ConvexPair<Fixed>, _: &Ray<Fixed>| None;
    e.compute_decimation_cost(&graph, &rays, &bvt, Fixed::max_value(), f(1), &miss);
    assert_eq!(e.concavity, f(0));
    assert!(entries(&mut e.ancestors).iter().all(|x| x.1 == f(0)));
}

#[test]
fn rays_that_start_inside_are_cast_once() {
    let m = rectangle_around_triangle(v(1, 0, 0));
    let (graph, rays, bvt) = graph_of(&m);
    let mut e = DualGraphEdge::new(0, 0, 1, &graph, &m.coords, f(1));
    // A ray that starts inside meets the hull at once; one that comes back meets it later.
    let inside = |_: &ConvexPair<Fixed>, r: &Ray<Fixed>| {
        if r.dir == v(1, 0, 0) {
            Some(f(0))
        } else {
            Some(f(4))
        }
    };
    e.compute_decimation_cost(&graph, &rays, &bvt, Fixed::max_value(), f(1), &inside);
    e.compute_decimation_cost(&graph, &rays, &bvt, Fixed::max_value(), f(1), &inside);
    let ids: Vec<usize> = entries(&mut e.ancestors).iter().map(|x| x.0).collect();
    assert_eq!(ids, vec![6, 5, 4, 3, 2, 2, 1, 0, 0]);
}

#[test]
fn rays_that_start_outside_are_left_out() {
    let m = rectangle_around_triangle(v(1, 0, 0));
    let (graph, rays, bvt) = graph_of(&m);
    for answer in [None, Some(f(1))] {
        let mut e = DualGraphEdge::new(0, 0, 1, &graph, &m.coords, f(1));
        let outside = move |_: &ConvexPair<Fixed>, r: &Ray<Fixed>| {
            if r.dir == v(1, 0, 0) {
                answer
            } else {
                Some(f(4))
            }
        };
        e.compute_decimation_cost(&graph, &rays, &bvt, Fixed::max_value(), f(1), &outside);
        assert!(e.exact && e.iray_cast);
        assert_eq!(entries(&mut e.ancestors).len(), 6);
    }
}

#[test]
fn contracting_an_edge_makes_one_part_of_two() {
    let m = rectangle(v(1, 0, 0));
    let (mut graph, rays, bvt) = graph_of(&m);
    let mut e = DualGraphEdge::new(0, 0, 1, &graph, &m.coords, f(1));
    let touch = |_: &ConvexPair<Fixed>, _: &Ray<Fixed>| Some(f(4));
    e.compute_decimation_cost(&graph, &rays, &bvt, Fixed::max_value(), f(1), &touch);
    DualGraphVertex::hecol(e, &mut graph, &cloud);

    let part = &graph[0];
    assert_eq!(part.parts, Some(vec![0, 1]));
    assert_eq!(indices(&part.neighbors), Vec::<usize>::new());
    assert_eq!(indices(&part.uancestors), vec![0, 1, 2, 3]);
    // The side that both triangles have is no longer part of the border.
    assert_eq!(pairs(&part.border), vec![(0, 1), (0, 3), (1, 2), (2, 3)]);
    let ids: Vec<usize> = part.ancestors.as_ref().unwrap().iter().map(|a| a.id).collect();
    assert_eq!(ids, vec![3, 2, 1, 0]);
    assert_eq!(part.concavity, margin());
    assert_eq!(part.area, f(12));
    assert_eq!(part.aabb, AABB::new(p(0, 0, 0), p(4, 3, 0)));
    assert_eq!(
        part.chull.as_ref().unwrap().coords,
        vec![p(0, 0, 0), p(4, 0, 0), p(4, 3, 0), p(0, 0, 0), p(4, 3, 0), p(0, 3, 0)]
    );

    let rest = &graph[1];
    assert!(rest.neighbors.is_none() && rest.ancestors.is_none() && rest.uancestors.is_none());
    assert!(rest.border.is_none() && rest.chull.is_none() && rest.parts.is_none());
}

#[test]
fn neighbors_of_the_second_part_become_neighbors_of_the_first() {
    // A strip of four triangles.
    let m = mesh(
        vec![p(0, 0, 0), p(0, 2, 0), p(2, 0, 0), p(2, 2, 0), p(4, 0, 0), p(4, 2, 0)],
        v(0, 0, 0),
        &[(0, 1, 2), (1, 2, 3), (2, 3, 4), (3, 4, 5)],
    );
    let (mut graph, rays, bvt) = graph_of(&m);
    assert_eq!(indices(&graph[2].neighbors), vec![1, 3]);
    let mut e = DualGraphEdge::new(0, 2, 1, &graph, &m.coords, f(1));
    let miss = |_: &ConvexPair<Fixed>, _: &Ray<Fixed>| None;
    e.compute_decimation_cost(&graph, &rays, &bvt, Fixed::max_value(), f(1), &miss);
    DualGraphVertex::hecol(e, &mut graph, &cloud);
    assert_eq!(graph[1].parts, Some(vec![1, 2]));
    assert_eq!(indices(&graph[0].neighbors), vec![1]);
    assert_eq!(indices(&graph[1].neighbors), vec![0, 3]);
    assert_eq!(indices(&graph[3].neighbors), vec![1]);
}

#[test]
fn an_evaluation_that_is_resumed_equals_a_direct_one() {
    let m = rectangle_around_triangle(v(1, 0, 0));
    let (graph, rays, bvt) = graph_of(&m);
    // Rays that start farther to the left show more.
    let cast = |_: &ConvexPair<Fixed>, r: &Ray<Fixed>| {
        if r.dir == v(1, 0, 0) {
            Some(f(0))
        } else {
            Some(r.orig.x.sub(Fixed::ratio(1, 4)))
        }
    };
    let mut resumed = DualGraphEdge::new(0, 0, 1, &graph, &m.coords, f(1));
    let mut direct = DualGraphEdge::new(0, 0, 1, &graph, &m.coords, f(1));
    let little = resumed.shape.add(Fixed::ratio(1, 10));
    resumed.compute_decimation_cost(&graph, &rays, &bvt, little, f(1), &cast);
    assert!(!resumed.exact);
    resumed.compute_decimation_cost(&graph, &rays, &bvt, Fixed::max_value(), f(1), &cast);
    direct.compute_decimation_cost(&graph, &rays, &bvt, Fixed::max_value(), f(1), &cast);
    assert!(resumed.exact && direct.exact);
    assert_eq!(resumed.concavity, direct.concavity);
    assert_eq!(resumed.mcost, direct.mcost);
    assert_eq!((resumed.iv1, resumed.iv2), (direct.iv1, direct.iv2));
    assert_eq!(resumed.iray_cast, direct.iray_cast);
    assert_eq!(entries(&mut resumed.ancestors), entries(&mut direct.ancestors));
}

#[test]
fn the_cost_of_an_edge_is_a_bound_until_it_is_exact() {
    let m = rectangle(v(1, 0, 0));
    let (graph, rays, bvt) = graph_of(&m);
    let touch = |_: &ConvexPair<Fixed>, _: &Ray<Fixed>| Some(f(4));
    let mut e = DualGraphEdge::new(0, 0, 1, &graph, &m.coords, f(1));
    let fresh = e.mcost;
    e.compute_decimation_cost(&graph, &rays, &bvt, e.shape, f(1), &touch);
    let bounded = e.mcost;
    e.compute_decimation_cost(&graph, &rays, &bvt, Fixed::max_value(), f(1), &touch);
    assert!(!bounded.less(e.mcost));
    assert!(!fresh.less(e.mcost));
}

#[test]
fn a_mesh_without_points_has_no_rays() {
    let m = mesh(Vec::new(), v(1, 0, 0), &[]);
    let (rays, raymap) = compute_rays(&m);
    assert!(rays.is_empty());
    assert_eq!(raymap.find(&Vec2::new(0, 0)), None);
    assert!(compute_dual_graph(&m, &raymap).is_empty());
}
