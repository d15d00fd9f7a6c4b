use hacd::aabb::{point_cloud_aabb, AABB};
use hacd::bvt::BVT;
use hacd::kernel::{point_cloud_support_point, toi_with_ray};
use hacd::mesh::{denormalize, normalize, triangle_area};
use hacd::rays::compute_ray_bvt;
use hacd::{center, dist, ConvexPair, Fixed, IndexBuffer, Pnt3, Ray, Scalar, TriMesh, Vec2, Vec3};

fn f(n: i32) -> Fixed {
    Fixed::whole(n)
}

fn p(x: i32, y: i32, z: i32) -> Pnt3<Fixed> {
    Pnt3::new(f(x), f(y), f(z))
}

fn v(x: i32, y: i32, z: i32) -> Vec3<Fixed> {
    Vec3::new(f(x), f(y), f(z))
}

#[test]
fn products_of_vectors() {
    assert_eq!(v(1, 2, 3).dot(&v(4, -5, 6)), f(12));
    assert_eq!(v(1, 0, 0).cross(&v(0, 1, 0)), v(0, 0, 1));
    assert_eq!(v(1, 2, 3).cross(&v(4, 5, 6)), v(-3, 6, -3));
    assert_eq!(v(2, 3, 6).norm(), f(7));
    assert_eq!(v(1, -2, 3).neg(), v(-1, 2, -3));
    assert_eq!(v(1, -2, 3).mul(f(2)), v(2, -4, 6));
    assert!(Vec3::<Fixed>::zero().is_zero() && !v(0, 0, 1).is_zero());
}

#[test]
fn normalizing_returns_the_length() {
    let mut d = v(0, 4, 0);
    assert_eq!(d.normalize(), f(4));
    assert_eq!(d, v(0, 1, 0));
}

#[test]
fn points_and_vectors() {
    assert_eq!(p(1, 2, 3).add(&v(1, 1, 1)), p(2, 3, 4));
    assert_eq!(p(1, 2, 3).sub(&p(1, 1, 1)), v(0, 1, 2));
    assert_eq!(p(1, 2, 3).mul(f(3)), p(3, 6, 9));
    assert_eq!(p(1, 2, 3).as_vec(), v(1, 2, 3));
    assert_eq!(dist(&p(1, 2, 3), &p(3, 5, 9)), f(7));
    assert_eq!(center(&p(0, 2, -4), &p(2, 6, 4)), p(1, 4, 0));
}

#[test]
fn the_area_of_a_triangle() {
    assert_eq!(triangle_area(&p(0, 0, 0), &p(4, 0, 0), &p(0, 3, 0)), f(6));
    assert_eq!(triangle_area(&p(0, 0, 0), &p(4, 0, 0), &p(2, 0, 0)), f(0));
}

#[test]
fn the_box_of_a_cloud() {
    let cloud = [p(1, 5, -2), p(3, 0, 0), p(-1, 2, 7)];
    let (mins, maxs) = point_cloud_aabb(&cloud);
    assert_eq!((mins, maxs), (p(-1, 0, -2), p(3, 5, 7)));
}

#[test]
fn boxes_merge_and_meet() {
    let a = AABB::new(p(0, 0, 0), p(2, 2, 2));
    let b = AABB::new(p(2, 1, 1), p(5, 6, 7));
    let c = AABB::new(p(3, 3, 3), p(4, 4, 4));
    assert_eq!(a.merged(&b), AABB::new(p(0, 0, 0), p(5, 6, 7)));
    assert!(a.intersects(&b) && b.intersects(&a));
    assert!(!a.intersects(&c));
    assert!(a.merged(&b).intersects(&c));
}

#[test]
fn the_farthest_point_of_a_cloud() {
    let cloud = [p(0, 0, 0), p(3, 1, 0), p(1, 4, 0)];
    assert_eq!(point_cloud_support_point(&v(1, 0, 0), &cloud), p(3, 1, 0));
    assert_eq!(point_cloud_support_point(&v(0, 1, 0), &cloud), p(1, 4, 0));
    assert_eq!(point_cloud_support_point(&v(-1, -1, 0), &cloud), p(0, 0, 0));
}

#[test]
fn the_farthest_point_of_a_pair() {
    let (a, b) = ([p(0, 0, 0), p(3, 1, 0)], [p(2, 9, 0), p(3, 7, 0)]);
    let pair = ConvexPair::new(&a, &b);
    assert_eq!(pair.support_point(&v(0, 1, 0)), p(2, 9, 0));
    assert_eq!(pair.support_point(&v(0, -1, 0)), p(0, 0, 0));
    // Of two points as far as each other, the one of the second cloud is taken.
    assert_eq!(pair.support_point(&v(1, 0, 0)), p(3, 7, 0));
}

#[test]
fn the_cast_of_the_caller_is_used() {
    let (a, b) = ([p(1, 0, 0)], [p(2, 0, 0)]);
    let pair = ConvexPair::new(&a, &b);
    let ray = Ray::new(p(0, 0, 0), v(1, 0, 0));
    let near = |q: &ConvexPair<Fixed>, r: &Ray<Fixed>| Some(q.a[0].x.sub(r.orig.x));
    assert_eq!(toi_with_ray(&near, &pair, &ray), Some(f(1)));
    let never = |_: &ConvexPair<Fixed>, _: &Ray<Fixed>| None;
    assert_eq!(toi_with_ray(&never, &pair, &ray), None);
}

#[test]
fn the_tree_finds_the_boxes_that_meet() {
    let leaves: Vec<(usize, AABB<Fixed>)> =
        (0..9).map(|i| (10 + i as usize, AABB::new(p(i, 0, 0), p(i, 0, 0)))).collect();
    let tree = BVT::new_balanced(leaves);
    let found = tree.visit(&AABB::new(p(3, -1, -1), p(5, 1, 1)));
    assert_eq!(found, vec![13, 14, 15]);
    assert!(tree.visit(&AABB::new(p(3, 1, 1), p(5, 2, 2))).is_empty());
    let empty: BVT<Fixed> = BVT::new_balanced(Vec::new());
    assert!(empty.visit(&AABB::new(p(0, 0, 0), p(9, 9, 9))).is_empty());
}

#[test]
fn the_tree_of_rays_holds_their_origins() {
    let rays = [Ray::new(p(0, 0, 0), v(1, 0, 0)), Ray::new(p(4, 0, 0), v(1, 0, 0))];
    let tree = compute_ray_bvt(&rays);
    assert_eq!(tree.visit(&AABB::new(p(3, 0, 0), p(9, 0, 0))), vec![1]);
    assert_eq!(tree.visit(&AABB::new(p(0, 0, 0), p(9, 0, 0))), vec![0, 1]);
}

#[test]
fn a_mesh_without_indices_is_a_list_of_triangles() {
    let points = vec![p(0, 0, 0), p(1, 0, 0), p(0, 1, 0), p(0, 0, 1), p(1, 0, 1), p(0, 1, 1)];
    let mesh = TriMesh::new(points, None, None);
    assert_eq!(mesh.num_triangles(), 2);
    assert_eq!(mesh.triangle(1), (Vec3::new(3, 4, 5), Vec3::new(3, 4, 5)));
}

#[test]
fn split_indices_name_coordinates_and_normals() {
    let t = Vec3::new(Vec2::new(0, 5), Vec2::new(1, 6), Vec2::new(2, 7));
    let mesh = TriMesh::new(
        vec![p(0, 0, 0), p(1, 0, 0), p(0, 1, 0)],
        None,
        Some(IndexBuffer::SplitIndexBuffer(vec![t])),
    );
    assert_eq!(mesh.num_triangles(), 1);
    assert_eq!(mesh.triangle(0), (Vec3::new(0, 1, 2), Vec3::new(5, 6, 7)));
}

#[test]
fn meshes_are_moved_and_scaled() {
    let mut mesh = TriMesh::new(vec![p(1, 2, 3), p(4, 5, 6), p(7, 8, 9)], None, None);
    mesh.translate_by(&v(1, 0, -1));
    mesh.scale_by_scalar(f(2));
    assert_eq!(mesh.coords, vec![p(4, 4, 4), p(10, 10, 10), p(16, 16, 16)]);
}

#[test]
fn a_normalized_mesh_is_centered_and_has_a_diagonal_of_one() {
    let mut mesh = TriMesh::new(vec![p(0, 1, 1), p(4, 1, 1), p(2, 1, 1)], None, None);
    let (center, diag) = normalize(&mut mesh);
    assert_eq!((center, diag), (p(2, 1, 1), f(4)));
    let half = Fixed::ratio(1, 2);
    assert_eq!(
        mesh.coords,
        vec![
            Pnt3::new(half.neg(), f(0), f(0)),
            Pnt3::new(half, f(0), f(0)),
            p(0, 0, 0),
        ]
    );
    denormalize(&mut mesh, &center, diag);
    assert_eq!(mesh.coords, vec![p(0, 1, 1), p(4, 1, 1), p(2, 1, 1)]);
}
