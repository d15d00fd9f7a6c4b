use hacd::{hacd, ConvexPair, IndexBuffer, Pnt3, Ray, Scalar, TriMesh, Vec2, Vec3};

/// A floating-point number.
#[derive(Clone, Copy, Debug, PartialEq)]
struct Real(f64);

impl Scalar for Real {
    fn zero() -> Self {
        Real(0.0)
    }

    fn one() -> Self {
        Real(1.0)
    }

    fn max_value() -> Self {
        Real(f64::INFINITY)
    }

    fn ratio(num: u32, den: u32) -> Self {
        Real(num as f64 / den as f64)
    }

    fn add(self, other: Self) -> Self {
        Real(self.0 + other.0)
    }

    fn sub(self, other: Self) -> Self {
        Real(self.0 - other.0)
    }

    fn mul(self, other: Self) -> Self {
        Real(self.0 * other.0)
    }

    fn div(self, other: Self) -> Self {
        Real(self.0 / other.0)
    }

    fn neg(self) -> Self {
        Real(-self.0)
    }

    fn sqrt(self) -> Self {
        Real(self.0.sqrt())
    }

    fn is_zero(self) -> bool {
        self.0 == 0.0
    }

    fn approx_eq(self, other: Self) -> bool {
        (self.0 - other.0).abs() < 1.0e-6
    }

    fn equals(self, other: Self) -> bool {
        self.0 == other.0
    }

    /// What is not a number counts as minus infinity, so that the order is total.
    fn less(self, other: Self) -> bool {
        let place = |x: f64| if x.is_nan() { f64::NEG_INFINITY } else { x };
        place(self.0) < place(other.0)
    }
}

fn minus(a: &Pnt3<Real>, b: &Pnt3<Real>) -> [f64; 3] {
    [a.x.0 - b.x.0, a.y.0 - b.y.0, a.z.0 - b.z.0]
}

fn cross(a: [f64; 3], b: [f64; 3]) -> [f64; 3] {
    [a[1] * b[2] - a[2] * b[1], a[2] * b[0] - a[0] * b[2], a[0] * b[1] - a[1] * b[0]]
}

fn dot(a: [f64; 3], b: [f64; 3]) -> f64 {
    a[0] * b[0] + a[1] * b[1] + a[2] * b[2]
}

/// The points of a cloud, each of them once, stand for its hull.
fn distinct_points(points: &[Pnt3<Real>]) -> TriMesh<Real> {
    let mut list: Vec<Pnt3<Real>> = Vec::new();
    for q in points {
        if !list.contains(q) {
            list.push(*q);
        }
    }
    TriMesh::new(list, None, Some(IndexBuffer::UnifiedIndexBuffer(Vec::new())))
}

/// Clips the ray by every plane through three points of the pair that has all points on one
/// side.
fn clip(pair: &ConvexPair<Real>, ray: &Ray<Real>) -> Option<Real> {
    let points: Vec<Pnt3<Real>> = distinct_points(&[pair.a, pair.b].concat()).coords;
    let dir = [ray.dir.x.0, ray.dir.y.0, ray.dir.z.0];
    let (mut near, mut far) = (0.0f64, f64::INFINITY);
    for i in 0..points.len() {
        for j in i + 1..points.len() {
            for k in j + 1..points.len() {
                let n = cross(minus(&points[j], &points[i]), minus(&points[k], &points[i]));
                if dot(n, n) < 1.0e-12 {
                    continue;
                }
                for sign in [1.0, -1.0] {
                    let n = [n[0] * sign, n[1] * sign, n[2] * sign];
                    if points.iter().any(|q| dot(n, minus(q, &points[i])) > 1.0e-9) {
                        continue;
                    }
                    let height = dot(n, minus(&ray.orig, &points[i]));
                    let slope = dot(n, dir);
                    if slope.abs() < 1.0e-12 {
                        if height > 1.0e-9 {
                            return None;
                        }
                    } else if slope < 0.0 {
                        near = near.max(-height / slope);
                    } else {
                        far = far.min(-height / slope);
                    }
                }
            }
        }
    }
    if near <= far + 1.0e-9 {
        Some(Real(near))
    } else {
        None
    }
}

/// The faces of boxes, with the normals of the faces.
struct Builder {
    coords: Vec<Pnt3<Real>>,
    triangles: Vec<Vec3<Vec2<u32>>>,
}

impl Builder {
    fn point(&mut self, q: [f64; 3]) -> u32 {
        let q = Pnt3::new(Real(q[0]), Real(q[1]), Real(q[2]));
        match self.coords.iter().position(|x| *x == q) {
            Some(i) => i as u32,
            None => {
                self.coords.push(q);
                self.coords.len() as u32 - 1
            }
        }
    }

    fn quad(&mut self, corners: [[f64; 3]; 4], normal: u32) {
        let c = corners.map(|q| self.point(q));
        for (i, j, k) in [(0, 1, 2), (0, 2, 3)] {
            let corner = |l: usize| Vec2::new(c[l], normal);
            self.triangles.push(Vec3::new(corner(i), corner(j), corner(k)));
        }
    }

    fn cuboid(&mut self, a: [f64; 3], b: [f64; 3]) {
        let q = |x: usize, y: usize, z: usize| [[a[0], b[0]][x], [a[1], b[1]][y], [a[2], b[2]][z]];
        self.quad([q(0, 0, 0), q(0, 1, 0), q(0, 1, 1), q(0, 0, 1)], 0);
        self.quad([q(1, 0, 0), q(1, 1, 0), q(1, 1, 1), q(1, 0, 1)], 1);
        self.quad([q(0, 0, 0), q(1, 0, 0), q(1, 0, 1), q(0, 0, 1)], 2);
        self.quad([q(0, 1, 0), q(1, 1, 0), q(1, 1, 1), q(0, 1, 1)], 3);
        self.quad([q(0, 0, 0), q(1, 0, 0), q(1, 1, 0), q(0, 1, 0)], 4);
        self.quad([q(0, 0, 1), q(1, 0, 1), q(1, 1, 1), q(0, 1, 1)], 5);
    }

    fn mesh(self) -> TriMesh<Real> {
        let normals = [(-1, 0, 0), (1, 0, 0), (0, -1, 0), (0, 1, 0), (0, 0, -1), (0, 0, 1)]
            .iter()
            .map(|n| Vec3::new(Real(n.0 as f64), Real(n.1 as f64), Real(n.2 as f64)))
            .collect();
        TriMesh::new(self.coords, Some(normals), Some(IndexBuffer::SplitIndexBuffer(self.triangles)))
    }
}

fn build() -> Builder {
    Builder { coords: Vec::new(), triangles: Vec::new() }
}

fn all_triangles(parts: &[Vec<usize>]) -> Vec<usize> {
    let mut list = parts.concat();
    list.sort();
    list
}

#[test]
fn a_cube_is_one_part() {
    let mut b = build();
    b.cuboid([0.0, 0.0, 0.0], [2.0, 2.0, 2.0]);
    let (hulls, parts) = hacd(b.mesh(), Real(0.2), 1, &clip, &distinct_points).unwrap();
    assert_eq!(parts.len(), 1);
    assert_eq!(all_triangles(&parts), (0..12).collect::<Vec<usize>>());
    // The hull is back where the cube was.
    assert_eq!(hulls[0].coords.len(), 8);
    for q in &hulls[0].coords {
        for c in [q.x.0, q.y.0, q.z.0] {
            assert!(c.abs() < 1.0e-9 || (c - 2.0).abs() < 1.0e-9);
        }
    }
}

#[test]
fn two_cubes_are_two_parts() {
    let mut b = build();
    b.cuboid([0.0, 0.0, 0.0], [2.0, 2.0, 2.0]);
    b.cuboid([5.0, 0.0, 0.0], [7.0, 2.0, 2.0]);
    let (_, parts) = hacd(b.mesh(), Real(0.2), 1, &clip, &distinct_points).unwrap();
    assert_eq!(parts.len(), 2);
    assert_eq!(all_triangles(&parts), (0..24).collect::<Vec<usize>>());
    assert_eq!(all_triangles(&parts[..1]), (0..12).collect::<Vec<usize>>());
    assert_eq!(all_triangles(&parts[1..]), (12..24).collect::<Vec<usize>>());
}

#[test]
fn a_cube_can_be_left_in_several_parts() {
    for min in [2, 3, 6, 12] {
        let mut b = build();
        b.cuboid([0.0, 0.0, 0.0], [2.0, 2.0, 2.0]);
        let (hulls, parts) = hacd(b.mesh(), Real(0.2), min, &clip, &distinct_points).unwrap();
        assert_eq!((hulls.len(), parts.len()), (min, min));
        assert_eq!(all_triangles(&parts), (0..12).collect::<Vec<usize>>());
    }
}

/// Three unit cubes in the shape of an L, without the faces between them.
fn corner_piece() -> TriMesh<Real> {
    let mut b = build();
    for z in [0.0, 1.0] {
        for (x, y) in [(0.0, 0.0), (1.0, 0.0), (0.0, 1.0)] {
            let normal = if z == 0.0 { 4 } else { 5 };
            b.quad([[x, y, z], [x + 1.0, y, z], [x + 1.0, y + 1.0, z], [x, y + 1.0, z]], normal);
        }
    }
    let mut wall = |p: [f64; 2], q: [f64; 2], normal: u32| {
        b.quad([[p[0], p[1], 0.0], [q[0], q[1], 0.0], [q[0], q[1], 1.0], [p[0], p[1], 1.0]], normal)
    };
    wall([0.0, 0.0], [0.0, 1.0], 0);
    wall([0.0, 1.0], [0.0, 2.0], 0);
    wall([2.0, 0.0], [2.0, 1.0], 1);
    wall([1.0, 1.0], [1.0, 2.0], 1);
    wall([0.0, 0.0], [1.0, 0.0], 2);
    wall([1.0, 0.0], [2.0, 0.0], 2);
    wall([0.0, 2.0], [1.0, 2.0], 3);
    wall([1.0, 1.0], [2.0, 1.0], 3);
    b.mesh()
}

#[test]
fn a_concave_solid_is_cut_where_little_concavity_is_allowed() {
    let (hulls, parts) = hacd(corner_piece(), Real(0.15), 1, &clip, &distinct_points).unwrap();
    assert!(parts.len() > 1);
    assert_eq!(hulls.len(), parts.len());
    assert_eq!(all_triangles(&parts), (0..28).collect::<Vec<usize>>());
}

#[test]
fn a_concave_solid_is_one_part_where_much_concavity_is_allowed() {
    let (_, parts) = hacd(corner_piece(), Real(5.0), 1, &clip, &distinct_points).unwrap();
    assert_eq!(parts.len(), 1);
    assert_eq!(all_triangles(&parts), (0..28).collect::<Vec<usize>>());
}

#[test]
fn the_scale_and_the_place_of_a_mesh_do_not_matter() {
    let (hulls, parts) = hacd(corner_piece(), Real(0.15), 1, &clip, &distinct_points).unwrap();
    // Powers of two, which floating-point numbers multiply without rounding.
    let mut moved = corner_piece();
    for q in moved.coords.iter_mut() {
        *q = Pnt3::new(Real(q.x.0 * 4.0 + 8.0), Real(q.y.0 * 4.0 - 16.0), Real(q.z.0 * 4.0 + 2.0));
    }
    let (moved_hulls, moved_parts) = hacd(moved, Real(0.15), 1, &clip, &distinct_points).unwrap();
    assert_eq!(moved_parts, parts);
    for (a, b) in hulls.iter().zip(moved_hulls.iter()) {
        assert_eq!(a.coords.len(), b.coords.len());
        for (q, r) in a.coords.iter().zip(b.coords.iter()) {
            assert!((q.x.0 * 4.0 + 8.0 - r.x.0).abs() < 1.0e-9);
            assert!((q.y.0 * 4.0 - 16.0 - r.y.0).abs() < 1.0e-9);
            assert!((q.z.0 * 4.0 + 2.0 - r.z.0).abs() < 1.0e-9);
        }
    }
}

#[test]
fn two_decompositions_of_a_mesh_agree() {
    let (hulls, parts) = hacd(corner_piece(), Real(0.15), 1, &clip, &distinct_points).unwrap();
    let (again, same) = hacd(corner_piece(), Real(0.15), 1, &clip, &distinct_points).unwrap();
    assert_eq!(parts, same);
    assert!(hulls.iter().zip(again.iter()).all(|(a, b)| a.coords == b.coords));
}
