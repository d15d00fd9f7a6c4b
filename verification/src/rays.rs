//! The rays that start at the corners of a mesh, along its normals.
use crate::aabb::AABB;
use crate::bvt::BVT;
use crate::linalg::{Pnt3, Vec2, Vec3};
use crate::mesh::{MeshModel, TriMesh};
use crate::scalar::{lawful, vanishes, Scalar};
use std::collections::HashMap;
use vstd::prelude::*;

verus! {

/// A half-line.
#[derive(Clone, Copy, Debug, PartialEq)]
pub struct Ray<N> {
    pub orig: Pnt3<N>,
    pub dir: Vec3<N>,
}

impl<N> Ray<N> {
    pub fn new(orig: Pnt3<N>, dir: Vec3<N>) -> (res: Self)
        ensures
            res == (Ray { orig, dir }),
    {
        Ray { orig, dir }
    }
}

/// The number that stands for a pair of indices.
spec fn code(pair: Vec2<u32>) -> u64 {
    (pair.x * 0x1_0000_0000 + pair.y) as u64
}

fn encode(pair: &Vec2<u32>) -> (res: u64)
    ensures
        res == code(*pair),
{
    pair.x as u64 * 0x1_0000_0000 + pair.y as u64
}

/// A map from pairs of indices to numbers.
pub struct PairMap {
    map: HashMap<u64, usize>,
}

impl View for PairMap {
    type V = Map<Vec2<u32>, usize>;

    closed spec fn view(&self) -> Map<Vec2<u32>, usize> {
        Map::new(
            |pair: Vec2<u32>| self.map@.contains_key(code(pair)),
            |pair: Vec2<u32>| self.map@[code(pair)],
        )
    }
}

impl PairMap {
    /// The empty map.
    pub fn new() -> (res: Self)
        ensures
            res@ == Map::<Vec2<u32>, usize>::empty(),
    {
        let res = PairMap { map: HashMap::new() };
        assert(res@ =~= Map::<Vec2<u32>, usize>::empty());
        res
    }

    /// The number of a pair.
    pub fn find(&self, pair: &Vec2<u32>) -> (res: Option<usize>)
        ensures
            res == if self@.contains_key(*pair) {
                Some(self@[*pair])
            } else {
                None
            },
    {
        broadcast use vstd::std_specs::hash::group_hash_axioms;

        match self.map.get(&encode(pair)) {
            Some(value) => Some(*value),
            None => None,
        }
    }

    /// Gives a number to a pair.
    pub fn insert(&mut self, pair: Vec2<u32>, value: usize)
        ensures
            final(self)@ == old(self)@.insert(pair, value),
    {
        broadcast use vstd::std_specs::hash::group_hash_axioms;

        let ghost before = self@;
        self.map.insert(encode(&pair), value);
        proof {
            assert forall|other: Vec2<u32>| other != pair implies code(other) != code(pair) by {}
            assert(self@ =~= before.insert(pair, value));
        }
    }
}

/// The elements of the list, each at its first place only.
pub open spec fn distinct<T>(s: Seq<T>) -> Seq<T>
    decreases s.len(),
{
    if s.len() == 0 {
        Seq::empty()
    } else {
        let before = distinct(s.drop_last());
        if before.contains(s.last()) {
            before
        } else {
            before.push(s.last())
        }
    }
}

/// Taking each element once loses none and repeats none.
pub proof fn distinct_keeps_each_once<T>(s: Seq<T>)
    ensures
        distinct(s).no_duplicates(),
        forall|x: T| #[trigger] distinct(s).contains(x) <==> s.contains(x),
        distinct(s).len() <= s.len(),
    decreases s.len(),
{
    if s.len() > 0 {
        let shorter = s.drop_last();
        let before = distinct(shorter);
        distinct_keeps_each_once(shorter);
        assert forall|x: T| #[trigger] distinct(s).contains(x) <==> s.contains(x) by {
            if s.contains(x) {
                let i = choose|i: int| 0 <= i < s.len() && s[i] == x;
                if i < shorter.len() {
                    assert(shorter[i] == x);
                    assert(before.contains(x));
                    let k = choose|k: int| 0 <= k < before.len() && before[k] == x;
                    assert(before.push(s.last())[k] == x);
                } else {
                    assert(before.push(s.last())[before.len() as int] == x);
                }
            }
            if distinct(s).contains(x) {
                let k = choose|k: int| 0 <= k < distinct(s).len() && distinct(s)[k] == x;
                if k < before.len() {
                    assert(before.contains(before[k]));
                    assert(shorter.contains(x));
                    let i = choose|i: int| 0 <= i < shorter.len() && shorter[i] == x;
                    assert(s[i] == x);
                } else {
                    assert(s[s.len() - 1] == x);
                }
            }
        }
    }
}

/// Whether the map gives each element of the list its place, and nothing else a number.
pub open spec fn numbers<T>(m: Map<T, usize>, list: Seq<T>) -> bool {
    &&& forall|j: int|
        0 <= j < list.len() ==> m.contains_key(#[trigger] list[j]) && m[list[j]] == j
    &&& forall|x: T| #[trigger] m.contains_key(x) ==> list.contains(x)
}

/// The map that gives each element of the list its place.
pub open spec fn numbering<T>(list: Seq<T>) -> Map<T, usize> {
    Map::new(|x: T| list.contains(x), |x: T| list.index_of(x) as usize)
}

/// The numbers of the elements of a list are determined by the list.
pub proof fn numbering_is_unique<T>(m: Map<T, usize>, list: Seq<T>)
    requires
        numbers(m, list),
    ensures
        m == numbering(list),
{
    assert forall|x: T| m.contains_key(x) == numbering(list).contains_key(x) by {
        if list.contains(x) {
            let j = list.index_of(x);
            assert(m.contains_key(list[j]));
        }
    }
    assert forall|x: T| m.contains_key(x) implies m[x] == numbering(list)[x] by {
        assert(list.contains(x));
        let j = list.index_of(x);
        assert(m[list[j]] == j);
    }
    assert(m =~= numbering(list));
}

/// A list of distinct elements that is not too long is numbered.
pub proof fn numbering_numbers<T>(list: Seq<T>)
    requires
        list.no_duplicates(),
        list.len() <= usize::MAX,
    ensures
        numbers(numbering(list), list),
{
    assert forall|j: int| 0 <= j < list.len() implies numbering(list).contains_key(#[trigger] list[j])
        && numbering(list)[list[j]] == j by {
        assert(list.contains(list[j]));
        let k = list.index_of(list[j]);
        assert(list[k] == list[j]);
    }
}

impl<N> MeshModel<N> {
    /// Corner `k` of triangle `i`, as the index of its coordinates and that of its normal.
    pub open spec fn corner(self, i: int, k: int) -> Vec2<u32> {
        let (c, n) = (self.indices.corners(i), self.indices.corner_normals(i));
        if k == 0 {
            Vec2 { x: c.x, y: n.x }
        } else if k == 1 {
            Vec2 { x: c.y, y: n.y }
        } else {
            Vec2 { x: c.z, y: n.z }
        }
    }

    /// The corners of the first triangles, one triangle after the other.
    pub open spec fn corner_list(self, triangles: nat) -> Seq<Vec2<u32>> {
        Seq::new(3 * triangles, |p: int| self.corner(p / 3, p % 3))
    }

    /// The corners of the mesh, each of them once: corner `j` is where ray `j` starts.
    pub open spec fn ray_corners(self) -> Seq<Vec2<u32>> {
        distinct(self.corner_list(self.size()))
    }

    /// The ray of each corner.
    pub open spec fn ray_ids(self) -> Map<Vec2<u32>, usize> {
        numbering(self.ray_corners())
    }
}

/// The direction along `v`: the zero vector where `v` has length zero.
pub open spec fn direction<N: Scalar>(v: Vec3<N>) -> Vec3<N> {
    if vanishes(v.length()) {
        Vec3::null()
    } else {
        v.over(v.length())
    }
}

impl<N: Scalar> MeshModel<N> {
    /// The ray of a corner. It has the direction zero where the normal has length zero.
    pub open spec fn ray_at(self, corner: Vec2<u32>) -> Ray<N> {
        Ray {
            orig: self.coords[corner.x as int],
            dir: direction(self.normals->0[corner.y as int]),
        }
    }

    /// The rays of the mesh.
    pub open spec fn rays(self) -> Seq<Ray<N>> {
        self.ray_corners().map_values(|corner: Vec2<u32>| self.ray_at(corner))
    }
}

/// Adds the ray of a corner, where it is not there yet.
fn add_ray<N: Scalar>(
    coords: &[Pnt3<N>],
    normals: &[Vec3<N>],
    corner: Vec2<u32>,
    rays: &mut Vec<Ray<N>>,
    raymap: &mut PairMap,
    Ghost(mesh): Ghost<MeshModel<N>>,
    Ghost(seen): Ghost<Seq<Vec2<u32>>>,
)
    requires
        lawful::<N>(),
        coords@ == mesh.coords,
        mesh.normals == Some(normals@),
        corner.x < coords@.len(),
        corner.y < normals@.len(),
        old(rays)@ == distinct(seen).map_values(|c: Vec2<u32>| mesh.ray_at(c)),
        numbers(old(raymap)@, distinct(seen)),
    ensures
        final(rays)@ == distinct(seen.push(corner)).map_values(|c: Vec2<u32>| mesh.ray_at(c)),
        numbers(final(raymap)@, distinct(seen.push(corner))),
{
    let ghost known = distinct(seen);
    proof {
        assert(seen.push(corner).drop_last() =~= seen);
        distinct_keeps_each_once(seen);
    }
    match raymap.find(&corner) {
        Some(_) => {},
        None => {
            proof {
                if known.contains(corner) {
                    let j = choose|j: int| 0 <= j < known.len() && known[j] == corner;
                    assert(raymap@.contains_key(known[j]));
                }
            }
            raymap.insert(corner, rays.len());
            let mut normal = normals[corner.y as usize];
            if normal.normalize().is_zero() {
                normal = Vec3::zero();
            }
            rays.push(Ray::new(coords[corner.x as usize], normal));
            proof {
                assert(rays@ =~= known.push(corner).map_values(|c: Vec2<u32>| mesh.ray_at(c)));
                assert forall|x: Vec2<u32>| #[trigger] raymap@.contains_key(x) implies known.push(
                    corner,
                ).contains(x) by {
                    if x == corner {
                        assert(known.push(corner)[known.len() as int] == x);
                    } else {
                        assert(known.contains(x));
                        let j = choose|j: int| 0 <= j < known.len() && known[j] == x;
                        assert(known.push(corner)[j] == x);
                    }
                }
            }
        },
    }
}

/// The rays of the mesh, one for each distinct pair of coordinates and normal, and the map
/// from such pairs to the ray.
pub fn compute_rays<N: Scalar>(mesh: &TriMesh<N>) -> (res: (Vec<Ray<N>>, PairMap))
    requires
        lawful::<N>(),
        mesh@.located(),
        mesh@.oriented(),
    ensures
        res.0@ == mesh@.rays(),
        res.1@ == mesh@.ray_ids(),
        numbers(res.1@, mesh@.ray_corners()),
{
    let mut rays: Vec<Ray<N>> = Vec::new();
    let mut raymap = PairMap::new();
    let coords = mesh.coords.as_slice();
    let normals = mesh.normals.as_ref().unwrap().as_slice();
    let n: usize = mesh.num_triangles();
    let mut i: usize = 0;

    proof {
        assert(mesh@.corner_list(0) =~= Seq::empty());
        assert(rays@ =~= distinct(mesh@.corner_list(0)).map_values(|c: Vec2<u32>| mesh@.ray_at(c)));
    }
    while i < n
        invariant
            lawful::<N>(),
            mesh@.located(),
            mesh@.oriented(),
            coords@ == mesh@.coords,
            mesh@.normals == Some(normals@),
            n == mesh@.size(),
            i <= n,
            rays@ == distinct(mesh@.corner_list(i as nat)).map_values(
                |c: Vec2<u32>| mesh@.ray_at(c),
            ),
            numbers(raymap@, distinct(mesh@.corner_list(i as nat))),
        decreases n - i,
    {
        let (c, ns) = mesh.triangle(i);
        let ghost s0 = mesh@.corner_list(i as nat);
        let ghost s1 = s0.push(mesh@.corner(i as int, 0));
        let ghost s2 = s1.push(mesh@.corner(i as int, 1));
        proof {
            assert(all_below_corners(mesh@, i as int));
            assert(mesh@.corner_list((i + 1) as nat) =~= s2.push(mesh@.corner(i as int, 2)));
        }
        add_ray(coords, normals, Vec2::new(c.x, ns.x), &mut rays, &mut raymap, Ghost(mesh@), Ghost(s0));
        add_ray(coords, normals, Vec2::new(c.y, ns.y), &mut rays, &mut raymap, Ghost(mesh@), Ghost(s1));
        add_ray(coords, normals, Vec2::new(c.z, ns.z), &mut rays, &mut raymap, Ghost(mesh@), Ghost(s2));
        i = i + 1;
    }
    proof {
        numbering_is_unique(raymap@, mesh@.ray_corners());
    }

    (rays, raymap)
}

/// The corners of triangle `i` have coordinates and normals.
spec fn all_below_corners<N>(mesh: MeshModel<N>, i: int) -> bool {
    &&& crate::mesh::all_below(mesh.indices.corners(i), mesh.coords.len())
    &&& crate::mesh::all_below(mesh.indices.corner_normals(i), mesh.normals->0.len())
}

/// Every corner of a mesh has a ray.
pub proof fn corners_have_rays<N>(mesh: MeshModel<N>, i: int, k: int)
    requires
        0 <= i < mesh.size(),
        0 <= k < 3,
    ensures
        mesh.ray_corners().contains(mesh.corner(i, k)),
{
    let list = mesh.corner_list(mesh.size());
    distinct_keeps_each_once(list);
    assert(list[3 * i + k] == mesh.corner(i, k));
    assert(list.contains(mesh.corner(i, k)));
}

/// The leaves of the tree of rays: each ray as the box that holds its origin alone.
pub open spec fn ray_leaves<N: Scalar>(rays: Seq<Ray<N>>) -> Seq<(usize, AABB<N>)> {
    Seq::new(rays.len(), |i: int| (i as usize, AABB { mins: rays[i].orig, maxs: rays[i].orig }))
}

/// The tree of the origins of the rays.
pub fn compute_ray_bvt<N: Scalar>(rays: &[Ray<N>]) -> (res: BVT<N>)
    requires
        lawful::<N>(),
    ensures
        res.wf(),
        res.leaves() == ray_leaves(rays@),
{
    let mut aabbs: Vec<(usize, AABB<N>)> = Vec::new();
    let mut i: usize = 0;
    while i < rays.len()
        invariant
            i <= rays@.len(),
            aabbs@ == ray_leaves(rays@).take(i as int),
        decreases rays@.len() - i,
    {
        aabbs.push((i, AABB::new(rays[i].orig, rays[i].orig)));
        i = i + 1;
        assert(aabbs@ =~= ray_leaves(rays@).take(i as int));
    }
    assert(aabbs@ =~= ray_leaves(rays@));
    BVT::new_balanced(aabbs)
}

} // verus!
