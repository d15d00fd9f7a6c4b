//! Triangle meshes.
use crate::aabb::{cloud_box, point_cloud_aabb};
use crate::linalg::{center, dist, distance, middle, Pnt3, Vec2, Vec3};
use crate::scalar::{fraction, lawful, one, over, times, Scalar};
use vstd::prelude::*;

verus! {

/// The corners of the triangles of a mesh.
pub enum IndexBuffer {
    /// Each corner is one index, of the coordinates and of the normal alike.
    UnifiedIndexBuffer(Vec<Vec3<u32>>),
    /// Each corner is an index of the coordinates (`x`) and one of the normal (`y`).
    SplitIndexBuffer(Vec<Vec3<Vec2<u32>>>),
}

/// A triangle mesh.
pub struct TriMesh<N> {
    pub coords: Vec<Pnt3<N>>,
    pub normals: Option<Vec<Vec3<N>>>,
    pub indices: IndexBuffer,
}

/// The triangles of a mesh.
#[verifier::ext_equal]
pub enum IndexModel {
    Unified(Seq<Vec3<u32>>),
    Split(Seq<Vec3<Vec2<u32>>>),
}

/// What a mesh holds.
#[verifier::ext_equal]
pub struct MeshModel<N> {
    pub coords: Seq<Pnt3<N>>,
    pub normals: Option<Seq<Vec3<N>>>,
    pub indices: IndexModel,
}

impl View for IndexBuffer {
    type V = IndexModel;

    open spec fn view(&self) -> IndexModel {
        match *self {
            IndexBuffer::UnifiedIndexBuffer(idx) => IndexModel::Unified(idx@),
            IndexBuffer::SplitIndexBuffer(idx) => IndexModel::Split(idx@),
        }
    }
}

impl<N> View for TriMesh<N> {
    type V = MeshModel<N>;

    open spec fn view(&self) -> MeshModel<N> {
        MeshModel {
            coords: self.coords@,
            normals: match self.normals {
                Some(normals) => Some(normals@),
                None => None,
            },
            indices: self.indices@,
        }
    }
}

impl IndexModel {
    pub open spec fn len(self) -> nat {
        match self {
            IndexModel::Unified(idx) => idx.len(),
            IndexModel::Split(idx) => idx.len(),
        }
    }

    /// The indices of the coordinates of triangle `i`.
    pub open spec fn corners(self, i: int) -> Vec3<u32> {
        match self {
            IndexModel::Unified(idx) => idx[i],
            IndexModel::Split(idx) => Vec3 { x: idx[i].x.x, y: idx[i].y.x, z: idx[i].z.x },
        }
    }

    /// The indices of the normals of triangle `i`.
    pub open spec fn corner_normals(self, i: int) -> Vec3<u32> {
        match self {
            IndexModel::Unified(idx) => idx[i],
            IndexModel::Split(idx) => Vec3 { x: idx[i].x.y, y: idx[i].y.y, z: idx[i].z.y },
        }
    }
}

/// Whether the three indices are less than `bound`.
pub open spec fn all_below(t: Vec3<u32>, bound: nat) -> bool {
    t.x < bound && t.y < bound && t.z < bound
}

impl<N> MeshModel<N> {
    /// The number of triangles.
    pub open spec fn size(self) -> nat {
        self.indices.len()
    }

    /// Every corner of the mesh has coordinates.
    pub open spec fn located(self) -> bool {
        forall|i: int|
            0 <= i < self.size() ==> all_below(#[trigger] self.indices.corners(i), self.coords.len())
    }

    /// There are normals, and every corner of the mesh has one.
    pub open spec fn oriented(self) -> bool {
        &&& self.normals is Some
        &&& forall|i: int|
            0 <= i < self.size() ==> all_below(
                #[trigger] self.indices.corner_normals(i),
                self.normals->0.len(),
            )
    }

    /// There are points, and every corner of the mesh has coordinates and a normal.
    pub open spec fn complete(self) -> bool {
        self.coords.len() > 0 && self.located() && self.oriented()
    }

    /// The coordinates of the corners of triangle `i`.
    pub open spec fn corner_points(self, i: int) -> Seq<Pnt3<N>> {
        let t = self.indices.corners(i);
        seq![self.coords[t.x as int], self.coords[t.y as int], self.coords[t.z as int]]
    }
}

impl<N: Scalar> MeshModel<N> {
    /// The mesh moved by `v`.
    pub open spec fn translated(self, v: Vec3<N>) -> Self {
        MeshModel { coords: self.coords.map_values(|p: Pnt3<N>| p.plus(v)), ..self }
    }

    /// The mesh with every coordinate multiplied by `s`.
    pub open spec fn scaled(self, s: N) -> Self {
        MeshModel { coords: self.coords.map_values(|p: Pnt3<N>| p.times(s)), ..self }
    }

    /// The center of the bounding box.
    pub open spec fn center(self) -> Pnt3<N> {
        middle(cloud_box(self.coords).mins, cloud_box(self.coords).maxs)
    }

    /// The length of the diagonal of the bounding box.
    pub open spec fn diagonal(self) -> N {
        distance(cloud_box(self.coords).mins, cloud_box(self.coords).maxs)
    }

    /// The mesh moved and scaled so that its bounding box is centered and has a diagonal of
    /// length one.
    pub open spec fn normalized(self) -> Self {
        self.translated(self.center().vector().opposite()).scaled(over(one(), self.diagonal()))
    }

    /// The mesh moved and scaled back.
    pub open spec fn denormalized(self, center: Pnt3<N>, diagonal: N) -> Self {
        self.scaled(diagonal).translated(center.vector())
    }
}

/// The indices of a mesh whose points are the corners of its triangles, in order.
pub open spec fn sequential(n: nat) -> Seq<Vec3<u32>> {
    Seq::new(
        n,
        |i: int| Vec3 { x: (3 * i) as u32, y: (3 * i + 1) as u32, z: (3 * i + 2) as u32 },
    )
}

impl<N> TriMesh<N> {
    /// A mesh. Where no indices are given, each three successive points are a triangle.
    pub fn new(
        coords: Vec<Pnt3<N>>,
        normals: Option<Vec<Vec3<N>>>,
        indices: Option<IndexBuffer>,
    ) -> (res: Self)
        requires
            indices is None ==> coords@.len() <= u32::MAX,
        ensures
            res.coords == coords,
            res.normals == normals,
            res.indices@ == match indices {
                Some(idx) => idx@,
                None => IndexModel::Unified(sequential(coords@.len() / 3)),
            },
    {
        let indices = match indices {
            Some(idx) => idx,
            None => {
                let n: usize = coords.len() / 3;
                let mut idx: Vec<Vec3<u32>> = Vec::new();
                let mut i: usize = 0;
                while i < n
                    invariant
                        i <= n,
                        3 * n <= u32::MAX,
                        idx@ == sequential(i as nat),
                    decreases n - i,
                {
                    let first: u32 = (3 * i) as u32;
                    idx.push(Vec3::new(first, first + 1, first + 2));
                    i = i + 1;
                    assert(idx@ =~= sequential(i as nat));
                }
                IndexBuffer::UnifiedIndexBuffer(idx)
            },
        };
        TriMesh { coords, normals, indices }
    }

    /// The number of triangles.
    pub fn num_triangles(&self) -> (res: usize)
        ensures
            res == self@.size(),
    {
        match &self.indices {
            IndexBuffer::UnifiedIndexBuffer(idx) => idx.len(),
            IndexBuffer::SplitIndexBuffer(idx) => idx.len(),
        }
    }

    /// The indices of the coordinates and of the normals of a triangle.
    pub fn triangle(&self, i: usize) -> (res: (Vec3<u32>, Vec3<u32>))
        requires
            i < self@.size(),
        ensures
            res.0 == self@.indices.corners(i as int),
            res.1 == self@.indices.corner_normals(i as int),
    {
        match &self.indices {
            IndexBuffer::UnifiedIndexBuffer(idx) => (idx[i], idx[i]),
            IndexBuffer::SplitIndexBuffer(idx) => {
                let t = idx[i];
                (Vec3::new(t.x.x, t.y.x, t.z.x), Vec3::new(t.x.y, t.y.y, t.z.y))
            },
        }
    }
}

impl<N: Scalar> TriMesh<N> {
    /// Moves the mesh by `v`.
    pub fn translate_by(&mut self, v: &Vec3<N>)
        requires
            lawful::<N>(),
        ensures
            final(self)@ == old(self)@.translated(*v),
    {
        let ghost before = self.coords@;
        let mut i: usize = 0;
        while i < self.coords.len()
            invariant
                lawful::<N>(),
                i <= self.coords@.len(),
                self.coords@.len() == before.len(),
                self.normals == old(self).normals,
                self.indices == old(self).indices,
                forall|j: int| 0 <= j < i ==> self.coords@[j] == (#[trigger] before[j]).plus(*v),
                forall|j: int| i <= j < before.len() ==> self.coords@[j] == #[trigger] before[j],
            decreases self.coords@.len() - i,
        {
            let p = self.coords[i].add(v);
            self.coords[i] = p;
            i = i + 1;
        }
        assert(self@.coords =~= before.map_values(|p: Pnt3<N>| p.plus(*v)));
    }

    /// Multiplies every coordinate of the mesh by `s`.
    pub fn scale_by_scalar(&mut self, s: N)
        requires
            lawful::<N>(),
        ensures
            final(self)@ == old(self)@.scaled(s),
    {
        let ghost before = self.coords@;
        let mut i: usize = 0;
        while i < self.coords.len()
            invariant
                lawful::<N>(),
                i <= self.coords@.len(),
                self.coords@.len() == before.len(),
                self.normals == old(self).normals,
                self.indices == old(self).indices,
                forall|j: int| 0 <= j < i ==> self.coords@[j] == (#[trigger] before[j]).times(s),
                forall|j: int| i <= j < before.len() ==> self.coords@[j] == #[trigger] before[j],
            decreases self.coords@.len() - i,
        {
            let p = self.coords[i].mul(s);
            self.coords[i] = p;
            i = i + 1;
        }
        assert(self@.coords =~= before.map_values(|p: Pnt3<N>| p.times(s)));
    }
}

/// Moves and scales the mesh so that its bounding box is centered and has a diagonal of
/// length one. Returns the center and the diagonal that the box had.
pub fn normalize<N: Scalar>(mesh: &mut TriMesh<N>) -> (res: (Pnt3<N>, N))
    requires
        lawful::<N>(),
        old(mesh)@.coords.len() > 0,
    ensures
        final(mesh)@ == old(mesh)@.normalized(),
        res == (old(mesh)@.center(), old(mesh)@.diagonal()),
{
    let (mins, maxs) = point_cloud_aabb(mesh.coords.as_slice());
    let diag = dist(&mins, &maxs);
    let center = center(&mins, &maxs);

    mesh.translate_by(&center.as_vec().neg());
    mesh.scale_by_scalar(N::one().div(diag));

    (center, diag)
}

/// Moves and scales a part of a normalized mesh back to where the mesh was.
pub fn denormalize<N: Scalar>(mesh: &mut TriMesh<N>, center: &Pnt3<N>, diag: N)
    requires
        lawful::<N>(),
    ensures
        final(mesh)@ == old(mesh)@.denormalized(*center, diag),
{
    mesh.scale_by_scalar(diag);
    mesh.translate_by(&center.as_vec());
}

/// The area of a triangle: half the length of the vector product of two of its sides.
pub open spec fn area<N: Scalar>(a: Pnt3<N>, b: Pnt3<N>, c: Pnt3<N>) -> N {
    times(b.minus(a).vector_product(c.minus(a)).length(), fraction(1, 2))
}

/// The area of a triangle.
pub fn triangle_area<N: Scalar>(a: &Pnt3<N>, b: &Pnt3<N>, c: &Pnt3<N>) -> (res: N)
    requires
        lawful::<N>(),
    ensures
        res == area(*a, *b, *c),
{
    b.sub(a).cross(&c.sub(a)).norm().mul(N::ratio(1, 2))
}

/// Without indices, each three successive points are a triangle.
pub proof fn successive_points_are_triangles<N>(mesh: MeshModel<N>, i: int, k: int)
    requires
        mesh.coords.len() <= u32::MAX,
        mesh.indices == IndexModel::Unified(sequential(mesh.coords.len() / 3)),
        0 <= i < mesh.coords.len() / 3,
        0 <= k < 3,
    ensures
        mesh.size() == mesh.coords.len() / 3,
        mesh.corner_points(i).len() == 3,
        mesh.corner_points(i)[k] == mesh.coords[3 * i + k],
{
}

/// One more triangle makes a mesh of one more, and leaves the others as they are.
pub proof fn triangles_are_counted(
    unified: Seq<Vec3<u32>>,
    split: Seq<Vec3<Vec2<u32>>>,
    t: Vec3<u32>,
    u: Vec3<Vec2<u32>>,
    i: int,
)
    ensures
        IndexModel::Unified(Seq::empty()).len() == 0,
        IndexModel::Split(Seq::empty()).len() == 0,
        IndexModel::Unified(unified.push(t)).len() == IndexModel::Unified(unified).len() + 1,
        IndexModel::Split(split.push(u)).len() == IndexModel::Split(split).len() + 1,
        0 <= i < unified.len() ==> IndexModel::Unified(unified.push(t)).corners(i)
            == IndexModel::Unified(unified).corners(i),
        0 <= i < split.len() ==> IndexModel::Split(split.push(u)).corners(i) == IndexModel::Split(
            split,
        ).corners(i),
{
}

} // verus!
