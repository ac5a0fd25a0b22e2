//! The mesh model and the property calculators: volume, surface area,
//! centroid.

use vstd::prelude::*;

use crate::MeshError;
use crate::Ratio;
use crate::geometry::COORD_LIMIT;
use crate::geometry::Tri;
use crate::geometry::Vec3;
use crate::geometry::calculate_triangle_area;
use crate::geometry::cross;
use crate::geometry::dot;
use crate::geometry::cross3;
use crate::geometry::dot3;
use crate::geometry::lemma_mul_le;
use crate::geometry::tri_area2;
use crate::geometry::v3;

verus! {

/// Most triangles a mesh may hold.
pub const MAX_TRIANGLES: usize = 0x4000_0000;

/// Bound on the magnitude of one triangle's signed volume contribution.
pub const TRI_VOL6_BOUND: i128 = 0x6000_0000_0000_0000_0000_0000;

/// A triangle soup: a list of sequential triangle identifiers and, in step,
/// the vertices of each triangle.
pub struct Mesh {
    pub triangles: Vec<i32>,
    pub vertices: Vec<Tri>,
}

impl Mesh {
    /// The identifier list mirrors the positions of the vertex list, the
    /// mesh is not too large, and every coordinate is in range.
    pub open spec fn wf(self) -> bool {
        &&& self.triangles@.len() == self.vertices@.len()
        &&& self.vertices@.len() <= MAX_TRIANGLES
        &&& forall|i: int|
            0 <= i < self.triangles@.len() ==> self.triangles@[i] == i as i32
        &&& forall|i: int|
            0 <= i < self.vertices@.len() ==> (#[trigger] self.vertices@[i]).bounded(
                COORD_LIMIT as int,
            )
    }
}

/// Build a mesh from decoded triangles, assigning each its position as its
/// identifier.
pub fn create_mesh(tris: Vec<Tri>) -> (r: Mesh)
    requires
        tris@.len() <= MAX_TRIANGLES,
        forall|i: int| 0 <= i < tris@.len() ==> (#[trigger] tris@[i]).bounded(COORD_LIMIT as int),
    ensures
        r.wf(),
        r.vertices@ == tris@,
{
    let n = tris.len();
    let mut id_vector: Vec<i32> = Vec::new();
    let mut i: usize = 0;
    while i < n
        invariant
            i <= n == tris@.len() <= MAX_TRIANGLES,
            id_vector@.len() == i,
            forall|j: int| 0 <= j < i ==> id_vector@[j] == j as i32,
        decreases n - i,
    {
        id_vector.push(i as i32);
        i = i + 1;
    }
    Mesh { triangles: id_vector, vertices: tris }
}

/// Six times the signed volume of the tetrahedron spanned by the origin and
/// one triangle.
pub open spec fn tri_vol6(t: Tri) -> int {
    dot3(cross3(v3(t.v0), v3(t.v1)), v3(t.v2))
}

/// Six times the signed volume enclosed by a sequence of triangles.
pub open spec fn vol6_sum(s: Seq<Tri>) -> int
    decreases s.len(),
{
    if s.len() == 0 {
        0
    } else {
        vol6_sum(s.drop_last()) + tri_vol6(s.last())
    }
}

/// Twice the total surface area of a sequence of triangles.
pub open spec fn area2_sum(s: Seq<Tri>) -> int
    decreases s.len(),
{
    if s.len() == 0 {
        0
    } else {
        area2_sum(s.drop_last()) + tri_area2(s.last())
    }
}

/// Componentwise sum of all vertex coordinates of a sequence of triangles.
pub open spec fn coord_sum(s: Seq<Tri>) -> (int, int, int)
    decreases s.len(),
{
    if s.len() == 0 {
        (0int, 0int, 0int)
    } else {
        let p = coord_sum(s.drop_last());
        let t = s.last();
        (
            p.0 + t.v0.x + t.v1.x + t.v2.x,
            p.1 + t.v0.y + t.v1.y + t.v2.y,
            p.2 + t.v0.z + t.v1.z + t.v2.z,
        )
    }
}

/// Every component of the cross product of two in-range vertices is small.
proof fn lemma_cross_of_vertices_bound(a: Vec3, b: Vec3)
    requires
        a.bounded(COORD_LIMIT as int),
        b.bounded(COORD_LIMIT as int),
    ensures
        -0x2000_0000_0000_0000 <= cross3(v3(a), v3(b)).0 <= 0x2000_0000_0000_0000,
        -0x2000_0000_0000_0000 <= cross3(v3(a), v3(b)).1 <= 0x2000_0000_0000_0000,
        -0x2000_0000_0000_0000 <= cross3(v3(a), v3(b)).2 <= 0x2000_0000_0000_0000,
{
    lemma_mul_le(a.y as int, b.z as int, 0x4000_0000, 0x4000_0000);
    lemma_mul_le(a.z as int, b.y as int, 0x4000_0000, 0x4000_0000);
    lemma_mul_le(a.z as int, b.x as int, 0x4000_0000, 0x4000_0000);
    lemma_mul_le(a.x as int, b.z as int, 0x4000_0000, 0x4000_0000);
    lemma_mul_le(a.x as int, b.y as int, 0x4000_0000, 0x4000_0000);
    lemma_mul_le(a.y as int, b.x as int, 0x4000_0000, 0x4000_0000);
}

/// One in-range triangle contributes a bounded signed volume.
proof fn lemma_tri_vol6_bound(t: Tri)
    requires
        t.bounded(COORD_LIMIT as int),
    ensures
        -TRI_VOL6_BOUND <= tri_vol6(t) <= TRI_VOL6_BOUND,
{
    let c = cross3(v3(t.v0), v3(t.v1));
    lemma_cross_of_vertices_bound(t.v0, t.v1);
    lemma_mul_le(c.0, t.v2.x as int, 0x2000_0000_0000_0000, 0x4000_0000);
    lemma_mul_le(c.1, t.v2.y as int, 0x2000_0000_0000_0000, 0x4000_0000);
    lemma_mul_le(c.2, t.v2.z as int, 0x2000_0000_0000_0000, 0x4000_0000);
}

/// Signed volume of the solid enclosed by the mesh, as the exact rational
/// `num / 6`. The result is the enclosed volume only for a closed mesh whose
/// triangles all wind outward; an inward-wound mesh gives the negated value.
pub fn calculate_volume(mesh: &Mesh) -> (r: Ratio)
    requires
        mesh.wf(),
    ensures
        r.num == vol6_sum(mesh.vertices@),
        r.den == 6,
{
    let n = mesh.triangles.len();
    let mut volume6: i128 = 0;
    for i in 0..n
        invariant
            mesh.wf(),
            n == mesh.triangles@.len(),
            volume6 == vol6_sum(mesh.vertices@.take(i as int)),
            -(i as int) * TRI_VOL6_BOUND <= volume6 <= (i as int) * TRI_VOL6_BOUND,
    {
        let id = mesh.triangles[i];
        let t = mesh.vertices[id as usize];
        let c = cross(t.v0, t.v1);
        proof {
            lemma_cross_of_vertices_bound(t.v0, t.v1);
        }
        let d = dot(c, t.v2);
        proof {
            lemma_tri_vol6_bound(t);
            assert(mesh.vertices@.take(i + 1).drop_last() =~= mesh.vertices@.take(i as int));
            assert(mesh.vertices@.take(i + 1).last() == mesh.vertices@[i as int]);
        }
        volume6 = volume6 + d;
    }
    proof {
        assert(mesh.vertices@.take(n as int) =~= mesh.vertices@);
    }
    Ratio { num: volume6, den: 6 }
}

/// Total surface area of the mesh, as the exact rational `num / 2`. Every
/// triangle counts: shared or overlapping faces are not deduplicated.
pub fn calculate_surface_area(mesh: &Mesh) -> (r: Ratio)
    requires
        mesh.wf(),
    ensures
        r.num == area2_sum(mesh.vertices@),
        r.den == 2,
{
    let n = mesh.triangles.len();
    let mut area2: i128 = 0;
    for i in 0..n
        invariant
            mesh.wf(),
            n == mesh.triangles@.len(),
            area2 == area2_sum(mesh.vertices@.take(i as int)),
            0 <= area2 <= (i as int) * 0x1_0000_0000_0000_0000,
    {
        let id = mesh.triangles[i];
        let vertices = mesh.vertices[id as usize];
        let tri_area = calculate_triangle_area(vertices);
        proof {
            assert(mesh.vertices@.take(i + 1).drop_last() =~= mesh.vertices@.take(i as int));
            assert(mesh.vertices@.take(i + 1).last() == mesh.vertices@[i as int]);
        }
        area2 = area2 + tri_area.num;
    }
    proof {
        assert(mesh.vertices@.take(n as int) =~= mesh.vertices@);
    }
    Ratio { num: area2, den: 2 }
}

/// Centroid of the mesh: the unweighted average of the triangle centroids,
/// one exact rational per axis. Triangles are not weighted by area, so a
/// finely triangulated region pulls the result toward itself. A mesh with no
/// triangles has no centroid and gives `ArithmeticError`.
pub fn calculate_centroid(mesh: &Mesh) -> (r: Result<Vec<Ratio>, MeshError>)
    requires
        mesh.wf(),
    ensures
        r is Err <==> mesh.vertices@.len() == 0,
        r matches Err(e) ==> e == MeshError::ArithmeticError,
        r matches Ok(c) ==> {
            &&& c@.len() == 3
            &&& c@[0].num == coord_sum(mesh.vertices@).0
            &&& c@[1].num == coord_sum(mesh.vertices@).1
            &&& c@[2].num == coord_sum(mesh.vertices@).2
            &&& c@[0].den == 3 * mesh.vertices@.len()
            &&& c@[1].den == 3 * mesh.vertices@.len()
            &&& c@[2].den == 3 * mesh.vertices@.len()
        },
{
    let n = mesh.triangles.len();
    if n == 0 {
        return Err(MeshError::ArithmeticError);
    }
    let mut cx: i128 = 0;
    let mut cy: i128 = 0;
    let mut cz: i128 = 0;
    for i in 0..n
        invariant
            mesh.wf(),
            n == mesh.triangles@.len(),
            cx == coord_sum(mesh.vertices@.take(i as int)).0,
            cy == coord_sum(mesh.vertices@.take(i as int)).1,
            cz == coord_sum(mesh.vertices@.take(i as int)).2,
            -(i as int) * 0xC000_0000 <= cx <= (i as int) * 0xC000_0000,
            -(i as int) * 0xC000_0000 <= cy <= (i as int) * 0xC000_0000,
            -(i as int) * 0xC000_0000 <= cz <= (i as int) * 0xC000_0000,
    {
        let id = mesh.triangles[i];
        let vertices = mesh.vertices[id as usize];
        proof {
            assert(mesh.vertices@.take(i + 1).drop_last() =~= mesh.vertices@.take(i as int));
            assert(mesh.vertices@.take(i + 1).last() == mesh.vertices@[i as int]);
        }
        cx = cx + vertices.v0.x as i128 + vertices.v1.x as i128 + vertices.v2.x as i128;
        cy = cy + vertices.v0.y as i128 + vertices.v1.y as i128 + vertices.v2.y as i128;
        cz = cz + vertices.v0.z as i128 + vertices.v1.z as i128 + vertices.v2.z as i128;
    }
    proof {
        assert(mesh.vertices@.take(n as int) =~= mesh.vertices@);
    }
    let den: i128 = 3 * (n as i128);
    let mut centroid: Vec<Ratio> = Vec::new();
    centroid.push(Ratio { num: cx, den });
    centroid.push(Ratio { num: cy, den });
    centroid.push(Ratio { num: cz, den });
    Ok(centroid)
}

/// Law: a mesh with no triangles encloses no volume and has no surface area.
pub proof fn lemma_empty_mesh_properties(s: Seq<Tri>)
    requires
        s.len() == 0,
    ensures
        vol6_sum(s) == 0,
        area2_sum(s) == 0,
{
}

/// A triangle with its winding reversed: the same vertices, listed in the
/// opposite orientation.
pub open spec fn flip_tri(t: Tri) -> Tri {
    Tri { v0: t.v0, v1: t.v2, v2: t.v1 }
}

/// Reversing one triangle's winding negates its signed volume contribution.
proof fn lemma_tri_vol6_flip(t: Tri)
    ensures
        tri_vol6(flip_tri(t)) == -tri_vol6(t),
{
    let a = v3(t.v0);
    let b = v3(t.v1);
    let c = v3(t.v2);
    assert((a.1 * c.2 - a.2 * c.1) * b.0 == a.1 * c.2 * b.0 - a.2 * c.1 * b.0) by (nonlinear_arith);
    assert((a.2 * c.0 - a.0 * c.2) * b.1 == a.2 * c.0 * b.1 - a.0 * c.2 * b.1) by (nonlinear_arith);
    assert((a.0 * c.1 - a.1 * c.0) * b.2 == a.0 * c.1 * b.2 - a.1 * c.0 * b.2) by (nonlinear_arith);
    assert((a.1 * b.2 - a.2 * b.1) * c.0 == a.1 * b.2 * c.0 - a.2 * b.1 * c.0) by (nonlinear_arith);
    assert((a.2 * b.0 - a.0 * b.2) * c.1 == a.2 * b.0 * c.1 - a.0 * b.2 * c.1) by (nonlinear_arith);
    assert((a.0 * b.1 - a.1 * b.0) * c.2 == a.0 * b.1 * c.2 - a.1 * b.0 * c.2) by (nonlinear_arith);
    assert(a.1 * c.2 * b.0 == a.1 * b.0 * c.2) by (nonlinear_arith);
    assert(a.2 * c.1 * b.0 == a.2 * b.0 * c.1) by (nonlinear_arith);
    assert(a.2 * c.0 * b.1 == a.2 * b.1 * c.0) by (nonlinear_arith);
    assert(a.0 * c.2 * b.1 == a.0 * b.1 * c.2) by (nonlinear_arith);
    assert(a.0 * c.1 * b.2 == a.0 * b.2 * c.1) by (nonlinear_arith);
    assert(a.1 * c.0 * b.2 == a.1 * b.2 * c.0) by (nonlinear_arith);
}

/// Law: reversing the winding of every triangle of a mesh negates the signed
/// volume sum, leaving its magnitude unchanged.
pub proof fn lemma_winding_flip_negates_volume(s: Seq<Tri>, f: Seq<Tri>)
    requires
        f.len() == s.len(),
        forall|i: int| 0 <= i < s.len() ==> f[i] == flip_tri(#[trigger] s[i]),
    ensures
        vol6_sum(f) == -vol6_sum(s),
    decreases s.len(),
{
    if s.len() == 0 {
    } else {
        lemma_winding_flip_negates_volume(s.drop_last(), f.drop_last());
        lemma_tri_vol6_flip(s.last());
        assert(f.last() == flip_tri(s.last()));
    }
}

} // verus!
