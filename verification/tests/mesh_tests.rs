use mesh_props::MeshError;
use mesh_props::geometry::Tri;
use mesh_props::geometry::Vec3;
use mesh_props::mesh::calculate_centroid;
use mesh_props::mesh::calculate_surface_area;
use mesh_props::mesh::calculate_volume;
use mesh_props::mesh::create_mesh;

/// One fixed-point unit: coordinates carry 20 fractional bits.
const SCALE: i64 = 1 << 20;

fn v(x: i64, y: i64, z: i64) -> Vec3 {
    Vec3 { x, y, z }
}

fn tri(a: Vec3, b: Vec3, c: Vec3) -> Tri {
    Tri { v0: a, v1: b, v2: c }
}

/// The twelve outward-oriented triangles of an axis-aligned cube centered at
/// the origin with half-edge `h`.
fn cube_triangles(h: i64) -> Vec<Tri> {
    let p0 = v(-h, -h, -h);
    let p1 = v(h, -h, -h);
    let p2 = v(h, h, -h);
    let p3 = v(-h, h, -h);
    let p4 = v(-h, -h, h);
    let p5 = v(h, -h, h);
    let p6 = v(h, h, h);
    let p7 = v(-h, h, h);
    vec![
        tri(p0, p2, p1),
        tri(p0, p3, p2),
        tri(p4, p5, p6),
        tri(p4, p6, p7),
        tri(p0, p1, p5),
        tri(p0, p5, p4),
        tri(p2, p3, p7),
        tri(p2, p7, p6),
        tri(p0, p4, p7),
        tri(p0, p7, p3),
        tri(p1, p2, p6),
        tri(p1, p6, p5),
    ]
}

fn ratio_to_f64(num: i128, den: i128) -> f64 {
    num as f64 / den as f64
}

#[test]
fn create_mesh_assigns_sequential_identifiers() {
    let mesh = create_mesh(cube_triangles(SCALE / 2));
    assert_eq!(mesh.triangles.len(), 12);
    assert_eq!(mesh.vertices.len(), 12);
    for (i, id) in mesh.triangles.iter().enumerate() {
        assert_eq!(*id, i as i32);
    }
}

#[test]
fn unit_cube_volume_is_one() {
    let mesh = create_mesh(cube_triangles(SCALE / 2));
    let r = calculate_volume(&mesh);
    assert_eq!(r.den, 6);
    let volume = ratio_to_f64(r.num, r.den) / (SCALE as f64).powi(3);
    assert!((volume - 1.0).abs() < 1e-4, "volume was {volume}");
    // The arithmetic is exact: six times the volume of a cube of edge 2^20.
    assert_eq!(r.num, 6 * (1i128 << 60));
}

#[test]
fn unit_cube_surface_area_is_six() {
    let mesh = create_mesh(cube_triangles(SCALE / 2));
    let r = calculate_surface_area(&mesh);
    assert_eq!(r.den, 2);
    let area = ratio_to_f64(r.num, r.den) / (SCALE as f64).powi(2);
    assert!((area - 6.0).abs() < 1e-4, "area was {area}");
    assert_eq!(r.num, 12 * (1i128 << 40));
}

#[test]
fn unit_cube_centroid_is_origin() {
    let mesh = create_mesh(cube_triangles(SCALE / 2));
    let r = calculate_centroid(&mesh).unwrap();
    assert_eq!(r.len(), 3);
    for c in &r {
        assert_eq!(c.num, 0);
        assert_eq!(c.den, 36);
    }
}

#[test]
fn off_center_cube_centroid() {
    // A cube translated by one unit along x has its centroid at (1, 0, 0).
    let mut tris = cube_triangles(SCALE / 2);
    for t in &mut tris {
        for p in [&mut t.v0, &mut t.v1, &mut t.v2] {
            p.x += SCALE;
        }
    }
    let mesh = create_mesh(tris);
    let r = calculate_centroid(&mesh).unwrap();
    let x = ratio_to_f64(r[0].num, r[0].den) / SCALE as f64;
    assert!((x - 1.0).abs() < 1e-9);
    assert_eq!(r[1].num, 0);
    assert_eq!(r[2].num, 0);
}

#[test]
fn inverted_winding_negates_volume() {
    let outward = create_mesh(cube_triangles(SCALE / 2));
    let inward = create_mesh(
        cube_triangles(SCALE / 2).into_iter().map(|t| Tri { v0: t.v0, v1: t.v2, v2: t.v1 }).collect(),
    );
    let vo = calculate_volume(&outward);
    let vi = calculate_volume(&inward);
    assert_eq!(vi.num, -vo.num);
    assert_eq!(vi.den, vo.den);
    assert_ne!(vo.num, 0);
}

#[test]
fn empty_mesh_volume_and_area_are_zero() {
    let mesh = create_mesh(Vec::new());
    assert_eq!(calculate_volume(&mesh).num, 0);
    assert_eq!(calculate_surface_area(&mesh).num, 0);
}

#[test]
fn empty_mesh_centroid_fails_explicitly() {
    let mesh = create_mesh(Vec::new());
    assert_eq!(calculate_centroid(&mesh), Err(MeshError::ArithmeticError));
}
