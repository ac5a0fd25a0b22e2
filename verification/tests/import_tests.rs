use mesh_props::MeshError;
use mesh_props::mesh::calculate_centroid;
use mesh_props::mesh::calculate_surface_area;
use mesh_props::mesh::calculate_volume;
use mesh_props::stl::import;

/// One fixed-point unit: imported coordinates carry 20 fractional bits.
const SCALE: i64 = 1 << 20;

/// Binary STL bytes for the given triangles, each nine coordinates.
fn stl_bytes(tris: &[[f32; 9]]) -> Vec<u8> {
    let mut out = vec![0u8; 80];
    out.extend_from_slice(&(tris.len() as u32).to_le_bytes());
    for t in tris {
        // Normal vector: the importer ignores it.
        for _ in 0..3 {
            out.extend_from_slice(&0.0f32.to_le_bytes());
        }
        for c in t {
            out.extend_from_slice(&c.to_le_bytes());
        }
        out.extend_from_slice(&0u16.to_le_bytes());
    }
    out
}

/// The twelve outward-oriented triangles of a cube centered at the origin
/// with edge length 1.
fn unit_cube() -> Vec<[f32; 9]> {
    let h = 0.5f32;
    let p = |i: usize| -> [f32; 3] {
        [
            if i & 1 == 0 { -h } else { h },
            if i & 2 == 0 { -h } else { h },
            if i & 4 == 0 { -h } else { h },
        ]
    };
    let f = |a: usize, b: usize, c: usize| -> [f32; 9] {
        let (a, b, c) = (p(a), p(b), p(c));
        [a[0], a[1], a[2], b[0], b[1], b[2], c[0], c[1], c[2]]
    };
    // Corner i has x set by bit 0, y by bit 1, z by bit 2.
    vec![
        f(0, 3, 1),
        f(0, 2, 3),
        f(4, 5, 7),
        f(4, 7, 6),
        f(0, 1, 5),
        f(0, 5, 4),
        f(3, 2, 6),
        f(3, 6, 7),
        f(0, 4, 6),
        f(0, 6, 2),
        f(1, 3, 7),
        f(1, 7, 5),
    ]
}

#[test]
fn import_scales_and_truncates_coordinates() {
    let data = stl_bytes(&[[0.0, 1.0, -1.0, 1.5, -0.5, 0.25, 1e-30, -0.0, 3.0]]);
    let mesh = import(&data).unwrap();
    assert_eq!(mesh.vertices.len(), 1);
    let t = mesh.vertices[0];
    assert_eq!((t.v0.x, t.v0.y, t.v0.z), (0, SCALE, -SCALE));
    assert_eq!((t.v1.x, t.v1.y, t.v1.z), (3 * SCALE / 2, -SCALE / 2, SCALE / 4));
    // A tiny magnitude truncates to zero; so does a negative zero.
    assert_eq!((t.v2.x, t.v2.y, t.v2.z), (0, 0, 3 * SCALE));
}

#[test]
fn import_rejects_nan_and_infinity() {
    let nan = f32::from_bits(0x7FC0_0000);
    let data = stl_bytes(&[[nan, 0.0, 0.0, 0.0, 1.0, 0.0, 0.0, 0.0, 1.0]]);
    assert!(matches!(import(&data), Err(MeshError::ParseError)));
    let data = stl_bytes(&[[0.0, f32::INFINITY, 0.0, 0.0, 1.0, 0.0, 0.0, 0.0, 1.0]]);
    assert!(matches!(import(&data), Err(MeshError::ParseError)));
}

#[test]
fn import_rejects_oversized_coordinates() {
    let data = stl_bytes(&[[1e10, 0.0, 0.0, 0.0, 1.0, 0.0, 0.0, 0.0, 1.0]]);
    assert!(matches!(import(&data), Err(MeshError::ParseError)));
}

#[test]
fn import_rejects_malformed_bytes() {
    let data = vec![1u8, 2, 3];
    assert!(matches!(import(&data), Err(MeshError::ParseError)));
}

#[test]
fn import_truncated_file_fails() {
    let mut data = stl_bytes(&[[0.0, 0.0, 0.0, 1.0, 0.0, 0.0, 0.0, 1.0, 0.0]]);
    data.truncate(data.len() - 10);
    assert!(matches!(import(&data), Err(MeshError::ParseError)));
}

#[test]
fn empty_stl_gives_zero_volume_and_area_and_no_centroid() {
    let data = stl_bytes(&[]);
    let mesh = import(&data).unwrap();
    assert_eq!(mesh.vertices.len(), 0);
    assert_eq!(calculate_volume(&mesh).num, 0);
    assert_eq!(calculate_surface_area(&mesh).num, 0);
    assert_eq!(calculate_centroid(&mesh), Err(MeshError::ArithmeticError));
}

#[test]
fn unit_cube_properties_through_import() {
    let data = stl_bytes(&unit_cube());
    let mesh = import(&data).unwrap();
    assert_eq!(mesh.vertices.len(), 12);

    let s3 = (SCALE as f64).powi(3);
    let vol = calculate_volume(&mesh);
    let volume = vol.num as f64 / vol.den as f64 / s3;
    assert!((volume - 1.0).abs() < 1e-4, "volume was {volume}");

    let s2 = (SCALE as f64).powi(2);
    let area_r = calculate_surface_area(&mesh);
    let area = area_r.num as f64 / area_r.den as f64 / s2;
    assert!((area - 6.0).abs() < 1e-4, "area was {area}");

    let cen = calculate_centroid(&mesh).unwrap();
    assert_eq!((cen[0].num, cen[1].num, cen[2].num), (0, 0, 0));
}

#[test]
fn inverted_cube_through_import_negates_volume() {
    let flipped: Vec<[f32; 9]> = unit_cube()
        .into_iter()
        .map(|t| [t[0], t[1], t[2], t[6], t[7], t[8], t[3], t[4], t[5]])
        .collect();
    let outward = import(&stl_bytes(&unit_cube())).unwrap();
    let inward = import(&stl_bytes(&flipped)).unwrap();
    let vo = calculate_volume(&outward);
    let vi = calculate_volume(&inward);
    assert_eq!(vi.num, -vo.num);
    assert_ne!(vo.num, 0);
}

#[test]
fn ascii_stl_imports() {
    let text = "solid tetra\n\
        facet normal 0 0 1\n\
        outer loop\n\
        vertex 0 0 0\n\
        vertex 1 0 0\n\
        vertex 0 1 0\n\
        endloop\n\
        endfacet\n\
        endsolid tetra\n";
    let mesh = import(&text.as_bytes().to_vec()).unwrap();
    assert_eq!(mesh.vertices.len(), 1);
    let t = mesh.vertices[0];
    assert_eq!((t.v0.x, t.v0.y, t.v0.z), (0, 0, 0));
    assert_eq!((t.v1.x, t.v1.y, t.v1.z), (SCALE, 0, 0));
    assert_eq!((t.v2.x, t.v2.y, t.v2.z), (0, SCALE, 0));
}
