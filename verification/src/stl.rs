//! Importing STL files.
//!
//! Byte-level parsing is delegated to the `nom_stl` crate, which hands back
//! each triangle's nine vertex coordinates as IEEE-754 single-precision bit
//! patterns. Those bits are decoded here, in verified code, to the fixed-point
//! integer coordinates of the mesh model: a coordinate value `f` becomes
//! `trunc(f * 2^20)`, truncated toward zero. Decoding fails on a NaN or an
//! infinity, and on any magnitude too large for the coordinate range.

use vstd::prelude::*;

use vstd::arithmetic::div_mod::lemma_basic_div;
use vstd::arithmetic::div_mod::lemma_div_denominator;
use vstd::arithmetic::div_mod::lemma_div_is_ordered;
use vstd::arithmetic::div_mod::lemma_div_multiples_vanish;
use vstd::arithmetic::mul::lemma_mul_is_associative;
use vstd::arithmetic::mul::lemma_mul_is_commutative;
use vstd::arithmetic::mul::lemma_mul_nonnegative;
use vstd::arithmetic::power2::lemma2_to64;
use vstd::arithmetic::power2::lemma2_to64_rest;
use vstd::arithmetic::power2::lemma_pow2_adds;
use vstd::arithmetic::power2::lemma_pow2_pos;
use vstd::arithmetic::power2::lemma_pow2_strictly_increases;
use vstd::arithmetic::power2::pow2;

use crate::MeshError;
use crate::geometry::COORD_LIMIT;
use crate::geometry::Tri;
use crate::geometry::Vec3;
use crate::geometry::lemma_mul_le;
use crate::mesh::MAX_TRIANGLES;
use crate::mesh::Mesh;
use crate::mesh::create_mesh;

verus! {

/// The sign bit of an IEEE-754 single-precision bit pattern.
pub open spec fn f32_is_neg(bits: u32) -> bool {
    bits >= 0x8000_0000
}

/// The biased exponent field of the bit pattern.
pub open spec fn f32_exp(bits: u32) -> int {
    (bits as int / 0x80_0000) % 0x100
}

/// The fraction field of the bit pattern.
pub open spec fn f32_frac(bits: u32) -> int {
    bits as int % 0x80_0000
}

/// The magnitude of the encoded number, as a numerator over the fixed
/// denominator `2^149`: a subnormal is `frac`, a normal number is
/// `(frac + 2^23) * 2^(exp - 1)`.
pub open spec fn f32_mag_num(bits: u32) -> int {
    if f32_exp(bits) == 0 {
        f32_frac(bits)
    } else {
        (f32_frac(bits) + 0x80_0000) * pow2((f32_exp(bits) - 1) as nat)
    }
}

/// The encoded magnitude scaled by `2^20` and truncated to an integer:
/// `num / 2^149 * 2^20 == num / 2^129`, rounded down.
pub open spec fn fixed_mag(bits: u32) -> int {
    f32_mag_num(bits) / (pow2(129) as int)
}

/// The fixed-point coordinate a bit pattern decodes to: its value truncated
/// toward zero at scale `2^20`. `None` for NaN, infinity, and any magnitude
/// beyond the coordinate range.
pub open spec fn fixed_from_bits(bits: u32) -> Option<i64> {
    if f32_exp(bits) == 0xFF {
        None
    } else if fixed_mag(bits) > COORD_LIMIT {
        None
    } else if f32_is_neg(bits) {
        Some((-fixed_mag(bits)) as i64)
    } else {
        Some(fixed_mag(bits) as i64)
    }
}

/// `2^k`, computed by repeated doubling.
fn pow2_u64(k: u64) -> (r: u64)
    requires
        k <= 63,
    ensures
        r == pow2(k as nat),
{
    let mut r: u64 = 1;
    let mut i: u64 = 0;
    proof {
        lemma2_to64();
    }
    while i < k
        invariant
            i <= k <= 63,
            r == pow2(i as nat),
        decreases k - i,
    {
        proof {
            lemma2_to64();
            lemma2_to64_rest();
            lemma_pow2_adds(i as nat, 1);
            if i + 1 < 63 {
                lemma_pow2_strictly_increases((i + 1) as nat, 63);
            }
        }
        r = r * 2;
        i = i + 1;
    }
    r
}

/// Decode one IEEE-754 single-precision bit pattern to a fixed-point
/// coordinate, truncating toward zero.
pub fn decode_coord(bits: u32) -> (r: Option<i64>)
    ensures
        r == fixed_from_bits(bits),
        r matches Some(c) ==> -COORD_LIMIT <= c <= COORD_LIMIT,
{
    let e: u32 = (bits / 0x80_0000) % 0x100;
    let m: u32 = bits % 0x80_0000;
    if e == 0xFF {
        return None;
    }
    let mag: u64;
    if e == 0 {
        proof {
            lemma2_to64();
            lemma_pow2_strictly_increases(23, 129);
            lemma_basic_div(m as int, pow2(129) as int);
        }
        mag = 0;
    } else {
        let sig: u32 = m + 0x80_0000;
        if e >= 130 {
            if e > 160 {
                proof {
                    lemma2_to64();
                    lemma2_to64_rest();
                    lemma_pow2_pos(129);
                    lemma_pow2_pos(160);
                    if e - 1 > 160 {
                        lemma_pow2_strictly_increases(160, (e - 1) as nat);
                    }
                    assert((sig as int) * (pow2((e - 1) as nat) as int) >= 0x80_0000 * (pow2(160)
                        as int)) by (nonlinear_arith)
                        requires
                            sig as int >= 0x80_0000,
                            pow2((e - 1) as nat) as int >= pow2(160) as int,
                            pow2(160) as int >= 0,
                    ;
                    lemma_pow2_adds(23, 160);
                    lemma_pow2_adds(54, 129);
                    lemma_div_is_ordered(pow2(183) as int, f32_mag_num(bits), pow2(129) as int);
                    lemma_mul_is_commutative(pow2(54) as int, pow2(129) as int);
                    lemma_div_multiples_vanish(pow2(54) as int, pow2(129) as int);
                }
                return None;
            }
            let p: u64 = pow2_u64((e - 130) as u64);
            proof {
                lemma2_to64();
                if e - 130 < 30 {
                    lemma_pow2_strictly_increases((e - 130) as nat, 30);
                }
                lemma_mul_le(sig as int, p as int, 0x100_0000, 0x4000_0000);
                lemma_pow2_pos(129);
                lemma_pow2_adds((e - 130) as nat, 129);
                lemma_mul_is_associative(sig as int, pow2((e - 130) as nat) as int, pow2(129) as int);
                lemma_mul_is_commutative((sig as int) * (pow2((e - 130) as nat) as int), pow2(129) as int);
                lemma_div_multiples_vanish((sig as int) * (pow2((e - 130) as nat) as int), pow2(129) as int);
            }
            mag = (sig as u64) * p;
        } else {
            let k: u32 = 130 - e;
            proof {
                lemma_pow2_pos((e - 1) as nat);
                lemma_pow2_pos(k as nat);
                lemma_pow2_pos(129);
                lemma_pow2_adds((e - 1) as nat, k as nat);
                lemma_mul_nonnegative(sig as int, pow2((e - 1) as nat) as int);
                lemma_div_denominator(
                    (sig as int) * (pow2((e - 1) as nat) as int),
                    pow2((e - 1) as nat) as int,
                    pow2(k as nat) as int,
                );
                lemma_mul_is_commutative(sig as int, pow2((e - 1) as nat) as int);
                lemma_div_multiples_vanish(sig as int, pow2((e - 1) as nat) as int);
            }
            if k >= 24 {
                proof {
                    lemma2_to64();
                    if k > 24 {
                        lemma_pow2_strictly_increases(24, k as nat);
                    }
                    lemma_basic_div(sig as int, pow2(k as nat) as int);
                }
                mag = 0;
            } else {
                let p: u64 = pow2_u64(k as u64);
                mag = (sig as u64) / p;
            }
        }
    }
    if mag > 0x3FFF_FFFF {
        return None;
    }
    let v: i64 = mag as i64;
    if bits >= 0x8000_0000 {
        Some(-v)
    } else {
        Some(v)
    }
}

/// The triangles a well-formed STL byte stream encodes, each as its nine
/// vertex coordinate bit patterns in file order; `None` where the bytes are
/// not a well-formed STL file.
pub uninterp spec fn stl_bits(data: Seq<u8>) -> Option<Seq<Seq<u32>>>;

/// All nine coordinates of an encoded triangle decode to in-range
/// fixed-point values.
pub open spec fn tri_ok(b: Seq<u32>) -> bool {
    &&& b.len() == 9
    &&& forall|i: int| 0 <= i < 9 ==> fixed_from_bits(#[trigger] b[i]) is Some
}

/// The decoded value of one encoded coordinate.
pub open spec fn coord(b: Seq<u32>, i: int) -> i64 {
    match fixed_from_bits(b[i]) {
        Some(c) => c,
        None => 0,
    }
}

/// The triangle an encoded triangle decodes to.
pub open spec fn tri_from_bits(b: Seq<u32>) -> Tri {
    Tri {
        v0: Vec3 { x: coord(b, 0), y: coord(b, 1), z: coord(b, 2) },
        v1: Vec3 { x: coord(b, 3), y: coord(b, 4), z: coord(b, 5) },
        v2: Vec3 { x: coord(b, 6), y: coord(b, 7), z: coord(b, 8) },
    }
}

/// A parse result that decodes fully: the bytes were a well-formed STL file,
/// the mesh is not too large, and every coordinate is representable.
pub open spec fn decodable(parsed: Option<Seq<Seq<u32>>>) -> bool {
    match parsed {
        Some(raw) => raw.len() <= MAX_TRIANGLES && forall|i: int|
            0 <= i < raw.len() ==> tri_ok(#[trigger] raw[i]),
        None => false,
    }
}

/// Relies on nom_stl::parse_stl: decodes a binary or ASCII STL byte stream
/// into its triangles, in file order, each triangle exposing its three
/// vertices of three coordinates; the coordinates are returned as their
/// IEEE-754 bit patterns (f32::to_bits).
#[verifier::external_body]
fn parse_stl_bits(data: &Vec<u8>) -> (r: Option<Vec<Vec<u32>>>)
    ensures
        r.deep_view() == stl_bits(data@),
        r matches Some(ts) ==> forall|i: int|
            0 <= i < ts@.len() ==> (#[trigger] ts@[i])@.len() == 9,
{
    match nom_stl::parse_stl(&mut std::io::Cursor::new(data.as_slice())) {
        Ok(mesh) => Some(
            mesh.triangles().iter().map(
                |t| t.vertices().iter().flat_map(|v| v.iter().map(|c| c.to_bits())).collect::<
                    Vec<u32>,
                >(),
            ).collect(),
        ),
        Err(_) => None,
    }
}

/// Decode one parsed triangle.
fn decode_tri(b: &Vec<u32>) -> (r: Option<Tri>)
    requires
        b@.len() == 9,
    ensures
        r is Some <==> tri_ok(b@),
        r matches Some(t) ==> t == tri_from_bits(b@) && t.bounded(COORD_LIMIT as int),
{
    let x0 = match decode_coord(b[0]) { Some(v) => v, None => { return None; } };
    let y0 = match decode_coord(b[1]) { Some(v) => v, None => { return None; } };
    let z0 = match decode_coord(b[2]) { Some(v) => v, None => { return None; } };
    let x1 = match decode_coord(b[3]) { Some(v) => v, None => { return None; } };
    let y1 = match decode_coord(b[4]) { Some(v) => v, None => { return None; } };
    let z1 = match decode_coord(b[5]) { Some(v) => v, None => { return None; } };
    let x2 = match decode_coord(b[6]) { Some(v) => v, None => { return None; } };
    let y2 = match decode_coord(b[7]) { Some(v) => v, None => { return None; } };
    let z2 = match decode_coord(b[8]) { Some(v) => v, None => { return None; } };
    Some(
        Tri {
            v0: Vec3 { x: x0, y: y0, z: z0 },
            v1: Vec3 { x: x1, y: y1, z: z1 },
            v2: Vec3 { x: x2, y: y2, z: z2 },
        },
    )
}

/// Parse STL bytes and build the mesh. `Ok` exactly when the bytes parse as
/// an STL file, the triangle count is within `MAX_TRIANGLES`, and every
/// coordinate decodes to the fixed-point range; `ParseError` otherwise.
pub fn import(data: &Vec<u8>) -> (r: Result<Mesh, MeshError>)
    ensures
        r is Ok <==> decodable(stl_bits(data@)),
        r matches Err(e) ==> e == MeshError::ParseError,
        r matches Ok(m) ==> {
            &&& m.wf()
            &&& stl_bits(data@) matches Some(raw) ==> {
                &&& m.vertices@.len() == raw.len()
                &&& forall|i: int|
                    0 <= i < raw.len() ==> m.vertices@[i] == tri_from_bits(#[trigger] raw[i])
            }
        },
{
    let parsed = match parse_stl_bits(data) {
        Some(raw) => raw,
        None => { return Err(MeshError::ParseError); },
    };
    proof {
        assert forall|i: int| 0 <= i < parsed@.len() implies parsed.deep_view()[i]
            =~= parsed@[i]@ by {
            assert(parsed.deep_view()[i] == parsed@[i].deep_view());
        }
    }
    if parsed.len() > MAX_TRIANGLES {
        return Err(MeshError::ParseError);
    }
    let n = parsed.len();
    let mut tris: Vec<Tri> = Vec::new();
    for i in 0..n
        invariant
            n == parsed@.len() <= MAX_TRIANGLES,
            tris@.len() == i,
            parsed.deep_view() == stl_bits(data@)->Some_0,
            stl_bits(data@) is Some,
            forall|j: int| 0 <= j < n ==> parsed.deep_view()[j] =~= (#[trigger] parsed@[j])@,
            forall|j: int| 0 <= j < n ==> (#[trigger] parsed@[j])@.len() == 9,
            forall|j: int| 0 <= j < i ==> tri_ok((#[trigger] parsed@[j])@),
            forall|j: int|
                0 <= j < i ==> #[trigger] tris@[j] == tri_from_bits(parsed@[j]@)
                    && tris@[j].bounded(COORD_LIMIT as int),
    {
        let t = match decode_tri(&parsed[i]) {
            Some(t) => t,
            None => { return Err(MeshError::ParseError); },
        };
        tris.push(t);
    }
    let mesh = create_mesh(tris);
    Ok(mesh)
}

} // verus!
