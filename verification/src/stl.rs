//! Parsing binary STL data into triangles.
//!
//! The caller reads the file; this module does everything after that: it
//! walks the 80-byte header, the little-endian triangle count and the
//! 50-byte records, and decodes each 32-bit float field into a fixed-point
//! coordinate by exact integer arithmetic on its bit pattern.

use vstd::prelude::*;

use crate::objects::triangle::{spec_cross_of_edges, vertex_bounded, Triangle};
use crate::vector::Vector3;

verus! {

/// Why a byte stream was rejected.
#[derive(Clone, Copy, PartialEq, Eq, Structural, Debug)]
pub enum StlError {
    /// The data ends before the header, the count or a whole record.
    Truncated,
    /// The record count in the header disagrees with the data length.
    CountMismatch,
    /// A coordinate is not finite or does not fit the coordinate range.
    UnsupportedValue,
    /// A record holds a degenerate (collinear) triangle.
    DegenerateTriangle,
}

/// The little-endian 32-bit word at `off`.
pub open spec fn spec_le_u32(bytes: Seq<u8>, off: int) -> int {
    bytes[off] + 0x100 * bytes[off + 1] + 0x1_0000 * bytes[off + 2] + 0x100_0000 * bytes[off + 3]
}

/// Read a little-endian 32-bit word.
fn read_le_u32(bytes: &Vec<u8>, off: usize) -> (r: u32)
    requires
        off + 4 <= bytes@.len(),
        off <= 0x1001_0000,
    ensures
        r == spec_le_u32(bytes@, off as int),
{
    let b0 = bytes[off] as u32;
    let b1 = bytes[off + 1] as u32;
    let b2 = bytes[off + 2] as u32;
    let b3 = bytes[off + 3] as u32;
    b0 + 0x100 * b1 + 0x1_0000 * b2 + 0x100_0000 * b3
}

/// The magnitude encoded by a float's exponent and mantissa fields, brought
/// to 16 fractional bits: `(2^23 + m) * 2^(e - 134)`, rounded down. A zero
/// exponent field encodes a value below the fixed-point resolution.
pub open spec fn spec_f32_magnitude_fixed(e: int, m: int) -> int {
    if e == 0 {
        0
    } else if e >= 134 {
        (0x80_0000 + m) * vstd::arithmetic::power2::pow2((e - 134) as nat)
    } else {
        (0x80_0000 + m) / vstd::arithmetic::power2::pow2((134 - e) as nat) as int
    }
}

/// The fixed-point coordinate encoded by a float bit pattern: rejected when
/// the value is not finite or its magnitude leaves the vertex range.
pub open spec fn spec_f32_bits_to_fixed(bits: int) -> Option<i64> {
    let s = bits / 0x8000_0000;
    let e = (bits / 0x80_0000) % 0x100;
    let m = bits % 0x80_0000;
    if e == 0xFF {
        None
    } else {
        let mag = spec_f32_magnitude_fixed(e, m);
        if mag > 0x1FF_0000 {
            None
        } else if s == 1 {
            Some((-mag) as i64)
        } else {
            Some(mag as i64)
        }
    }
}

/// Decode one float bit pattern into a fixed-point coordinate.
fn f32_bits_to_fixed(bits: u32) -> (r: Option<i64>)
    ensures
        r == spec_f32_bits_to_fixed(bits as int),
        r matches Some(v) ==> -0x1FF_0000 <= v <= 0x1FF_0000,
{
    let s = bits >> 31;
    let e = (bits >> 23) & 0xFF;
    let m = bits & 0x7F_FFFF;
    proof {
        assert(bits >> 31 == bits / 0x8000_0000 && ((bits >> 23) & 0xFF) == (bits / 0x80_0000)
            % 0x100 && (bits & 0x7F_FFFF) == bits % 0x80_0000 && bits / 0x8000_0000 <= 1 && (bits
            / 0x80_0000) % 0x100 < 0x100 && bits % 0x80_0000 < 0x80_0000) by (bit_vector);
    }
    if e == 0xFF {
        return None;
    }
    let mag: u64;
    if e == 0 {
        proof {
            assert(spec_f32_magnitude_fixed(e as int, m as int) == 0);
        }
        mag = 0;
    } else if e >= 134 {
        let sh = e - 134;
        proof {
            vstd::arithmetic::power2::lemma_pow2_pos((sh) as nat);
            if sh >= 2 {
                vstd::arithmetic::power2::lemma_pow2_adds(2, (sh - 2) as nat);
                vstd::arithmetic::power2::lemma2_to64();
                assert((0x80_0000 + m as int) * vstd::arithmetic::power2::pow2(sh as nat)
                    > 0x1FF_0000) by (nonlinear_arith)
                    requires
                        vstd::arithmetic::power2::pow2(sh as nat) == 4 * vstd::arithmetic::power2::pow2((sh - 2) as nat),
                        vstd::arithmetic::power2::pow2((sh - 2) as nat) >= 1,
                        m >= 0;
            }
        }
        if sh >= 2 {
            return None;
        }
        proof {
            vstd::arithmetic::power2::lemma2_to64();
        }
        if sh == 0 {
            mag = (0x80_0000 + m) as u64;
            proof {
                assert(spec_f32_magnitude_fixed(e as int, m as int) == (0x80_0000 + m as int)
                    * vstd::arithmetic::power2::pow2(0));
                assert((0x80_0000 + m as int) * vstd::arithmetic::power2::pow2(0) == mag as int)
                    by (nonlinear_arith)
                    requires
                        vstd::arithmetic::power2::pow2(0) == 1,
                        mag == 0x80_0000 + m as int;
            }
        } else {
            mag = 2 * ((0x80_0000 + m) as u64);
            proof {
                assert(spec_f32_magnitude_fixed(e as int, m as int) == (0x80_0000 + m as int)
                    * vstd::arithmetic::power2::pow2(1));
                assert((0x80_0000 + m as int) * vstd::arithmetic::power2::pow2(1) == mag as int)
                    by (nonlinear_arith)
                    requires
                        vstd::arithmetic::power2::pow2(1) == 2,
                        mag == 2 * (0x80_0000 + m as int);
            }
        }
    } else {
        let sh = 134 - e;
        if sh >= 24 {
            proof {
                vstd::arithmetic::power2::lemma_pow2_pos(sh as nat);
                vstd::arithmetic::power2::lemma_pow2_adds(24, (sh - 24) as nat);
                vstd::arithmetic::power2::lemma2_to64();
                assert((0x80_0000 + m as int) / vstd::arithmetic::power2::pow2(sh as nat) as int
                    == 0) by {
                    assert(vstd::arithmetic::power2::pow2(sh as nat) >= 0x100_0000)
                        by (nonlinear_arith)
                        requires
                            vstd::arithmetic::power2::pow2(sh as nat) == 0x100_0000 * vstd::arithmetic::power2::pow2((sh - 24) as nat),
                            vstd::arithmetic::power2::pow2((sh - 24) as nat) >= 1;
                    vstd::arithmetic::div_mod::lemma_basic_div(
                        0x80_0000 + m as int,
                        vstd::arithmetic::power2::pow2(sh as nat) as int,
                    );
                }
            }
            mag = 0;
            proof {
                assert(mag as int == spec_f32_magnitude_fixed(e as int, m as int));
            }
        } else {
            let base = (0x80_0000 + m) as u64;
            proof {
                assert(sh < 24);
                vstd::arithmetic::power2::lemma_pow2_pos(sh as nat);
                assert(vstd::arithmetic::power2::pow2(sh as nat) < 0x1_0000_0000) by {
                    vstd::arithmetic::power2::lemma_pow2_strictly_increases(sh as nat, 32);
                    vstd::arithmetic::power2::lemma2_to64();
                }
                vstd::bits::lemma_u64_shr_is_div(base, sh as u64);
            }
            mag = base >> (sh as u64);
            proof {
                assert(mag as nat == (base as nat) / vstd::arithmetic::power2::pow2(
                    (sh as u64) as nat,
                ));
                assert(mag as int == spec_f32_magnitude_fixed(e as int, m as int));
            }
        }
    }
    proof {
        vstd::arithmetic::power2::lemma2_to64();
        assert(mag as int == spec_f32_magnitude_fixed(e as int, m as int)) by {
            if e == 0 {
            } else if e >= 134 {
                assert(e as int - 134 == 0 || e as int - 134 == 1);
            } else {
                let sh = 134 - e as int;
                if sh >= 24 {
                } else {
                    assert(mag as int == (0x80_0000 + m as int) / vstd::arithmetic::power2::pow2(
                        sh as nat,
                    ) as int);
                }
            }
        }
    }
    if mag > 0x1FF_0000 {
        return None;
    }
    if s == 1 {
        Some(-(mag as i64))
    } else {
        Some(mag as i64)
    }
}

/// The coordinate triple decoded from twelve bytes at `off`, or nothing
/// when any of the three float fields is rejected.
pub open spec fn spec_stl_vertex(bytes: Seq<u8>, off: int) -> Option<Vector3> {
    let x = spec_f32_bits_to_fixed(spec_le_u32(bytes, off));
    let y = spec_f32_bits_to_fixed(spec_le_u32(bytes, off + 4));
    let z = spec_f32_bits_to_fixed(spec_le_u32(bytes, off + 8));
    if x is Some && y is Some && z is Some {
        Some(Vector3 { x: x.unwrap(), y: y.unwrap(), z: z.unwrap() })
    } else {
        None
    }
}

/// Read one coordinate triple starting at `off`.
fn read_vertex(bytes: &Vec<u8>, off: usize) -> (r: Option<Vector3>)
    requires
        off + 12 <= bytes@.len(),
        off <= 0x1000_8000,
    ensures
        r == spec_stl_vertex(bytes@, off as int),
        r matches Some(v) ==> vertex_bounded(v),
{
    let x = f32_bits_to_fixed(read_le_u32(bytes, off));
    let y = f32_bits_to_fixed(read_le_u32(bytes, off + 4));
    let z = f32_bits_to_fixed(read_le_u32(bytes, off + 8));
    match (x, y, z) {
        (Some(x), Some(y), Some(z)) => Some(Vector3 { x, y, z }),
        _ => None,
    }
}

/// Parse a whole binary STL byte stream: an 80-byte header, a little-endian
/// record count, and 50-byte records of four coordinate triples (the stored
/// normal is ignored; triangles derive their own) plus two attribute bytes.
/// The record count must match the data length exactly.
pub fn load_triangles_from_stl(bytes: &Vec<u8>) -> (r: Result<Vec<Triangle>, StlError>)
    ensures
        r matches Ok(ts) ==> {
            &&& bytes@.len() >= 84
            &&& 84 + 50 * ts@.len() == bytes@.len()
            &&& ts@.len() == spec_le_u32(bytes@, 80)
            &&& forall|k: int|
                0 <= k < ts@.len() ==> {
                    let off = 84 + 50 * k;
                    &&& (#[trigger] ts@[k]).wf()
                    &&& ts@[k].material is None
                    &&& spec_stl_vertex(bytes@, off + 12) == Some(ts@[k].points[0])
                    &&& spec_stl_vertex(bytes@, off + 24) == Some(ts@[k].points[1])
                    &&& spec_stl_vertex(bytes@, off + 36) == Some(ts@[k].points[2])
                }
        },
{
    if bytes.len() < 84 || bytes.len() > 0x1000_0000 {
        return Err(StlError::Truncated);
    }
    let n_triangles = read_le_u32(bytes, 80);
    let mut triangles: Vec<Triangle> = Vec::new();
    let mut off: usize = 84;
    let mut n_read: u32 = 0;
    while bytes.len() - off >= 50
        invariant
            84 <= off <= bytes@.len(),
            bytes@.len() <= 0x1000_0000,
            off == 84 + 50 * n_read,
            triangles@.len() == n_read,
            forall|k: int|
                0 <= k < triangles@.len() ==> {
                    let roff = 84 + 50 * k;
                    &&& (#[trigger] triangles@[k]).wf()
                    &&& triangles@[k].material is None
                    &&& spec_stl_vertex(bytes@, roff + 12) == Some(triangles@[k].points[0])
                    &&& spec_stl_vertex(bytes@, roff + 24) == Some(triangles@[k].points[1])
                    &&& spec_stl_vertex(bytes@, roff + 36) == Some(triangles@[k].points[2])
                },
        decreases bytes@.len() - off,
    {
        let p0 = read_vertex(bytes, off + 12);
        let p1 = read_vertex(bytes, off + 24);
        let p2 = read_vertex(bytes, off + 36);
        match (p0, p1, p2) {
            (Some(a), Some(b), Some(c)) => {
                if degenerate(&a, &b, &c) {
                    return Err(StlError::DegenerateTriangle);
                }
                triangles.push(Triangle::new(a, b, c));
            },
            _ => {
                return Err(StlError::UnsupportedValue);
            },
        }
        off = off + 50;
        n_read = n_read + 1;
    }
    if off != bytes.len() {
        return Err(StlError::Truncated);
    }
    if n_read != n_triangles {
        return Err(StlError::CountMismatch);
    }
    Ok(triangles)
}

/// Whether three vertices are collinear: the cross product of the two edges
/// vanishes.
fn degenerate(a: &Vector3, b: &Vector3, c: &Vector3) -> (r: bool)
    requires
        vertex_bounded(*a),
        vertex_bounded(*b),
        vertex_bounded(*c),
    ensures
        r == (spec_cross_of_edges(*a, *b, *c) == (0int, 0int, 0int)),
{
    let e1 = b.sub(a);
    let e2 = c.sub(a);
    let cx = e1.cross(&e2);
    proof {
        crate::math::lemma_mul_magnitude(e1.y as int, e2.z as int, 0x400_0000, 0x400_0000);
        crate::math::lemma_mul_magnitude(e1.z as int, e2.y as int, 0x400_0000, 0x400_0000);
        crate::math::lemma_mul_magnitude(e1.z as int, e2.x as int, 0x400_0000, 0x400_0000);
        crate::math::lemma_mul_magnitude(e1.x as int, e2.z as int, 0x400_0000, 0x400_0000);
        crate::math::lemma_mul_magnitude(e1.x as int, e2.y as int, 0x400_0000, 0x400_0000);
        crate::math::lemma_mul_magnitude(e1.y as int, e2.x as int, 0x400_0000, 0x400_0000);
        assert((spec_cross_of_edges(*a, *b, *c) == (cx.x as int, cx.y as int, cx.z as int)));
    }
    cx.x == 0 && cx.y == 0 && cx.z == 0
}

} // verus!
