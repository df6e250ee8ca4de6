//! Vertex layouts and the axis remap between them.
//!
//! Every coordinate is carried as the bit pattern of an IEEE 754
//! single-precision number (what `f32::to_bits` gives). Nothing here does
//! arithmetic on coordinates: the only operation is negation, which in that
//! format flips the sign bit and leaves the other 31 bits alone.

use vstd::prelude::*;

verus! {

/// The sign bit of a single-precision bit pattern.
pub const SIGN_BIT: u32 = 0x8000_0000u32;

/// A vertex as the world stores it, in the world's axis convention.
#[derive(Clone, Copy, Debug, PartialEq, Eq)]
pub struct Vertex {
    pub position: [u32; 3],
    pub normal: [u32; 3],
    pub surface_texcoord: [u32; 2],
}

/// A vertex in the layout and axis convention of the renderer.
#[derive(Clone, Copy, Debug, PartialEq, Eq)]
pub struct PosNormTex {
    pub position: [u32; 3],
    pub normal: [u32; 3],
    pub tex_coord: [u32; 2],
}

/// The bit pattern of `-x`, for `bits` the bit pattern of `x`.
pub open spec fn negated(bits: u32) -> u32 {
    bits ^ SIGN_BIT
}

/// The axis remap: `(x, y, z)` becomes `(x, z, -y)`.
pub open spec fn remapped(p: [u32; 3]) -> [u32; 3] {
    [p[0], p[2], negated(p[1])]
}

/// A world vertex in the renderer's convention: position and normal are
/// remapped, the texture coordinate is kept as it is.
pub open spec fn transcoded(v: Vertex) -> PosNormTex {
    PosNormTex {
        position: remapped(v.position),
        normal: remapped(v.normal),
        tex_coord: v.surface_texcoord,
    }
}

/// Negates the number whose bit pattern is `bits`.
pub fn negate(bits: u32) -> (out: u32)
    ensures
        out == negated(bits),
{
    bits ^ SIGN_BIT
}

/// Remaps a position or a normal into the renderer's axis convention.
pub fn remap(p: [u32; 3]) -> (out: [u32; 3])
    ensures
        out == remapped(p),
{
    [p[0], p[2], negate(p[1])]
}

/// Turns a world vertex into a vertex of the renderer.
pub fn transcode(v: &Vertex) -> (out: PosNormTex)
    ensures
        out == transcoded(*v),
{
    PosNormTex {
        position: remap(v.position),
        normal: remap(v.normal),
        tex_coord: v.surface_texcoord,
    }
}

/// Negation undoes itself.
pub proof fn lemma_negated_twice(bits: u32)
    ensures
        negated(negated(bits)) == bits,
{
    assert((bits ^ 0x8000_0000u32) ^ 0x8000_0000u32 == bits) by (bit_vector);
}

/// The remap is no involution: applied twice it turns the vertex half way
/// round the first axis, and only the fourth application gives the vertex back.
pub proof fn lemma_remapped_twice(p: [u32; 3])
    ensures
        remapped(remapped(p))@ == seq![p[0], negated(p[1]), negated(p[2])],
        remapped(remapped(remapped(remapped(p)))) == p,
{
    lemma_negated_twice(p[1]);
    lemma_negated_twice(p[2]);
    let q = remapped(remapped(p));
    assert(remapped(remapped(q))@ =~= p@);
}

} // verus!
