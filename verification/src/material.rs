//! Materials and their packed GPU uniform.
//!
//! Scalar material parameters are carried as 32-bit float bit
//! patterns: the renderer never computes with them, it only lays them
//! out.  The packed uniform is a fixed 64-byte record: albedo color,
//! the three scalar parameters plus zero padding, and two reserved
//! texture-map index quads, all disabled by a sentinel.

use vstd::prelude::*;

use crate::bytes::le_bytes_of_words;
use crate::bytes::lemma_le_bytes_of_words_len;
use crate::bytes::words_to_le_bytes;

verus! {

/// Sentinel marking a texture-map slot as unused.
pub const MAP_DISABLED: u32 = 0xffff_ffff;

/// Byte size of one packed material uniform.
pub const MATERIAL_UNIFORM_SIZE: u64 = 64;

/// An rgba color; each channel is a float bit pattern.
#[derive(Clone, Copy, PartialEq, Eq, Structural, Debug)]
pub struct Color {
    pub r: u32,
    pub g: u32,
    pub b: u32,
    pub a: u32,
}

/// A surface material: albedo plus the scalar PBR parameters, all as
/// float bit patterns.
#[derive(Clone, Copy, PartialEq, Eq, Structural, Debug)]
pub struct Material {
    pub albedo: Color,
    pub ambient_occlusion: u32,
    pub metallic: u32,
    pub roughness: u32,
}

/// The sixteen words of the packed uniform, in layout order.
pub open spec fn material_uniform_words(m: Material) -> Seq<u32> {
    seq![
        m.albedo.r,
        m.albedo.g,
        m.albedo.b,
        m.albedo.a,
        m.ambient_occlusion,
        m.metallic,
        m.roughness,
        0u32,
        MAP_DISABLED,
        MAP_DISABLED,
        MAP_DISABLED,
        MAP_DISABLED,
        MAP_DISABLED,
        MAP_DISABLED,
        MAP_DISABLED,
        MAP_DISABLED,
    ]
}

/// The packed uniform record, byte for byte.
pub open spec fn material_uniform_bytes(m: Material) -> Seq<u8> {
    le_bytes_of_words(material_uniform_words(m))
}

pub proof fn lemma_material_uniform_size(m: Material)
    ensures
        material_uniform_bytes(m).len() == MATERIAL_UNIFORM_SIZE,
{
    lemma_le_bytes_of_words_len(material_uniform_words(m));
}

/// Packs a material into its 64-byte uniform record.
pub fn pack_material_uniform(m: &Material) -> (r: Vec<u8>)
    ensures
        r@ == material_uniform_bytes(*m),
        r@.len() == MATERIAL_UNIFORM_SIZE,
{
    let mut words: Vec<u32> = Vec::new();
    words.push(m.albedo.r);
    words.push(m.albedo.g);
    words.push(m.albedo.b);
    words.push(m.albedo.a);
    words.push(m.ambient_occlusion);
    words.push(m.metallic);
    words.push(m.roughness);
    words.push(0);
    words.push(MAP_DISABLED);
    words.push(MAP_DISABLED);
    words.push(MAP_DISABLED);
    words.push(MAP_DISABLED);
    words.push(MAP_DISABLED);
    words.push(MAP_DISABLED);
    words.push(MAP_DISABLED);
    words.push(MAP_DISABLED);
    proof {
        assert(words@ =~= material_uniform_words(*m));
        lemma_material_uniform_size(*m);
    }
    words_to_le_bytes(&words)
}

} // verus!
