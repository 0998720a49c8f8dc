use crate::net::data::{be_bytes, generate_be};
use vstd::prelude::*;

verus! {

/// A block position: `x` and `z` take 26 bits each, `y` 12 bits.
#[derive(Debug)]
pub struct BlockPosition {
    pub x: i32,
    pub z: i16,
    pub y: i32,
}

/// The 64-bit word of a block position: `x` in the top 26 bits, then `z`
/// in 26 bits, then `y` in the low 12 bits.
pub open spec fn position_word(x: i32, z: i16, y: i32) -> u64 {
    ((x as u64) << 38u64) | (((z as u64) & 0x3FFFFFFu64) << 12u64) | ((y as u64) & 0xFFFu64)
}

/// The default of a flag that is on unless a file says otherwise.
pub fn always_true() -> (r: bool)
    ensures
        r,
{
    true
}

/// The default of a count that is one unless a file says otherwise.
pub fn one() -> (r: i32)
    ensures
        r == 1,
{
    1
}

impl BlockPosition {
    /// Writes the position as its 64-bit word, most significant byte first.
    pub fn generate(&self, out: &mut Vec<u8>)
        ensures
            final(out)@ == old(out)@ + be_bytes(position_word(self.x, self.z, self.y) as nat, 8),
    {
        let word: u64 = (self.x as u64) << 38u64 | ((self.z as u64) & 0x3FFFFFFu64) << 12u64
            | (self.y as u64) & 0xFFFu64;
        generate_be(word as u128, 8, out);
    }
}

/// Law: the word holds `x` modulo 2^26, `z` modulo 2^26 and `y` modulo
/// 2^12 in disjoint bit ranges, so each can be read back.
pub proof fn lemma_position_fields(x: i32, z: i16, y: i32)
    ensures
        position_word(x, z, y) >> 38u64 == (x as u64) & 0x3FFFFFFu64,
        (position_word(x, z, y) >> 12u64) & 0x3FFFFFFu64 == (z as u64) & 0x3FFFFFFu64,
        position_word(x, z, y) & 0xFFFu64 == (y as u64) & 0xFFFu64,
{
    let a = x as u64;
    let b = z as u64;
    let c = y as u64;
    assert((((a << 38u64) | ((b & 0x3FFFFFFu64) << 12u64) | (c & 0xFFFu64)) >> 38u64) == a
        & 0x3FFFFFFu64) by (bit_vector);
    assert(((((a << 38u64) | ((b & 0x3FFFFFFu64) << 12u64) | (c & 0xFFFu64)) >> 12u64)
        & 0x3FFFFFFu64) == b & 0x3FFFFFFu64) by (bit_vector);
    assert((((a << 38u64) | ((b & 0x3FFFFFFu64) << 12u64) | (c & 0xFFFu64)) & 0xFFFu64) == c
        & 0xFFFu64) by (bit_vector);
}

} // verus!
