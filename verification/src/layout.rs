//! The geometry of the store and the packing of slot coordinates.

use vstd::prelude::*;

verus! {

/// Number of slots in the jump table and the metadata zone.
pub const MAX_ITEMS: usize = 1024;

/// Size in bytes of the arena that holds the compressed cards.
pub const ARENA_SIZE: usize = 524288;

/// Root system profile.
pub const PROFILE_SYSTEM: u8 = 0;
/// Administrator profile.
pub const PROFILE_ADMIN: u8 = 1;
/// The public world.
pub const PROFILE_WORLD: u8 = 2;
/// First agent.
pub const PROFILE_LAMBER: u8 = 3;
/// Second agent.
pub const PROFILE_LAMIEL: u8 = 4;

/// Content type of an actor profile card.
pub const TYPE_PROFILE: u8 = 1;
/// Content type of an article.
pub const TYPE_ARTICLE: u8 = 2;
/// Content type of a letter between actors.
pub const TYPE_LETTER: u8 = 4;
/// Content type of the aggregated correspondence journal.
pub const TYPE_CORRESPONDENCE: u8 = 5;

/// The slot reserved for the correspondence journal.
pub const SLOT_CORRESPONDENCE: usize = 1023;

/// 2^32, the weight of the offset half of a packed coordinate.
pub open spec fn two32() -> int {
    0x1_0000_0000
}

/// The packed form of an (offset, length) pair: offset in the high 32 bits,
/// length in the low 32 bits.
pub open spec fn spec_pack(offset: u32, len: u32) -> u64 {
    (offset * two32() + len) as u64
}

/// The offset half of a packed coordinate.
pub open spec fn spec_offset(packed: u64) -> u32 {
    (packed / (two32() as u64)) as u32
}

/// The length half of a packed coordinate.
pub open spec fn spec_len(packed: u64) -> u32 {
    (packed % (two32() as u64)) as u32
}

/// Packs a 32-bit offset and a 32-bit length into one 64-bit value.
pub fn pack_coordinates(offset: u32, len: u32) -> (packed: u64)
    ensures
        packed == offset * two32() + len,
        packed == spec_pack(offset, len),
{
    let o: u64 = offset as u64;
    let l: u64 = len as u64;
    let r: u64 = (o << 32u64) | l;
    assert(r == o * 0x1_0000_0000u64 + l) by (bit_vector)
        requires
            r == (o << 32u64) | l,
            o < 0x1_0000_0000u64,
            l < 0x1_0000_0000u64,
    ;
    r
}

/// Splits a packed coordinate into its offset and its length.
pub fn unpack_coordinates(packed: u64) -> (res: (u32, u32))
    ensures
        res.0 == spec_offset(packed),
        res.1 == spec_len(packed),
        res.0 * two32() + res.1 == packed,
{
    let hi: u64 = packed >> 32u64;
    let lo: u64 = packed & 0xFFFF_FFFFu64;
    assert(hi == packed / 0x1_0000_0000u64 && lo == packed % 0x1_0000_0000u64) by (bit_vector)
        requires
            hi == packed >> 32u64,
            lo == packed & 0xFFFF_FFFFu64,
    ;
    (hi as u32, lo as u32)
}

/// Unpacking a packed coordinate gives back the offset and the length that
/// were packed.
pub proof fn lemma_unpack_pack(offset: u32, len: u32)
    ensures
        spec_offset(spec_pack(offset, len)) == offset,
        spec_len(spec_pack(offset, len)) == len,
{
    let p: int = offset * two32() + len;
    assert(p / two32() == offset && p % two32() == len) by (nonlinear_arith)
        requires
            p == offset * two32() + len,
            0 <= len < two32(),
            0 <= offset < two32(),
            two32() == 0x1_0000_0000,
    ;
}

/// Packing the two halves of a coordinate gives back the coordinate.
pub proof fn lemma_pack_unpack(packed: u64)
    ensures
        spec_pack(spec_offset(packed), spec_len(packed)) == packed,
{
    let p: int = packed as int;
    assert(p == (p / two32()) * two32() + p % two32() && p / two32() < two32()) by (nonlinear_arith)
        requires
            0 <= p < two32() * two32(),
            two32() == 0x1_0000_0000,
    ;
}

/// A packed coordinate is zero only when both halves are zero: a stored card
/// whose offset or length is positive never reads as an empty slot.
pub proof fn lemma_pack_zero(offset: u32, len: u32)
    ensures
        (spec_pack(offset, len) == 0) <==> (offset == 0 && len == 0),
{
}

} // verus!
