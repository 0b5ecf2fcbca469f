//! Bitfields: one bit for each piece, the first piece in the highest bit of the
//! first byte.
use vstd::prelude::*;

verus! {

/// Bit `offset` of a byte, counted from the highest.
pub open spec fn bit(byte: u8, offset: int) -> bool {
    (byte >> ((7 - offset) as u8)) & 1 == 1
}

/// Whether a bitfield has the bit of piece `index` set. Pieces before the first
/// bit or past the last are not there.
pub open spec fn has_piece(bitfield: Seq<u8>, index: int) -> bool {
    0 <= index < 8 * bitfield.len() && bit(bitfield[index / 8], index % 8)
}

/// Whether the peer that sent `bitfield` has piece `index`. The negative indices
/// whose distance to zero is less than a byte have no bit to look at.
pub fn bitfield_contains_index(bitfield: &Vec<u8>, index: isize) -> (has: bool)
    requires
        bitfield@.len() == 0 || index >= 0 || index <= -8,
    ensures
        has == has_piece(bitfield@, index as int),
{
    if index < 0 {
        return false;
    }
    let byte_index: usize = index as usize / 8;
    let offset: u8 = (index as usize % 8) as u8;
    if byte_index >= bitfield.len() {
        return false;
    }
    let byte: u8 = bitfield[byte_index];
    let shift: u8 = 7 - offset;
    let low: u8 = (byte >> shift) & 1;
    assert(low == 0 || low == 1) by (bit_vector)
        requires
            low == (byte >> shift) & 1u8,
    ;
    low != 0
}

/// A byte is the sum of its bits, where the first counts for the most: no two
/// bytes tell of the same eight pieces.
pub proof fn byte_is_its_bits(byte: u8)
    ensures
        byte == (if bit(byte, 0) { 128int } else { 0 }) + (if bit(byte, 1) { 64int } else { 0 }) + (
        if bit(byte, 2) { 32int } else { 0 }) + (if bit(byte, 3) { 16int } else { 0 }) + (if bit(
            byte,
            4,
        ) { 8int } else { 0 }) + (if bit(byte, 5) { 4int } else { 0 }) + (if bit(byte, 6) {
            2int
        } else { 0 }) + (if bit(byte, 7) { 1int } else { 0 }),
{
    assert(byte == ((byte >> 7u8) & 1) * 128 + ((byte >> 6u8) & 1) * 64 + ((byte >> 5u8) & 1) * 32
        + ((byte >> 4u8) & 1) * 16 + ((byte >> 3u8) & 1) * 8 + ((byte >> 2u8) & 1) * 4 + ((byte
        >> 1u8) & 1) * 2 + ((byte >> 0u8) & 1)) by (bit_vector);
    assert((byte >> 7u8) & 1 <= 1 && (byte >> 6u8) & 1 <= 1 && (byte >> 5u8) & 1 <= 1 && (byte
        >> 4u8) & 1 <= 1 && (byte >> 3u8) & 1 <= 1 && (byte >> 2u8) & 1 <= 1 && (byte >> 1u8) & 1
        <= 1 && (byte >> 0u8) & 1 <= 1) by (bit_vector);
}

/// Two bitfields of the same length that tell of the same pieces are the same.
pub proof fn bitfield_is_its_pieces(a: Seq<u8>, b: Seq<u8>)
    requires
        a.len() == b.len(),
        forall|index: int| has_piece(a, index) == has_piece(b, index),
    ensures
        a == b,
{
    assert forall|i: int| 0 <= i < a.len() implies a[i] == b[i] by {
        assert forall|k: int| 0 <= k < 8 implies bit(a[i], k) == bit(b[i], k) by {
            assert(has_piece(a, 8 * i + k) == has_piece(b, 8 * i + k));
        }
        byte_is_its_bits(a[i]);
        byte_is_its_bits(b[i]);
    }
    assert(a =~= b);
}

/// A byte of a bitfield is the sum of what the eight pieces that it tells of count
/// for, if the peer has them: the first for 128, the last for 1.
pub proof fn bytes_are_their_pieces(bitfield: Seq<u8>, i: int)
    requires
        0 <= i < bitfield.len(),
    ensures
        bitfield[i] == (if has_piece(bitfield, 8 * i) { 128int } else { 0 }) + (if has_piece(
            bitfield,
            8 * i + 1,
        ) { 64int } else { 0 }) + (if has_piece(bitfield, 8 * i + 2) { 32int } else { 0 }) + (
        if has_piece(bitfield, 8 * i + 3) { 16int } else { 0 }) + (if has_piece(
            bitfield,
            8 * i + 4,
        ) { 8int } else { 0 }) + (if has_piece(bitfield, 8 * i + 5) { 4int } else { 0 }) + (
        if has_piece(bitfield, 8 * i + 6) { 2int } else { 0 }) + (if has_piece(
            bitfield,
            8 * i + 7,
        ) { 1int } else { 0 }),
{
    byte_is_its_bits(bitfield[i]);
    assert forall|k: int| 0 <= k < 8 implies #[trigger] has_piece(bitfield, 8 * i + k) == bit(
        bitfield[i],
        k,
    ) by {
        assert((8 * i + k) / 8 == i && (8 * i + k) % 8 == k);
    }
    assert(has_piece(bitfield, 8 * i + 0) == bit(bitfield[i], 0));
}

/// A peer has no piece before the first or behind the last that its bitfield has a
/// bit for.
pub proof fn no_piece_without_a_bit(bitfield: Seq<u8>, index: int)
    requires
        index < 0 || index >= 8 * bitfield.len(),
    ensures
        !has_piece(bitfield, index),
{
}

} // verus!
