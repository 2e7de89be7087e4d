use vstd::prelude::*;
use crate::bits::{bit_is_set, bit_test, lemma_bits_determine_bytes};
use crate::geometry::{COLS, COL_LEN_BYTES, OFFSET, ROW_BITS};

verus! {

/// The byte whose bit `k` is `bk`.
pub open spec fn byte_of_bits(
    b0: bool,
    b1: bool,
    b2: bool,
    b3: bool,
    b4: bool,
    b5: bool,
    b6: bool,
    b7: bool,
) -> u8 {
    (if b0 { 0x01u8 } else { 0u8 }) | (if b1 { 0x02u8 } else { 0u8 })
        | (if b2 { 0x04u8 } else { 0u8 }) | (if b3 { 0x08u8 } else { 0u8 })
        | (if b4 { 0x10u8 } else { 0u8 }) | (if b5 { 0x20u8 } else { 0u8 })
        | (if b6 { 0x40u8 } else { 0u8 }) | (if b7 { 0x80u8 } else { 0u8 })
}

/// What bit `bit` of a packed row holds for a row of pixels: column `x` sits
/// at bit `x + OFFSET`, and every other bit is clear.
pub open spec fn packed_bit(pixels: Seq<bool>, bit: int) -> bool {
    OFFSET <= bit < OFFSET + COLS && pixels[bit - OFFSET]
}

/// Byte `i` of the packed form of a row of pixels.
pub open spec fn packed_byte(pixels: Seq<bool>, i: int) -> u8 {
    byte_of_bits(
        packed_bit(pixels, 8 * i),
        packed_bit(pixels, 8 * i + 1),
        packed_bit(pixels, 8 * i + 2),
        packed_bit(pixels, 8 * i + 3),
        packed_bit(pixels, 8 * i + 4),
        packed_bit(pixels, 8 * i + 5),
        packed_bit(pixels, 8 * i + 6),
        packed_bit(pixels, 8 * i + 7),
    )
}

/// The packed form of a row of `COLS` pixels: the bytes that go out over the
/// column shift channel, least significant bit first.
pub open spec fn packed(pixels: Seq<bool>) -> Seq<u8> {
    Seq::new(COL_LEN_BYTES as nat, |i: int| packed_byte(pixels, i))
}

/// The pixels that a packed row holds: column `x` is bit `x + OFFSET`.
pub open spec fn unpacked(bytes: Seq<u8>) -> Seq<bool> {
    Seq::new(COLS as nat, |x: int| bit_is_set(bytes, x + OFFSET))
}

/// Whether every bit of a packed row outside the columns is clear: the
/// lead-in and what follows the last column.
pub open spec fn padding_clear(bytes: Seq<u8>) -> bool {
    forall|bit: int|
        0 <= bit < ROW_BITS && !(OFFSET <= bit < OFFSET + COLS) ==> !#[trigger] bit_is_set(
            bytes,
            bit,
        )
}

proof fn lemma_byte_of_bits(
    b0: bool,
    b1: bool,
    b2: bool,
    b3: bool,
    b4: bool,
    b5: bool,
    b6: bool,
    b7: bool,
    k: usize,
)
    by (bit_vector)
    requires
        k < 8,
    ensures
        (byte_of_bits(b0, b1, b2, b3, b4, b5, b6, b7) & (1u8 << k) != 0) == ((k == 0 && b0) || (k
            == 1 && b1) || (k == 2 && b2) || (k == 3 && b3) || (k == 4 && b4) || (k == 5 && b5)
            || (k == 6 && b6) || (k == 7 && b7)),
{
}

/// Bit `bit` of the packed form of a row is the pixel at column
/// `bit - OFFSET`, and clear outside the columns.
pub proof fn lemma_packed_bits(pixels: Seq<bool>, bit: int)
    requires
        0 <= bit < ROW_BITS,
    ensures
        bit_is_set(packed(pixels), bit) == packed_bit(pixels, bit),
{
    let i = bit / 8;
    let k = (bit % 8) as usize;
    lemma_byte_of_bits(
        packed_bit(pixels, 8 * i),
        packed_bit(pixels, 8 * i + 1),
        packed_bit(pixels, 8 * i + 2),
        packed_bit(pixels, 8 * i + 3),
        packed_bit(pixels, 8 * i + 4),
        packed_bit(pixels, 8 * i + 5),
        packed_bit(pixels, 8 * i + 6),
        packed_bit(pixels, 8 * i + 7),
        k,
    );
}

/// Packing a row of pixels and unpacking the bytes gives the pixels back.
pub proof fn lemma_unpack_packed(pixels: Seq<bool>)
    requires
        pixels.len() == COLS,
    ensures
        unpacked(packed(pixels)) == pixels,
        packed(pixels).len() == COL_LEN_BYTES,
        padding_clear(packed(pixels)),
{
    assert forall|x: int| 0 <= x < COLS implies unpacked(packed(pixels))[x] == pixels[x] by {
        lemma_packed_bits(pixels, x + OFFSET);
    }
    assert(unpacked(packed(pixels)) =~= pixels);
    assert forall|bit: int|
        0 <= bit < ROW_BITS && !(OFFSET <= bit < OFFSET + COLS) implies !#[trigger] bit_is_set(
        packed(pixels),
        bit,
    ) by {
        lemma_packed_bits(pixels, bit);
    }
}

/// A packed row whose padding is clear is the packed form of the pixels it
/// holds: nothing but the pixels is stored in it.
pub proof fn lemma_pack_unpacked(bytes: Seq<u8>)
    requires
        bytes.len() == COL_LEN_BYTES,
        padding_clear(bytes),
    ensures
        packed(unpacked(bytes)) == bytes,
{
    let again = packed(unpacked(bytes));
    assert forall|bit: int| 0 <= bit < 8 * again.len() implies bit_is_set(again, bit)
        == bit_is_set(bytes, bit) by {
        lemma_packed_bits(unpacked(bytes), bit);
    }
    lemma_bits_determine_bytes(again, bytes);
}

/// Unpacks a row: the pixel in column `x` is bit `x + OFFSET` of the bytes.
pub fn unpack_row(bytes: &[u8; COL_LEN_BYTES]) -> (pixels: Vec<bool>)
    ensures
        pixels@ == unpacked(bytes@),
{
    let mut pixels: Vec<bool> = Vec::new();
    let mut x: usize = 0;
    while x < COLS
        invariant
            x <= COLS,
            pixels@.len() == x,
            forall|i: int| 0 <= i < x ==> pixels@[i] == bit_is_set(bytes@, i + OFFSET),
        decreases COLS - x,
    {
        pixels.push(bit_test(bytes, x + OFFSET));
        x += 1;
    }
    assert(pixels@ =~= unpacked(bytes@));
    pixels
}

} // verus!
