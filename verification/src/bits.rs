use vstd::prelude::*;
use bitset_core::BitSet;
use crate::geometry::{COL_LEN_BYTES, ROW_BITS};

verus! {

/// Whether bit `bit` of a byte sequence is set. Bit 0 is the least
/// significant bit of byte 0, bit 8 the least significant bit of byte 1.
pub open spec fn bit_is_set(bytes: Seq<u8>, bit: int) -> bool {
    bytes[bit / 8] & (1u8 << (bit % 8)) != 0
}

/// `bitset_core::BitSet::bit_test` on a byte slice, here a packed row. It
/// reads byte `bit / 8` and tests it against the mask `1 << bit % 8`. It
/// indexes the slice, so the bit has to lie inside it.
#[verifier::external_body]
pub(crate) fn bit_test(row: &[u8; COL_LEN_BYTES], bit: usize) -> (set: bool)
    requires
        bit < ROW_BITS,
    ensures
        set == (row@[bit as int / 8] & (1u8 << (bit % 8)) != 0),
{
    row.bit_test(bit)
}

/// `bitset_core::BitSet::bit_set` on a byte slice, here a packed row. It
/// ors the mask `1 << bit % 8` into byte `bit / 8` and leaves the other
/// bytes alone. It indexes the slice, so the bit has to lie inside it; with
/// the bit inside, nothing in it can panic.
#[verifier::external_body]
pub(crate) fn bit_set(row: &mut [u8; COL_LEN_BYTES], bit: usize)
    requires
        bit < ROW_BITS,
    ensures
        final(row)@ == old(row)@.update(
            bit as int / 8,
            old(row)@[bit as int / 8] | (1u8 << (bit % 8)),
        ),
    no_unwind
{
    row.bit_set(bit);
}

/// `bitset_core::BitSet::bit_reset` on a byte slice, here a packed row. It
/// ands the complement of the mask `1 << bit % 8` into byte `bit / 8` and
/// leaves the other bytes alone. It indexes the slice, so the bit has to lie
/// inside it; with the bit inside, nothing in it can panic.
#[verifier::external_body]
pub(crate) fn bit_reset(row: &mut [u8; COL_LEN_BYTES], bit: usize)
    requires
        bit < ROW_BITS,
    ensures
        final(row)@ == old(row)@.update(
            bit as int / 8,
            old(row)@[bit as int / 8] & !(1u8 << (bit % 8)),
        ),
    no_unwind
{
    row.bit_reset(bit);
}

proof fn lemma_or_mask(v: u8, b: usize, k: usize)
    by (bit_vector)
    requires
        b < 8,
        k < 8,
    ensures
        ((v | (1u8 << b)) & (1u8 << k) != 0) == (k == b || (v & (1u8 << k) != 0)),
{
}

proof fn lemma_and_not_mask(v: u8, b: usize, k: usize)
    by (bit_vector)
    requires
        b < 8,
        k < 8,
    ensures
        ((v & !(1u8 << b)) & (1u8 << k) != 0) == (k != b && (v & (1u8 << k) != 0)),
{
}

proof fn lemma_zero_byte(k: usize)
    by (bit_vector)
    requires
        k < 8,
    ensures
        0u8 & (1u8 << k) == 0,
{
}

proof fn lemma_byte_from_its_bits(v: u8, w: u8)
    by (bit_vector)
    requires
        (v & (1u8 << 0usize) != 0) == (w & (1u8 << 0usize) != 0),
        (v & (1u8 << 1usize) != 0) == (w & (1u8 << 1usize) != 0),
        (v & (1u8 << 2usize) != 0) == (w & (1u8 << 2usize) != 0),
        (v & (1u8 << 3usize) != 0) == (w & (1u8 << 3usize) != 0),
        (v & (1u8 << 4usize) != 0) == (w & (1u8 << 4usize) != 0),
        (v & (1u8 << 5usize) != 0) == (w & (1u8 << 5usize) != 0),
        (v & (1u8 << 6usize) != 0) == (w & (1u8 << 6usize) != 0),
        (v & (1u8 << 7usize) != 0) == (w & (1u8 << 7usize) != 0),
    ensures
        v == w,
{
}

/// No bit of a sequence of zero bytes is set.
pub proof fn lemma_zero_bytes(bytes: Seq<u8>, bit: int)
    requires
        0 <= bit < 8 * bytes.len(),
        forall|i: int| 0 <= i < bytes.len() ==> bytes[i] == 0,
    ensures
        !bit_is_set(bytes, bit),
{
    lemma_zero_byte((bit % 8) as usize);
}

/// Two byte sequences of one length that agree on every bit are equal.
pub proof fn lemma_bits_determine_bytes(a: Seq<u8>, b: Seq<u8>)
    requires
        a.len() == b.len(),
        forall|bit: int| 0 <= bit < 8 * a.len() ==> bit_is_set(a, bit) == bit_is_set(b, bit),
    ensures
        a == b,
{
    assert forall|i: int| 0 <= i < a.len() implies a[i] == b[i] by {
        assert(bit_is_set(a, 8 * i) == bit_is_set(b, 8 * i));
        assert(bit_is_set(a, 8 * i + 1) == bit_is_set(b, 8 * i + 1));
        assert(bit_is_set(a, 8 * i + 2) == bit_is_set(b, 8 * i + 2));
        assert(bit_is_set(a, 8 * i + 3) == bit_is_set(b, 8 * i + 3));
        assert(bit_is_set(a, 8 * i + 4) == bit_is_set(b, 8 * i + 4));
        assert(bit_is_set(a, 8 * i + 5) == bit_is_set(b, 8 * i + 5));
        assert(bit_is_set(a, 8 * i + 6) == bit_is_set(b, 8 * i + 6));
        assert(bit_is_set(a, 8 * i + 7) == bit_is_set(b, 8 * i + 7));
        lemma_byte_from_its_bits(a[i], b[i]);
    }
    assert(a =~= b);
}

/// Sets bit `bit` of a packed row where `on` holds and clears it where not.
/// No other bit of the row changes.
pub(crate) fn write_bit(row: &mut [u8; COL_LEN_BYTES], bit: usize, on: bool)
    requires
        bit < ROW_BITS,
    ensures
        forall|j: int|
            0 <= j < ROW_BITS ==> #[trigger] bit_is_set(final(row)@, j) == (if j == bit {
                on
            } else {
                bit_is_set(old(row)@, j)
            }),
    no_unwind
{
    if on {
        bit_set(row, bit);
    } else {
        bit_reset(row, bit);
    }
    proof {
        let before = old(row)@;
        assert forall|j: int| 0 <= j < ROW_BITS implies #[trigger] bit_is_set(row@, j) == (if j
            == bit {
            on
        } else {
            bit_is_set(before, j)
        }) by {
            if j / 8 == bit as int / 8 {
                lemma_or_mask(before[j / 8], (bit % 8) as usize, (j % 8) as usize);
                lemma_and_not_mask(before[j / 8], (bit % 8) as usize, (j % 8) as usize);
            }
        }
    }
}

} // verus!
