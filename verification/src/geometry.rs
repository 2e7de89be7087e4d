use vstd::prelude::*;

verus! {

/// Number of dummy bits at the start of every packed row. The panel's
/// shift-register chain swallows them before the first real column.
pub const OFFSET: usize = 4;

/// Number of pixel rows, and of row selector lines.
pub const ROWS: usize = 7;

/// Number of pixel columns.
pub const COLS: usize = 12 * 15;

/// Length in bytes of one packed row: the lead-in and the columns rounded
/// down to whole bytes, and one byte more.
pub const COL_LEN_BYTES: usize = (COLS + OFFSET) / 8 + 1;

/// Number of bits in one packed row.
pub const ROW_BITS: usize = 8 * COL_LEN_BYTES;

/// Whether `(x, y)` names a pixel of the panel. The origin is the top-left
/// corner.
pub open spec fn in_bounds(x: int, y: int) -> bool {
    0 <= x < COLS && 0 <= y < ROWS
}

/// The dimensions as numbers: a packed row has room for the lead-in, every
/// column, and at least one spare bit.
pub proof fn lemma_geometry()
    ensures
        COLS == 180,
        ROWS == 7,
        OFFSET == 4,
        COL_LEN_BYTES == 24,
        ROW_BITS == 192,
        OFFSET + COLS < ROW_BITS,
{
}

} // verus!
