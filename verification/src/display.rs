use vstd::prelude::*;
use crate::bits::{bit_is_set, bit_test, lemma_zero_bytes, write_bit};
use crate::geometry::{in_bounds, COLS, COL_LEN_BYTES, OFFSET, ROWS, ROW_BITS};
use crate::grid::{blank, put, put_all, Pixel};
use crate::packing::{lemma_pack_unpacked, packed, padding_clear, unpacked};
use crate::scan::{
    scan_step, ScanAction, ScanEvent, ScanState, TransmitError, DWELL_MICROS,
};

verus! {

/// What drawing can fail with: nothing. The type has no value, so a
/// `Result` with it as its error is always `Ok`.
#[derive(Debug)]
pub enum LcdDisplayError {
    Never(core::convert::Infallible),
}

/// A framebuffer in which no bit is set.
fn zeroed() -> (buf: [[u8; COL_LEN_BYTES]; ROWS])
    ensures
        forall|y: int, bit: int|
            0 <= y < ROWS && 0 <= bit < ROW_BITS ==> !#[trigger] bit_is_set(buf[y]@, bit),
{
    let buf = [[0; COL_LEN_BYTES]; ROWS];
    assert forall|y: int, bit: int|
        0 <= y < ROWS && 0 <= bit < ROW_BITS implies !#[trigger] bit_is_set(buf[y]@, bit) by {
        lemma_zero_bytes(buf[y]@, bit);
    }
    buf
}

/// The driver of a row-multiplexed dot-matrix panel: the framebuffer, one
/// packed row of bytes for each row of pixels, and the state of the refresh
/// pass that scans it out.
pub struct LcdDisplay {
    buf: [[u8; COL_LEN_BYTES]; ROWS],
    scan: ScanState,
}

impl View for LcdDisplay {
    type V = Seq<Seq<bool>>;

    /// The panel as a grid of pixels: `self@[y][x]` tells whether the pixel
    /// in row `y` and column `x` is lit.
    open spec fn view(&self) -> Seq<Seq<bool>> {
        Seq::new(ROWS as nat, |y: int| Seq::new(COLS as nat, |x: int| self.lit(x, y)))
    }
}

impl LcdDisplay {
    /// Whether the framebuffer holds the pixel in column `x` of row `y` as
    /// lit: bit `x + OFFSET` of the packed row `y`.
    pub closed spec fn lit(&self, x: int, y: int) -> bool {
        bit_is_set(self.buf[y]@, x + OFFSET)
    }

    /// Where the refresh pass stands.
    pub closed spec fn scan_state(&self) -> ScanState {
        self.scan
    }

    /// The padding of every packed row is clear, and the refresh pass is at
    /// a row of the panel.
    #[verifier::type_invariant]
    spec fn inv(self) -> bool {
        &&& forall|y: int| 0 <= y < ROWS ==> padding_clear(#[trigger] self.buf[y]@)
        &&& self.scan.wf()
    }

    proof fn lemma_row_view(self, y: int)
        requires
            0 <= y < ROWS,
        ensures
            self@[y] == unpacked(self.buf[y]@),
    {
        assert(self@[y] =~= unpacked(self.buf[y]@));
    }

    /// A driver with every pixel off and no refresh pass under way.
    pub fn new() -> (display: Self)
        ensures
            display@ == blank(),
            forall|x: int, y: int| in_bounds(x, y) ==> !(#[trigger] display@[y][x]),
            display.scan_state() == ScanState::Idle,
    {
        let display = Self { buf: zeroed(), scan: ScanState::Idle };
        assert(display@ =~~= blank());
        display
    }

    /// Turns every pixel off. The refresh pass stays where it is.
    pub fn clear(&mut self)
        ensures
            final(self)@ == blank(),
            forall|x: int, y: int| in_bounds(x, y) ==> !(#[trigger] final(self)@[y][x]),
            final(self).scan_state() == old(self).scan_state(),
    {
        proof {
            use_type_invariant(&*self);
        }
        self.buf = zeroed();
        assert(self@ =~~= blank());
    }

    /// Lights the pixel in column `x` of row `y`, or turns it off. A
    /// coordinate outside the panel is clipped: the call does nothing.
    pub fn set_pixel(&mut self, x: i32, y: i32, on: bool)
        ensures
            final(self)@ == put(old(self)@, x as int, y as int, on),
            in_bounds(x as int, y as int) ==> final(self)@[y as int][x as int] == on,
            !in_bounds(x as int, y as int) ==> final(self)@ == old(self)@,
            final(self).scan_state() == old(self).scan_state(),
    {
        proof {
            use_type_invariant(&*self);
        }
        if 0 <= x && x < COLS as i32 && 0 <= y && y < ROWS as i32 {
            write_bit(&mut self.buf[y as usize], x as usize + OFFSET, on);
            assert(self@[y as int] =~= old(self)@[y as int].update(x as int, on));
            assert(self@ =~~= put(old(self)@, x as int, y as int, on));
        }
    }

    /// Whether the pixel in column `x` of row `y` is lit. Outside the panel
    /// no pixel is stored, and the answer is `false`.
    pub fn pixel(&self, x: i32, y: i32) -> (lit: bool)
        ensures
            lit == (in_bounds(x as int, y as int) && self@[y as int][x as int]),
    {
        if 0 <= x && x < COLS as i32 && 0 <= y && y < ROWS as i32 {
            bit_test(&self.buf[y as usize], x as usize + OFFSET)
        } else {
            false
        }
    }

    /// Draws a batch of pixels, first to last, each as `set_pixel` does: a
    /// later pixel of the batch overrides an earlier one at its coordinate,
    /// and pixels outside the panel are clipped. Drawing cannot fail.
    pub fn draw_iter(&mut self, pixels: &[Pixel]) -> (result: Result<(), LcdDisplayError>)
        ensures
            result is Ok,
            final(self)@ == put_all(old(self)@, pixels@),
            final(self).scan_state() == old(self).scan_state(),
    {
        let mut i: usize = 0;
        while i < pixels.len()
            invariant
                i <= pixels.len(),
                self@ == put_all(old(self)@, pixels@.take(i as int)),
                self.scan_state() == old(self).scan_state(),
            decreases pixels.len() - i,
        {
            let pixel = pixels[i];
            self.set_pixel(pixel.x, pixel.y, pixel.on);
            assert(pixels@.take(i + 1).drop_last() =~= pixels@.take(i as int));
            i += 1;
        }
        assert(pixels@.take(i as int) =~= pixels@);
        Ok(())
    }

    /// The dimensions of the panel in pixels: its width, then its height.
    pub fn size(&self) -> (size: (u32, u32))
        ensures
            size.0 == COLS,
            size.1 == ROWS,
    {
        (COLS as u32, ROWS as u32)
    }

    /// The packed bytes of row `row`, as they go out over the column shift
    /// channel, or `None` where the panel has no such row.
    pub fn row_bytes(&self, row: usize) -> (bytes: Option<[u8; COL_LEN_BYTES]>)
        ensures
            match bytes {
                Some(data) => row < ROWS && data@ == packed(self@[row as int]) && unpacked(data@)
                    == self@[row as int],
                None => row >= ROWS,
            },
    {
        proof {
            use_type_invariant(self);
        }
        if row < ROWS {
            proof {
                self.lemma_row_view(row as int);
                lemma_pack_unpacked(self.buf[row as int]@);
            }
            Some(self.buf[row])
        } else {
            None
        }
    }

    /// Where the refresh pass stands.
    pub fn state(&self) -> (state: ScanState)
        ensures
            state == self.scan_state(),
            state.wf(),
    {
        proof {
            use_type_invariant(self);
        }
        self.scan
    }

    /// Takes one decision of the refresh pass: given what the hardware
    /// reports of the step it was last told to do, moves the pass on and
    /// says what the hardware is to do next. The caller carries the step
    /// out and calls again with its outcome, until the step is `Finish`.
    ///
    /// While the driver is idle nothing is outstanding, and the call starts
    /// a pass whatever `event` is. A pass scans the rows in ascending order
    /// and leaves the driver idle again. The framebuffer does not change.
    pub fn flush(&mut self, event: ScanEvent) -> (action: ScanAction)
        ensures
            final(self)@ == old(self)@,
            final(self).scan_state() == scan_step(old(self).scan_state(), event, old(self)@).0,
            action@ == scan_step(old(self).scan_state(), event, old(self)@).1,
            final(self).scan_state().wf(),
            action@.wf(),
    {
        proof {
            use_type_invariant(&*self);
        }
        let action = match self.scan {
            ScanState::Idle => {
                self.scan = ScanState::Selecting { row: 0 };
                ScanAction::Select { row: 0 }
            },
            ScanState::Selecting { row } => {
                proof {
                    self.lemma_row_view(row as int);
                    lemma_pack_unpacked(self.buf[row as int]@);
                }
                self.scan = ScanState::Transmitting { row };
                ScanAction::Transmit { row, data: self.buf[row] }
            },
            ScanState::Transmitting { row } => match event {
                ScanEvent::Completed => {
                    self.scan = ScanState::Dwelling { row };
                    ScanAction::Dwell { micros: DWELL_MICROS }
                },
                ScanEvent::TransmitFailed => {
                    self.scan = ScanState::Releasing { row };
                    ScanAction::Deselect { row }
                },
            },
            ScanState::Dwelling { row } => {
                self.scan = ScanState::Deselecting { row };
                ScanAction::Deselect { row }
            },
            ScanState::Deselecting { row } => {
                if row + 1 < ROWS {
                    self.scan = ScanState::Selecting { row: row + 1 };
                    ScanAction::Select { row: row + 1 }
                } else {
                    self.scan = ScanState::Idle;
                    ScanAction::Finish { result: Ok(()) }
                }
            },
            ScanState::Releasing { row } => {
                self.scan = ScanState::Idle;
                ScanAction::Finish { result: Err(TransmitError { row }) }
            },
        };
        assert(self@ =~~= old(self)@);
        action
    }
}

} // verus!
