use vstd::prelude::*;
use crate::geometry::{COL_LEN_BYTES, ROWS};
use crate::packing::packed;

verus! {

/// How long a row stays selected after its bits have gone out, in
/// microseconds: long enough for the panel to latch and light the row, short
/// enough that a refresh in a tight loop does not flicker.
pub const DWELL_MICROS: u32 = 1000;

/// Number of steps of a refresh pass in which no transmission fails: four
/// for each row, and the one that ends the pass.
pub const PASS_STEPS: usize = 4 * ROWS + 1;

/// A transmission over the column shift channel failed while `row` was
/// selected.
#[derive(Clone, Copy, Debug, PartialEq, Eq)]
pub struct TransmitError {
    pub row: usize,
}

/// Where a refresh pass stands. Every state but `Idle` names the step that
/// the hardware has been told to do and has not yet reported on.
#[derive(Clone, Copy, Debug, PartialEq, Eq)]
pub enum ScanState {
    /// No pass is under way and no row selector line is asserted.
    Idle,
    /// The selector line of `row` is being asserted.
    Selecting { row: usize },
    /// The packed bits of `row` are going out while its line is asserted.
    Transmitting { row: usize },
    /// The line of `row` is held asserted for the dwell time.
    Dwelling { row: usize },
    /// The line of `row` is being released after its dwell.
    Deselecting { row: usize },
    /// The line of `row` is being released because its transmission failed.
    Releasing { row: usize },
}

/// What the hardware reports of the step it was last told to do.
#[derive(Clone, Copy, Debug, PartialEq, Eq)]
pub enum ScanEvent {
    /// The step was carried out.
    Completed,
    /// The step was a transmission, and the channel reported a fault.
    TransmitFailed,
}

/// What the hardware is to do next.
#[derive(Clone, Copy, Debug, PartialEq, Eq)]
pub enum ScanAction {
    /// Drive the selector line of `row` high.
    Select { row: usize },
    /// Write `data`, the packed bits of `row`, over the column shift
    /// channel and wait until the transfer has completed.
    Transmit { row: usize, data: [u8; COL_LEN_BYTES] },
    /// Wait for `micros` microseconds without yielding.
    Dwell { micros: u32 },
    /// Drive the selector line of `row` low.
    Deselect { row: usize },
    /// The pass is over; nothing is left to do. The result tells whether
    /// every row went out.
    Finish { result: Result<(), TransmitError> },
}

/// The mathematical view of a `ScanAction`: the same step, with the bytes
/// of a transmission as a sequence.
pub enum ScanStep {
    Select { row: usize },
    Transmit { row: usize, data: Seq<u8> },
    Dwell { micros: u32 },
    Deselect { row: usize },
    Finish { result: Result<(), TransmitError> },
}

impl View for ScanAction {
    type V = ScanStep;

    open spec fn view(&self) -> ScanStep {
        match *self {
            ScanAction::Select { row } => ScanStep::Select { row },
            ScanAction::Transmit { row, data } => ScanStep::Transmit { row, data: data@ },
            ScanAction::Dwell { micros } => ScanStep::Dwell { micros },
            ScanAction::Deselect { row } => ScanStep::Deselect { row },
            ScanAction::Finish { result } => ScanStep::Finish { result },
        }
    }
}

impl ScanStep {
    /// Whether the row that the step names is a row of the panel, and what
    /// it transmits has the length of a packed row.
    pub open spec fn wf(self) -> bool {
        match self {
            ScanStep::Select { row } => row < ROWS,
            ScanStep::Transmit { row, data } => row < ROWS && data.len() == COL_LEN_BYTES,
            ScanStep::Dwell { micros } => true,
            ScanStep::Deselect { row } => row < ROWS,
            ScanStep::Finish { result } => match result {
                Ok(_) => true,
                Err(error) => error.row < ROWS,
            },
        }
    }
}

impl ScanState {
    /// Whether the row that the state names is a row of the panel.
    pub open spec fn wf(self) -> bool {
        match self {
            ScanState::Idle => true,
            ScanState::Selecting { row } => row < ROWS,
            ScanState::Transmitting { row } => row < ROWS,
            ScanState::Dwelling { row } => row < ROWS,
            ScanState::Deselecting { row } => row < ROWS,
            ScanState::Releasing { row } => row < ROWS,
        }
    }

    /// The selector lines that are asserted once the step that the state
    /// names has been carried out.
    pub open spec fn asserted(self) -> Set<usize> {
        match self {
            ScanState::Idle => Set::empty(),
            ScanState::Selecting { row } => Set::empty().insert(row),
            ScanState::Transmitting { row } => Set::empty().insert(row),
            ScanState::Dwelling { row } => Set::empty().insert(row),
            ScanState::Deselecting { row } => Set::empty(),
            ScanState::Releasing { row } => Set::empty(),
        }
    }
}

/// One decision of the refresh protocol: the state that follows `state`
/// once the hardware has reported `event`, and the step it is told to do
/// next, for a panel that shows `grid`.
///
/// Rows go out in ascending order. For each, its line is asserted, its
/// packed bits are transmitted, the line is held for the dwell time and then
/// released. Only a transmission can fail. When one does, the dwell is
/// skipped, the line is released, and the pass ends with the error; no
/// further row is touched.
pub open spec fn scan_step(state: ScanState, event: ScanEvent, grid: Seq<Seq<bool>>) -> (
    ScanState,
    ScanStep,
) {
    match state {
        ScanState::Idle => (ScanState::Selecting { row: 0 }, ScanStep::Select { row: 0 }),
        ScanState::Selecting { row } => (
            ScanState::Transmitting { row },
            ScanStep::Transmit { row, data: packed(grid[row as int]) },
        ),
        ScanState::Transmitting { row } => match event {
            ScanEvent::Completed => (
                ScanState::Dwelling { row },
                ScanStep::Dwell { micros: DWELL_MICROS },
            ),
            ScanEvent::TransmitFailed => (
                ScanState::Releasing { row },
                ScanStep::Deselect { row },
            ),
        },
        ScanState::Dwelling { row } => (
            ScanState::Deselecting { row },
            ScanStep::Deselect { row },
        ),
        ScanState::Deselecting { row } => if row + 1 < ROWS {
            (
                ScanState::Selecting { row: (row + 1) as usize },
                ScanStep::Select { row: (row + 1) as usize },
            )
        } else {
            (ScanState::Idle, ScanStep::Finish { result: Ok(()) })
        },
        ScanState::Releasing { row } => (
            ScanState::Idle,
            ScanStep::Finish { result: Err(TransmitError { row }) },
        ),
    }
}

/// The protocol run from `state` over a sequence of events: the state it
/// ends in, and the steps it told the hardware to do, one for each event.
pub open spec fn scan_run(state: ScanState, events: Seq<ScanEvent>, grid: Seq<Seq<bool>>) -> (
    ScanState,
    Seq<ScanStep>,
)
    decreases events.len(),
{
    if events.len() == 0 {
        (state, Seq::empty())
    } else {
        let (mid, steps) = scan_run(state, events.drop_last(), grid);
        let (next, step) = scan_step(mid, events.last(), grid);
        (next, steps.push(step))
    }
}

/// A decision never leaves the panel: from a state at a row of the panel it
/// leads to such a state, by a step at a row of the panel.
pub proof fn lemma_step_stays_on_panel(state: ScanState, event: ScanEvent, grid: Seq<Seq<bool>>)
    requires
        state.wf(),
    ensures
        scan_step(state, event, grid).0.wf(),
        scan_step(state, event, grid).1.wf(),
{
}

/// The selector lines that are asserted after a sequence of steps that
/// began with none asserted.
pub open spec fn lines_after(steps: Seq<ScanStep>) -> Set<usize>
    decreases steps.len(),
{
    if steps.len() == 0 {
        Set::empty()
    } else {
        let before = lines_after(steps.drop_last());
        match steps.last() {
            ScanStep::Select { row } => before.insert(row),
            ScanStep::Deselect { row } => before.remove(row),
            _ => before,
        }
    }
}

/// The selector lines that a sequence of steps asserts, in the order in
/// which it asserts them.
pub open spec fn selected_lines(steps: Seq<ScanStep>) -> Seq<usize>
    decreases steps.len(),
{
    if steps.len() == 0 {
        Seq::empty()
    } else {
        let before = selected_lines(steps.drop_last());
        match steps.last() {
            ScanStep::Select { row } => before.push(row),
            _ => before,
        }
    }
}

/// The byte sequences that a sequence of steps sends over the column shift
/// channel, in the order in which it sends them.
pub open spec fn transmitted(steps: Seq<ScanStep>) -> Seq<Seq<u8>>
    decreases steps.len(),
{
    if steps.len() == 0 {
        Seq::empty()
    } else {
        let before = transmitted(steps.drop_last());
        match steps.last() {
            ScanStep::Transmit { row, data } => before.push(data),
            _ => before,
        }
    }
}

/// The steps of a refresh pass in which no transmission fails. Row by row,
/// in ascending order: select, transmit, dwell, deselect. Then the pass
/// finishes.
pub open spec fn full_pass(grid: Seq<Seq<bool>>) -> Seq<ScanStep> {
    Seq::new(
        PASS_STEPS as nat,
        |i: int|
            if i == 4 * ROWS {
                ScanStep::Finish { result: Ok(()) }
            } else if i % 4 == 0 {
                ScanStep::Select { row: (i / 4) as usize }
            } else if i % 4 == 1 {
                ScanStep::Transmit { row: (i / 4) as usize, data: packed(grid[i / 4]) }
            } else if i % 4 == 2 {
                ScanStep::Dwell { micros: DWELL_MICROS }
            } else {
                ScanStep::Deselect { row: (i / 4) as usize }
            },
    )
}

/// Whether no transmission fails in a pass that starts idle and is fed
/// `events`. The third step for each row is its transmission, so the events
/// that report on transmissions are those at the indices `4 * row + 2`.
pub open spec fn no_transmission_fails(events: Seq<ScanEvent>) -> bool {
    forall|i: int| 0 <= i < events.len() && i % 4 == 2 ==> events[i] == ScanEvent::Completed
}

spec fn state_after(k: int) -> ScanState {
    if k <= 0 || k >= PASS_STEPS {
        ScanState::Idle
    } else {
        let row = ((k - 1) / 4) as usize;
        if (k - 1) % 4 == 0 {
            ScanState::Selecting { row }
        } else if (k - 1) % 4 == 1 {
            ScanState::Transmitting { row }
        } else if (k - 1) % 4 == 2 {
            ScanState::Dwelling { row }
        } else {
            ScanState::Deselecting { row }
        }
    }
}

proof fn lemma_pass_prefix(events: Seq<ScanEvent>, grid: Seq<Seq<bool>>, k: int)
    requires
        events.len() == PASS_STEPS,
        no_transmission_fails(events),
        0 <= k <= PASS_STEPS,
    ensures
        scan_run(ScanState::Idle, events.take(k), grid) == (
            state_after(k),
            full_pass(grid).take(k),
        ),
    decreases k,
{
    if k == 0 {
        assert(full_pass(grid).take(0) =~= Seq::empty());
    } else {
        lemma_pass_prefix(events, grid, k - 1);
        assert(events.take(k).drop_last() =~= events.take(k - 1));
        assert(events.take(k).last() == events[k - 1]);
        assert(full_pass(grid).take(k) =~= full_pass(grid).take(k - 1).push(
            full_pass(grid)[k - 1],
        ));
    }
}

/// A refresh pass in which no transmission fails takes `PASS_STEPS` steps,
/// which are those of `full_pass`, and leaves the driver idle.
pub proof fn lemma_full_pass(events: Seq<ScanEvent>, grid: Seq<Seq<bool>>)
    requires
        events.len() == PASS_STEPS,
        no_transmission_fails(events),
    ensures
        scan_run(ScanState::Idle, events, grid) == (ScanState::Idle, full_pass(grid)),
{
    lemma_pass_prefix(events, grid, PASS_STEPS as int);
    assert(events.take(PASS_STEPS as int) =~= events);
    assert(full_pass(grid).take(PASS_STEPS as int) =~= full_pass(grid));
}

spec fn rows_begun(k: int) -> int {
    if (k + 3) / 4 < ROWS {
        (k + 3) / 4
    } else {
        ROWS as int
    }
}

proof fn lemma_selected_prefix(grid: Seq<Seq<bool>>, k: int)
    requires
        0 <= k <= PASS_STEPS,
    ensures
        selected_lines(full_pass(grid).take(k)) == Seq::new(
            rows_begun(k) as nat,
            |row: int| row as usize,
        ),
    decreases k,
{
    let steps = full_pass(grid).take(k);
    if k == 0 {
        assert(selected_lines(steps) =~= Seq::new(0, |row: int| row as usize));
    } else {
        lemma_selected_prefix(grid, k - 1);
        assert(steps.drop_last() =~= full_pass(grid).take(k - 1));
        assert(steps.last() == full_pass(grid)[k - 1]);
        assert(selected_lines(steps) =~= Seq::new(
            rows_begun(k) as nat,
            |row: int| row as usize,
        ));
    }
}

proof fn lemma_transmitted_prefix(grid: Seq<Seq<bool>>, k: int)
    requires
        0 <= k <= PASS_STEPS,
    ensures
        transmitted(full_pass(grid).take(k)) == Seq::new(
            ((k + 2) / 4) as nat,
            |row: int| packed(grid[row]),
        ),
    decreases k,
{
    let steps = full_pass(grid).take(k);
    if k == 0 {
        assert(transmitted(steps) =~= Seq::new(0, |row: int| packed(grid[row])));
    } else {
        lemma_transmitted_prefix(grid, k - 1);
        assert(steps.drop_last() =~= full_pass(grid).take(k - 1));
        assert(steps.last() == full_pass(grid)[k - 1]);
        assert(transmitted(steps) =~= Seq::new(
            ((k + 2) / 4) as nat,
            |row: int| packed(grid[row]),
        ));
    }
}

/// A refresh pass in which no transmission fails asserts every row
/// selector line exactly once, in ascending order of the rows: the lines it
/// asserts are, in order, `0, 1, ..., ROWS - 1`.
pub proof fn lemma_pass_selects_each_line_once(grid: Seq<Seq<bool>>)
    ensures
        selected_lines(full_pass(grid)) == Seq::new(ROWS as nat, |row: int| row as usize),
{
    lemma_selected_prefix(grid, PASS_STEPS as int);
    assert(full_pass(grid).take(PASS_STEPS as int) =~= full_pass(grid));
}

/// A refresh pass in which no transmission fails sends the packed form of
/// every row of the grid, in ascending order of the rows, and nothing else.
pub proof fn lemma_pass_transmits_each_row(grid: Seq<Seq<bool>>)
    ensures
        transmitted(full_pass(grid)) == Seq::new(ROWS as nat, |row: int| packed(grid[row])),
{
    lemma_transmitted_prefix(grid, PASS_STEPS as int);
    assert(full_pass(grid).take(PASS_STEPS as int) =~= full_pass(grid));
}

/// After a run that starts idle, the lines that its steps have left
/// asserted are those that the state it ends in names.
pub proof fn lemma_lines_follow_state(events: Seq<ScanEvent>, grid: Seq<Seq<bool>>)
    ensures
        lines_after(scan_run(ScanState::Idle, events, grid).1) == scan_run(
            ScanState::Idle,
            events,
            grid,
        ).0.asserted(),
    decreases events.len(),
{
    if events.len() > 0 {
        lemma_lines_follow_state(events.drop_last(), grid);
        let (mid, before) = scan_run(ScanState::Idle, events.drop_last(), grid);
        let (end, step) = scan_step(mid, events.last(), grid);
        let steps = before.push(step);
        assert(steps.drop_last() =~= before);
        assert(steps.last() == step);
        assert(lines_after(steps) =~= end.asserted());
    }
}

/// A run over the first `n` events takes the first `n` steps of the run
/// over all of them.
pub proof fn lemma_run_prefix(
    state: ScanState,
    events: Seq<ScanEvent>,
    grid: Seq<Seq<bool>>,
    n: int,
)
    requires
        0 <= n <= events.len(),
    ensures
        scan_run(state, events.take(n), grid).1 == scan_run(state, events, grid).1.take(n),
        scan_run(state, events, grid).1.len() == events.len(),
    decreases events.len(),
{
    if events.len() == 0 {
        assert(events.take(n) =~= events);
        assert(scan_run(state, events, grid).1.take(n) =~= scan_run(state, events, grid).1);
    } else if n == events.len() {
        lemma_run_prefix(state, events.drop_last(), grid, n - 1);
        assert(events.take(n) =~= events);
        assert(scan_run(state, events, grid).1.take(n) =~= scan_run(state, events, grid).1);
    } else {
        lemma_run_prefix(state, events.drop_last(), grid, n);
        assert(events.drop_last().take(n) =~= events.take(n));
        assert(scan_run(state, events, grid).1.take(n) =~= scan_run(
            state,
            events.drop_last(),
            grid,
        ).1.take(n));
    }
}

/// At no point of a run that starts idle are two row selector lines
/// asserted at once, whatever the hardware reports: after any number of its
/// steps at most one line is asserted.
pub proof fn lemma_one_line_at_a_time(events: Seq<ScanEvent>, grid: Seq<Seq<bool>>, n: int)
    requires
        0 <= n <= events.len(),
    ensures
        lines_after(scan_run(ScanState::Idle, events, grid).1.take(n)).finite(),
        lines_after(scan_run(ScanState::Idle, events, grid).1.take(n)).len() <= 1,
{
    lemma_run_prefix(ScanState::Idle, events, grid, n);
    lemma_lines_follow_state(events.take(n), grid);
}

/// A refresh pass in which no transmission fails, as the hardware sees it.
/// It asserts every row selector line exactly once, in ascending order of
/// the rows; it sends the packed form of every row of the grid, in that
/// order; after any number `n` of its steps at most one line is asserted;
/// and it ends with no line asserted and the driver idle.
pub proof fn lemma_refresh_pass(events: Seq<ScanEvent>, grid: Seq<Seq<bool>>, n: int)
    requires
        events.len() == PASS_STEPS,
        no_transmission_fails(events),
        0 <= n <= PASS_STEPS,
    ensures
        scan_run(ScanState::Idle, events, grid).0 == ScanState::Idle,
        selected_lines(scan_run(ScanState::Idle, events, grid).1) == Seq::new(
            ROWS as nat,
            |row: int| row as usize,
        ),
        transmitted(scan_run(ScanState::Idle, events, grid).1) == Seq::new(
            ROWS as nat,
            |row: int| packed(grid[row]),
        ),
        lines_after(scan_run(ScanState::Idle, events, grid).1.take(n)).len() <= 1,
        lines_after(scan_run(ScanState::Idle, events, grid).1) == Set::<usize>::empty(),
{
    lemma_full_pass(events, grid);
    lemma_pass_selects_each_line_once(grid);
    lemma_pass_transmits_each_row(grid);
    lemma_one_line_at_a_time(events, grid, n);
    lemma_lines_follow_state(events, grid);
}

/// A failed transmission ends the pass in two steps: the line of the row is
/// released, and the pass finishes with the error that names the row. The
/// driver is idle again, with no line asserted.
pub proof fn lemma_failed_transmission(row: usize, event: ScanEvent, grid: Seq<Seq<bool>>)
    ensures
        scan_run(
            ScanState::Transmitting { row },
            seq![ScanEvent::TransmitFailed, event],
            grid,
        ) == (
            ScanState::Idle,
            seq![
                ScanStep::Deselect { row },
                ScanStep::Finish { result: Err(TransmitError { row }) },
            ],
        ),
{
    let events = seq![ScanEvent::TransmitFailed, event];
    let first = events.drop_last();
    assert(first.drop_last() =~= Seq::empty());
    assert(scan_run(ScanState::Transmitting { row }, first.drop_last(), grid).1 =~= Seq::empty());
    assert(scan_run(ScanState::Transmitting { row }, first, grid).1 =~= seq![
        ScanStep::Deselect { row },
    ]);
    assert(scan_run(ScanState::Transmitting { row }, events, grid).1 =~= seq![
        ScanStep::Deselect { row },
        ScanStep::Finish { result: Err(TransmitError { row }) },
    ]);
}

} // verus!
