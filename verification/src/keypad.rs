use vstd::prelude::*;

verus! {

/// Where a scan of the 4x4 matrix stands.
#[derive(Clone, Copy, Debug, PartialEq, Eq, Structural)]
pub enum ScanPhase {
    /// No scan in progress.
    Idle,
    /// The current column output is being driven low.
    DrivingLow,
    /// The current row input is being read for the first time in this column.
    Sampling,
    /// The current row was read low; it is read again until the key is released.
    AwaitingRelease,
    /// The current column output is being driven high again.
    DrivingHigh,
}

/// What the pin side has to do next.
#[derive(Clone, Copy, Debug, PartialEq, Eq)]
pub enum KeypadAction {
    /// Drive column output `c` (0 to 3) low; report whether that succeeded.
    DriveLow(u8),
    /// Read row input `r` (0 to 3); report whether it is low (a read error counts as not low).
    ReadRow(u8),
    /// Drive column output `c` high again; its outcome does not matter.
    DriveHigh(u8),
    /// The scan is over, with the position `(row, column)` of the single key pressed, if
    /// exactly one key was seen pressed.
    Done(Option<(u8, u8)>),
}

/// The abstract state of a scan.
pub struct ScanView {
    pub phase: ScanPhase,
    /// The column output being handled (0 to 3; 4 once all are done).
    pub column: u8,
    /// The row input being handled.
    pub row: u8,
    /// The column number reported for a key: the number of columns that were driven low
    /// successfully before the current one.
    pub col_idx: u8,
    /// The number of key presses seen so far.
    pub count: u8,
    /// The last key press seen, as `(row, column number)`.
    pub value: (u8, u8),
}

impl ScanView {
    pub open spec fn wf(self) -> bool {
        &&& self.col_idx <= self.column
        &&& match self.phase {
            ScanPhase::Idle => self.column <= 4 && self.count <= 16,
            ScanPhase::DrivingLow => self.column < 4 && self.count <= 4 * self.column,
            ScanPhase::Sampling => self.column < 4 && self.row < 4 && self.count <= 4 * self.column
                + self.row,
            ScanPhase::AwaitingRelease => self.column < 4 && self.row < 4 && self.count <= 4
                * self.column + self.row + 1,
            ScanPhase::DrivingHigh => self.column < 4 && self.count <= 4 * self.column + 4,
        }
    }

    /// The scan result: the last press, when exactly one was seen.
    pub open spec fn result(self) -> Option<(u8, u8)> {
        if self.count == 1 {
            Some(self.value)
        } else {
            None
        }
    }
}

/// Moves on to column `column` (after the previous one was finished or skipped).
pub open spec fn next_column(v: ScanView, column: u8, col_idx: u8) -> (ScanView, KeypadAction) {
    if column >= 4 {
        (ScanView { phase: ScanPhase::Idle, column, col_idx, ..v }, KeypadAction::Done(v.result()))
    } else {
        (
            ScanView { phase: ScanPhase::DrivingLow, column, col_idx, row: 0, ..v },
            KeypadAction::DriveLow(column),
        )
    }
}

/// Moves on to row `row` of the current column, or to driving the column high after the last row.
pub open spec fn next_row(v: ScanView, row: u8) -> (ScanView, KeypadAction) {
    if row >= 4 {
        (ScanView { phase: ScanPhase::DrivingHigh, row, ..v }, KeypadAction::DriveHigh(v.column))
    } else {
        (ScanView { phase: ScanPhase::Sampling, row, ..v }, KeypadAction::ReadRow(row))
    }
}

/// One step of a scan. `outcome` is the result of the action asked for by the previous step:
/// whether the column could be driven low, or whether the row reads low; it is ignored when
/// no scan is in progress and after driving a column high.
///
/// Columns are driven low one after the other; a column that cannot be driven low is skipped
/// and does not count as a column. While a column is low each row is read; a low row counts
/// as a press at `(row, column number)` and is read again until it is released. The scan
/// reports a position only when exactly one press was seen.
pub open spec fn scan_step(v: ScanView, outcome: bool) -> (ScanView, KeypadAction) {
    match v.phase {
        ScanPhase::Idle => (
            ScanView {
                phase: ScanPhase::DrivingLow,
                column: 0,
                row: 0,
                col_idx: 0,
                count: 0,
                value: (0, 0),
            },
            KeypadAction::DriveLow(0),
        ),
        ScanPhase::DrivingLow => if outcome {
            (ScanView { phase: ScanPhase::Sampling, row: 0, ..v }, KeypadAction::ReadRow(0))
        } else {
            next_column(v, (v.column + 1) as u8, v.col_idx)
        },
        ScanPhase::Sampling => if outcome {
            (
                ScanView {
                    phase: ScanPhase::AwaitingRelease,
                    count: (v.count + 1) as u8,
                    value: (v.row, v.col_idx),
                    ..v
                },
                KeypadAction::ReadRow(v.row),
            )
        } else {
            next_row(v, (v.row + 1) as u8)
        },
        ScanPhase::AwaitingRelease => if outcome {
            (v, KeypadAction::ReadRow(v.row))
        } else {
            next_row(v, (v.row + 1) as u8)
        },
        ScanPhase::DrivingHigh => next_column(v, (v.column + 1) as u8, (v.col_idx + 1) as u8),
    }
}

/// Scanner for a 4x4 matrix keypad whose rows are pulled-up inputs and whose columns are
/// outputs. `read_position` is called once to start a scan and then once per outcome of the
/// pin action it asked for, until it answers `Done`.
pub struct KEYPAD4X4 {
    phase: ScanPhase,
    column: u8,
    row: u8,
    col_idx: u8,
    count: u8,
    value: (u8, u8),
}

impl View for KEYPAD4X4 {
    type V = ScanView;

    closed spec fn view(&self) -> ScanView {
        ScanView {
            phase: self.phase,
            column: self.column,
            row: self.row,
            col_idx: self.col_idx,
            count: self.count,
            value: self.value,
        }
    }
}

impl KEYPAD4X4 {
    /// A scanner with no scan in progress.
    pub fn new() -> (k: KEYPAD4X4)
        ensures
            k@ == (ScanView {
                phase: ScanPhase::Idle,
                column: 0,
                row: 0,
                col_idx: 0,
                count: 0,
                value: (0, 0),
            }),
            k@.wf(),
    {
        KEYPAD4X4 { phase: ScanPhase::Idle, column: 0, row: 0, col_idx: 0, count: 0, value: (0, 0) }
    }

    fn finish_column(&mut self, column: u8, col_idx: u8) -> (a: KeypadAction)
        requires
            column <= 4,
            col_idx <= column,
            old(self).count <= 4 * column,
        ensures
            (final(self)@, a) == next_column(old(self)@, column, col_idx),
            final(self)@.wf(),
    {
        self.column = column;
        self.col_idx = col_idx;
        if column >= 4 {
            self.phase = ScanPhase::Idle;
            if self.count == 1 {
                KeypadAction::Done(Some(self.value))
            } else {
                KeypadAction::Done(None)
            }
        } else {
            self.phase = ScanPhase::DrivingLow;
            self.row = 0;
            KeypadAction::DriveLow(column)
        }
    }

    fn finish_row(&mut self, row: u8) -> (a: KeypadAction)
        requires
            old(self).column < 4,
            old(self).col_idx <= old(self).column,
            1 <= row <= 4,
            old(self).count <= 4 * old(self).column + row,
        ensures
            (final(self)@, a) == next_row(old(self)@, row),
            final(self)@.wf(),
    {
        self.row = row;
        if row >= 4 {
            self.phase = ScanPhase::DrivingHigh;
            KeypadAction::DriveHigh(self.column)
        } else {
            self.phase = ScanPhase::Sampling;
            KeypadAction::ReadRow(row)
        }
    }

    /// Advances the scan by one step (see `scan_step`).
    pub fn read_position(&mut self, outcome: bool) -> (a: KeypadAction)
        requires
            old(self)@.wf(),
        ensures
            (final(self)@, a) == scan_step(old(self)@, outcome),
            final(self)@.wf(),
            a matches KeypadAction::Done(Some(p)) ==> old(self)@.count == 1 && p == old(self)@.value,
            old(self)@.phase == ScanPhase::AwaitingRelease && outcome ==> final(self)@ == old(self)@ && a
                == KeypadAction::ReadRow(old(self)@.row),
    {
        match self.phase {
            ScanPhase::Idle => {
                self.phase = ScanPhase::DrivingLow;
                self.column = 0;
                self.row = 0;
                self.col_idx = 0;
                self.count = 0;
                self.value = (0, 0);
                KeypadAction::DriveLow(0)
            },
            ScanPhase::DrivingLow => {
                if outcome {
                    self.phase = ScanPhase::Sampling;
                    self.row = 0;
                    KeypadAction::ReadRow(0)
                } else {
                    let c = self.column + 1;
                    let ci = self.col_idx;
                    self.finish_column(c, ci)
                }
            },
            ScanPhase::Sampling => {
                if outcome {
                    self.phase = ScanPhase::AwaitingRelease;
                    self.count = self.count + 1;
                    self.value = (self.row, self.col_idx);
                    KeypadAction::ReadRow(self.row)
                } else {
                    let r = self.row + 1;
                    self.finish_row(r)
                }
            },
            ScanPhase::AwaitingRelease => {
                if outcome {
                    KeypadAction::ReadRow(self.row)
                } else {
                    let r = self.row + 1;
                    self.finish_row(r)
                }
            },
            ScanPhase::DrivingHigh => {
                let c = self.column + 1;
                let ci = self.col_idx + 1;
                self.finish_column(c, ci)
            },
        }
    }
}

/// The number of columns among `0..c` that can be driven low.
pub open spec fn ok_before(drive_ok: Seq<bool>, c: int) -> nat
    decreases c,
{
    if c <= 0 {
        0
    } else {
        ok_before(drive_ok, c - 1) + (if drive_ok[c - 1] { 1nat } else { 0nat })
    }
}

/// The presses among the first `n` positions of the matrix in scan order (column by column,
/// row by row), each as `(row, column number)`. Position `(c, r)` is pressed when column `c`
/// can be driven low and row `r` reads low while it is.
pub open spec fn presses_upto(drive_ok: Seq<bool>, pressed: Seq<Seq<bool>>, n: nat) -> Seq<(u8, u8)>
    decreases n,
{
    if n == 0 {
        Seq::empty()
    } else {
        let c = (n - 1) / 4;
        let r = (n - 1) % 4;
        presses_upto(drive_ok, pressed, (n - 1) as nat) + if drive_ok[c] && pressed[c][r] {
            seq![(r as u8, ok_before(drive_ok, c) as u8)]
        } else {
            Seq::empty()
        }
    }
}

/// The position a scan should report: that of the only press, when there is exactly one.
pub open spec fn expected_position(drive_ok: Seq<bool>, pressed: Seq<Seq<bool>>) -> Option<(u8, u8)> {
    let p = presses_upto(drive_ok, pressed, 16);
    if p.len() == 1 {
        Some(p[0])
    } else {
        None
    }
}

/// What the pins answer to the action asked for in state `v`, for a keypad where column `c`
/// can be driven low iff `drive_ok[c]` and row `r` reads low under column `c` iff
/// `pressed[c][r]`, a key being released as soon as it has been seen.
pub open spec fn pin_outcome(v: ScanView, drive_ok: Seq<bool>, pressed: Seq<Seq<bool>>) -> bool {
    match v.phase {
        ScanPhase::DrivingLow => drive_ok[v.column as int],
        ScanPhase::Sampling => pressed[v.column as int][v.row as int],
        ScanPhase::AwaitingRelease => false,
        _ => true,
    }
}

/// A bound on the number of steps left in a scan.
pub open spec fn steps_left(v: ScanView) -> int {
    let b = 20 * (4 - v.column);
    match v.phase {
        ScanPhase::Idle => 100,
        ScanPhase::DrivingLow => b,
        ScanPhase::Sampling => b - 1 - 3 * v.row,
        ScanPhase::AwaitingRelease => b - 2 - 3 * v.row,
        ScanPhase::DrivingHigh => b - 12,
    }
}

/// The position that a scan from state `v` reports on such a keypad.
pub open spec fn scan_to_end(v: ScanView, drive_ok: Seq<bool>, pressed: Seq<Seq<bool>>) -> Option<(u8, u8)>
    decreases steps_left(v),
    when v.wf()
{
    let (n, a) = scan_step(v, pin_outcome(v, drive_ok, pressed));
    match a {
        KeypadAction::Done(r) => r,
        _ => scan_to_end(n, drive_ok, pressed),
    }
}

/// The scan state `v` agrees with the first `k` positions of the keypad.
pub open spec fn seen(v: ScanView, drive_ok: Seq<bool>, pressed: Seq<Seq<bool>>, k: nat) -> bool {
    let p = presses_upto(drive_ok, pressed, k);
    &&& v.count == p.len()
    &&& v.count > 0 ==> v.value == p.last()
}

pub open spec fn scan_inv(v: ScanView, drive_ok: Seq<bool>, pressed: Seq<Seq<bool>>) -> bool {
    let c = v.column as nat;
    let r = v.row as nat;
    &&& v.wf()
    &&& v.phase != ScanPhase::Idle ==> v.col_idx == ok_before(drive_ok, c as int)
    &&& match v.phase {
        ScanPhase::Idle => true,
        ScanPhase::DrivingLow => seen(v, drive_ok, pressed, 4 * c),
        ScanPhase::Sampling => drive_ok[c as int] && seen(v, drive_ok, pressed, 4 * c + r),
        ScanPhase::AwaitingRelease => drive_ok[c as int] && v.count > 0 && seen(
            v,
            drive_ok,
            pressed,
            4 * c + r + 1,
        ),
        ScanPhase::DrivingHigh => drive_ok[c as int] && seen(v, drive_ok, pressed, 4 * c + 4),
    }
}

proof fn lemma_presses_len(drive_ok: Seq<bool>, pressed: Seq<Seq<bool>>, n: nat)
    ensures
        presses_upto(drive_ok, pressed, n).len() <= n,
    decreases n,
{
    if n > 0 {
        lemma_presses_len(drive_ok, pressed, (n - 1) as nat);
    }
}

proof fn lemma_ok_before_bound(drive_ok: Seq<bool>, c: int)
    requires
        0 <= c,
    ensures
        ok_before(drive_ok, c) <= c,
    decreases c,
{
    if c > 0 {
        lemma_ok_before_bound(drive_ok, c - 1);
    }
}

proof fn lemma_skipped_column(drive_ok: Seq<bool>, pressed: Seq<Seq<bool>>, c: nat, r: nat)
    requires
        r <= 4,
        !drive_ok[c as int],
    ensures
        presses_upto(drive_ok, pressed, 4 * c + r) == presses_upto(drive_ok, pressed, 4 * c),
    decreases r,
{
    if r > 0 {
        lemma_skipped_column(drive_ok, pressed, c, (r - 1) as nat);
        assert((4 * c + r - 1) / 4 == c);
    }
}

proof fn lemma_scan_step_inv(v: ScanView, drive_ok: Seq<bool>, pressed: Seq<Seq<bool>>)
    requires
        scan_inv(v, drive_ok, pressed),
    ensures
        ({
            let (n, a) = scan_step(v, pin_outcome(v, drive_ok, pressed));
            &&& a matches KeypadAction::Done(res) ==> res == expected_position(drive_ok, pressed)
            &&& !(a is Done) ==> scan_inv(n, drive_ok, pressed) && steps_left(n) < steps_left(v)
        }),
{
    lemma_scan_step_inv_with(v, pin_outcome(v, drive_ok, pressed), drive_ok, pressed);
}

/// One step keeps the scan consistent with the keypad, whatever a held key answers while
/// the scan waits for its release.
proof fn lemma_scan_step_inv_with(v: ScanView, o: bool, drive_ok: Seq<bool>, pressed: Seq<Seq<bool>>)
    requires
        scan_inv(v, drive_ok, pressed),
        v.phase == ScanPhase::DrivingLow ==> o == drive_ok[v.column as int],
        v.phase == ScanPhase::Sampling ==> o == pressed[v.column as int][v.row as int],
    ensures
        ({
            let (n, a) = scan_step(v, o);
            &&& a matches KeypadAction::Done(res) ==> res == expected_position(drive_ok, pressed)
            &&& !(a is Done) ==> scan_inv(n, drive_ok, pressed)
            &&& !(a is Done) ==> steps_left(n) < steps_left(v) || (v.phase == ScanPhase::AwaitingRelease && o
                && n == v)
        }),
{
    let (n, a) = scan_step(v, o);
    let c = v.column as nat;
    let r = v.row as nat;
    lemma_ok_before_bound(drive_ok, c as int);
    match v.phase {
        ScanPhase::Idle => {
            assert(presses_upto(drive_ok, pressed, 0) =~= Seq::empty());
        },
        ScanPhase::DrivingLow => {
            if !o {
                lemma_skipped_column(drive_ok, pressed, c, 4);
                assert(ok_before(drive_ok, c + 1int) == ok_before(drive_ok, c as int));
                if c + 1 >= 4 {
                    assert(4 * c + 4 == 16);
                }
            }
        },
        ScanPhase::Sampling => {
            let k = 4 * c + r;
            assert(k / 4 == c && k % 4 == r);
            lemma_presses_len(drive_ok, pressed, k);
            if o {
                assert(presses_upto(drive_ok, pressed, k + 1) == presses_upto(drive_ok, pressed, k).push(
                    (r as u8, ok_before(drive_ok, c as int) as u8),
                ));
            } else {
                assert(presses_upto(drive_ok, pressed, k + 1) =~= presses_upto(drive_ok, pressed, k));
            }
        },
        ScanPhase::AwaitingRelease => {},
        ScanPhase::DrivingHigh => {
            assert(ok_before(drive_ok, c + 1int) == ok_before(drive_ok, c as int) + 1);
            if c + 1 >= 4 {
                assert(4 * c + 4 == 16);
            }
        },
    }
}

proof fn lemma_scan_to_end(v: ScanView, drive_ok: Seq<bool>, pressed: Seq<Seq<bool>>)
    requires
        scan_inv(v, drive_ok, pressed),
    ensures
        scan_to_end(v, drive_ok, pressed) == expected_position(drive_ok, pressed),
    decreases steps_left(v),
{
    lemma_scan_step_inv(v, drive_ok, pressed);
    let (n, a) = scan_step(v, pin_outcome(v, drive_ok, pressed));
    if !(a is Done) {
        lemma_scan_to_end(n, drive_ok, pressed);
    }
}

/// A whole scan, started from rest, reports `Some((row, column number))` exactly when one key
/// is seen pressed in the matrix, with the row of that key and the number of columns that
/// could be driven low before its column; otherwise it reports `None`.
pub proof fn lemma_scan_reports_single_press(v: ScanView, drive_ok: Seq<bool>, pressed: Seq<Seq<bool>>)
    requires
        v.wf(),
        v.phase == ScanPhase::Idle,
    ensures
        scan_to_end(v, drive_ok, pressed) == expected_position(drive_ok, pressed),
{
    lemma_scan_to_end(v, drive_ok, pressed);
}

/// What the pins answer in state `v` on a keypad whose key at `(c, r)`, once seen pressed,
/// keeps reading low for `holds[c][r]` more reads before it is released; `h` is the number of
/// low reads left for the key being waited on.
pub open spec fn held_outcome(v: ScanView, h: nat, drive_ok: Seq<bool>, pressed: Seq<Seq<bool>>) -> bool {
    match v.phase {
        ScanPhase::DrivingLow => drive_ok[v.column as int],
        ScanPhase::Sampling => pressed[v.column as int][v.row as int],
        ScanPhase::AwaitingRelease => h > 0,
        _ => true,
    }
}

/// The low reads left for the key being waited on after the step from state `v`.
pub open spec fn next_hold(v: ScanView, h: nat, holds: Seq<Seq<nat>>) -> nat {
    match v.phase {
        ScanPhase::Sampling => holds[v.column as int][v.row as int],
        ScanPhase::AwaitingRelease => if h > 0 {
            (h - 1) as nat
        } else {
            0
        },
        _ => 0,
    }
}

/// The position that a scan from state `v` reports on a keypad whose keys are held down for
/// `holds` extra reads.
pub open spec fn scan_to_end_held(
    v: ScanView,
    h: nat,
    drive_ok: Seq<bool>,
    pressed: Seq<Seq<bool>>,
    holds: Seq<Seq<nat>>,
) -> Option<(u8, u8)>
    decreases steps_left(v), h,
    when v.wf()
{
    let (n, a) = scan_step(v, held_outcome(v, h, drive_ok, pressed));
    match a {
        KeypadAction::Done(r) => r,
        _ => scan_to_end_held(n, next_hold(v, h, holds), drive_ok, pressed, holds),
    }
}

proof fn lemma_scan_to_end_held(
    v: ScanView,
    h: nat,
    drive_ok: Seq<bool>,
    pressed: Seq<Seq<bool>>,
    holds: Seq<Seq<nat>>,
)
    requires
        scan_inv(v, drive_ok, pressed),
    ensures
        scan_to_end_held(v, h, drive_ok, pressed, holds) == expected_position(drive_ok, pressed),
    decreases steps_left(v), h,
{
    let o = held_outcome(v, h, drive_ok, pressed);
    lemma_scan_step_inv_with(v, o, drive_ok, pressed);
    let (n, a) = scan_step(v, o);
    if !(a is Done) {
        lemma_scan_to_end_held(n, next_hold(v, h, holds), drive_ok, pressed, holds);
    }
}

/// However long each pressed key is held down, a whole scan started from rest reports
/// `Some((row, column number))` exactly when one key is seen pressed, and `None` when none or
/// two or more are: re-reading a held key while waiting for its release counts no new press.
pub proof fn lemma_scan_reports_single_press_held(
    v: ScanView,
    drive_ok: Seq<bool>,
    pressed: Seq<Seq<bool>>,
    holds: Seq<Seq<nat>>,
)
    requires
        v.wf(),
        v.phase == ScanPhase::Idle,
    ensures
        scan_to_end_held(v, 0, drive_ok, pressed, holds) == expected_position(drive_ok, pressed),
{
    lemma_scan_to_end_held(v, 0, drive_ok, pressed, holds);
}

/// Two or more presses in a scan give no position.
pub proof fn lemma_two_presses_give_none(drive_ok: Seq<bool>, pressed: Seq<Seq<bool>>)
    requires
        presses_upto(drive_ok, pressed, 16).len() >= 2,
    ensures
        expected_position(drive_ok, pressed) is None,
{
}

} // verus!
