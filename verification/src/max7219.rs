use vstd::prelude::*;

verus! {

/// Bit `i` (0 = least significant) of a byte.
pub open spec fn bit_of(x: u8, i: u8) -> bool {
    (x >> i) & 1 == 1
}

/// `r` holds the bits of `x` in the opposite order: bit `i` of `r` is bit `7 - i` of `x`.
pub open spec fn is_bit_reversal(x: u8, r: u8) -> bool {
    forall|i: u8| i < 8 ==> #[trigger] bit_of(r, i) == bit_of(x, (7 - i) as u8)
}

/// The bit reversal of a nibble, written out bit by bit.
pub open spec fn nibble_reversed(n: u8) -> u8 {
    ((n & 1) << 3) | ((n & 2) << 1) | ((n & 4) >> 1) | ((n & 8) >> 3)
}

/// The bit reversal of a byte, written out bit by bit.
pub open spec fn reversed_bits(x: u8) -> u8 {
    ((x & 0x01) << 7) | ((x & 0x02) << 5) | ((x & 0x04) << 3) | ((x & 0x08) << 1)
        | ((x & 0x10) >> 1) | ((x & 0x20) >> 3) | ((x & 0x40) >> 5) | ((x & 0x80) >> 7)
}

/// `reversed_bits` does reverse the bit order.
pub proof fn lemma_reversed_bits_reverses(x: u8)
    ensures
        is_bit_reversal(x, reversed_bits(x)),
{
    assert(forall|i: u8| i < 8 ==> #[trigger] bit_of(reversed_bits(x), i) == bit_of(x, (7 - i) as u8)) by (bit_vector);
}

proof fn lemma_reverse_from_nibbles(x: u8, lo: u8, hi: u8)
    requires
        lo == nibble_reversed(x & 0x0f),
        hi == nibble_reversed((x & 0xf0) >> 4),
    ensures
        (lo << 4) | hi == reversed_bits(x),
{
    assert((lo << 4) | hi == reversed_bits(x)) by (bit_vector)
        requires
            lo == ((x & 0x0f) & 1) << 3 | ((x & 0x0f) & 2) << 1 | ((x & 0x0f) & 4) >> 1 | ((x & 0x0f) & 8) >> 3,
            hi == ((((x & 0xf0) >> 4) & 1) << 3) | ((((x & 0xf0) >> 4) & 2) << 1) | ((((x & 0xf0) >> 4) & 4) >> 1) | ((((x & 0xf0) >> 4) & 8) >> 3),
    ;
}

/// Reverses the order of the bits of a byte (bit 0 becomes bit 7 and so on),
/// one nibble at a time through a lookup table.
pub fn rev_bits(x: u8) -> (r: u8)
    ensures
        r == reversed_bits(x),
        is_bit_reversal(x, r),
{
    let nibble_reverse: [u8; 16] = [
        0b0000, 0b1000, 0b0100, 0b1100, 0b0010, 0b1010, 0b0110, 0b1110,
        0b0001, 0b1001, 0b0101, 0b1101, 0b0011, 0b1011, 0b0111, 0b1111,
    ];
    let low_nibble = x & 0b00001111;
    let high_nibble = (x & 0b11110000) >> 4;
    assert(x & 0b00001111 < 16) by (bit_vector);
    assert((x & 0b11110000) >> 4 < 16) by (bit_vector);
    let lo = nibble_reverse[low_nibble as usize];
    let hi = nibble_reverse[high_nibble as usize];
    proof {
        assert(forall|n: u8| n < 16 ==> #[trigger] nibble_reversed(n) == nibble_reverse@[n as int]) by {
            assert forall|n: u8| n < 16 implies #[trigger] nibble_reversed(n) == nibble_reverse@[n as int] by {
                assert(n == 0 || n == 1 || n == 2 || n == 3 || n == 4 || n == 5 || n == 6 || n == 7 || n == 8
                    || n == 9 || n == 10 || n == 11 || n == 12 || n == 13 || n == 14 || n == 15);
                assert(nibble_reversed(0) == 0 && nibble_reversed(1) == 8 && nibble_reversed(2) == 4
                    && nibble_reversed(3) == 12 && nibble_reversed(4) == 2 && nibble_reversed(5) == 10
                    && nibble_reversed(6) == 6 && nibble_reversed(7) == 14 && nibble_reversed(8) == 1
                    && nibble_reversed(9) == 9 && nibble_reversed(10) == 5 && nibble_reversed(11) == 13
                    && nibble_reversed(12) == 3 && nibble_reversed(13) == 11 && nibble_reversed(14) == 7
                    && nibble_reversed(15) == 15) by (bit_vector);
            }
        }
        lemma_reverse_from_nibbles(x, lo, hi);
        lemma_reversed_bits_reverses(x);
    }
    (lo << 4) | hi
}

/// Reversing the bits of a byte twice gives the byte back.
pub proof fn lemma_reversed_bits_involutive(x: u8)
    ensures
        reversed_bits(reversed_bits(x)) == x,
{
    assert(reversed_bits(reversed_bits(x)) == x) by (bit_vector);
}

/// Stores the byte `v` as column `x` of a frame buffer.
pub fn set_column(x: u8, v: u8, grid: &mut [u8])
    requires
        (x as int) < old(grid)@.len(),
    ensures
        final(grid)@ == old(grid)@.update(x as int, v),
{
    grid[x as usize] = v;
}

/// `after` is `before` with bit `y` set to `v` and the other seven bits left as they were.
pub open spec fn with_bit(before: u8, y: u8, v: bool, after: u8) -> bool {
    forall|i: u8| i < 8 ==> #[trigger] bit_of(after, i) == (if i == y { v } else { bit_of(before, i) })
}

/// Turns the pixel in row `y` of column `x` on (`v`) or off, leaving every other pixel as it was.
pub fn set_pixel(x: u8, y: u8, v: bool, grid: &mut [u8])
    requires
        (x as int) < old(grid)@.len(),
        y < 8,
    ensures
        final(grid)@.len() == old(grid)@.len(),
        forall|j: int| 0 <= j < old(grid)@.len() && j != x ==> #[trigger] final(grid)@[j] == old(grid)@[j],
        with_bit(old(grid)@[x as int], y, v, final(grid)@[x as int]),
{
    let cur = grid[x as usize];
    let mask: u8 = 1 << y;
    let updated = if v {
        cur | mask
    } else {
        cur & !mask
    };
    proof {
        assert(forall|i: u8| i < 8 ==> #[trigger] bit_of(updated, i) == (if i == y { v } else { bit_of(cur, i) })) by (bit_vector)
            requires
                y < 8,
                mask == 1u8 << y,
                v ==> updated == cur | mask,
                !v ==> updated == cur & !mask,
        ;
    }
    grid[x as usize] = updated;
}

const DECODE_MODE: u8 = 0x09;
const INTENSITY: u8 = 0x0A;
const SCAN_LIMIT: u8 = 0x0B;
const SHUTDOWN: u8 = 0x0C;
const DISPLAY_TEST: u8 = 0x0F;

/// How far a batch of register writes has gone.
#[derive(Clone, Copy, Debug, PartialEq, Eq, Structural)]
pub enum BatchPhase {
    /// Loaded, nothing sent yet.
    Ready,
    /// One write is on the bus and its outcome is awaited.
    InFlight,
    /// Every write of the batch succeeded.
    Complete,
    /// A write failed; the rest of the batch is dropped.
    Aborted,
}

/// What the SPI side has to do next.
#[derive(Clone, Copy, Debug, PartialEq, Eq, Structural)]
pub enum SpiAction {
    /// Pull chip-select low, write the register address and the data byte, release chip-select.
    Write(u8, u8),
    /// The batch is done and every write succeeded.
    Finished,
    /// The batch stopped at the write that failed.
    Failed,
}

/// The abstract state of a MAX7219 driver: the batch of `(register, data)` writes,
/// how many of them succeeded, and the phase.
pub struct BatchView {
    pub commands: Seq<(u8, u8)>,
    pub sent: nat,
    pub phase: BatchPhase,
}

impl BatchView {
    pub open spec fn wf(self) -> bool {
        &&& self.sent <= self.commands.len()
        &&& self.phase == BatchPhase::InFlight ==> self.sent < self.commands.len()
        &&& self.phase == BatchPhase::Complete ==> self.sent == self.commands.len()
        &&& self.phase == BatchPhase::Ready ==> self.sent == 0
    }

    /// A freshly loaded batch.
    pub open spec fn loaded(commands: Seq<(u8, u8)>) -> BatchView {
        BatchView { commands, sent: 0, phase: BatchPhase::Ready }
    }
}

pub open spec fn write_of(c: (u8, u8)) -> SpiAction {
    SpiAction::Write(c.0, c.1)
}

/// One step of a batch: `last_ok` is the outcome of the write asked for by the previous
/// step (ignored when none was asked for). Writes go out in order; the first failure ends the
/// batch, as `?` does after each write.
pub open spec fn step_spec(v: BatchView, last_ok: bool) -> (BatchView, SpiAction) {
    match v.phase {
        BatchPhase::Ready => if v.commands.len() == 0 {
            (BatchView { sent: 0, phase: BatchPhase::Complete, ..v }, SpiAction::Finished)
        } else {
            (BatchView { sent: 0, phase: BatchPhase::InFlight, ..v }, write_of(v.commands[0]))
        },
        BatchPhase::InFlight => if !last_ok {
            (BatchView { phase: BatchPhase::Aborted, ..v }, SpiAction::Failed)
        } else if v.sent + 1 >= v.commands.len() {
            (BatchView { sent: v.sent + 1, phase: BatchPhase::Complete, ..v }, SpiAction::Finished)
        } else {
            (BatchView { sent: v.sent + 1, ..v }, write_of(v.commands[v.sent + 1int]))
        },
        BatchPhase::Complete => (v, SpiAction::Finished),
        BatchPhase::Aborted => (v, SpiAction::Failed),
    }
}

/// The writes that `init` programs: no decoding, intensity 1, all eight digits scanned,
/// normal operation, display test off.
pub open spec fn init_commands() -> Seq<(u8, u8)> {
    seq![(0x09u8, 0u8), (0x0Au8, 1u8), (0x0Bu8, 0x07u8), (0x0Cu8, 0x01u8), (0x0Fu8, 0x00u8)]
}

/// The writes that blank all eight rows: digit registers 1 to 8 set to 0.
pub open spec fn clear_commands() -> Seq<(u8, u8)> {
    Seq::new(8, |i: int| ((i + 1) as u8, 0u8))
}

/// The writes that show an 8x8 picture: row `i` goes to digit register `i + 1`, its bits reversed.
pub open spec fn picture_commands(pic: Seq<u8>) -> Seq<(u8, u8)> {
    Seq::new(8, |i: int| ((i + 1) as u8, reversed_bits(pic[i])))
}

/// A picture is shown row by row: row `i` goes to digit register `i + 1`, with its bits in
/// the opposite order.
pub proof fn lemma_picture_commands_reverse_rows(pic: Seq<u8>)
    ensures
        picture_commands(pic).len() == 8,
        forall|i: int|
            0 <= i < 8 ==> (#[trigger] picture_commands(pic)[i]).0 == i + 1 && is_bit_reversal(
                pic[i],
                picture_commands(pic)[i].1,
            ),
{
    assert forall|i: int| 0 <= i < 8 implies (#[trigger] picture_commands(pic)[i]).0 == i + 1
        && is_bit_reversal(pic[i], picture_commands(pic)[i].1) by {
        lemma_reversed_bits_reverses(pic[i]);
    }
}

/// Driver for a MAX7219 8x8 LED matrix. It holds the batch of register writes of the
/// last operation and hands them out one at a time through `step`.
pub struct MAX7219 {
    commands: Vec<(u8, u8)>,
    sent: usize,
    phase: BatchPhase,
}

impl View for MAX7219 {
    type V = BatchView;

    closed spec fn view(&self) -> BatchView {
        BatchView { commands: self.commands@, sent: self.sent as nat, phase: self.phase }
    }
}

impl MAX7219 {
    fn load(commands: Vec<(u8, u8)>) -> (d: MAX7219)
        ensures
            d@ == BatchView::loaded(commands@),
            d@.wf(),
    {
        MAX7219 { commands, sent: 0, phase: BatchPhase::Ready }
    }

    fn init_batch() -> (v: Vec<(u8, u8)>)
        ensures
            v@ == init_commands(),
    {
        let v = vec![
            (DECODE_MODE, 0u8),
            (INTENSITY, 1u8),
            (SCAN_LIMIT, 0x07u8),
            (SHUTDOWN, 0x01u8),
            (DISPLAY_TEST, 0x00u8),
        ];
        assert(v@ == init_commands());
        v
    }

    fn clear_batch() -> (v: Vec<(u8, u8)>)
        ensures
            v@ == clear_commands(),
    {
        let mut v: Vec<(u8, u8)> = Vec::new();
        let mut i: u8 = 0;
        while i < 8
            invariant
                i <= 8,
                v@ == clear_commands().take(i as int),
            decreases 8 - i,
        {
            v.push((i + 1, 0));
            i = i + 1;
            assert(v@ =~= clear_commands().take(i as int));
        }
        assert(v@ =~= clear_commands());
        v
    }

    /// A driver whose batch initialises the chip and then blanks it; the program stops if
    /// any of these writes fails.
    pub fn new() -> (d: MAX7219)
        ensures
            d@ == BatchView::loaded(init_commands() + clear_commands()),
            d@.wf(),
    {
        let mut v = Self::init_batch();
        let mut c = Self::clear_batch();
        v.append(&mut c);
        Self::load(v)
    }

    /// Loads the initialisation writes.
    pub fn init(&mut self)
        ensures
            final(self)@ == BatchView::loaded(init_commands()),
            final(self)@.wf(),
    {
        *self = Self::load(Self::init_batch());
    }

    /// Loads the write that shows `value` in row `row` (digit register `row + 1`).
    pub fn set_row(&mut self, row: u8, value: u8)
        requires
            row < 255,
        ensures
            final(self)@ == BatchView::loaded(seq![((row + 1) as u8, value)]),
            final(self)@.wf(),
    {
        let v = vec![(row + 1, value)];
        assert(v@ =~= seq![((row + 1) as u8, value)]);
        *self = Self::load(v);
    }

    /// Loads the eight writes that show the picture `pic`, one byte per row.
    pub fn set_pic(&mut self, pic: [u8; 8])
        ensures
            final(self)@ == BatchView::loaded(picture_commands(pic@)),
            final(self)@.wf(),
            final(self)@.commands.len() == 8,
            forall|i: int|
                0 <= i < 8 ==> (#[trigger] final(self)@.commands[i]).0 == i + 1 && is_bit_reversal(
                    pic@[i],
                    final(self)@.commands[i].1,
                ),
    {
        proof {
            lemma_picture_commands_reverse_rows(pic@);
        }
        let mut v: Vec<(u8, u8)> = Vec::new();
        let mut i: u8 = 0;
        while i < 8
            invariant
                i <= 8,
                v@ == picture_commands(pic@).take(i as int),
            decreases 8 - i,
        {
            let r = rev_bits(pic[i as usize]);
            v.push((i + 1, r));
            i = i + 1;
            assert(v@ =~= picture_commands(pic@).take(i as int));
        }
        assert(v@ =~= picture_commands(pic@));
        *self = Self::load(v);
    }

    /// Loads the writes that blank every row.
    pub fn clear(&mut self)
        ensures
            final(self)@ == BatchView::loaded(clear_commands()),
            final(self)@.wf(),
            final(self)@.commands.len() == 8,
            forall|i: int|
                0 <= i < 8 ==> (#[trigger] final(self)@.commands[i]).0 == i + 1 && final(self)@.commands[i].1
                    == 0,
    {
        *self = Self::load(Self::clear_batch());
    }

    /// Advances the batch by one write; `last_ok` tells whether the write asked for by the
    /// previous step succeeded.
    pub fn step(&mut self, last_ok: bool) -> (action: SpiAction)
        requires
            old(self)@.wf(),
        ensures
            (final(self)@, action) == step_spec(old(self)@, last_ok),
            final(self)@.wf(),
    {
        match self.phase {
            BatchPhase::Ready => {
                self.sent = 0;
                if self.commands.len() == 0 {
                    self.phase = BatchPhase::Complete;
                    SpiAction::Finished
                } else {
                    self.phase = BatchPhase::InFlight;
                    let (a, d) = self.commands[0];
                    SpiAction::Write(a, d)
                }
            },
            BatchPhase::InFlight => {
                if !last_ok {
                    self.phase = BatchPhase::Aborted;
                    SpiAction::Failed
                } else {
                    let n = self.commands.len();
                    assert(self.sent < n);
                    self.sent = self.sent + 1;
                    if self.sent >= self.commands.len() {
                        self.phase = BatchPhase::Complete;
                        SpiAction::Finished
                    } else {
                        let (a, d) = self.commands[self.sent];
                        SpiAction::Write(a, d)
                    }
                }
            },
            BatchPhase::Complete => SpiAction::Finished,
            BatchPhase::Aborted => SpiAction::Failed,
        }
    }
}

/// The actions that `step` hands out when it is called with the outcomes `oks` in turn.
pub open spec fn run_batch(v: BatchView, oks: Seq<bool>) -> Seq<SpiAction>
    decreases oks.len(),
{
    if oks.len() == 0 {
        Seq::empty()
    } else {
        let (next, a) = step_spec(v, oks[0]);
        seq![a] + run_batch(next, oks.drop_first())
    }
}

proof fn lemma_in_flight_all_succeed(v: BatchView, oks: Seq<bool>)
    requires
        v.wf(),
        v.phase == BatchPhase::InFlight,
        oks.len() == v.commands.len() - v.sent,
        forall|i: int| 0 <= i < oks.len() ==> oks[i],
    ensures
        run_batch(v, oks) == v.commands.subrange(v.sent + 1int, v.commands.len() as int).map_values(
            |c: (u8, u8)| write_of(c),
        ) + seq![SpiAction::Finished],
    decreases oks.len(),
{
    let (next, a) = step_spec(v, oks[0]);
    let rest = oks.drop_first();
    if v.sent + 1 >= v.commands.len() {
        assert(rest.len() == 0);
        assert(run_batch(next, rest) == Seq::<SpiAction>::empty());
        assert(v.commands.subrange(v.sent + 1int, v.commands.len() as int).map_values(|c: (u8, u8)| write_of(c))
            =~= Seq::<SpiAction>::empty());
        assert(run_batch(v, oks) =~= seq![SpiAction::Finished]);
    } else {
        lemma_in_flight_all_succeed(next, rest);
        assert(run_batch(v, oks) =~= v.commands.subrange(v.sent + 1int, v.commands.len() as int).map_values(
            |c: (u8, u8)| write_of(c),
        ) + seq![SpiAction::Finished]);
    }
}

/// When every write succeeds, a loaded batch sends all its writes, in order, and then reports
/// that it is finished. (The first outcome is the one of no write and is ignored.)
pub proof fn lemma_batch_all_succeed(commands: Seq<(u8, u8)>, oks: Seq<bool>)
    requires
        oks.len() == commands.len() + 1,
        forall|i: int| 1 <= i < oks.len() ==> oks[i],
    ensures
        run_batch(BatchView::loaded(commands), oks) == commands.map_values(|c: (u8, u8)| write_of(c))
            + seq![SpiAction::Finished],
{
    let v = BatchView::loaded(commands);
    let (next, a) = step_spec(v, oks[0]);
    let rest = oks.drop_first();
    if commands.len() == 0 {
        assert(run_batch(next, rest) == Seq::<SpiAction>::empty());
        assert(run_batch(v, oks) =~= commands.map_values(|c: (u8, u8)| write_of(c)) + seq![SpiAction::Finished]);
    } else {
        lemma_in_flight_all_succeed(next, rest);
        assert(run_batch(v, oks) =~= commands.map_values(|c: (u8, u8)| write_of(c)) + seq![SpiAction::Finished]);
    }
}

proof fn lemma_in_flight_fails_at(v: BatchView, oks: Seq<bool>, k: int)
    requires
        v.wf(),
        v.phase == BatchPhase::InFlight,
        v.sent <= k < v.commands.len(),
        oks.len() == k + 1 - v.sent,
        forall|i: int| 0 <= i < oks.len() - 1 ==> oks[i],
        !oks[oks.len() - 1],
    ensures
        run_batch(v, oks) == v.commands.subrange(v.sent + 1int, k + 1).map_values(|c: (u8, u8)| write_of(c))
            + seq![SpiAction::Failed],
    decreases oks.len(),
{
    let (next, a) = step_spec(v, oks[0]);
    let rest = oks.drop_first();
    if v.sent == k {
        assert(!oks[0]);
        assert(rest.len() == 0);
        assert(run_batch(next, rest) == Seq::<SpiAction>::empty());
        assert(run_batch(v, oks) =~= v.commands.subrange(v.sent + 1int, k + 1).map_values(|c: (u8, u8)| write_of(c))
            + seq![SpiAction::Failed]);
    } else {
        assert(oks[0]);
        lemma_in_flight_fails_at(next, rest, k);
        assert(run_batch(v, oks) =~= v.commands.subrange(v.sent + 1int, k + 1).map_values(|c: (u8, u8)| write_of(c))
            + seq![SpiAction::Failed]);
    }
}

/// When write `k` of a loaded batch fails after the earlier ones succeeded, the batch has sent
/// writes `0..=k`, in order, and then reports the failure; the later writes are never sent.
pub proof fn lemma_batch_stops_at_first_failure(commands: Seq<(u8, u8)>, oks: Seq<bool>, k: int)
    requires
        0 <= k < commands.len(),
        oks.len() == k + 2,
        forall|i: int| 1 <= i <= k ==> oks[i],
        !oks[k + 1],
    ensures
        run_batch(BatchView::loaded(commands), oks) == commands.take(k + 1).map_values(|c: (u8, u8)| write_of(c))
            + seq![SpiAction::Failed],
{
    let v = BatchView::loaded(commands);
    let (next, a) = step_spec(v, oks[0]);
    let rest = oks.drop_first();
    lemma_in_flight_fails_at(next, rest, k);
    assert(run_batch(v, oks) =~= commands.take(k + 1).map_values(|c: (u8, u8)| write_of(c)) + seq![SpiAction::Failed]);
}

} // verus!
