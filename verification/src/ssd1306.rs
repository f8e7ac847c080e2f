use vstd::prelude::*;

verus! {

const CMD: u8 = 0x00;
const DAT: u8 = 0x40;
const ADDR: u8 = 0x3C;
const HEIGHT: u8 = 32;
const WIDTH: u8 = 128;

/// The size of a display panel in pixels.
pub trait DisplaySize {
    /// Width in pixels
    const WIDTH: u8 = 128;

    /// Height in pixels
    const HEIGHT: u8 = 32;
}

/// A 128x32 pixel panel.
pub struct DisplaySize128x32;

impl DisplaySize for DisplaySize128x32 {
    const WIDTH: u8 = 128;
    const HEIGHT: u8 = 32;
}

/// The memory addressing modes of the controller.
#[derive(Clone, Copy, Debug, PartialEq, Eq, Structural)]
pub enum AddrMode {
    /// Horizontal mode
    Horizontal,
    /// Vertical mode
    Vertical,
    /// Page mode (default)
    Page,
}

impl AddrMode {
    /// The two-bit code of the mode in the "set memory addressing mode" command.
    pub fn code(self) -> (c: u8)
        ensures
            c == match self {
                AddrMode::Horizontal => 0b00u8,
                AddrMode::Vertical => 0b01u8,
                AddrMode::Page => 0b10u8,
            },
    {
        match self {
            AddrMode::Horizontal => 0b00,
            AddrMode::Vertical => 0b01,
            AddrMode::Page => 0b10,
        }
    }
}

/// One I2C write transaction: the 7-bit target address and the bytes sent to it.
pub struct I2cWrite {
    pub address: u8,
    pub bytes: Vec<u8>,
}

/// The address and bytes of an I2C write, as plain values.
pub open spec fn write_view(w: I2cWrite) -> (u8, Seq<u8>) {
    (w.address, w.bytes@)
}

/// The I2C write that sends `bytes` to the display.
pub open spec fn to_display(bytes: Seq<u8>) -> (u8, Seq<u8>) {
    (0x3Cu8, bytes)
}

/// The command transactions of `init`, in order.
pub open spec fn init_commands() -> Seq<Seq<u8>> {
    seq![
        seq![0x00u8, 0xAE],
        seq![0x00u8, 0xD5, 0x80],
        seq![0x00u8, 0xA8, 31],
        seq![0x00u8, 0xD3, 0],
        seq![0x00u8, 0x40],
        seq![0x00u8, 0x8D, 0x14],
        seq![0x00u8, 0x20, 0],
        seq![0x00u8, 0xDA, 0x2],
        seq![0x00u8, 0xA1],
        seq![0x00u8, 0xC8],
        seq![0x00u8, 0xD9, 0x12],
        seq![0x00u8, 0x81, 0x5F],
        seq![0x00u8, 0xDB, 0x40],
        seq![0x00u8, 0xAF],
        seq![0x00u8, 0x21, 0, 127],
        seq![0x00u8, 0x22, 0, 31],
    ]
}

/// The command that sets the start column `addr` in page addressing mode: its lower nibble
/// (command 0x00-0x0F), then its higher nibble (command 0x10-0x1F).
pub open spec fn column_command(addr: u8) -> Seq<u8> {
    seq![0x00u8, 0x0F & addr, 0x10 | (0x0F & (addr >> 4))]
}

/// The command that selects page `page` (command 0xB0 | page).
pub open spec fn page_command(page: u8) -> Seq<u8> {
    seq![0x00u8, 0xB0 | page]
}

/// The command that moves back to column 0.
pub open spec fn column_zero_command() -> Seq<u8> {
    seq![0x00u8, 0x00, 0x10]
}

/// The data transaction that writes `data` into display memory.
pub open spec fn data_transaction(data: Seq<u8>) -> Seq<u8> {
    seq![0x40u8] + data
}

/// What `clear` sends for page `row`: select the page, go to column 0, then sixteen
/// transactions of eight zero bytes.
pub open spec fn clear_page_transactions(row: u8) -> Seq<Seq<u8>> {
    seq![page_command(row), column_zero_command(), column_command(0)]
        + Seq::new(16, |i: int| data_transaction(Seq::new(8, |j: int| 0u8)))
}

/// What `clear` sends for pages `0..n`.
pub open spec fn clear_transactions(n: nat) -> Seq<Seq<u8>>
    decreases n,
{
    if n == 0 {
        Seq::empty()
    } else {
        clear_transactions((n - 1) as nat) + clear_page_transactions((n - 1) as u8)
    }
}

/// The transactions of a sequence of display writes, each addressed to the display.
pub open spec fn to_display_all(s: Seq<Seq<u8>>) -> Seq<(u8, Seq<u8>)> {
    s.map_values(|b: Seq<u8>| to_display(b))
}

/// Driver for an SSD1306 OLED controller on I2C. Each operation appends the I2C write
/// transactions it makes to the driver's outgoing queue, from which the bus side takes them.
pub struct Ssd1306<SIZE> {
    interface: Vec<I2cWrite>,
    size: SIZE,
}

impl<SIZE: DisplaySize> Ssd1306<SIZE> {
    /// The I2C transactions written and not yet taken, oldest first.
    pub closed spec fn written(&self) -> Seq<(u8, Seq<u8>)> {
        self.interface@.map_values(|w: I2cWrite| write_view(w))
    }

    /// A driver that has sent the initialisation sequence.
    pub fn new(size: SIZE) -> (d: Self)
        ensures
            d.written() == to_display_all(init_commands()),
    {
        let mut i = Ssd1306 { interface: Vec::new(), size };
        assert(i.written() =~= Seq::empty());
        i.init();
        assert(i.written() =~= to_display_all(init_commands()));
        i
    }

    fn write_cmd(&mut self, cmd_data: &[u8])
        ensures
            final(self).written() == old(self).written().push(to_display(cmd_data@)),
    {
        let bytes = vstd::slice::slice_to_vec(cmd_data);
        self.interface.push(I2cWrite { address: ADDR, bytes });
        assert(self.written() =~= old(self).written().push(to_display(cmd_data@)));
    }

    /// Sends the power-up configuration: display off, clock, multiplex for 32 rows, offset,
    /// start line, charge pump, horizontal addressing, COM pins, segment remap, COM scan
    /// direction, precharge, contrast, VCOMH level, display on, then the full column and page
    /// ranges.
    pub fn init(&mut self) -> (r: bool)
        ensures
            r,
            final(self).written() == old(self).written() + to_display_all(init_commands()),
    {
        let initsetup: Vec<Vec<u8>> = vec![
            vec![CMD, 0xAE],
            vec![CMD, 0xD5, 0x80],
            vec![CMD, 0xA8, 32 - 1],
            vec![CMD, 0xD3, 0],
            vec![CMD, 0x40],
            vec![CMD, 0x8D, 0x14],
            vec![CMD, 0x20, 0],
            vec![CMD, 0xDA, 0x2],
            vec![CMD, 0xA1],
            vec![CMD, 0xC8],
            vec![CMD, 0xD9, 0x12],
            vec![CMD, 0x81, 0x5F],
            vec![CMD, 0xDB, 0b100 << 4],
            vec![CMD, 0xAF],
            vec![CMD, 0x21, 0, WIDTH.saturating_sub(1)],
            vec![CMD, 0x22, 0, HEIGHT.saturating_sub(1)],
        ];
        proof {
            assert((0b100u8 << 4u8) == 0x40u8) by (bit_vector);
            assert forall|i: int| 0 <= i < 16 implies #[trigger] initsetup@[i]@ =~= init_commands()[i] by {
                assert(initsetup@[0]@ =~= init_commands()[0]);
                assert(initsetup@[1]@ =~= init_commands()[1]);
                assert(initsetup@[2]@ =~= init_commands()[2]);
                assert(initsetup@[3]@ =~= init_commands()[3]);
                assert(initsetup@[4]@ =~= init_commands()[4]);
                assert(initsetup@[5]@ =~= init_commands()[5]);
                assert(initsetup@[6]@ =~= init_commands()[6]);
                assert(initsetup@[7]@ =~= init_commands()[7]);
                assert(initsetup@[8]@ =~= init_commands()[8]);
                assert(initsetup@[9]@ =~= init_commands()[9]);
                assert(initsetup@[10]@ =~= init_commands()[10]);
                assert(initsetup@[11]@ =~= init_commands()[11]);
                assert(initsetup@[12]@ =~= init_commands()[12]);
                assert(initsetup@[13]@ =~= init_commands()[13]);
                assert(initsetup@[14]@ =~= init_commands()[14]);
                assert(initsetup@[15]@ =~= init_commands()[15]);
            }
            assert(initsetup@.map_values(|v: Vec<u8>| v@) =~= init_commands());
        }
        let ghost start = self.written();
        let mut k: usize = 0;
        while k < initsetup.len()
            invariant
                k <= initsetup.len(),
                initsetup@.map_values(|v: Vec<u8>| v@) == init_commands(),
                self.written() == start + to_display_all(init_commands().take(k as int)),
            decreases initsetup.len() - k,
        {
            self.write_cmd(initsetup[k].as_slice());
            k = k + 1;
            assert(init_commands()[k - 1] == initsetup@[k - 1]@);
            assert(init_commands().take(k as int) =~= init_commands().take(k - 1).push(initsetup@[k - 1]@));
            assert(to_display_all(init_commands().take(k as int)) =~= to_display_all(init_commands().take(k - 1)).push(to_display(initsetup@[k - 1]@)));
        }
        assert(init_commands().take(k as int) =~= init_commands());
        true
    }

    /// Sets the start column to `addr`.
    pub fn set_column(&mut self, addr: u8) -> (r: bool)
        ensures
            r,
            final(self).written() == old(self).written().push(to_display(column_command(addr))),
    {
        let cmd = [CMD, 0xF & addr, 0x10 | (0xF & (addr >> 4))];
        assert(cmd@ =~= column_command(addr));
        self.write_cmd(&cmd);
        true
    }

    /// Selects page `page` and moves back to column 0.
    pub fn set_row(&mut self, page: u8) -> (r: bool)
        ensures
            r,
            final(self).written() == old(self).written().push(to_display(page_command(page))).push(
                to_display(column_zero_command()),
            ),
    {
        let a = [CMD, 0xB0 | page];
        assert(a@ =~= page_command(page));
        self.write_cmd(&a);
        let b = [CMD, 0, 0x10];
        assert(b@ =~= column_zero_command());
        self.write_cmd(&b);
        true
    }

    /// Writes `data` into display memory at the current position.
    pub fn draw(&mut self, data: &[u8]) -> (r: bool)
        requires
            data@.len() < 64,
        ensures
            r,
            final(self).written() == old(self).written().push(to_display(data_transaction(data@))),
            final(self).written().len() == old(self).written().len() + 1,
            final(self).written().last().0 == 0x3C,
            final(self).written().last().1.len() == data@.len() + 1,
            final(self).written().last().1[0] == 0x40,
            forall|k: int|
                0 <= k < data@.len() ==> #[trigger] final(self).written().last().1[k + 1] == data@[k],
    {
        let total = data.len() + 1;
        let mut buffer: Vec<u8> = Vec::with_capacity(total);
        buffer.push(DAT);
        let mut k: usize = 0;
        while k < data.len()
            invariant
                k <= data@.len(),
                buffer@ == data_transaction(data@.take(k as int)),
            decreases data@.len() - k,
        {
            buffer.push(data[k]);
            k = k + 1;
            assert(buffer@ =~= data_transaction(data@.take(k as int)));
        }
        assert(data@.take(k as int) =~= data@);
        self.write_cmd(buffer.as_slice());
        true
    }

    /// Blanks the whole panel: for each of the four pages, select it, go to column 0 and
    /// write 128 zero bytes, eight at a time.
    pub fn clear(&mut self)
        ensures
            final(self).written() == old(self).written() + to_display_all(clear_transactions(4)),
    {
        let ghost start = self.written();
        let mut row: u8 = 0;
        while row < 4
            invariant
                row <= 4,
                self.written() == start + to_display_all(clear_transactions(row as nat)),
            decreases 4 - row,
        {
            let ghost before = self.written();
            self.set_row(row);
            self.set_column(0);
            let zeros = [0u8; 8];
            assert(zeros@ =~= Seq::new(8, |j: int| 0u8));
            let mut n: u8 = 0;
            while n < (128u8 >> 3)
                invariant
                    n <= 16,
                    zeros@ == Seq::new(8, |j: int| 0u8),
                    self.written() == before + to_display_all(
                        seq![page_command(row), column_zero_command(), column_command(0)]
                            + Seq::new(n as nat, |i: int| data_transaction(Seq::new(8, |j: int| 0u8))),
                    ),
                decreases 16 - n,
            {
                assert((128u8 >> 3) == 16u8) by (bit_vector);
                self.draw(&zeros);
                n = n + 1;
                assert(seq![page_command(row), column_zero_command(), column_command(0)]
                    + Seq::new(n as nat, |i: int| data_transaction(Seq::new(8, |j: int| 0u8)))
                    =~= (seq![page_command(row), column_zero_command(), column_command(0)]
                    + Seq::new((n - 1) as nat, |i: int| data_transaction(Seq::new(8, |j: int| 0u8))))
                        .push(data_transaction(zeros@)));
                assert(self.written() =~= before + to_display_all(
                        seq![page_command(row), column_zero_command(), column_command(0)]
                            + Seq::new(n as nat, |i: int| data_transaction(Seq::new(8, |j: int| 0u8)))));
            }
            assert((128u8 >> 3) == 16u8) by (bit_vector);
            row = row + 1;
            assert(clear_transactions(row as nat) =~= clear_transactions((row - 1) as nat)
                + clear_page_transactions((row - 1) as u8));
            assert(self.written() =~= start + to_display_all(clear_transactions(row as nat)));
        }
    }

    /// Takes the transactions written so far, leaving the queue empty.
    pub fn take_writes(&mut self) -> (w: Vec<I2cWrite>)
        ensures
            w@.map_values(|x: I2cWrite| write_view(x)) == old(self).written(),
            final(self).written() == Seq::<(u8, Seq<u8>)>::empty(),
    {
        let mut out: Vec<I2cWrite> = Vec::new();
        std::mem::swap(&mut out, &mut self.interface);
        assert(self.written() =~= Seq::<(u8, Seq<u8>)>::empty());
        out
    }
}

/// The column commands that `set_column` sends are a "lower nibble" command (0x00-0x0F) and a
/// "higher nibble" command (0x10-0x1F); read back together they give the column.
pub proof fn lemma_column_command_encodes(addr: u8)
    ensures
        column_command(addr)[1] < 0x10,
        0x10 <= column_command(addr)[2] < 0x20,
        column_command(addr)[1] | ((column_command(addr)[2] & 0x0F) << 4u8) == addr,
{
    let lo = 0x0F & addr;
    let hi = 0x10 | (0x0F & (addr >> 4));
    assert(lo < 0x10 && 0x10 <= hi < 0x20 && lo | ((hi & 0x0F) << 4u8) == addr) by (bit_vector)
        requires
            lo == 0x0F & addr,
            hi == 0x10 | (0x0F & (addr >> 4)),
    ;
}

/// For each of the eight pages, the page command that `set_row` sends is a "page start"
/// command (0xB0-0xB7) that names that page, and the command after it is the column command
/// for column 0.
pub proof fn lemma_page_command_encodes(page: u8)
    requires
        page < 8,
    ensures
        0xB0 <= page_command(page)[1] <= 0xB7,
        page_command(page)[1] & 0x07 == page,
        column_zero_command() == column_command(0),
{
    assert(0x0Fu8 & 0u8 == 0u8 && 0x10u8 | (0x0Fu8 & (0u8 >> 4u8)) == 0x10u8) by (bit_vector);
    assert(column_zero_command() =~= column_command(0));
    let c = 0xB0 | page;
    assert(0xB0 <= c <= 0xB7 && c & 0x07 == page) by (bit_vector)
        requires
            c == 0xB0 | page,
            page < 8,
    ;
}

/// The bytes that a sequence of transactions writes into display memory: the payloads of its
/// data transactions (those that start with the data control byte 0x40), in order.
pub open spec fn data_bytes(s: Seq<Seq<u8>>) -> Seq<u8>
    decreases s.len(),
{
    if s.len() == 0 {
        Seq::empty()
    } else {
        data_bytes(s.drop_last()) + (if s.last().len() > 0 && s.last()[0] == 0x40 {
            s.last().drop_first()
        } else {
            Seq::empty()
        })
    }
}

proof fn lemma_data_bytes_concat(a: Seq<Seq<u8>>, b: Seq<Seq<u8>>)
    ensures
        data_bytes(a + b) == data_bytes(a) + data_bytes(b),
    decreases b.len(),
{
    if b.len() == 0 {
        assert(a + b =~= a);
        assert(data_bytes(a) + data_bytes(b) =~= data_bytes(a));
    } else {
        lemma_data_bytes_concat(a, b.drop_last());
        assert((a + b).drop_last() =~= a + b.drop_last());
        assert((a + b).last() == b.last());
        assert(data_bytes(a + b) =~= data_bytes(a) + data_bytes(b));
    }
}

proof fn lemma_zero_runs(n: nat)
    requires
        n <= 16,
    ensures
        data_bytes(Seq::new(n, |i: int| data_transaction(Seq::new(8, |j: int| 0u8))))
            =~= Seq::new(8 * n, |j: int| 0u8),
    decreases n,
{
    let s = Seq::new(n, |i: int| data_transaction(Seq::new(8, |j: int| 0u8)));
    if n > 0 {
        lemma_zero_runs((n - 1) as nat);
        assert(s.drop_last() =~= Seq::new((n - 1) as nat, |i: int| data_transaction(Seq::new(8, |j: int| 0u8))));
        assert(s.last()[0] == 0x40);
        assert(s.last().drop_first() =~= Seq::new(8, |j: int| 0u8));
    }
}

/// `clear` blanks the whole 128x32 panel: it has one block of transactions for each of the
/// four eight-pixel pages, and the block for page `p` selects page `p`, goes to column 0 and
/// then writes 128 zero bytes, one per column.
pub proof fn lemma_clear_blanks_every_page(p: int)
    requires
        0 <= p < 4,
    ensures
        clear_transactions(4).len() == 4 * 19,
        clear_transactions(4).subrange(19 * p, 19 * p + 19) == clear_page_transactions(p as u8),
        clear_page_transactions(p as u8)[0] == page_command(p as u8),
        clear_page_transactions(p as u8)[2] == column_command(0),
        data_bytes(clear_page_transactions(p as u8)) == Seq::new(128, |j: int| 0u8),
{
    let head = seq![page_command(p as u8), column_zero_command(), column_command(0)];
    let runs = Seq::new(16, |i: int| data_transaction(Seq::new(8, |j: int| 0u8)));
    lemma_data_bytes_concat(head, runs);
    assert(data_bytes(head) =~= Seq::empty()) by {
        let h1 = head.drop_last();
        let h2 = h1.drop_last();
        let h3 = h2.drop_last();
        assert(h3.len() == 0);
        assert(data_bytes(h3) =~= Seq::empty());
        assert(h2.last() == page_command(p as u8));
        assert(data_bytes(h2) =~= Seq::empty());
        assert(h1.last() == column_zero_command());
        assert(data_bytes(h1) =~= Seq::empty());
        assert(head.last() == column_command(0));
    }
    lemma_zero_runs(16);
    assert(data_bytes(clear_page_transactions(p as u8)) =~= Seq::new(128, |j: int| 0u8));
    assert(clear_transactions(0) == Seq::<Seq<u8>>::empty());
    assert(clear_transactions(1) =~= clear_page_transactions(0));
    assert(clear_transactions(2) =~= clear_transactions(1) + clear_page_transactions(1));
    assert(clear_transactions(3) =~= clear_transactions(2) + clear_page_transactions(2));
    assert(clear_transactions(4) =~= clear_transactions(3) + clear_page_transactions(3));
    assert(clear_transactions(4).subrange(19 * p, 19 * p + 19) =~= clear_page_transactions(p as u8));
}

} // verus!
