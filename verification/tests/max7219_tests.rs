use keypad_calc::max7219::{rev_bits, set_column, set_pixel, SpiAction, MAX7219};

fn run_all_ok(d: &mut MAX7219) -> Vec<(u8, u8)> {
    let mut out = Vec::new();
    let mut ok = true;
    loop {
        match d.step(ok) {
            SpiAction::Write(a, v) => {
                out.push((a, v));
                ok = true;
            }
            SpiAction::Finished => return out,
            SpiAction::Failed => panic!("unexpected failure"),
        }
    }
}

#[test]
fn rev_bits_single_bits() {
    for i in 0..8u32 {
        assert_eq!(rev_bits(1u8 << i), 1u8 << (7 - i));
    }
}

#[test]
fn rev_bits_examples() {
    assert_eq!(rev_bits(0x00), 0x00);
    assert_eq!(rev_bits(0xFF), 0xFF);
    assert_eq!(rev_bits(0xF0), 0x0F);
    assert_eq!(rev_bits(0b1011_0010), 0b0100_1101);
    assert_eq!(rev_bits(0b0000_0110), 0b0110_0000);
}

#[test]
fn rev_bits_twice_is_identity() {
    for x in 0..=255u8 {
        assert_eq!(rev_bits(rev_bits(x)), x);
        assert_eq!(rev_bits(x), x.reverse_bits());
    }
}

#[test]
fn set_column_writes_one_byte() {
    let mut grid = [1u8, 2, 3, 4];
    set_column(2, 0xAA, &mut grid);
    assert_eq!(grid, [1, 2, 0xAA, 4]);
}

#[test]
fn set_pixel_sets_and_clears_one_bit() {
    let mut grid = [0u8; 8];
    set_pixel(3, 0, true, &mut grid);
    set_pixel(3, 7, true, &mut grid);
    assert_eq!(grid[3], 0b1000_0001);
    set_pixel(3, 0, false, &mut grid);
    assert_eq!(grid[3], 0b1000_0000);
    set_pixel(3, 7, true, &mut grid);
    assert_eq!(grid[3], 0b1000_0000);
    assert_eq!(grid[2], 0);
    assert_eq!(grid[4], 0);
    let mut full = [0xFFu8; 2];
    set_pixel(1, 4, false, &mut full);
    assert_eq!(full, [0xFF, 0xEF]);
}

#[test]
fn new_initialises_then_clears() {
    let mut d = MAX7219::new();
    let writes = run_all_ok(&mut d);
    let mut expected = vec![(0x09, 0), (0x0A, 1), (0x0B, 0x07), (0x0C, 0x01), (0x0F, 0x00)];
    for i in 0..8u8 {
        expected.push((i + 1, 0));
    }
    assert_eq!(writes, expected);
}

#[test]
fn init_sequence() {
    let mut d = MAX7219::new();
    d.init();
    assert_eq!(run_all_ok(&mut d), vec![(0x09, 0), (0x0A, 1), (0x0B, 0x07), (0x0C, 0x01), (0x0F, 0x00)]);
}

#[test]
fn set_row_uses_next_register() {
    let mut d = MAX7219::new();
    d.set_row(0, 0x55);
    assert_eq!(run_all_ok(&mut d), vec![(1, 0x55)]);
    d.set_row(7, 0x81);
    assert_eq!(run_all_ok(&mut d), vec![(8, 0x81)]);
}

#[test]
fn set_pic_reverses_each_row() {
    let mut d = MAX7219::new();
    d.set_pic([0x01, 0x02, 0x04, 0x08, 0x10, 0x20, 0x40, 0x80]);
    assert_eq!(
        run_all_ok(&mut d),
        vec![(1, 0x80), (2, 0x40), (3, 0x20), (4, 0x10), (5, 0x08), (6, 0x04), (7, 0x02), (8, 0x01)]
    );
}

#[test]
fn clear_blanks_all_rows() {
    let mut d = MAX7219::new();
    d.clear();
    let w = run_all_ok(&mut d);
    assert_eq!(w, (1..=8u8).map(|r| (r, 0u8)).collect::<Vec<_>>());
}

#[test]
fn batch_stops_at_first_failure() {
    let mut d = MAX7219::new();
    d.init();
    assert_eq!(d.step(true), SpiAction::Write(0x09, 0));
    assert_eq!(d.step(true), SpiAction::Write(0x0A, 1));
    assert_eq!(d.step(false), SpiAction::Failed);
    assert_eq!(d.step(true), SpiAction::Failed);
}

#[test]
fn failure_of_last_write_is_reported() {
    let mut d = MAX7219::new();
    d.set_row(2, 9);
    assert_eq!(d.step(true), SpiAction::Write(3, 9));
    assert_eq!(d.step(false), SpiAction::Failed);
}

#[test]
fn finished_batch_stays_finished() {
    let mut d = MAX7219::new();
    d.set_row(0, 1);
    assert_eq!(d.step(true), SpiAction::Write(1, 1));
    assert_eq!(d.step(true), SpiAction::Finished);
    assert_eq!(d.step(false), SpiAction::Finished);
}
