use keypad_calc::ssd1306::{AddrMode, DisplaySize, DisplaySize128x32, I2cWrite, Ssd1306};

fn bytes(w: &[I2cWrite]) -> Vec<Vec<u8>> {
    for x in w {
        assert_eq!(x.address, 0x3C);
    }
    w.iter().map(|x| x.bytes.clone()).collect()
}

fn init_seq() -> Vec<Vec<u8>> {
    vec![
        vec![0, 0xAE],
        vec![0, 0xD5, 0x80],
        vec![0, 0xA8, 31],
        vec![0, 0xD3, 0],
        vec![0, 0x40],
        vec![0, 0x8D, 0x14],
        vec![0, 0x20, 0],
        vec![0, 0xDA, 0x02],
        vec![0, 0xA1],
        vec![0, 0xC8],
        vec![0, 0xD9, 0x12],
        vec![0, 0x81, 0x5F],
        vec![0, 0xDB, 0x40],
        vec![0, 0xAF],
        vec![0, 0x21, 0, 127],
        vec![0, 0x22, 0, 31],
    ]
}

#[test]
fn display_size_constants() {
    assert_eq!(<DisplaySize128x32 as DisplaySize>::WIDTH, 128);
    assert_eq!(<DisplaySize128x32 as DisplaySize>::HEIGHT, 32);
}

#[test]
fn addr_mode_codes() {
    assert_eq!(AddrMode::Horizontal.code(), 0b00);
    assert_eq!(AddrMode::Vertical.code(), 0b01);
    assert_eq!(AddrMode::Page.code(), 0b10);
}

#[test]
fn new_sends_init_sequence() {
    let mut d = Ssd1306::new(DisplaySize128x32);
    let w = d.take_writes();
    assert_eq!(bytes(&w), init_seq());
    assert!(d.take_writes().is_empty());
}

#[test]
fn init_again_resends() {
    let mut d = Ssd1306::new(DisplaySize128x32);
    d.take_writes();
    assert!(d.init());
    assert_eq!(bytes(&d.take_writes()), init_seq());
}

#[test]
fn set_column_splits_nibbles() {
    let mut d = Ssd1306::new(DisplaySize128x32);
    d.take_writes();
    assert!(d.set_column(0x2A));
    assert!(d.set_column(0));
    assert!(d.set_column(127));
    assert_eq!(bytes(&d.take_writes()), vec![vec![0, 0x0A, 0x12], vec![0, 0x00, 0x10], vec![0, 0x0F, 0x17]]);
}

#[test]
fn set_column_decodes_back() {
    let mut d = Ssd1306::new(DisplaySize128x32);
    for addr in 0..=255u8 {
        d.take_writes();
        d.set_column(addr);
        let w = d.take_writes();
        let b = &w[0].bytes;
        assert!(b[1] < 0x10 && (0x10..0x20).contains(&b[2]));
        assert_eq!(b[1] | ((b[2] & 0x0F) << 4), addr);
    }
}

#[test]
fn set_row_selects_page_and_column_zero() {
    let mut d = Ssd1306::new(DisplaySize128x32);
    d.take_writes();
    assert!(d.set_row(3));
    assert_eq!(bytes(&d.take_writes()), vec![vec![0, 0xB3], vec![0, 0x00, 0x10]]);
    for page in 0..8u8 {
        d.set_row(page);
        let w = d.take_writes();
        assert_eq!(w[0].bytes[1] & 0x07, page);
        assert!((0xB0..=0xB7).contains(&w[0].bytes[1]));
    }
}

#[test]
fn draw_prefixes_data_byte() {
    let mut d = Ssd1306::new(DisplaySize128x32);
    d.take_writes();
    assert!(d.draw(&[1, 2, 3]));
    assert!(d.draw(&[]));
    let long = [7u8; 63];
    assert!(d.draw(&long));
    let w = bytes(&d.take_writes());
    assert_eq!(w[0], vec![0x40, 1, 2, 3]);
    assert_eq!(w[1], vec![0x40]);
    assert_eq!(w[2].len(), 64);
    assert_eq!(w[2][0], 0x40);
    assert!(w[2][1..].iter().all(|&b| b == 7));
}

#[test]
fn clear_blanks_every_page() {
    let mut d = Ssd1306::new(DisplaySize128x32);
    d.take_writes();
    d.clear();
    let w = bytes(&d.take_writes());
    assert_eq!(w.len(), 4 * 19);
    let mut zero_bytes = 0;
    for p in 0..4u8 {
        let block = &w[19 * p as usize..19 * p as usize + 19];
        assert_eq!(block[0], vec![0, 0xB0 | p]);
        assert_eq!(block[1], vec![0, 0x00, 0x10]);
        assert_eq!(block[2], vec![0, 0x00, 0x10]);
        for t in &block[3..] {
            assert_eq!(t, &vec![0x40, 0, 0, 0, 0, 0, 0, 0, 0]);
            zero_bytes += t.len() - 1;
        }
    }
    assert_eq!(zero_bytes, 128 * 32 / 8);
}
