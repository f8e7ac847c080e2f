use keypad_calc::calculator::{decimal_digits, show_number, Calculator};
use keypad_calc::ssd1306::{DisplaySize128x32, Ssd1306};

fn digit_key(d: u8) -> (u8, u8) {
    if d == 0 {
        (1, 3)
    } else {
        ((d - 1) % 3, (d - 1) / 3)
    }
}

fn enter(c: &mut Calculator, n: &str) {
    for ch in n.bytes() {
        let key = digit_key(ch - b'0');
        assert!(c.can_press(key));
        assert!(!c.press(key));
    }
}

#[test]
fn digits_are_entered_most_significant_first() {
    let mut c = Calculator::new();
    enter(&mut c, "205");
    assert_eq!((c.op1, c.op2), (205, 0));
}

#[test]
fn every_digit_key() {
    for d in 0..10u8 {
        let mut c = Calculator::new();
        enter(&mut c, "1");
        let key = digit_key(d);
        c.press(key);
        assert_eq!(c.op1, 10 + d);
    }
}

#[test]
fn store_add_subtract_reset() {
    let mut c = Calculator::new();
    enter(&mut c, "12");
    assert!(c.press((2, 3)));
    assert_eq!((c.op1, c.op2), (0, 12));
    enter(&mut c, "30");
    assert!(c.press((3, 0)));
    assert_eq!((c.op1, c.op2), (42, 42));
    assert!(!c.can_press(digit_key(2)));
    assert!(c.press((2, 3)));
    enter(&mut c, "40");
    assert!(c.press((3, 1)));
    assert_eq!((c.op1, c.op2), (2, 2));
}

#[test]
fn subtract_and_clear() {
    let mut c = Calculator { op1: 5, op2: 12 };
    assert!(c.can_press((3, 1)));
    assert!(c.press((3, 1)));
    assert_eq!((c.op1, c.op2), (7, 7));
    assert!(c.press((3, 2)));
    assert_eq!((c.op1, c.op2), (0, 0));
}

#[test]
fn other_keys_only_clear() {
    let mut c = Calculator { op1: 5, op2: 12 };
    for key in [(0, 3), (3, 3)] {
        assert!(c.press(key));
        assert_eq!((c.op1, c.op2), (5, 12));
    }
}

#[test]
fn overflow_is_detected() {
    let c = Calculator { op1: 26, op2: 0 };
    assert!(!c.can_press(digit_key(0)));
    let c = Calculator { op1: 25, op2: 0 };
    assert!(c.can_press(digit_key(5)));
    assert!(!c.can_press(digit_key(6)));
    let c = Calculator { op1: 200, op2: 100 };
    assert!(!c.can_press((3, 0)));
    let c = Calculator { op1: 13, op2: 12 };
    assert!(!c.can_press((3, 1)));
    assert!(c.can_press((3, 2)));
}

#[test]
fn decimal_text() {
    assert_eq!(decimal_digits(0), b"0".to_vec());
    assert_eq!(decimal_digits(7), b"7".to_vec());
    assert_eq!(decimal_digits(10), b"10".to_vec());
    assert_eq!(decimal_digits(255), b"255".to_vec());
    for n in 0..=255u8 {
        let t = decimal_digits(n);
        let v = t.iter().fold(0u32, |acc, &d| acc * 10 + (d - b'0') as u32);
        assert_eq!(v, n as u32);
        assert_eq!(String::from_utf8(t).unwrap(), n.to_string());
    }
}

fn glyphs() -> Vec<Vec<u8>> {
    (0..10u8).map(|d| vec![d, d + 100, 0xFF]).collect()
}

#[test]
fn show_number_draws_glyphs_with_gaps() {
    let mut d = Ssd1306::new(DisplaySize128x32);
    d.take_writes();
    show_number(&mut d, 42, &glyphs());
    let w: Vec<Vec<u8>> = d.take_writes().into_iter().map(|x| x.bytes).collect();
    assert_eq!(
        w,
        vec![
            vec![0, 0xB2],
            vec![0, 0, 0x10],
            vec![0x40, 4, 104, 0xFF],
            vec![0x40, 0],
            vec![0x40, 2, 102, 0xFF],
            vec![0x40, 0],
        ]
    );
}

#[test]
fn show_zero_draws_one_glyph() {
    let mut d = Ssd1306::new(DisplaySize128x32);
    d.take_writes();
    show_number(&mut d, 0, &glyphs());
    let w: Vec<Vec<u8>> = d.take_writes().into_iter().map(|x| x.bytes).collect();
    assert_eq!(w, vec![vec![0, 0xB2], vec![0, 0, 0x10], vec![0x40, 0, 100, 0xFF]]);
}

#[test]
fn on_key_clears_only_for_commands() {
    let mut d = Ssd1306::new(DisplaySize128x32);
    d.take_writes();
    let mut c = Calculator::new();
    c.on_key(digit_key(3), &mut d);
    assert!(d.take_writes().is_empty());
    c.on_key((2, 3), &mut d);
    assert_eq!(d.take_writes().len(), 76);
    assert_eq!((c.op1, c.op2), (0, 3));
}
