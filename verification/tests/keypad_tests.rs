use keypad_calc::keypad::{KeypadAction, KEYPAD4X4};

/// A simulated keypad: `drive_ok[c]` says whether column `c` can be driven low,
/// `pressed[c][r]` how many extra reads row `r` stays low under column `c` (None: not pressed).
struct Pins {
    drive_ok: [bool; 4],
    pressed: [[Option<u32>; 4]; 4],
    holds: [[u32; 4]; 4],
    low_column: Option<u8>,
    log: Vec<KeypadAction>,
}

impl Pins {
    fn new(drive_ok: [bool; 4], pressed: [[Option<u32>; 4]; 4]) -> Pins {
        Pins { drive_ok, pressed, holds: [[0; 4]; 4], low_column: None, log: Vec::new() }
    }

    fn scan(&mut self, k: &mut KEYPAD4X4) -> Option<(u8, u8)> {
        let mut outcome = true;
        for _ in 0..1000 {
            let a = k.read_position(outcome);
            self.log.push(a);
            match a {
                KeypadAction::DriveLow(c) => {
                    outcome = self.drive_ok[c as usize];
                    if outcome {
                        self.low_column = Some(c);
                    }
                }
                KeypadAction::ReadRow(r) => {
                    let c = self.low_column.unwrap() as usize;
                    outcome = match self.pressed[c][r as usize] {
                        None => false,
                        Some(extra) => {
                            let seen = self.holds[c][r as usize];
                            self.holds[c][r as usize] += 1;
                            seen <= extra
                        }
                    };
                }
                KeypadAction::DriveHigh(_) => {
                    self.low_column = None;
                    outcome = true;
                }
                KeypadAction::Done(p) => return p,
            }
        }
        panic!("scan did not finish");
    }
}

const NONE: [[Option<u32>; 4]; 4] = [[None; 4]; 4];

#[test]
fn no_key_gives_none() {
    let mut k = KEYPAD4X4::new();
    let mut pins = Pins::new([true; 4], NONE);
    assert_eq!(pins.scan(&mut k), None);
    let reads = pins.log.iter().filter(|a| matches!(a, KeypadAction::ReadRow(_))).count();
    assert_eq!(reads, 16);
}

#[test]
fn single_key_gives_its_position() {
    for c in 0..4usize {
        for r in 0..4usize {
            let mut pressed = NONE;
            pressed[c][r] = Some(0);
            let mut k = KEYPAD4X4::new();
            let mut pins = Pins::new([true; 4], pressed);
            assert_eq!(pins.scan(&mut k), Some((r as u8, c as u8)));
        }
    }
}

#[test]
fn held_key_is_read_until_released() {
    let mut pressed = NONE;
    pressed[1][2] = Some(5);
    let mut k = KEYPAD4X4::new();
    let mut pins = Pins::new([true; 4], pressed);
    assert_eq!(pins.scan(&mut k), Some((2, 1)));
    let reads = pins.log.iter().filter(|a| matches!(a, KeypadAction::ReadRow(2))).count();
    // four columns read row 2 once, plus six more reads while the key is held
    assert_eq!(reads, 4 + 6);
}

#[test]
fn two_keys_give_none() {
    let mut pressed = NONE;
    pressed[0][0] = Some(0);
    pressed[3][3] = Some(0);
    let mut k = KEYPAD4X4::new();
    let mut pins = Pins::new([true; 4], pressed);
    assert_eq!(pins.scan(&mut k), None);
}

#[test]
fn failed_column_is_skipped_and_not_counted() {
    let mut pressed = NONE;
    pressed[2][1] = Some(0);
    pressed[1][1] = Some(0);
    let mut k = KEYPAD4X4::new();
    let mut pins = Pins::new([true, false, true, true], pressed);
    // column 1 cannot be driven, so its key is not seen; column 2 is reported as column number 1
    assert_eq!(pins.scan(&mut k), Some((1, 1)));
    assert!(!pins.log.contains(&KeypadAction::DriveHigh(1)));
}

#[test]
fn scanner_can_scan_again() {
    let mut pressed = NONE;
    pressed[3][0] = Some(0);
    let mut k = KEYPAD4X4::new();
    let mut pins = Pins::new([true; 4], pressed);
    assert_eq!(pins.scan(&mut k), Some((0, 3)));
    let mut pins = Pins::new([true; 4], NONE);
    assert_eq!(pins.scan(&mut k), None);
}

#[test]
fn scan_action_order() {
    let mut k = KEYPAD4X4::new();
    assert_eq!(k.read_position(true), KeypadAction::DriveLow(0));
    assert_eq!(k.read_position(true), KeypadAction::ReadRow(0));
    assert_eq!(k.read_position(false), KeypadAction::ReadRow(1));
    assert_eq!(k.read_position(false), KeypadAction::ReadRow(2));
    assert_eq!(k.read_position(false), KeypadAction::ReadRow(3));
    assert_eq!(k.read_position(false), KeypadAction::DriveHigh(0));
    assert_eq!(k.read_position(false), KeypadAction::DriveLow(1));
    assert_eq!(k.read_position(false), KeypadAction::DriveLow(2));
    assert_eq!(k.read_position(false), KeypadAction::DriveLow(3));
    assert_eq!(k.read_position(false), KeypadAction::Done(None));
}
