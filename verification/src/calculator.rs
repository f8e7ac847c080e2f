use vstd::prelude::*;
use crate::ssd1306::{
    DisplaySize, Ssd1306, to_display, to_display_all, page_command, column_zero_command,
    data_transaction, clear_transactions,
};

verus! {

/// A key that enters one of the digits 1 to 9: rows 0 to 2 of columns 0 to 2.
pub open spec fn is_digit_key(key: (u8, u8)) -> bool {
    key.0 < 3 && key.1 < 3
}

/// The digit entered by a digit key.
pub open spec fn digit_of(key: (u8, u8)) -> int {
    1 + key.1 * 3 + key.0
}

/// The key that enters the digit 0: row 1 of column 3.
pub open spec fn is_zero_key(key: (u8, u8)) -> bool {
    key.1 == 3 && key.0 == 1
}

/// A two-register calculator on 8-bit numbers: `op1` is the number being entered and shown,
/// `op2` the stored operand.
pub struct Calculator {
    pub op1: u8,
    pub op2: u8,
}

/// The arithmetic of a key press stays within 8 bits (the original overflows otherwise).
pub open spec fn press_ok(c: Calculator, key: (u8, u8)) -> bool {
    if is_digit_key(key) {
        c.op1 * 10 + digit_of(key) <= 255
    } else if is_zero_key(key) {
        c.op1 * 10 <= 255
    } else if key == (3u8, 0u8) {
        c.op2 + c.op1 <= 255
    } else if key == (3u8, 1u8) {
        c.op2 >= c.op1
    } else {
        true
    }
}

/// The registers after a key press.
///
/// Digits are entered most significant first. `#` (row 2 of column 3) stores the entered
/// number and starts a new one; `A` (row 3 of column 0) adds the entered number to the
/// stored one, `B` (row 3 of column 1) subtracts it, and both show the result; `C` (row 3
/// of column 2) resets both registers. Other keys change nothing.
pub open spec fn press_spec(c: Calculator, key: (u8, u8)) -> Calculator {
    if is_digit_key(key) {
        Calculator { op1: (c.op1 * 10 + digit_of(key)) as u8, op2: c.op2 }
    } else if is_zero_key(key) {
        Calculator { op1: (c.op1 * 10) as u8, op2: c.op2 }
    } else if key == (2u8, 3u8) {
        Calculator { op1: 0, op2: c.op1 }
    } else if key == (3u8, 0u8) {
        Calculator { op1: (c.op2 + c.op1) as u8, op2: (c.op2 + c.op1) as u8 }
    } else if key == (3u8, 1u8) {
        Calculator { op1: (c.op2 - c.op1) as u8, op2: (c.op2 - c.op1) as u8 }
    } else if key == (3u8, 2u8) {
        Calculator { op1: 0, op2: 0 }
    } else {
        c
    }
}

/// The decimal digits of a positive number as ASCII, most significant first (none for 0).
pub open spec fn digits_pos(n: nat) -> Seq<u8>
    decreases n,
{
    if n == 0 {
        Seq::empty()
    } else {
        digits_pos(n / 10).push((n % 10 + 0x30) as u8)
    }
}

/// The decimal text of a number as ASCII.
pub open spec fn number_text(n: nat) -> Seq<u8> {
    if n == 0 {
        seq![0x30u8]
    } else {
        digits_pos(n)
    }
}

/// The number that a string of ASCII decimal digits denotes.
pub open spec fn decimal_value(s: Seq<u8>) -> int
    decreases s.len(),
{
    if s.len() == 0 {
        0
    } else {
        decimal_value(s.drop_last()) * 10 + (s.last() - 0x30)
    }
}

/// The display writes that show the ASCII digit string `text`: each glyph followed by one
/// blank column.
pub open spec fn glyph_transactions(text: Seq<u8>, glyphs: Seq<Seq<u8>>) -> Seq<Seq<u8>>
    decreases text.len(),
{
    if text.len() == 0 {
        Seq::empty()
    } else {
        glyph_transactions(text.drop_last(), glyphs).push(
            data_transaction(glyphs[text.last() - 0x30]),
        ).push(data_transaction(seq![0u8]))
    }
}

/// The display writes that show `n` on page 2: the number's glyphs with a blank column after
/// each, or the glyph of 0 alone when `n` is 0.
pub open spec fn number_transactions(n: u8, glyphs: Seq<Seq<u8>>) -> Seq<Seq<u8>> {
    seq![page_command(2), column_zero_command()] + if n == 0 {
        seq![data_transaction(glyphs[0])]
    } else {
        glyph_transactions(digits_pos(n as nat), glyphs)
    }
}

/// The glyph table can be drawn: one glyph per digit, each short enough for one transaction.
pub open spec fn glyphs_ok(glyphs: Seq<Seq<u8>>) -> bool {
    &&& glyphs.len() == 10
    &&& forall|d: int| 0 <= d < 10 ==> #[trigger] glyphs[d].len() < 64
}

impl Calculator {
    /// Both registers at 0.
    pub fn new() -> (c: Calculator)
        ensures
            c.op1 == 0 && c.op2 == 0,
    {
        Calculator { op1: 0, op2: 0 }
    }

    /// Whether `press(key)` stays within 8-bit arithmetic.
    pub fn can_press(&self, key: (u8, u8)) -> (b: bool)
        ensures
            b == press_ok(*self, key),
            is_digit_key(key) ==> (b <==> self.op1 * 10 + digit_of(key) <= 255),
            is_zero_key(key) ==> (b <==> self.op1 * 10 <= 255),
            key == (3u8, 0u8) ==> (b <==> self.op2 + self.op1 <= 255),
            key == (3u8, 1u8) ==> (b <==> self.op2 - self.op1 >= 0),
            !(is_digit_key(key) || is_zero_key(key) || key == (3u8, 0u8) || key == (3u8, 1u8)) ==> b,
    {
        if key.0 < 3 && key.1 < 3 {
            (self.op1 as u32) * 10 + 1 + (key.1 as u32) * 3 + (key.0 as u32) <= 255
        } else if key.1 == 3 && key.0 == 1 {
            (self.op1 as u32) * 10 <= 255
        } else if key.0 == 3 && key.1 == 0 {
            (self.op2 as u32) + (self.op1 as u32) <= 255
        } else if key.0 == 3 && key.1 == 1 {
            self.op2 >= self.op1
        } else {
            true
        }
    }

    /// Applies a key press; the result tells whether the display has to be cleared (after
    /// every key that is not a digit).
    pub fn press(&mut self, key: (u8, u8)) -> (clear: bool)
        requires
            press_ok(*old(self), key),
        ensures
            *final(self) == press_spec(*old(self), key),
            clear == !(is_digit_key(key) || is_zero_key(key)),
            is_digit_key(key) ==> final(self).op1 == old(self).op1 * 10 + digit_of(key) && final(self).op2
                == old(self).op2,
            is_zero_key(key) ==> final(self).op1 == old(self).op1 * 10 && final(self).op2 == old(self).op2,
            key == (2u8, 3u8) ==> final(self).op1 == 0 && final(self).op2 == old(self).op1,
            key == (3u8, 0u8) ==> final(self).op1 == old(self).op2 + old(self).op1 && final(self).op2
                == final(self).op1,
            key == (3u8, 1u8) ==> final(self).op1 == old(self).op2 - old(self).op1 && final(self).op2
                == final(self).op1,
            key == (3u8, 2u8) ==> final(self).op1 == 0 && final(self).op2 == 0,
            !(is_digit_key(key) || is_zero_key(key) || key == (2u8, 3u8) || key == (3u8, 0u8) || key == (
                3u8,
                1u8,
            ) || key == (3u8, 2u8)) ==> *final(self) == *old(self),
    {
        let con_numeric = (key.0 < 3) && (key.1 < 3);
        if con_numeric || ((key.1 == 3) && (key.0 == 1)) {
            self.op1 = self.op1 * 10;
            if con_numeric {
                self.op1 = self.op1 + (1 + key.1 * 3 + key.0);
            }
            false
        } else {
            if key.0 == 2 && key.1 == 3 {
                self.op2 = self.op1;
                self.op1 = 0;
            } else if key.0 == 3 && key.1 == 0 {
                self.op2 = self.op2 + self.op1;
                self.op1 = self.op2;
            } else if key.0 == 3 && key.1 == 1 {
                self.op2 = self.op2 - self.op1;
                self.op1 = self.op2;
            } else if key.0 == 3 && key.1 == 2 {
                self.op2 = 0;
                self.op1 = 0;
            }
            true
        }
    }

    /// Applies a key press and clears the display when the key asks for it.
    pub fn on_key<SIZE: DisplaySize>(&mut self, key: (u8, u8), disp: &mut Ssd1306<SIZE>)
        requires
            press_ok(*old(self), key),
        ensures
            *final(self) == press_spec(*old(self), key),
            final(disp).written() == if is_digit_key(key) || is_zero_key(key) {
                old(disp).written()
            } else {
                old(disp).written() + to_display_all(clear_transactions(4))
            },
    {
        if self.press(key) {
            disp.clear();
        }
    }
}

/// The decimal text of `n` as ASCII digits, most significant first.
pub fn decimal_digits(n: u8) -> (t: Vec<u8>)
    ensures
        t@ == number_text(n as nat),
        decimal_value(t@) == n,
        is_decimal_numeral(t@),
{
    proof {
        lemma_number_text_value(n as nat);
        lemma_number_text_canonical(n as nat);
    }
    if n == 0 {
        let t = vec![0x30u8];
        assert(t@ =~= number_text(0));
        return t;
    }
    let mut stack: [u8; 10] = [0; 10];
    let mut opout: u8 = n;
    let mut ii: u8 = 0;
    while opout > 0
        invariant
            ii <= 3,
            ii == 0 ==> opout == n,
            ii == 1 ==> opout <= 25,
            ii == 2 ==> opout <= 2,
            ii == 3 ==> opout == 0,
            digits_pos(n as nat) == digits_pos(opout as nat) + stack@.take(ii as int).reverse(),
        decreases opout,
    {
        let cp = (opout % 10) + 0x30;
        proof {
            assert(digits_pos(opout as nat) == digits_pos((opout / 10) as nat).push(cp));
        }
        opout = opout / 10;
        stack[ii as usize] = cp;
        ii = ii + 1;
        assert(stack@.take(ii as int).reverse() =~= seq![cp] + stack@.take(ii - 1).reverse());
        assert(digits_pos(n as nat) =~= digits_pos(opout as nat) + stack@.take(ii as int).reverse());
    }
    assert(digits_pos(0) == Seq::<u8>::empty());
    let mut t: Vec<u8> = Vec::new();
    let mut i: u8 = ii;
    while i > 0
        invariant
            i <= ii <= 3,
            t@ == stack@.take(ii as int).reverse().take(ii - i),
        decreases i,
    {
        i = i - 1;
        t.push(stack[i as usize]);
        assert(t@ =~= stack@.take(ii as int).reverse().take(ii - i));
    }
    assert(t@ =~= digits_pos(n as nat));
    t
}

/// Every number reads back from its decimal text.
pub proof fn lemma_number_text_value(n: nat)
    ensures
        decimal_value(number_text(n)) == n,
{
    if n == 0 {
        assert(seq![0x30u8].drop_last() =~= Seq::<u8>::empty());
        assert(decimal_value(Seq::<u8>::empty()) == 0);
    } else {
        lemma_digits_pos_value(n);
    }
}

proof fn lemma_digits_pos_value(n: nat)
    ensures
        decimal_value(digits_pos(n)) == n,
    decreases n,
{
    if n > 0 {
        lemma_digits_pos_value(n / 10);
        let s = digits_pos(n);
        assert(s.drop_last() =~= digits_pos(n / 10));
    }
}

proof fn lemma_digits_are_ascii(n: nat)
    ensures
        forall|i: int| 0 <= i < digits_pos(n).len() ==> 0x30 <= #[trigger] digits_pos(n)[i] <= 0x39,
    decreases n,
{
    if n > 0 {
        lemma_digits_are_ascii(n / 10);
        let s = digits_pos(n);
        assert(s == digits_pos(n / 10).push((n % 10 + 0x30) as u8));
        assert forall|i: int| 0 <= i < s.len() implies 0x30 <= #[trigger] s[i] <= 0x39 by {
            if i < s.len() - 1 {
                assert(s[i] == digits_pos(n / 10)[i]);
            }
        }
    }
}

/// The contents of a glyph table, as plain values.
pub open spec fn glyph_views(glyphs: Seq<Vec<u8>>) -> Seq<Seq<u8>> {
    glyphs.map_values(|g: Vec<u8>| g@)
}

/// Shows `n` on page 2 of the display, starting at column 0, with `glyphs[d]` as the bitmap
/// of digit `d`.
pub fn show_number<SIZE: DisplaySize>(disp: &mut Ssd1306<SIZE>, n: u8, glyphs: &Vec<Vec<u8>>)
    requires
        glyphs_ok(glyph_views(glyphs@)),
    ensures
        final(disp).written() == old(disp).written() + to_display_all(
            number_transactions(n, glyph_views(glyphs@)),
        ),
        n != 0 ==> final(disp).written() == old(disp).written() + to_display_all(
            seq![page_command(2), column_zero_command()] + drawn_text(
                number_text(n as nat),
                glyph_views(glyphs@),
            ),
        ),
        n == 0 ==> final(disp).written() == old(disp).written() + to_display_all(
            seq![page_command(2), column_zero_command(), data_transaction(glyph_views(glyphs@)[0])],
        ),
{
    proof {
        lemma_glyph_transactions_interleave(number_text(n as nat), glyph_views(glyphs@));
    }
    let ghost gv = glyph_views(glyphs@);
    let ghost start = disp.written();
    disp.set_row(2);
    let ghost head = seq![page_command(2), column_zero_command()];
    assert(disp.written() =~= start + to_display_all(head));
    if n != 0 {
        let text = decimal_digits(n);
        proof {
            lemma_digits_are_ascii(n as nat);
        }
        let mut i: usize = 0;
        while i < text.len()
            invariant
                i <= text@.len(),
                text@ == digits_pos(n as nat),
                n != 0,
                gv == glyph_views(glyphs@),
                glyphs_ok(gv),
                forall|j: int| 0 <= j < text@.len() ==> 0x30 <= #[trigger] text@[j] <= 0x39,
                disp.written() == start + to_display_all(head + glyph_transactions(text@.take(i as int), gv)),
            decreases text@.len() - i,
        {
            let c = text[i];
            let d = (c - 0x30) as usize;
            assert(glyphs@[d as int]@ == gv[d as int]);
            disp.draw(glyphs[d].as_slice());
            let blank = [0u8];
            assert(blank@ =~= seq![0u8]);
            disp.draw(&blank);
            i = i + 1;
            assert(text@.take(i as int).drop_last() =~= text@.take(i - 1));
            assert(text@.take(i as int).last() == c);
            assert(glyph_transactions(text@.take(i as int), gv) == glyph_transactions(text@.take(i - 1), gv).push(
                data_transaction(gv[d as int]),
            ).push(data_transaction(seq![0u8])));
            assert(to_display_all(head + glyph_transactions(text@.take(i as int), gv)) =~= to_display_all(
                head + glyph_transactions(text@.take(i - 1), gv),
            ).push(to_display(data_transaction(gv[d as int]))).push(to_display(data_transaction(seq![0u8]))));
        }
        assert(text@.take(i as int) =~= text@);
        assert(number_transactions(n, gv) == head + glyph_transactions(text@, gv));
    } else {
        assert(glyphs@[0]@ == gv[0]);
        disp.draw(glyphs[0].as_slice());
        assert(to_display_all(number_transactions(n, gv)) =~= to_display_all(head).push(
            to_display(data_transaction(gv[0])),
        ));
    }
}

/// The display writes that show the ASCII digit string `text`, as a list: for each character
/// `text[k]` in order, its glyph (transaction `2k`) and then one blank column (transaction `2k + 1`).
pub open spec fn drawn_text(text: Seq<u8>, glyphs: Seq<Seq<u8>>) -> Seq<Seq<u8>> {
    Seq::new(
        2 * text.len(),
        |j: int|
            if j % 2 == 0 {
                data_transaction(glyphs[text[j / 2] - 0x30])
            } else {
                data_transaction(seq![0u8])
            },
    )
}

/// A canonical decimal numeral: at least one digit, only the ASCII digits `0` to `9`, and no
/// leading zero unless the numeral is `0` itself.
pub open spec fn is_decimal_numeral(t: Seq<u8>) -> bool {
    &&& t.len() > 0
    &&& forall|k: int| 0 <= k < t.len() ==> 0x30 <= #[trigger] t[k] <= 0x39
    &&& t.len() > 1 ==> t[0] != 0x30
}

/// Every character of the text is drawn, in order, each followed by one blank column: the
/// drawing has two transactions per character.
pub proof fn lemma_glyph_transactions_interleave(text: Seq<u8>, glyphs: Seq<Seq<u8>>)
    ensures
        glyph_transactions(text, glyphs) == drawn_text(text, glyphs),
        glyph_transactions(text, glyphs).len() == 2 * text.len(),
    decreases text.len(),
{
    if text.len() > 0 {
        let prev = text.drop_last();
        lemma_glyph_transactions_interleave(prev, glyphs);
        let d = drawn_text(text, glyphs);
        let e = drawn_text(prev, glyphs).push(data_transaction(glyphs[text.last() - 0x30])).push(
            data_transaction(seq![0u8]),
        );
        assert forall|j: int| 0 <= j < d.len() implies #[trigger] d[j] == e[j] by {
            if j < 2 * prev.len() {
                assert(j / 2 < prev.len());
                assert(prev[j / 2] == text[j / 2]);
            } else if j == 2 * prev.len() {
                assert(j / 2 == prev.len());
            } else {
                assert(j % 2 == 1);
            }
        }
        assert(d =~= e);
    }
}

proof fn lemma_digits_pos_canonical(n: nat)
    ensures
        n > 0 ==> digits_pos(n).len() > 0 && digits_pos(n)[0] != 0x30,
    decreases n,
{
    if n > 0 {
        lemma_digits_pos_canonical(n / 10);
        let s = digits_pos(n);
        if n / 10 == 0 {
            assert(digits_pos(n / 10) == Seq::<u8>::empty());
            assert(s[0] == (n % 10 + 0x30) as u8);
            assert(n % 10 == n);
        } else {
            assert(s[0] == digits_pos(n / 10)[0]);
        }
    }
}

/// The decimal text of every number is a canonical numeral; with `lemma_number_text_value`,
/// it is the one numeral that denotes the number.
pub proof fn lemma_number_text_canonical(n: nat)
    ensures
        is_decimal_numeral(number_text(n)),
{
    if n > 0 {
        lemma_digits_are_ascii(n);
        lemma_digits_pos_canonical(n);
    }
}

/// A digit key appends its digit to the number being entered, whatever the registers hold:
/// the entered number becomes ten times itself plus the digit, and the stored number stays.
pub proof fn lemma_digit_key_appends(c: Calculator, key: (u8, u8))
    requires
        is_digit_key(key),
        c.op1 * 10 + digit_of(key) <= 255,
    ensures
        press_spec(c, key).op1 == c.op1 * 10 + digit_of(key),
        press_spec(c, key).op2 == c.op2,
        1 <= digit_of(key) <= 9,
{
}

/// The zero key appends the digit 0 to the number being entered.
pub proof fn lemma_zero_key_appends(c: Calculator, key: (u8, u8))
    requires
        is_zero_key(key),
        c.op1 * 10 <= 255,
    ensures
        press_spec(c, key).op1 == c.op1 * 10,
        press_spec(c, key).op2 == c.op2,
{
}

/// `A` adds and `B` subtracts the entered number to or from the stored one, computed exactly,
/// and both registers show the result; `#` stores the entered number; `C` resets.
pub proof fn lemma_operation_keys(c: Calculator)
    ensures
        c.op2 + c.op1 <= 255 ==> press_spec(c, (3u8, 0u8)).op1 == c.op2 + c.op1 && press_spec(
            c,
            (3u8, 0u8),
        ).op2 == c.op2 + c.op1,
        c.op2 - c.op1 >= 0 ==> press_spec(c, (3u8, 1u8)).op1 == c.op2 - c.op1 && press_spec(
            c,
            (3u8, 1u8),
        ).op2 == c.op2 - c.op1,
        press_spec(c, (2u8, 3u8)).op1 == 0 && press_spec(c, (2u8, 3u8)).op2 == c.op1,
        press_spec(c, (3u8, 2u8)).op1 == 0 && press_spec(c, (3u8, 2u8)).op2 == 0,
{
}

/// A key press is allowed exactly when its arithmetic, computed on unbounded integers, gives
/// a result within `0..=255`.
pub proof fn lemma_press_ok_exact(c: Calculator, key: (u8, u8))
    ensures
        is_digit_key(key) ==> (press_ok(c, key) <==> 0 <= c.op1 * 10 + digit_of(key) <= 255),
        is_zero_key(key) ==> (press_ok(c, key) <==> 0 <= c.op1 * 10 <= 255),
        key == (3u8, 0u8) ==> (press_ok(c, key) <==> 0 <= c.op2 + c.op1 <= 255),
        key == (3u8, 1u8) ==> (press_ok(c, key) <==> 0 <= c.op2 - c.op1 <= 255),
        !(is_digit_key(key) || is_zero_key(key) || key == (3u8, 0u8) || key == (3u8, 1u8)) ==> press_ok(
            c,
            key,
        ),
{
}

} // verus!
