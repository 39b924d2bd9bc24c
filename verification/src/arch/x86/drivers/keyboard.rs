//! PS/2 keyboard: scan codes to characters, shift and caps-lock state, LEDs.
use vstd::prelude::*;

verus! {

/// Interrupt vector of the keyboard's IRQ line 1.
pub const IRQ: u8 = 0x20 + 1;

/// Characters of the scan codes below 0x3A, unshifted (0 where none).
pub open spec fn layout() -> Seq<u8> {
    seq![0, 27, 49, 50, 51, 52, 53, 54, 55, 56, 57, 48, 45, 61, 8, 9, 113, 119, 101, 114, 116, 121, 117, 105, 111, 112, 91, 93, 10, 0, 97, 115, 100, 102, 103, 104, 106, 107, 108, 59, 39, 96, 0, 92, 122, 120, 99, 118, 98, 110, 109, 44, 46, 47, 0, 42, 0, 32]
}

/// Characters of the scan codes below 0x3A with shift held (0 where none).
pub open spec fn layout_shift() -> Seq<u8> {
    seq![0, 27, 33, 64, 35, 36, 37, 94, 38, 42, 40, 41, 95, 43, 8, 9, 81, 87, 69, 82, 84, 89, 85, 73, 79, 80, 123, 125, 10, 0, 65, 83, 68, 70, 71, 72, 74, 75, 76, 58, 34, 126, 0, 124, 90, 88, 67, 86, 66, 78, 77, 60, 62, 63, 0, 42, 0, 32]
}

/// The unshifted layout table.
pub fn layout_table() -> (t: Vec<u8>)
    ensures
        t@ == layout(),
{
    let mut t: Vec<u8> = Vec::new();
    t.push(0);
    t.push(27);
    t.push(49);
    t.push(50);
    t.push(51);
    t.push(52);
    t.push(53);
    t.push(54);
    t.push(55);
    t.push(56);
    t.push(57);
    t.push(48);
    t.push(45);
    t.push(61);
    t.push(8);
    t.push(9);
    t.push(113);
    t.push(119);
    t.push(101);
    t.push(114);
    t.push(116);
    t.push(121);
    t.push(117);
    t.push(105);
    t.push(111);
    t.push(112);
    t.push(91);
    t.push(93);
    t.push(10);
    t.push(0);
    t.push(97);
    t.push(115);
    t.push(100);
    t.push(102);
    t.push(103);
    t.push(104);
    t.push(106);
    t.push(107);
    t.push(108);
    t.push(59);
    t.push(39);
    t.push(96);
    t.push(0);
    t.push(92);
    t.push(122);
    t.push(120);
    t.push(99);
    t.push(118);
    t.push(98);
    t.push(110);
    t.push(109);
    t.push(44);
    t.push(46);
    t.push(47);
    t.push(0);
    t.push(42);
    t.push(0);
    t.push(32);
    assert(t@ =~= layout());
    t
}

/// The shifted layout table.
pub fn layout_shift_table() -> (t: Vec<u8>)
    ensures
        t@ == layout_shift(),
{
    let mut t: Vec<u8> = Vec::new();
    t.push(0);
    t.push(27);
    t.push(33);
    t.push(64);
    t.push(35);
    t.push(36);
    t.push(37);
    t.push(94);
    t.push(38);
    t.push(42);
    t.push(40);
    t.push(41);
    t.push(95);
    t.push(43);
    t.push(8);
    t.push(9);
    t.push(81);
    t.push(87);
    t.push(69);
    t.push(82);
    t.push(84);
    t.push(89);
    t.push(85);
    t.push(73);
    t.push(79);
    t.push(80);
    t.push(123);
    t.push(125);
    t.push(10);
    t.push(0);
    t.push(65);
    t.push(83);
    t.push(68);
    t.push(70);
    t.push(71);
    t.push(72);
    t.push(74);
    t.push(75);
    t.push(76);
    t.push(58);
    t.push(34);
    t.push(126);
    t.push(0);
    t.push(124);
    t.push(90);
    t.push(88);
    t.push(67);
    t.push(86);
    t.push(66);
    t.push(78);
    t.push(77);
    t.push(60);
    t.push(62);
    t.push(63);
    t.push(0);
    t.push(42);
    t.push(0);
    t.push(32);
    assert(t@ =~= layout_shift());
    t
}

/// `c` is a letter, in either case.
pub fn isalpha(c: u8) -> (b: bool)
    ensures
        b == (0x61 <= (c | 0x20) <= 0x7a),
{
    (c | 0x20).wrapping_sub(0x61) < 26
}

/// What a key event asks of the driver.
pub enum KeyAction {
    /// Nothing to do.
    Nothing,
    /// Send the LED command 0xED, then this LED state, to port 0x60.
    Leds(u8),
    /// Deliver this character.
    Char(u8),
}

/// Keyboard state: modifiers and the LEDs that are lit.
pub struct Keyboard {
    pub shift: bool,
    pub caps_lock: bool,
    pub led_state: u8,
}

/// The character a key press yields: from the shifted or unshifted table,
/// with the case of a letter flipped while caps lock is on (0: none).
pub open spec fn key_char(kb: Keyboard, c: u8) -> u8 {
    let ch = if kb.shift { layout_shift()[c as int] } else { layout()[c as int] };
    if ch != 0 && kb.caps_lock && 0x61 <= (ch | 0x20) <= 0x7a {
        ch ^ 0x20
    } else {
        ch
    }
}

/// The keyboard after scan code `code`, and what the driver must do.
pub open spec fn keypress_spec(kb: Keyboard, code: u8) -> (Keyboard, KeyAction) {
    let c = code & 0x7f;
    let down = code & 0x80 == 0;
    if c == 0x2A || c == 0x36 {
        (Keyboard { shift: down, ..kb }, KeyAction::Nothing)
    } else if c == 0x3A && down {
        (
            Keyboard { caps_lock: !kb.caps_lock, led_state: kb.led_state ^ 0b100, ..kb },
            KeyAction::Leds(kb.led_state ^ 0b100),
        )
    } else if c == 0x45 && down {
        (Keyboard { led_state: kb.led_state ^ 0b010, ..kb }, KeyAction::Leds(kb.led_state ^ 0b010))
    } else if c == 0x46 && down {
        (Keyboard { led_state: kb.led_state ^ 0b001, ..kb }, KeyAction::Leds(kb.led_state ^ 0b001))
    } else if down && c < 0x3A {
        if key_char(kb, c) != 0 {
            (kb, KeyAction::Char(key_char(kb, c)))
        } else {
            (kb, KeyAction::Nothing)
        }
    } else {
        (kb, KeyAction::Nothing)
    }
}

impl Keyboard {
    /// No modifier held, no LED lit.
    pub fn new() -> (kb: Keyboard)
        ensures
            kb == (Keyboard { shift: false, caps_lock: false, led_state: 0 }),
    {
        Keyboard { shift: false, caps_lock: false, led_state: 0 }
    }

    /// Toggles the LEDs in `state` and asks for the new LED state to be sent.
    fn led(&mut self, state: u8) -> (a: KeyAction)
        ensures
            final(self).led_state == old(self).led_state ^ state,
            final(self).shift == old(self).shift,
            final(self).caps_lock == old(self).caps_lock,
            a == KeyAction::Leds(old(self).led_state ^ state),
    {
        self.led_state = self.led_state ^ state;
        KeyAction::Leds(self.led_state)
    }

    /// Handles scan code `code` (bit 7 set on release).
    pub fn keypress(&mut self, code: u8) -> (a: KeyAction)
        ensures
            (*final(self), a) == keypress_spec(*old(self), code),
    {
        let c = code & 0x7f;
        let down = code & 0x80 == 0;
        if c == 0x2A || c == 0x36 {
            self.shift = down;
            KeyAction::Nothing
        } else if c == 0x3A && down {
            // Caps lock
            self.caps_lock = !self.caps_lock;
            self.led(0b100)
        } else if c == 0x45 && down {
            // Number lock
            self.led(0b010)
        } else if c == 0x46 && down {
            // Scroll lock
            self.led(0b001)
        } else if down && c < 0x3A {
            // handle character
            let mut ch = if self.shift {
                let t = layout_shift_table();
                t[c as usize]
            } else {
                let t = layout_table();
                t[c as usize]
            };
            proof {
                assert(0x61 <= (ch | 0x20) ==> ch ^ 0x20 != 0) by (bit_vector);
            }
            if ch != 0 {
                if self.caps_lock && isalpha(ch) {
                    assert(1u8 << 5 == 0x20u8) by (bit_vector);
                    ch = ch ^ (1 << 5);
                }
                KeyAction::Char(ch)
            } else {
                KeyAction::Nothing
            }
        } else {
            KeyAction::Nothing
        }
    }
}

/// Pressing caps lock twice gives back the keyboard state it started from;
/// so does pressing num lock or scroll lock twice.
pub proof fn law_lock_keys_toggle(kb: Keyboard, code: u8)
    requires
        code == 0x3A || code == 0x45 || code == 0x46,
    ensures
        keypress_spec(keypress_spec(kb, code).0, code).0 == kb,
{
    assert(code & 0x7f == code && code & 0x80 == 0) by (bit_vector)
        requires
            code == 0x3A || code == 0x45 || code == 0x46,
    ;
    let s = kb.led_state;
    assert(s ^ 0b100 ^ 0b100 == s && s ^ 0b010 ^ 0b010 == s && s ^ 0b001 ^ 0b001 == s)
        by (bit_vector);
}

/// Releasing a key other than shift changes nothing and asks for nothing.
pub proof fn law_release_only_affects_shift(kb: Keyboard, code: u8)
    requires
        code & 0x80 != 0,
        code & 0x7f != 0x2A,
        code & 0x7f != 0x36,
    ensures
        keypress_spec(kb, code) == (kb, KeyAction::Nothing),
{
}

/// Pressing a letter key yields a letter whose case is upper exactly when
/// one of shift and caps lock is on.
pub proof fn law_letter_case(kb: Keyboard, code: u8)
    requires
        code < 0x3A,
        0x61 <= layout()[code as int] <= 0x7a,
    ensures
        keypress_spec(kb, code).1 == KeyAction::Char(
            if kb.shift != kb.caps_lock { (layout()[code as int] - 0x20) as u8 } else { layout()[code as int] },
        ),
{
    let l = layout()[code as int];
    let u = layout_shift()[code as int];
    assert(code & 0x7f == code && code & 0x80 == 0) by (bit_vector)
        requires
            code < 0x3A,
    ;
    assert(u == l - 0x20);
    assert(0x61 <= (l | 0x20) <= 0x7a && l ^ 0x20 == l - 0x20) by (bit_vector)
        requires
            0x61 <= l <= 0x7a,
    ;
    assert(0x61 <= (u | 0x20) <= 0x7a && u ^ 0x20 == l) by (bit_vector)
        requires
            0x61 <= l <= 0x7a,
            u == l - 0x20,
    ;
}

/// The digit row of the US layout: with shift up, the keys of scan codes
/// 0x02 to 0x0A type the digits '1' to '9' and 0x0B types '0'; with shift
/// held they type "!@#$%^&*()" in that order. Caps lock changes neither,
/// and a press of such a key leaves the keyboard state as it was.
pub proof fn law_digit_row(kb: Keyboard, code: u8)
    requires
        0x02 <= code <= 0x0B,
    ensures
        layout()[code as int] == 0x30 + (code - 1) % 10,
        layout_shift()[code as int] == seq![33u8, 64, 35, 36, 37, 94, 38, 42, 40, 41][code - 2],
        keypress_spec(kb, code) == (
            kb,
            KeyAction::Char(
                if kb.shift {
                    seq![33u8, 64, 35, 36, 37, 94, 38, 42, 40, 41][code - 2]
                } else {
                    (0x30 + (code - 1) % 10) as u8
                },
            ),
        ),
{
    if code == 2 {
        assert(layout()[2] == 49 && layout_shift()[2] == 33);
    } else if code == 3 {
        assert(layout()[3] == 50 && layout_shift()[3] == 64);
    } else if code == 4 {
        assert(layout()[4] == 51 && layout_shift()[4] == 35);
    } else if code == 5 {
        assert(layout()[5] == 52 && layout_shift()[5] == 36);
    } else if code == 6 {
        assert(layout()[6] == 53 && layout_shift()[6] == 37);
    } else if code == 7 {
        assert(layout()[7] == 54 && layout_shift()[7] == 94);
    } else if code == 8 {
        assert(layout()[8] == 55 && layout_shift()[8] == 38);
    } else if code == 9 {
        assert(layout()[9] == 56 && layout_shift()[9] == 42);
    } else if code == 10 {
        assert(layout()[10] == 57 && layout_shift()[10] == 40);
    } else if code == 11 {
        assert(layout()[11] == 48 && layout_shift()[11] == 41);
    }
    let ch: u8 = if kb.shift { layout_shift()[code as int] } else { layout()[code as int] };
    assert(ch == 0x5e || (0x21 <= ch <= 0x40));
    assert(code & 0x7f == code && code & 0x80 == 0 && !(0x61 <= (ch | 0x20) <= 0x7a))
        by (bit_vector)
        requires
            0x02 <= code <= 0x0B,
            ch == 0x5e || (0x21 <= ch <= 0x40),
    ;
}

} // verus!
