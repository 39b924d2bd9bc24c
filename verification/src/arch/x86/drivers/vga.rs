//! VGA text mode: cells of a character and an attribute, and the cursor.
use vstd::prelude::*;
use crate::arch::x86::io::{PortWrite, outb, out8};

verus! {

/// The sixteen text-mode colours.
pub enum Color {
    Black,
    Blue,
    Green,
    Cyan,
    Red,
    Pink,
    Brown,
    LightGray,
    DarkGray,
    LightBlue,
    LightGreen,
    LightCyan,
    LightRed,
    LightPink,
    Yellow,
    White,
}

impl Color {
    pub open spec fn spec_value(self) -> u8 {
        match self {
            Color::Black => 0,
            Color::Blue => 1,
            Color::Green => 2,
            Color::Cyan => 3,
            Color::Red => 4,
            Color::Pink => 5,
            Color::Brown => 6,
            Color::LightGray => 7,
            Color::DarkGray => 8,
            Color::LightBlue => 9,
            Color::LightGreen => 10,
            Color::LightCyan => 11,
            Color::LightRed => 12,
            Color::LightPink => 13,
            Color::Yellow => 14,
            Color::White => 15,
        }
    }

    /// The colour's 4-bit number.
    pub fn value(&self) -> (v: u8)
        ensures
            v == self.spec_value(),
            v < 16,
    {
        match self {
            Color::Black => 0,
            Color::Blue => 1,
            Color::Green => 2,
            Color::Cyan => 3,
            Color::Red => 4,
            Color::Pink => 5,
            Color::Brown => 6,
            Color::LightGray => 7,
            Color::DarkGray => 8,
            Color::LightBlue => 9,
            Color::LightGreen => 10,
            Color::LightCyan => 11,
            Color::LightRed => 12,
            Color::LightPink => 13,
            Color::Yellow => 14,
            Color::White => 15,
        }
    }
}

/// A screen cell: the character's low byte and the attribute
/// (background colour in the high nibble, foreground in the low one).
pub struct Char {
    pub char: u8,
    pub attr: u8,
}

impl Char {
    /// The cell showing `c` in colour `fg` on `bg`.
    pub fn new(c: char, fg: Color, bg: Color) -> (ch: Char)
        ensures
            ch.char == (c as u32) % 256,
            ch.attr == fg.spec_value() + 16 * bg.spec_value(),
    {
        let code = c as u32;
        let f = fg.value();
        let b = bg.value();
        proof {
            assert(code & 0xFF == code % 256) by (bit_vector);
            assert(f < 16 && b < 16 ==> f | (b << 4) == f + 16 * b) by (bit_vector);
        }
        Char { char: (code & 0xFF) as u8, attr: f | (b << 4) }
    }
}

/// Cells on the 80 x 25 screen.
pub const SCREEN_SIZE: usize = 80 * 25;

/// Moves the hardware cursor to cell `pos`: the low byte of the position
/// to CRTC register 15, the next byte to register 14.
pub fn cursor_at(pos: usize) -> (ws: Vec<PortWrite>)
    ensures
        ws@ == seq![
            outb(0x3D4, 15),
            outb(0x3D5, (pos % 256) as u8),
            outb(0x3D4, 14),
            outb(0x3D5, ((pos / 256) % 256) as u8),
        ],
{
    proof {
        assert(pos & 0xFF == pos % 256) by (bit_vector);
        assert((pos >> 8) & 0xFF == (pos / 256) % 256) by (bit_vector);
    }
    let mut ws: Vec<PortWrite> = Vec::new();
    ws.push(out8(0x3D4, 15));
    ws.push(out8(0x3D5, (pos & 0xFF) as u8));
    ws.push(out8(0x3D4, 14));
    ws.push(out8(0x3D5, ((pos >> 8) & 0xFF) as u8));
    ws
}

/// A colour's number is its index in the VGA text palette: the eight dark
/// colours black 0, blue 1, green 2, cyan 3, red 4, pink 5, brown 6 and
/// light gray 7, and their bright versions eight above them (dark gray 8,
/// light blue 9, ..., light pink 13, yellow 14, white 15). No two colours
/// share a number, so a cell of `fg` on `bg` has attribute
/// `index(fg) + 16 * index(bg)` with these indices.
pub proof fn law_palette_indices(c: Color, d: Color)
    ensures
        c != d ==> c.spec_value() != d.spec_value(),
        c.spec_value() < 16,
        Color::Black.spec_value() == 0,
        Color::Blue.spec_value() == 1,
        Color::Green.spec_value() == 2,
        Color::Cyan.spec_value() == 3,
        Color::Red.spec_value() == 4,
        Color::Pink.spec_value() == 5,
        Color::Brown.spec_value() == 6,
        Color::LightGray.spec_value() == 7,
        Color::DarkGray.spec_value() == Color::Black.spec_value() + 8,
        Color::LightBlue.spec_value() == Color::Blue.spec_value() + 8,
        Color::LightGreen.spec_value() == Color::Green.spec_value() + 8,
        Color::LightCyan.spec_value() == Color::Cyan.spec_value() + 8,
        Color::LightRed.spec_value() == Color::Red.spec_value() + 8,
        Color::LightPink.spec_value() == Color::Pink.spec_value() + 8,
        Color::Yellow.spec_value() == Color::Brown.spec_value() + 8,
        Color::White.spec_value() == Color::LightGray.spec_value() + 8,
        Color::White.spec_value() + 16 * Color::Yellow.spec_value() == 0xEF,
{
}

} // verus!
