//! VGA text screen of raw 16-bit cells (attribute byte over character byte).
use vstd::prelude::*;

pub use crate::arch::x86::drivers::vga::Color;

verus! {

/// A screen cell: character byte and attribute byte.
pub struct Entry {
    pub data: u8,
    pub attrib: u8,
}

/// The 16-bit cell holding `e`.
pub open spec fn spec_raw(e: Entry) -> u16 {
    (e.data + 256 * e.attrib) as u16
}

/// The entry a 16-bit cell holds.
pub open spec fn spec_from_raw(raw: u16) -> Entry {
    Entry { data: (raw % 256) as u8, attrib: (raw / 256) as u8 }
}

impl Entry {
    /// Character `c` in foreground `fg` on background `bg`.
    pub fn new(c: char, bg: Color, fg: Color) -> (e: Entry)
        ensures
            e.data == (c as u32) % 256,
            e.attrib == 16 * bg.spec_value() + fg.spec_value(),
    {
        let code = c as u32;
        let b = bg.value();
        let f = fg.value();
        proof {
            assert(code & 0xFF == code % 256) by (bit_vector);
            assert(b < 16 && f < 16 ==> (b << 4) | (f & 0x0F) == 16 * b + f) by (bit_vector);
        }
        Entry { data: (code & 0xFF) as u8, attrib: (b << 4) | (f & 0x0F) }
    }

    /// The entry held by cell value `raw`.
    pub fn from_raw(raw: u16) -> (e: Entry)
        ensures
            e == spec_from_raw(raw),
    {
        let data: u8 = (raw & 0x00FF) as u8;
        let attrib: u8 = ((raw & 0xFF00) >> 8) as u8;
        proof {
            assert(raw & 0x00FF == raw % 256) by (bit_vector);
            assert((raw & 0xFF00) >> 8 == raw / 256) by (bit_vector);
        }
        Entry { data: data, attrib: attrib }
    }

    /// The cell value holding the entry.
    pub fn raw(self) -> (r: u16)
        ensures
            r == spec_raw(self),
    {
        let d = self.data as u16;
        let a = self.attrib as u16;
        proof {
            assert(d < 256 && a < 256 ==> d | (a << 8) == d + 256 * a) by (bit_vector);
        }
        d | (a << 8)
    }
}

/// Encoding an entry and decoding the cell value gives the entry back,
/// and decoding a cell value and encoding it gives the value back.
pub proof fn law_raw_round_trip(e: Entry, raw: u16)
    ensures
        spec_from_raw(spec_raw(e)) == e,
        spec_raw(spec_from_raw(raw)) == raw,
{
}

/// Cells on the 80 x 25 screen.
pub const SCREEN_CELLS: usize = 80 * 25;

/// The text screen's raw cells.
pub struct Screen {
    cells: Vec<u16>,
}

impl Screen {
    pub closed spec fn view_cells(&self) -> Seq<u16> {
        self.cells@
    }

    /// A screen over the given cell values.
    pub fn new(cells: Vec<u16>) -> (s: Screen)
        requires
            cells@.len() == SCREEN_CELLS,
        ensures
            s.view_cells() == cells@,
    {
        Screen { cells }
    }

    /// The cell value at `i`.
    pub fn cell(&self, i: usize) -> (c: u16)
        requires
            i < self.view_cells().len(),
        ensures
            c == self.view_cells()[i as int],
    {
        self.cells[i]
    }

    /// Paints the whole screen in background colour `background`.
    pub fn clear_screen(&mut self, background: u16)
        requires
            old(self).view_cells().len() == SCREEN_CELLS,
        ensures
            final(self).view_cells().len() == SCREEN_CELLS,
            forall|i: int|
                0 <= i < SCREEN_CELLS ==> #[trigger] final(self).view_cells()[i] == ((background
                    % 16) * 0x1000) as u16,
    {
        let max = 80 * 25;
        let v: u16 = (background & 0xF) << 12;
        proof {
            assert((background & 0xF) << 12 == (background % 16) * 0x1000) by (bit_vector);
        }
        let mut i: usize = 0;
        while i < max
            invariant
                max == SCREEN_CELLS,
                i <= max,
                self.view_cells().len() == SCREEN_CELLS,
                v == ((background % 16) * 0x1000) as u16,
                forall|j: int| 0 <= j < i ==> #[trigger] self.view_cells()[j] == v,
            decreases max - i,
        {
            self.cells.set(i, v);
            i = i + 1;
        }
    }

    fn get_entry(&self, x: usize, y: usize) -> (e: Entry)
        requires
            self.view_cells().len() == SCREEN_CELLS,
            x + y * 80 < self.view_cells().len(),
        ensures
            e == spec_from_raw(self.view_cells()[x + y * 80]),
    {
        let pos = x + y * 80;
        Entry::from_raw(self.cells[pos])
    }

    fn write_entry(&mut self, entry: Entry, x: usize, y: usize)
        requires
            old(self).view_cells().len() == SCREEN_CELLS,
            x + y * 80 < old(self).view_cells().len(),
        ensures
            final(self).view_cells() == old(self).view_cells().update(x + y * 80, spec_raw(entry)),
    {
        let pos = x + y * 80;
        self.cells.set(pos, entry.raw());
    }

    /// Shows character `c` in column `x` of row `y`, keeping the cell's colours.
    pub fn write_char(&mut self, c: char, x: usize, y: usize)
        requires
            old(self).view_cells().len() == SCREEN_CELLS,
            x + y * 80 < old(self).view_cells().len(),
        ensures
            final(self).view_cells() == old(self).view_cells().update(
                x + y * 80,
                spec_raw(
                    Entry {
                        data: ((c as u32) % 256) as u8,
                        ..spec_from_raw(old(self).view_cells()[x + y * 80])
                    },
                ),
            ),
    {
        // Get the current state of the entry.
        let mut entry = self.get_entry(x, y);
        // Update the character data.
        let code = c as u32;
        proof {
            assert(code & 0xFF == code % 256) by (bit_vector);
        }
        entry.data = (code & 0xFF) as u8;
        self.write_entry(entry, x, y);
    }
}

} // verus!
