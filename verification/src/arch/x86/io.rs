//! Port output, described as values for the caller to perform.
use vstd::prelude::*;
use crate::arch::x86::drivers::vga::{Char, Color, SCREEN_SIZE, cursor_at};

verus! {

/// One `out` instruction: `value` to I/O port `port`, as a 16-bit write
/// when `wide` and as an 8-bit write otherwise.
pub struct PortWrite {
    pub port: u16,
    pub value: u16,
    pub wide: bool,
}

/// An 8-bit write.
pub open spec fn outb(port: u16, value: u8) -> PortWrite {
    PortWrite { port, value: value as u16, wide: false }
}

/// A 16-bit write.
pub open spec fn outw(port: u16, value: u16) -> PortWrite {
    PortWrite { port, value, wide: true }
}

pub fn out8(port: u16, value: u8) -> (w: PortWrite)
    ensures
        w == outb(port, value),
{
    PortWrite { port, value: value as u16, wide: false }
}

pub fn out16(port: u16, value: u16) -> (w: PortWrite)
    ensures
        w == outw(port, value),
{
    PortWrite { port, value, wide: true }
}


/// Where a backspace at the start of a line lands: back over the empty
/// cells before `p`.
pub open spec fn back_over_empty(screen: Seq<Char>, p: nat) -> nat
    decreases p,
{
    if p == 0 || screen[p - 1].char != 0 {
        p
    } else {
        back_over_empty(screen, (p - 1) as nat)
    }
}

/// Byte `c` can be written at position `p`: a backspace at the start of a
/// line finds a character before the cursor to stop at.
pub open spec fn write_char_ok(p: nat, screen: Seq<Char>, c: u8) -> bool {
    !(c == 8 && p > 0 && p % 80 == 0 && back_over_empty(screen, p) == 0)
}

/// The cursor position and the screen after writing byte `c` at position `p`.
pub open spec fn write_char_spec(p: nat, screen: Seq<Char>, c: u8) -> (nat, Seq<Char>) {
    let (q, s) = if c == 8 {
        if p > 0 {
            if p % 80 == 0 {
                (back_over_empty(screen, p), screen)
            } else {
                ((p - 1) as nat, screen.update(p - 1, Char { char: 0, ..screen[p - 1] }))
            }
        } else {
            (p, screen)
        }
    } else if c == 10 {
        ((p + 80 - p % 80) as nat, screen)
    } else if c == 9 {
        ((p + 4 - p % 4) as nat, screen)
    } else {
        (p + 1, screen.update(p as int, Char { char: c, ..screen[p as int] }))
    };
    (q % (SCREEN_SIZE as nat), s)
}

/// The cursor writes that move the hardware cursor to cell `p`.
pub open spec fn cursor_writes(p: nat) -> Seq<PortWrite> {
    seq![
        outb(0x3D4, 15),
        outb(0x3D5, (p % 256) as u8),
        outb(0x3D4, 14),
        outb(0x3D5, ((p / 256) % 256) as u8),
    ]
}

/// The text console: the character cells of the screen and the cursor.
pub struct Console {
    pos: usize,
    screen: Vec<Char>,
}

impl Console {
    pub closed spec fn spec_pos(&self) -> nat {
        self.pos as nat
    }

    pub closed spec fn cells(&self) -> Seq<Char> {
        self.screen@
    }

    pub open spec fn wf(&self) -> bool {
        &&& self.cells().len() == SCREEN_SIZE
        &&& self.spec_pos() < SCREEN_SIZE
    }

    /// A console over the given screen contents, with the cursor at the top left.
    pub fn new(screen: Vec<Char>) -> (c: Console)
        requires
            screen@.len() == SCREEN_SIZE,
        ensures
            c.wf(),
            c.spec_pos() == 0,
            c.cells() == screen@,
    {
        Console { pos: 0, screen }
    }

    /// The cursor position.
    pub fn position(&self) -> (p: usize)
        ensures
            p == self.spec_pos(),
    {
        self.pos
    }

    /// The cell at `i`.
    pub fn cell(&self, i: usize) -> (ch: &Char)
        requires
            self.wf(),
            i < SCREEN_SIZE,
        ensures
            *ch == self.cells()[i as int],
    {
        &self.screen[i]
    }

    /// Fills every cell with a blank on `bg`.
    pub fn clear_screen(&mut self, bg: Color)
        requires
            old(self).wf(),
        ensures
            final(self).wf(),
            final(self).spec_pos() == old(self).spec_pos(),
            forall|i: int|
                0 <= i < SCREEN_SIZE ==> #[trigger] final(self).cells()[i] == (Char {
                    char: 0x20,
                    attr: (16 * bg.spec_value()) as u8,
                }),
    {
        let mut i: usize = 0;
        while i < SCREEN_SIZE
            invariant
                i <= SCREEN_SIZE,
                self.wf(),
                self.spec_pos() == old(self).spec_pos(),
                forall|j: int|
                    0 <= j < i ==> #[trigger] self.cells()[j] == (Char {
                        char: 0x20,
                        attr: (16 * bg.spec_value()) as u8,
                    }),
            decreases SCREEN_SIZE - i,
        {
            let b = match bg {
                Color::Black => Color::Black,
                Color::Blue => Color::Blue,
                Color::Green => Color::Green,
                Color::Cyan => Color::Cyan,
                Color::Red => Color::Red,
                Color::Pink => Color::Pink,
                Color::Brown => Color::Brown,
                Color::LightGray => Color::LightGray,
                Color::DarkGray => Color::DarkGray,
                Color::LightBlue => Color::LightBlue,
                Color::LightGreen => Color::LightGreen,
                Color::LightCyan => Color::LightCyan,
                Color::LightRed => Color::LightRed,
                Color::LightPink => Color::LightPink,
                Color::Yellow => Color::Yellow,
                Color::White => Color::White,
            };
            let ch = Char::new(' ', Color::Black, b);
            self.screen.set(i, ch);
            i = i + 1;
        }
    }

    fn seek(&mut self, offset: usize)
        requires
            old(self).spec_pos() + offset <= usize::MAX,
        ensures
            final(self).spec_pos() == old(self).spec_pos() + offset,
            final(self).cells() == old(self).cells(),
    {
        self.pos = self.pos + offset;
    }

    /// Writes byte `c` at the cursor: backspace (8) erases the previous
    /// character (at the start of a line it moves back over empty cells),
    /// newline (10) and tab (9) move the cursor to the next line or tab stop,
    /// anything else is stored and advances the cursor; the position wraps
    /// around the screen. Returns the writes that move the hardware cursor.
    /// A backspace at the start of a line must find a character before the
    /// cursor.
    pub fn write_char(&mut self, c: u8) -> (ws: Vec<PortWrite>)
        requires
            old(self).wf(),
            write_char_ok(old(self).spec_pos(), old(self).cells(), c),
        ensures
            final(self).wf(),
            (final(self).spec_pos(), final(self).cells()) == write_char_spec(
                old(self).spec_pos(),
                old(self).cells(),
                c,
            ),
            ws@ == cursor_writes(final(self).spec_pos()),
    {
        if c == 8 {
            if self.pos > 0 {
                if self.pos % 80 == 0 {
                    let ghost s = self.screen@;
                    let ghost p0 = self.pos as nat;
                    while self.screen[self.pos - 1].char == 0
                        invariant
                            self.screen@ == s,
                            s.len() == SCREEN_SIZE,
                            self.pos <= p0,
                            p0 < SCREEN_SIZE,
                            back_over_empty(s, self.pos as nat) == back_over_empty(s, p0),
                            back_over_empty(s, p0) > 0,
                        decreases self.pos,
                    {
                        self.pos = self.pos - 1;
                    }
                } else if self.pos > 0 {
                    self.pos = self.pos - 1;
                    let old_ch = &self.screen[self.pos];
                    let ch = Char { char: 0, attr: old_ch.attr };
                    self.screen.set(self.pos, ch);
                }
            }
        } else if c == 10 {
            let step = 80 - self.pos % 80;
            self.seek(step);
        } else if c == 9 {
            let step = 4 - self.pos % 4;
            self.seek(step);
        } else {
            let old_ch = &self.screen[self.pos];
            let ch = Char { char: c, attr: old_ch.attr };
            self.screen.set(self.pos, ch);
            self.pos = self.pos + 1;
        }
        self.pos = self.pos % SCREEN_SIZE;
        let ws = cursor_at(self.pos);
        proof {
            assert(self.cells() =~= write_char_spec(old(self).spec_pos(), old(self).cells(), c).1);
        }
        ws
    }

    /// Writes byte `c` at the cursor.
    pub fn putc(&mut self, c: u8) -> (ws: Vec<PortWrite>)
        requires
            old(self).wf(),
            write_char_ok(old(self).spec_pos(), old(self).cells(), c),
        ensures
            final(self).wf(),
            (final(self).spec_pos(), final(self).cells()) == write_char_spec(
                old(self).spec_pos(),
                old(self).cells(),
                c,
            ),
            ws@ == cursor_writes(final(self).spec_pos()),
    {
        self.write_char(c)
    }

    /// Writes the bytes of `s` one after another; returns the cursor writes
    /// of each, in order. Each byte must be one that can be written where
    /// the ones before it left the cursor.
    pub fn puts(&mut self, s: &[u8]) -> (ws: Vec<PortWrite>)
        requires
            old(self).wf(),
            puts_ok(old(self).spec_pos(), old(self).cells(), s@),
        ensures
            final(self).wf(),
            (final(self).spec_pos(), final(self).cells()) == puts_spec(
                old(self).spec_pos(),
                old(self).cells(),
                s@,
            ),
            ws@ == puts_writes(old(self).spec_pos(), old(self).cells(), s@),
    {
        let mut ws: Vec<PortWrite> = Vec::new();
        let mut i: usize = 0;
        while i < s.len()
            invariant
                i <= s@.len(),
                self.wf(),
                (self.spec_pos(), self.cells()) == puts_spec(
                    old(self).spec_pos(),
                    old(self).cells(),
                    s@.take(i as int),
                ),
                ws@ == puts_writes(old(self).spec_pos(), old(self).cells(), s@.take(i as int)),
                puts_ok(old(self).spec_pos(), old(self).cells(), s@),
            decreases s@.len() - i,
        {
            let ghost before = ws@;
            proof {
                let pre = puts_spec(old(self).spec_pos(), old(self).cells(), s@.take(i as int));
                assert(write_char_ok(pre.0, pre.1, s@[i as int]));
            }
            let mut w = self.putc(s[i]);
            ws.append(&mut w);
            proof {
                assert(s@.take(i + 1 as int).drop_last() =~= s@.take(i as int));
                assert(s@.take(i + 1 as int).last() == s@[i as int]);
                assert(ws@ =~= before + cursor_writes(self.spec_pos()));
            }
            i = i + 1;
        }
        proof {
            assert(s@.take(s@.len() as int) =~= s@);
        }
        ws
    }

    /// Writing numbers is not supported: the console is left as it is.
    pub fn puti(&mut self, num: isize)
        ensures
            final(self).spec_pos() == old(self).spec_pos(),
            final(self).cells() == old(self).cells(),
    {
    }
}

/// Each byte of `s` can be written where writing the ones before it from
/// position `p` on `screen` left the cursor.
pub open spec fn puts_ok(p: nat, screen: Seq<Char>, s: Seq<u8>) -> bool {
    forall|j: int|
        0 <= j < s.len() ==> #[trigger] write_char_ok(
            puts_spec(p, screen, s.take(j)).0,
            puts_spec(p, screen, s.take(j)).1,
            s[j],
        )
}

/// The cursor writes that writing each byte of `s` in turn returns, in
/// order: those that move the cursor to each successive position.
pub open spec fn puts_writes(p: nat, screen: Seq<Char>, s: Seq<u8>) -> Seq<PortWrite>
    decreases s.len(),
{
    if s.len() == 0 {
        Seq::empty()
    } else {
        let (q, sc) = puts_spec(p, screen, s.drop_last());
        puts_writes(p, screen, s.drop_last()) + cursor_writes(write_char_spec(q, sc, s.last()).0)
    }
}

/// Position and screen after writing each byte of `s` in turn.
pub open spec fn puts_spec(p: nat, screen: Seq<Char>, s: Seq<u8>) -> (nat, Seq<Char>)
    decreases s.len(),
{
    if s.len() == 0 {
        (p, screen)
    } else {
        let (q, sc) = puts_spec(p, screen, s.drop_last());
        write_char_spec(q, sc, s.last())
    }
}

/// A backspace right after a character, within a line, takes the cursor
/// back to where the character went and leaves that cell empty, its colours
/// kept.
pub proof fn law_backspace_erases_last_char(p: nat, screen: Seq<Char>, c: u8)
    requires
        screen.len() == SCREEN_SIZE,
        p + 1 < SCREEN_SIZE,
        (p + 1) % 80 != 0,
        c != 8 && c != 9 && c != 10,
    ensures
        ({
            let (q, s1) = write_char_spec(p, screen, c);
            write_char_spec(q, s1, 8)
        }) == (p, screen.update(p as int, Char { char: 0, ..screen[p as int] })),
{
    let (q, s1) = write_char_spec(p, screen, c);
    vstd::arithmetic::div_mod::lemma_small_mod((p + 1) as nat, SCREEN_SIZE as nat);
    vstd::arithmetic::div_mod::lemma_small_mod(p, SCREEN_SIZE as nat);
    assert(q == p + 1);
    assert(write_char_spec(q, s1, 8).1 =~= screen.update(p as int, Char { char: 0, ..screen[p as int] }));
}

/// Writing `a ++ b` gives the same cursor, screen and port writes as writing
/// `a` and then `b`.
pub proof fn law_puts_concat(p: nat, screen: Seq<Char>, a: Seq<u8>, b: Seq<u8>)
    ensures
        ({
            let (q, sc) = puts_spec(p, screen, a);
            &&& puts_spec(p, screen, a + b) == puts_spec(q, sc, b)
            &&& puts_writes(p, screen, a + b) == puts_writes(p, screen, a) + puts_writes(q, sc, b)
        }),
    decreases b.len(),
{
    let (q, sc) = puts_spec(p, screen, a);
    if b.len() == 0 {
        assert(a + b =~= a);
        assert(puts_writes(p, screen, a) + puts_writes(q, sc, b) =~= puts_writes(p, screen, a));
    } else {
        law_puts_concat(p, screen, a, b.drop_last());
        assert((a + b).drop_last() =~= a + b.drop_last());
        assert((a + b).last() == b.last());
        let (q1, sc1) = puts_spec(q, sc, b.drop_last());
        assert(puts_writes(p, screen, a + b) =~= puts_writes(p, screen, a) + puts_writes(q, sc, b.drop_last())
            + cursor_writes(write_char_spec(q1, sc1, b.last()).0));
    }
}

} // verus!
