use rustboot::arch::x86::drivers::vga::{cursor_at, Char, Color, SCREEN_SIZE};
use rustboot::arch::x86::io::{out16, out8, Console, PortWrite};

fn blank_console() -> Console {
    let mut cells = Vec::new();
    for _ in 0..SCREEN_SIZE {
        cells.push(Char { char: 0, attr: 7 });
    }
    Console::new(cells)
}

fn is_write(w: &PortWrite, port: u16, value: u16, wide: bool) -> bool {
    w.port == port && w.value == value && w.wide == wide
}

#[test]
fn printable_byte_is_stored_and_advances() {
    let mut c = blank_console();
    let ws = c.write_char(b'a');
    assert_eq!(c.position(), 1);
    assert_eq!(c.cell(0).char, b'a');
    assert_eq!(c.cell(0).attr, 7);
    assert_eq!(ws.len(), 4);
    assert!(is_write(&ws[0], 0x3D4, 15, false));
    assert!(is_write(&ws[1], 0x3D5, 1, false));
    assert!(is_write(&ws[2], 0x3D4, 14, false));
    assert!(is_write(&ws[3], 0x3D5, 0, false));
}

#[test]
fn newline_and_tab_move_the_cursor() {
    let mut c = blank_console();
    c.write_char(b'x');
    c.write_char(10);
    assert_eq!(c.position(), 80);
    c.write_char(9);
    assert_eq!(c.position(), 84);
    c.write_char(b'y');
    c.write_char(9);
    assert_eq!(c.position(), 88);
    assert_eq!(c.cell(84).char, b'y');
}

#[test]
fn backspace_erases_the_previous_character() {
    let mut c = blank_console();
    c.puts(b"ab");
    c.write_char(8);
    assert_eq!(c.position(), 1);
    assert_eq!(c.cell(1).char, 0);
    assert_eq!(c.cell(0).char, b'a');
}

#[test]
fn backspace_at_line_start_skips_empty_cells() {
    let mut c = blank_console();
    c.puts(b"hi");
    c.write_char(10);
    assert_eq!(c.position(), 80);
    c.write_char(8);
    assert_eq!(c.position(), 2);
    assert_eq!(c.cell(1).char, b'i');
}

#[test]
fn backspace_at_the_top_left_does_nothing() {
    let mut c = blank_console();
    let ws = c.write_char(8);
    assert_eq!(c.position(), 0);
    assert!(is_write(&ws[1], 0x3D5, 0, false));
}

#[test]
fn position_wraps_around_the_screen() {
    let mut c = blank_console();
    for _ in 0..24 {
        c.write_char(10);
    }
    assert_eq!(c.position(), 1920);
    for _ in 0..79 {
        c.putc(b'.');
    }
    assert_eq!(c.position(), 1999);
    c.putc(b'z');
    assert_eq!(c.position(), 0);
    assert_eq!(c.cell(1999).char, b'z');
    c.putc(b'q');
    assert_eq!(c.cell(0).char, b'q');
}

#[test]
fn newline_on_the_last_line_wraps_to_the_top() {
    let mut c = blank_console();
    for _ in 0..25 {
        c.write_char(10);
    }
    assert_eq!(c.position(), 0);
}

#[test]
fn puts_writes_each_byte() {
    let mut c = blank_console();
    let ws = c.puts(b"ok\n!");
    assert_eq!(ws.len(), 16);
    assert_eq!(c.cell(0).char, b'o');
    assert_eq!(c.cell(1).char, b'k');
    assert_eq!(c.cell(80).char, b'!');
    assert_eq!(c.position(), 81);
    assert!(is_write(&ws[13], 0x3D5, 81, false));
}

#[test]
fn puti_leaves_the_console_alone() {
    let mut c = blank_console();
    c.putc(b'a');
    c.puti(42);
    assert_eq!(c.position(), 1);
    assert_eq!(c.cell(1).char, 0);
}

#[test]
fn clear_screen_paints_blanks() {
    let mut c = blank_console();
    c.puts(b"abc");
    c.clear_screen(Color::Red);
    for i in [0usize, 1, 2, 1999].iter() {
        assert_eq!(c.cell(*i).char, 0x20);
        assert_eq!(c.cell(*i).attr, 0x40);
    }
    assert_eq!(c.position(), 3);
}

#[test]
fn cell_colours() {
    let ch = Char::new('A', Color::White, Color::Blue);
    assert_eq!(ch.char, 65);
    assert_eq!(ch.attr, 0x1F);
    let ch = Char::new('\u{263A}', Color::Black, Color::LightGray);
    assert_eq!(ch.char, 0x3A);
    assert_eq!(ch.attr, 0x70);
    assert_eq!(Color::Black.value(), 0);
    assert_eq!(Color::LightCyan.value(), 11);
    assert_eq!(Color::White.value(), 15);
}

#[test]
fn cursor_position_bytes() {
    let ws = cursor_at(300);
    assert_eq!(ws.len(), 4);
    assert!(is_write(&ws[0], 0x3D4, 15, false));
    assert!(is_write(&ws[1], 0x3D5, 44, false));
    assert!(is_write(&ws[2], 0x3D4, 14, false));
    assert!(is_write(&ws[3], 0x3D5, 1, false));
}

#[test]
fn port_writes() {
    assert!(is_write(&out8(0x60, 0xED), 0x60, 0xED, false));
    assert!(is_write(&out16(0x20, 0x11), 0x20, 0x11, true));
}

#[test]
fn puts_returns_the_cursor_writes_of_each_position() {
    let mut c = blank_console();
    let ws = c.puts(b"a\tb");
    let positions = [1usize, 4, 5];
    assert_eq!(ws.len(), 12);
    for (k, p) in positions.iter().enumerate() {
        assert!(is_write(&ws[4 * k], 0x3D4, 15, false));
        assert!(is_write(&ws[4 * k + 1], 0x3D5, (*p % 256) as u16, false));
        assert!(is_write(&ws[4 * k + 2], 0x3D4, 14, false));
        assert!(is_write(&ws[4 * k + 3], 0x3D5, (*p / 256) as u16, false));
    }
}

#[test]
fn puts_in_two_parts_is_puts_of_the_whole() {
    let mut one = blank_console();
    let mut two = blank_console();
    let w1 = one.puts(b"ab\ncd\x08");
    let mut w2 = two.puts(b"ab\n");
    w2.extend(two.puts(b"cd\x08"));
    assert_eq!(one.position(), two.position());
    assert_eq!(w1.len(), w2.len());
    for (x, y) in w1.iter().zip(w2.iter()) {
        assert!(is_write(x, y.port, y.value, y.wide));
    }
    for i in 0..200 {
        assert_eq!(one.cell(i).char, two.cell(i).char);
    }
}
