use rustboot::vga::{Color, Entry, Screen, SCREEN_CELLS};

#[test]
fn entry_from_raw_test() {
    let bg = Color::LightCyan;
    let fg = Color::Black;
    let c: char = 'n';

    let entry = Entry::new(c, bg, fg);
    assert_eq!(0x6E, entry.data);
    assert_eq!(0xB0, entry.attrib);

    let raw = entry.raw();
    assert_eq!(0xB06E, raw);

    let entry = Entry::from_raw(raw);
    assert_eq!(0x6E, entry.data);
    assert_eq!(0xB0, entry.attrib);
}

#[test]
fn raw_round_trip_of_every_cell_value() {
    let mut v: u32 = 0;
    while v <= 0xFFFF {
        let raw = v as u16;
        assert_eq!(Entry::from_raw(raw).raw(), raw);
        v += 251;
    }
}

#[test]
fn write_char_keeps_colours() {
    let mut screen = Screen::new(vec![0u16; SCREEN_CELLS]);
    screen.clear_screen(Color::LightCyan.value() as u16);
    assert_eq!(screen.cell(0), 0xB000);
    screen.write_char('n', 3, 2);
    assert_eq!(screen.cell(3 + 2 * 80), 0xB06E);
    assert_eq!(screen.cell(4 + 2 * 80), 0xB000);
}
