use rustboot::arch::x86::drivers::keyboard::{isalpha, layout_shift_table, layout_table, KeyAction, Keyboard};

fn press(kb: &mut Keyboard, code: u8) -> Option<u8> {
    match kb.keypress(code) {
        KeyAction::Char(c) => Some(c),
        _ => None,
    }
}

#[test]
fn plain_keys_give_their_characters() {
    let mut kb = Keyboard::new();
    assert_eq!(press(&mut kb, 0x1E), Some(b'a'));
    assert_eq!(press(&mut kb, 0x02), Some(b'1'));
    assert_eq!(press(&mut kb, 0x39), Some(b' '));
    assert_eq!(press(&mut kb, 0x1C), Some(b'\n'));
    assert_eq!(press(&mut kb, 0x0E), Some(8));
}

#[test]
fn keys_without_characters_give_nothing() {
    let mut kb = Keyboard::new();
    assert!(matches!(kb.keypress(0x1D), KeyAction::Nothing));
    assert!(matches!(kb.keypress(0x00), KeyAction::Nothing));
    assert!(matches!(kb.keypress(0x50), KeyAction::Nothing));
}

#[test]
fn releases_give_nothing() {
    let mut kb = Keyboard::new();
    assert!(matches!(kb.keypress(0x9E), KeyAction::Nothing));
    assert!(matches!(kb.keypress(0xBA), KeyAction::Nothing));
    assert!(!kb.caps_lock);
}

#[test]
fn shift_is_held_until_released() {
    let mut kb = Keyboard::new();
    assert!(matches!(kb.keypress(0x2A), KeyAction::Nothing));
    assert!(kb.shift);
    assert_eq!(press(&mut kb, 0x1E), Some(b'A'));
    assert_eq!(press(&mut kb, 0x02), Some(b'!'));
    kb.keypress(0xAA);
    assert!(!kb.shift);
    assert_eq!(press(&mut kb, 0x1E), Some(b'a'));
    kb.keypress(0x36);
    assert_eq!(press(&mut kb, 0x0C), Some(b'_'));
    kb.keypress(0xB6);
    assert_eq!(press(&mut kb, 0x0C), Some(b'-'));
}

#[test]
fn caps_lock_flips_letters_only() {
    let mut kb = Keyboard::new();
    assert!(matches!(kb.keypress(0x3A), KeyAction::Leds(4)));
    assert!(kb.caps_lock);
    assert_eq!(kb.led_state, 4);
    assert_eq!(press(&mut kb, 0x10), Some(b'Q'));
    assert_eq!(press(&mut kb, 0x03), Some(b'2'));
    kb.keypress(0x2A);
    assert_eq!(press(&mut kb, 0x10), Some(b'q'));
    assert_eq!(press(&mut kb, 0x03), Some(b'@'));
}

#[test]
fn lock_keys_twice_restore_the_state() {
    for code in [0x3Au8, 0x45, 0x46].iter() {
        let mut kb = Keyboard::new();
        kb.keypress(*code);
        kb.keypress(*code);
        assert!(!kb.caps_lock);
        assert_eq!(kb.led_state, 0);
        assert!(!kb.shift);
    }
}

#[test]
fn num_and_scroll_lock_toggle_their_leds() {
    let mut kb = Keyboard::new();
    assert!(matches!(kb.keypress(0x45), KeyAction::Leds(2)));
    assert!(matches!(kb.keypress(0x46), KeyAction::Leds(3)));
    assert!(matches!(kb.keypress(0x3A), KeyAction::Leds(7)));
    assert!(matches!(kb.keypress(0x45), KeyAction::Leds(5)));
    assert!(!matches!(kb.keypress(0xC5), KeyAction::Leds(_)));
}

#[test]
fn letters_are_recognised() {
    assert!(isalpha(b'a'));
    assert!(isalpha(b'Z'));
    assert!(!isalpha(b'@'));
    assert!(!isalpha(b'['));
    assert!(!isalpha(b'1'));
    assert!(!isalpha(b'{'));
}

#[test]
fn layout_tables() {
    let t = layout_table();
    let s = layout_shift_table();
    assert_eq!(t.len(), 58);
    assert_eq!(s.len(), 58);
    assert_eq!(t[0x10], b'q');
    assert_eq!(s[0x10], b'Q');
    assert_eq!(t[0x29], b'`');
    assert_eq!(s[0x29], b'~');
}
