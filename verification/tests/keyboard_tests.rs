use kernel::keyboard::{scancode_to_ascii, Keyboard};

#[test]
fn letters_and_digits_decode() {
    assert_eq!(scancode_to_ascii(0x1E, false), b'a');
    assert_eq!(scancode_to_ascii(0x1E, true), b'A');
    assert_eq!(scancode_to_ascii(0x02, false), b'1');
    assert_eq!(scancode_to_ascii(0x02, true), b'!');
    assert_eq!(scancode_to_ascii(0x1C, false), b'\n');
    assert_eq!(scancode_to_ascii(0x39, true), b' ');
    assert_eq!(scancode_to_ascii(0x01, false), 0);
}

#[test]
fn typed_characters_are_read_in_order() {
    let mut k = Keyboard::new();
    assert!(!k.has_input());
    assert_eq!(k.handle_scancode(0x23), Some(b'h'));
    assert_eq!(k.handle_scancode(0x17), Some(b'i'));
    assert!(k.has_input());
    assert_eq!(k.read_char(), Some(b'h'));
    assert_eq!(k.read_char(), Some(b'i'));
    assert_eq!(k.read_char(), None);
    assert!(!k.has_input());
}

#[test]
fn shift_press_and_release() {
    let mut k = Keyboard::new();
    assert_eq!(k.handle_scancode(0x2A), None);
    assert_eq!(k.handle_scancode(0x1E), Some(b'A'));
    assert_eq!(k.handle_scancode(0xAA), None);
    assert_eq!(k.handle_scancode(0x1E), Some(b'a'));
    assert_eq!(k.handle_scancode(0x36), None);
    assert_eq!(k.handle_scancode(0x0C), Some(b'_'));
    assert_eq!(k.handle_scancode(0xB6), None);
    assert_eq!(k.read_char(), Some(b'A'));
    assert_eq!(k.read_char(), Some(b'a'));
    assert_eq!(k.read_char(), Some(b'_'));
}

#[test]
fn key_releases_and_unmapped_keys_type_nothing() {
    let mut k = Keyboard::new();
    assert_eq!(k.handle_scancode(0x9E), None);
    assert_eq!(k.handle_scancode(0x01), None);
    assert_eq!(k.handle_scancode(0x3A), None);
    assert!(!k.has_input());
}

#[test]
fn full_buffer_drops_but_still_echoes() {
    let mut k = Keyboard::new();
    for _ in 0..255 {
        assert_eq!(k.handle_scancode(0x10), Some(b'q'));
    }
    // the 256th character is echoed but not queued
    assert_eq!(k.handle_scancode(0x11), Some(b'w'));
    let mut n = 0;
    while let Some(c) = k.read_char() {
        assert_eq!(c, b'q');
        n += 1;
    }
    assert_eq!(n, 255);
    // the ring wraps around
    assert_eq!(k.handle_scancode(0x11), Some(b'w'));
    assert_eq!(k.read_char(), Some(b'w'));
}
