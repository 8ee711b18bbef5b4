use nolos::gfx_shell::scancode_to_char;
use nolos::keyboard::scancode_to_ascii;

#[test]
fn letters_follow_azerty() {
    assert_eq!(scancode_to_ascii(0x10), Some(b'a'));
    assert_eq!(scancode_to_ascii(0x11), Some(b'z'));
    assert_eq!(scancode_to_ascii(0x1E), Some(b'q'));
    assert_eq!(scancode_to_ascii(0x27), Some(b'm'));
    assert_eq!(scancode_to_ascii(0x2C), Some(b'w'));
    assert_eq!(scancode_to_ascii(0x35), Some(b'!'));
}

#[test]
fn number_row_gives_unshifted_symbols() {
    assert_eq!(scancode_to_ascii(0x02), Some(b'&'));
    assert_eq!(scancode_to_ascii(0x04), Some(b'"'));
    assert_eq!(scancode_to_ascii(0x05), Some(b'\''));
    assert_eq!(scancode_to_ascii(0x0D), Some(b'='));
}

#[test]
fn space_bar_types_a_space() {
    assert_eq!(scancode_to_ascii(0x39), Some(b' '));
    assert_eq!(scancode_to_ascii(0x39 | 0x80), None);
}

#[test]
fn control_keys() {
    assert_eq!(scancode_to_ascii(0x0E), Some(0x08));
    assert_eq!(scancode_to_ascii(0x0F), Some(b'\t'));
    assert_eq!(scancode_to_ascii(0x1C), Some(b'\n'));
}

#[test]
fn keys_without_characters() {
    assert_eq!(scancode_to_ascii(0x00), None);
    assert_eq!(scancode_to_ascii(0x01), None); // Escape
    assert_eq!(scancode_to_ascii(0x1D), None); // Left Ctrl
    assert_eq!(scancode_to_ascii(0x2A), None); // Left Shift
    assert_eq!(scancode_to_ascii(0x36), None); // Right Shift
    assert_eq!(scancode_to_ascii(0x38), None); // Alt
    assert_eq!(scancode_to_ascii(0x3A), None); // past the table
    assert_eq!(scancode_to_ascii(0x7F), None);
}

#[test]
fn release_events_are_ignored() {
    assert_eq!(scancode_to_ascii(0x90), None);
    assert_eq!(scancode_to_ascii(0x80), None);
    assert_eq!(scancode_to_ascii(0xFF), None);
    for sc in 0x80u8..=0xFF {
        assert_eq!(scancode_to_ascii(sc), None);
    }
}

#[test]
fn shell_keymap() {
    assert_eq!(scancode_to_char(0x02), Some(b'1'));
    assert_eq!(scancode_to_char(0x0B), Some(b'0'));
    assert_eq!(scancode_to_char(0x10), Some(b'a'));
    assert_eq!(scancode_to_char(0x31), Some(b'n'));
    assert_eq!(scancode_to_char(0x39), Some(b' '));
    assert_eq!(scancode_to_char(0x1C), None);
    assert_eq!(scancode_to_char(0x0E), None);
    assert_eq!(scancode_to_char(0x01), None);
    assert_eq!(scancode_to_char(0x92), None);
}

#[test]
fn shell_keymap_types_printable_make_codes_only() {
    for sc in 0u8..=0xFF {
        if let Some(ch) = scancode_to_char(sc) {
            assert!(sc < 0x80 && sc != 0x1C && sc != 0x0E);
            assert!((0x20..=0x7e).contains(&ch));
        }
    }
}

#[test]
fn shell_keymap_one_code_per_character_and_agrees_on_letters() {
    let mut seen = std::collections::HashMap::new();
    for sc in 0u8..=0xFF {
        if let Some(ch) = scancode_to_char(sc) {
            assert!(seen.insert(ch, sc).is_none());
            if ch.is_ascii_lowercase() || ch == b' ' {
                assert_eq!(scancode_to_ascii(sc), Some(ch));
            }
        }
    }
    let mut expected: Vec<u8> = (b'a'..=b'z').chain(b'0'..=b'9').collect();
    expected.push(b' ');
    let mut got: Vec<u8> = seen.keys().copied().collect();
    got.sort();
    expected.sort();
    assert_eq!(got, expected);
}
