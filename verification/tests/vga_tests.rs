use nolos::vga::{Color, ColorCode, Writer, BUFFER_BYTES, BUFFER_HEIGHT, BUFFER_WIDTH};

fn cell(w: &Writer, row: usize, col: usize) -> (u8, u8) {
    let b = w.buffer_bytes();
    let off = (row * BUFFER_WIDTH + col) * 2;
    (b[off], b[off + 1])
}

#[test]
fn color_code_packs_background_high() {
    assert_eq!(ColorCode::new(Color::White, Color::Black).value(), 0x0F);
    assert_eq!(ColorCode::new(Color::Yellow, Color::Blue).value(), 0x1E);
    assert_eq!(ColorCode::new(Color::Black, Color::White).value(), 0xF0);
    assert_eq!(ColorCode::new(Color::LightGreen, Color::Red).value(), 0x4A);
}

#[test]
fn color_code_round_trip() {
    let all = [
        Color::Black, Color::Blue, Color::Green, Color::Cyan, Color::Red, Color::Magenta,
        Color::Brown, Color::LightGray, Color::DarkGray, Color::LightBlue, Color::LightGreen,
        Color::LightCyan, Color::LightRed, Color::Pink, Color::Yellow, Color::White,
    ];
    for (i, fg) in all.iter().enumerate() {
        for (j, bg) in all.iter().enumerate() {
            let v = ColorCode::new(*fg, *bg).value();
            assert_eq!((v >> 4) as usize, j);
            assert_eq!((v & 0x0F) as usize, i);
        }
    }
}

#[test]
fn new_writer_starts_home_on_blank_screen() {
    let code = ColorCode::new(Color::Yellow, Color::Black);
    let w = Writer::new(code);
    assert_eq!(w.cursor(), (0, 0));
    assert_eq!(w.color_code(), code);
    assert_eq!(w.buffer_bytes().len(), BUFFER_BYTES);
    assert_eq!(cell(&w, 12, 40), (b' ', 0x0F));
}

#[test]
fn write_byte_stores_char_and_color() {
    let code = ColorCode::new(Color::Green, Color::Black);
    let mut w = Writer::new(code);
    w.write_byte(b'H');
    w.write_byte(b'i');
    assert_eq!(cell(&w, 0, 0), (b'H', 0x02));
    assert_eq!(cell(&w, 0, 1), (b'i', 0x02));
    assert_eq!(w.cursor(), (0, 2));
}

#[test]
fn newline_byte_moves_to_next_line() {
    let mut w = Writer::new(ColorCode::new(Color::White, Color::Black));
    w.write_byte(b'a');
    w.write_byte(b'\n');
    assert_eq!(w.cursor(), (1, 0));
    w.write_byte(b'b');
    assert_eq!(cell(&w, 1, 0).0, b'b');
}

#[test]
fn long_line_wraps() {
    let mut w = Writer::new(ColorCode::new(Color::White, Color::Black));
    for _ in 0..BUFFER_WIDTH {
        w.write_byte(b'x');
    }
    assert_eq!(w.cursor(), (0, 80));
    w.write_byte(b'y');
    assert_eq!(w.cursor(), (1, 1));
    assert_eq!(cell(&w, 1, 0).0, b'y');
    assert_eq!(cell(&w, 0, 79).0, b'x');
}

#[test]
fn set_color_applies_to_later_bytes() {
    let mut w = Writer::new(ColorCode::new(Color::White, Color::Black));
    w.write_byte(b'a');
    w.set_color(ColorCode::new(Color::Red, Color::Blue));
    w.write_byte(b'b');
    assert_eq!(cell(&w, 0, 0), (b'a', 0x0F));
    assert_eq!(cell(&w, 0, 1), (b'b', 0x14));
}

#[test]
fn backspace_blanks_previous_cell() {
    let code = ColorCode::new(Color::Cyan, Color::Black);
    let mut w = Writer::new(code);
    w.write_byte(b'a');
    w.write_byte(b'b');
    w.backspace();
    assert_eq!(w.cursor(), (0, 1));
    assert_eq!(cell(&w, 0, 1), (b' ', 0x03));
    assert_eq!(cell(&w, 0, 0), (b'a', 0x03));
    w.backspace();
    w.backspace();
    assert_eq!(w.cursor(), (0, 0));
}

#[test]
fn bottom_newline_scrolls() {
    let code = ColorCode::new(Color::White, Color::Blue);
    let mut w = Writer::new(code);
    for row in 0..BUFFER_HEIGHT {
        w.write_byte(b'A' + row as u8);
        if row + 1 < BUFFER_HEIGHT {
            w.write_byte(b'\n');
        }
    }
    assert_eq!(w.cursor(), (24, 1));
    w.newline();
    assert_eq!(w.cursor(), (24, 0));
    assert_eq!(cell(&w, 0, 0).0, b'B');
    assert_eq!(cell(&w, 23, 0).0, b'A' + 24);
    assert_eq!(cell(&w, 24, 0), (b' ', 0x1F));
    assert_eq!(cell(&w, 24, 79), (b' ', 0x1F));
}

#[test]
fn clear_resets_screen_and_cursor() {
    let mut w = Writer::new(ColorCode::new(Color::Red, Color::Green));
    w.write_byte(b'z');
    w.newline();
    w.clear();
    assert_eq!(w.cursor(), (0, 0));
    for off in (0..BUFFER_BYTES).step_by(2) {
        let b = w.buffer_bytes();
        assert_eq!((b[off], b[off + 1]), (b' ', 0x0F));
        if off > 40 {
            break;
        }
    }
    assert_eq!(cell(&w, 0, 0), (b' ', 0x0F));
    assert_eq!(w.color_code().value(), 0x24);
}

#[test]
fn print_centered_pads_and_ends_line() {
    let mut w = Writer::new(ColorCode::new(Color::White, Color::Black));
    w.print_centered("NolOS");
    // (80 - 5) / 2 = 37 spaces
    assert_eq!(cell(&w, 0, 36).0, b' ');
    assert_eq!(cell(&w, 0, 37).0, b'N');
    assert_eq!(cell(&w, 0, 41).0, b'S');
    assert_eq!(w.cursor(), (1, 0));
}

#[test]
fn print_centered_long_text_has_no_padding() {
    let mut w = Writer::new(ColorCode::new(Color::White, Color::Black));
    let text: String = std::iter::repeat('q').take(85).collect();
    w.print_centered(&text);
    assert_eq!(cell(&w, 0, 0).0, b'q');
    assert_eq!(cell(&w, 1, 4).0, b'q');
    assert_eq!(w.cursor(), (2, 0));
}

#[test]
fn write_string_replaces_unprintable_bytes() {
    let mut w = Writer::new(ColorCode::new(Color::White, Color::Black));
    w.write_string("a\tb\u{e9}\nc~");
    assert_eq!(cell(&w, 0, 0).0, b'a');
    assert_eq!(cell(&w, 0, 1).0, b'?');
    assert_eq!(cell(&w, 0, 2).0, b'b');
    // the two UTF-8 bytes of 'é' become two '?'
    assert_eq!(cell(&w, 0, 3).0, b'?');
    assert_eq!(cell(&w, 0, 4).0, b'?');
    assert_eq!(cell(&w, 1, 0).0, b'c');
    assert_eq!(cell(&w, 1, 1).0, b'~');
    assert_eq!(w.cursor(), (1, 2));
}

#[test]
fn text_in_two_parts_matches_whole_text() {
    let code = ColorCode::new(Color::White, Color::Black);
    let mut a = Writer::new(code);
    a.write_string("first part, ");
    a.write_string("second\npart");
    let mut b = Writer::new(code);
    b.write_string("first part, second\npart");
    assert_eq!(a.buffer_bytes(), b.buffer_bytes());
    assert_eq!(a.cursor(), b.cursor());
}

#[test]
fn backspace_after_write_restores_cursor() {
    let code = ColorCode::new(Color::Pink, Color::Black);
    let mut w = Writer::new(code);
    w.write_byte(b'k');
    let before = w.cursor();
    w.write_byte(b'z');
    w.backspace();
    assert_eq!(w.cursor(), before);
    assert_eq!(cell(&w, 0, 1), (b' ', 0x0D));
}

#[test]
fn writer_over_existing_text_scrolls_it() {
    let mut bytes = vec![0u8; BUFFER_BYTES];
    // "boot" on row 1, bright white on blue
    for (i, b) in b"boot".iter().enumerate() {
        bytes[(BUFFER_WIDTH + i) * 2] = *b;
        bytes[(BUFFER_WIDTH + i) * 2 + 1] = 0x1F;
    }
    let code = ColorCode::new(Color::White, Color::Black);
    let mut w = Writer::with_buffer(code, bytes.clone());
    assert_eq!(w.cursor(), (0, 0));
    assert_eq!(w.buffer_bytes(), bytes);
    for _ in 0..BUFFER_HEIGHT {
        w.newline();
    }
    // 25 newlines from row 0 scroll once: the boot text moves to row 0
    assert_eq!(cell(&w, 0, 0), (b'b', 0x1F));
    assert_eq!(cell(&w, 0, 3), (b't', 0x1F));
    assert_eq!(cell(&w, 1, 0), (0, 0));
    assert_eq!(cell(&w, 24, 0), (b' ', 0x0F));
}
