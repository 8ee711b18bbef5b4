use nolos::allocator::{allocate, BumpHeap};
use nolos::framebuffer::{colors, Framebuffer, SCREEN_HEIGHT, SCREEN_WIDTH};
use nolos::gfx_shell::{paint, DrawOp, GfxShell, ShellAction, COLS, FG, ROWS};

const INFO_FG: u32 = colors::YELLOW;
const PROMPT_FG: u32 = colors::CYAN;
const ERR_FG: u32 = colors::LIGHT_RED;

fn row_text(sh: &GfxShell, row: usize) -> String {
    let mut s = String::new();
    for col in 0..COLS {
        s.push(sh.cell(row, col) as char);
    }
    s.trim_end().to_string()
}

fn glyph(row: usize, col: usize, ch: u8, fg: u32) -> DrawOp {
    DrawOp::Glyph { x: 6 + col * 8, y: 20 + row * 10, ch, fg, bg: colors::BLACK }
}

fn row_fill(row: usize) -> DrawOp {
    DrawOp::FillRect { x: 6, y: 20 + row * 10, w: 624, h: 10, color: colors::BLACK }
}

fn type_keys(sh: &mut GfxShell, heap: &BumpHeap, codes: &[u8]) -> ShellAction {
    let mut last = ShellAction::Continue;
    for &c in codes {
        last = sh.handle_scancode(c, heap);
    }
    last
}

// scan codes: h e l p = 0x23 0x12 0x26 0x19, Enter = 0x1C, Backspace = 0x0E
const HELP: [u8; 4] = [0x23, 0x12, 0x26, 0x19];
const ENTER: u8 = 0x1C;
const BACKSPACE: u8 = 0x0E;

#[test]
fn new_shell_is_blank() {
    let sh = GfxShell::new();
    assert_eq!((sh.row(), sh.col()), (0, 0));
    for row in [0, 20, ROWS - 1] {
        for col in [0, 40, COLS - 1] {
            assert_eq!(sh.cell(row, col), b' ');
            assert_eq!(sh.cell_color(row, col), FG);
        }
    }
    assert!(sh.input().is_empty());
}

#[test]
fn write_char_stores_and_draws() {
    let mut sh = GfxShell::new();
    sh.write_char(b'a', colors::RED);
    sh.write_char(b'b', FG);
    assert_eq!(sh.cell(0, 0), b'a');
    assert_eq!(sh.cell_color(0, 0), colors::RED);
    assert_eq!(sh.cell(0, 1), b'b');
    assert_eq!(sh.col(), 2);
    assert_eq!(sh.take_ops(), vec![glyph(0, 0, b'a', colors::RED), glyph(0, 1, b'b', FG)]);
    assert!(sh.take_ops().is_empty());
}

#[test]
fn full_row_wraps_before_next_char() {
    let mut sh = GfxShell::new();
    for _ in 0..COLS {
        sh.write_char(b'x', FG);
    }
    assert_eq!((sh.row(), sh.col()), (0, COLS));
    sh.write_char(b'y', FG);
    assert_eq!((sh.row(), sh.col()), (1, 1));
    assert_eq!(sh.cell(1, 0), b'y');
}

#[test]
fn newline_char_moves_down() {
    let mut sh = GfxShell::new();
    sh.write_str(b"ab\ncd", FG);
    assert_eq!(row_text(&sh, 0), "ab");
    assert_eq!(row_text(&sh, 1), "cd");
    assert_eq!((sh.row(), sh.col()), (1, 2));
}

#[test]
fn newline_on_last_row_scrolls_and_redraws() {
    let mut sh = GfxShell::new();
    for row in 0..ROWS {
        sh.write_char(b'0' + (row % 10) as u8, FG);
        if row + 1 < ROWS {
            sh.newline();
        }
    }
    assert_eq!(sh.row(), ROWS - 1);
    sh.take_ops();
    sh.newline();
    assert_eq!((sh.row(), sh.col()), (ROWS - 1, 0));
    assert_eq!(sh.cell(0, 0), b'1');
    assert_eq!(sh.cell(ROWS - 2, 0), b'0' + ((ROWS - 1) % 10) as u8);
    assert_eq!(sh.cell(ROWS - 1, 0), b' ');
    let ops = sh.take_ops();
    // every row is blanked, then its one character (none on the last row) drawn
    assert_eq!(ops.len(), ROWS + (ROWS - 1));
    assert_eq!(ops[0], row_fill(0));
    assert_eq!(ops[1], glyph(0, 0, b'1', FG));
    assert_eq!(ops[ops.len() - 1], row_fill(ROWS - 1));
}

#[test]
fn backspace_blanks_and_steps_back() {
    let mut sh = GfxShell::new();
    sh.write_char(b'q', colors::RED);
    sh.take_ops();
    sh.backspace();
    assert_eq!(sh.col(), 0);
    assert_eq!(sh.cell(0, 0), b' ');
    assert_eq!(sh.cell_color(0, 0), FG);
    assert_eq!(sh.take_ops(), vec![glyph(0, 0, b' ', FG)]);
    sh.backspace();
    assert_eq!(sh.col(), 0);
    assert!(sh.take_ops().is_empty());
}

#[test]
fn write_usize_decimal() {
    let mut sh = GfxShell::new();
    sh.write_usize(0, FG);
    sh.write_char(b' ', FG);
    sh.write_usize(1234, FG);
    sh.write_char(b' ', FG);
    sh.write_usize(1048576, FG);
    assert_eq!(row_text(&sh, 0), "0 1234 1048576");
    let mut sh = GfxShell::new();
    sh.write_usize(usize::MAX, FG);
    assert_eq!(row_text(&sh, 0), usize::MAX.to_string());
}

#[test]
fn prompt_text_and_color() {
    let mut sh = GfxShell::new();
    sh.prompt();
    assert_eq!(row_text(&sh, 0), "nolos>");
    assert_eq!(sh.col(), 7);
    assert_eq!(sh.cell_color(0, 0), PROMPT_FG);
}

#[test]
fn init_screen_draws_chrome_then_grid() {
    let mut sh = GfxShell::new();
    sh.init_screen();
    let ops = sh.take_ops();
    assert_eq!(ops.len(), 8 + ROWS);
    assert_eq!(ops[0], DrawOp::SetMode);
    assert_eq!(ops[1], DrawOp::Clear { color: colors::BLACK });
    assert_eq!(ops[2], DrawOp::FillRect { x: 0, y: 0, w: 640, h: 16, color: colors::DARK_BLUE });
    assert_eq!(ops[3], DrawOp::FillRect { x: 0, y: 15, w: 640, h: 1, color: colors::LIGHT_BLUE });
    assert_eq!(
        ops[4],
        DrawOp::Text {
            x: 6,
            y: 4,
            text: "NolOS v0.6.0  |  bare-metal Rust kernel  |  640x480x32bpp",
            fg: colors::WHITE,
            bg: colors::DARK_BLUE
        }
    );
    assert_eq!(ops[5], DrawOp::FillRect { x: 0, y: 466, w: 640, h: 14, color: colors::DARK_GRAY });
    assert_eq!(ops[6], DrawOp::FillRect { x: 0, y: 466, w: 640, h: 1, color: colors::LIGHT_GRAY });
    assert_eq!(
        ops[7],
        DrawOp::Text {
            x: 6,
            y: 469,
            text: "NolOS Shell  |  type 'help' for commands",
            fg: colors::LIGHT_GRAY,
            bg: colors::DARK_GRAY
        }
    );
    for row in 0..ROWS {
        assert_eq!(ops[8 + row], row_fill(row));
    }
}

#[test]
fn greeting_then_prompt() {
    let mut sh = GfxShell::new();
    sh.greet();
    assert_eq!(row_text(&sh, 0), "Welcome to NolOS! Type 'help' for commands.");
    assert_eq!(sh.cell_color(0, 0), INFO_FG);
    assert_eq!(row_text(&sh, 1), "");
    assert_eq!(row_text(&sh, 2), "nolos>");
    assert_eq!((sh.row(), sh.col()), (2, 7));
}

#[test]
fn help_command() {
    let heap = BumpHeap::new();
    let mut sh = GfxShell::new();
    assert!(!sh.dispatch(b"help", &heap));
    assert_eq!(row_text(&sh, 0), "Commands:");
    assert_eq!(sh.cell_color(0, 0), INFO_FG);
    assert_eq!(row_text(&sh, 1), "  help   - This message");
    assert_eq!(row_text(&sh, 2), "  clear  - Clear screen");
    assert_eq!(row_text(&sh, 3), "  uname  - Kernel info");
    assert_eq!(row_text(&sh, 4), "  mem    - Memory stats");
    assert_eq!(row_text(&sh, 5), "  colors - Color palette");
    assert_eq!(row_text(&sh, 6), "  halt   - Halt CPU");
    assert_eq!(sh.cell_color(1, 2), FG);
    assert_eq!((sh.row(), sh.col()), (7, 0));
}

#[test]
fn clear_command() {
    let heap = BumpHeap::new();
    let mut sh = GfxShell::new();
    sh.write_str(b"junk\nmore", colors::RED);
    sh.take_ops();
    assert!(!sh.dispatch(b"clear", &heap));
    assert_eq!((sh.row(), sh.col()), (0, 0));
    assert_eq!(sh.cell(0, 0), b' ');
    assert_eq!(sh.cell_color(0, 0), FG);
    assert_eq!(sh.cell(1, 3), b' ');
    assert_eq!(
        sh.take_ops(),
        vec![DrawOp::FillRect { x: 6, y: 20, w: 624, h: 440, color: colors::BLACK }]
    );
}

#[test]
fn uname_command() {
    let heap = BumpHeap::new();
    let mut sh = GfxShell::new();
    assert!(!sh.dispatch(b"uname", &heap));
    assert_eq!(row_text(&sh, 0), "NolOS 0.6.0 x86 bare-metal Rust 640x480x32bpp");
    assert_eq!(sh.cell_color(0, 5), PROMPT_FG);
    assert_eq!((sh.row(), sh.col()), (1, 0));
}

#[test]
fn mem_command_reports_heap() {
    let mut heap = BumpHeap::new();
    allocate(&mut heap, 100, 1);
    allocate(&mut heap, 28, 8);
    let mut sh = GfxShell::new();
    assert!(!sh.dispatch(b"mem", &heap));
    assert_eq!(row_text(&sh, 0), "Heap: 132 / 1048576 bytes  |  Allocs: 2");
    assert_eq!(sh.cell_color(0, 0), INFO_FG);
    assert_eq!(sh.cell_color(0, 6), FG);
    assert_eq!(sh.cell_color(0, 9), FG);
    assert_eq!(sh.cell_color(0, 20), INFO_FG);
    assert_eq!((sh.row(), sh.col()), (1, 0));
}

#[test]
fn colors_command() {
    let heap = BumpHeap::new();
    let mut sh = GfxShell::new();
    assert!(!sh.dispatch(b"colors", &heap));
    assert_eq!(row_text(&sh, 0), "True color palette:");
    // eleven entries of ten cells each wrap after 78 cells
    assert_eq!(
        row_text(&sh, 1),
        "  RED       GREEN     YELLOW    CYAN      MAGENTA   ORANGE    PURPLE    LGREEN"
    );
    assert_eq!(sh.cell_color(1, 0), FG);
    assert_eq!(sh.cell_color(1, 2), colors::RED);
    assert_eq!(sh.cell_color(1, 12), colors::GREEN);
    assert_eq!(sh.cell_color(1, 72), colors::LIGHT_GREEN);
    // the space ending "LGREEN " and the separator wrap onto the next row
    assert_eq!(row_text(&sh, 2), "    LRED      PINK      WHITE");
    assert_eq!(sh.cell_color(2, 0), colors::LIGHT_GREEN);
    assert_eq!(sh.cell_color(2, 4), colors::LIGHT_RED);
    assert_eq!((sh.row(), sh.col()), (3, 0));
}

#[test]
fn halt_command() {
    let heap = BumpHeap::new();
    let mut sh = GfxShell::new();
    assert!(sh.dispatch(b"halt", &heap));
    assert_eq!(row_text(&sh, 0), "Halting CPU...");
    assert_eq!(sh.cell_color(0, 0), ERR_FG);
}

#[test]
fn unknown_command_is_echoed() {
    let heap = BumpHeap::new();
    let mut sh = GfxShell::new();
    assert!(!sh.dispatch(b"reboot", &heap));
    assert_eq!(row_text(&sh, 0), "Unknown command: reboot");
    assert_eq!(sh.cell_color(0, 0), ERR_FG);
    assert_eq!(sh.cell_color(0, 17), FG);
    assert!(!sh.dispatch(b"hel", &heap));
    assert_eq!(row_text(&sh, 1), "Unknown command: hel");
    assert!(!sh.dispatch(b"helpx", &heap));
    assert_eq!(row_text(&sh, 2), "Unknown command: helpx");
}

#[test]
fn typing_help_and_enter_runs_it() {
    let heap = BumpHeap::new();
    let mut sh = GfxShell::new();
    sh.greet();
    assert_eq!(type_keys(&mut sh, &heap, &HELP), ShellAction::Continue);
    assert_eq!(sh.input(), b"help");
    assert_eq!(row_text(&sh, 2), "nolos> help");
    assert_eq!(sh.handle_scancode(ENTER, &heap), ShellAction::Continue);
    assert!(sh.input().is_empty());
    assert_eq!(row_text(&sh, 3), "Commands:");
    assert_eq!(row_text(&sh, 9), "  halt   - Halt CPU");
    assert_eq!(row_text(&sh, 10), "nolos>");
    assert_eq!((sh.row(), sh.col()), (10, 7));
}

#[test]
fn key_releases_are_ignored() {
    let heap = BumpHeap::new();
    let mut sh = GfxShell::new();
    assert_eq!(sh.handle_scancode(0x80 | 0x23, &heap), ShellAction::Continue);
    assert_eq!(sh.handle_scancode(0x80 | ENTER, &heap), ShellAction::Continue);
    assert!(sh.input().is_empty());
    assert_eq!((sh.row(), sh.col()), (0, 0));
    assert!(sh.take_ops().is_empty());
}

#[test]
fn keys_without_characters_do_nothing() {
    let heap = BumpHeap::new();
    let mut sh = GfxShell::new();
    sh.handle_scancode(0x01, &heap); // Escape
    sh.handle_scancode(0x2A, &heap); // Left Shift
    assert!(sh.input().is_empty());
    assert!(sh.take_ops().is_empty());
}

#[test]
fn backspace_key_edits_line() {
    let heap = BumpHeap::new();
    let mut sh = GfxShell::new();
    type_keys(&mut sh, &heap, &[0x23, 0x12]); // h e
    sh.handle_scancode(BACKSPACE, &heap);
    assert_eq!(sh.input(), b"h");
    assert_eq!(sh.col(), 1);
    assert_eq!(sh.cell(0, 1), b' ');
    sh.handle_scancode(BACKSPACE, &heap);
    sh.handle_scancode(BACKSPACE, &heap);
    assert!(sh.input().is_empty());
    assert_eq!(sh.col(), 0);
}

#[test]
fn backspace_on_empty_line_keeps_prompt() {
    let heap = BumpHeap::new();
    let mut sh = GfxShell::new();
    sh.prompt();
    sh.handle_scancode(BACKSPACE, &heap);
    assert_eq!(row_text(&sh, 0), "nolos>");
    assert_eq!(sh.col(), 7);
}

#[test]
fn enter_on_empty_line_shows_new_prompt() {
    let heap = BumpHeap::new();
    let mut sh = GfxShell::new();
    sh.prompt();
    assert_eq!(sh.handle_scancode(ENTER, &heap), ShellAction::Continue);
    assert_eq!(row_text(&sh, 1), "nolos>");
    assert_eq!((sh.row(), sh.col()), (1, 7));
}

#[test]
fn line_holds_at_most_127_characters() {
    let heap = BumpHeap::new();
    let mut sh = GfxShell::new();
    for _ in 0..130 {
        sh.handle_scancode(0x10, &heap); // 'a'
    }
    assert_eq!(sh.input().len(), 127);
    // 127 characters echoed: one full row of 78 and 49 more
    assert_eq!((sh.row(), sh.col()), (1, 49));
}

#[test]
fn typed_halt_stops() {
    let heap = BumpHeap::new();
    let mut sh = GfxShell::new();
    type_keys(&mut sh, &heap, &[0x23, 0x10, 0x26, 0x14]); // h a l t
    assert_eq!(sh.handle_scancode(ENTER, &heap), ShellAction::Halt);
    assert_eq!(row_text(&sh, 1), "Halting CPU...");
    // no new prompt after halt
    assert_eq!(row_text(&sh, 2), "");
}

#[test]
fn typed_unknown_command() {
    let heap = BumpHeap::new();
    let mut sh = GfxShell::new();
    sh.prompt();
    type_keys(&mut sh, &heap, &[0x16, 0x02, 0x39, 0x11]); // u 1 space z
    sh.handle_scancode(ENTER, &heap);
    assert_eq!(row_text(&sh, 0), "nolos> u1 z");
    assert_eq!(row_text(&sh, 1), "Unknown command: u1 z");
    assert_eq!(row_text(&sh, 2), "nolos>");
}

#[test]
fn typing_then_backspace_restores_line_and_cursor() {
    let heap = BumpHeap::new();
    let mut sh = GfxShell::new();
    type_keys(&mut sh, &heap, &[0x2E, 0x2F]); // c v
    let before = (sh.input().to_vec(), sh.row(), sh.col());
    sh.handle_scancode(0x31, &heap); // n
    sh.handle_scancode(BACKSPACE, &heap);
    assert_eq!((sh.input().to_vec(), sh.row(), sh.col()), before);
    assert_eq!(sh.cell(0, 2), b' ');
}

#[test]
fn shell_text_in_two_parts_matches_whole_text() {
    let mut a = GfxShell::new();
    a.write_str(b"hello ", colors::RED);
    a.write_str(b"world\nagain", colors::RED);
    let mut b = GfxShell::new();
    b.write_str(b"hello world\nagain", colors::RED);
    assert_eq!((a.row(), a.col()), (b.row(), b.col()));
    assert_eq!(a.take_ops(), b.take_ops());
    for row in 0..3 {
        assert_eq!(row_text(&a, row), row_text(&b, row));
    }
}

#[test]
fn decimal_output_reads_back() {
    for n in [0usize, 7, 10, 99, 100, 65535, 1048576, 123456789] {
        let mut sh = GfxShell::new();
        sh.write_usize(n, FG);
        let text = row_text(&sh, 0);
        assert!(text.bytes().all(|b| b.is_ascii_digit()));
        assert_eq!(text.parse::<usize>().unwrap(), n);
    }
}

#[test]
fn scroll_moves_rows_up_and_blanks_bottom() {
    let mut sh = GfxShell::new();
    for _ in 0..ROWS - 1 {
        sh.newline();
    }
    sh.write_str(b"last", colors::PINK);
    sh.newline();
    assert_eq!(row_text(&sh, ROWS - 2), "last");
    assert_eq!(sh.cell_color(ROWS - 2, 0), colors::PINK);
    assert_eq!(row_text(&sh, ROWS - 1), "");
    assert_eq!(sh.cell_color(ROWS - 1, 0), FG);
    assert_eq!((sh.row(), sh.col()), (ROWS - 1, 0));
}

fn paint_all(fb: &mut Framebuffer, ops: &[DrawOp]) {
    for op in ops {
        paint(fb, op);
    }
}

#[test]
fn text_area_ends_above_status_bar() {
    assert_eq!(ROWS, 44);
    assert!(20 + ROWS * 10 <= 466);
}

#[test]
fn init_screen_keeps_both_bars() {
    let mut sh = GfxShell::new();
    sh.init_screen();
    let mut fb = Framebuffer::new();
    paint_all(&mut fb, &sh.take_ops());
    for x in 0..SCREEN_WIDTH {
        assert_eq!(fb.pixel(x, 0), colors::DARK_BLUE);
        assert_eq!(fb.pixel(x, 14), colors::DARK_BLUE);
        assert_eq!(fb.pixel(x, 15), colors::LIGHT_BLUE);
        assert_eq!(fb.pixel(x, 466), colors::LIGHT_GRAY);
        for y in 467..SCREEN_HEIGHT {
            assert_eq!(fb.pixel(x, y), colors::DARK_GRAY);
        }
    }
    assert_eq!(fb.pixel(6, 20), colors::BLACK);
    assert_eq!(fb.pixel(629, 459), colors::BLACK);
}

#[test]
fn scrolling_and_clear_keep_status_bar() {
    let heap = BumpHeap::new();
    let mut sh = GfxShell::new();
    sh.init_screen();
    let mut fb = Framebuffer::new();
    paint_all(&mut fb, &sh.take_ops());
    for _ in 0..ROWS + 3 {
        sh.write_str(b"line\n", FG);
    }
    assert!(!sh.dispatch(b"clear", &heap));
    let ops = sh.take_ops();
    for op in &ops {
        match op {
            DrawOp::FillRect { y, h, .. } => assert!(y + h <= 460),
            DrawOp::Glyph { y, .. } => assert!(y + 10 <= 460),
            other => panic!("unexpected {:?}", other),
        }
    }
    paint_all(&mut fb, &ops);
    for x in 0..SCREEN_WIDTH {
        assert_eq!(fb.pixel(x, 466), colors::LIGHT_GRAY);
        assert_eq!(fb.pixel(x, 470), colors::DARK_GRAY);
    }
}

#[test]
fn paint_performs_fills_only() {
    let mut fb = Framebuffer::new();
    assert!(paint(&mut fb, &DrawOp::Clear { color: colors::RED }));
    assert!(paint(&mut fb, &DrawOp::FillRect { x: 1, y: 1, w: 2, h: 2, color: colors::BLUE }));
    assert!(!paint(&mut fb, &DrawOp::SetMode));
    assert!(!paint(
        &mut fb,
        &DrawOp::Glyph { x: 0, y: 0, ch: b'a', fg: colors::WHITE, bg: colors::BLACK }
    ));
    assert_eq!(fb.pixel(0, 0), colors::RED);
    assert_eq!(fb.pixel(2, 2), colors::BLUE);
    assert_eq!(fb.pixel(3, 3), colors::RED);
}

#[test]
fn space_key_types_a_space() {
    let heap = BumpHeap::new();
    let mut sh = GfxShell::new();
    type_keys(&mut sh, &heap, &[0x10, 0x39, 0x11]);
    assert_eq!(sh.input(), b"a z");
}

#[test]
fn full_line_ignores_more_typing() {
    let heap = BumpHeap::new();
    let mut sh = GfxShell::new();
    for _ in 0..127 {
        sh.handle_scancode(0x12, &heap); // 'e'
    }
    sh.take_ops();
    let before = (sh.row(), sh.col(), sh.input().to_vec());
    sh.handle_scancode(0x13, &heap); // 'r'
    assert_eq!((sh.row(), sh.col(), sh.input().to_vec()), before);
    assert!(sh.take_ops().is_empty());
    // Enter submits the 127 characters as one (unknown) command
    sh.handle_scancode(ENTER, &heap);
    assert!(sh.input().is_empty());
}

#[test]
fn session_lines_hold_only_keymap_characters() {
    let heap = BumpHeap::new();
    let mut sh = GfxShell::new();
    sh.init_screen();
    sh.greet();
    for sc in 0u8..=0xFF {
        sh.handle_scancode(sc, &heap);
        assert!(sh.input().len() <= 127);
        assert!(sh.input().iter().all(|&b| b.is_ascii_lowercase() || b.is_ascii_digit() || b == b' '));
        assert!(sh.row() < ROWS && sh.col() <= COLS);
    }
}
