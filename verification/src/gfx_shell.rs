//! Graphics shell — 640x480 32bpp version.
//!
//! The shell keeps a grid of `ROWS`×`COLS` character cells with a color for
//! each, a cursor, and the line being typed. What it shows on screen is
//! recorded as a list of drawing operations, in the order the screen must
//! receive them: rectangle fills go to the frame buffer, glyphs and title
//! strings to the bitmap font. The program around the library performs
//! them and feeds the shell the keyboard's scan codes.
use vstd::prelude::*;
use vstd::string::StringSliceAdditionalSpecFns;
use crate::allocator::{self, BumpHeap};
use crate::framebuffer::{self, colors, Framebuffer};

verus! {

pub const COLS: usize = 78;
/// Text rows: the text area spans y 20..460, above the status bar that
/// starts at y 466.
pub const ROWS: usize = 44;
/// Number of character cells in the grid.
pub const CELLS: usize = 3432;
pub const CHAR_W: usize = 8;
pub const CHAR_H: usize = 10;
pub const X_OFF: usize = 6;
pub const Y_OFF: usize = 20;

pub const FG: u32 = colors::LIGHT_GREEN;
pub const BG: u32 = colors::BLACK;
pub const PROMPT_FG: u32 = colors::CYAN;
pub const ERR_FG: u32 = colors::LIGHT_RED;
pub const INFO_FG: u32 = colors::YELLOW;

/// Size of the input line buffer; a line holds at most one byte less.
pub const LINE_CAPACITY: usize = 128;

pub const SPACE: u8 = 0x20;
pub const NEWLINE: u8 = 0x0A;

/// Scan code of the Enter key.
pub const SC_ENTER: u8 = 0x1C;
/// Scan code of the Backspace key.
pub const SC_BACKSPACE: u8 = 0x0E;

/// One thing to put on the screen.
#[derive(Debug, PartialEq, Eq)]
pub enum DrawOp {
    /// Switch the display to 640x480x32 (the VBE port writes of
    /// `framebuffer::init`).
    SetMode,
    /// Fill the whole screen.
    Clear { color: u32 },
    /// Fill a rectangle of the frame buffer.
    FillRect { x: usize, y: usize, w: usize, h: usize, color: u32 },
    /// Draw one character of the bitmap font with its top-left corner at
    /// `(x, y)`.
    Glyph { x: usize, y: usize, ch: u8, fg: u32, bg: u32 },
    /// Draw a string with the bitmap font from `(x, y)`.
    Text { x: usize, y: usize, text: &'static str, fg: u32, bg: u32 },
}

/// What the program around the shell does after a key.
#[derive(Debug, Clone, Copy, PartialEq, Eq, Structural)]
pub enum ShellAction {
    /// Keep reading keys.
    Continue,
    /// Stop the CPU: the `halt` command ran.
    Halt,
}

/// The bytes of an ASCII string.
pub open spec fn ascii(s: Seq<char>) -> Seq<u8> {
    Seq::new(s.len(), |i: int| s[i] as u8)
}

/// The bytes of the string literal `s`.
fn lit(s: &str) -> (b: &[u8])
    requires
        vstd::string::is_ascii(s),
    ensures
        b@ == ascii(s@),
{
    proof {
        broadcast use vstd::string::is_ascii_spec_bytes;

    }
    let b = s.as_bytes();
    assert(b@ =~= ascii(s@));
    b
}

/// Byte-by-byte equality of two byte strings.
fn bytes_eq(a: &[u8], b: &[u8]) -> (r: bool)
    ensures
        r == (a@ == b@),
{
    if a.len() != b.len() {
        return false;
    }
    let mut i: usize = 0;
    while i < a.len()
        invariant
            a@.len() == b@.len(),
            i <= a@.len(),
            forall|j: int| 0 <= j < i ==> a@[j] == b@[j],
        decreases a@.len() - i,
    {
        if a[i] != b[i] {
            return false;
        }
        i = i + 1;
    }
    assert(a@ =~= b@);
    true
}

/// Index of cell `(row, col)` in the grid, row by row.
pub open spec fn cell_index(row: int, col: int) -> int {
    row * COLS + col
}

/// The glyph drawn for character `ch` in color `fg` at cell `(row, col)`.
pub open spec fn glyph_at(row: int, col: int, ch: u8, fg: u32) -> DrawOp {
    DrawOp::Glyph {
        x: (X_OFF + col * CHAR_W) as usize,
        y: (Y_OFF + row * CHAR_H) as usize,
        ch,
        fg,
        bg: BG,
    }
}

/// The fill that blanks text row `row`.
pub open spec fn row_fill(row: int) -> DrawOp {
    DrawOp::FillRect {
        x: X_OFF,
        y: (Y_OFF + row * CHAR_H) as usize,
        w: 624,
        h: CHAR_H,
        color: BG,
    }
}

/// Glyphs for the non-blank cells among the first `n` of row `row`, left to
/// right.
pub open spec fn row_glyphs(cells: Seq<u8>, colors: Seq<u32>, row: int, n: nat) -> Seq<DrawOp>
    decreases n,
{
    if n == 0 {
        Seq::empty()
    } else {
        let col = n - 1;
        let ch = cells[cell_index(row, col)];
        row_glyphs(cells, colors, row, (n - 1) as nat) + if ch != SPACE {
            seq![glyph_at(row, col, ch, colors[cell_index(row, col)])]
        } else {
            Seq::empty()
        }
    }
}

/// Redrawing row `row`: blank it, then draw its non-blank cells.
pub open spec fn row_ops(cells: Seq<u8>, colors: Seq<u32>, row: int) -> Seq<DrawOp> {
    seq![row_fill(row)] + row_glyphs(cells, colors, row, COLS as nat)
}

/// Redrawing the first `n` rows, top to bottom.
pub open spec fn rows_ops(cells: Seq<u8>, colors: Seq<u32>, n: nat) -> Seq<DrawOp>
    decreases n,
{
    if n == 0 {
        Seq::empty()
    } else {
        rows_ops(cells, colors, (n - 1) as nat) + row_ops(cells, colors, n - 1)
    }
}

/// Every cell blank.
pub open spec fn blank_cells() -> Seq<u8> {
    Seq::new(CELLS as nat, |i: int| SPACE)
}

/// Every cell in the default foreground color.
pub open spec fn default_colors() -> Seq<u32> {
    Seq::new(CELLS as nat, |i: int| FG)
}

/// The grid moved up one row, with the bottom row filled with `fill`.
pub open spec fn shifted_up<T>(cells: Seq<T>, fill: T) -> Seq<T> {
    Seq::new(
        CELLS as nat,
        |i: int| if i < CELLS - COLS { cells[i + COLS] } else { fill },
    )
}

/// The abstract state of the shell.
pub ghost struct ShellView {
    /// Cursor row.
    pub row: nat,
    /// Cursor column; `COLS` when the row is full.
    pub col: nat,
    /// Character of each cell, row by row.
    pub cells: Seq<u8>,
    /// Foreground color of each cell, row by row.
    pub colors: Seq<u32>,
    /// Drawing operations issued and not yet taken, oldest first.
    pub ops: Seq<DrawOp>,
    /// The line typed since the last Enter.
    pub line: Seq<u8>,
}

impl ShellView {
    pub open spec fn wf(self) -> bool {
        &&& self.row < ROWS
        &&& self.col <= COLS
        &&& self.cells.len() == CELLS
        &&& self.colors.len() == CELLS
        &&& self.line.len() < LINE_CAPACITY
    }

    /// The character in cell `(row, col)`.
    pub open spec fn cell(self, row: int, col: int) -> u8 {
        self.cells[cell_index(row, col)]
    }

    /// The color of cell `(row, col)`.
    pub open spec fn cell_color(self, row: int, col: int) -> u32 {
        self.colors[cell_index(row, col)]
    }

    /// Redraw every row from the grid.
    pub open spec fn redraw_all(self) -> ShellView {
        ShellView { ops: self.ops + rows_ops(self.cells, self.colors, ROWS as nat), ..self }
    }

    /// Move the grid up one row, blank the bottom row, put the cursor at its
    /// start and redraw.
    pub open spec fn scroll(self) -> ShellView {
        ShellView {
            row: (ROWS - 1) as nat,
            col: 0,
            cells: shifted_up(self.cells, SPACE),
            colors: shifted_up(self.colors, FG),
            ..self
        }.redraw_all()
    }

    /// Cursor to the start of the next row, scrolling from the bottom row.
    pub open spec fn newline(self) -> ShellView {
        if self.row + 1 >= ROWS {
            self.scroll()
        } else {
            ShellView { row: self.row + 1, col: 0, ..self }
        }
    }

    /// Store `ch` in `color` at the cursor, draw it, and advance.
    pub open spec fn put_char(self, ch: u8, color: u32) -> ShellView {
        let i = cell_index(self.row as int, self.col as int);
        ShellView {
            col: self.col + 1,
            cells: self.cells.update(i, ch),
            colors: self.colors.update(i, color),
            ops: self.ops.push(glyph_at(self.row as int, self.col as int, ch, color)),
            ..self
        }
    }

    /// Write one character: a newline for `'\n'`; otherwise the character
    /// at the cursor, wrapping to the next row first when this one is full.
    pub open spec fn write_char(self, ch: u8, color: u32) -> ShellView {
        if ch == NEWLINE {
            self.newline()
        } else if self.col >= COLS {
            self.newline().put_char(ch, color)
        } else {
            self.put_char(ch, color)
        }
    }

    /// Write the characters of `s` in turn.
    pub open spec fn write_str(self, s: Seq<u8>, color: u32) -> ShellView
        decreases s.len(),
    {
        if s.len() == 0 {
            self
        } else {
            self.write_char(s[0], color).write_str(s.drop_first(), color)
        }
    }

    /// Step back one cell and blank it, unless at the start of the row.
    pub open spec fn backspace(self) -> ShellView {
        if self.col > 0 {
            let col = (self.col - 1) as nat;
            let i = cell_index(self.row as int, col as int);
            ShellView {
                col,
                cells: self.cells.update(i, SPACE),
                colors: self.colors.update(i, FG),
                ops: self.ops.push(glyph_at(self.row as int, col as int, SPACE, FG)),
                ..self
            }
        } else {
            self
        }
    }

    /// Write `n` in decimal.
    pub open spec fn write_number(self, n: nat, color: u32) -> ShellView {
        self.write_str(decimal(n), color)
    }

    /// Set up the display: mode set, title and status bars, then the grid.
    pub open spec fn init_screen(self) -> ShellView {
        ShellView { ops: self.ops + chrome_ops(), ..self }.redraw_all()
    }

    /// Write the prompt.
    pub open spec fn prompt(self) -> ShellView {
        self.write_str(ascii("nolos> "@), PROMPT_FG)
    }
}

/// The decimal digits of `n`, most significant first, without leading
/// zeros ("0" for zero).
pub open spec fn decimal(n: nat) -> Seq<u8>
    decreases n,
{
    if n < 10 {
        seq![(0x30 + n) as u8]
    } else {
        decimal(n / 10).push((0x30 + n % 10) as u8)
    }
}

/// The scan codes that type a character in the shell, with the character
/// (digits row, letters of the AZERTY layout, space).
pub open spec fn char_keymap() -> Seq<(u8, u8)> {
    seq![
        (0x02u8, 0x31u8), (0x03, 0x32), (0x04, 0x33), (0x05, 0x34), // 1 2 3 4
        (0x06, 0x35), (0x07, 0x36), (0x08, 0x37), (0x09, 0x38), // 5 6 7 8
        (0x0A, 0x39), (0x0B, 0x30), // 9 0
        (0x10, 0x61), (0x11, 0x7A), (0x12, 0x65), (0x13, 0x72), // a z e r
        (0x14, 0x74), (0x15, 0x79), (0x16, 0x75), (0x17, 0x69), // t y u i
        (0x18, 0x6F), (0x19, 0x70), // o p
        (0x1E, 0x71), (0x1F, 0x73), (0x20, 0x64), (0x21, 0x66), // q s d f
        (0x22, 0x67), (0x23, 0x68), (0x24, 0x6A), (0x25, 0x6B), // g h j k
        (0x26, 0x6C), (0x27, 0x6D), // l m
        (0x2C, 0x77), (0x2D, 0x78), (0x2E, 0x63), (0x2F, 0x76), // w x c v
        (0x30, 0x62), (0x31, 0x6E), // b n
        (0x39, 0x20), // space
    ]
}

/// The character paired with `code` by the first entry of `table` that has
/// it, if any.
pub open spec fn lookup(table: Seq<(u8, u8)>, code: u8) -> Option<u8>
    decreases table.len(),
{
    if table.len() == 0 {
        None
    } else if table[0].0 == code {
        Some(table[0].1)
    } else {
        lookup(table.drop_first(), code)
    }
}

/// The character a scan code types in the shell.
pub open spec fn scancode_char(sc: u8) -> Option<u8> {
    lookup(char_keymap(), sc)
}

/// The named colors shown by the `colors` command, with their labels.
pub open spec fn palette() -> Seq<(u32, Seq<u8>)> {
    seq![
        (colors::RED, ascii("RED    "@)),
        (colors::GREEN, ascii("GREEN  "@)),
        (colors::YELLOW, ascii("YELLOW "@)),
        (colors::CYAN, ascii("CYAN   "@)),
        (colors::MAGENTA, ascii("MAGENTA"@)),
        (colors::ORANGE, ascii("ORANGE "@)),
        (colors::PURPLE, ascii("PURPLE "@)),
        (colors::LIGHT_GREEN, ascii("LGREEN "@)),
        (colors::LIGHT_RED, ascii("LRED   "@)),
        (colors::PINK, ascii("PINK   "@)),
        (colors::WHITE, ascii("WHITE  "@)),
    ]
}

/// The drawing that `init_screen` issues before redrawing the grid: mode
/// set, black screen, title bar and status bar.
pub open spec fn chrome_ops() -> Seq<DrawOp> {
    seq![
        DrawOp::SetMode,
        DrawOp::Clear { color: BG },
        DrawOp::FillRect { x: 0, y: 0, w: 640, h: 16, color: colors::DARK_BLUE },
        DrawOp::FillRect { x: 0, y: 15, w: 640, h: 1, color: colors::LIGHT_BLUE },
        DrawOp::Text {
            x: 6,
            y: 4,
            text: "NolOS v0.6.0  |  bare-metal Rust kernel  |  640x480x32bpp",
            fg: colors::WHITE,
            bg: colors::DARK_BLUE,
        },
        DrawOp::FillRect { x: 0, y: 466, w: 640, h: 14, color: colors::DARK_GRAY },
        DrawOp::FillRect { x: 0, y: 466, w: 640, h: 1, color: colors::LIGHT_GRAY },
        DrawOp::Text {
            x: 6,
            y: 469,
            text: "NolOS Shell  |  type 'help' for commands",
            fg: colors::LIGHT_GRAY,
            bg: colors::DARK_GRAY,
        },
    ]
}

/// The fill that blanks the whole text area.
pub open spec fn text_area_fill() -> DrawOp {
    DrawOp::FillRect { x: X_OFF, y: Y_OFF, w: 624, h: 440, color: BG }
}

impl ShellView {
    /// Write `s` in `color` and end the line.
    pub open spec fn line_out(self, s: Seq<u8>, color: u32) -> ShellView {
        self.write_str(s, color).newline()
    }

    /// For each entry of `entries`: two spaces, the label in its color, a
    /// space.
    pub open spec fn palette_out(self, entries: Seq<(u32, Seq<u8>)>) -> ShellView
        decreases entries.len(),
    {
        if entries.len() == 0 {
            self
        } else {
            self.palette_entry(entries[0]).palette_out(entries.drop_first())
        }
    }

    pub open spec fn palette_entry(self, entry: (u32, Seq<u8>)) -> ShellView {
        self.write_str(ascii("  "@), FG).write_str(entry.1, entry.0).write_char(SPACE, FG)
    }

    /// The `help` command.
    pub open spec fn help(self) -> ShellView {
        self.line_out(ascii("Commands:"@), INFO_FG)
            .line_out(ascii("  help   - This message"@), FG)
            .line_out(ascii("  clear  - Clear screen"@), FG)
            .line_out(ascii("  uname  - Kernel info"@), FG)
            .line_out(ascii("  mem    - Memory stats"@), FG)
            .line_out(ascii("  colors - Color palette"@), FG)
            .line_out(ascii("  halt   - Halt CPU"@), FG)
    }

    /// The `clear` command: blank grid, cursor home, text area blanked.
    pub open spec fn clear_text(self) -> ShellView {
        ShellView {
            row: 0,
            col: 0,
            cells: blank_cells(),
            colors: default_colors(),
            ops: self.ops.push(text_area_fill()),
            ..self
        }
    }

    /// The `uname` command.
    pub open spec fn uname(self) -> ShellView {
        self.line_out(ascii("NolOS 0.6.0 x86 bare-metal Rust 640x480x32bpp"@), PROMPT_FG)
    }

    /// The `mem` command for a heap with `used` bytes in use out of `total`
    /// and `count` allocations.
    pub open spec fn mem(self, used: nat, total: nat, count: nat) -> ShellView {
        self.write_str(ascii("Heap: "@), INFO_FG)
            .write_number(used, FG)
            .write_str(ascii(" / "@), FG)
            .write_number(total, FG)
            .write_str(ascii(" bytes  |  Allocs: "@), INFO_FG)
            .write_number(count, FG)
            .newline()
    }

    /// The `colors` command.
    pub open spec fn show_palette(self) -> ShellView {
        self.line_out(ascii("True color palette:"@), INFO_FG).palette_out(palette()).newline()
    }

    /// The `halt` command's message; the CPU then stops.
    pub open spec fn halting(self) -> ShellView {
        self.line_out(ascii("Halting CPU..."@), ERR_FG)
    }

    /// Any other command line.
    pub open spec fn unknown(self, cmd: Seq<u8>) -> ShellView {
        self.write_str(ascii("Unknown command: "@), ERR_FG).write_str(cmd, FG).newline()
    }

    /// Run command line `cmd` against a heap with `used` bytes in use out of
    /// `total` and `count` allocations.
    pub open spec fn dispatch(self, cmd: Seq<u8>, used: nat, total: nat, count: nat) -> ShellView {
        if cmd == ascii("help"@) {
            self.help()
        } else if cmd == ascii("clear"@) {
            self.clear_text()
        } else if cmd == ascii("uname"@) {
            self.uname()
        } else if cmd == ascii("mem"@) {
            self.mem(used, total, count)
        } else if cmd == ascii("colors"@) {
            self.show_palette()
        } else if cmd == ascii("halt"@) {
            self.halting()
        } else {
            self.unknown(cmd)
        }
    }

    /// The greeting written when the shell starts: welcome line, a blank
    /// line, then the prompt.
    pub open spec fn greet(self) -> ShellView {
        self.write_str(ascii("Welcome to NolOS! Type 'help' for commands."@), INFO_FG)
            .newline()
            .newline()
            .prompt()
    }

    /// The shell after scan code `sc`, with the heap's figures for `mem`.
    pub open spec fn key(self, sc: u8, used: nat, total: nat, count: nat) -> ShellView {
        if sc >= 0x80 {
            self
        } else if sc == SC_ENTER {
            let s = ShellView { line: Seq::empty(), ..self.newline() };
            if self.line.len() > 0 {
                let s2 = s.dispatch(self.line, used, total, count);
                if is_halt(self.line) {
                    s2
                } else {
                    s2.prompt()
                }
            } else {
                s.prompt()
            }
        } else if sc == SC_BACKSPACE {
            if self.line.len() > 0 {
                ShellView { line: self.line.drop_last(), ..self }.backspace()
            } else {
                self
            }
        } else {
            match scancode_char(sc) {
                Some(ch) => if self.line.len() < LINE_CAPACITY - 1 {
                    ShellView { line: self.line.push(ch), ..self }.write_char(ch, FG)
                } else {
                    self
                },
                None => self,
            }
        }
    }
}

/// The command line stops the CPU.
pub open spec fn is_halt(cmd: Seq<u8>) -> bool {
    cmd == ascii("halt"@)
}

/// What the program around the shell does after scan code `sc`: stop only
/// when Enter submits `halt`.
pub open spec fn key_action(line: Seq<u8>, sc: u8) -> ShellAction {
    if sc == SC_ENTER && line.len() > 0 && is_halt(line) {
        ShellAction::Halt
    } else {
        ShellAction::Continue
    }
}

/// Writing `entries` and then `e` is writing `entries.push(e)`.
pub proof fn lemma_palette_out_push(v: ShellView, entries: Seq<(u32, Seq<u8>)>, e: (u32, Seq<u8>))
    ensures
        v.palette_out(entries.push(e)) == v.palette_out(entries).palette_entry(e),
    decreases entries.len(),
{
    if entries.len() == 0 {
        assert(entries.push(e).drop_first() =~= Seq::<(u32, Seq<u8>)>::empty());
        assert(v.palette_out(entries.push(e)) == v.palette_entry(e).palette_out(Seq::empty()));
    } else {
        assert(entries.push(e).drop_first() =~= entries.drop_first().push(e));
        lemma_palette_out_push(v.palette_entry(entries[0]), entries.drop_first(), e);
    }
}

pub struct GfxShell {
    row: usize,
    col: usize,
    buf: Vec<u8>,
    colors: Vec<u32>,
    ops: Vec<DrawOp>,
    line: Vec<u8>,
}

impl View for GfxShell {
    type V = ShellView;

    closed spec fn view(&self) -> ShellView {
        ShellView {
            row: self.row as nat,
            col: self.col as nat,
            cells: self.buf@,
            colors: self.colors@,
            ops: self.ops@,
            line: self.line@,
        }
    }
}

/// Writing `s` and then `ch` is writing `s.push(ch)`.
pub proof fn lemma_write_str_push(v: ShellView, s: Seq<u8>, ch: u8, color: u32)
    ensures
        v.write_str(s.push(ch), color) == v.write_str(s, color).write_char(ch, color),
    decreases s.len(),
{
    if s.len() == 0 {
        assert(s.push(ch).drop_first() =~= Seq::<u8>::empty());
        assert(v.write_str(s.push(ch), color) == v.write_char(ch, color).write_str(
            Seq::empty(),
            color,
        ));
    } else {
        assert(s.push(ch).drop_first() =~= s.drop_first().push(ch));
        lemma_write_str_push(v.write_char(s[0], color), s.drop_first(), ch, color);
    }
}

impl GfxShell {
    /// Cursor and grid stay in range; the line stays below its capacity.
    pub open spec fn wf(&self) -> bool {
        self@.wf()
    }

    pub fn new() -> (sh: Self)
        ensures
            sh.wf(),
            sh@ == (ShellView {
                row: 0,
                col: 0,
                cells: blank_cells(),
                colors: default_colors(),
                ops: Seq::empty(),
                line: Seq::empty(),
            }),
    {
        let mut buf: Vec<u8> = Vec::new();
        let mut colors: Vec<u32> = Vec::new();
        let mut i: usize = 0;
        while i < CELLS
            invariant
                i <= CELLS,
                buf@.len() == i,
                colors@.len() == i,
                forall|j: int| 0 <= j < i ==> buf@[j] == SPACE && colors@[j] == FG,
            decreases CELLS - i,
        {
            buf.push(SPACE);
            colors.push(FG);
            i = i + 1;
        }
        assert(buf@ =~= blank_cells());
        assert(colors@ =~= default_colors());
        GfxShell { row: 0, col: 0, buf, colors, ops: Vec::new(), line: Vec::new() }
    }

    fn redraw_row(&mut self, row: usize)
        requires
            old(self).wf(),
            row < ROWS,
        ensures
            final(self).wf(),
            final(self)@ == (ShellView {
                ops: old(self)@.ops + row_ops(old(self)@.cells, old(self)@.colors, row as int),
                ..old(self)@
            }),
    {
        let y = Y_OFF + row * CHAR_H;
        self.ops.push(DrawOp::FillRect { x: X_OFF, y, w: COLS * CHAR_W, h: CHAR_H, color: BG });
        let mut col: usize = 0;
        while col < COLS
            invariant
                self.wf(),
                row < ROWS,
                col <= COLS,
                y == Y_OFF + row * CHAR_H,
                self.row == old(self).row,
                self.col == old(self).col,
                self.buf@ == old(self).buf@,
                self.colors@ == old(self).colors@,
                self.line@ == old(self).line@,
                self.ops@ == old(self)@.ops + seq![row_fill(row as int)] + row_glyphs(
                    self.buf@,
                    self.colors@,
                    row as int,
                    col as nat,
                ),
            decreases COLS - col,
        {
            let ch = self.buf[row * COLS + col];
            let fg = self.colors[row * COLS + col];
            if ch != SPACE {
                self.ops.push(DrawOp::Glyph { x: X_OFF + col * CHAR_W, y, ch, fg, bg: BG });
            }
            proof {
                assert(self.ops@ =~= old(self)@.ops + seq![row_fill(row as int)] + row_glyphs(
                    self.buf@,
                    self.colors@,
                    row as int,
                    (col + 1) as nat,
                ));
            }
            col = col + 1;
        }
        assert(self.ops@ =~= old(self)@.ops + row_ops(old(self)@.cells, old(self)@.colors, row as int));
    }

    fn redraw_all(&mut self)
        requires
            old(self).wf(),
        ensures
            final(self).wf(),
            final(self)@ == old(self)@.redraw_all(),
    {
        let mut row: usize = 0;
        while row < ROWS
            invariant
                self.wf(),
                row <= ROWS,
                self@ == (ShellView {
                    ops: old(self)@.ops + rows_ops(old(self)@.cells, old(self)@.colors, row as nat),
                    ..old(self)@
                }),
            decreases ROWS - row,
        {
            self.redraw_row(row);
            assert(old(self)@.ops + rows_ops(old(self)@.cells, old(self)@.colors, (row + 1) as nat)
                =~= old(self)@.ops + rows_ops(old(self)@.cells, old(self)@.colors, row as nat)
                + row_ops(old(self)@.cells, old(self)@.colors, row as int));
            row = row + 1;
        }
    }

    fn scroll(&mut self)
        requires
            old(self).wf(),
        ensures
            final(self).wf(),
            final(self)@ == old(self)@.scroll(),
    {
        let ghost cells0 = self.buf@;
        let ghost colors0 = self.colors@;
        let mut i: usize = 0;
        while i < CELLS - COLS
            invariant
                self.wf(),
                i <= CELLS - COLS,
                self.row == old(self).row,
                self.col == old(self).col,
                self.ops@ == old(self).ops@,
                self.line@ == old(self).line@,
                cells0 == old(self)@.cells,
                colors0 == old(self)@.colors,
                forall|j: int|
                    0 <= j < CELLS ==> #[trigger] self.buf@[j] == if j < i {
                        cells0[j + COLS]
                    } else {
                        cells0[j]
                    },
                forall|j: int|
                    0 <= j < CELLS ==> #[trigger] self.colors@[j] == if j < i {
                        colors0[j + COLS]
                    } else {
                        colors0[j]
                    },
            decreases CELLS - COLS - i,
        {
            let b = self.buf[i + COLS];
            self.buf.set(i, b);
            let c = self.colors[i + COLS];
            self.colors.set(i, c);
            i = i + 1;
        }
        while i < CELLS
            invariant
                self.wf(),
                CELLS - COLS <= i <= CELLS,
                self.row == old(self).row,
                self.col == old(self).col,
                self.ops@ == old(self).ops@,
                self.line@ == old(self).line@,
                forall|j: int|
                    0 <= j < CELLS ==> #[trigger] self.buf@[j] == if j < CELLS - COLS {
                        cells0[j + COLS]
                    } else if j < i {
                        SPACE
                    } else {
                        cells0[j]
                    },
                forall|j: int|
                    0 <= j < CELLS ==> #[trigger] self.colors@[j] == if j < CELLS - COLS {
                        colors0[j + COLS]
                    } else if j < i {
                        FG
                    } else {
                        colors0[j]
                    },
            decreases CELLS - i,
        {
            self.buf.set(i, SPACE);
            self.colors.set(i, FG);
            i = i + 1;
        }
        assert(self.buf@ =~= shifted_up(cells0, SPACE));
        assert(self.colors@ =~= shifted_up(colors0, FG));
        self.row = ROWS - 1;
        self.col = 0;
        self.redraw_all();
    }

    pub fn newline(&mut self)
        requires
            old(self).wf(),
        ensures
            final(self).wf(),
            final(self)@ == old(self)@.newline(),
    {
        self.col = 0;
        if self.row + 1 >= ROWS {
            self.scroll();
        } else {
            self.row += 1;
        }
    }

    pub fn write_char(&mut self, ch: u8, color: u32)
        requires
            old(self).wf(),
        ensures
            final(self).wf(),
            final(self)@ == old(self)@.write_char(ch, color),
    {
        if ch == NEWLINE {
            self.newline();
            return;
        }
        if self.col >= COLS {
            self.newline();
        }
        let i = self.row * COLS + self.col;
        self.buf.set(i, ch);
        self.colors.set(i, color);
        let x = X_OFF + self.col * CHAR_W;
        let y = Y_OFF + self.row * CHAR_H;
        self.ops.push(DrawOp::Glyph { x, y, ch, fg: color, bg: BG });
        self.col += 1;
    }

    pub fn write_str(&mut self, s: &[u8], color: u32)
        requires
            old(self).wf(),
        ensures
            final(self).wf(),
            final(self)@ == old(self)@.write_str(s@, color),
    {
        let mut i: usize = 0;
        while i < s.len()
            invariant
                self.wf(),
                i <= s@.len(),
                self@ == old(self)@.write_str(s@.subrange(0, i as int), color),
            decreases s@.len() - i,
        {
            proof {
                lemma_write_str_push(old(self)@, s@.subrange(0, i as int), s@[i as int], color);
                assert(s@.subrange(0, i + 1) =~= s@.subrange(0, i as int).push(s@[i as int]));
            }
            self.write_char(s[i], color);
            i = i + 1;
        }
        assert(s@.subrange(0, i as int) =~= s@);
    }

    pub fn backspace(&mut self)
        requires
            old(self).wf(),
        ensures
            final(self).wf(),
            final(self)@ == old(self)@.backspace(),
    {
        if self.col > 0 {
            self.col -= 1;
            let i = self.row * COLS + self.col;
            self.buf.set(i, SPACE);
            self.colors.set(i, FG);
            let x = X_OFF + self.col * CHAR_W;
            let y = Y_OFF + self.row * CHAR_H;
            self.ops.push(DrawOp::Glyph { x, y, ch: SPACE, fg: FG, bg: BG });
        }
    }

    pub fn prompt(&mut self)
        requires
            old(self).wf(),
        ensures
            final(self).wf(),
            final(self)@ == old(self)@.prompt(),
    {
        let text = "nolos> ";
        proof {
            reveal_strlit("nolos> ");
        }
        self.write_str(lit(text), PROMPT_FG);
    }

    pub fn write_usize(&mut self, n: usize, color: u32)
        requires
            old(self).wf(),
        ensures
            final(self).wf(),
            final(self)@ == old(self)@.write_number(n as nat, color),
    {
        if n == 0 {
            self.write_char(0x30, color);
            assert(decimal(0) =~= seq![0x30u8]);
            assert(seq![0x30u8].drop_first() =~= Seq::<u8>::empty());
            assert(old(self)@.write_str(seq![0x30u8], color) == old(self)@.write_char(
                0x30,
                color,
            ).write_str(Seq::empty(), color));
            return;
        }
        // Digits, least significant first.
        let mut tmp: Vec<u8> = Vec::new();
        let mut m: usize = n;
        let ghost mut acc: Seq<u8> = Seq::empty();
        while m > 0
            invariant
                tmp@.len() == acc.len(),
                forall|k: int| 0 <= k < acc.len() ==> #[trigger] tmp@[k] == acc[acc.len() - 1 - k],
                m > 0 ==> decimal(m as nat) + acc == decimal(n as nat),
                m == 0 ==> acc == decimal(n as nat),
            decreases m,
        {
            let d = (m % 10) as u8;
            proof {
                if m >= 10 {
                    assert(decimal(m as nat) == decimal((m / 10) as nat).push((0x30 + m % 10) as u8));
                    assert(decimal((m / 10) as nat) + (seq![(0x30 + d) as u8] + acc) =~= decimal(
                        m as nat,
                    ) + acc);
                } else {
                    assert(decimal(m as nat) =~= seq![(0x30 + d) as u8]);
                }
                acc = seq![(0x30 + d) as u8] + acc;
            }
            tmp.push(0x30 + d);
            m = m / 10;
        }
        let len = tmp.len();
        let mut j: usize = len;
        while j > 0
            invariant
                self.wf(),
                j <= len,
                len == tmp@.len(),
                tmp@.len() == acc.len(),
                acc == decimal(n as nat),
                forall|k: int| 0 <= k < acc.len() ==> #[trigger] tmp@[k] == acc[acc.len() - 1 - k],
                self@ == old(self)@.write_str(acc.subrange(0, len - j), color),
            decreases j,
        {
            j = j - 1;
            let ch = tmp[j];
            proof {
                assert(ch == acc[len - 1 - j]);
                lemma_write_str_push(old(self)@, acc.subrange(0, len - 1 - j), ch, color);
                assert(acc.subrange(0, len - j) =~= acc.subrange(0, len - 1 - j).push(ch));
            }
            self.write_char(ch, color);
        }
        assert(acc.subrange(0, len as int) =~= acc);
    }

    /// Set up the display and draw the title bar, the status bar and the
    /// grid.
    pub fn init_screen(&mut self)
        requires
            old(self).wf(),
        ensures
            final(self).wf(),
            final(self)@ == old(self)@.init_screen(),
    {
        self.ops.push(DrawOp::SetMode);
        self.ops.push(DrawOp::Clear { color: BG });
        // Title bar
        self.ops.push(
            DrawOp::FillRect {
                x: 0,
                y: 0,
                w: framebuffer::SCREEN_WIDTH,
                h: 16,
                color: colors::DARK_BLUE,
            },
        );
        self.ops.push(
            DrawOp::FillRect {
                x: 0,
                y: 15,
                w: framebuffer::SCREEN_WIDTH,
                h: 1,
                color: colors::LIGHT_BLUE,
            },
        );
        self.ops.push(
            DrawOp::Text {
                x: 6,
                y: 4,
                text: "NolOS v0.6.0  |  bare-metal Rust kernel  |  640x480x32bpp",
                fg: colors::WHITE,
                bg: colors::DARK_BLUE,
            },
        );
        // Bottom bar
        self.ops.push(
            DrawOp::FillRect {
                x: 0,
                y: framebuffer::SCREEN_HEIGHT - 14,
                w: framebuffer::SCREEN_WIDTH,
                h: 14,
                color: colors::DARK_GRAY,
            },
        );
        self.ops.push(
            DrawOp::FillRect {
                x: 0,
                y: framebuffer::SCREEN_HEIGHT - 14,
                w: framebuffer::SCREEN_WIDTH,
                h: 1,
                color: colors::LIGHT_GRAY,
            },
        );
        self.ops.push(
            DrawOp::Text {
                x: 6,
                y: framebuffer::SCREEN_HEIGHT - 11,
                text: "NolOS Shell  |  type 'help' for commands",
                fg: colors::LIGHT_GRAY,
                bg: colors::DARK_GRAY,
            },
        );
        assert(self.ops@ =~= old(self)@.ops + chrome_ops());
        self.redraw_all();
    }

    /// The start of a session: the greeting and the first prompt.
    pub fn greet(&mut self)
        requires
            old(self).wf(),
        ensures
            final(self).wf(),
            final(self)@ == old(self)@.greet(),
    {
        let text = "Welcome to NolOS! Type 'help' for commands.";
        proof {
            reveal_strlit("Welcome to NolOS! Type 'help' for commands.");
        }
        self.write_str(lit(text), INFO_FG);
        self.newline();
        self.newline();
        self.prompt();
    }

    fn line_out(&mut self, s: &[u8], color: u32)
        requires
            old(self).wf(),
        ensures
            final(self).wf(),
            final(self)@ == old(self)@.line_out(s@, color),
    {
        self.write_str(s, color);
        self.newline();
    }

    fn help(&mut self)
        requires
            old(self).wf(),
        ensures
            final(self).wf(),
            final(self)@ == old(self)@.help(),
    {
        proof {
            reveal_strlit("Commands:");
            reveal_strlit("  help   - This message");
            reveal_strlit("  clear  - Clear screen");
            reveal_strlit("  uname  - Kernel info");
            reveal_strlit("  mem    - Memory stats");
            reveal_strlit("  colors - Color palette");
            reveal_strlit("  halt   - Halt CPU");
        }
        self.line_out(lit("Commands:"), INFO_FG);
        self.line_out(lit("  help   - This message"), FG);
        self.line_out(lit("  clear  - Clear screen"), FG);
        self.line_out(lit("  uname  - Kernel info"), FG);
        self.line_out(lit("  mem    - Memory stats"), FG);
        self.line_out(lit("  colors - Color palette"), FG);
        self.line_out(lit("  halt   - Halt CPU"), FG);
    }

    fn clear_text(&mut self)
        requires
            old(self).wf(),
        ensures
            final(self).wf(),
            final(self)@ == old(self)@.clear_text(),
    {
        let mut i: usize = 0;
        while i < CELLS
            invariant
                self.wf(),
                i <= CELLS,
                self.row == old(self).row,
                self.col == old(self).col,
                self.ops@ == old(self).ops@,
                self.line@ == old(self).line@,
                forall|j: int| 0 <= j < i ==> self.buf@[j] == SPACE && self.colors@[j] == FG,
            decreases CELLS - i,
        {
            self.buf.set(i, SPACE);
            self.colors.set(i, FG);
            i = i + 1;
        }
        assert(self.buf@ =~= blank_cells());
        assert(self.colors@ =~= default_colors());
        self.row = 0;
        self.col = 0;
        self.ops.push(
            DrawOp::FillRect { x: X_OFF, y: Y_OFF, w: COLS * CHAR_W, h: ROWS * CHAR_H, color: BG },
        );
    }

    fn uname(&mut self)
        requires
            old(self).wf(),
        ensures
            final(self).wf(),
            final(self)@ == old(self)@.uname(),
    {
        proof {
            reveal_strlit("NolOS 0.6.0 x86 bare-metal Rust 640x480x32bpp");
        }
        self.line_out(lit("NolOS 0.6.0 x86 bare-metal Rust 640x480x32bpp"), PROMPT_FG);
    }

    fn mem(&mut self, heap: &BumpHeap)
        requires
            old(self).wf(),
        ensures
            final(self).wf(),
            final(self)@ == old(self)@.mem(heap.used(), allocator::HEAP_SIZE as nat, heap.count()),
    {
        proof {
            reveal_strlit("Heap: ");
            reveal_strlit(" / ");
            reveal_strlit(" bytes  |  Allocs: ");
        }
        self.write_str(lit("Heap: "), INFO_FG);
        self.write_usize(allocator::used_bytes(heap), FG);
        self.write_str(lit(" / "), FG);
        self.write_usize(allocator::total_bytes(), FG);
        self.write_str(lit(" bytes  |  Allocs: "), INFO_FG);
        self.write_usize(allocator::alloc_count(heap), FG);
        self.newline();
    }

    fn show_palette(&mut self)
        requires
            old(self).wf(),
        ensures
            final(self).wf(),
            final(self)@ == old(self)@.show_palette(),
    {
        proof {
            reveal_strlit("True color palette:");
            reveal_strlit("  ");
            reveal_strlit("RED    ");
            reveal_strlit("GREEN  ");
            reveal_strlit("YELLOW ");
            reveal_strlit("CYAN   ");
            reveal_strlit("MAGENTA");
            reveal_strlit("ORANGE ");
            reveal_strlit("PURPLE ");
            reveal_strlit("LGREEN ");
            reveal_strlit("LRED   ");
            reveal_strlit("PINK   ");
            reveal_strlit("WHITE  ");
        }
        self.line_out(lit("True color palette:"), INFO_FG);
        let table: [(u32, &[u8]); 11] = [
            (colors::RED, lit("RED    ")),
            (colors::GREEN, lit("GREEN  ")),
            (colors::YELLOW, lit("YELLOW ")),
            (colors::CYAN, lit("CYAN   ")),
            (colors::MAGENTA, lit("MAGENTA")),
            (colors::ORANGE, lit("ORANGE ")),
            (colors::PURPLE, lit("PURPLE ")),
            (colors::LIGHT_GREEN, lit("LGREEN ")),
            (colors::LIGHT_RED, lit("LRED   ")),
            (colors::PINK, lit("PINK   ")),
            (colors::WHITE, lit("WHITE  ")),
        ];
        let ghost entries = table@.map_values(|e: (u32, &[u8])| (e.0, e.1@));
        assert(entries =~= palette());
        let indent = lit("  ");
        let ghost start = self@;
        let mut i: usize = 0;
        while i < 11
            invariant
                self.wf(),
                i <= 11,
                indent@ == ascii("  "@),
                entries == table@.map_values(|e: (u32, &[u8])| (e.0, e.1@)),
                entries.len() == 11,
                self@ == start.palette_out(entries.subrange(0, i as int)),
            decreases 11 - i,
        {
            let (c, name) = table[i];
            proof {
                lemma_palette_out_push(start, entries.subrange(0, i as int), entries[i as int]);
                assert(entries.subrange(0, i + 1) =~= entries.subrange(0, i as int).push(
                    entries[i as int],
                ));
            }
            self.write_str(indent, FG);
            self.write_str(name, c);
            self.write_char(SPACE, FG);
            i = i + 1;
        }
        assert(entries.subrange(0, 11) =~= entries);
        self.newline();
    }

    fn halting(&mut self)
        requires
            old(self).wf(),
        ensures
            final(self).wf(),
            final(self)@ == old(self)@.halting(),
    {
        proof {
            reveal_strlit("Halting CPU...");
        }
        self.line_out(lit("Halting CPU..."), ERR_FG);
    }

    fn unknown(&mut self, cmd: &[u8])
        requires
            old(self).wf(),
        ensures
            final(self).wf(),
            final(self)@ == old(self)@.unknown(cmd@),
    {
        proof {
            reveal_strlit("Unknown command: ");
        }
        self.write_str(lit("Unknown command: "), ERR_FG);
        self.write_str(cmd, FG);
        self.newline();
    }

    /// Run command line `cmd`, reading the figures for `mem` from `heap`.
    /// Returns whether the command asks to halt the CPU.
    pub fn dispatch(&mut self, cmd: &[u8], heap: &BumpHeap) -> (halt: bool)
        requires
            old(self).wf(),
        ensures
            final(self).wf(),
            final(self)@ == old(self)@.dispatch(
                cmd@,
                heap.used(),
                allocator::HEAP_SIZE as nat,
                heap.count(),
            ),
            halt == is_halt(cmd@),
    {
        proof {
            reveal_strlit("help");
            reveal_strlit("clear");
            reveal_strlit("uname");
            reveal_strlit("mem");
            reveal_strlit("colors");
            reveal_strlit("halt");
            assert(ascii("help"@)[1] != ascii("halt"@)[1]);
            assert(ascii("help"@) != ascii("halt"@));
        }
        if bytes_eq(cmd, lit("help")) {
            self.help();
        } else if bytes_eq(cmd, lit("clear")) {
            self.clear_text();
        } else if bytes_eq(cmd, lit("uname")) {
            self.uname();
        } else if bytes_eq(cmd, lit("mem")) {
            self.mem(heap);
        } else if bytes_eq(cmd, lit("colors")) {
            self.show_palette();
        } else if bytes_eq(cmd, lit("halt")) {
            self.halting();
            return true;
        } else {
            self.unknown(cmd);
        }
        false
    }


    /// One turn of the shell's input loop: act on scan code `sc`.
    ///
    /// Key releases are ignored. Enter ends the line, runs it as a command
    /// when it is not empty, and shows a new prompt unless the command was
    /// `halt`, whose `Halt` tells the caller to stop the CPU. Backspace
    /// removes the last typed character. A key that types a character adds
    /// it to the line while the line has room, and echoes it.
    pub fn handle_scancode(&mut self, sc: u8, heap: &BumpHeap) -> (action: ShellAction)
        requires
            old(self).wf(),
        ensures
            final(self).wf(),
            final(self)@ == old(self)@.key(
                sc,
                heap.used(),
                allocator::HEAP_SIZE as nat,
                heap.count(),
            ),
            action == key_action(old(self)@.line, sc),
    {
        if sc & 0x80 != 0 {
            // ignore key release
            assert(sc >= 0x80) by (bit_vector)
                requires
                    sc & 0x80u8 != 0,
            ;
            return ShellAction::Continue;
        }
        assert(sc < 0x80) by (bit_vector)
            requires
                sc & 0x80u8 == 0,
        ;
        if sc == SC_ENTER {
            self.newline();
            let mut cmd: Vec<u8> = Vec::new();
            std::mem::swap(&mut cmd, &mut self.line);
            if cmd.len() > 0 {
                let halt = self.dispatch(cmd.as_slice(), heap);
                if halt {
                    return ShellAction::Halt;
                }
            }
            self.prompt();
        } else if sc == SC_BACKSPACE {
            if self.line.len() > 0 {
                self.line.pop();
                self.backspace();
            }
        } else {
            match scancode_to_char(sc) {
                Some(ch) => {
                    if self.line.len() < LINE_CAPACITY - 1 {
                        self.line.push(ch);
                        self.write_char(ch, FG);
                    }
                },
                None => {},
            }
        }
        ShellAction::Continue
    }

    /// Hand over the drawing operations issued so far, oldest first.
    pub fn take_ops(&mut self) -> (ops: Vec<DrawOp>)
        requires
            old(self).wf(),
        ensures
            final(self).wf(),
            ops@ == old(self)@.ops,
            final(self)@ == (ShellView { ops: Seq::empty(), ..old(self)@ }),
    {
        let mut out: Vec<DrawOp> = Vec::new();
        std::mem::swap(&mut out, &mut self.ops);
        out
    }

    /// Cursor row.
    pub fn row(&self) -> (r: usize)
        ensures
            r == self@.row,
    {
        self.row
    }

    /// Cursor column.
    pub fn col(&self) -> (r: usize)
        ensures
            r == self@.col,
    {
        self.col
    }

    /// The character in cell `(row, col)`.
    pub fn cell(&self, row: usize, col: usize) -> (r: u8)
        requires
            self.wf(),
            row < ROWS,
            col < COLS,
        ensures
            r == self@.cell(row as int, col as int),
    {
        self.buf[row * COLS + col]
    }

    /// The color of cell `(row, col)`.
    pub fn cell_color(&self, row: usize, col: usize) -> (r: u32)
        requires
            self.wf(),
            row < ROWS,
            col < COLS,
        ensures
            r == self@.cell_color(row as int, col as int),
    {
        self.colors[row * COLS + col]
    }

    /// The line typed since the last Enter.
    pub fn input(&self) -> (r: &[u8])
        ensures
            r@ == self@.line,
    {
        self.line.as_slice()
    }

}

/// The character a scan code types in the shell, if any.
pub fn scancode_to_char(sc: u8) -> (r: Option<u8>)
    ensures
        r == scancode_char(sc),
{
    let table: [(u8, u8); 37] = [
        (0x02, 0x31), (0x03, 0x32), (0x04, 0x33), (0x05, 0x34), // 1 2 3 4
        (0x06, 0x35), (0x07, 0x36), (0x08, 0x37), (0x09, 0x38), // 5 6 7 8
        (0x0A, 0x39), (0x0B, 0x30), // 9 0
        (0x10, 0x61), (0x11, 0x7A), (0x12, 0x65), (0x13, 0x72), // a z e r
        (0x14, 0x74), (0x15, 0x79), (0x16, 0x75), (0x17, 0x69), // t y u i
        (0x18, 0x6F), (0x19, 0x70), // o p
        (0x1E, 0x71), (0x1F, 0x73), (0x20, 0x64), (0x21, 0x66), // q s d f
        (0x22, 0x67), (0x23, 0x68), (0x24, 0x6A), (0x25, 0x6B), // g h j k
        (0x26, 0x6C), (0x27, 0x6D), // l m
        (0x2C, 0x77), (0x2D, 0x78), (0x2E, 0x63), (0x2F, 0x76), // w x c v
        (0x30, 0x62), (0x31, 0x6E), // b n
        (0x39, 0x20), // space
    ];
    assert(table@ =~= char_keymap());
    assert(table@.subrange(0, 37) =~= table@);
    let mut i: usize = 0;
    while i < 37
        invariant
            i <= 37,
            table@ == char_keymap(),
            lookup(table@.subrange(i as int, 37), sc) == scancode_char(sc),
        decreases 37 - i,
    {
        let (code, ch) = table[i];
        assert(table@.subrange(i as int, 37).drop_first() =~= table@.subrange(i + 1, 37));
        if code == sc {
            return Some(ch);
        }
        i = i + 1;
    }
    None
}

/// The number a string of decimal digits stands for.
pub open spec fn decimal_value(ds: Seq<u8>) -> nat
    decreases ds.len(),
{
    if ds.len() == 0 {
        0
    } else {
        decimal_value(ds.drop_last()) * 10 + (ds.last() - 0x30) as nat
    }
}

/// `decimal(n)` is a non-empty string of the digits '0' to '9' that stands
/// for `n`.
pub proof fn lemma_decimal_round_trip(n: nat)
    ensures
        decimal(n).len() >= 1,
        forall|i: int| 0 <= i < decimal(n).len() ==> 0x30 <= #[trigger] decimal(n)[i] <= 0x39,
        decimal_value(decimal(n)) == n,
    decreases n,
{
    if n >= 10 {
        lemma_decimal_round_trip(n / 10);
        assert(decimal(n).drop_last() =~= decimal(n / 10));
        vstd::arithmetic::div_mod::lemma_fundamental_div_mod(n as int, 10);
        assert(decimal(n).last() == (0x30 + n % 10) as u8);
        assert((decimal(n).last() - 0x30) as nat == n % 10);
        assert(decimal_value(decimal(n)) == decimal_value(decimal(n / 10)) * 10 + n % 10);
    } else {
        assert(decimal(n).drop_last() =~= Seq::<u8>::empty());
        assert(decimal_value(Seq::<u8>::empty()) == 0);
        assert(decimal(n).last() == (0x30 + n) as u8);
    }
}

/// Writing `a` and then `b` is writing `a + b`.
pub proof fn lemma_write_str_append(v: ShellView, a: Seq<u8>, b: Seq<u8>, color: u32)
    ensures
        v.write_str(a + b, color) == v.write_str(a, color).write_str(b, color),
    decreases a.len(),
{
    if a.len() == 0 {
        assert(a + b =~= b);
    } else {
        assert((a + b).drop_first() =~= a.drop_first() + b);
        lemma_write_str_append(v.write_char(a[0], color), a.drop_first(), b, color);
    }
}

/// A backspace after writing a character on a row that was not full puts
/// the cursor back and leaves that cell blank in the default color.
pub proof fn lemma_backspace_undoes_write_char(v: ShellView, ch: u8, color: u32)
    requires
        v.wf(),
        ch != NEWLINE,
        v.col < COLS,
    ensures
        v.write_char(ch, color).backspace().row == v.row,
        v.write_char(ch, color).backspace().col == v.col,
        v.write_char(ch, color).backspace().cells == v.cells.update(
            cell_index(v.row as int, v.col as int),
            SPACE,
        ),
        v.write_char(ch, color).backspace().colors == v.colors.update(
            cell_index(v.row as int, v.col as int),
            FG,
        ),
{
    let i = cell_index(v.row as int, v.col as int);
    assert(v.cells.update(i, ch).update(i, SPACE) =~= v.cells.update(i, SPACE));
    assert(v.colors.update(i, color).update(i, FG) =~= v.colors.update(i, FG));
}

/// A character the shell lets the user type: a lowercase letter, a digit or
/// a space.
pub open spec fn typed_char(ch: u8) -> bool {
    (0x61 <= ch <= 0x7a) || (0x30 <= ch <= 0x39) || ch == SPACE
}

/// Every scan code that types a character is a make code other than Enter
/// and Backspace, and types a lowercase letter, a digit or a space.
pub proof fn lemma_typing_codes(sc: u8)
    ensures
        scancode_char(sc) matches Some(ch) ==> sc < 0x80 && sc != SC_ENTER && sc != SC_BACKSPACE
            && typed_char(ch),
{
    let t = char_keymap();
    assert forall|i: int| 0 <= i < t.len() implies #[trigger] t[i].0 < 0x80 && t[i].0 != SC_ENTER
        && t[i].0 != SC_BACKSPACE && typed_char(t[i].1) by {}
    lemma_lookup_entry(t, sc);
}

/// A character found by `lookup` comes from an entry of the table with that
/// code.
proof fn lemma_lookup_entry(t: Seq<(u8, u8)>, code: u8)
    ensures
        lookup(t, code) matches Some(ch) ==> exists|i: int| 0 <= i < t.len() && #[trigger] t[i] == (code, ch),
    decreases t.len(),
{
    if t.len() > 0 && t[0].0 != code {
        lemma_lookup_entry(t.drop_first(), code);
        if lookup(t, code) is Some {
            let ch = lookup(t, code)->0;
            let i = choose|i: int| 0 <= i < t.drop_first().len() && #[trigger] t.drop_first()[i] == (code, ch);
            assert(t[i + 1] == (code, ch));
        }
    } else if t.len() > 0 {
        assert(t[0] == (code, t[0].1));
    }
}

/// Typing a character and then Backspace gives back the line and the cursor
/// position, and leaves the cell that held the character blank.
pub proof fn lemma_typing_then_backspace(v: ShellView, sc: u8, used: nat, total: nat, count: nat)
    requires
        v.wf(),
        scancode_char(sc) is Some,
        v.line.len() < LINE_CAPACITY - 1,
        v.col < COLS,
    ensures
        ({
            let t = v.key(sc, used, total, count).key(SC_BACKSPACE, used, total, count);
            &&& t.line == v.line
            &&& t.row == v.row
            &&& t.col == v.col
            &&& t.cells == v.cells.update(cell_index(v.row as int, v.col as int), SPACE)
            &&& t.colors == v.colors.update(cell_index(v.row as int, v.col as int), FG)
        }),
{
    lemma_typing_codes(sc);
    let ch = scancode_char(sc)->0;
    let typed = ShellView { line: v.line.push(ch), ..v };
    assert(v.key(sc, used, total, count) == typed.write_char(ch, FG));
    assert(v.line.push(ch).drop_last() =~= v.line);
    lemma_backspace_undoes_write_char(typed, ch, FG);
}

/// A key release changes nothing.
pub proof fn lemma_release_ignored(v: ShellView, sc: u8, used: nat, total: nat, count: nat)
    requires
        sc >= 0x80,
    ensures
        v.key(sc, used, total, count) == v,
        key_action(v.line, sc) == ShellAction::Continue,
{
}

/// Scrolling moves every row up by one, leaves a blank bottom row in the
/// default color, and puts the cursor at the start of the bottom row.
pub proof fn lemma_scroll_moves_rows_up(v: ShellView)
    requires
        v.wf(),
    ensures
        v.scroll().wf(),
        v.scroll().row == ROWS - 1,
        v.scroll().col == 0,
        forall|r: int, c: int|
            0 <= r < ROWS - 1 && 0 <= c < COLS ==> #[trigger] v.scroll().cell(r, c) == v.cell(
                r + 1,
                c,
            ) && v.scroll().cell_color(r, c) == v.cell_color(r + 1, c),
        forall|c: int|
            0 <= c < COLS ==> #[trigger] v.scroll().cell(ROWS - 1, c) == SPACE && v.scroll().cell_color(
                ROWS - 1,
                c,
            ) == FG,
{
}

/// The `clear` command blanks every cell, resets every color and puts the
/// cursor home.
pub proof fn lemma_clear_command(v: ShellView, used: nat, total: nat, count: nat)
    ensures
        ({
            let t = v.dispatch(ascii("clear"@), used, total, count);
            &&& t.row == 0
            &&& t.col == 0
            &&& t.cells == blank_cells()
            &&& t.colors == default_colors()
            &&& t.ops == v.ops.push(DrawOp::FillRect { x: 6, y: 20, w: 624, h: 440, color: 0 })
        }),
{
    reveal_strlit("clear");
    reveal_strlit("help");
    assert(ascii("clear"@).len() != ascii("help"@).len());
}

/// What an operation does to the frame buffer, as far as the frame buffer
/// itself draws it: a clear fills the whole screen and a fill paints its
/// rectangle. Mode setting leaves the pixels alone; glyphs and strings are
/// drawn by the bitmap font, which this model leaves out, so they change no
/// pixel here.
pub open spec fn paint_op(pixels: Seq<u32>, op: DrawOp) -> Seq<u32> {
    match op {
        DrawOp::Clear { color } => Seq::new(pixels.len(), |i: int| color),
        DrawOp::FillRect { x, y, w, h, color } => framebuffer::painted(
            pixels,
            |c: int, r: int| framebuffer::in_rect(c, r, x as int, y as int, w as int, h as int),
            color,
        ),
        _ => pixels,
    }
}

/// The frame buffer after the fills and clears of `ops`, in order.
pub open spec fn paint_ops(pixels: Seq<u32>, ops: Seq<DrawOp>) -> Seq<u32>
    decreases ops.len(),
{
    if ops.len() == 0 {
        pixels
    } else {
        paint_op(paint_ops(pixels, ops.drop_last()), ops.last())
    }
}

/// A fill that `paint` can perform without its arithmetic overflowing.
pub open spec fn paintable(op: DrawOp) -> bool {
    match op {
        DrawOp::FillRect { x, y, w, h, .. } => y + h <= usize::MAX && (h > 0 && y
            < framebuffer::SCREEN_HEIGHT ==> x + w <= usize::MAX),
        _ => true,
    }
}

/// Carry out `op` on the frame buffer when it is a clear or a fill.
/// Returns whether it was one; mode setting, glyphs and strings are left to
/// the caller.
pub fn paint(fb: &mut Framebuffer, op: &DrawOp) -> (done: bool)
    requires
        old(fb).wf(),
        paintable(*op),
    ensures
        final(fb).wf(),
        final(fb)@ == paint_op(old(fb)@, *op),
        done == (op is Clear || op is FillRect),
{
    match op {
        DrawOp::Clear { color } => {
            framebuffer::clear(fb, *color);
            true
        },
        DrawOp::FillRect { x, y, w, h, color } => {
            framebuffer::fill_rect(fb, *x, *y, *w, *h, *color);
            true
        },
        _ => false,
    }
}

/// The operation lies inside the text area, x 6..630 and y 20..460: a fill
/// within it, or a glyph whose character cell lies within it.
pub open spec fn in_text_area(op: DrawOp) -> bool {
    match op {
        DrawOp::FillRect { x, y, w, h, .. } => {
            &&& X_OFF <= x
            &&& x + w <= X_OFF + COLS * CHAR_W
            &&& Y_OFF <= y
            &&& y + h <= Y_OFF + ROWS * CHAR_H
        },
        DrawOp::Glyph { x, y, .. } => {
            &&& X_OFF <= x
            &&& x + CHAR_W <= X_OFF + COLS * CHAR_W
            &&& Y_OFF <= y
            &&& y + CHAR_H <= Y_OFF + ROWS * CHAR_H
        },
        _ => false,
    }
}

/// The pixel `(c, r)` lies in the text area.
pub open spec fn in_text_rect(c: int, r: int) -> bool {
    framebuffer::in_rect(
        c,
        r,
        X_OFF as int,
        Y_OFF as int,
        (COLS * CHAR_W) as int,
        (ROWS * CHAR_H) as int,
    )
}

/// Painting `a` and then `b` is painting `a + b`.
pub proof fn lemma_paint_ops_append(pixels: Seq<u32>, a: Seq<DrawOp>, b: Seq<DrawOp>)
    ensures
        paint_ops(pixels, a + b) == paint_ops(paint_ops(pixels, a), b),
    decreases b.len(),
{
    if b.len() == 0 {
        assert(a + b =~= a);
    } else {
        assert((a + b).drop_last() =~= a + b.drop_last());
        lemma_paint_ops_append(pixels, a, b.drop_last());
    }
}

/// Operations inside the text area change no pixel outside it: the title
/// bar, the status bar and the margins keep what they showed.
pub proof fn lemma_text_area_ops_keep_outside(pixels: Seq<u32>, ops: Seq<DrawOp>)
    requires
        pixels.len() == framebuffer::SCREEN_PIXELS,
        forall|i: int| 0 <= i < ops.len() ==> #[trigger] in_text_area(ops[i]),
    ensures
        paint_ops(pixels, ops).len() == pixels.len(),
        forall|c: int, r: int|
            0 <= c < framebuffer::SCREEN_WIDTH && 0 <= r < framebuffer::SCREEN_HEIGHT
                && !in_text_rect(c, r) ==> #[trigger] paint_ops(pixels, ops)[framebuffer::pixel_index(
                c,
                r,
            )] == pixels[framebuffer::pixel_index(c, r)],
    decreases ops.len(),
{
    if ops.len() > 0 {
        let init = ops.drop_last();
        assert forall|i: int| 0 <= i < init.len() implies #[trigger] in_text_area(init[i]) by {
            assert(in_text_area(ops[i]));
        }
        lemma_text_area_ops_keep_outside(pixels, init);
        assert(in_text_area(ops[ops.len() - 1]));
        let before = paint_ops(pixels, init);
        assert forall|c: int, r: int|
            0 <= c < framebuffer::SCREEN_WIDTH && 0 <= r < framebuffer::SCREEN_HEIGHT
                && !in_text_rect(c, r) implies #[trigger] paint_ops(pixels, ops)[framebuffer::pixel_index(
            c,
            r,
        )] == pixels[framebuffer::pixel_index(c, r)] by {
            framebuffer::lemma_pixel_coords(c, r);
            assert(paint_ops(pixels, init)[framebuffer::pixel_index(c, r)]
                == pixels[framebuffer::pixel_index(c, r)]);
        }
    }
}

/// Every redraw operation lies inside the text area.
pub proof fn lemma_rows_ops_in_text_area(cells: Seq<u8>, colors: Seq<u32>, n: nat)
    requires
        n <= ROWS,
    ensures
        forall|i: int|
            0 <= i < rows_ops(cells, colors, n).len() ==> #[trigger] in_text_area(
                rows_ops(cells, colors, n)[i],
            ),
    decreases n,
{
    if n > 0 {
        lemma_rows_ops_in_text_area(cells, colors, (n - 1) as nat);
        lemma_row_glyphs_in_text_area(cells, colors, n - 1, COLS as nat);
        let a = rows_ops(cells, colors, (n - 1) as nat);
        let b = row_ops(cells, colors, n - 1);
        assert(rows_ops(cells, colors, n) == a + b);
        assert forall|i: int| 0 <= i < (a + b).len() implies #[trigger] in_text_area((a + b)[i]) by {
            if i < a.len() {
                assert(in_text_area(a[i]));
            } else if i == a.len() {
            } else {
                let g = row_glyphs(cells, colors, n - 1, COLS as nat);
                assert((a + b)[i] == g[i - a.len() - 1]);
                assert(in_text_area(g[i - a.len() - 1]));
            }
        }
    }
}

proof fn lemma_row_glyphs_in_text_area(cells: Seq<u8>, colors: Seq<u32>, row: int, n: nat)
    requires
        0 <= row < ROWS,
        n <= COLS,
    ensures
        forall|i: int|
            0 <= i < row_glyphs(cells, colors, row, n).len() ==> #[trigger] in_text_area(
                row_glyphs(cells, colors, row, n)[i],
            ),
    decreases n,
{
    if n > 0 {
        lemma_row_glyphs_in_text_area(cells, colors, row, (n - 1) as nat);
        let a = row_glyphs(cells, colors, row, (n - 1) as nat);
        let g = row_glyphs(cells, colors, row, n);
        assert forall|i: int| 0 <= i < g.len() implies #[trigger] in_text_area(g[i]) by {
            if i < a.len() {
                assert(g[i] == a[i]);
            }
        }
    }
}

/// `init_screen`'s fills, whatever the grid holds: the title bar (y 0..16)
/// dark blue with a light blue bottom line at y 15, and the status bar
/// (y 466..480) with a light gray top line and dark gray below. The shell's
/// redraw stays above the status bar. The title and status strings are
/// drawn on the bars by the font.
#[verifier::rlimit(60)]
pub proof fn lemma_init_screen_bars(pixels: Seq<u32>, cells: Seq<u8>, colors: Seq<u32>)
    requires
        pixels.len() == framebuffer::SCREEN_PIXELS,
    ensures
        ({
            let out = paint_ops(pixels, chrome_ops() + rows_ops(cells, colors, ROWS as nat));
            &&& forall|c: int, r: int|
                0 <= c < framebuffer::SCREEN_WIDTH && 0 <= r < 15 ==> #[trigger] out[framebuffer::pixel_index(
                c,
                r,
            )] == colors::DARK_BLUE
            &&& forall|c: int|
                0 <= c < framebuffer::SCREEN_WIDTH ==> #[trigger] out[framebuffer::pixel_index(c, 15)]
                    == colors::LIGHT_BLUE
            &&& forall|c: int|
                0 <= c < framebuffer::SCREEN_WIDTH ==> #[trigger] out[framebuffer::pixel_index(c, 466)]
                    == colors::LIGHT_GRAY
            &&& forall|c: int, r: int|
                0 <= c < framebuffer::SCREEN_WIDTH && 467 <= r < framebuffer::SCREEN_HEIGHT
                    ==> #[trigger] out[framebuffer::pixel_index(c, r)] == colors::DARK_GRAY
        }),
{
    let chrome = chrome_ops();
    let redraw = rows_ops(cells, colors, ROWS as nat);
    lemma_paint_ops_append(pixels, chrome, redraw);
    let p0 = pixels;
    let p1 = paint_op(p0, chrome[0]);
    let p2 = paint_op(p1, chrome[1]);
    let p3 = paint_op(p2, chrome[2]);
    let p4 = paint_op(p3, chrome[3]);
    let p5 = paint_op(p4, chrome[4]);
    let p6 = paint_op(p5, chrome[5]);
    let p7 = paint_op(p6, chrome[6]);
    let p8 = paint_op(p7, chrome[7]);
    assert(chrome.drop_last().drop_last().drop_last().drop_last().drop_last().drop_last()
        .drop_last().drop_last() =~= Seq::<DrawOp>::empty());
    assert(paint_ops(pixels, chrome) == p8) by {
        reveal_with_fuel(paint_ops, 9);
        assert(chrome.drop_last().drop_last().drop_last().drop_last().drop_last().drop_last()
            .drop_last() =~= seq![chrome[0]]);
        assert(chrome.drop_last().drop_last().drop_last().drop_last().drop_last().drop_last()
            =~= seq![chrome[0], chrome[1]]);
        assert(chrome.drop_last().drop_last().drop_last().drop_last().drop_last() =~= seq![
            chrome[0],
            chrome[1],
            chrome[2],
        ]);
        assert(chrome.drop_last().drop_last().drop_last().drop_last() =~= seq![
            chrome[0],
            chrome[1],
            chrome[2],
            chrome[3],
        ]);
        assert(chrome.drop_last().drop_last().drop_last() =~= seq![
            chrome[0],
            chrome[1],
            chrome[2],
            chrome[3],
            chrome[4],
        ]);
        assert(chrome.drop_last().drop_last() =~= seq![
            chrome[0],
            chrome[1],
            chrome[2],
            chrome[3],
            chrome[4],
            chrome[5],
        ]);
        assert(chrome.drop_last() =~= seq![
            chrome[0],
            chrome[1],
            chrome[2],
            chrome[3],
            chrome[4],
            chrome[5],
            chrome[6],
        ]);
    }
    lemma_rows_ops_in_text_area(cells, colors, ROWS as nat);
    lemma_text_area_ops_keep_outside(p8, redraw);
    let out = paint_ops(pixels, chrome + redraw);
    assert forall|c: int, r: int|
        0 <= c < framebuffer::SCREEN_WIDTH && 0 <= r < framebuffer::SCREEN_HEIGHT && (r <= 15
            || r >= 466) implies #[trigger] out[framebuffer::pixel_index(c, r)] == (if r < 15 {
        colors::DARK_BLUE
    } else if r == 15 {
        colors::LIGHT_BLUE
    } else if r == 466 {
        colors::LIGHT_GRAY
    } else {
        colors::DARK_GRAY
    }) by {
        framebuffer::lemma_pixel_coords(c, r);
        assert(!in_text_rect(c, r));
    }
}

impl ShellView {
    /// Every cell from the cursor on is blank in the default color.
    pub open spec fn blank_from_cursor(self) -> bool {
        forall|i: int|
            cell_index(self.row as int, self.col as int) <= i < CELLS ==> #[trigger] self.cells[i]
                == SPACE && self.colors[i] == FG
    }

    /// Well-formed, blank from the cursor on, and every operation issued
    /// from index `from` on lies in the text area.
    pub open spec fn tidy(self, from: int) -> bool {
        &&& self.wf()
        &&& self.blank_from_cursor()
        &&& 0 <= from <= self.ops.len()
        &&& forall|i: int| from <= i < self.ops.len() ==> #[trigger] in_text_area(self.ops[i])
    }
}

/// The typed line holds only characters the keymap can type.
pub open spec fn typed_line(line: Seq<u8>) -> bool {
    forall|i: int| 0 <= i < line.len() ==> #[trigger] typed_char(line[i])
}

proof fn lemma_tidy_with_line(v: ShellView, line: Seq<u8>, from: int)
    requires
        v.tidy(from),
        line.len() < LINE_CAPACITY,
    ensures
        (ShellView { line, ..v }).tidy(from),
{
    let w = ShellView { line, ..v };
    assert forall|i: int| cell_index(w.row as int, w.col as int) <= i < CELLS implies #[trigger] w.cells[i]
        == SPACE && w.colors[i] == FG by {
        assert(v.cells[i] == SPACE);
    }
    assert forall|i: int| from <= i < w.ops.len() implies #[trigger] in_text_area(w.ops[i]) by {
        assert(in_text_area(v.ops[i]));
    }
}

proof fn lemma_tidy_append(v: ShellView, extra: Seq<DrawOp>, from: int)
    requires
        v.tidy(from),
        forall|i: int| 0 <= i < extra.len() ==> #[trigger] in_text_area(extra[i]),
    ensures
        (ShellView { ops: v.ops + extra, ..v }).tidy(from),
{
    let w = ShellView { ops: v.ops + extra, ..v };
    assert forall|i: int| from <= i < w.ops.len() implies #[trigger] in_text_area(w.ops[i]) by {
        if i >= v.ops.len() {
            assert(w.ops[i] == extra[i - v.ops.len()]);
        }
    }
}

/// A newline keeps the shell tidy: well-formed, blank from the cursor on,
/// and drawing only inside the text area.
pub proof fn lemma_tidy_newline(v: ShellView, from: int)
    requires
        v.tidy(from),
    ensures
        v.newline().tidy(from),
        v.newline().line == v.line,
{
    if v.row + 1 >= ROWS {
        let s = ShellView {
            row: (ROWS - 1) as nat,
            col: 0,
            cells: shifted_up(v.cells, SPACE),
            colors: shifted_up(v.colors, FG),
            ..v
        };
        assert(s.tidy(from));
        lemma_rows_ops_in_text_area(s.cells, s.colors, ROWS as nat);
        lemma_tidy_append(s, rows_ops(s.cells, s.colors, ROWS as nat), from);
    }
}

proof fn lemma_tidy_put_char(v: ShellView, ch: u8, color: u32, from: int)
    requires
        v.tidy(from),
        v.col < COLS,
    ensures
        v.put_char(ch, color).tidy(from),
        v.put_char(ch, color).line == v.line,
{
    lemma_tidy_append(
        ShellView {
            col: v.col + 1,
            cells: v.cells.update(cell_index(v.row as int, v.col as int), ch),
            colors: v.colors.update(cell_index(v.row as int, v.col as int), color),
            ..v
        },
        seq![glyph_at(v.row as int, v.col as int, ch, color)],
        from,
    );
    assert(v.ops.push(glyph_at(v.row as int, v.col as int, ch, color)) == v.ops + seq![
        glyph_at(v.row as int, v.col as int, ch, color),
    ]);
}

/// Writing a character keeps the shell tidy: the cursor stays in the grid,
/// every cell from the new cursor on is still blank in the default color,
/// and the only drawing is inside the text area.
pub proof fn lemma_tidy_write_char(v: ShellView, ch: u8, color: u32, from: int)
    requires
        v.tidy(from),
    ensures
        v.write_char(ch, color).tidy(from),
        v.write_char(ch, color).line == v.line,
{
    if ch == NEWLINE {
        lemma_tidy_newline(v, from);
    } else if v.col >= COLS {
        lemma_tidy_newline(v, from);
        lemma_tidy_put_char(v.newline(), ch, color, from);
    } else {
        lemma_tidy_put_char(v, ch, color, from);
    }
}

/// Writing a string keeps the shell tidy, as each of its characters does.
pub proof fn lemma_tidy_write_str(v: ShellView, s: Seq<u8>, color: u32, from: int)
    requires
        v.tidy(from),
    ensures
        v.write_str(s, color).tidy(from),
        v.write_str(s, color).line == v.line,
    decreases s.len(),
{
    if s.len() > 0 {
        lemma_tidy_write_char(v, s[0], color, from);
        lemma_tidy_write_str(v.write_char(s[0], color), s.drop_first(), color, from);
    }
}

/// A backspace keeps the shell tidy.
pub proof fn lemma_tidy_backspace(v: ShellView, from: int)
    requires
        v.tidy(from),
    ensures
        v.backspace().tidy(from),
        v.backspace().line == v.line,
{
    if v.col > 0 {
        let col = (v.col - 1) as nat;
        let g = glyph_at(v.row as int, col as int, SPACE, FG);
        let w = ShellView {
            col,
            cells: v.cells.update(cell_index(v.row as int, col as int), SPACE),
            colors: v.colors.update(cell_index(v.row as int, col as int), FG),
            ..v
        };
        assert forall|i: int| cell_index(w.row as int, w.col as int) <= i < CELLS implies #[trigger] w.cells[i]
            == SPACE && w.colors[i] == FG by {
            if i != cell_index(v.row as int, col as int) {
                assert(w.cells[i] == v.cells[i]);
            }
        }
        lemma_tidy_append(w, seq![g], from);
        assert(v.ops.push(g) == v.ops + seq![g]);
    }
}

proof fn lemma_tidy_line_out(v: ShellView, s: Seq<u8>, color: u32, from: int)
    requires
        v.tidy(from),
    ensures
        v.line_out(s, color).tidy(from),
        v.line_out(s, color).line == v.line,
{
    lemma_tidy_write_str(v, s, color, from);
    lemma_tidy_newline(v.write_str(s, color), from);
}

proof fn lemma_tidy_palette_out(v: ShellView, entries: Seq<(u32, Seq<u8>)>, from: int)
    requires
        v.tidy(from),
    ensures
        v.palette_out(entries).tidy(from),
        v.palette_out(entries).line == v.line,
    decreases entries.len(),
{
    if entries.len() > 0 {
        let e = entries[0];
        let a = v.write_str(ascii("  "@), FG);
        lemma_tidy_write_str(v, ascii("  "@), FG, from);
        lemma_tidy_write_str(a, e.1, e.0, from);
        lemma_tidy_write_char(a.write_str(e.1, e.0), SPACE, FG, from);
        lemma_tidy_palette_out(v.palette_entry(e), entries.drop_first(), from);
    }
}

/// Every command keeps the shell tidy.
pub proof fn lemma_tidy_dispatch(
    v: ShellView,
    cmd: Seq<u8>,
    used: nat,
    total: nat,
    count: nat,
    from: int,
)
    requires
        v.tidy(from),
    ensures
        v.dispatch(cmd, used, total, count).tidy(from),
        v.dispatch(cmd, used, total, count).line == v.line,
{
    if cmd == ascii("help"@) {
        let a = v.line_out(ascii("Commands:"@), INFO_FG);
        let b = a.line_out(ascii("  help   - This message"@), FG);
        let c = b.line_out(ascii("  clear  - Clear screen"@), FG);
        let d = c.line_out(ascii("  uname  - Kernel info"@), FG);
        let e = d.line_out(ascii("  mem    - Memory stats"@), FG);
        let f = e.line_out(ascii("  colors - Color palette"@), FG);
        lemma_tidy_line_out(v, ascii("Commands:"@), INFO_FG, from);
        lemma_tidy_line_out(a, ascii("  help   - This message"@), FG, from);
        lemma_tidy_line_out(b, ascii("  clear  - Clear screen"@), FG, from);
        lemma_tidy_line_out(c, ascii("  uname  - Kernel info"@), FG, from);
        lemma_tidy_line_out(d, ascii("  mem    - Memory stats"@), FG, from);
        lemma_tidy_line_out(e, ascii("  colors - Color palette"@), FG, from);
        lemma_tidy_line_out(f, ascii("  halt   - Halt CPU"@), FG, from);
    } else if cmd == ascii("clear"@) {
        let w = ShellView {
            row: 0,
            col: 0,
            cells: blank_cells(),
            colors: default_colors(),
            ..v
        };
        lemma_tidy_append(w, seq![text_area_fill()], from);
        assert(v.ops.push(text_area_fill()) == v.ops + seq![text_area_fill()]);
    } else if cmd == ascii("uname"@) {
        lemma_tidy_line_out(v, ascii("NolOS 0.6.0 x86 bare-metal Rust 640x480x32bpp"@), PROMPT_FG, from);
    } else if cmd == ascii("mem"@) {
        let a = v.write_str(ascii("Heap: "@), INFO_FG);
        let b = a.write_number(used, FG);
        let c = b.write_str(ascii(" / "@), FG);
        let d = c.write_number(total, FG);
        let e = d.write_str(ascii(" bytes  |  Allocs: "@), INFO_FG);
        let f = e.write_number(count, FG);
        lemma_tidy_write_str(v, ascii("Heap: "@), INFO_FG, from);
        lemma_tidy_write_str(a, decimal(used), FG, from);
        lemma_tidy_write_str(b, ascii(" / "@), FG, from);
        lemma_tidy_write_str(c, decimal(total), FG, from);
        lemma_tidy_write_str(d, ascii(" bytes  |  Allocs: "@), INFO_FG, from);
        lemma_tidy_write_str(e, decimal(count), FG, from);
        lemma_tidy_newline(f, from);
    } else if cmd == ascii("colors"@) {
        let a = v.line_out(ascii("True color palette:"@), INFO_FG);
        lemma_tidy_line_out(v, ascii("True color palette:"@), INFO_FG, from);
        lemma_tidy_palette_out(a, palette(), from);
        lemma_tidy_newline(a.palette_out(palette()), from);
    } else if cmd == ascii("halt"@) {
        lemma_tidy_line_out(v, ascii("Halting CPU..."@), ERR_FG, from);
    } else {
        let a = v.write_str(ascii("Unknown command: "@), ERR_FG);
        lemma_tidy_write_str(v, ascii("Unknown command: "@), ERR_FG, from);
        lemma_tidy_write_str(a, cmd, FG, from);
        lemma_tidy_newline(a.write_str(cmd, FG), from);
    }
}

/// Whatever key arrives, the shell stays well-formed, every cell from the
/// cursor on stays blank in the default color, every drawing operation
/// issued from `from` on lies inside the text area (so the title and status bars are never
/// drawn over), and the typed line keeps holding only characters the keymap
/// types.
pub proof fn lemma_key_keeps_shell_tidy(
    v: ShellView,
    sc: u8,
    used: nat,
    total: nat,
    count: nat,
    from: int,
)
    requires
        v.tidy(from),
        typed_line(v.line),
    ensures
        v.key(sc, used, total, count).tidy(from),
        typed_line(v.key(sc, used, total, count).line),
{
    if sc >= 0x80 {
    } else if sc == SC_ENTER {
        lemma_tidy_newline(v, from);
        let s = ShellView { line: Seq::empty(), ..v.newline() };
        lemma_tidy_with_line(v.newline(), Seq::empty(), from);
        if v.line.len() > 0 {
            lemma_tidy_dispatch(s, v.line, used, total, count, from);
            let s2 = s.dispatch(v.line, used, total, count);
            lemma_tidy_write_str(s2, ascii("nolos> "@), PROMPT_FG, from);
        } else {
            lemma_tidy_write_str(s, ascii("nolos> "@), PROMPT_FG, from);
        }
    } else if sc == SC_BACKSPACE {
        if v.line.len() > 0 {
            let w = ShellView { line: v.line.drop_last(), ..v };
            lemma_tidy_with_line(v, v.line.drop_last(), from);
            lemma_tidy_backspace(w, from);
            assert forall|i: int| 0 <= i < w.line.len() implies #[trigger] typed_char(w.line[i]) by {
                assert(w.line[i] == v.line[i]);
            }
        }
    } else {
        lemma_typing_codes(sc);
        match scancode_char(sc) {
            Some(ch) => if v.line.len() < LINE_CAPACITY - 1 {
                let w = ShellView { line: v.line.push(ch), ..v };
                lemma_tidy_with_line(v, v.line.push(ch), from);
                lemma_tidy_write_char(w, ch, FG, from);
                assert(typed_line(v.line.push(ch))) by {
                    assert forall|i: int| 0 <= i < v.line.push(ch).len() implies #[trigger] typed_char(
                        v.line.push(ch)[i],
                    ) by {
                        if i < v.line.len() {
                            assert(v.line.push(ch)[i] == v.line[i]);
                        }
                    }
                }
            },
            None => {},
        }
    }
}

/// Looking up the code of entry `i`, when no earlier entry has that code,
/// finds entry `i`'s character.
proof fn lemma_lookup_at(t: Seq<(u8, u8)>, i: int)
    requires
        0 <= i < t.len(),
        forall|j: int| 0 <= j < i ==> #[trigger] t[j].0 != t[i].0,
    ensures
        lookup(t, t[i].0) == Some(t[i].1),
    decreases i,
{
    if i > 0 {
        let rest = t.drop_first();
        assert forall|j: int| 0 <= j < i - 1 implies #[trigger] rest[j].0 != rest[i - 1].0 by {
            assert(rest[j] == t[j + 1]);
        }
        lemma_lookup_at(rest, i - 1);
        assert(t[0].0 != t[i].0);
    }
}

/// The shell's keymap as a whole: it types exactly the lowercase letters,
/// the digits and the space, each from exactly one scan code; and on the
/// letter keys and the space bar it agrees with `scancode_to_ascii`.
#[verifier::rlimit(50)]
pub proof fn lemma_char_keymap(sc1: u8, sc2: u8, ch: u8)
    ensures
        typed_char(ch) <==> exists|sc: u8| #[trigger] scancode_char(sc) == Some(ch),
        scancode_char(sc1) == Some(ch) && scancode_char(sc2) == Some(ch) ==> sc1 == sc2,
        scancode_char(sc1) == Some(ch) && (0x61 <= ch <= 0x7a || ch == SPACE)
            ==> crate::keyboard::scancode_ascii(sc1) == Some(ch),
{
    let t = char_keymap();
    assert forall|i: int, j: int| 0 <= i < j < t.len() implies #[trigger] t[i].1 != #[trigger] t[j].1
        && t[i].0 < t[j].0 by {}
    assert forall|i: int| 0 <= i < t.len() implies lookup(t, #[trigger] t[i].0) == Some(t[i].1) by {
        lemma_lookup_at(t, i);
    }
    assert forall|i: int|
        0 <= i < t.len() && (0x61 <= t[i].1 <= 0x7a || t[i].1 == SPACE) implies crate::keyboard::scancode_ascii(
        #[trigger] t[i].0,
    ) == Some(t[i].1) by {}
    lemma_lookup_entry(t, sc1);
    lemma_lookup_entry(t, sc2);
    lemma_typing_codes(sc1);
    if typed_char(ch) {
        assert(exists|i: int| 0 <= i < t.len() && t[i].1 == ch);
        let i = choose|i: int| 0 <= i < t.len() && t[i].1 == ch;
        assert(scancode_char(t[i].0) == Some(ch));
    }
    if exists|sc: u8| #[trigger] scancode_char(sc) == Some(ch) {
        let sc = choose|sc: u8| #[trigger] scancode_char(sc) == Some(ch);
        lemma_typing_codes(sc);
    }
}

/// The state of a new shell.
pub open spec fn fresh_shell() -> ShellView {
    ShellView {
        row: 0,
        col: 0,
        cells: blank_cells(),
        colors: default_colors(),
        ops: Seq::empty(),
        line: Seq::empty(),
    }
}

impl ShellView {
    /// The shell after the scan codes `scs` in turn, with the heap's figures
    /// for `mem`.
    pub open spec fn keys(self, scs: Seq<u8>, used: nat, total: nat, count: nat) -> ShellView
        decreases scs.len(),
    {
        if scs.len() == 0 {
            self
        } else {
            self.keys(scs.drop_last(), used, total, count).key(scs.last(), used, total, count)
        }
    }
}

/// Any run of keys keeps the shell tidy and the typed line made of keymap
/// characters.
pub proof fn lemma_keys_keep_shell_tidy(
    v: ShellView,
    scs: Seq<u8>,
    used: nat,
    total: nat,
    count: nat,
    from: int,
)
    requires
        v.tidy(from),
        typed_line(v.line),
    ensures
        v.keys(scs, used, total, count).tidy(from),
        typed_line(v.keys(scs, used, total, count).line),
    decreases scs.len(),
{
    if scs.len() > 0 {
        lemma_keys_keep_shell_tidy(v, scs.drop_last(), used, total, count, from);
        let w = v.keys(scs.drop_last(), used, total, count);
        lemma_key_keeps_shell_tidy(w, scs.last(), used, total, count, from);
    }
}

/// From the start of a session (a new shell, the screen set up, the
/// greeting written), whatever scan codes arrive: the cursor stays in the
/// grid, no cell past the cursor holds anything, nothing is drawn outside
/// the text area after the screen is set up, and at every step the typed
/// line, which is what Enter hands to `dispatch`, holds at most 127 lowercase
/// letters, digits and spaces.
pub proof fn lemma_session(scs: Seq<u8>, used: nat, total: nat, count: nat)
    ensures
        ({
            let start = fresh_shell().init_screen().greet();
            let from = fresh_shell().init_screen().ops.len() as int;
            &&& forall|i: int|
                0 <= i <= scs.len() ==> #[trigger] start.keys(scs.take(i), used, total, count).tidy(
                    from,
                )
            &&& forall|i: int|
                0 <= i <= scs.len() ==> typed_line(
                    #[trigger] start.keys(scs.take(i), used, total, count).line,
                ) && start.keys(scs.take(i), used, total, count).line.len() <= LINE_CAPACITY - 1
        }),
{
    let s0 = fresh_shell().init_screen();
    let from = s0.ops.len() as int;
    assert(fresh_shell().tidy(0));
    assert(s0.wf());
    assert(s0.blank_from_cursor());
    assert(s0.tidy(from));
    let g1 = s0.write_str(ascii("Welcome to NolOS! Type 'help' for commands."@), INFO_FG);
    lemma_tidy_write_str(s0, ascii("Welcome to NolOS! Type 'help' for commands."@), INFO_FG, from);
    lemma_tidy_newline(g1, from);
    lemma_tidy_newline(g1.newline(), from);
    lemma_tidy_write_str(g1.newline().newline(), ascii("nolos> "@), PROMPT_FG, from);
    let start = s0.greet();
    assert(start.tidy(from));
    assert(start.line == Seq::<u8>::empty());
    assert forall|i: int| 0 <= i <= scs.len() implies #[trigger] start.keys(
        scs.take(i),
        used,
        total,
        count,
    ).tidy(from) && typed_line(start.keys(scs.take(i), used, total, count).line) by {
        lemma_keys_keep_shell_tidy(start, scs.take(i), used, total, count, from);
    }
    assert forall|i: int| 0 <= i <= scs.len() implies typed_line(
        #[trigger] start.keys(scs.take(i), used, total, count).line,
    ) && start.keys(scs.take(i), used, total, count).line.len() <= LINE_CAPACITY - 1 by {
        lemma_keys_keep_shell_tidy(start, scs.take(i), used, total, count, from);
    }
}

/// Once the line holds 127 characters, a key that types a character is
/// neither stored nor echoed: nothing changes.
pub proof fn lemma_full_line_ignores_typing(
    v: ShellView,
    sc: u8,
    used: nat,
    total: nat,
    count: nat,
)
    requires
        v.line.len() == LINE_CAPACITY - 1,
        scancode_char(sc) is Some,
    ensures
        v.key(sc, used, total, count) == v,
{
    lemma_typing_codes(sc);
}

/// The shell's keys type, on the AZERTY layout: the digit row 0x02..=0x0B
/// its digits `1 2 3 4 5 6 7 8 9 0`; the top letter row 0x10..=0x19
/// `a z e r t y u i o p`; the home row 0x1E..=0x27 `q s d f g h j k l m`;
/// the bottom row 0x2C..=0x31 `w x c v b n`; the space bar a space.
pub proof fn lemma_shell_keymap_layout()
    ensures
        forall|k: int|
            0 <= k < 9 ==> scancode_char((0x02 + k) as u8) == Some(#[trigger] ascii("123456789"@)[k]),
        scancode_char(0x0B) == Some(0x30u8),
        forall|k: int|
            0 <= k < 10 ==> scancode_char((0x10 + k) as u8) == Some(#[trigger] ascii("azertyuiop"@)[k]),
        forall|k: int|
            0 <= k < 10 ==> scancode_char((0x1E + k) as u8) == Some(#[trigger] ascii("qsdfghjklm"@)[k]),
        forall|k: int|
            0 <= k < 6 ==> scancode_char((0x2C + k) as u8) == Some(#[trigger] ascii("wxcvbn"@)[k]),
        scancode_char(0x39) == Some(0x20u8),
{
    reveal_strlit("123456789");
    reveal_strlit("azertyuiop");
    reveal_strlit("qsdfghjklm");
    reveal_strlit("wxcvbn");
    let t = char_keymap();
    assert forall|i: int, j: int| 0 <= i < j < t.len() implies #[trigger] t[i].0 < #[trigger] t[j].0 by {}
    assert forall|i: int| 0 <= i < t.len() implies lookup(t, #[trigger] t[i].0) == Some(t[i].1) by {
        lemma_lookup_at(t, i);
    }
    assert forall|k: int| 0 <= k < 9 implies scancode_char((0x02 + k) as u8) == Some(
        #[trigger] ascii("123456789"@)[k],
    ) by {
        assert(t[k].0 == (0x02 + k) as u8);
    }
    assert(t[9].0 == 0x0B);
    assert forall|k: int| 0 <= k < 10 implies scancode_char((0x10 + k) as u8) == Some(
        #[trigger] ascii("azertyuiop"@)[k],
    ) by {
        assert(t[10 + k].0 == (0x10 + k) as u8);
    }
    assert forall|k: int| 0 <= k < 10 implies scancode_char((0x1E + k) as u8) == Some(
        #[trigger] ascii("qsdfghjklm"@)[k],
    ) by {
        assert(t[20 + k].0 == (0x1E + k) as u8);
    }
    assert forall|k: int| 0 <= k < 6 implies scancode_char((0x2C + k) as u8) == Some(
        #[trigger] ascii("wxcvbn"@)[k],
    ) by {
        assert(t[30 + k].0 == (0x2C + k) as u8);
    }
    assert(t[36].0 == 0x39);
}

/// The glyph that shows cell `(row, col)` of a grid: its character at
/// x = 6 + 8·col, y = 20 + 10·row, in the color stored for it, on black.
pub open spec fn stored_glyph(cells: Seq<u8>, colors: Seq<u32>, row: int, col: int) -> DrawOp {
    DrawOp::Glyph {
        x: (6 + col * 8) as usize,
        y: (20 + row * 10) as usize,
        ch: cells[row * 78 + col],
        fg: colors[row * 78 + col],
        bg: 0,
    }
}

/// The glyphs of the first `n` cells of a row: one for each non-blank cell,
/// showing its character in the color stored for it, and no other.
proof fn lemma_row_glyphs_cells(cells: Seq<u8>, colors: Seq<u32>, row: int, n: nat)
    requires
        0 <= row < ROWS,
        n <= COLS,
        cells.len() == CELLS,
        colors.len() == CELLS,
    ensures
        forall|col: int|
            #![trigger stored_glyph(cells, colors, row, col)]
            0 <= col < n && cells[row * 78 + col] != 0x20 ==> row_glyphs(cells, colors, row, n).contains(
                stored_glyph(cells, colors, row, col),
            ),
        forall|k: int|
            #![trigger row_glyphs(cells, colors, row, n)[k]]
            0 <= k < row_glyphs(cells, colors, row, n).len() ==> exists|col: int|
                #![trigger stored_glyph(cells, colors, row, col)]
                0 <= col < n && cells[row * 78 + col] != 0x20 && row_glyphs(cells, colors, row, n)[k]
                    == stored_glyph(cells, colors, row, col),
    decreases n,
{
    if n > 0 {
        lemma_row_glyphs_cells(cells, colors, row, (n - 1) as nat);
        let a = row_glyphs(cells, colors, row, (n - 1) as nat);
        let g = row_glyphs(cells, colors, row, n);
        let c = n - 1;
        assert(stored_glyph(cells, colors, row, c) == glyph_at(
            row,
            c,
            cells[row * 78 + c],
            colors[row * 78 + c],
        ));
        assert forall|col: int|
            #![trigger stored_glyph(cells, colors, row, col)]
            0 <= col < n && cells[row * 78 + col] != 0x20 implies g.contains(
                stored_glyph(cells, colors, row, col),
            ) by {
            if col < c {
                let k = choose|k: int| 0 <= k < a.len() && a[k] == stored_glyph(cells, colors, row, col);
                assert(g[k] == a[k]);
            } else {
                assert(g[a.len() as int] == stored_glyph(cells, colors, row, c));
            }
        }
        assert forall|k: int|
            #![trigger g[k]]
            0 <= k < g.len() implies exists|col: int|
                #![trigger stored_glyph(cells, colors, row, col)]
                0 <= col < n && cells[row * 78 + col] != 0x20 && g[k] == stored_glyph(
                    cells,
                    colors,
                    row,
                    col,
                ) by {
            if k < a.len() {
                assert(g[k] == a[k]);
                assert(exists|col: int|
                    #![trigger stored_glyph(cells, colors, row, col)]
                    0 <= col < n - 1 && cells[row * 78 + col] != 0x20 && a[k] == stored_glyph(
                        cells,
                        colors,
                        row,
                        col,
                    ));
            } else {
                assert(g[k] == stored_glyph(cells, colors, row, c));
                assert(cells[row * 78 + c] != 0x20);
            }
        }
    }
}

/// Redrawing row `row` first blanks the whole row (x 6..630, 10 pixels
/// high, in black) and then draws, for each non-blank cell `(row, col)` and
/// for nothing else, the cell's character at x = 6 + 8·col, y = 20 + 10·row
/// in the color stored for that cell, on black.
pub proof fn lemma_row_ops_draw_stored_cells(cells: Seq<u8>, colors: Seq<u32>, row: int)
    requires
        0 <= row < ROWS,
        cells.len() == CELLS,
        colors.len() == CELLS,
    ensures
        row_ops(cells, colors, row)[0] == (DrawOp::FillRect {
            x: 6,
            y: (20 + row * 10) as usize,
            w: 624,
            h: 10,
            color: 0,
        }),
        forall|col: int|
            #![trigger stored_glyph(cells, colors, row, col)]
            0 <= col < 78 && cells[row * 78 + col] != 0x20 ==> row_ops(cells, colors, row).drop_first().contains(
                stored_glyph(cells, colors, row, col),
            ),
        forall|k: int|
            #![trigger row_ops(cells, colors, row)[k]]
            1 <= k < row_ops(cells, colors, row).len() ==> exists|col: int|
                #![trigger stored_glyph(cells, colors, row, col)]
                0 <= col < 78 && cells[row * 78 + col] != 0x20 && row_ops(cells, colors, row)[k]
                    == stored_glyph(cells, colors, row, col),
{
    lemma_row_glyphs_cells(cells, colors, row, COLS as nat);
    let g = row_glyphs(cells, colors, row, COLS as nat);
    let r = row_ops(cells, colors, row);
    assert(r.drop_first() =~= g);
    assert forall|k: int|
        #![trigger r[k]]
        1 <= k < r.len() implies exists|col: int|
            #![trigger stored_glyph(cells, colors, row, col)]
            0 <= col < 78 && cells[row * 78 + col] != 0x20 && r[k] == stored_glyph(
                cells,
                colors,
                row,
                col,
            ) by {
        assert(r[k] == g[k - 1]);
    }
}

/// Scrolling redraws the grid from its moved cells: for every non-blank
/// cell `(r + 1, c)` of the grid before, the glyph drawn for `(r, c)` shows
/// that cell's character in the color that cell had.
pub proof fn lemma_scroll_redraws_moved_colors(v: ShellView, r: int, c: int)
    requires
        v.wf(),
        0 <= r < ROWS - 1,
        0 <= c < COLS,
        v.cells[(r + 1) * 78 + c] != 0x20,
    ensures
        v.scroll().ops.contains(
            DrawOp::Glyph {
                x: (6 + c * 8) as usize,
                y: (20 + r * 10) as usize,
                ch: v.cells[(r + 1) * 78 + c],
                fg: v.colors[(r + 1) * 78 + c],
                bg: 0,
            },
        ),
{
    let cells = shifted_up(v.cells, SPACE);
    let colors = shifted_up(v.colors, FG);
    assert(cells[r * 78 + c] == v.cells[(r + 1) * 78 + c]);
    assert(colors[r * 78 + c] == v.colors[(r + 1) * 78 + c]);
    lemma_row_ops_draw_stored_cells(cells, colors, r);
    let ro = row_ops(cells, colors, r);
    let k = choose|k: int|
        0 <= k < ro.drop_first().len() && ro.drop_first()[k] == stored_glyph(cells, colors, r, c);
    lemma_rows_ops_contain_row(cells, colors, ROWS as nat, r, k + 1);
    let j = choose|j: int|
        0 <= j < rows_ops(cells, colors, ROWS as nat).len() && rows_ops(
            cells,
            colors,
            ROWS as nat,
        )[j] == ro[k + 1];
    let ops = v.scroll().ops;
    assert(ops == v.ops + rows_ops(cells, colors, ROWS as nat));
    assert(ops[v.ops.len() + j] == ro[k + 1]);
}

/// Every operation of redrawing row `r` is among the operations of
/// redrawing the first `n` rows, when `r < n`.
proof fn lemma_rows_ops_contain_row(cells: Seq<u8>, colors: Seq<u32>, n: nat, r: int, k: int)
    requires
        0 <= r < n,
        0 <= k < row_ops(cells, colors, r).len(),
    ensures
        exists|j: int|
            0 <= j < rows_ops(cells, colors, n).len() && rows_ops(cells, colors, n)[j] == row_ops(
                cells,
                colors,
                r,
            )[k],
    decreases n,
{
    let a = rows_ops(cells, colors, (n - 1) as nat);
    let b = row_ops(cells, colors, n - 1);
    assert(rows_ops(cells, colors, n) == a + b);
    if r < n - 1 {
        lemma_rows_ops_contain_row(cells, colors, (n - 1) as nat, r, k);
        let j = choose|j: int| 0 <= j < a.len() && a[j] == row_ops(cells, colors, r)[k];
        assert((a + b)[j] == a[j]);
    } else {
        assert((a + b)[a.len() + k] == b[k]);
    }
}

/// Writing a string with no newline that fits in what is left of the row
/// puts its characters, in its color, into the cells from the cursor on,
/// moves the cursor past them, and leaves every other cell as it was.
pub proof fn lemma_write_str_cells(v: ShellView, s: Seq<u8>, color: u32)
    requires
        v.wf(),
        v.col + s.len() <= COLS,
        forall|k: int| 0 <= k < s.len() ==> #[trigger] s[k] != 0x0A,
    ensures
        v.write_str(s, color).wf(),
        v.write_str(s, color).row == v.row,
        v.write_str(s, color).col == v.col + s.len(),
        forall|k: int|
            0 <= k < s.len() ==> #[trigger] v.write_str(s, color).cells[v.row * 78 + v.col + k]
                == s[k] && v.write_str(s, color).colors[v.row * 78 + v.col + k] == color,
        forall|i: int|
            0 <= i < CELLS && !(v.row * 78 + v.col <= i < v.row * 78 + v.col + s.len())
                ==> #[trigger] v.write_str(s, color).cells[i] == v.cells[i] && v.write_str(
                s,
                color,
            ).colors[i] == v.colors[i],
    decreases s.len(),
{
    if s.len() > 0 {
        let v1 = v.write_char(s[0], color);
        assert(v1 == v.put_char(s[0], color));
        let rest = s.drop_first();
        assert forall|k: int| 0 <= k < rest.len() implies #[trigger] rest[k] != 0x0A by {
            assert(rest[k] == s[k + 1]);
        }
        lemma_write_str_cells(v1, rest, color);
        let w = v.write_str(s, color);
        assert(w == v1.write_str(rest, color));
        let start: int = (v.row * 78 + v.col) as int;
        assert(v1.row == v.row && v1.col == v.col + 1);
        assert(v1.cells[start] == s[0] && v1.colors[start] == color);
        assert forall|k: int| 0 <= k < s.len() implies #[trigger] w.cells[v.row * 78 + v.col + k]
            == s[k] && w.colors[v.row * 78 + v.col + k] == color by {
            if k > 0 {
                assert(rest[k - 1] == s[k]);
                assert(v1.row * 78 + v1.col + (k - 1) == start + k);
                assert(w.cells[v1.row * 78 + v1.col + (k - 1)] == rest[k - 1]);
            } else {
                assert(w.cells[start] == v1.cells[start]);
            }
        }
        assert forall|i: int|
            0 <= i < CELLS && !(start <= i < start + s.len()) implies #[trigger] w.cells[i]
                == v.cells[i] && w.colors[i] == v.colors[i] by {
            assert(w.cells[i] == v1.cells[i]);
            assert(v1.cells[i] == v.cells[i]);
        }
    }
}

/// Drop trailing spaces.
pub open spec fn trim_end(s: Seq<u8>) -> Seq<u8>
    decreases s.len(),
{
    if s.len() > 0 && s.last() == 0x20 {
        trim_end(s.drop_last())
    } else {
        s
    }
}

/// The true color that a palette label names (`LGREEN` and `LRED` for the
/// light variants), as 0x00RRGGBB.
pub open spec fn named_color(name: Seq<u8>) -> Option<u32> {
    if name == ascii("RED"@) {
        Some(0x00FF0000)
    } else if name == ascii("GREEN"@) {
        Some(0x0000AA00)
    } else if name == ascii("YELLOW"@) {
        Some(0x00FFFF00)
    } else if name == ascii("CYAN"@) {
        Some(0x0000CCCC)
    } else if name == ascii("MAGENTA"@) {
        Some(0x00CC00CC)
    } else if name == ascii("ORANGE"@) {
        Some(0x00FF8800)
    } else if name == ascii("PURPLE"@) {
        Some(0x008800CC)
    } else if name == ascii("LGREEN"@) {
        Some(0x0044FF44)
    } else if name == ascii("LRED"@) {
        Some(0x00FF4444)
    } else if name == ascii("PINK"@) {
        Some(0x00FF88FF)
    } else if name == ascii("WHITE"@) {
        Some(0x00FFFFFF)
    } else {
        None
    }
}

/// Each palette entry pairs a seven-character label, padded with spaces,
/// with the color the label names.
pub proof fn lemma_palette_names_its_colors()
    ensures
        forall|i: int|
            0 <= i < palette().len() ==> #[trigger] palette()[i].1.len() == 7 && named_color(
                trim_end(palette()[i].1),
            ) == Some(palette()[i].0) && (forall|k: int|
                0 <= k < 7 ==> #[trigger] palette()[i].1[k] != 0x0A),
        palette().len() == 11,
{
    reveal_strlit("RED    ");
    reveal_strlit("GREEN  ");
    reveal_strlit("YELLOW ");
    reveal_strlit("CYAN   ");
    reveal_strlit("MAGENTA");
    reveal_strlit("ORANGE ");
    reveal_strlit("PURPLE ");
    reveal_strlit("LGREEN ");
    reveal_strlit("LRED   ");
    reveal_strlit("PINK   ");
    reveal_strlit("WHITE  ");
    reveal_strlit("RED");
    reveal_strlit("GREEN");
    reveal_strlit("YELLOW");
    reveal_strlit("CYAN");
    reveal_strlit("MAGENTA");
    reveal_strlit("ORANGE");
    reveal_strlit("PURPLE");
    reveal_strlit("LGREEN");
    reveal_strlit("LRED");
    reveal_strlit("PINK");
    reveal_strlit("WHITE");
    reveal_with_fuel(trim_end, 8);
    let p = palette();
    assert(trim_end(p[0].1) =~= ascii("RED"@));
    assert(trim_end(p[1].1) =~= ascii("GREEN"@));
    assert(trim_end(p[2].1) =~= ascii("YELLOW"@));
    assert(trim_end(p[3].1) =~= ascii("CYAN"@));
    assert(trim_end(p[4].1) =~= ascii("MAGENTA"@));
    assert(trim_end(p[5].1) =~= ascii("ORANGE"@));
    assert(trim_end(p[6].1) =~= ascii("PURPLE"@));
    assert(trim_end(p[7].1) =~= ascii("LGREEN"@));
    assert(trim_end(p[8].1) =~= ascii("LRED"@));
    assert(trim_end(p[9].1) =~= ascii("PINK"@));
    assert(trim_end(p[10].1) =~= ascii("WHITE"@));
    assert(named_color(trim_end(p[0].1)) == Some(p[0].0));
    assert(named_color(trim_end(p[1].1)) == Some(p[1].0));
    assert(named_color(trim_end(p[2].1)) == Some(p[2].0));
    assert(named_color(trim_end(p[3].1)) == Some(p[3].0));
    assert(named_color(trim_end(p[4].1)) == Some(p[4].0));
    assert(named_color(trim_end(p[5].1)) == Some(p[5].0));
    assert(ascii("PURPLE"@)[0] != ascii("YELLOW"@)[0]);
    assert(ascii("PURPLE"@)[0] != ascii("ORANGE"@)[0]);
    assert(named_color(trim_end(p[6].1)) == Some(p[6].0));
    assert(named_color(trim_end(p[7].1)) == Some(p[7].0));
    assert(named_color(trim_end(p[8].1)) == Some(p[8].0));
    assert(named_color(trim_end(p[9].1)) == Some(p[9].0));
    assert(named_color(trim_end(p[10].1)) == Some(p[10].0));
    assert forall|i: int| 0 <= i < p.len() implies #[trigger] p[i].1.len() == 7 && named_color(
        trim_end(p[i].1),
    ) == Some(p[i].0) && (forall|k: int| 0 <= k < 7 ==> #[trigger] p[i].1[k] != 0x0A) by {
        assert(i == 0 || i == 1 || i == 2 || i == 3 || i == 4 || i == 5 || i == 6 || i == 7 || i
            == 8 || i == 9 || i == 10);
    }
}

/// The `colors` command writes each palette entry as two spaces, the label
/// and a space; when the entry fits on its row, the label's cells hold the
/// label in the very color the label names.
pub proof fn lemma_palette_label_cells(v: ShellView, i: int)
    requires
        v.wf(),
        0 <= i < 11,
        v.col + 10 <= COLS,
    ensures
        forall|k: int|
            0 <= k < 7 ==> #[trigger] v.palette_entry(palette()[i]).cells[v.row * 78 + v.col + 2
                + k] == palette()[i].1[k] && Some(
                v.palette_entry(palette()[i]).colors[v.row * 78 + v.col + 2 + k],
            ) == named_color(trim_end(palette()[i].1)),
{
    lemma_palette_names_its_colors();
    reveal_strlit("  ");
    let e = palette()[i];
    let sp = ascii("  "@);
    assert(forall|k: int| 0 <= k < sp.len() ==> #[trigger] sp[k] != 0x0A);
    lemma_write_str_cells(v, sp, FG);
    let a = v.write_str(sp, FG);
    assert(e.1.len() == 7);
    lemma_write_str_cells(a, e.1, e.0);
    let b = a.write_str(e.1, e.0);
    assert(b.col < COLS);
    assert(b.write_char(SPACE, FG) == b.put_char(SPACE, FG));
    assert forall|k: int| 0 <= k < 7 implies #[trigger] v.palette_entry(e).cells[v.row * 78 + v.col
        + 2 + k] == e.1[k] && Some(v.palette_entry(e).colors[v.row * 78 + v.col + 2 + k])
        == named_color(trim_end(e.1)) by {
        assert(b.cells[a.row * 78 + a.col + k] == e.1[k]);
        assert(b.colors[a.row * 78 + a.col + k] == e.0);
    }
}

/// Writing a character other than a newline on a row with room stores it,
/// in its color, in the cell under the cursor, draws it there (x = 6 +
/// 8·col, y = 20 + 10·row, on black), and moves the cursor one cell right;
/// no other cell changes.
pub proof fn lemma_write_char_draws(v: ShellView, ch: u8, color: u32)
    requires
        v.wf(),
        ch != 0x0A,
        v.col < COLS,
    ensures
        v.write_char(ch, color).row == v.row,
        v.write_char(ch, color).col == v.col + 1,
        v.write_char(ch, color).cells == v.cells.update((v.row * 78 + v.col) as int, ch),
        v.write_char(ch, color).colors == v.colors.update((v.row * 78 + v.col) as int, color),
        v.write_char(ch, color).ops == v.ops.push(
            DrawOp::Glyph {
                x: (6 + v.col * 8) as usize,
                y: (20 + v.row * 10) as usize,
                ch,
                fg: color,
                bg: 0,
            },
        ),
{
}

/// A backspace on a row with the cursor past its start blanks the cell
/// before the cursor in the default green, draws a space there, and moves
/// the cursor onto it.
pub proof fn lemma_backspace_draws(v: ShellView)
    requires
        v.wf(),
        v.col > 0,
    ensures
        v.backspace().row == v.row,
        v.backspace().col == v.col - 1,
        v.backspace().cells == v.cells.update(v.row * 78 + v.col - 1, 0x20),
        v.backspace().colors == v.colors.update(v.row * 78 + v.col - 1, 0x0044FF44),
        v.backspace().ops == v.ops.push(
            DrawOp::Glyph {
                x: (6 + (v.col - 1) * 8) as usize,
                y: (20 + v.row * 10) as usize,
                ch: 0x20,
                fg: 0x0044FF44,
                bg: 0,
            },
        ),
{
}

} // verus!
