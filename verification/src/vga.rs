//! VGA text-mode writer (80×25 cells).
//!
//! The text buffer is modelled as the bytes the hardware maps at its base
//! address: for each cell, row by row, the character byte followed by the
//! color byte. The program around the library copies these bytes to the
//! device.
use vstd::prelude::*;
use vstd::string::StringSliceAdditionalSpecFns;

verus! {

pub const BUFFER_HEIGHT: usize = 25;
pub const BUFFER_WIDTH: usize = 80;
/// Bytes in the text buffer: two per cell.
pub const BUFFER_BYTES: usize = 4000;

/// ASCII space.
pub const BLANK: u8 = 0x20;

/// The sixteen VGA text colors, in the order of their hardware numbers.
#[derive(Debug, Clone, Copy, PartialEq, Eq, Structural)]
pub enum Color {
    Black,
    Blue,
    Green,
    Cyan,
    Red,
    Magenta,
    Brown,
    LightGray,
    DarkGray,
    LightBlue,
    LightGreen,
    LightCyan,
    LightRed,
    Pink,
    Yellow,
    White,
}

/// The hardware number of a color.
pub open spec fn color_number(c: Color) -> u8 {
    match c {
        Color::Black => 0,
        Color::Blue => 1,
        Color::Green => 2,
        Color::Cyan => 3,
        Color::Red => 4,
        Color::Magenta => 5,
        Color::Brown => 6,
        Color::LightGray => 7,
        Color::DarkGray => 8,
        Color::LightBlue => 9,
        Color::LightGreen => 10,
        Color::LightCyan => 11,
        Color::LightRed => 12,
        Color::Pink => 13,
        Color::Yellow => 14,
        Color::White => 15,
    }
}

impl Color {
    /// The hardware number of this color (0 to 15).
    pub fn number(self) -> (r: u8)
        ensures
            r == color_number(self),
            r < 16,
    {
        match self {
            Color::Black => 0,
            Color::Blue => 1,
            Color::Green => 2,
            Color::Cyan => 3,
            Color::Red => 4,
            Color::Magenta => 5,
            Color::Brown => 6,
            Color::LightGray => 7,
            Color::DarkGray => 8,
            Color::LightBlue => 9,
            Color::LightGreen => 10,
            Color::LightCyan => 11,
            Color::LightRed => 12,
            Color::Pink => 13,
            Color::Yellow => 14,
            Color::White => 15,
        }
    }
}

/// A cell's attribute byte: background in the high nibble, foreground in the
/// low nibble.
#[derive(Debug, Clone, Copy, PartialEq, Eq, Structural)]
pub struct ColorCode(u8);

impl ColorCode {
    /// The attribute byte.
    pub closed spec fn byte(self) -> u8 {
        self.0
    }

    pub fn new(fg: Color, bg: Color) -> (r: Self)
        ensures
            r.byte() == color_number(bg) * 16 + color_number(fg),
    {
        let f = fg.number();
        let b = bg.number();
        assert((b << 4u8) | f == b * 16 + f) by (bit_vector)
            requires
                f < 16,
                b < 16,
        ;
        ColorCode((b << 4) | f)
    }

    /// The attribute byte.
    pub fn value(&self) -> (r: u8)
        ensures
            r == self.byte(),
    {
        self.0
    }
}

/// White on black, the attribute that `clear` paints with.
pub open spec fn white_on_black() -> u8 {
    0x0F
}

/// The abstract state of a writer: cursor, current attribute and the bytes
/// of the text buffer.
pub ghost struct TextScreen {
    pub row: nat,
    pub col: nat,
    pub color: u8,
    pub bytes: Seq<u8>,
}

/// Offset of a cell's character byte in the text buffer.
pub open spec fn cell_offset(row: int, col: int) -> int {
    (row * BUFFER_WIDTH + col) * 2
}

/// `bytes` with cell `(row, col)` set to `ascii` in attribute `color`.
pub open spec fn put_cell(bytes: Seq<u8>, row: int, col: int, ascii: u8, color: u8) -> Seq<u8> {
    bytes.update(cell_offset(row, col), ascii).update(cell_offset(row, col) + 1, color)
}

/// A text buffer of blank cells in attribute `color`.
pub open spec fn blank_buffer(color: u8) -> Seq<u8> {
    Seq::new(BUFFER_BYTES as nat, |i: int| if i % 2 == 0 { BLANK } else { color })
}

/// The buffer moved up one row, with a blank bottom row in attribute `color`.
pub open spec fn scrolled(bytes: Seq<u8>, color: u8) -> Seq<u8> {
    Seq::new(
        BUFFER_BYTES as nat,
        |i: int|
            if i < BUFFER_BYTES - 2 * BUFFER_WIDTH {
                bytes[i + 2 * BUFFER_WIDTH]
            } else if i % 2 == 0 {
                BLANK
            } else {
                color
            },
    )
}

impl TextScreen {
    pub open spec fn wf(self) -> bool {
        &&& self.row < BUFFER_HEIGHT
        &&& self.col <= BUFFER_WIDTH
        &&& self.bytes.len() == BUFFER_BYTES
    }

    /// Cursor to the start of the next line, scrolling at the bottom row.
    pub open spec fn newline(self) -> TextScreen {
        if self.row + 1 < BUFFER_HEIGHT {
            TextScreen { row: self.row + 1, col: 0, ..self }
        } else {
            TextScreen {
                row: (BUFFER_HEIGHT - 1) as nat,
                col: 0,
                bytes: scrolled(self.bytes, self.color),
                ..self
            }
        }
    }

    /// The screen after writing byte `b`: a newline for `'\n'`, otherwise the
    /// byte at the cursor (wrapping first when the line is full).
    pub open spec fn write_byte(self, b: u8) -> TextScreen {
        if b == 0x0A {
            self.newline()
        } else {
            let s = if self.col >= BUFFER_WIDTH { self.newline() } else { self };
            TextScreen {
                col: s.col + 1,
                bytes: put_cell(s.bytes, s.row as int, s.col as int, b, s.color),
                ..s
            }
        }
    }

    /// The screen after writing each byte of `bs` in turn.
    pub open spec fn write_bytes(self, bs: Seq<u8>) -> TextScreen
        decreases bs.len(),
    {
        if bs.len() == 0 {
            self
        } else {
            self.write_byte(bs[0]).write_bytes(bs.drop_first())
        }
    }

    /// The screen after `backspace`: one cell back and blanked, unless the
    /// cursor is at the start of the line.
    pub open spec fn backspace(self) -> TextScreen {
        if self.col > 0 {
            TextScreen {
                col: (self.col - 1) as nat,
                bytes: put_cell(self.bytes, self.row as int, self.col - 1, BLANK, self.color),
                ..self
            }
        } else {
            self
        }
    }
}

/// The byte that `write_string` writes for `b`: printable ASCII and newline
/// pass, anything else becomes `'?'`.
pub open spec fn printable_or_placeholder(b: u8) -> u8 {
    if (0x20 <= b && b <= 0x7e) || b == 0x0A {
        b
    } else {
        0x3F
    }
}

/// Number of spaces `print_centered` writes before a text of `len` bytes.
pub open spec fn centering_pad(len: nat) -> nat {
    if len < BUFFER_WIDTH {
        ((BUFFER_WIDTH - len) / 2) as nat
    } else {
        0
    }
}

pub struct Writer {
    col: usize,
    row: usize,
    color_code: ColorCode,
    buffer: Vec<u8>,
}

impl View for Writer {
    type V = TextScreen;

    closed spec fn view(&self) -> TextScreen {
        TextScreen {
            row: self.row as nat,
            col: self.col as nat,
            color: self.color_code.byte(),
            bytes: self.buffer@,
        }
    }
}

impl Writer {
    /// The writer's cursor stays on the screen and its buffer keeps its size.
    pub open spec fn wf(&self) -> bool {
        self@.wf()
    }

    /// A writer at the top-left corner with attribute `color_code`. Its
    /// buffer starts out as a cleared screen.
    pub fn new(color_code: ColorCode) -> (w: Self)
        ensures
            w.wf(),
            w@ == (TextScreen {
                row: 0,
                col: 0,
                color: color_code.byte(),
                bytes: blank_buffer(white_on_black()),
            }),
    {
        let mut buffer: Vec<u8> = Vec::new();
        let mut i: usize = 0;
        while i < BUFFER_BYTES
            invariant
                i <= BUFFER_BYTES,
                buffer@.len() == i,
                forall|j: int| 0 <= j < i ==> buffer@[j] == blank_buffer(white_on_black())[j],
            decreases BUFFER_BYTES - i,
        {
            if i % 2 == 0 {
                buffer.push(BLANK);
            } else {
                buffer.push(0x0F);
            }
            i = i + 1;
        }
        assert(buffer@ =~= blank_buffer(white_on_black()));
        Writer { col: 0, row: 0, color_code, buffer }
    }

    /// A writer at the top-left corner with attribute `color_code`, over a
    /// text buffer that already holds `buffer` (for instance what the
    /// firmware left on screen).
    pub fn with_buffer(color_code: ColorCode, buffer: Vec<u8>) -> (w: Self)
        requires
            buffer@.len() == BUFFER_BYTES,
        ensures
            w.wf(),
            w@ == (TextScreen { row: 0, col: 0, color: color_code.byte(), bytes: buffer@ }),
    {
        Writer { col: 0, row: 0, color_code, buffer }
    }

    pub fn set_color(&mut self, color_code: ColorCode)
        ensures
            final(self)@ == (TextScreen { color: color_code.byte(), ..old(self)@ }),
            old(self).wf() ==> final(self).wf(),
    {
        self.color_code = color_code;
    }

    /// The cursor as (row, column).
    pub fn cursor(&self) -> (r: (usize, usize))
        ensures
            r.0 == self@.row,
            r.1 == self@.col,
    {
        (self.row, self.col)
    }

    /// The current attribute.
    pub fn color_code(&self) -> (r: ColorCode)
        ensures
            r.byte() == self@.color,
    {
        self.color_code
    }

    /// A copy of the text buffer's bytes.
    pub fn buffer_bytes(&self) -> (r: Vec<u8>)
        ensures
            r@ == self@.bytes,
    {
        self.buffer.clone()
    }

    fn write_at(&mut self, row: usize, col: usize, ascii: u8, color: ColorCode)
        requires
            old(self).wf(),
            row < BUFFER_HEIGHT,
            col < BUFFER_WIDTH,
        ensures
            final(self).wf(),
            final(self)@ == (TextScreen {
                bytes: put_cell(old(self)@.bytes, row as int, col as int, ascii, color.byte()),
                ..old(self)@
            }),
    {
        let offset = (row * BUFFER_WIDTH + col) * 2;
        self.buffer.set(offset, ascii);
        self.buffer.set(offset + 1, color.0);
    }

    /// Blank every cell in white on black and move the cursor home.
    pub fn clear(&mut self)
        requires
            old(self).wf(),
        ensures
            final(self).wf(),
            final(self)@ == (TextScreen {
                row: 0,
                col: 0,
                bytes: blank_buffer(white_on_black()),
                ..old(self)@
            }),
    {
        let code = ColorCode::new(Color::White, Color::Black);
        let ghost start = self.buffer@;
        let mut row: usize = 0;
        while row < BUFFER_HEIGHT
            invariant
                self.wf(),
                row <= BUFFER_HEIGHT,
                self.row == old(self).row,
                self.col == old(self).col,
                self.color_code == old(self).color_code,
                code.byte() == white_on_black(),
                forall|j: int|
                    0 <= j < BUFFER_BYTES ==> #[trigger] self.buffer@[j] == if j < row * 2
                        * BUFFER_WIDTH {
                        blank_buffer(white_on_black())[j]
                    } else {
                        start[j]
                    },
            decreases BUFFER_HEIGHT - row,
        {
            let mut col: usize = 0;
            while col < BUFFER_WIDTH
                invariant
                    self.wf(),
                    row < BUFFER_HEIGHT,
                    col <= BUFFER_WIDTH,
                    self.row == old(self).row,
                    self.col == old(self).col,
                    self.color_code == old(self).color_code,
                    code.byte() == white_on_black(),
                    forall|j: int|
                        0 <= j < BUFFER_BYTES ==> #[trigger] self.buffer@[j] == if j < (row
                            * BUFFER_WIDTH + col) * 2 {
                            blank_buffer(white_on_black())[j]
                        } else {
                            start[j]
                        },
                decreases BUFFER_WIDTH - col,
            {
                self.write_at(row, col, BLANK, code);
                col = col + 1;
            }
            row = row + 1;
        }
        self.col = 0;
        self.row = 0;
        assert(self.buffer@ =~= blank_buffer(white_on_black()));
    }

    fn scroll(&mut self)
        requires
            old(self).wf(),
        ensures
            final(self).wf(),
            final(self)@ == (TextScreen {
                row: (BUFFER_HEIGHT - 1) as nat,
                bytes: scrolled(old(self)@.bytes, old(self)@.color),
                ..old(self)@
            }),
    {
        let ghost start = self.buffer@;
        let line: usize = 2 * BUFFER_WIDTH;
        let mut i: usize = line;
        while i < BUFFER_BYTES
            invariant
                self.wf(),
                line == 2 * BUFFER_WIDTH,
                line <= i <= BUFFER_BYTES,
                self.row == old(self).row,
                self.col == old(self).col,
                self.color_code == old(self).color_code,
                start.len() == BUFFER_BYTES,
                forall|j: int|
                    0 <= j < BUFFER_BYTES ==> #[trigger] self.buffer@[j] == if j < i - line {
                        start[j + line]
                    } else {
                        start[j]
                    },
            decreases BUFFER_BYTES - i,
        {
            let b = self.buffer[i];
            self.buffer.set(i - line, b);
            i = i + 1;
        }
        let color = self.color_code;
        let mut col: usize = 0;
        while col < BUFFER_WIDTH
            invariant
                self.wf(),
                col <= BUFFER_WIDTH,
                line == 2 * BUFFER_WIDTH,
                color == self.color_code,
                self.row == old(self).row,
                self.col == old(self).col,
                self.color_code == old(self).color_code,
                forall|j: int|
                    0 <= j < BUFFER_BYTES ==> #[trigger] self.buffer@[j] == if j < BUFFER_BYTES
                        - line {
                        start[j + line]
                    } else if j < BUFFER_BYTES - line + 2 * col {
                        if j % 2 == 0 {
                            BLANK
                        } else {
                            old(self)@.color
                        }
                    } else {
                        start[j]
                    },
            decreases BUFFER_WIDTH - col,
        {
            self.write_at(BUFFER_HEIGHT - 1, col, BLANK, color);
            col = col + 1;
        }
        self.row = BUFFER_HEIGHT - 1;
        assert(self.buffer@ =~= scrolled(start, old(self)@.color));
    }

    pub fn newline(&mut self)
        requires
            old(self).wf(),
        ensures
            final(self).wf(),
            final(self)@ == old(self)@.newline(),
    {
        self.col = 0;
        if self.row + 1 < BUFFER_HEIGHT {
            self.row += 1;
        } else {
            self.scroll();
        }
    }

    pub fn backspace(&mut self)
        requires
            old(self).wf(),
        ensures
            final(self).wf(),
            final(self)@ == old(self)@.backspace(),
    {
        if self.col > 0 {
            self.col -= 1;
            let color = self.color_code;
            self.write_at(self.row, self.col, BLANK, color);
        }
    }

    pub fn write_byte(&mut self, byte: u8)
        requires
            old(self).wf(),
        ensures
            final(self).wf(),
            final(self)@ == old(self)@.write_byte(byte),
    {
        if byte == 0x0A {
            self.newline();
        } else {
            if self.col >= BUFFER_WIDTH {
                self.newline();
            }
            let color = self.color_code;
            self.write_at(self.row, self.col, byte, color);
            self.col += 1;
        }
    }

    /// Write each byte of `bytes` in turn.
    fn write_bytes(&mut self, bytes: &[u8])
        requires
            old(self).wf(),
        ensures
            final(self).wf(),
            final(self)@ == old(self)@.write_bytes(bytes@),
    {
        let mut i: usize = 0;
        assert(bytes@.subrange(0, bytes@.len() as int) =~= bytes@);
        while i < bytes.len()
            invariant
                self.wf(),
                i <= bytes@.len(),
                old(self)@.write_bytes(bytes@) == self@.write_bytes(bytes@.subrange(
                    i as int,
                    bytes@.len() as int,
                )),
            decreases bytes@.len() - i,
        {
            let ghost rest = bytes@.subrange(i as int, bytes@.len() as int);
            assert(rest.drop_first() =~= bytes@.subrange(i + 1, bytes@.len() as int));
            self.write_byte(bytes[i]);
            i = i + 1;
        }
        assert(bytes@.subrange(i as int, bytes@.len() as int) =~= Seq::<u8>::empty());
    }

    /// Write `text` centred on its own line: spaces to pad it to the middle
    /// of the row, the text, then a newline.
    pub fn print_centered(&mut self, text: &str)
        requires
            old(self).wf(),
        ensures
            final(self).wf(),
            final(self)@ == old(self)@.write_bytes(
                Seq::new(centering_pad(text.spec_bytes().len()), |i: int| BLANK),
            ).write_bytes(text.spec_bytes()).newline(),
    {
        let bytes = text.as_bytes();
        let len = bytes.len();
        let pad = if len < BUFFER_WIDTH {
            (BUFFER_WIDTH - len) / 2
        } else {
            0
        };
        let ghost spaces = Seq::new(pad as nat, |i: int| BLANK);
        let mut k: usize = 0;
        while k < pad
            invariant
                self.wf(),
                k <= pad,
                spaces.len() == pad,
                spaces == Seq::new(pad as nat, |i: int| BLANK),
                self@ == old(self)@.write_bytes(spaces.subrange(0, k as int)),
            decreases pad - k,
        {
            proof {
                lemma_write_bytes_push(old(self)@, spaces.subrange(0, k as int), BLANK);
                assert(spaces.subrange(0, k + 1) =~= spaces.subrange(0, k as int).push(BLANK));
            }
            self.write_byte(BLANK);
            k = k + 1;
        }
        assert(spaces.subrange(0, k as int) =~= spaces);
        self.write_bytes(bytes);
        self.newline();
    }

    /// Write `s` byte by byte, printable ASCII and newlines as they are and
    /// anything else as `'?'`.
    pub fn write_string(&mut self, s: &str)
        requires
            old(self).wf(),
        ensures
            final(self).wf(),
            final(self)@ == old(self)@.write_bytes(
                s.spec_bytes().map_values(|b: u8| printable_or_placeholder(b)),
            ),
    {
        let bytes = s.as_bytes();
        let ghost out = bytes@.map_values(|b: u8| printable_or_placeholder(b));
        let mut i: usize = 0;
        while i < bytes.len()
            invariant
                self.wf(),
                i <= bytes@.len(),
                out == bytes@.map_values(|b: u8| printable_or_placeholder(b)),
                self@ == old(self)@.write_bytes(out.subrange(0, i as int)),
            decreases bytes@.len() - i,
        {
            let b = bytes[i];
            let shown = if (0x20 <= b && b <= 0x7e) || b == 0x0A {
                b
            } else {
                0x3F
            };
            proof {
                lemma_write_bytes_push(old(self)@, out.subrange(0, i as int), shown);
                assert(out.subrange(0, i + 1) =~= out.subrange(0, i as int).push(shown));
            }
            self.write_byte(shown);
            i = i + 1;
        }
        assert(out.subrange(0, i as int) =~= out);
    }
}

/// Writing `bs` and then `b` is writing `bs.push(b)`.
pub proof fn lemma_write_bytes_push(s: TextScreen, bs: Seq<u8>, b: u8)
    ensures
        s.write_bytes(bs.push(b)) == s.write_bytes(bs).write_byte(b),
    decreases bs.len(),
{
    if bs.len() == 0 {
        assert(bs.push(b).drop_first() =~= Seq::<u8>::empty());
        assert(s.write_bytes(bs.push(b)) == s.write_byte(b).write_bytes(Seq::<u8>::empty()));
    } else {
        assert(bs.push(b).drop_first() =~= bs.drop_first().push(b));
        lemma_write_bytes_push(s.write_byte(bs[0]), bs.drop_first(), b);
    }
}

/// An attribute byte gives back its colors: the background in the high
/// nibble, the foreground in the low nibble.
pub proof fn lemma_color_code_nibbles(fg: Color, bg: Color)
    ensures
        ((color_number(bg) * 16 + color_number(fg)) as u8) >> 4u8 == color_number(bg),
        ((color_number(bg) * 16 + color_number(fg)) as u8) & 0x0Fu8 == color_number(fg),
{
    let f = color_number(fg);
    let b = color_number(bg);
    assert(((b * 16 + f) as u8) >> 4u8 == b && ((b * 16 + f) as u8) & 0x0Fu8 == f) by (bit_vector)
        requires
            f < 16,
            b < 16,
    ;
}

/// Writing `a` and then `b` is writing `a + b`.
pub proof fn lemma_write_bytes_append(s: TextScreen, a: Seq<u8>, b: Seq<u8>)
    ensures
        s.write_bytes(a + b) == s.write_bytes(a).write_bytes(b),
    decreases a.len(),
{
    if a.len() == 0 {
        assert(a + b =~= b);
    } else {
        assert((a + b).drop_first() =~= a.drop_first() + b);
        lemma_write_bytes_append(s.write_byte(a[0]), a.drop_first(), b);
    }
}

/// Every write keeps the cursor on the screen and the buffer's size.
pub proof fn lemma_write_bytes_wf(s: TextScreen, bs: Seq<u8>)
    requires
        s.wf(),
    ensures
        s.write_bytes(bs).wf(),
    decreases bs.len(),
{
    if bs.len() > 0 {
        lemma_write_bytes_wf(s.write_byte(bs[0]), bs.drop_first());
    }
}

/// A backspace after writing a byte on a line that was not full puts the
/// cursor back where it was and blanks the byte's cell.
pub proof fn lemma_backspace_undoes_write_byte(s: TextScreen, b: u8)
    requires
        s.wf(),
        b != 0x0A,
        s.col < BUFFER_WIDTH,
    ensures
        s.write_byte(b).backspace().row == s.row,
        s.write_byte(b).backspace().col == s.col,
        s.write_byte(b).backspace().color == s.color,
        s.write_byte(b).backspace().bytes == put_cell(
            s.bytes,
            s.row as int,
            s.col as int,
            BLANK,
            s.color,
        ),
{
    let i = cell_offset(s.row as int, s.col as int);
    assert(put_cell(put_cell(s.bytes, s.row as int, s.col as int, b, s.color), s.row as int, s.col as int, BLANK, s.color)
        =~= put_cell(s.bytes, s.row as int, s.col as int, BLANK, s.color));
}

/// A centred text of fewer than `BUFFER_WIDTH` bytes leaves the same room on
/// both sides, give or take one cell.
pub proof fn lemma_centering_balanced(len: nat)
    requires
        len < BUFFER_WIDTH,
    ensures
        BUFFER_WIDTH - 1 <= 2 * centering_pad(len) + len <= BUFFER_WIDTH,
{
}

/// A newline on the bottom row moves every row up by one, leaves a blank
/// bottom row in the current attribute, and keeps the cursor on the bottom
/// row at its start.
pub proof fn lemma_newline_at_bottom_scrolls(s: TextScreen)
    requires
        s.wf(),
        s.row == BUFFER_HEIGHT - 1,
    ensures
        s.newline().wf(),
        s.newline().row == BUFFER_HEIGHT - 1,
        s.newline().col == 0,
        forall|r: int, c: int|
            0 <= r < BUFFER_HEIGHT - 1 && 0 <= c < BUFFER_WIDTH ==> #[trigger] s.newline().bytes[cell_offset(r, c)]
                == s.bytes[cell_offset(r + 1, c)] && s.newline().bytes[cell_offset(r, c) + 1]
                == s.bytes[cell_offset(r + 1, c) + 1],
        forall|c: int|
            0 <= c < BUFFER_WIDTH ==> #[trigger] s.newline().bytes[cell_offset(
                BUFFER_HEIGHT - 1,
                c,
            )] == BLANK && s.newline().bytes[cell_offset(BUFFER_HEIGHT - 1, c) + 1] == s.color,
{
}

/// Writing a string acts byte by byte, in order: each byte `b` is written as
/// `printable_or_placeholder(b)`, so the last byte's write comes after all
/// the others'.
pub proof fn lemma_write_string_byte_by_byte(s: TextScreen, bs: Seq<u8>)
    requires
        bs.len() > 0,
    ensures
        s.write_bytes(bs.map_values(|b: u8| printable_or_placeholder(b))) == s.write_bytes(
            bs.drop_last().map_values(|b: u8| printable_or_placeholder(b)),
        ).write_byte(printable_or_placeholder(bs.last())),
{
    let m = bs.map_values(|b: u8| printable_or_placeholder(b));
    assert(m =~= bs.drop_last().map_values(|b: u8| printable_or_placeholder(b)).push(
        printable_or_placeholder(bs.last()),
    ));
    lemma_write_bytes_push(
        s,
        bs.drop_last().map_values(|b: u8| printable_or_placeholder(b)),
        printable_or_placeholder(bs.last()),
    );
}

/// Writing bytes with no newline that fit in what is left of the line puts
/// each byte, in the current attribute, into the cells from the cursor on,
/// moves the cursor past them, and leaves every other byte of the buffer as
/// it was.
pub proof fn lemma_write_bytes_cells(s: TextScreen, bs: Seq<u8>)
    requires
        s.wf(),
        s.col + bs.len() <= BUFFER_WIDTH,
        forall|k: int| 0 <= k < bs.len() ==> #[trigger] bs[k] != 0x0A,
    ensures
        s.write_bytes(bs).wf(),
        s.write_bytes(bs).row == s.row,
        s.write_bytes(bs).col == s.col + bs.len(),
        s.write_bytes(bs).color == s.color,
        forall|k: int|
            0 <= k < bs.len() ==> #[trigger] s.write_bytes(bs).bytes[(s.row * 80 + s.col + k) * 2]
                == bs[k] && s.write_bytes(bs).bytes[(s.row * 80 + s.col + k) * 2 + 1] == s.color,
        forall|i: int|
            0 <= i < BUFFER_BYTES && !((s.row * 80 + s.col) * 2 <= i < (s.row * 80 + s.col
                + bs.len()) * 2) ==> #[trigger] s.write_bytes(bs).bytes[i] == s.bytes[i],
    decreases bs.len(),
{
    if bs.len() > 0 {
        let s1 = s.write_byte(bs[0]);
        let rest = bs.drop_first();
        assert forall|k: int| 0 <= k < rest.len() implies #[trigger] rest[k] != 0x0A by {
            assert(rest[k] == bs[k + 1]);
        }
        lemma_write_bytes_cells(s1, rest);
        let t = s.write_bytes(bs);
        assert(t == s1.write_bytes(rest));
        let start: int = (s.row * 80 + s.col) as int;
        assert(s1.row == s.row && s1.col == s.col + 1 && s1.color == s.color);
        assert(s1.bytes[start * 2] == bs[0] && s1.bytes[start * 2 + 1] == s.color);
        assert forall|k: int| 0 <= k < bs.len() implies #[trigger] t.bytes[(s.row * 80 + s.col
            + k) * 2] == bs[k] && t.bytes[(s.row * 80 + s.col + k) * 2 + 1] == s.color by {
            if k > 0 {
                assert(rest[k - 1] == bs[k]);
                assert((s1.row * 80 + s1.col + (k - 1)) * 2 == (start + k) * 2);
                assert(t.bytes[(s1.row * 80 + s1.col + (k - 1)) * 2] == rest[k - 1]);
            } else {
                assert(t.bytes[start * 2] == s1.bytes[start * 2]);
                assert(t.bytes[start * 2 + 1] == s1.bytes[start * 2 + 1]);
            }
        }
        assert forall|i: int|
            0 <= i < BUFFER_BYTES && !(start * 2 <= i < (start + bs.len()) * 2) implies #[trigger] t.bytes[i]
            == s.bytes[i] by {
            assert(t.bytes[i] == s1.bytes[i]);
        }
    }
}

/// `write_string` on a string with no newline that fits in what is left of
/// the line shows each of its bytes in a cell of its own, in order: every
/// printable byte, 0x20 (space) to 0x7E, as itself, and any other byte as
/// '?'; all in the current attribute.
pub proof fn lemma_write_string_shows_bytes(s: TextScreen, bs: Seq<u8>)
    requires
        s.wf(),
        s.col + bs.len() <= BUFFER_WIDTH,
        forall|k: int| 0 <= k < bs.len() ==> #[trigger] bs[k] != 0x0A,
    ensures
        ({
            let t = s.write_bytes(bs.map_values(|b: u8| printable_or_placeholder(b)));
            &&& t.col == s.col + bs.len()
            &&& forall|k: int|
                0 <= k < bs.len() ==> #[trigger] t.bytes[(s.row * 80 + s.col + k) * 2] == (if 0x20
                    <= bs[k] <= 0x7e {
                    bs[k]
                } else {
                    0x3Fu8
                }) && t.bytes[(s.row * 80 + s.col + k) * 2 + 1] == s.color
        }),
{
    let m = bs.map_values(|b: u8| printable_or_placeholder(b));
    assert forall|k: int| 0 <= k < m.len() implies #[trigger] m[k] != 0x0A by {}
    lemma_write_bytes_cells(s, m);
}

/// The sixteen colors have sixteen different hardware numbers, all below
/// 16, from Black (0) to White (15).
pub proof fn lemma_color_numbers(c1: Color, c2: Color)
    ensures
        color_number(c1) < 16,
        color_number(c1) == color_number(c2) ==> c1 == c2,
        color_number(Color::Black) == 0,
        color_number(Color::White) == 15,
{
}

} // verus!
