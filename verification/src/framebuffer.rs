//! Linear framebuffer, 640×480 at 32 bits per pixel, set up through the
//! Bochs VBE interface.
//!
//! The pixels are modelled as the linear frame buffer's contents, row by row
//! (pixel `(x, y)` at index `y * SCREEN_WIDTH + x`). Mode setting is a fixed
//! sequence of writes to the VBE index and data ports, which this module
//! computes and the program around the library performs.
use vstd::prelude::*;

pub mod colors;

verus! {

pub const SCREEN_WIDTH: usize = 640;
pub const SCREEN_HEIGHT: usize = 480;
pub const BPP: usize = 32;
/// Number of pixels on the screen.
pub const SCREEN_PIXELS: usize = 307200;

pub const VBE_DISPI_IOPORT_INDEX: u16 = 0x01CE;
pub const VBE_DISPI_IOPORT_DATA: u16 = 0x01CF;

pub const VBE_DISPI_INDEX_XRES: u16 = 0x1;
pub const VBE_DISPI_INDEX_YRES: u16 = 0x2;
pub const VBE_DISPI_INDEX_BPP: u16 = 0x3;
pub const VBE_DISPI_INDEX_ENABLE: u16 = 0x4;
pub const VBE_DISPI_INDEX_VIRT_WIDTH: u16 = 0x6;
pub const VBE_DISPI_INDEX_VIRT_HEIGHT: u16 = 0x7;
pub const VBE_DISPI_INDEX_X_OFFSET: u16 = 0x8;
pub const VBE_DISPI_INDEX_Y_OFFSET: u16 = 0x9;

pub const VBE_DISPI_ENABLED: u16 = 0x01;
pub const VBE_DISPI_LFB_ENABLED: u16 = 0x40;

/// Physical address of the linear frame buffer (BAR0 of the VGA device).
pub const LFB_ADDR: usize = 0xFC000000;

/// The VBE registers written to set the mode, as (register, value), in order:
/// disable, 640×480×32, virtual size 640×480, offset (0, 0), enable with
/// the linear frame buffer.
pub open spec fn mode_registers() -> Seq<(u16, u16)> {
    seq![
        (VBE_DISPI_INDEX_ENABLE, 0u16),
        (VBE_DISPI_INDEX_XRES, 640u16),
        (VBE_DISPI_INDEX_YRES, 480u16),
        (VBE_DISPI_INDEX_BPP, 32u16),
        (VBE_DISPI_INDEX_VIRT_WIDTH, 640u16),
        (VBE_DISPI_INDEX_VIRT_HEIGHT, 480u16),
        (VBE_DISPI_INDEX_X_OFFSET, 0u16),
        (VBE_DISPI_INDEX_Y_OFFSET, 0u16),
        (VBE_DISPI_INDEX_ENABLE, 0x41u16),
    ]
}

/// Port writes, as (port, value), that set each register of `regs` in turn:
/// the register number to the index port, then the value to the data port.
pub open spec fn port_writes(regs: Seq<(u16, u16)>) -> Seq<(u16, u16)>
    decreases regs.len(),
{
    if regs.len() == 0 {
        Seq::empty()
    } else {
        port_writes(regs.drop_last()) + seq![
            (VBE_DISPI_IOPORT_INDEX, regs.last().0),
            (VBE_DISPI_IOPORT_DATA, regs.last().1),
        ]
    }
}

/// Queue the port writes that set VBE register `index` to `val`.
pub fn vbe_write(writes: &mut Vec<(u16, u16)>, index: u16, val: u16)
    ensures
        final(writes)@ == old(writes)@ + seq![
            (VBE_DISPI_IOPORT_INDEX, index),
            (VBE_DISPI_IOPORT_DATA, val),
        ],
{
    writes.push((VBE_DISPI_IOPORT_INDEX, index));
    writes.push((VBE_DISPI_IOPORT_DATA, val));
}

/// The port writes, in order, that initialize 640x480x32bpp via Bochs VBE.
pub fn init() -> (writes: Vec<(u16, u16)>)
    ensures
        writes@ == port_writes(mode_registers()),
{
    let mut w: Vec<(u16, u16)> = Vec::new();
    vbe_write(&mut w, VBE_DISPI_INDEX_ENABLE, 0x00);
    vbe_write(&mut w, VBE_DISPI_INDEX_XRES, SCREEN_WIDTH as u16);
    vbe_write(&mut w, VBE_DISPI_INDEX_YRES, SCREEN_HEIGHT as u16);
    vbe_write(&mut w, VBE_DISPI_INDEX_BPP, BPP as u16);
    vbe_write(&mut w, VBE_DISPI_INDEX_VIRT_WIDTH, SCREEN_WIDTH as u16);
    vbe_write(&mut w, VBE_DISPI_INDEX_VIRT_HEIGHT, SCREEN_HEIGHT as u16);
    vbe_write(&mut w, VBE_DISPI_INDEX_X_OFFSET, 0);
    vbe_write(&mut w, VBE_DISPI_INDEX_Y_OFFSET, 0);
    vbe_write(&mut w, VBE_DISPI_INDEX_ENABLE, VBE_DISPI_ENABLED | VBE_DISPI_LFB_ENABLED);
    proof {
        assert(VBE_DISPI_ENABLED | VBE_DISPI_LFB_ENABLED == 0x41u16) by (bit_vector);
        let regs = mode_registers();
        assert(regs.drop_last().drop_last().drop_last().drop_last().drop_last().drop_last()
            .drop_last().drop_last().drop_last() =~= Seq::<(u16, u16)>::empty());
        reveal_with_fuel(port_writes, 10);
    }
    assert(w@ =~= port_writes(mode_registers()));
    w
}

/// Index of pixel `(x, y)` in the frame buffer.
pub open spec fn pixel_index(x: int, y: int) -> int {
    y * SCREEN_WIDTH + x
}

/// Column of the pixel at index `i`.
pub open spec fn pixel_x(i: int) -> int {
    i % (SCREEN_WIDTH as int)
}

/// Row of the pixel at index `i`.
pub open spec fn pixel_y(i: int) -> int {
    i / (SCREEN_WIDTH as int)
}

/// `(c, r)` lies in the `w`×`h` rectangle whose top-left corner is `(x, y)`.
pub open spec fn in_rect(c: int, r: int, x: int, y: int, w: int, h: int) -> bool {
    x <= c < x + w && y <= r < y + h
}

/// `(c, r)` lies on the outline that `draw_rect` draws: the top edge, the
/// bottom edge, the left edge and the right edge. When the rectangle starts
/// on screen but reaches past its bottom (right) side, the bottom (right)
/// edge is drawn on the last row (column) of the screen.
pub open spec fn on_outline(c: int, r: int, x: int, y: int, w: int, h: int) -> bool {
    let bottom = outline_bottom(y, h);
    let right = outline_right(x, w);
    ||| x <= c < x + w && (r == y || r == bottom)
    ||| y <= r < y + h && (c == x || c == right)
}

/// Row of the outline's bottom edge.
pub open spec fn outline_bottom(y: int, h: int) -> int {
    if y < SCREEN_HEIGHT && SCREEN_HEIGHT - 1 <= y + h - 1 {
        SCREEN_HEIGHT - 1
    } else {
        y + h - 1
    }
}

/// Column of the outline's right edge.
pub open spec fn outline_right(x: int, w: int) -> int {
    if x < SCREEN_WIDTH && SCREEN_WIDTH - 1 <= x + w - 1 {
        SCREEN_WIDTH - 1
    } else {
        x + w - 1
    }
}

/// `pixels` with every on-screen pixel in `region` set to `color`.
pub open spec fn painted(pixels: Seq<u32>, region: spec_fn(int, int) -> bool, color: u32) -> Seq<
    u32,
> {
    Seq::new(
        pixels.len(),
        |i: int| if region(pixel_x(i), pixel_y(i)) { color } else { pixels[i] },
    )
}

/// The pixels of the screen.
pub struct Framebuffer {
    pixels: Vec<u32>,
}

impl View for Framebuffer {
    type V = Seq<u32>;

    closed spec fn view(&self) -> Seq<u32> {
        self.pixels@
    }
}

impl Framebuffer {
    /// The frame buffer holds one value per pixel of the screen.
    pub open spec fn wf(&self) -> bool {
        self@.len() == SCREEN_PIXELS
    }

    /// A black screen.
    pub fn new() -> (fb: Self)
        ensures
            fb.wf(),
            fb@ == Seq::new(SCREEN_PIXELS as nat, |i: int| colors::BLACK),
    {
        let mut pixels: Vec<u32> = Vec::new();
        let mut i: usize = 0;
        while i < SCREEN_PIXELS
            invariant
                i <= SCREEN_PIXELS,
                pixels@.len() == i,
                forall|j: int| 0 <= j < i ==> pixels@[j] == colors::BLACK,
            decreases SCREEN_PIXELS - i,
        {
            pixels.push(colors::BLACK);
            i = i + 1;
        }
        let fb = Framebuffer { pixels };
        assert(fb@ =~= Seq::new(SCREEN_PIXELS as nat, |i: int| colors::BLACK));
        fb
    }

    /// The color of pixel `(x, y)`.
    pub fn pixel(&self, x: usize, y: usize) -> (r: u32)
        requires
            self.wf(),
            x < SCREEN_WIDTH,
            y < SCREEN_HEIGHT,
        ensures
            r == self@[pixel_index(x as int, y as int)],
    {
        self.pixels[y * SCREEN_WIDTH + x]
    }
}

/// Pixel `(x, y)` on screen has an index on screen that gives back `x` and
/// `y`.
pub proof fn lemma_pixel_coords(x: int, y: int)
    requires
        0 <= x < SCREEN_WIDTH,
        0 <= y < SCREEN_HEIGHT,
    ensures
        0 <= pixel_index(x, y) < SCREEN_PIXELS,
        pixel_x(pixel_index(x, y)) == x,
        pixel_y(pixel_index(x, y)) == y,
{
    vstd::arithmetic::div_mod::lemma_fundamental_div_mod_converse(
        pixel_index(x, y),
        SCREEN_WIDTH as int,
        y,
        x,
    );
}

/// Every index on screen is the index of the pixel at its column and row.
pub proof fn lemma_index_coords(i: int)
    requires
        0 <= i < SCREEN_PIXELS,
    ensures
        0 <= pixel_x(i) < SCREEN_WIDTH,
        0 <= pixel_y(i) < SCREEN_HEIGHT,
        pixel_index(pixel_x(i), pixel_y(i)) == i,
{
    vstd::arithmetic::div_mod::lemma_fundamental_div_mod(i, SCREEN_WIDTH as int);
}

/// Adding one pixel `(x, y)` to a painted region is one more pixel write:
/// an update on screen, nothing off screen.
proof fn lemma_paint_step(
    s: Seq<u32>,
    before: spec_fn(int, int) -> bool,
    after: spec_fn(int, int) -> bool,
    x: int,
    y: int,
    color: u32,
)
    requires
        s.len() == SCREEN_PIXELS,
        0 <= x,
        0 <= y,
        forall|c: int, r: int|
            0 <= c < SCREEN_WIDTH && 0 <= r < SCREEN_HEIGHT ==> #[trigger] after(c, r) == (before(
                c,
                r,
            ) || (c == x && r == y)),
    ensures
        painted(s, after, color) == if x < SCREEN_WIDTH && y < SCREEN_HEIGHT {
            painted(s, before, color).update(pixel_index(x, y), color)
        } else {
            painted(s, before, color)
        },
{
    if x < SCREEN_WIDTH && y < SCREEN_HEIGHT {
        lemma_pixel_coords(x, y);
    }
    assert forall|i: int| 0 <= i < SCREEN_PIXELS implies #[trigger] painted(s, after, color)[i]
        == (if x < SCREEN_WIDTH && y < SCREEN_HEIGHT {
        painted(s, before, color).update(pixel_index(x, y), color)
    } else {
        painted(s, before, color)
    })[i] by {
        lemma_index_coords(i);
    }
    assert(painted(s, after, color) =~= if x < SCREEN_WIDTH && y < SCREEN_HEIGHT {
        painted(s, before, color).update(pixel_index(x, y), color)
    } else {
        painted(s, before, color)
    });
}

/// Two regions that agree on the screen paint the same pixels.
proof fn lemma_paint_same(
    s: Seq<u32>,
    r1: spec_fn(int, int) -> bool,
    r2: spec_fn(int, int) -> bool,
    color: u32,
)
    requires
        s.len() == SCREEN_PIXELS,
        forall|c: int, r: int|
            0 <= c < SCREEN_WIDTH && 0 <= r < SCREEN_HEIGHT ==> #[trigger] r1(c, r) == r2(c, r),
    ensures
        painted(s, r1, color) == painted(s, r2, color),
{
    assert forall|i: int| 0 <= i < SCREEN_PIXELS implies #[trigger] painted(s, r1, color)[i]
        == painted(s, r2, color)[i] by {
        lemma_index_coords(i);
    }
    assert(painted(s, r1, color) =~= painted(s, r2, color));
}

/// Painting an empty region changes nothing.
proof fn lemma_paint_nothing(s: Seq<u32>, r: spec_fn(int, int) -> bool, color: u32)
    requires
        s.len() == SCREEN_PIXELS,
        forall|c: int, r0: int|
            0 <= c < SCREEN_WIDTH && 0 <= r0 < SCREEN_HEIGHT ==> !#[trigger] r(c, r0),
    ensures
        painted(s, r, color) == s,
{
    assert forall|i: int| 0 <= i < SCREEN_PIXELS implies #[trigger] painted(s, r, color)[i]
        == s[i] by {
        lemma_index_coords(i);
    }
    assert(painted(s, r, color) =~= s);
}

/// Write a 32bpp pixel at (x, y); nothing happens off screen.
pub fn put_pixel(fb: &mut Framebuffer, x: usize, y: usize, color: u32)
    requires
        old(fb).wf(),
    ensures
        final(fb).wf(),
        final(fb)@ == if x < SCREEN_WIDTH && y < SCREEN_HEIGHT {
            old(fb)@.update(pixel_index(x as int, y as int), color)
        } else {
            old(fb)@
        },
{
    if x >= SCREEN_WIDTH || y >= SCREEN_HEIGHT {
        return;
    }
    fb.pixels.set(y * SCREEN_WIDTH + x, color);
}

/// Fill the entire screen.
pub fn clear(fb: &mut Framebuffer, color: u32)
    requires
        old(fb).wf(),
    ensures
        final(fb).wf(),
        final(fb)@ == Seq::new(SCREEN_PIXELS as nat, |i: int| color),
{
    let mut i: usize = 0;
    while i < SCREEN_WIDTH * SCREEN_HEIGHT
        invariant
            fb.wf(),
            i <= SCREEN_PIXELS,
            forall|j: int| 0 <= j < i ==> fb@[j] == color,
        decreases SCREEN_PIXELS - i,
    {
        fb.pixels.set(i, color);
        i = i + 1;
    }
    assert(fb@ =~= Seq::new(SCREEN_PIXELS as nat, |i: int| color));
}

/// Fill the part of the `w`×`h` rectangle at `(x, y)` that lies on screen.
pub fn fill_rect(fb: &mut Framebuffer, x: usize, y: usize, w: usize, h: usize, color: u32)
    requires
        old(fb).wf(),
        y + h <= usize::MAX,
        h > 0 && y < SCREEN_HEIGHT ==> x + w <= usize::MAX,
    ensures
        final(fb).wf(),
        final(fb)@ == painted(
            old(fb)@,
            |c: int, r: int| in_rect(c, r, x as int, y as int, w as int, h as int),
            color,
        ),
{
    let ghost start = fb@;
    let row_end = if y + h < SCREEN_HEIGHT {
        y + h
    } else {
        SCREEN_HEIGHT
    };
    let mut row: usize = y;
    proof {
        lemma_paint_nothing(
            start,
            |c: int, r: int| in_rect(c, r, x as int, y as int, w as int, row - y),
            color,
        );
    }
    while row < row_end
        invariant
            fb.wf(),
            start.len() == SCREEN_PIXELS,
            y <= row,
            row_end == if y + h < SCREEN_HEIGHT { y + h } else { SCREEN_HEIGHT as int },
            h > 0 && y < SCREEN_HEIGHT ==> x + w <= usize::MAX,
            row <= row_end || row == y,
            fb@ == painted(
                start,
                |c: int, r: int| in_rect(c, r, x as int, y as int, w as int, row - y),
                color,
            ),
        decreases row_end - row,
    {
        let col_end = if x + w < SCREEN_WIDTH {
            x + w
        } else {
            SCREEN_WIDTH
        };
        let mut col: usize = x;
        proof {
            lemma_paint_same(
                start,
                |c: int, r: int| in_rect(c, r, x as int, y as int, w as int, row - y),
                |c: int, r: int|
                    in_rect(c, r, x as int, y as int, w as int, row - y) || (r == row && x <= c
                        < col),
                color,
            );
        }
        while col < col_end
            invariant
                fb.wf(),
                start.len() == SCREEN_PIXELS,
                y <= row < row_end,
                x <= col,
                row_end == if y + h < SCREEN_HEIGHT { y + h } else { SCREEN_HEIGHT as int },
                col_end == if x + w < SCREEN_WIDTH { x + w } else { SCREEN_WIDTH as int },
                col <= col_end || col == x,
                fb@ == painted(
                    start,
                    |c: int, r: int|
                        in_rect(c, r, x as int, y as int, w as int, row - y) || (r == row && x
                            <= c < col),
                    color,
                ),
            decreases col_end - col,
        {
            proof {
                lemma_paint_step(
                    start,
                    |c: int, r: int|
                        in_rect(c, r, x as int, y as int, w as int, row - y) || (r == row && x
                            <= c < col),
                    |c: int, r: int|
                        in_rect(c, r, x as int, y as int, w as int, row - y) || (r == row && x
                            <= c < col + 1),
                    col as int,
                    row as int,
                    color,
                );
            }
            put_pixel(fb, col, row, color);
            col = col + 1;
        }
        proof {
            lemma_paint_same(
                start,
                |c: int, r: int|
                    in_rect(c, r, x as int, y as int, w as int, row - y) || (r == row && x <= c
                        < col),
                |c: int, r: int| in_rect(c, r, x as int, y as int, w as int, row + 1 - y),
                color,
            );
        }
        row = row + 1;
    }
    proof {
        lemma_paint_same(
            start,
            |c: int, r: int| in_rect(c, r, x as int, y as int, w as int, row - y),
            |c: int, r: int| in_rect(c, r, x as int, y as int, w as int, h as int),
            color,
        );
    }
}

/// Draw the outline of the `w`×`h` rectangle at `(x, y)`. For a rectangle
/// that starts on screen, the bottom and right edges are pulled in to the
/// last row and column of the screen when it reaches past them; an outline
/// that lies wholly off screen draws nothing.
pub fn draw_rect(fb: &mut Framebuffer, x: usize, y: usize, w: usize, h: usize, color: u32)
    requires
        old(fb).wf(),
        x + w <= usize::MAX,
        y + h <= usize::MAX,
        w > 0 && x < SCREEN_WIDTH ==> y + h >= 1,
        h > 0 && y < SCREEN_HEIGHT ==> x + w >= 1,
    ensures
        final(fb).wf(),
        final(fb)@ == painted(
            old(fb)@,
            |c: int, r: int| on_outline(c, r, x as int, y as int, w as int, h as int),
            color,
        ),
{
    let ghost start = fb@;
    let ghost bottom: int = outline_bottom(y as int, h as int);
    let ghost right: int = outline_right(x as int, w as int);
    let col_end = if x + w < SCREEN_WIDTH {
        x + w
    } else {
        SCREEN_WIDTH
    };
    let mut col: usize = x;
    proof {
        lemma_paint_nothing(
            start,
            |c: int, r: int| x <= c < col && (r == y || r == bottom),
            color,
        );
    }
    while col < col_end
        invariant
            fb.wf(),
            start.len() == SCREEN_PIXELS,
            x <= col,
            col <= col_end || col == x,
            col_end == if x + w < SCREEN_WIDTH { x + w } else { SCREEN_WIDTH as int },
            w > 0 && x < SCREEN_WIDTH ==> y + h >= 1,
            y + h <= usize::MAX,
            bottom == outline_bottom(y as int, h as int),
            fb@ == painted(start, |c: int, r: int| x <= c < col && (r == y || r == bottom), color),
        decreases col_end - col,
    {
        let low = if y < SCREEN_HEIGHT && SCREEN_HEIGHT - 1 <= y + h - 1 {
            SCREEN_HEIGHT - 1
        } else {
            y + h - 1
        };
        proof {
            lemma_paint_step(
                start,
                |c: int, r: int| x <= c < col && (r == y || r == bottom),
                |c: int, r: int| (x <= c < col && (r == y || r == bottom)) || (c == col && r == y),
                col as int,
                y as int,
                color,
            );
            lemma_paint_step(
                start,
                |c: int, r: int| (x <= c < col && (r == y || r == bottom)) || (c == col && r == y),
                |c: int, r: int| x <= c < col + 1 && (r == y || r == bottom),
                col as int,
                low as int,
                color,
            );
        }
        put_pixel(fb, col, y, color);
        put_pixel(fb, col, low, color);
        col = col + 1;
    }
    let row_end = if y + h < SCREEN_HEIGHT {
        y + h
    } else {
        SCREEN_HEIGHT
    };
    let mut row: usize = y;
    proof {
        lemma_paint_same(
            start,
            |c: int, r: int| x <= c < col && (r == y || r == bottom),
            |c: int, r: int|
                (x <= c < x + w && (r == y || r == bottom)) || (y <= r < row && (c == x || c
                    == right)),
            color,
        );
    }
    while row < row_end
        invariant
            fb.wf(),
            start.len() == SCREEN_PIXELS,
            y <= row,
            row <= row_end || row == y,
            row_end == if y + h < SCREEN_HEIGHT { y + h } else { SCREEN_HEIGHT as int },
            h > 0 && y < SCREEN_HEIGHT ==> x + w >= 1,
            x + w <= usize::MAX,
            right == outline_right(x as int, w as int),
            fb@ == painted(
                start,
                |c: int, r: int|
                    (x <= c < x + w && (r == y || r == bottom)) || (y <= r < row && (c == x || c
                        == right)),
                color,
            ),
        decreases row_end - row,
    {
        let far = if x < SCREEN_WIDTH && SCREEN_WIDTH - 1 <= x + w - 1 {
            SCREEN_WIDTH - 1
        } else {
            x + w - 1
        };
        proof {
            lemma_paint_step(
                start,
                |c: int, r: int|
                    (x <= c < x + w && (r == y || r == bottom)) || (y <= r < row && (c == x || c
                        == right)),
                |c: int, r: int|
                    ((x <= c < x + w && (r == y || r == bottom)) || (y <= r < row && (c == x
                        || c == right))) || (c == x && r == row),
                x as int,
                row as int,
                color,
            );
            lemma_paint_step(
                start,
                |c: int, r: int|
                    ((x <= c < x + w && (r == y || r == bottom)) || (y <= r < row && (c == x
                        || c == right))) || (c == x && r == row),
                |c: int, r: int|
                    (x <= c < x + w && (r == y || r == bottom)) || (y <= r < row + 1 && (c == x
                        || c == right)),
                far as int,
                row as int,
                color,
            );
        }
        put_pixel(fb, x, row, color);
        put_pixel(fb, far, row, color);
        row = row + 1;
    }
    proof {
        lemma_paint_same(
            start,
            |c: int, r: int|
                (x <= c < x + w && (r == y || r == bottom)) || (y <= r < row && (c == x || c
                    == right)),
            |c: int, r: int| on_outline(c, r, x as int, y as int, w as int, h as int),
            color,
        );
    }
}

/// Horizontal line of `len` pixels from `(x, y)` to the right.
pub fn hline(fb: &mut Framebuffer, x: usize, y: usize, len: usize, color: u32)
    requires
        old(fb).wf(),
        len == 0 || x + len - 1 <= usize::MAX,
    ensures
        final(fb).wf(),
        final(fb)@ == painted(old(fb)@, |c: int, r: int| r == y && x <= c < x + len, color),
{
    let ghost start = fb@;
    let mut i: usize = 0;
    proof {
        lemma_paint_nothing(start, |c: int, r: int| r == y && x <= c < x + i, color);
    }
    while i < len
        invariant
            fb.wf(),
            start.len() == SCREEN_PIXELS,
            i <= len,
            len == 0 || x + len - 1 <= usize::MAX,
            fb@ == painted(start, |c: int, r: int| r == y && x <= c < x + i, color),
        decreases len - i,
    {
        proof {
            lemma_paint_step(
                start,
                |c: int, r: int| r == y && x <= c < x + i,
                |c: int, r: int| r == y && x <= c < x + i + 1,
                x + i,
                y as int,
                color,
            );
        }
        put_pixel(fb, x + i, y, color);
        i = i + 1;
    }
}

/// Vertical line of `len` pixels from `(x, y)` downwards.
pub fn vline(fb: &mut Framebuffer, x: usize, y: usize, len: usize, color: u32)
    requires
        old(fb).wf(),
        len == 0 || y + len - 1 <= usize::MAX,
    ensures
        final(fb).wf(),
        final(fb)@ == painted(old(fb)@, |c: int, r: int| c == x && y <= r < y + len, color),
{
    let ghost start = fb@;
    let mut i: usize = 0;
    proof {
        lemma_paint_nothing(start, |c: int, r: int| c == x && y <= r < y + i, color);
    }
    while i < len
        invariant
            fb.wf(),
            start.len() == SCREEN_PIXELS,
            i <= len,
            len == 0 || y + len - 1 <= usize::MAX,
            fb@ == painted(start, |c: int, r: int| c == x && y <= r < y + i, color),
        decreases len - i,
    {
        proof {
            lemma_paint_step(
                start,
                |c: int, r: int| c == x && y <= r < y + i,
                |c: int, r: int| c == x && y <= r < y + i + 1,
                x as int,
                y + i,
                color,
            );
        }
        put_pixel(fb, x, y + i, color);
        i = i + 1;
    }
}

/// A horizontal line paints the same pixels as a rectangle one pixel high.
pub proof fn lemma_hline_is_fill_rect(pixels: Seq<u32>, x: usize, y: usize, len: usize, color: u32)
    requires
        pixels.len() == SCREEN_PIXELS,
    ensures
        painted(pixels, |c: int, r: int| r == y && x <= c < x + len, color) == painted(
            pixels,
            |c: int, r: int| in_rect(c, r, x as int, y as int, len as int, 1),
            color,
        ),
{
    lemma_paint_same(
        pixels,
        |c: int, r: int| r == y && x <= c < x + len,
        |c: int, r: int| in_rect(c, r, x as int, y as int, len as int, 1),
        color,
    );
}

/// A vertical line paints the same pixels as a rectangle one pixel wide.
pub proof fn lemma_vline_is_fill_rect(pixels: Seq<u32>, x: usize, y: usize, len: usize, color: u32)
    requires
        pixels.len() == SCREEN_PIXELS,
    ensures
        painted(pixels, |c: int, r: int| c == x && y <= r < y + len, color) == painted(
            pixels,
            |c: int, r: int| in_rect(c, r, x as int, y as int, 1, len as int),
            color,
        ),
{
    lemma_paint_same(
        pixels,
        |c: int, r: int| c == x && y <= r < y + len,
        |c: int, r: int| in_rect(c, r, x as int, y as int, 1, len as int),
        color,
    );
}

/// For a non-empty rectangle the visible part of the outline lies inside the
/// rectangle: drawing it in the color the rectangle was filled with changes
/// nothing.
pub proof fn lemma_outline_within_fill(
    pixels: Seq<u32>,
    x: usize,
    y: usize,
    w: usize,
    h: usize,
    color: u32,
)
    requires
        pixels.len() == SCREEN_PIXELS,
        w > 0,
        h > 0,
    ensures
        painted(
            painted(
                pixels,
                |c: int, r: int| in_rect(c, r, x as int, y as int, w as int, h as int),
                color,
            ),
            |c: int, r: int| on_outline(c, r, x as int, y as int, w as int, h as int),
            color,
        ) == painted(
            pixels,
            |c: int, r: int| in_rect(c, r, x as int, y as int, w as int, h as int),
            color,
        ),
{
    let filled = painted(
        pixels,
        |c: int, r: int| in_rect(c, r, x as int, y as int, w as int, h as int),
        color,
    );
    let both = painted(
        filled,
        |c: int, r: int| on_outline(c, r, x as int, y as int, w as int, h as int),
        color,
    );
    assert forall|i: int| 0 <= i < SCREEN_PIXELS implies #[trigger] both[i] == filled[i] by {
        lemma_index_coords(i);
    }
    assert(both =~= filled);
}

/// The outline of a non-empty rectangle that lies wholly off screen, to the
/// right of it or below it, draws nothing.
pub proof fn lemma_offscreen_outline_draws_nothing(
    pixels: Seq<u32>,
    x: usize,
    y: usize,
    w: usize,
    h: usize,
    color: u32,
)
    requires
        pixels.len() == SCREEN_PIXELS,
        w > 0,
        h > 0,
        x >= SCREEN_WIDTH || y >= SCREEN_HEIGHT,
    ensures
        painted(
            pixels,
            |c: int, r: int| on_outline(c, r, x as int, y as int, w as int, h as int),
            color,
        ) == pixels,
{
    lemma_paint_nothing(
        pixels,
        |c: int, r: int| on_outline(c, r, x as int, y as int, w as int, h as int),
        color,
    );
}

/// Setting the mode writes each register through the VBE ports (register
/// number to 0x1CE, then value to 0x1CF) in this order: display off; the
/// resolution of the screen (SCREEN_WIDTH × SCREEN_HEIGHT) and BPP bits per
/// pixel; a virtual screen of the same size at offset (0, 0); display on
/// with the linear frame buffer.
pub proof fn lemma_mode_set_writes()
    ensures
        port_writes(mode_registers()).len() == 18,
        forall|i: int|
            0 <= i < 9 ==> #[trigger] port_writes(mode_registers())[2 * i] == (0x1CEu16, mode_registers()[i].0)
                && port_writes(mode_registers())[2 * i + 1] == (0x1CFu16, mode_registers()[i].1),
        mode_registers() == seq![
            (0x4u16, 0u16),
            (0x1u16, SCREEN_WIDTH as u16),
            (0x2u16, SCREEN_HEIGHT as u16),
            (0x3u16, BPP as u16),
            (0x6u16, SCREEN_WIDTH as u16),
            (0x7u16, SCREEN_HEIGHT as u16),
            (0x8u16, 0u16),
            (0x9u16, 0u16),
            (0x4u16, 0x41u16),
        ],
{
    lemma_port_writes_pairs(mode_registers());
}

/// The port writes for `regs` are, register by register, the register
/// number to the index port and then its value to the data port.
proof fn lemma_port_writes_pairs(regs: Seq<(u16, u16)>)
    ensures
        port_writes(regs).len() == 2 * regs.len(),
        forall|i: int|
            0 <= i < regs.len() ==> #[trigger] port_writes(regs)[2 * i] == (
                VBE_DISPI_IOPORT_INDEX,
                regs[i].0,
            ) && port_writes(regs)[2 * i + 1] == (VBE_DISPI_IOPORT_DATA, regs[i].1),
    decreases regs.len(),
{
    if regs.len() > 0 {
        lemma_port_writes_pairs(regs.drop_last());
        let a = port_writes(regs.drop_last());
        assert forall|i: int| 0 <= i < regs.len() implies #[trigger] port_writes(regs)[2 * i] == (
            VBE_DISPI_IOPORT_INDEX,
            regs[i].0,
        ) && port_writes(regs)[2 * i + 1] == (VBE_DISPI_IOPORT_DATA, regs[i].1) by {
            if i < regs.len() - 1 {
                assert(a[2 * i] == (VBE_DISPI_IOPORT_INDEX, regs.drop_last()[i].0));
            }
        }
    }
}

} // verus!
