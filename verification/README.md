# nolos

The logic of NolOS, a small bare-metal x86 kernel with a graphical shell,
as a Verus-verified library.

## Layout

- `src/allocator.rs` — bump allocator over a 1 MB heap. Allocations round
  the bump pointer up to the requested alignment and hand out offsets into
  the heap; `reset` releases everything.
- `src/framebuffer.rs` — the 640×480×32 linear frame buffer as a sequence of
  pixels; pixel, clear, rectangle, outline and line drawing, and the VBE
  port writes that set the mode. `src/framebuffer/colors.rs` holds the
  true-color constants.
- `src/vga.rs` — the 80×25 VGA text writer over a model of the text buffer's
  bytes (character and attribute per cell), with wrapping and scrolling.
- `src/keyboard.rs` — decoding of PS/2 scan codes (AZERTY).
- `src/gfx_shell.rs` — the graphical shell: a grid of character cells, the
  line editor, the commands (`help`, `clear`, `uname`, `mem`, `colors`,
  `halt`). Its screen output is an ordered list of drawing operations
  (mode set, fills, glyphs, title strings) that the program around it
  carries out; `paint` performs the fills on the frame buffer, and
  `paint_ops` states what a list of them does to the pixels. The text area
  (44 rows of 78 cells, y 20..460) lies between the title bar and the
  status bar, and nothing the shell draws after start-up leaves it.
- `app/` — the machine side: port I/O, the keyboard polling loop, copying
  the frame buffer and the text buffer to video memory, and the static heap.
  Glyphs are drawn by the kernel's 8×8 bitmap font module (`app/font.rs`),
  which is not part of this tree.

Every state type has an abstract view (`TextScreen`, `ShellView`, a pixel
sequence, the heap's used bytes and allocation count), and each operation's
contract states the new view exactly.
