//! A small graphical kernel's logic: bump allocator, framebuffer drawing,
//! VGA text writer, PS/2 keyboard decoding and the graphical shell.
pub mod allocator;
pub mod keyboard;
pub mod vga;
pub mod framebuffer;
pub mod gfx_shell;
