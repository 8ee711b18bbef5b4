//! True color RGB constants (0x00RRGGBB).
use vstd::prelude::*;

verus! {

pub const BLACK: u32 = 0x00000000;
pub const WHITE: u32 = 0x00FFFFFF;
pub const RED: u32 = 0x00FF0000;
pub const GREEN: u32 = 0x0000AA00;
pub const BLUE: u32 = 0x000000CC;
pub const CYAN: u32 = 0x0000CCCC;
pub const MAGENTA: u32 = 0x00CC00CC;
pub const YELLOW: u32 = 0x00FFFF00;
pub const ORANGE: u32 = 0x00FF8800;
pub const PURPLE: u32 = 0x008800CC;
pub const LIGHT_GRAY: u32 = 0x00CCCCCC;
pub const DARK_GRAY: u32 = 0x00333333;
pub const LIGHT_BLUE: u32 = 0x004488FF;
pub const LIGHT_GREEN: u32 = 0x0044FF44;
pub const LIGHT_RED: u32 = 0x00FF4444;
pub const PINK: u32 = 0x00FF88FF;
pub const DARK_BLUE: u32 = 0x00001144;
pub const BROWN: u32 = 0x00884400;

} // verus!
