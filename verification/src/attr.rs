//! Cell attribute bits as a VT engine reports them in `ScreenCell::attrs`.

use vstd::prelude::*;

verus! {

pub const INVERSE: u16 = 0b0000_0000_0001;
pub const BOLD: u16 = 0b0000_0000_0010;
pub const ITALIC: u16 = 0b0000_0000_0100;
pub const UNDERLINE: u16 = 0b0000_0000_1000;
pub const WRAPLINE: u16 = 0b0000_0001_0000;
pub const WIDE_CHAR: u16 = 0b0000_0010_0000;
pub const WIDE_CHAR_SPACER: u16 = 0b0000_0100_0000;
pub const DIM: u16 = 0b0000_1000_0000;
pub const HIDDEN: u16 = 0b0001_0000_0000;
pub const STRIKEOUT: u16 = 0b0010_0000_0000;

} // verus!
