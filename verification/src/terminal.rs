//! What a terminal cell holds: a character, two colors and attribute flags.

use vstd::prelude::*;

verus! {

/// The named colors of the terminal palette.
#[derive(Debug, Clone, Copy, PartialEq, Eq, Structural)]
pub enum NamedColor {
    Black,
    Red,
    Green,
    Yellow,
    Blue,
    Magenta,
    Cyan,
    White,
    BrightBlack,
    BrightRed,
    BrightGreen,
    BrightYellow,
    BrightBlue,
    BrightMagenta,
    BrightCyan,
    BrightWhite,
    Foreground,
    Background,
    Cursor,
    DimBlack,
    DimRed,
    DimGreen,
    DimYellow,
    DimBlue,
    DimMagenta,
    DimCyan,
    DimWhite,
    BrightForeground,
    DimForeground,
}

/// A 24-bit color.
#[derive(Debug, Clone, Copy, PartialEq, Eq, Structural)]
pub struct Rgb {
    pub r: u8,
    pub g: u8,
    pub b: u8,
}

/// The color of a cell.
#[derive(Debug, Clone, Copy, PartialEq, Eq, Structural)]
pub enum Color {
    Named(NamedColor),
    Spec(Rgb),
    Indexed(u8),
}

/// Cell flag: foreground and background are swapped.
pub const FLAG_INVERSE: u16 = 0x0001;

/// Cell flag: bold.
pub const FLAG_BOLD: u16 = 0x0002;

/// Cell flag: italic.
pub const FLAG_ITALIC: u16 = 0x0004;

/// Cell flag: underlined.
pub const FLAG_UNDERLINE: u16 = 0x0008;

/// Cell flag: the row soft-wraps after this cell.
pub const FLAG_WRAPLINE: u16 = 0x0010;

/// Cell flag: the cell holds a double-width character.
pub const FLAG_WIDE_CHAR: u16 = 0x0020;

/// Cell flag: the second half of a double-width character.
pub const FLAG_WIDE_CHAR_SPACER: u16 = 0x0040;

/// Cell flag: dim.
pub const FLAG_DIM: u16 = 0x0080;

/// Cell flag: hidden.
pub const FLAG_HIDDEN: u16 = 0x0100;

/// Cell flag: struck out.
pub const FLAG_STRIKEOUT: u16 = 0x0200;

/// Cell flag: padding before a double-width character that did not fit.
pub const FLAG_LEADING_WIDE_CHAR_SPACER: u16 = 0x0400;

/// Every flag bit a cell can carry.
pub const FLAG_ALL: u16 = 0x7fff;

/// One cell of a grid row or a logical line.
#[derive(Debug, Clone, Copy, PartialEq, Eq, Structural)]
pub struct StyledCell {
    pub c: char,
    pub fg: Color,
    pub bg: Color,
    pub flags: u16,
}

impl StyledCell {
    /// Only known flag bits are set.
    pub open spec fn wf(self) -> bool {
        self.flags & FLAG_ALL == self.flags
    }
}

/// A row of cells.
#[derive(Debug, Clone, PartialEq, Eq)]
pub struct StyledLine {
    pub cells: Vec<StyledCell>,
}

impl Default for StyledLine {
    fn default() -> (r: StyledLine)
        ensures
            r@ == Seq::<StyledCell>::empty(),
    {
        StyledLine { cells: Vec::new() }
    }
}

impl View for StyledLine {
    type V = Seq<StyledCell>;

    open spec fn view(&self) -> Seq<StyledCell> {
        self.cells@
    }
}

/// The cells of each line.
pub open spec fn line_cells(lines: Seq<StyledLine>) -> Seq<Seq<StyledCell>> {
    lines.map_values(|l: StyledLine| l@)
}

/// The characters of a row of cells.
pub open spec fn cell_chars(cells: Seq<StyledCell>) -> Seq<char> {
    cells.map_values(|c: StyledCell| c.c)
}

/// `alacritty_terminal`'s `Flags::from_bits_truncate` keeps the bits of its
/// fifteen flags and drops the sixteenth bit.
#[verifier::external_body]
pub(crate) fn known_flags(bits: u16) -> (r: u16)
    ensures
        r == bits & FLAG_ALL,
{
    alacritty_terminal::term::cell::Flags::from_bits_truncate(bits).bits()
}

} // verus!
