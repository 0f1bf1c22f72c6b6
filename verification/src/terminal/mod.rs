pub mod buffer;
pub mod lines;
pub mod parser;
pub mod semantics;
pub mod split;
pub mod screen;
pub mod laws;

pub use buffer::Buffer;
pub use screen::Screen;



use vstd::prelude::*;

verus! {

/// The writing direction of a line or a cell.
#[derive(Debug, Clone, Copy, PartialEq, Eq, Structural)]
pub enum Direction {
    LTR,
    RTL,
    Auto,
}

impl Default for Direction {
    fn default() -> (d: Self)
        ensures
            d == Direction::Auto,
    {
        Direction::Auto
    }
}

/// One character cell of the screen with its display attributes.
#[derive(Debug, Clone, Copy, PartialEq, Eq, Structural)]
pub struct Cell {
    pub ch: char,
    pub fg: u8,
    pub bg: u8,
    pub bold: bool,
    pub italic: bool,
    pub underline: bool,
    pub dim: bool,
    pub reverse: bool,
    pub strikethrough: bool,
    pub direction: Direction,
}

/// The blank cell: a space in the default colours (foreground 7, background 0)
/// with no attribute set.
pub open spec fn blank_cell() -> Cell {
    Cell {
        ch: ' ',
        fg: 7,
        bg: 0,
        bold: false,
        italic: false,
        underline: false,
        dim: false,
        reverse: false,
        strikethrough: false,
        direction: Direction::LTR,
    }
}

impl Default for Cell {
    fn default() -> (c: Self)
        ensures
            c == blank_cell(),
    {
        Cell {
            ch: ' ',
            fg: 7,
            bg: 0,
            bold: false,
            italic: false,
            underline: false,
            dim: false,
            reverse: false,
            strikethrough: false,
            direction: Direction::LTR,
        }
    }
}

/// The text cursor: its position on the visible screen and how it is shown.
#[derive(Debug, Clone, Copy, PartialEq, Eq, Structural)]
pub struct Cursor {
    pub x: u16,
    pub y: u16,
    pub visible: bool,
    pub blink: bool,
}

impl Default for Cursor {
    fn default() -> (c: Self)
        ensures
            c == (Cursor { x: 0, y: 0, visible: true, blink: true }),
    {
        Cursor { x: 0, y: 0, visible: true, blink: true }
    }
}

} // verus!
