use crate::terminal::{Cell, Cursor, Direction};
use vstd::prelude::*;

verus! {

/// The direction a line is shown in: right-to-left when the tab is forced
/// right-to-left, else the direction found for the line.
pub open spec fn spec_display_direction(rtl_mode: bool, line_direction: Direction) -> Direction {
    if rtl_mode { Direction::RTL } else { line_direction }
}

pub fn display_direction(rtl_mode: bool, line_direction: Direction) -> (d: Direction)
    ensures
        d == spec_display_direction(rtl_mode, line_direction),
{
    if rtl_mode { Direction::RTL } else { line_direction }
}

pub open spec fn min_u8_15(v: u8) -> usize {
    if v <= 15 { v as usize } else { 15 }
}

/// The palette entries (0 to 15) of a cell's foreground and background:
/// its colours capped at 15, swapped when the cell is reversed.
pub open spec fn spec_cell_color_indices(cell: Cell) -> (usize, usize) {
    let fg = min_u8_15(cell.fg);
    let bg = min_u8_15(cell.bg);
    if cell.reverse { (bg, fg) } else { (fg, bg) }
}

pub fn cell_color_indices(cell: &Cell) -> (r: (usize, usize))
    ensures
        r == spec_cell_color_indices(*cell),
        r.0 < 16 && r.1 < 16,
{
    let fg_idx: usize = if cell.fg <= 15 { cell.fg as usize } else { 15 };
    let bg_idx: usize = if cell.bg <= 15 { cell.bg as usize } else { 15 };
    if cell.reverse { (bg_idx, fg_idx) } else { (fg_idx, bg_idx) }
}

/// The character drawn for a cell: a space for an empty (NUL) or blank cell,
/// else the cell's character.
pub open spec fn spec_display_char(ch: char) -> char {
    if ch == '\0' || ch == ' ' { ' ' } else { ch }
}

pub fn display_char(ch: char) -> (c: char)
    ensures
        c == spec_display_char(ch),
{
    if ch == '\0' || ch == '\x20' { ' ' } else { ch }
}

/// Whether the cell shown at column `x` of row `y` is drawn as the cursor:
/// the cursor is visible and at that place.
pub fn is_cursor_cell(x: usize, y: usize, cursor: &Cursor) -> (b: bool)
    ensures
        b == (cursor.visible && x == cursor.x && y == cursor.y),
{
    y == cursor.y as usize && x == cursor.x as usize && cursor.visible
}

/// A tab that is not forced right-to-left shows each line in the direction
/// found for it; a forced tab shows every line right-to-left.
pub proof fn lemma_display_direction(line_direction: Direction)
    ensures
        spec_display_direction(false, line_direction) == line_direction,
        spec_display_direction(true, line_direction) == Direction::RTL,
{
}

} // verus!
