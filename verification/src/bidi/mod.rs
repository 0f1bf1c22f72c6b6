pub mod detector;
pub mod reorder;

use crate::terminal::{Cell, Direction};
use detector::{is_rtl_char, is_whitespace_char, spec_is_rtl_char, spec_is_whitespace};
use vstd::prelude::*;

verus! {

/// True when every cell of the line holds white space (or the line is empty):
/// the text of the line trims to nothing.
pub open spec fn spec_is_blank(cells: Seq<Cell>) -> bool {
    forall|i: int| 0 <= i < cells.len() ==> spec_is_whitespace(#[trigger] cells[i].ch)
}

/// True when a cell of the line holds a right-to-left character.
pub open spec fn spec_cells_have_rtl(cells: Seq<Cell>) -> bool {
    exists|i: int| 0 <= i < cells.len() && spec_is_rtl_char(#[trigger] cells[i].ch)
}

/// The direction found for a line: right-to-left exactly when it holds a
/// right-to-left character.
pub open spec fn spec_line_direction(cells: Seq<Cell>) -> Direction {
    if spec_cells_have_rtl(cells) { Direction::RTL } else { Direction::LTR }
}

/// Whether the text of the cells trims to nothing.
pub fn cells_are_blank(cells: &[Cell]) -> (b: bool)
    ensures
        b == spec_is_blank(cells@),
{
    let mut i: usize = 0;
    while i < cells.len()
        invariant
            i <= cells@.len(),
            forall|j: int| 0 <= j < i ==> spec_is_whitespace(#[trigger] cells@[j].ch),
        decreases cells@.len() - i,
    {
        if !is_whitespace_char(cells[i].ch) {
            return false;
        }
        i = i + 1;
    }
    true
}

/// Whether a cell holds a right-to-left character.
pub fn cells_have_rtl(cells: &[Cell]) -> (b: bool)
    ensures
        b == spec_cells_have_rtl(cells@),
{
    let mut i: usize = 0;
    while i < cells.len()
        invariant
            i <= cells@.len(),
            forall|j: int| 0 <= j < i ==> !spec_is_rtl_char(#[trigger] cells@[j].ch),
        decreases cells@.len() - i,
    {
        if is_rtl_char(cells[i].ch) {
            return true;
        }
        i = i + 1;
    }
    false
}

/// Finds the writing direction of terminal lines.
///
/// A line is right-to-left when it holds a right-to-left character, or when
/// the share of right-to-left letters among its letters reaches the
/// threshold. A right-to-left letter is a right-to-left character, so the
/// second rule never decides more than the first.
pub struct BidiAnalyzer {
    /// The share of right-to-left letters, in percent, from which a line is
    /// taken as right-to-left.
    rtl_threshold_percent: u8,
}

impl BidiAnalyzer {
    /// An analyzer with a threshold of 30 percent.
    pub fn new() -> (a: Self)
        ensures
            a.threshold_percent() == 30,
    {
        BidiAnalyzer { rtl_threshold_percent: 30 }
    }

    pub closed spec fn threshold_percent(&self) -> u8 {
        self.rtl_threshold_percent
    }

    /// The direction of a line: `RTL` when it holds a right-to-left
    /// character, else `LTR` (blank lines included).
    pub fn analyze_line(&self, cells: &[Cell]) -> (d: Direction)
        ensures
            d == spec_line_direction(cells@),
    {
        if cells_are_blank(cells) {
            proof {
                assert forall|i: int| 0 <= i < cells@.len() implies !spec_is_rtl_char(#[trigger] cells@[i].ch) by {
                    assert(spec_is_whitespace(cells@[i].ch));
                }
            }
            return Direction::LTR;
        }
        if cells_have_rtl(cells) {
            return Direction::RTL;
        }
        // No cell holds a right-to-left character, so no letter is a
        // right-to-left letter: their share is zero, under the threshold.
        Direction::LTR
    }
}

impl Default for BidiAnalyzer {
    fn default() -> (a: Self)
        ensures
            a.threshold_percent() == 30,
    {
        Self::new()
    }
}

/// A line holding a right-to-left character anywhere is right-to-left; a
/// line holding none (a blank line among them) is left-to-right.
pub proof fn lemma_line_direction(cells: Seq<Cell>, k: int)
    ensures
        0 <= k < cells.len() && spec_is_rtl_char(cells[k].ch) ==> spec_line_direction(cells) == Direction::RTL,
        (forall|i: int| 0 <= i < cells.len() ==> !spec_is_rtl_char(#[trigger] cells[i].ch)) ==> spec_line_direction(cells)
            == Direction::LTR,
{
}

} // verus!
