//! The view of a sequence of lines, and how it follows the sequence operations.
use super::{blank_cell, Cell, Direction};
use vstd::prelude::*;

verus! {

/// One line of the buffer: its cells and the writing direction found for it.
#[derive(Debug)]
pub struct Line {
    pub cells: Vec<Cell>,
    pub direction: Direction,
}

/// A line as a value: its cells and its direction.
pub struct LineModel {
    pub cells: Seq<Cell>,
    pub direction: Direction,
}

impl View for Line {
    type V = LineModel;

    open spec fn view(&self) -> LineModel {
        LineModel { cells: self.cells@, direction: self.direction }
    }
}

/// `n` blank cells.
pub open spec fn blank_cells(n: nat) -> Seq<Cell> {
    Seq::new(n, |i: int| blank_cell())
}

/// A fresh line: `cols` blank cells, left-to-right.
pub open spec fn blank_line(cols: u16) -> LineModel {
    LineModel { cells: blank_cells(cols as nat), direction: Direction::LTR }
}

/// The cells with those at positions `lo <= i < hi` made blank.
pub open spec fn blank_range(cells: Seq<Cell>, lo: int, hi: int) -> Seq<Cell> {
    Seq::new(cells.len(), |i: int| if lo <= i < hi { blank_cell() } else { cells[i] })
}

impl LineModel {
    /// The line with every cell blank; its direction is kept.
    pub open spec fn cleared(self) -> LineModel {
        LineModel { cells: blank_cells(self.cells.len()), direction: self.direction }
    }

    /// The line with cell `x` replaced, when `x` is a cell of the line.
    pub open spec fn with_cell(self, x: int, cell: Cell) -> LineModel {
        if 0 <= x < self.cells.len() {
            LineModel { cells: self.cells.update(x, cell), direction: self.direction }
        } else {
            self
        }
    }

    /// The line cut or padded with blank cells to `cols` cells.
    pub open spec fn resized(self, cols: u16) -> LineModel {
        if cols as nat > self.cells.len() {
            LineModel {
                cells: self.cells + blank_cells((cols - self.cells.len()) as nat),
                direction: self.direction,
            }
        } else {
            LineModel { cells: self.cells.take(cols as int), direction: self.direction }
        }
    }
}

pub open spec fn lines_view(lines: Seq<Line>) -> Seq<LineModel> {
    lines.map_values(|l: Line| l@)
}

pub broadcast proof fn lemma_lines_view_push(s: Seq<Line>, l: Line)
    ensures
        #[trigger] lines_view(s.push(l)) == lines_view(s).push(l@),
{
    assert(lines_view(s.push(l)) =~= lines_view(s).push(l@));
}

pub broadcast proof fn lemma_lines_view_update(s: Seq<Line>, i: int, l: Line)
    requires
        0 <= i < s.len(),
    ensures
        #[trigger] lines_view(s.update(i, l)) == lines_view(s).update(i, l@),
{
    assert(lines_view(s.update(i, l)) =~= lines_view(s).update(i, l@));
}

pub broadcast proof fn lemma_lines_view_insert(s: Seq<Line>, i: int, l: Line)
    requires
        0 <= i <= s.len(),
    ensures
        #[trigger] lines_view(s.insert(i, l)) == lines_view(s).insert(i, l@),
{
    assert(lines_view(s.insert(i, l)) =~= lines_view(s).insert(i, l@));
}

pub broadcast proof fn lemma_lines_view_remove(s: Seq<Line>, i: int)
    requires
        0 <= i < s.len(),
    ensures
        #[trigger] lines_view(s.remove(i)) == lines_view(s).remove(i),
{
    assert(lines_view(s.remove(i)) =~= lines_view(s).remove(i));
}

pub broadcast proof fn lemma_lines_view_subrange(s: Seq<Line>, i: int, j: int)
    requires
        0 <= i <= j <= s.len(),
    ensures
        #[trigger] lines_view(s.subrange(i, j)) == lines_view(s).subrange(i, j),
{
    assert(lines_view(s.subrange(i, j)) =~= lines_view(s).subrange(i, j));
}

pub broadcast group group_lines_view {
    lemma_lines_view_push,
    lemma_lines_view_update,
    lemma_lines_view_insert,
    lemma_lines_view_remove,
    lemma_lines_view_subrange,
}

impl Line {
    /// A line of `cols` blank cells.
    pub fn new(cols: u16) -> (l: Self)
        ensures
            l@ == blank_line(cols),
    {
        let mut cells: Vec<Cell> = Vec::new();
        let mut i: u16 = 0;
        while i < cols
            invariant
                i <= cols,
                cells@ == blank_cells(i as nat),
            decreases cols - i,
        {
            cells.push(Cell::default());
            i = i + 1;
        }
        Line { cells, direction: Direction::LTR }
    }

    /// Cuts the line, or pads it with blank cells, to `cols` cells.
    pub fn resize(&mut self, cols: u16)
        ensures
            final(self)@ == old(self)@.resized(cols),
    {
        let new_len = cols as usize;
        if new_len > self.cells.len() {
            let ghost old_cells = self.cells@;
            while self.cells.len() < new_len
                invariant
                    old_cells.len() <= self.cells@.len() <= new_len,
                    old_cells == old(self).cells@,
                    new_len == cols,
                    self.direction == old(self).direction,
                    self.cells@ == old_cells + blank_cells((self.cells@.len() - old_cells.len()) as nat),
                decreases new_len - self.cells.len(),
            {
                self.cells.push(Cell::default());
                assert(self.cells@ =~= old_cells + blank_cells((self.cells@.len() - old_cells.len()) as nat));
            }
        } else {
            self.cells.truncate(new_len);
        }
    }

    /// Makes every cell blank.
    pub fn clear(&mut self)
        ensures
            final(self)@ == old(self)@.cleared(),
    {
        let n = self.cells.len();
        let mut i: usize = 0;
        while i < n
            invariant
                n == self.cells@.len(),
                i <= n,
                self.direction == old(self).direction,
                n == old(self).cells@.len(),
                forall|j: int| 0 <= j < i ==> self.cells@[j] == blank_cell(),
            decreases n - i,
        {
            self.cells.set(i, Cell::default());
            i = i + 1;
        }
        assert(self.cells@ =~= blank_cells(n as nat));
    }

    /// Replaces cell `x`; a position past the end of the line is ignored.
    pub fn set_cell(&mut self, x: usize, cell: Cell)
        ensures
            final(self)@ == old(self)@.with_cell(x as int, cell),
    {
        if x < self.cells.len() {
            self.cells.set(x, cell);
        }
    }
}


impl Clone for Line {
    /// A copy of the line: the same cells and direction.
    fn clone(&self) -> (r: Self)
        ensures
            r@ == self@,
    {
        let mut cells: Vec<Cell> = Vec::new();
        let n = self.cells.len();
        let mut i: usize = 0;
        while i < n
            invariant
                n == self.cells@.len(),
                i <= n,
                cells@ == self.cells@.take(i as int),
            decreases n - i,
        {
            cells.push(self.cells[i]);
            assert(cells@ =~= self.cells@.take(i as int + 1));
            i = i + 1;
        }
        assert(cells@ =~= self.cells@);
        Line { cells, direction: self.direction }
    }
}

impl Line {
    /// Makes the cells at positions `lo <= i < hi` blank.
    pub(crate) fn blank_span(&mut self, lo: usize, hi: usize)
        requires
            hi <= old(self).cells@.len(),
        ensures
            final(self)@ == (LineModel {
                cells: blank_range(old(self).cells@, lo as int, hi as int),
                direction: old(self).direction,
            }),
    {
        let mut i = lo;
        while i < hi
            invariant
                lo <= i,
                i <= hi || i == lo,
                hi <= self.cells@.len(),
                self.direction == old(self).direction,
                self.cells@.len() == old(self).cells@.len(),
                forall|j: int| 0 <= j < self.cells@.len() ==> #[trigger] self.cells@[j] == if lo <= j < i {
                    blank_cell()
                } else {
                    old(self).cells@[j]
                },
            decreases hi - i,
        {
            self.cells.set(i, Cell::default());
            i = i + 1;
        }
        assert(self.cells@ =~= blank_range(old(self).cells@, lo as int, hi as int));
    }

    /// Removes the cells `x <= i < min(x + n, len)`, then pads the line with
    /// blank cells up to `cols` cells.
    pub(crate) fn delete_cells(&mut self, x: usize, n: usize, cols: u16)
        requires
            x <= old(self).cells@.len(),
            x + n <= usize::MAX,
        ensures
            final(self)@ == (LineModel {
                cells: crate::terminal::semantics::delete_chars(old(self).cells@, x as int, n as int, cols),
                direction: old(self).direction,
            }),
    {
        let len = self.cells.len();
        let end = if x + n < len { x + n } else { len };
        let mut tail = self.cells.split_off(x);
        let mut rest = tail.split_off(end - x);
        self.cells.append(&mut rest);
        let ghost kept = self.cells@;
        assert(kept =~= old(self).cells@.take(x as int) + old(self).cells@.skip(end as int));
        while self.cells.len() < cols as usize
            invariant
                kept.len() <= self.cells@.len(),
                self.cells@.len() <= kept.len() || self.cells@.len() <= cols,
                self.cells@ == kept + blank_cells((self.cells@.len() - kept.len()) as nat),
                self.direction == old(self).direction,
            decreases cols - self.cells@.len(),
        {
            self.cells.push(Cell::default());
            assert(self.cells@ =~= kept + blank_cells((self.cells@.len() - kept.len()) as nat));
        }
        proof {
            if kept.len() >= cols {
                assert(self.cells@ =~= kept);
            }
        }
    }

    /// Puts `n` blank cells at `x`; the cells from `x` move right and the last
    /// `n` cells of the line fall off.
    pub(crate) fn insert_blank_cells(&mut self, x: usize, n: usize)
        requires
            x + n <= old(self).cells@.len(),
        ensures
            final(self)@ == (LineModel {
                cells: crate::terminal::semantics::insert_blanks(old(self).cells@, x as int, n as int),
                direction: old(self).direction,
            }),
    {
        let len = self.cells.len();
        let mut tail = self.cells.split_off(x);
        tail.truncate(len - n - x);
        let mut k: usize = 0;
        while k < n
            invariant
                k <= n,
                self.cells@ == old(self).cells@.take(x as int) + blank_cells(k as nat),
                self.direction == old(self).direction,
            decreases n - k,
        {
            self.cells.push(Cell::default());
            k = k + 1;
            assert(self.cells@ =~= old(self).cells@.take(x as int) + blank_cells(k as nat));
        }
        self.cells.append(&mut tail);
        assert(self.cells@ =~= crate::terminal::semantics::insert_blanks(old(self).cells@, x as int, n as int));
    }
}
/// Resizing a line to `cols` cells keeps its direction and its first cells
/// where they were: a shorter line keeps its first `cols` cells (it is cut at
/// the right), a longer one keeps every cell and has blank cells after them.
pub proof fn lemma_line_resize_keeps_prefix(l: LineModel, cols: u16)
    ensures
        l.resized(cols).cells.len() == cols,
        l.resized(cols).direction == l.direction,
        forall|i: int| 0 <= i < cols && i < l.cells.len() ==> #[trigger] l.resized(cols).cells[i] == l.cells[i],
        forall|i: int| l.cells.len() <= i < cols ==> #[trigger] l.resized(cols).cells[i] == blank_cell(),
{
}

} // verus!
