use super::{Cell, Direction};
use crate::bidi::BidiAnalyzer;
use crate::bidi::spec_line_direction;
use crate::bidi::detector::spec_is_rtl_char;
pub use super::lines::{blank_cells, blank_line, blank_range, Line, LineModel};
use super::lines::{group_lines_view, lines_view};
use vstd::prelude::*;

verus! {

broadcast use group_lines_view;

/// The screen buffer: the scrollback lines followed by the `rows` lines of the
/// visible screen, each `cols` cells wide.
#[derive(Debug)]
pub struct Buffer {
    pub lines: Vec<Line>,
    pub cols: u16,
    pub rows: u16,
    pub scrollback: usize,
}

/// A buffer as a value.
pub struct BufferModel {
    pub lines: Seq<LineModel>,
    pub cols: u16,
    pub rows: u16,
    pub scrollback: usize,
}

impl View for Buffer {
    type V = BufferModel;

    open spec fn view(&self) -> BufferModel {
        BufferModel {
            lines: lines_view(self.lines@),
            cols: self.cols,
            rows: self.rows,
            scrollback: self.scrollback,
        }
    }
}

impl BufferModel {
    /// Index of the first visible line: the lines above it are scrollback.
    pub open spec fn viewport_top(self) -> int {
        if self.lines.len() >= self.rows { self.lines.len() - self.rows } else { 0 }
    }

    /// Index in `lines` of row `y` of the visible screen (saturating at the
    /// largest `usize`).
    pub open spec fn actual_y(self, y: int) -> int {
        let v = self.viewport_top() + y;
        if v > usize::MAX { usize::MAX as int } else { v }
    }

    /// The most lines the buffer keeps when it scrolls.
    pub open spec fn scroll_limit(self) -> int {
        self.scrollback + self.rows
    }

    pub open spec fn with_lines(self, lines: Seq<LineModel>) -> BufferModel {
        BufferModel { lines, ..self }
    }

    /// One scroll step: the oldest line is dropped when the limit is reached,
    /// and a blank line is added at the bottom.
    pub open spec fn scroll_once(self) -> BufferModel {
        let kept = if self.lines.len() >= self.scroll_limit() {
            self.lines.drop_first()
        } else {
            self.lines
        };
        self.with_lines(kept.push(blank_line(self.cols)))
    }

    /// `n` scroll steps.
    /// Scrolling `n` times does not fail: the limit fits in a `usize`, and
    /// the oldest line is never removed from an empty buffer.
    pub open spec fn scroll_up_ok(self, n: nat) -> bool {
        &&& self.scroll_limit() <= usize::MAX
        &&& (n == 0 || self.lines.len() > 0 || self.scroll_limit() > 0)
    }

    pub open spec fn scroll_up(self, n: nat) -> BufferModel
        decreases n,
    {
        if n == 0 {
            self
        } else {
            self.scroll_up((n - 1) as nat).scroll_once()
        }
    }

    /// The visible screen made blank: exactly `rows` blank lines, no scrollback.
    pub open spec fn cleared(self) -> BufferModel {
        self.with_lines(Seq::new(self.rows as nat, |i: int| blank_line(self.cols)))
    }

    /// Line `y` of `lines` made blank, when it exists.
    pub open spec fn clear_line(self, y: int) -> BufferModel {
        if 0 <= y < self.lines.len() {
            self.with_lines(self.lines.update(y, self.lines[y].cleared()))
        } else {
            self
        }
    }

    /// Cell `x` of line `y` of `lines` replaced, when it exists.
    pub open spec fn set_cell(self, x: int, y: int, cell: Cell) -> BufferModel {
        if 0 <= y < self.lines.len() {
            self.with_lines(self.lines.update(y, self.lines[y].with_cell(x, cell)))
        } else {
            self
        }
    }

    /// The lines after a change of the number of rows from `self.rows` to
    /// `rows`: blank lines added at the bottom when it grows, lines cut from
    /// the bottom (down to `rows` lines) when it shrinks.
    pub open spec fn rows_adjusted(self, cols: u16, rows: u16) -> Seq<LineModel> {
        if rows > self.rows {
            self.lines + Seq::new((rows - self.rows) as nat, |i: int| blank_line(cols))
        } else if rows < self.rows && (rows as int) < self.lines.len() {
            self.lines.take(rows as int)
        } else {
            self.lines
        }
    }

    /// The buffer resized to `cols` x `rows`; every line is made `cols` wide.
    pub open spec fn resized(self, cols: u16, rows: u16) -> BufferModel {
        let adjusted = self.rows_adjusted(cols, rows);
        BufferModel {
            lines: adjusted.map_values(|l: LineModel| l.resized(cols)),
            cols,
            rows,
            scrollback: self.scrollback,
        }
    }

    /// Every line with the direction found for its cells.
    pub open spec fn with_directions(self) -> BufferModel {
        self.with_lines(
            self.lines.map_values(
                |l: LineModel| LineModel { cells: l.cells, direction: spec_line_direction(l.cells) },
            ),
        )
    }

    /// The invariant that the buffer's own operations keep: between `rows`
    /// and `rows + scrollback` lines, each `cols` cells wide.
    pub open spec fn wf(self) -> bool {
        &&& self.rows <= self.lines.len() <= self.scroll_limit()
        &&& self.scroll_limit() <= usize::MAX
        &&& forall|i: int| 0 <= i < self.lines.len() ==> (#[trigger] self.lines[i]).cells.len() == self.cols
    }
}

impl Clone for Buffer {
    /// A copy of the buffer: the same lines, dimensions and scrollback.
    fn clone(&self) -> (r: Self)
        ensures
            r@ == self@,
    {
        let mut lines: Vec<Line> = Vec::new();
        let n = self.lines.len();
        let mut i: usize = 0;
        while i < n
            invariant
                n == self.lines@.len(),
                i <= n,
                lines_view(lines@) == lines_view(self.lines@.take(i as int)),
            decreases n - i,
        {
            let line = self.lines[i].clone();
            lines.push(line);
            assert(self.lines@.take(i as int + 1) =~= self.lines@.take(i as int).push(self.lines@[i as int]));
            i = i + 1;
        }
        assert(self.lines@.take(n as int) =~= self.lines@);
        Buffer { lines, cols: self.cols, rows: self.rows, scrollback: self.scrollback }
    }
}

impl Buffer {
    /// The buffer that `new` makes.
    pub open spec fn new_model(cols: u16, rows: u16, scrollback: usize) -> BufferModel {
        BufferModel {
            lines: Seq::new(rows as nat, |i: int| blank_line(cols)),
            cols,
            rows,
            scrollback,
        }
    }

    /// A buffer of `rows` blank lines, `cols` cells wide, that keeps up to
    /// `scrollback` lines above the visible screen.
    pub fn new(cols: u16, rows: u16, scrollback: usize) -> (b: Self)
        requires
            rows + scrollback <= usize::MAX,
        ensures
            b@ == Buffer::new_model(cols, rows, scrollback),
    {
        let mut lines: Vec<Line> = Vec::with_capacity(rows as usize + scrollback);
        let mut i: u16 = 0;
        while i < rows
            invariant
                i <= rows,
                lines_view(lines@) =~= Seq::new(i as nat, |k: int| blank_line(cols)),
            decreases rows - i,
        {
            lines.push(Line::new(cols));
            i = i + 1;
            assert(lines_view(lines@) =~= Seq::new(i as nat, |k: int| blank_line(cols)));
        }
        Buffer { lines, cols, rows, scrollback }
    }

    /// Index in `lines` of row `y` of the visible screen.
    pub fn actual_y(&self, y: usize) -> (r: usize)
        ensures
            r == self@.actual_y(y as int),
    {
        let top = if self.lines.len() >= self.rows as usize {
            self.lines.len() - self.rows as usize
        } else {
            0
        };
        top.saturating_add(y)
    }

    /// Resizes the screen to `cols` x `rows`.
    pub fn resize(&mut self, cols: u16, rows: u16)
        ensures
            final(self)@ == old(self)@.resized(cols, rows),
    {
        let ghost before = self@;
        let old_rows = self.rows as usize;
        self.cols = cols;
        self.rows = rows;
        if (rows as usize) > old_rows {
            let extra = rows as usize - old_rows;
            let mut k: usize = 0;
            while k < extra
                invariant
                    k <= extra,
                    extra == rows - before.rows,
                    self.cols == cols,
                    self.rows == rows,
                    self.scrollback == before.scrollback,
                    lines_view(self.lines@) =~= before.lines + Seq::new(k as nat, |i: int| blank_line(cols)),
                decreases extra - k,
            {
                self.lines.push(Line::new(cols));
                k = k + 1;
                assert(lines_view(self.lines@) =~= before.lines + Seq::new(k as nat, |i: int| blank_line(cols)));
            }
        } else if (rows as usize) < old_rows {
            self.lines.truncate(rows as usize);
        }
        let ghost adjusted = lines_view(self.lines@);
        assert(adjusted =~= before.rows_adjusted(cols, rows));
        let n = self.lines.len();
        let mut i: usize = 0;
        while i < n
            invariant
                i <= n,
                n == self.lines@.len(),
                adjusted.len() == n,
                self.cols == cols,
                self.rows == rows,
                self.scrollback == before.scrollback,
                forall|j: int| 0 <= j < i ==> #[trigger] self.lines@[j]@ == adjusted[j].resized(cols),
                forall|j: int| i <= j < n ==> #[trigger] self.lines@[j]@ == adjusted[j],
            decreases n - i,
        {
            self.lines[i].resize(cols);
            i = i + 1;
        }
        assert(lines_view(self.lines@) =~= adjusted.map_values(|l: LineModel| l.resized(cols)));
    }

    /// The line at index `y` of `lines`, if there is one.
    pub fn get_line(&self, y: usize) -> (r: Option<&Line>)
        ensures
            match r {
                Some(l) => y < self.lines@.len() && *l == self.lines@[y as int],
                None => y >= self.lines@.len(),
            },
    {
        if y < self.lines.len() {
            Some(&self.lines[y])
        } else {
            None
        }
    }

    /// Mutable access to the line at index `y` of `lines`, if there is one.
    pub fn get_line_mut(&mut self, y: usize) -> (r: Option<&mut Line>)
        ensures
            match r {
                Some(l) => {
                    &&& y < old(self).lines@.len()
                    &&& *l == old(self).lines@[y as int]
                    &&& final(self).lines@ == old(self).lines@.update(y as int, *final(l))
                    &&& final(self).cols == old(self).cols
                    &&& final(self).rows == old(self).rows
                    &&& final(self).scrollback == old(self).scrollback
                },
                None => y >= old(self).lines@.len() && *final(self) == *old(self),
            },
    {
        if y < self.lines.len() {
            Some(&mut self.lines[y])
        } else {
            None
        }
    }

    /// Scrolls `count` times: each time a blank line comes in at the bottom
    /// and, once `rows + scrollback` lines are held, the oldest line leaves.
    pub fn scroll_up(&mut self, count: usize)
        requires
            old(self)@.scroll_up_ok(count as nat),
        ensures
            final(self)@ == old(self)@.scroll_up(count as nat),
    {
        let scrollback_limit = self.scrollback + self.rows as usize;
        let mut k: usize = 0;
        while k < count
            invariant
                k <= count,
                scrollback_limit == old(self)@.scroll_limit(),
                self@ == old(self)@.scroll_up(k as nat),
                old(self)@.scroll_up_ok(count as nat),
                k > 0 ==> self.lines@.len() > 0,
                self.rows == old(self).rows,
                self.cols == old(self).cols,
                self.scrollback == old(self).scrollback,
            decreases count - k,
        {
            let ghost before = self@;
            let ghost raw_before = self.lines@;
            if self.lines.len() >= scrollback_limit {
                self.lines.remove(0);
                assert(lines_view(raw_before.remove(0)) == before.lines.remove(0));
                assert(before.lines.remove(0) =~= before.lines.drop_first());
            }
            let ghost raw_mid = self.lines@;
            let new_line = Line::new(self.cols);
            self.lines.push(new_line);
            assert(lines_view(raw_mid.push(new_line)) == lines_view(raw_mid).push(new_line@));
            k = k + 1;
            assert(self@.lines =~= before.scroll_once().lines);
        }
    }

    /// Makes the buffer exactly `rows` blank lines.
    pub fn clear(&mut self)
        ensures
            final(self)@ == old(self)@.cleared(),
    {
        self.lines.clear();
        let mut i: u16 = 0;
        while i < self.rows
            invariant
                i <= self.rows,
                self.rows == old(self).rows,
                self.cols == old(self).cols,
                self.scrollback == old(self).scrollback,
                lines_view(self.lines@) =~= Seq::new(i as nat, |k: int| blank_line(self.cols)),
            decreases self.rows - i,
        {
            self.lines.push(Line::new(self.cols));
            i = i + 1;
            assert(lines_view(self.lines@) =~= Seq::new(i as nat, |k: int| blank_line(self.cols)));
        }
    }

    /// Makes line `y` of `lines` blank; an index past the end is ignored.
    pub fn clear_line(&mut self, y: usize)
        ensures
            final(self)@ == old(self)@.clear_line(y as int),
    {
        if y < self.lines.len() {
            self.lines[y].clear();
            assert(self@.lines =~= old(self)@.clear_line(y as int).lines);
        }
    }

    /// Replaces cell `x` of line `y` of `lines`; positions outside are ignored.
    pub fn set_cell(&mut self, x: usize, y: usize, cell: Cell)
        ensures
            final(self)@ == old(self)@.set_cell(x as int, y as int, cell),
    {
        if y < self.lines.len() {
            self.lines[y].set_cell(x, cell);
            assert(self@.lines =~= old(self)@.set_cell(x as int, y as int, cell).lines);
        }
    }

    /// Gives every line the direction found for its cells.
    pub fn detect_directions(&mut self)
        ensures
            final(self)@ == old(self)@.with_directions(),
    {
        let analyzer = BidiAnalyzer::new();
        let n = self.lines.len();
        let mut i: usize = 0;
        while i < n
            invariant
                i <= n,
                n == self.lines@.len(),
                n == old(self).lines@.len(),
                self.cols == old(self).cols,
                self.rows == old(self).rows,
                self.scrollback == old(self).scrollback,
                forall|j: int| 0 <= j < i ==> #[trigger] self.lines@[j]@ == (LineModel {
                    cells: old(self).lines@[j]@.cells,
                    direction: spec_line_direction(old(self).lines@[j]@.cells),
                }),
                forall|j: int| i <= j < n ==> #[trigger] self.lines@[j] == old(self).lines@[j],
            decreases n - i,
        {
            let d = analyzer.analyze_line(self.lines[i].cells.as_slice());
            self.lines[i].direction = d;
            i = i + 1;
        }
        assert(self@.lines =~= old(self)@.with_directions().lines);
    }
}

/// Resizing the buffer keeps its lines from the top, each cut or padded at
/// the right: line `i` of the result, when the buffer had a line `i`, starts
/// with the same cells as before (up to the new width), in the same
/// direction; new lines at the bottom are blank.
pub proof fn lemma_buffer_resize_keeps_lines(b: BufferModel, cols: u16, rows: u16)
    ensures
        forall|i: int, j: int|
            0 <= i < b.resized(cols, rows).lines.len() && i < b.lines.len() && 0 <= j < cols && j
                < b.lines[i].cells.len() ==> #[trigger] b.resized(cols, rows).lines[i].cells[j]
                == b.lines[i].cells[j],
        forall|i: int|
            0 <= i < b.resized(cols, rows).lines.len() && i < b.lines.len() ==> (#[trigger] b.resized(
                cols,
                rows,
            ).lines[i]).direction == b.lines[i].direction,
        forall|i: int, j: int|
            b.lines.len() <= i < b.resized(cols, rows).lines.len() && 0 <= j < cols
                ==> #[trigger] b.resized(cols, rows).lines[i].cells[j] == super::blank_cell(),
        forall|i: int|
            0 <= i < b.resized(cols, rows).lines.len() ==> (#[trigger] b.resized(cols, rows).lines[i]).cells.len()
                == cols,
{
    let adjusted = b.rows_adjusted(cols, rows);
    let r = b.resized(cols, rows);
    assert forall|i: int| 0 <= i < r.lines.len() implies r.lines[i] == adjusted[i].resized(cols) by {}
    assert forall|i: int| 0 <= i < r.lines.len() && i < b.lines.len() implies adjusted[i] == b.lines[i] by {}
}

/// Finding the directions keeps every line's cells, and makes a line
/// right-to-left exactly when it holds a right-to-left character.
pub proof fn lemma_directions_follow_text(b: BufferModel)
    ensures
        b.with_directions().lines.len() == b.lines.len(),
        forall|i: int| 0 <= i < b.lines.len() ==> (#[trigger] b.with_directions().lines[i]).cells == b.lines[i].cells,
        forall|i: int, k: int|
            0 <= i < b.lines.len() && 0 <= k < b.lines[i].cells.len() && spec_is_rtl_char(
                #[trigger] b.lines[i].cells[k].ch,
            ) ==> b.with_directions().lines[i].direction == Direction::RTL,
        forall|i: int|
            0 <= i < b.lines.len() && (forall|k: int|
                0 <= k < b.lines[i].cells.len() ==> !spec_is_rtl_char(#[trigger] b.lines[i].cells[k].ch))
                ==> (#[trigger] b.with_directions().lines[i]).direction == Direction::LTR,
{
    assert forall|i: int, k: int|
        0 <= i < b.lines.len() && 0 <= k < b.lines[i].cells.len() && spec_is_rtl_char(
            #[trigger] b.lines[i].cells[k].ch,
        ) implies b.with_directions().lines[i].direction == Direction::RTL by {
        crate::bidi::lemma_line_direction(b.lines[i].cells, k);
    }
    assert forall|i: int|
        0 <= i < b.lines.len() && (forall|k: int|
            0 <= k < b.lines[i].cells.len() ==> !spec_is_rtl_char(#[trigger] b.lines[i].cells[k].ch))
        implies (#[trigger] b.with_directions().lines[i]).direction == Direction::LTR by {
        crate::bidi::lemma_line_direction(b.lines[i].cells, 0);
    }
}

} // verus!
