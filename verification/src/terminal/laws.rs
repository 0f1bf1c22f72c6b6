//! What holds of the terminal across calls and for every state.
use super::buffer::{blank_cells, blank_line, blank_range, Buffer, BufferModel, LineModel};
use super::semantics::{
    clear_rows, delete_lines_ok, delete_lines_rep, insert_lines_ok, insert_lines_rep, map_line_cells,
    run, run_ok, scroll_down_ok, scroll_down_rep, TermModel, print_char, print_char_ok,
    ground_step, ground_step_ok, escape_step, csi_step, csi_step_ok, csi_dispatch,
    csi_dispatch_ok, erase_display, erase_display_ok, erase_line, erase_line_ok, first_param,
    finish_params, is_csi_final, step, step_ok, delete_chars, insert_blanks, min_int, cell_with,
    is_control,
};
use super::parser::{Attrs, ParserState};
use super::semantics::{apply_sgr, default_attrs, sgr_seq};
use vstd::prelude::*;

verus! {

/// Feeding `a` and then `b` to the parser is feeding it `a + b`: the parser
/// carries its state (an unfinished escape sequence included) from one call
/// to the next, so the shell's output may be split anywhere. The same holds
/// of when the parser fails.
pub proof fn lemma_run_concat(m: TermModel, a: Seq<char>, b: Seq<char>)
    ensures
        run(m, a + b) == run(run(m, a), b),
        run_ok(m, a + b) == (run_ok(m, a) && run_ok(run(m, a), b)),
    decreases b.len(),
{
    if b.len() == 0 {
        assert(a + b =~= a);
    } else {
        lemma_run_concat(m, a, b.drop_last());
        assert((a + b).drop_last() =~= a + b.drop_last());
        assert((a + b).last() == b.last());
    }
}

/// The state keeps its shape: the buffer is well formed (see
/// `BufferModel::wf`) and the cursor is on the visible screen.
pub open spec fn term_wf(m: TermModel) -> bool {
    &&& m.buffer.wf()
    &&& m.x < m.buffer.cols
    &&& m.y < m.buffer.rows
}

/// Lines that are all `cols` cells wide.
pub open spec fn lines_wide(lines: Seq<LineModel>, cols: u16) -> bool {
    forall|i: int| 0 <= i < lines.len() ==> (#[trigger] lines[i]).cells.len() == cols
}

proof fn lemma_actual_y_wf(b: BufferModel, y: int)
    requires
        b.wf(),
        0 <= y < b.rows,
    ensures
        b.actual_y(y) == b.lines.len() - b.rows + y,
        0 <= b.actual_y(y) < b.lines.len(),
{
}

proof fn lemma_set_cell_wf(b: BufferModel, x: int, y: int, c: super::Cell)
    requires
        b.wf(),
    ensures
        b.set_cell(x, y, c).wf(),
        b.set_cell(x, y, c).lines.len() == b.lines.len(),
        b.set_cell(x, y, c).rows == b.rows,
        b.set_cell(x, y, c).cols == b.cols,
        b.set_cell(x, y, c).scrollback == b.scrollback,
{
    let r = b.set_cell(x, y, c);
    assert forall|i: int| 0 <= i < r.lines.len() implies (#[trigger] r.lines[i]).cells.len() == r.cols by {
        assert(b.lines[i].cells.len() == b.cols);
    }
}

proof fn lemma_scroll_up_wf(b: BufferModel, n: nat)
    requires
        b.wf(),
        b.rows >= 1,
    ensures
        b.scroll_up(n).wf(),
        b.scroll_up(n).rows == b.rows,
        b.scroll_up(n).cols == b.cols,
        b.scroll_up(n).scrollback == b.scrollback,
    decreases n,
{
    if n > 0 {
        lemma_scroll_up_wf(b, (n - 1) as nat);
        let p = b.scroll_up((n - 1) as nat);
        let r = p.scroll_once();
        assert forall|i: int| 0 <= i < r.lines.len() implies (#[trigger] r.lines[i]).cells.len() == r.cols by {
            if p.lines.len() >= p.scroll_limit() {
                if i < r.lines.len() - 1 {
                    assert(r.lines[i] == p.lines[i + 1]);
                }
            } else {
                if i < r.lines.len() - 1 {
                    assert(r.lines[i] == p.lines[i]);
                }
            }
        }
    }
}

proof fn lemma_cleared_wf(b: BufferModel)
    requires
        b.wf(),
    ensures
        b.cleared().wf(),
{
}

proof fn lemma_clear_line_wf(b: BufferModel, y: int)
    requires
        b.wf(),
    ensures
        b.clear_line(y).wf(),
        b.clear_line(y).lines.len() == b.lines.len(),
        b.clear_line(y).rows == b.rows,
        b.clear_line(y).cols == b.cols,
        b.clear_line(y).scrollback == b.scrollback,
{
    let r = b.clear_line(y);
    assert forall|i: int| 0 <= i < r.lines.len() implies (#[trigger] r.lines[i]).cells.len() == r.cols by {
        assert(b.lines[i].cells.len() == b.cols);
    }
}

proof fn lemma_clear_rows_wf(b: BufferModel, from: int, to: int)
    requires
        b.wf(),
    ensures
        clear_rows(b, from, to).wf(),
        clear_rows(b, from, to).lines.len() == b.lines.len(),
        clear_rows(b, from, to).rows == b.rows,
        clear_rows(b, from, to).cols == b.cols,
        clear_rows(b, from, to).scrollback == b.scrollback,
    decreases to - from,
{
    if to > from {
        lemma_clear_rows_wf(b, from, to - 1);
        lemma_clear_line_wf(clear_rows(b, from, to - 1), b.actual_y(to - 1));
    }
}

proof fn lemma_map_line_cells_wf(b: BufferModel, ay: int, cells: Seq<super::Cell>)
    requires
        b.wf(),
        cells.len() == b.cols,
    ensures
        map_line_cells(b, ay, cells).wf(),
        map_line_cells(b, ay, cells).lines.len() == b.lines.len(),
        map_line_cells(b, ay, cells).rows == b.rows,
        map_line_cells(b, ay, cells).cols == b.cols,
        map_line_cells(b, ay, cells).scrollback == b.scrollback,
{
    let r = map_line_cells(b, ay, cells);
    assert forall|i: int| 0 <= i < r.lines.len() implies (#[trigger] r.lines[i]).cells.len() == r.cols by {
        assert(b.lines[i].cells.len() == b.cols);
    }
}

proof fn lemma_insert_lines_wf(lines: Seq<LineModel>, ay: int, bottom: int, cols: u16, n: nat)
    requires
        lines_wide(lines, cols),
        0 <= ay <= bottom,
        bottom == lines.len() - 1,
        bottom + 1 <= usize::MAX,
    ensures
        insert_lines_rep(lines, ay, bottom, cols, n).len() == lines.len(),
        lines_wide(insert_lines_rep(lines, ay, bottom, cols, n), cols),
        insert_lines_ok(lines, ay, bottom, cols, n),
    decreases n,
{
    if n > 0 {
        lemma_insert_lines_wf(lines, ay, bottom, cols, (n - 1) as nat);
        let p = insert_lines_rep(lines, ay, bottom, cols, (n - 1) as nat);
        let l1 = p.insert(ay, blank_line(cols));
        let r = l1.remove(bottom + 1);
        assert forall|i: int| 0 <= i < r.len() implies (#[trigger] r[i]).cells.len() == cols by {
            if i < ay {
                assert(r[i] == p[i]);
            } else if i > ay {
                assert(r[i] == p[i - 1]);
            }
        }
    }
}

proof fn lemma_delete_lines_wf(lines: Seq<LineModel>, ay: int, bottom: int, cols: u16, n: nat)
    requires
        lines_wide(lines, cols),
        0 <= ay <= bottom,
        bottom == lines.len() - 1,
    ensures
        delete_lines_rep(lines, ay, bottom, cols, n).len() == lines.len(),
        lines_wide(delete_lines_rep(lines, ay, bottom, cols, n), cols),
        delete_lines_ok(lines, ay, bottom, cols, n),
    decreases n,
{
    if n > 0 {
        lemma_delete_lines_wf(lines, ay, bottom, cols, (n - 1) as nat);
        let p = delete_lines_rep(lines, ay, bottom, cols, (n - 1) as nat);
        let l1 = p.remove(ay);
        let r = l1.insert(bottom, blank_line(cols));
        assert forall|i: int| 0 <= i < r.len() implies (#[trigger] r[i]).cells.len() == cols by {
            if i < bottom {
                assert(r[i] == l1[i]);
                if i < ay {
                    assert(l1[i] == p[i]);
                } else {
                    assert(l1[i] == p[i + 1]);
                }
            }
        }
    }
}

proof fn lemma_scroll_down_wf(lines: Seq<LineModel>, top: int, bottom: int, cols: u16, n: nat)
    requires
        lines_wide(lines, cols),
        0 <= top <= bottom,
        bottom == lines.len() - 1,
        bottom + 1 <= usize::MAX,
    ensures
        scroll_down_rep(lines, top, bottom, cols, n).len() == lines.len(),
        lines_wide(scroll_down_rep(lines, top, bottom, cols, n), cols),
        scroll_down_ok(lines, top, bottom, cols, n),
    decreases n,
{
    if n > 0 {
        lemma_scroll_down_wf(lines, top, bottom, cols, (n - 1) as nat);
        let p = scroll_down_rep(lines, top, bottom, cols, (n - 1) as nat);
        let l1 = p.insert(top, blank_line(cols));
        let r = l1.remove(bottom + 1);
        assert forall|i: int| 0 <= i < r.len() implies (#[trigger] r[i]).cells.len() == cols by {
            if i < top {
                assert(r[i] == p[i]);
            } else if i > top {
                assert(r[i] == p[i - 1]);
            }
        }
    }
}

proof fn lemma_print_char_wf(m: TermModel, ch: char)
    requires
        term_wf(m),
        print_char_ok(m, ch),
    ensures
        term_wf(print_char(m, ch)),
{
    let b = m.buffer;
    lemma_actual_y_wf(b, m.y as int);
    let b1 = b.set_cell(m.x as int, b.actual_y(m.y as int), cell_with(m.parser.attrs, ch));
    lemma_set_cell_wf(b, m.x as int, b.actual_y(m.y as int), cell_with(m.parser.attrs, ch));
    lemma_scroll_up_wf(b1, 1);
}

proof fn lemma_ground_wf(m: TermModel, ch: char)
    requires
        term_wf(m),
        ground_step_ok(m, ch),
    ensures
        term_wf(ground_step(m, ch)),
{
    if ch == '\n' {
        lemma_scroll_up_wf(m.buffer, 1);
    } else if !(ch == '\x1b' || ch == '\r' || ch == '\t' || ch == '\x08' || ch == '\x07' || is_control(ch)) {
        lemma_print_char_wf(m, ch);
    }
}

proof fn lemma_escape_wf(m: TermModel, ch: char)
    requires
        term_wf(m),
    ensures
        term_wf(escape_step(m, ch)),
{
    lemma_cleared_wf(m.buffer);
}

proof fn lemma_erase_wf(b: BufferModel, ch: char, mode: u16, x: u16, y: u16)
    requires
        b.wf(),
        x < b.cols,
        y < b.rows,
        ch == 'J' ==> erase_display_ok(b, mode, x, y),
        ch == 'K' ==> erase_line_ok(b, mode, x, y),
    ensures
        ch == 'J' ==> erase_display(b, mode, x, y).wf() && erase_display(b, mode, x, y).rows == b.rows
            && erase_display(b, mode, x, y).cols == b.cols,
        ch == 'K' ==> erase_line(b, mode, x, y).wf() && erase_line(b, mode, x, y).rows == b.rows
            && erase_line(b, mode, x, y).cols == b.cols,
{
    let ay = b.actual_y(y as int);
    lemma_actual_y_wf(b, y as int);
    if ch == 'J' {
        if mode == 0 {
            let b1 = map_line_cells(b, ay, blank_range(b.lines[ay].cells, x as int, b.lines[ay].cells.len() as int));
            lemma_map_line_cells_wf(b, ay, blank_range(b.lines[ay].cells, x as int, b.lines[ay].cells.len() as int));
            lemma_clear_rows_wf(b1, y + 1, b.rows as int);
        } else if mode == 1 {
            lemma_clear_rows_wf(b, 0, y as int);
            let b1 = clear_rows(b, 0, y as int);
            assert(b1.lines[ay].cells.len() == b.cols);
            lemma_map_line_cells_wf(b1, ay, blank_range(b1.lines[ay].cells, 0, x + 1));
        } else if mode == 2 {
            lemma_clear_rows_wf(b, 0, b.rows as int);
        } else if mode == 3 {
            let top = b.viewport_top();
            let r = b.with_lines(b.lines.skip(top));
            assert forall|i: int| 0 <= i < r.lines.len() implies (#[trigger] r.lines[i]).cells.len() == r.cols by {
                assert(r.lines[i] == b.lines[i + top]);
            }
        }
    } else if ch == 'K' {
        if mode == 0 {
            lemma_map_line_cells_wf(b, ay, blank_range(b.lines[ay].cells, x as int, b.lines[ay].cells.len() as int));
        } else if mode == 1 {
            lemma_map_line_cells_wf(b, ay, blank_range(b.lines[ay].cells, 0, x + 1));
        } else if mode == 2 {
            lemma_clear_line_wf(b, ay);
        }
    }
}

proof fn lemma_line_edit_wf(m: TermModel, ch: char, ps: Seq<u16>)
    requires
        term_wf(m),
        csi_dispatch_ok(m, ch, ps),
        ch == 'P' || ch == 'X' || ch == '@',
    ensures
        term_wf(csi_dispatch(m, ch, ps)),
{
    let b = m.buffer;
    let ay = b.actual_y(m.y as int);
    lemma_actual_y_wf(b, m.y as int);
    let cells = b.lines[ay].cells;
    let p1 = first_param(ps, 1);
    if ch == 'P' {
        let d = delete_chars(cells, m.x as int, p1 as int, b.cols);
        assert(d.len() == b.cols);
        lemma_map_line_cells_wf(b, ay, d);
    } else if ch == 'X' {
        let end = min_int(m.x + p1, cells.len() as int);
        lemma_map_line_cells_wf(b, ay, blank_range(cells, m.x as int, end));
    } else {
        lemma_map_line_cells_wf(b, ay, insert_blanks(cells, m.x as int, p1 as int));
    }
}

proof fn lemma_lines_edit_wf(m: TermModel, ch: char, ps: Seq<u16>)
    requires
        term_wf(m),
        ch == 'L' || ch == 'M' || ch == 'T',
    ensures
        csi_dispatch_ok(m, ch, ps),
        term_wf(csi_dispatch(m, ch, ps)),
{
    let b = m.buffer;
    let ay = b.actual_y(m.y as int);
    lemma_actual_y_wf(b, m.y as int);
    lemma_actual_y_wf(b, b.rows - 1);
    lemma_actual_y_wf(b, 0);
    let bottom = b.actual_y(b.rows - 1);
    let p1 = first_param(ps, 1);
    assert(lines_wide(b.lines, b.cols));
    if ch == 'L' {
        lemma_insert_lines_wf(b.lines, ay, bottom, b.cols, p1 as nat);
    } else if ch == 'M' {
        lemma_delete_lines_wf(b.lines, ay, bottom, b.cols, p1 as nat);
    } else {
        lemma_scroll_down_wf(b.lines, b.actual_y(0), bottom, b.cols, p1 as nat);
    }
}

proof fn lemma_dispatch_wf(m: TermModel, ch: char, ps: Seq<u16>)
    requires
        term_wf(m),
        csi_dispatch_ok(m, ch, ps),
    ensures
        term_wf(csi_dispatch(m, ch, ps)),
{
    if ch == 'J' || ch == 'K' {
        lemma_erase_wf(m.buffer, ch, first_param(ps, 0), m.x, m.y);
    } else if ch == 'L' || ch == 'M' || ch == 'T' {
        lemma_lines_edit_wf(m, ch, ps);
    } else if ch == 'P' || ch == 'X' || ch == '@' {
        lemma_line_edit_wf(m, ch, ps);
    } else if ch == 'S' {
        lemma_scroll_up_wf(m.buffer, first_param(ps, 1) as nat);
    }
}

proof fn lemma_csi_wf(m: TermModel, ch: char)
    requires
        term_wf(m),
        csi_step_ok(m, ch),
    ensures
        term_wf(csi_step(m, ch)),
{
    if is_csi_final(ch) {
        let fp = finish_params(m.parser);
        lemma_dispatch_wf(m.with_parser(fp), ch, fp.params);
    }
}

/// On a well-formed state, a plain-text character can make the parser fail
/// only as a tab past the last tab stop that a `u16` holds.
pub(crate) proof fn lemma_ground_ok_wf(m: TermModel, ch: char)
    requires
        term_wf(m),
    ensures
        ground_step_ok(m, ch) == (ch == '\t' ==> (m.x / 8 + 1) * 8 <= u16::MAX),
{
    let b = m.buffer;
    lemma_actual_y_wf(b, m.y as int);
    lemma_set_cell_wf(b, m.x as int, b.actual_y(m.y as int), cell_with(m.parser.attrs, ch));
}

/// On a well-formed state, the final character of a control sequence can make
/// the parser fail only by moving the cursor down (`B`, `E`) or right (`C`)
/// past what a `u16` holds, or by inserting (`@`) more blanks than the cursor
/// line has room for after the cursor.
pub(crate) proof fn lemma_csi_ok_wf(m: TermModel, ch: char)
    requires
        term_wf(m),
    ensures
        csi_step_ok(m, ch) == {
            let p1 = first_param(finish_params(m.parser).params, 1);
            if ch == 'B' || ch == 'E' {
                m.y + p1 <= u16::MAX
            } else if ch == 'C' {
                m.x + p1 <= u16::MAX
            } else if ch == '@' {
                m.x + p1 <= m.buffer.cols
            } else {
                true
            }
        },
{
    let fp = finish_params(m.parser);
    let m2 = m.with_parser(fp);
    let b = m.buffer;
    lemma_actual_y_wf(b, m.y as int);
    if ch == 'L' || ch == 'M' || ch == 'T' {
        lemma_lines_edit_wf(m2, ch, fp.params);
    }
}

/// Every character on which the parser does not fail keeps the state's
/// shape: `rows` to `rows + scrollback` lines, each `cols` cells wide, and the
/// cursor on the visible screen.
pub proof fn lemma_step_wf(m: TermModel, ch: char)
    requires
        term_wf(m),
        step_ok(m, ch),
    ensures
        term_wf(step(m, ch)),
{
    reveal(step);
    reveal(step_ok);
    match m.parser.state {
        ParserState::Ground => lemma_ground_wf(m, ch),
        ParserState::Escape => lemma_escape_wf(m, ch),
        ParserState::Csi => lemma_csi_wf(m, ch),
        ParserState::Osc => {},
    }
}

/// An input on which the parser does not fail keeps the state's shape: the
/// width, height and scrollback limit stay, the number of lines stays
/// between `rows` and `rows + scrollback`, every line stays `cols` cells wide
/// and the cursor stays on the visible screen.
pub proof fn lemma_run_wf(m: TermModel, input: Seq<char>)
    requires
        term_wf(m),
        run_ok(m, input),
    ensures
        term_wf(run(m, input)),
        run(m, input).buffer.cols == m.buffer.cols,
        run(m, input).buffer.rows == m.buffer.rows,
        run(m, input).buffer.scrollback == m.buffer.scrollback,
    decreases input.len(),
{
    lemma_run_keeps_dimensions(m, input);
    if input.len() > 0 {
        lemma_run_wf(m, input.drop_last());
        lemma_step_wf(run(m, input.drop_last()), input.last());
    }
}

/// Finding the direction of every line keeps a buffer well formed.
pub(crate) proof fn lemma_with_directions_wf(b: BufferModel)
    requires
        b.wf(),
    ensures
        b.with_directions().wf(),
        b.with_directions().rows == b.rows,
        b.with_directions().cols == b.cols,
{
    let r = b.with_directions();
    assert forall|i: int| 0 <= i < r.lines.len() implies (#[trigger] r.lines[i]).cells.len() == r.cols by {
        assert(r.lines[i].cells == b.lines[i].cells);
    }
}

/// A new buffer is well formed: `rows` lines of `cols` cells.
pub proof fn lemma_new_buffer_wf(cols: u16, rows: u16, scrollback: usize)
    requires
        rows + scrollback <= usize::MAX,
    ensures
        Buffer::new_model(cols, rows, scrollback).wf(),
{
}

/// Resizing keeps a buffer well formed, now with the new dimensions: blank
/// lines are added or bottom lines dropped so that the line count stays
/// between `rows` and `rows + scrollback`, and every line is cut or padded to
/// `cols` cells.
pub proof fn lemma_resize_wf(b: BufferModel, cols: u16, rows: u16)
    requires
        b.wf(),
        b.scrollback + rows <= usize::MAX,
    ensures
        b.resized(cols, rows).wf(),
        b.resized(cols, rows).cols == cols,
        b.resized(cols, rows).rows == rows,
{
    let adjusted = b.rows_adjusted(cols, rows);
    let r = b.resized(cols, rows);
    assert(rows <= adjusted.len() <= b.scrollback + rows);
    assert forall|i: int| 0 <= i < r.lines.len() implies (#[trigger] r.lines[i]).cells.len() == cols by {
        assert(r.lines[i] == adjusted[i].resized(cols));
    }
}

/// Rendition codes apply one after another: applying `a` then `b` is
/// applying `a` followed by `b` as one list, later codes overriding earlier
/// ones.
pub proof fn lemma_sgr_seq_concat(x: Attrs, a: Seq<u16>, b: Seq<u16>)
    ensures
        sgr_seq(x, a + b) == sgr_seq(sgr_seq(x, a), b),
    decreases b.len(),
{
    if b.len() == 0 {
        assert(a + b =~= a);
    } else {
        lemma_sgr_seq_concat(x, a, b.drop_last());
        assert((a + b).drop_last() =~= a + b.drop_last());
        assert((a + b).last() == b.last());
    }
}

/// A `SGR` sequence with codes `a` and then one with codes `b` set the same
/// attributes as one sequence with the codes of `a` followed by those of `b`
/// (an empty list is a reset, so both lists hold codes).
pub proof fn lemma_apply_sgr_concat(x: Attrs, a: Seq<u16>, b: Seq<u16>)
    requires
        a.len() > 0,
        b.len() > 0,
    ensures
        apply_sgr(apply_sgr(x, a), b) == apply_sgr(x, a + b),
{
    lemma_sgr_seq_concat(x, a, b);
}

proof fn lemma_scroll_up_dims(b: BufferModel, n: nat)
    ensures
        b.scroll_up(n).cols == b.cols,
        b.scroll_up(n).rows == b.rows,
        b.scroll_up(n).scrollback == b.scrollback,
    decreases n,
{
    if n > 0 {
        lemma_scroll_up_dims(b, (n - 1) as nat);
    }
}

proof fn lemma_clear_rows_dims(b: BufferModel, from: int, to: int)
    ensures
        clear_rows(b, from, to).cols == b.cols,
        clear_rows(b, from, to).rows == b.rows,
        clear_rows(b, from, to).scrollback == b.scrollback,
    decreases to - from,
{
    if to > from {
        lemma_clear_rows_dims(b, from, to - 1);
    }
}

proof fn lemma_step_dims(m: TermModel, ch: char)
    ensures
        step(m, ch).buffer.cols == m.buffer.cols,
        step(m, ch).buffer.rows == m.buffer.rows,
        step(m, ch).buffer.scrollback == m.buffer.scrollback,
{
    reveal(step);
    let b = m.buffer;
    lemma_scroll_up_dims(b, 1);
    let b1 = b.set_cell(m.x as int, b.actual_y(m.y as int), cell_with(m.parser.attrs, ch));
    lemma_scroll_up_dims(b1, 1);
    lemma_scroll_up_dims(b, first_param(finish_params(m.parser).params, 1) as nat);
    let ay = b.actual_y(m.y as int);
    if 0 <= ay < b.lines.len() {
        let c = b.lines[ay].cells;
        let b2 = map_line_cells(b, ay, blank_range(c, m.x as int, c.len() as int));
        lemma_clear_rows_dims(b2, m.y + 1, b.rows as int);
    }
    lemma_clear_rows_dims(b, m.y + 1, b.rows as int);
    lemma_clear_rows_dims(b, 0, m.y as int);
    lemma_clear_rows_dims(b, 0, b.rows as int);
}

/// A run of the parser keeps the screen's width, height and scrollback
/// limit, whatever the input.
pub proof fn lemma_run_keeps_dimensions(m: TermModel, input: Seq<char>)
    ensures
        run(m, input).buffer.cols == m.buffer.cols,
        run(m, input).buffer.rows == m.buffer.rows,
        run(m, input).buffer.scrollback == m.buffer.scrollback,
    decreases input.len(),
{
    if input.len() > 0 {
        lemma_run_keeps_dimensions(m, input.drop_last());
        lemma_step_dims(run(m, input.drop_last()), input.last());
    }
}

/// The last code of a rendition sequence decides its own attribute: each
/// style code (1 bold, 2 dim, 3 italic, 4 underline, 7 reverse, 9
/// strikethrough) turns its style on, each "off" code (22 bold and dim, 23
/// italic, 24 underline, 27 reverse, 29 strikethrough) turns it off, and
/// every other attribute stays as the earlier codes left it.
pub proof fn lemma_sgr_styles(x: Attrs, ps: Seq<u16>, p: u16)
    ensures
        ({
            let before = sgr_seq(x, ps);
            let after = sgr_seq(x, ps.push(p));
            &&& p == 1 ==> after == Attrs { bold: true, ..before }
            &&& p == 2 ==> after == Attrs { dim: true, ..before }
            &&& p == 3 ==> after == Attrs { italic: true, ..before }
            &&& p == 4 ==> after == Attrs { underline: true, ..before }
            &&& p == 7 ==> after == Attrs { reverse: true, ..before }
            &&& p == 9 ==> after == Attrs { strikethrough: true, ..before }
            &&& p == 22 ==> after == Attrs { bold: false, dim: false, ..before }
            &&& p == 23 ==> after == Attrs { italic: false, ..before }
            &&& p == 24 ==> after == Attrs { underline: false, ..before }
            &&& p == 27 ==> after == Attrs { reverse: false, ..before }
            &&& p == 29 ==> after == Attrs { strikethrough: false, ..before }
        }),
{
    assert(ps.push(p).drop_last() =~= ps);
}

/// The colour codes: 30 to 37 and 90 to 97 set the foreground to palette
/// entry 0 to 7 and 8 to 15, 40 to 47 and 100 to 107 the background alike,
/// 39 and 49 restore the default foreground (7) and background (0), 0 resets
/// every attribute; the styles stay as they were except under 0.
pub proof fn lemma_sgr_colours(x: Attrs, ps: Seq<u16>, p: u16)
    ensures
        ({
            let before = sgr_seq(x, ps);
            let after = sgr_seq(x, ps.push(p));
            &&& 30 <= p <= 37 ==> after == Attrs { fg: (p - 30) as u8, ..before }
            &&& 90 <= p <= 97 ==> after == Attrs { fg: (p - 82) as u8, ..before }
            &&& 40 <= p <= 47 ==> after == Attrs { bg: (p - 40) as u8, ..before }
            &&& 100 <= p <= 107 ==> after == Attrs { bg: (p - 92) as u8, ..before }
            &&& p == 39 ==> after == Attrs { fg: 7, ..before }
            &&& p == 49 ==> after == Attrs { bg: 0, ..before }
            &&& p == 0 ==> after == Attrs {
                fg: 7,
                bg: 0,
                bold: false,
                italic: false,
                underline: false,
                dim: false,
                reverse: false,
                strikethrough: false,
            }
        }),
{
    assert(ps.push(p).drop_last() =~= ps);
}

/// A rendition sequence with no code resets every attribute.
pub proof fn lemma_apply_sgr_empty_resets(x: Attrs)
    ensures
        apply_sgr(x, Seq::empty()) == default_attrs(),
        default_attrs() == (Attrs {
            fg: 7,
            bg: 0,
            bold: false,
            italic: false,
            underline: false,
            dim: false,
            reverse: false,
            strikethrough: false,
        }),
{
}

/// A printable character read in plain text is written at the cursor with
/// the parser's current attributes (so after `ESC [ 27 m` it is not shown
/// reversed), and the cursor moves one cell right.
pub proof fn lemma_print_uses_attributes(m: TermModel, ch: char)
    requires
        term_wf(m),
        m.parser.state == ParserState::Ground,
        !is_control(ch),
        m.x + 1 < m.buffer.cols,
    ensures
        ({
            let r = step(m, ch);
            let ay = m.buffer.actual_y(m.y as int);
            let c = r.buffer.lines[ay].cells[m.x as int];
            &&& c.ch == ch
            &&& c.fg == m.parser.attrs.fg
            &&& c.bg == m.parser.attrs.bg
            &&& c.bold == m.parser.attrs.bold
            &&& c.italic == m.parser.attrs.italic
            &&& c.underline == m.parser.attrs.underline
            &&& c.dim == m.parser.attrs.dim
            &&& c.reverse == m.parser.attrs.reverse
            &&& c.strikethrough == m.parser.attrs.strikethrough
            &&& r.x == m.x + 1
            &&& r.y == m.y
            &&& r.parser == m.parser
        }),
{
    reveal(step);
    lemma_actual_y_wf(m.buffer, m.y as int);
}

/// The cursor moves of a control sequence with count `n` (1 when absent):
/// up (`A`) and left (`D`) by `n`, stopping at the edge; down (`B`) and right
/// (`C`) by `n`, stopping at the last row or column; `H` with row `r` and
/// column `c` (counted from 1) goes there. The buffer is left as it is.
pub proof fn lemma_cursor_moves(m: TermModel, n: u16, r: u16, c: u16)
    requires
        term_wf(m),
        n >= 1,
        1 <= r <= m.buffer.rows,
        1 <= c <= m.buffer.cols,
    ensures
        csi_dispatch(m, 'A', seq![n]).y == (if m.y >= n { m.y - n } else { 0 }),
        csi_dispatch(m, 'A', seq![n]).x == m.x,
        csi_dispatch(m, 'B', seq![n]).y == (if m.y + n < m.buffer.rows { m.y + n } else { m.buffer.rows - 1 }),
        csi_dispatch(m, 'C', seq![n]).x == (if m.x + n < m.buffer.cols { m.x + n } else { m.buffer.cols - 1 }),
        csi_dispatch(m, 'D', seq![n]).x == (if m.x >= n { m.x - n } else { 0 }),
        csi_dispatch(m, 'D', seq![n]).y == m.y,
        csi_dispatch(m, 'H', seq![r, c]).y == r - 1,
        csi_dispatch(m, 'H', seq![r, c]).x == c - 1,
        csi_dispatch(m, 'H', Seq::empty()).x == 0 && csi_dispatch(m, 'H', Seq::empty()).y == 0,
        csi_dispatch(m, 'A', seq![n]).buffer == m.buffer,
        csi_dispatch(m, 'H', seq![r, c]).buffer == m.buffer,
{
}

/// Erasing to the end of the line (`ESC [ K`) blanks the cursor's cell and
/// those after it, keeps those before it and every other line.
pub proof fn lemma_erase_to_end_of_line(m: TermModel)
    requires
        term_wf(m),
    ensures
        ({
            let b = m.buffer;
            let ay = b.actual_y(m.y as int);
            let r = csi_dispatch(m, 'K', Seq::empty()).buffer;
            &&& r.lines.len() == b.lines.len()
            &&& forall|j: int| 0 <= j < m.x ==> #[trigger] r.lines[ay].cells[j] == b.lines[ay].cells[j]
            &&& forall|j: int| m.x <= j < b.cols ==> #[trigger] r.lines[ay].cells[j] == super::blank_cell()
            &&& forall|i: int| 0 <= i < b.lines.len() && i != ay ==> #[trigger] r.lines[i] == b.lines[i]
        }),
{
    lemma_actual_y_wf(m.buffer, m.y as int);
}

/// In plain text, a carriage return moves the cursor to the first column of
/// its row, and a backspace one column left (not past the first); neither
/// changes the buffer.
pub proof fn lemma_return_and_backspace(m: TermModel)
    requires
        m.parser.state == ParserState::Ground,
    ensures
        step(m, '\r').x == 0 && step(m, '\r').y == m.y && step(m, '\r').buffer == m.buffer,
        step(m, '\x08').x == (if m.x > 0 { m.x - 1 } else { 0 }) && step(m, '\x08').y == m.y
            && step(m, '\x08').buffer == m.buffer,
{
    reveal(step);
}

} // verus!
