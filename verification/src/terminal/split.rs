//! The screen keeps only the cells of its lines from one input to the next:
//! the directions found for the lines do not change what later input does.
use super::buffer::{blank_line, BufferModel, LineModel};
use super::semantics::{
    cell_with, clear_rows, csi_dispatch, csi_dispatch_ok, csi_step, csi_step_ok, delete_chars,
    delete_lines_ok, delete_lines_rep, erase_display, erase_line, escape_step, finish_params,
    first_param, ground_step, ground_step_ok, insert_blanks, insert_lines_ok, insert_lines_rep,
    is_csi_final, map_line_cells, min_int, print_char, print_char_ok, run, run_ok, scroll_down_ok,
    scroll_down_rep, step, step_ok, TermModel,
};
use super::buffer::blank_range;
use super::laws::lemma_run_concat;
use super::Cell;
use vstd::prelude::*;

verus! {

/// The cells of every line, without the lines' directions.
pub open spec fn cells_of(lines: Seq<LineModel>) -> Seq<Seq<Cell>> {
    lines.map_values(|l: LineModel| l.cells)
}

/// Two buffers that differ at most in the directions of their lines.
pub open spec fn same_text(b1: BufferModel, b2: BufferModel) -> bool {
    &&& b1.cols == b2.cols
    &&& b1.rows == b2.rows
    &&& b1.scrollback == b2.scrollback
    &&& cells_of(b1.lines) == cells_of(b2.lines)
}

/// Two states that differ at most in the directions of their lines.
pub open spec fn same_but_directions(m1: TermModel, m2: TermModel) -> bool {
    &&& m1.parser == m2.parser
    &&& m1.x == m2.x
    &&& m1.y == m2.y
    &&& same_text(m1.buffer, m2.buffer)
}

broadcast proof fn lemma_cells_of_push(l: Seq<LineModel>, x: LineModel)
    ensures
        #[trigger] cells_of(l.push(x)) == cells_of(l).push(x.cells),
{
    assert(cells_of(l.push(x)) =~= cells_of(l).push(x.cells));
}

broadcast proof fn lemma_cells_of_drop_first(l: Seq<LineModel>)
    requires
        l.len() > 0,
    ensures
        #[trigger] cells_of(l.drop_first()) == cells_of(l).drop_first(),
{
    assert(cells_of(l.drop_first()) =~= cells_of(l).drop_first());
}

broadcast proof fn lemma_cells_of_update(l: Seq<LineModel>, i: int, x: LineModel)
    requires
        0 <= i < l.len(),
    ensures
        #[trigger] cells_of(l.update(i, x)) == cells_of(l).update(i, x.cells),
{
    assert(cells_of(l.update(i, x)) =~= cells_of(l).update(i, x.cells));
}

broadcast proof fn lemma_cells_of_insert(l: Seq<LineModel>, i: int, x: LineModel)
    requires
        0 <= i <= l.len(),
    ensures
        #[trigger] cells_of(l.insert(i, x)) == cells_of(l).insert(i, x.cells),
{
    assert(cells_of(l.insert(i, x)) =~= cells_of(l).insert(i, x.cells));
}

broadcast proof fn lemma_cells_of_remove(l: Seq<LineModel>, i: int)
    requires
        0 <= i < l.len(),
    ensures
        #[trigger] cells_of(l.remove(i)) == cells_of(l).remove(i),
{
    assert(cells_of(l.remove(i)) =~= cells_of(l).remove(i));
}

broadcast proof fn lemma_cells_of_skip(l: Seq<LineModel>, k: int)
    requires
        0 <= k <= l.len(),
    ensures
        #[trigger] cells_of(l.skip(k)) == cells_of(l).skip(k),
{
    assert(cells_of(l.skip(k)) =~= cells_of(l).skip(k));
}

broadcast group group_cells_of {
    lemma_cells_of_push,
    lemma_cells_of_drop_first,
    lemma_cells_of_update,
    lemma_cells_of_insert,
    lemma_cells_of_remove,
    lemma_cells_of_skip,
}

proof fn lemma_same_len(b1: BufferModel, b2: BufferModel)
    requires
        same_text(b1, b2),
    ensures
        b1.lines.len() == b2.lines.len(),
        forall|i: int| 0 <= i < b1.lines.len() ==> #[trigger] b1.lines[i].cells == b2.lines[i].cells,
{
    assert(cells_of(b1.lines).len() == cells_of(b2.lines).len());
    assert forall|i: int| 0 <= i < b1.lines.len() implies #[trigger] b1.lines[i].cells == b2.lines[i].cells by {
        assert(cells_of(b1.lines)[i] == cells_of(b2.lines)[i]);
    }
}

proof fn lemma_scroll_up_same(b1: BufferModel, b2: BufferModel, n: nat)
    requires
        same_text(b1, b2),
    ensures
        same_text(b1.scroll_up(n), b2.scroll_up(n)),
    decreases n,
{
    broadcast use group_cells_of;

    if n > 0 {
        lemma_scroll_up_same(b1, b2, (n - 1) as nat);
        let p1 = b1.scroll_up((n - 1) as nat);
        let p2 = b2.scroll_up((n - 1) as nat);
        lemma_same_len(p1, p2);
        if p1.lines.len() >= p1.scroll_limit() {
            if p1.lines.len() == 0 {
                assert(p1.lines =~= p2.lines);
            }
            assert(cells_of(p1.lines.drop_first()) == cells_of(p2.lines.drop_first()));
        }
        assert(cells_of(p1.scroll_once().lines) == cells_of(p2.scroll_once().lines));
    }
}

proof fn lemma_line_ops_same(b1: BufferModel, b2: BufferModel, x: int, y: int, c: Cell, cells: Seq<Cell>)
    requires
        same_text(b1, b2),
    ensures
        same_text(b1.clear_line(y), b2.clear_line(y)),
        same_text(b1.set_cell(x, y, c), b2.set_cell(x, y, c)),
        same_text(map_line_cells(b1, y, cells), map_line_cells(b2, y, cells)),
{
    broadcast use group_cells_of;

    lemma_same_len(b1, b2);
    if 0 <= y < b1.lines.len() {
        assert(b1.lines[y].cleared().cells == b2.lines[y].cleared().cells);
        assert(b1.lines[y].with_cell(x, c).cells == b2.lines[y].with_cell(x, c).cells);
    }
}

proof fn lemma_clear_rows_same(b1: BufferModel, b2: BufferModel, from: int, to: int)
    requires
        same_text(b1, b2),
    ensures
        same_text(clear_rows(b1, from, to), clear_rows(b2, from, to)),
    decreases to - from,
{
    if to > from {
        lemma_clear_rows_same(b1, b2, from, to - 1);
        lemma_same_len(b1, b2);
        lemma_line_ops_same(clear_rows(b1, from, to - 1), clear_rows(b2, from, to - 1), 0, b1.actual_y(to - 1), super::blank_cell(), Seq::empty());
    }
}

proof fn lemma_erase_same(b1: BufferModel, b2: BufferModel, mode: u16, x: u16, y: u16)
    requires
        same_text(b1, b2),
    ensures
        same_text(erase_display(b1, mode, x, y), erase_display(b2, mode, x, y)),
        same_text(erase_line(b1, mode, x, y), erase_line(b2, mode, x, y)),
{
    broadcast use group_cells_of;

    lemma_same_len(b1, b2);
    let ay = b1.actual_y(y as int);
    let c = super::blank_cell();
    if 0 <= ay < b1.lines.len() {
        let cells = b1.lines[ay].cells;
        lemma_line_ops_same(b1, b2, 0, ay, c, super::buffer::blank_range(cells, x as int, cells.len() as int));
        lemma_line_ops_same(b1, b2, 0, ay, c, super::buffer::blank_range(cells, 0, x + 1));
        lemma_line_ops_same(b1, b2, 0, ay, c, cells);
    }
    if mode == 0 {
        let e1 = if 0 <= ay < b1.lines.len() {
            map_line_cells(b1, ay, super::buffer::blank_range(b1.lines[ay].cells, x as int, b1.lines[ay].cells.len() as int))
        } else {
            b1
        };
        let e2 = if 0 <= ay < b2.lines.len() {
            map_line_cells(b2, ay, super::buffer::blank_range(b2.lines[ay].cells, x as int, b2.lines[ay].cells.len() as int))
        } else {
            b2
        };
        lemma_clear_rows_same(e1, e2, y + 1, b1.rows as int);
    } else if mode == 1 {
        lemma_clear_rows_same(b1, b2, 0, y as int);
        let e1 = clear_rows(b1, 0, y as int);
        let e2 = clear_rows(b2, 0, y as int);
        lemma_same_len(e1, e2);
        if 0 <= ay < e1.lines.len() {
            lemma_line_ops_same(e1, e2, 0, ay, c, super::buffer::blank_range(e1.lines[ay].cells, 0, x + 1));
        }
    } else if mode == 2 {
        lemma_clear_rows_same(b1, b2, 0, b1.rows as int);
    }
}

proof fn lemma_insert_lines_same(l1: Seq<LineModel>, l2: Seq<LineModel>, ay: int, bottom: int, cols: u16, n: nat)
    requires
        cells_of(l1) == cells_of(l2),
        0 <= ay,
    ensures
        insert_lines_ok(l1, ay, bottom, cols, n) == insert_lines_ok(l2, ay, bottom, cols, n),
        insert_lines_ok(l1, ay, bottom, cols, n) ==> cells_of(insert_lines_rep(l1, ay, bottom, cols, n)) == cells_of(
            insert_lines_rep(l2, ay, bottom, cols, n),
        ),
    decreases n,
{
    broadcast use group_cells_of;

    if n > 0 {
        lemma_insert_lines_same(l1, l2, ay, bottom, cols, (n - 1) as nat);
        let p1 = insert_lines_rep(l1, ay, bottom, cols, (n - 1) as nat);
        let p2 = insert_lines_rep(l2, ay, bottom, cols, (n - 1) as nat);
        if insert_lines_ok(l1, ay, bottom, cols, (n - 1) as nat) {
            assert(cells_of(p1).len() == cells_of(p2).len());
        }
        if insert_lines_ok(l1, ay, bottom, cols, (n - 1) as nat) && ay <= bottom && 0 <= ay <= p1.len() {
            let q1 = p1.insert(ay, blank_line(cols));
            let q2 = p2.insert(ay, blank_line(cols));
            assert(cells_of(q1) == cells_of(q2));
            assert(cells_of(q1).len() == cells_of(q2).len());
        }
    }
}

proof fn lemma_delete_lines_same(l1: Seq<LineModel>, l2: Seq<LineModel>, ay: int, bottom: int, cols: u16, n: nat)
    requires
        cells_of(l1) == cells_of(l2),
        0 <= ay,
    ensures
        delete_lines_ok(l1, ay, bottom, cols, n) == delete_lines_ok(l2, ay, bottom, cols, n),
        delete_lines_ok(l1, ay, bottom, cols, n) ==> cells_of(delete_lines_rep(l1, ay, bottom, cols, n)) == cells_of(
            delete_lines_rep(l2, ay, bottom, cols, n),
        ),
    decreases n,
{
    broadcast use group_cells_of;

    if n > 0 {
        lemma_delete_lines_same(l1, l2, ay, bottom, cols, (n - 1) as nat);
        let p1 = delete_lines_rep(l1, ay, bottom, cols, (n - 1) as nat);
        let p2 = delete_lines_rep(l2, ay, bottom, cols, (n - 1) as nat);
        if delete_lines_ok(l1, ay, bottom, cols, (n - 1) as nat) {
            assert(cells_of(p1).len() == cells_of(p2).len());
        }
        if delete_lines_ok(l1, ay, bottom, cols, (n - 1) as nat) && ay <= bottom && 0 <= ay < p1.len() {
            let q1 = p1.remove(ay);
            let q2 = p2.remove(ay);
            assert(cells_of(q1) == cells_of(q2));
            assert(cells_of(q1).len() == cells_of(q2).len());
        }
    }
}

proof fn lemma_scroll_down_same(l1: Seq<LineModel>, l2: Seq<LineModel>, top: int, bottom: int, cols: u16, n: nat)
    requires
        cells_of(l1) == cells_of(l2),
        0 <= top,
        -1 <= bottom,
    ensures
        scroll_down_ok(l1, top, bottom, cols, n) == scroll_down_ok(l2, top, bottom, cols, n),
        scroll_down_ok(l1, top, bottom, cols, n) ==> cells_of(scroll_down_rep(l1, top, bottom, cols, n)) == cells_of(
            scroll_down_rep(l2, top, bottom, cols, n),
        ),
    decreases n,
{
    broadcast use group_cells_of;

    if n > 0 {
        lemma_scroll_down_same(l1, l2, top, bottom, cols, (n - 1) as nat);
        let p1 = scroll_down_rep(l1, top, bottom, cols, (n - 1) as nat);
        let p2 = scroll_down_rep(l2, top, bottom, cols, (n - 1) as nat);
        if scroll_down_ok(l1, top, bottom, cols, (n - 1) as nat) {
            assert(cells_of(p1).len() == cells_of(p2).len());
        }
        if scroll_down_ok(l1, top, bottom, cols, (n - 1) as nat) && 0 <= top <= p1.len() {
            let q1 = p1.insert(top, blank_line(cols));
            let q2 = p2.insert(top, blank_line(cols));
            assert(cells_of(q1) == cells_of(q2));
            assert(cells_of(q1).len() == cells_of(q2).len());
        }
    }
}

proof fn lemma_dispatch_same(m1: TermModel, m2: TermModel, ch: char, ps: Seq<u16>)
    requires
        same_but_directions(m1, m2),
    ensures
        csi_dispatch_ok(m1, ch, ps) == csi_dispatch_ok(m2, ch, ps),
        csi_dispatch_ok(m1, ch, ps) ==> same_but_directions(csi_dispatch(m1, ch, ps), csi_dispatch(m2, ch, ps)),
{
    let b1 = m1.buffer;
    let b2 = m2.buffer;
    lemma_same_len(b1, b2);
    let ay = b1.actual_y(m1.y as int);
    let rows = b1.rows;
    let cols = b1.cols;
    let p1 = first_param(ps, 1);
    let c = super::blank_cell();
    if ch == 'J' || ch == 'K' {
        lemma_erase_same(b1, b2, first_param(ps, 0), m1.x, m1.y);
    } else if ch == 'L' {
        lemma_insert_lines_same(b1.lines, b2.lines, ay, b1.actual_y(rows - 1), cols, p1 as nat);
    } else if ch == 'M' {
        lemma_delete_lines_same(b1.lines, b2.lines, ay, b1.actual_y(rows - 1), cols, p1 as nat);
    } else if ch == 'T' {
        lemma_scroll_down_same(b1.lines, b2.lines, b1.actual_y(0), b1.actual_y(rows - 1), cols, p1 as nat);
    } else if ch == 'S' {
        lemma_scroll_up_same(b1, b2, p1 as nat);
    } else if ch == 'P' || ch == 'X' || ch == '@' {
        if 0 <= ay < b1.lines.len() {
            let cells = b1.lines[ay].cells;
            let end = min_int(m1.x + p1, cells.len() as int);
            lemma_line_ops_same(b1, b2, 0, ay, c, delete_chars(cells, m1.x as int, p1 as int, cols));
            lemma_line_ops_same(b1, b2, 0, ay, c, blank_range(cells, m1.x as int, end));
            lemma_line_ops_same(b1, b2, 0, ay, c, insert_blanks(cells, m1.x as int, p1 as int));
        }
    }
}

proof fn lemma_ground_same(m1: TermModel, m2: TermModel, ch: char)
    requires
        same_but_directions(m1, m2),
    ensures
        ground_step_ok(m1, ch) == ground_step_ok(m2, ch),
        ground_step_ok(m1, ch) ==> same_but_directions(ground_step(m1, ch), ground_step(m2, ch)),
{
    let b1 = m1.buffer;
    let b2 = m2.buffer;
    lemma_same_len(b1, b2);
    let ay = b1.actual_y(m1.y as int);
    let cell = cell_with(m1.parser.attrs, ch);
    lemma_line_ops_same(b1, b2, m1.x as int, ay, cell, Seq::empty());
    let s1 = b1.set_cell(m1.x as int, ay, cell);
    let s2 = b2.set_cell(m1.x as int, ay, cell);
    lemma_same_len(s1, s2);
    lemma_scroll_up_same(s1, s2, 1);
    lemma_scroll_up_same(b1, b2, 1);
}

/// States that differ only in the directions of their lines stay so, and
/// fail together, under one more character.
proof fn lemma_step_same(m1: TermModel, m2: TermModel, ch: char)
    requires
        same_but_directions(m1, m2),
    ensures
        step_ok(m1, ch) == step_ok(m2, ch),
        step_ok(m1, ch) ==> same_but_directions(step(m1, ch), step(m2, ch)),
{
    reveal(step);
    reveal(step_ok);
    match m1.parser.state {
        super::parser::ParserState::Ground => lemma_ground_same(m1, m2, ch),
        super::parser::ParserState::Escape => {
            assert(m1.buffer.cleared().lines =~= m2.buffer.cleared().lines);
        },
        super::parser::ParserState::Csi => {
            if is_csi_final(ch) {
                let fp = finish_params(m1.parser);
                lemma_dispatch_same(m1.with_parser(fp), m2.with_parser(fp), ch, fp.params);
            }
        },
        super::parser::ParserState::Osc => {},
    }
}

/// States that differ only in the directions of their lines stay so, and
/// fail together, under any input.
proof fn lemma_run_same(m1: TermModel, m2: TermModel, input: Seq<char>)
    requires
        same_but_directions(m1, m2),
    ensures
        run_ok(m1, input) == run_ok(m2, input),
        run_ok(m1, input) ==> same_but_directions(run(m1, input), run(m2, input)),
    decreases input.len(),
{
    if input.len() > 0 {
        lemma_run_same(m1, m2, input.drop_last());
        if run_ok(m1, input.drop_last()) {
            lemma_step_same(run(m1, input.drop_last()), run(m2, input.drop_last()), input.last());
        }
    }
}

proof fn lemma_directions_same(b1: BufferModel, b2: BufferModel)
    requires
        same_text(b1, b2),
    ensures
        b1.with_directions() == b2.with_directions(),
{
    lemma_same_len(b1, b2);
    assert(b1.with_directions().lines =~= b2.with_directions().lines);
}

/// The state of a screen after `input`: the parser's run over it, then the
/// direction found for every line (what `Screen::process_input` does).
pub open spec fn processed(m: TermModel, input: Seq<char>) -> TermModel {
    let r = run(m, input);
    r.with_buffer(r.buffer.with_directions())
}

/// Shell output may reach a screen in pieces split anywhere, even inside an
/// escape sequence or between the bytes of a line: feeding `a` and then `b`
/// leaves the screen as feeding `a + b` at once, and fails exactly when that
/// fails. The directions found for the lines after `a` do not change what
/// `b` does.
pub proof fn lemma_process_split(m: TermModel, a: Seq<char>, b: Seq<char>)
    ensures
        run_ok(m, a + b) == (run_ok(m, a) && run_ok(processed(m, a), b)),
        run_ok(m, a + b) ==> processed(processed(m, a), b) == processed(m, a + b),
{
    broadcast use group_cells_of;

    lemma_run_concat(m, a, b);
    let r = run(m, a);
    let p = processed(m, a);
    assert(cells_of(r.buffer.lines) =~= cells_of(p.buffer.lines));
    lemma_run_same(r, p, b);
    if run_ok(m, a + b) {
        lemma_directions_same(run(r, b).buffer, run(p, b).buffer);
    }
}

} // verus!
