//! What the escape-sequence parser does to the terminal, one character at a
//! time, and when a character would make it fail.
use super::buffer::{blank_cells, blank_line, blank_range, BufferModel, LineModel};
use super::parser::{Attrs, ParserModel, ParserState};
use super::{blank_cell, Cell, Direction};
use vstd::prelude::*;

verus! {

/// The whole state the parser works on: its own state, the buffer and the
/// cursor position.
pub struct TermModel {
    pub parser: ParserModel,
    pub buffer: BufferModel,
    pub x: u16,
    pub y: u16,
}

pub open spec fn min_int(a: int, b: int) -> int {
    if a <= b { a } else { b }
}

pub open spec fn sat_sub(a: u16, b: u16) -> u16 {
    if a >= b { (a - b) as u16 } else { 0 }
}

pub open spec fn is_ascii_digit(c: char) -> bool {
    '0' <= c <= '9'
}

/// The number that a string of decimal digits writes.
pub open spec fn digits_value(d: Seq<char>) -> nat
    decreases d.len(),
{
    if d.len() == 0 {
        0
    } else {
        digits_value(d.drop_last()) * 10 + ((d.last() as int - '0' as int) as nat)
    }
}

/// A parameter as the parser reads it: the decimal number that the digits
/// write when they are all digits, there is at least one, and the number fits
/// in a `u16`; 0 otherwise.
pub open spec fn param_value(d: Seq<char>) -> u16 {
    if d.len() > 0 && (forall|i: int| 0 <= i < d.len() ==> is_ascii_digit(#[trigger] d[i]))
        && digits_value(d) <= u16::MAX {
        digits_value(d) as u16
    } else {
        0
    }
}

/// The first parameter, or `default` when there is none.
pub open spec fn first_param(ps: Seq<u16>, default: u16) -> u16 {
    if ps.len() > 0 { ps[0] } else { default }
}

/// The second parameter, or `default` when there is none.
pub open spec fn second_param(ps: Seq<u16>, default: u16) -> u16 {
    if ps.len() > 1 { ps[1] } else { default }
}

/// The attributes of a newly written character: foreground 7, background 0,
/// no style.
pub open spec fn default_attrs() -> Attrs {
    Attrs {
        fg: 7,
        bg: 0,
        bold: false,
        italic: false,
        underline: false,
        dim: false,
        reverse: false,
        strikethrough: false,
    }
}

/// The effect of one Select Graphic Rendition parameter.
pub open spec fn sgr_one(a: Attrs, p: u16) -> Attrs {
    if p == 0 {
        default_attrs()
    } else if p == 1 {
        Attrs { bold: true, ..a }
    } else if p == 2 {
        Attrs { dim: true, ..a }
    } else if p == 3 {
        Attrs { italic: true, ..a }
    } else if p == 4 {
        Attrs { underline: true, ..a }
    } else if p == 7 {
        Attrs { reverse: true, ..a }
    } else if p == 9 {
        Attrs { strikethrough: true, ..a }
    } else if p == 22 {
        Attrs { bold: false, dim: false, ..a }
    } else if p == 23 {
        Attrs { italic: false, ..a }
    } else if p == 24 {
        Attrs { underline: false, ..a }
    } else if p == 27 {
        Attrs { reverse: false, ..a }
    } else if p == 29 {
        Attrs { strikethrough: false, ..a }
    } else if 30 <= p <= 37 {
        Attrs { fg: (p - 30) as u8, ..a }
    } else if p == 39 {
        Attrs { fg: 7, ..a }
    } else if 40 <= p <= 47 {
        Attrs { bg: (p - 40) as u8, ..a }
    } else if p == 49 {
        Attrs { bg: 0, ..a }
    } else if 90 <= p <= 97 {
        Attrs { fg: (p - 90 + 8) as u8, ..a }
    } else if 100 <= p <= 107 {
        Attrs { bg: (p - 100 + 8) as u8, ..a }
    } else {
        a
    }
}

/// The parameters applied one after the other, from the first.
pub open spec fn sgr_seq(a: Attrs, ps: Seq<u16>) -> Attrs
    decreases ps.len(),
{
    if ps.len() == 0 {
        a
    } else {
        sgr_one(sgr_seq(a, ps.drop_last()), ps.last())
    }
}

/// Select Graphic Rendition: no parameter resets the attributes.
pub open spec fn apply_sgr(a: Attrs, ps: Seq<u16>) -> Attrs {
    if ps.len() == 0 { default_attrs() } else { sgr_seq(a, ps) }
}

/// A cell holding `ch` with the attributes `a`.
pub open spec fn cell_with(a: Attrs, ch: char) -> Cell {
    Cell {
        ch,
        fg: a.fg,
        bg: a.bg,
        bold: a.bold,
        italic: a.italic,
        underline: a.underline,
        dim: a.dim,
        reverse: a.reverse,
        strikethrough: a.strikethrough,
        direction: Direction::LTR,
    }
}

/// The control characters, general category Cc (what `char::is_control`
/// tests).
pub open spec fn is_control(c: char) -> bool {
    (c as u32) <= 0x1F || (0x7F <= (c as u32) && (c as u32) <= 0x9F)
}

impl TermModel {
    pub open spec fn with_parser(self, parser: ParserModel) -> TermModel {
        TermModel { parser, ..self }
    }

    pub open spec fn with_state(self, state: ParserState) -> TermModel {
        self.with_parser(ParserModel { state, ..self.parser })
    }

    pub open spec fn with_buffer(self, buffer: BufferModel) -> TermModel {
        TermModel { buffer, ..self }
    }

    pub open spec fn at(self, x: u16, y: u16) -> TermModel {
        TermModel { x, y, ..self }
    }
}

// ---------------------------------------------------------------------------
// Line and screen editing
// ---------------------------------------------------------------------------

/// The cells of line `ay` changed by `f`, when the line exists.
pub open spec fn map_line_cells(b: BufferModel, ay: int, cells: Seq<Cell>) -> BufferModel {
    if 0 <= ay < b.lines.len() {
        b.with_lines(
            b.lines.update(ay, LineModel { cells, direction: b.lines[ay].direction }),
        )
    } else {
        b
    }
}

/// Rows `from <= r < to` of the visible screen made blank, from the top down.
pub open spec fn clear_rows(b: BufferModel, from: int, to: int) -> BufferModel
    decreases to - from,
{
    if to <= from {
        b
    } else {
        clear_rows(b, from, to - 1).clear_line(b.actual_y(to - 1))
    }
}

/// Erase in display (`ESC [ n J`).
pub open spec fn erase_display(b: BufferModel, mode: u16, x: u16, y: u16) -> BufferModel {
    let ay = b.actual_y(y as int);
    if mode == 0 {
        let b1 = if 0 <= ay < b.lines.len() {
            map_line_cells(b, ay, blank_range(b.lines[ay].cells, x as int, b.lines[ay].cells.len() as int))
        } else {
            b
        };
        clear_rows(b1, y + 1, b.rows as int)
    } else if mode == 1 {
        let b1 = clear_rows(b, 0, y as int);
        if 0 <= ay < b1.lines.len() {
            map_line_cells(b1, ay, blank_range(b1.lines[ay].cells, 0, x + 1))
        } else {
            b1
        }
    } else if mode == 2 {
        clear_rows(b, 0, b.rows as int)
    } else if mode == 3 {
        let top = b.viewport_top();
        if top > 0 {
            b.with_lines(b.lines.skip(top))
        } else {
            b
        }
    } else {
        b
    }
}

/// Erasing in display does not fail: the partial erase of the cursor line
/// (mode 1) stays inside that line.
pub open spec fn erase_display_ok(b: BufferModel, mode: u16, x: u16, y: u16) -> bool {
    let ay = b.actual_y(y as int);
    mode == 1 && 0 <= ay < b.lines.len() ==> (x as int) < b.lines[ay].cells.len()
}

/// Erase in line (`ESC [ n K`).
pub open spec fn erase_line(b: BufferModel, mode: u16, x: u16, y: u16) -> BufferModel {
    let ay = b.actual_y(y as int);
    if 0 <= ay < b.lines.len() {
        let cells = b.lines[ay].cells;
        if mode == 0 {
            map_line_cells(b, ay, blank_range(cells, x as int, cells.len() as int))
        } else if mode == 1 {
            map_line_cells(b, ay, blank_range(cells, 0, x + 1))
        } else if mode == 2 {
            b.clear_line(ay)
        } else {
            b
        }
    } else {
        b
    }
}

pub open spec fn erase_line_ok(b: BufferModel, mode: u16, x: u16, y: u16) -> bool {
    let ay = b.actual_y(y as int);
    mode == 1 && 0 <= ay < b.lines.len() ==> (x as int) < b.lines[ay].cells.len()
}

/// One step of inserting a line (`ESC [ n L`): a blank line comes in at
/// `ay` and the line just past the bottom of the screen is dropped.
pub open spec fn insert_line_once(lines: Seq<LineModel>, ay: int, bottom: int, cols: u16) -> Seq<LineModel> {
    if ay <= bottom {
        let l1 = lines.insert(ay, blank_line(cols));
        if bottom + 1 < l1.len() { l1.remove(bottom + 1) } else { l1 }
    } else {
        lines
    }
}

pub open spec fn insert_line_once_ok(lines: Seq<LineModel>, ay: int, bottom: int) -> bool {
    ay <= bottom ==> (ay <= lines.len() && bottom + 1 <= usize::MAX)
}

pub open spec fn insert_lines_rep(lines: Seq<LineModel>, ay: int, bottom: int, cols: u16, n: nat) -> Seq<LineModel>
    decreases n,
{
    if n == 0 {
        lines
    } else {
        insert_line_once(insert_lines_rep(lines, ay, bottom, cols, (n - 1) as nat), ay, bottom, cols)
    }
}

pub open spec fn insert_lines_ok(lines: Seq<LineModel>, ay: int, bottom: int, cols: u16, n: nat) -> bool
    decreases n,
{
    n == 0 || (insert_lines_ok(lines, ay, bottom, cols, (n - 1) as nat) && insert_line_once_ok(
        insert_lines_rep(lines, ay, bottom, cols, (n - 1) as nat),
        ay,
        bottom,
    ))
}

/// One step of deleting a line (`ESC [ n M`): line `ay` leaves and a blank
/// line comes in at the bottom of the screen.
pub open spec fn delete_line_once(lines: Seq<LineModel>, ay: int, bottom: int, cols: u16) -> Seq<LineModel> {
    if ay <= bottom && ay < lines.len() {
        lines.remove(ay).insert(bottom, blank_line(cols))
    } else {
        lines
    }
}

pub open spec fn delete_line_once_ok(lines: Seq<LineModel>, ay: int, bottom: int) -> bool {
    ay <= bottom && ay < lines.len() ==> bottom <= lines.len() - 1
}

pub open spec fn delete_lines_rep(lines: Seq<LineModel>, ay: int, bottom: int, cols: u16, n: nat) -> Seq<LineModel>
    decreases n,
{
    if n == 0 {
        lines
    } else {
        delete_line_once(delete_lines_rep(lines, ay, bottom, cols, (n - 1) as nat), ay, bottom, cols)
    }
}

pub open spec fn delete_lines_ok(lines: Seq<LineModel>, ay: int, bottom: int, cols: u16, n: nat) -> bool
    decreases n,
{
    n == 0 || (delete_lines_ok(lines, ay, bottom, cols, (n - 1) as nat) && delete_line_once_ok(
        delete_lines_rep(lines, ay, bottom, cols, (n - 1) as nat),
        ay,
        bottom,
    ))
}

/// One step of scrolling down (`ESC [ n T`): a blank line comes in at the
/// top of the screen and the line just past the bottom is dropped.
pub open spec fn scroll_down_once(lines: Seq<LineModel>, top: int, bottom: int, cols: u16) -> Seq<LineModel> {
    let l1 = lines.insert(top, blank_line(cols));
    if bottom + 1 < l1.len() { l1.remove(bottom + 1) } else { l1 }
}

pub open spec fn scroll_down_once_ok(lines: Seq<LineModel>, top: int, bottom: int) -> bool {
    top <= lines.len() && bottom + 1 <= usize::MAX
}

pub open spec fn scroll_down_rep(lines: Seq<LineModel>, top: int, bottom: int, cols: u16, n: nat) -> Seq<LineModel>
    decreases n,
{
    if n == 0 {
        lines
    } else {
        scroll_down_once(scroll_down_rep(lines, top, bottom, cols, (n - 1) as nat), top, bottom, cols)
    }
}

pub open spec fn scroll_down_ok(lines: Seq<LineModel>, top: int, bottom: int, cols: u16, n: nat) -> bool
    decreases n,
{
    n == 0 || (scroll_down_ok(lines, top, bottom, cols, (n - 1) as nat) && scroll_down_once_ok(
        scroll_down_rep(lines, top, bottom, cols, (n - 1) as nat),
        top,
        bottom,
    ))
}

/// Delete characters (`ESC [ n P`): `n` cells from the cursor leave, the rest
/// of the line moves left and blank cells pad it to `cols` cells.
pub open spec fn delete_chars(cells: Seq<Cell>, x: int, n: int, cols: u16) -> Seq<Cell> {
    let end = min_int(x + n, cells.len() as int);
    let kept = cells.take(x) + cells.skip(end);
    if kept.len() < cols { kept + blank_cells((cols - kept.len()) as nat) } else { kept }
}

/// Insert blank characters (`ESC [ n @`): `n` blank cells come in at the
/// cursor and the cells after it move right, the last `n` falling off.
pub open spec fn insert_blanks(cells: Seq<Cell>, x: int, n: int) -> Seq<Cell> {
    cells.take(x) + blank_cells(n as nat) + cells.subrange(x, cells.len() - n)
}

// ---------------------------------------------------------------------------
// Final characters of a control sequence
// ---------------------------------------------------------------------------

/// The effect of the final character `ch` of a control sequence whose
/// parameters are `ps`, on the buffer, the cursor and the attributes.
pub open spec fn csi_dispatch(m: TermModel, ch: char, ps: Seq<u16>) -> TermModel {
    let b = m.buffer;
    let x = m.x;
    let y = m.y;
    let rows = b.rows;
    let cols = b.cols;
    let p1 = first_param(ps, 1);
    let ay = b.actual_y(y as int);
    if ch == 'A' {
        m.at(x, sat_sub(y, p1))
    } else if ch == 'B' {
        m.at(x, min_int(y + p1, rows - 1) as u16)
    } else if ch == 'C' {
        m.at(min_int(x + p1, cols - 1) as u16, y)
    } else if ch == 'D' {
        m.at(sat_sub(x, p1), y)
    } else if ch == 'E' {
        m.at(0, min_int(y + p1, rows - 1) as u16)
    } else if ch == 'F' {
        m.at(0, sat_sub(y, p1))
    } else if ch == 'G' {
        m.at(min_int(sat_sub(p1, 1) as int, cols - 1) as u16, y)
    } else if ch == 'H' || ch == 'f' {
        let row = sat_sub(first_param(ps, 1), 1);
        let col = sat_sub(second_param(ps, 1), 1);
        m.at(min_int(col as int, cols - 1) as u16, min_int(row as int, rows - 1) as u16)
    } else if ch == 'J' {
        m.with_buffer(erase_display(b, first_param(ps, 0), x, y))
    } else if ch == 'K' {
        m.with_buffer(erase_line(b, first_param(ps, 0), x, y))
    } else if ch == 'L' {
        let bottom = b.actual_y(rows - 1);
        m.with_buffer(b.with_lines(insert_lines_rep(b.lines, ay, bottom, cols, p1 as nat)))
    } else if ch == 'M' {
        let bottom = b.actual_y(rows - 1);
        m.with_buffer(b.with_lines(delete_lines_rep(b.lines, ay, bottom, cols, p1 as nat)))
    } else if ch == 'P' {
        if 0 <= ay < b.lines.len() {
            m.with_buffer(map_line_cells(b, ay, delete_chars(b.lines[ay].cells, x as int, p1 as int, cols)))
        } else {
            m
        }
    } else if ch == 'S' {
        m.with_buffer(b.scroll_up(p1 as nat))
    } else if ch == 'T' {
        let top = b.actual_y(0);
        let bottom = b.actual_y(rows - 1);
        m.with_buffer(b.with_lines(scroll_down_rep(b.lines, top, bottom, cols, p1 as nat)))
    } else if ch == 'X' {
        if 0 <= ay < b.lines.len() {
            let cells = b.lines[ay].cells;
            let end = min_int(x + p1, cells.len() as int);
            m.with_buffer(map_line_cells(b, ay, blank_range(cells, x as int, end)))
        } else {
            m
        }
    } else if ch == '@' {
        if 0 <= ay < b.lines.len() {
            m.with_buffer(map_line_cells(b, ay, insert_blanks(b.lines[ay].cells, x as int, p1 as int)))
        } else {
            m
        }
    } else if ch == 'd' {
        m.at(x, min_int(sat_sub(p1, 1) as int, rows - 1) as u16)
    } else if ch == 'm' {
        m.with_parser(ParserModel { attrs: apply_sgr(m.parser.attrs, ps), ..m.parser })
    } else {
        m
    }
}

/// The final character `ch` with parameters `ps` does not make the parser
/// fail (an arithmetic overflow, an empty screen, or an index out of range).
pub open spec fn csi_dispatch_ok(m: TermModel, ch: char, ps: Seq<u16>) -> bool {
    let b = m.buffer;
    let x = m.x;
    let y = m.y;
    let rows = b.rows;
    let cols = b.cols;
    let p1 = first_param(ps, 1);
    let ay = b.actual_y(y as int);
    if ch == 'B' || ch == 'E' {
        y + p1 <= u16::MAX && rows >= 1
    } else if ch == 'C' {
        x + p1 <= u16::MAX && cols >= 1
    } else if ch == 'G' {
        cols >= 1
    } else if ch == 'H' || ch == 'f' {
        rows >= 1 && cols >= 1
    } else if ch == 'J' {
        erase_display_ok(b, first_param(ps, 0), x, y)
    } else if ch == 'K' {
        erase_line_ok(b, first_param(ps, 0), x, y)
    } else if ch == 'L' {
        rows >= 1 && insert_lines_ok(b.lines, ay, b.actual_y(rows - 1), cols, p1 as nat)
    } else if ch == 'M' {
        rows >= 1 && delete_lines_ok(b.lines, ay, b.actual_y(rows - 1), cols, p1 as nat)
    } else if ch == 'P' || ch == 'X' {
        0 <= ay < b.lines.len() ==> (x as int) <= b.lines[ay].cells.len()
    } else if ch == 'S' {
        b.scroll_up_ok(p1 as nat)
    } else if ch == 'T' {
        rows >= 1 && scroll_down_ok(b.lines, b.actual_y(0), b.actual_y(rows - 1), cols, p1 as nat)
    } else if ch == '@' {
        0 <= ay < b.lines.len() ==> x + p1 <= b.lines[ay].cells.len()
    } else if ch == 'd' {
        rows >= 1
    } else {
        true
    }
}

/// The characters that end a control sequence and act on the terminal.
pub open spec fn is_csi_final(ch: char) -> bool {
    ch == 'A' || ch == 'B' || ch == 'C' || ch == 'D' || ch == 'E' || ch == 'F' || ch == 'G' || ch
        == 'H' || ch == 'f' || ch == 'J' || ch == 'K' || ch == 'L' || ch == 'M' || ch == 'P' || ch
        == 'S' || ch == 'T' || ch == 'X' || ch == '@' || ch == 'd' || ch == 'm'
}

/// The characters that end a control sequence that the terminal ignores.
pub open spec fn is_csi_ignored(ch: char) -> bool {
    ch == 'n' || ch == 'r' || ch == 's' || ch == 'u' || ch == 'h' || ch == 'l'
}

/// The parameter being written, if any, moved to the list of parameters.
pub open spec fn finish_params(p: ParserModel) -> ParserModel {
    if p.digits.len() > 0 {
        ParserModel { params: p.params.push(param_value(p.digits)), digits: Seq::empty(), ..p }
    } else {
        p
    }
}

// ---------------------------------------------------------------------------
// One character
// ---------------------------------------------------------------------------

/// A printable character written at the cursor, which then moves right,
/// wrapping to the next line and scrolling at the bottom of the screen.
pub open spec fn print_char(m: TermModel, ch: char) -> TermModel {
    let b = m.buffer;
    let cell = cell_with(m.parser.attrs, ch);
    let b1 = b.set_cell(m.x as int, b.actual_y(m.y as int), cell);
    let nx = m.x + 1;
    if nx >= b.cols {
        let ny = m.y + 1;
        if ny >= b.rows {
            m.with_buffer(b1.scroll_up(1)).at(0, (b.rows - 1) as u16)
        } else {
            m.with_buffer(b1).at(0, ny as u16)
        }
    } else {
        m.with_buffer(b1).at(nx as u16, m.y)
    }
}

pub open spec fn print_char_ok(m: TermModel, ch: char) -> bool {
    let b = m.buffer;
    let b1 = b.set_cell(m.x as int, b.actual_y(m.y as int), cell_with(m.parser.attrs, ch));
    &&& m.x + 1 <= u16::MAX
    &&& m.x + 1 >= b.cols ==> {
        &&& m.y + 1 <= u16::MAX
        &&& m.y + 1 >= b.rows ==> b.rows >= 1 && b1.scroll_up_ok(1)
    }
}

pub open spec fn ground_step(m: TermModel, ch: char) -> TermModel {
    let b = m.buffer;
    if ch == '\x1b' {
        m.with_parser(
            ParserModel {
                state: ParserState::Escape,
                params: Seq::empty(),
                digits: Seq::empty(),
                ..m.parser
            },
        )
    } else if ch == '\r' {
        m.at(0, m.y)
    } else if ch == '\n' {
        let ny = min_int(m.y + 1, b.rows - 1);
        if ny == b.rows - 1 {
            m.with_buffer(b.scroll_up(1)).at(m.x, (b.rows - 1) as u16)
        } else {
            m.at(m.x, ny as u16)
        }
    } else if ch == '\t' {
        let tab_stop = (m.x / 8 + 1) * 8;
        m.at(min_int(tab_stop, b.cols - 1) as u16, m.y)
    } else if ch == '\x08' {
        if m.x > 0 { m.at((m.x - 1) as u16, m.y) } else { m }
    } else if ch == '\x07' || is_control(ch) {
        m
    } else {
        print_char(m, ch)
    }
}

pub open spec fn ground_step_ok(m: TermModel, ch: char) -> bool {
    let b = m.buffer;
    if ch == '\x1b' || ch == '\r' {
        true
    } else if ch == '\n' {
        &&& m.y + 1 <= u16::MAX
        &&& b.rows >= 1
        &&& min_int(m.y + 1, b.rows - 1) == b.rows - 1 ==> b.scroll_up_ok(1)
    } else if ch == '\t' {
        (m.x / 8 + 1) * 8 <= u16::MAX && b.cols >= 1
    } else if ch == '\x08' || ch == '\x07' || is_control(ch) {
        true
    } else {
        print_char_ok(m, ch)
    }
}

pub open spec fn escape_step(m: TermModel, ch: char) -> TermModel {
    if ch == '[' {
        m.with_parser(
            ParserModel {
                state: ParserState::Csi,
                params: Seq::empty(),
                digits: Seq::empty(),
                ..m.parser
            },
        )
    } else if ch == ']' {
        m.with_state(ParserState::Osc)
    } else if ch == 'M' {
        let ny: u16 = if m.y > 0 { (m.y - 1) as u16 } else { m.y };
        m.at(m.x, ny).with_state(ParserState::Ground)
    } else if ch == 'c' {
        m.with_buffer(m.buffer.cleared()).at(0, 0).with_state(ParserState::Ground)
    } else {
        m.with_state(ParserState::Ground)
    }
}

pub open spec fn csi_step(m: TermModel, ch: char) -> TermModel {
    let p = m.parser;
    if is_ascii_digit(ch) {
        m.with_parser(ParserModel { digits: p.digits.push(ch), ..p })
    } else if ch == ';' {
        m.with_parser(
            ParserModel { params: p.params.push(param_value(p.digits)), digits: Seq::empty(), ..p },
        )
    } else if is_csi_final(ch) {
        let fp = finish_params(p);
        csi_dispatch(m.with_parser(fp), ch, fp.params).with_state(ParserState::Ground)
    } else if is_csi_ignored(ch) {
        m.with_parser(
            ParserModel {
                state: ParserState::Ground,
                params: Seq::empty(),
                digits: Seq::empty(),
                ..p
            },
        )
    } else if ch == '?' {
        m.with_parser(ParserModel { digits: Seq::empty(), ..p })
    } else {
        m.with_state(ParserState::Ground)
    }
}

pub open spec fn csi_step_ok(m: TermModel, ch: char) -> bool {
    is_csi_final(ch) ==> {
        let fp = finish_params(m.parser);
        csi_dispatch_ok(m.with_parser(fp), ch, fp.params)
    }
}

/// The effect of one input character.
#[verifier::opaque]
pub open spec fn step(m: TermModel, ch: char) -> TermModel {
    match m.parser.state {
        ParserState::Ground => ground_step(m, ch),
        ParserState::Escape => escape_step(m, ch),
        ParserState::Csi => csi_step(m, ch),
        ParserState::Osc => if ch == '\x07' { m.with_state(ParserState::Ground) } else { m },
    }
}

/// One input character does not make the parser fail.
#[verifier::opaque]
pub open spec fn step_ok(m: TermModel, ch: char) -> bool {
    match m.parser.state {
        ParserState::Ground => ground_step_ok(m, ch),
        ParserState::Csi => csi_step_ok(m, ch),
        _ => true,
    }
}

/// The effect of a whole input, character after character.
pub open spec fn run(m: TermModel, input: Seq<char>) -> TermModel
    decreases input.len(),
{
    if input.len() == 0 {
        m
    } else {
        step(run(m, input.drop_last()), input.last())
    }
}

/// No character of the input makes the parser fail.
pub open spec fn run_ok(m: TermModel, input: Seq<char>) -> bool
    decreases input.len(),
{
    input.len() == 0 || (run_ok(m, input.drop_last()) && step_ok(run(m, input.drop_last()), input.last()))
}

} // verus!
