use super::buffer::{blank_cells, blank_line, blank_range, Buffer, BufferModel, Line, LineModel};
use super::lines::{group_lines_view, lines_view};
use super::semantics::{
    apply_sgr, cell_with, clear_rows, csi_dispatch, csi_dispatch_ok, delete_line_once,
    delete_line_once_ok, delete_lines_ok, delete_lines_rep, default_attrs, digits_value,
    erase_display, erase_display_ok, erase_line, erase_line_ok, finish_params, first_param,
    insert_line_once, insert_line_once_ok, insert_lines_ok, insert_lines_rep, is_ascii_digit,
    map_line_cells, min_int, param_value, sat_sub, scroll_down_ok, scroll_down_once,
    scroll_down_once_ok, scroll_down_rep, second_param, sgr_one, sgr_seq, TermModel,
    delete_chars, insert_blanks, print_char, print_char_ok, ground_step, ground_step_ok,
    escape_step, csi_step, csi_step_ok, is_csi_final, is_csi_ignored, is_control, step, step_ok,
    run, run_ok,
};
use super::laws::{lemma_csi_ok_wf, lemma_ground_ok_wf, term_wf};
use super::{blank_cell, Cell, Direction};
use vstd::prelude::*;

verus! {

broadcast use group_lines_view;

/// Where the parser is within an escape sequence.
#[derive(Debug, Clone, Copy, PartialEq, Eq, Structural)]
pub enum ParserState {
    /// Plain text.
    Ground,
    /// After `ESC`.
    Escape,
    /// Inside a control sequence (`ESC [`).
    Csi,
    /// Inside an operating system command (`ESC ]`), up to `BEL`.
    Osc,
}

/// The display attributes that the parser gives to new characters.
#[derive(Debug, Clone, Copy, PartialEq, Eq, Structural)]
pub struct Attrs {
    pub fg: u8,
    pub bg: u8,
    pub bold: bool,
    pub italic: bool,
    pub underline: bool,
    pub dim: bool,
    pub reverse: bool,
    pub strikethrough: bool,
}

/// A parser as a value.
pub struct ParserModel {
    pub state: ParserState,
    /// The parameters read so far in the current control sequence.
    pub params: Seq<u16>,
    /// The digits of the parameter being read.
    pub digits: Seq<char>,
    pub attrs: Attrs,
}

/// The VT100/xterm escape-sequence parser.
#[derive(Debug)]
pub struct Parser {
    state: ParserState,
    params: Vec<u16>,
    current_param: Vec<char>,
    /// Current SGR attributes active for new characters
    pub fg: u8,
    pub bg: u8,
    pub bold: bool,
    pub italic: bool,
    pub underline: bool,
    pub dim: bool,
    pub reverse: bool,
    pub strikethrough: bool,
}

impl View for Parser {
    type V = ParserModel;

    closed spec fn view(&self) -> ParserModel {
        ParserModel {
            state: self.state,
            params: self.params@,
            digits: self.current_param@,
            attrs: Attrs {
                fg: self.fg,
                bg: self.bg,
                bold: self.bold,
                italic: self.italic,
                underline: self.underline,
                dim: self.dim,
                reverse: self.reverse,
                strikethrough: self.strikethrough,
            },
        }
    }
}

impl Clone for Parser {
    /// A copy of the parser: the same state, parameters and attributes.
    fn clone(&self) -> (r: Self)
        ensures
            r@ == self@,
    {
        let mut params: Vec<u16> = Vec::new();
        let mut i: usize = 0;
        while i < self.params.len()
            invariant
                i <= self.params@.len(),
                params@ == self.params@.take(i as int),
            decreases self.params@.len() - i,
        {
            params.push(self.params[i]);
            assert(params@ =~= self.params@.take(i as int + 1));
            i = i + 1;
        }
        let mut digits: Vec<char> = Vec::new();
        let mut j: usize = 0;
        while j < self.current_param.len()
            invariant
                j <= self.current_param@.len(),
                digits@ == self.current_param@.take(j as int),
            decreases self.current_param@.len() - j,
        {
            digits.push(self.current_param[j]);
            assert(digits@ =~= self.current_param@.take(j as int + 1));
            j = j + 1;
        }
        assert(params@ =~= self.params@);
        assert(digits@ =~= self.current_param@);
        Parser {
            state: self.state,
            params,
            current_param: digits,
            fg: self.fg,
            bg: self.bg,
            bold: self.bold,
            italic: self.italic,
            underline: self.underline,
            dim: self.dim,
            reverse: self.reverse,
            strikethrough: self.strikethrough,
        }
    }
}

/// The state of a new parser: plain text, no parameter, default attributes.
pub open spec fn initial_parser() -> ParserModel {
    ParserModel {
        state: ParserState::Ground,
        params: Seq::empty(),
        digits: Seq::empty(),
        attrs: default_attrs(),
    }
}

/// The number the decimal digits write, capped at 65536.
pub open spec fn capped_value(d: Seq<char>) -> nat {
    let v = digits_value(d);
    if v > 65536 { 65536 } else { v }
}

proof fn lemma_capped_step(d: Seq<char>)
    requires
        d.len() > 0,
        is_ascii_digit(d.last()),
    ensures
        capped_value(d) == {
            let c = capped_value(d.drop_last()) * 10 + ((d.last() as int - '0' as int) as nat);
            if c > 65536 { 65536 } else { c }
        },
{
    let v = digits_value(d.drop_last());
    let dig = (d.last() as int - '0' as int) as nat;
    assert(digits_value(d) == v * 10 + dig);
    if v > 65536 {
        assert(v * 10 + dig > 65536) by (nonlinear_arith)
            requires
                v > 65536,
        ;
        assert(65536 * 10 + dig > 65536) by (nonlinear_arith);
    }
}

/// The value of a parameter as the parser reads it (see `param_value`).
fn read_param(digits: &Vec<char>) -> (r: u16)
    ensures
        r == param_value(digits@),
{
    let n = digits.len();
    let mut all_digits = true;
    let mut value: u32 = 0;
    let mut i: usize = 0;
    while i < n
        invariant
            n == digits@.len(),
            i <= n,
            all_digits == (forall|j: int| 0 <= j < i ==> is_ascii_digit(#[trigger] digits@[j])),
            all_digits ==> value == capped_value(digits@.take(i as int)),
            value <= 65536,
        decreases n - i,
    {
        let c = digits[i];
        if '0' <= c && c <= '9' {
            if all_digits {
                proof {
                    let t = digits@.take(i as int + 1);
                    assert(t.drop_last() =~= digits@.take(i as int));
                    lemma_capped_step(t);
                }
                let d = (c as u32) - ('0' as u32);
                let next = value * 10 + d;
                value = if next > 65536 { 65536 } else { next };
            }
        } else {
            all_digits = false;
        }
        i = i + 1;
    }
    assert(digits@.take(n as int) =~= digits@);
    if n > 0 && all_digits && value <= 65535 {
        value as u16
    } else {
        0
    }
}

impl Parser {
    /// A parser in plain-text state with the default attributes.
    pub fn new() -> (p: Self)
        ensures
            p@ == initial_parser(),
    {
        Parser {
            state: ParserState::Ground,
            params: Vec::new(),
            current_param: Vec::new(),
            fg: 7,
            bg: 0,
            bold: false,
            italic: false,
            underline: false,
            dim: false,
            reverse: false,
            strikethrough: false,
        }
    }

    /// The attributes currently given to new characters.
    pub fn attrs(&self) -> (a: Attrs)
        ensures
            a == self@.attrs,
    {
        Attrs {
            fg: self.fg,
            bg: self.bg,
            bold: self.bold,
            italic: self.italic,
            underline: self.underline,
            dim: self.dim,
            reverse: self.reverse,
            strikethrough: self.strikethrough,
        }
    }

    fn reset_attrs(&mut self)
        ensures
            final(self)@ == (ParserModel { attrs: default_attrs(), ..old(self)@ }),
    {
        self.fg = 7;
        self.bg = 0;
        self.bold = false;
        self.italic = false;
        self.underline = false;
        self.dim = false;
        self.reverse = false;
        self.strikethrough = false;
    }

    fn sgr_param(&mut self, p: u16)
        ensures
            final(self)@ == (ParserModel { attrs: sgr_one(old(self)@.attrs, p), ..old(self)@ }),
    {
        match p {
            0 => self.reset_attrs(),
            1 => self.bold = true,
            2 => self.dim = true,
            3 => self.italic = true,
            4 => self.underline = true,
            7 => self.reverse = true,
            9 => self.strikethrough = true,
            22 => {
                self.bold = false;
                self.dim = false;
            },
            23 => self.italic = false,
            24 => self.underline = false,
            27 => self.reverse = false,
            29 => self.strikethrough = false,
            30..=37 => self.fg = (p - 30) as u8,
            39 => self.fg = 7,
            40..=47 => self.bg = (p - 40) as u8,
            49 => self.bg = 0,
            90..=97 => self.fg = (p - 90 + 8) as u8,
            100..=107 => self.bg = (p - 100 + 8) as u8,
            _ => {},
        }
    }

    /// Select Graphic Rendition: applies the parameters in order; none resets.
    fn apply_sgr(&mut self, params: &[u16])
        ensures
            final(self)@ == (ParserModel { attrs: apply_sgr(old(self)@.attrs, params@), ..old(self)@ }),
    {
        if params.len() == 0 {
            self.reset_attrs();
            return;
        }
        let mut i: usize = 0;
        while i < params.len()
            invariant
                i <= params@.len(),
                self@ == (ParserModel { attrs: sgr_seq(old(self)@.attrs, params@.take(i as int)), ..old(self)@ }),
            decreases params@.len() - i,
        {
            proof {
                assert(params@.take(i as int + 1).drop_last() =~= params@.take(i as int));
            }
            self.sgr_param(params[i]);
            i += 1;
        }
        assert(params@.take(params@.len() as int) =~= params@);
    }

    /// Moves the parameter being read, if any, to the list of parameters.
    fn push_final_param(&mut self)
        ensures
            final(self)@ == finish_params(old(self)@),
    {
        if self.current_param.len() > 0 {
            let param = read_param(&self.current_param);
            self.params.push(param);
            self.current_param.clear();
        }
    }

    /// A cell holding `ch` with the current attributes.
    fn make_cell(&self, ch: char) -> (c: Cell)
        ensures
            c == cell_with(self@.attrs, ch),
    {
        Cell {
            ch,
            fg: self.fg,
            bg: self.bg,
            bold: self.bold,
            italic: self.italic,
            underline: self.underline,
            dim: self.dim,
            reverse: self.reverse,
            strikethrough: self.strikethrough,
            direction: Direction::LTR,
        }
    }
}

/// The state made of a parser, a buffer and a cursor position.
pub open spec fn term(p: ParserModel, b: BufferModel, x: u16, y: u16) -> TermModel {
    TermModel { parser: p, buffer: b, x, y }
}

/// Clearing a line keeps the number of lines, the dimensions and the width
/// of every line.
proof fn lemma_clear_line_shape(b: BufferModel, y: int)
    ensures
        b.clear_line(y).lines.len() == b.lines.len(),
        b.clear_line(y).rows == b.rows,
        b.clear_line(y).cols == b.cols,
        b.clear_line(y).scrollback == b.scrollback,
        forall|i: int| 0 <= i < b.lines.len() ==> #[trigger] b.clear_line(y).lines[i].cells.len()
            == b.lines[i].cells.len(),
{
}

proof fn lemma_clear_rows_shape(b: BufferModel, from: int, to: int)
    ensures
        clear_rows(b, from, to).lines.len() == b.lines.len(),
        clear_rows(b, from, to).rows == b.rows,
        clear_rows(b, from, to).cols == b.cols,
        clear_rows(b, from, to).scrollback == b.scrollback,
        forall|i: int| 0 <= i < b.lines.len() ==> #[trigger] clear_rows(b, from, to).lines[i].cells.len()
            == b.lines[i].cells.len(),
    decreases to - from,
{
    if to > from {
        lemma_clear_rows_shape(b, from, to - 1);
        lemma_clear_line_shape(clear_rows(b, from, to - 1), b.actual_y(to - 1));
    }
}

proof fn lemma_insert_lines_ok_prefix(lines: Seq<LineModel>, ay: int, bottom: int, cols: u16, k: nat, n: nat)
    requires
        k <= n,
        insert_lines_ok(lines, ay, bottom, cols, n),
    ensures
        insert_lines_ok(lines, ay, bottom, cols, k),
    decreases n - k,
{
    if k < n {
        lemma_insert_lines_ok_prefix(lines, ay, bottom, cols, k, (n - 1) as nat);
    }
}

proof fn lemma_delete_lines_ok_prefix(lines: Seq<LineModel>, ay: int, bottom: int, cols: u16, k: nat, n: nat)
    requires
        k <= n,
        delete_lines_ok(lines, ay, bottom, cols, n),
    ensures
        delete_lines_ok(lines, ay, bottom, cols, k),
    decreases n - k,
{
    if k < n {
        lemma_delete_lines_ok_prefix(lines, ay, bottom, cols, k, (n - 1) as nat);
    }
}

proof fn lemma_scroll_down_ok_prefix(lines: Seq<LineModel>, top: int, bottom: int, cols: u16, k: nat, n: nat)
    requires
        k <= n,
        scroll_down_ok(lines, top, bottom, cols, n),
    ensures
        scroll_down_ok(lines, top, bottom, cols, k),
    decreases n - k,
{
    if k < n {
        lemma_scroll_down_ok_prefix(lines, top, bottom, cols, k, (n - 1) as nat);
    }
}

/// Makes rows `from <= r < to` of the visible screen blank.
fn clear_rows_exec(buffer: &mut Buffer, from: usize, to: usize)
    ensures
        final(buffer)@ == clear_rows(old(buffer)@, from as int, to as int),
{
    let mut r = from;
    while r < to
        invariant
            from <= r,
            r <= to || r == from,
            buffer@ == clear_rows(old(buffer)@, from as int, r as int),
        decreases to - r,
    {
        proof {
            lemma_clear_rows_shape(old(buffer)@, from as int, r as int);
        }
        let ay = buffer.actual_y(r);
        buffer.clear_line(ay);
        r = r + 1;
    }
}

/// Replaces the cells of line `ay` of the buffer with blank cells over `lo..hi`.
fn blank_line_span(buffer: &mut Buffer, ay: usize, lo: usize, hi: usize)
    requires
        ay < old(buffer).lines@.len(),
        hi <= old(buffer).lines@[ay as int].cells@.len(),
    ensures
        final(buffer)@ == map_line_cells(
            old(buffer)@,
            ay as int,
            blank_range(old(buffer)@.lines[ay as int].cells, lo as int, hi as int),
        ),
{
    buffer.lines[ay].blank_span(lo, hi);
    assert(buffer@.lines =~= map_line_cells(
        old(buffer)@,
        ay as int,
        blank_range(old(buffer)@.lines[ay as int].cells, lo as int, hi as int),
    ).lines);
}

/// Erase in display (`ESC [ n J`).
fn erase_display_exec(buffer: &mut Buffer, mode: u16, x: u16, y: u16)
    requires
        erase_display_ok(old(buffer)@, mode, x, y),
    ensures
        final(buffer)@ == erase_display(old(buffer)@, mode, x, y),
{
    let ghost b = buffer@;
    if mode == 0 {
        let ay = buffer.actual_y(y as usize);
        if ay < buffer.lines.len() {
            let len = buffer.lines[ay].cells.len();
            blank_line_span(buffer, ay, x as usize, len);
        }
        let rows = buffer.rows as usize;
        clear_rows_exec(buffer, y as usize + 1, rows);
    } else if mode == 1 {
        clear_rows_exec(buffer, 0, y as usize);
        proof {
            lemma_clear_rows_shape(b, 0, y as int);
        }
        let ay = buffer.actual_y(y as usize);
        if ay < buffer.lines.len() {
            assert(buffer@.lines[ay as int] == buffer.lines@[ay as int]@);
            assert(b.lines[ay as int].cells.len() == buffer@.lines[ay as int].cells.len());
            blank_line_span(buffer, ay, 0, x as usize + 1);
        }
    } else if mode == 2 {
        let rows = buffer.rows as usize;
        clear_rows_exec(buffer, 0, rows);
    } else if mode == 3 {
        let top = buffer.lines.len().saturating_sub(buffer.rows as usize);
        if top > 0 {
            let rest = buffer.lines.split_off(top);
            buffer.lines = rest;
            assert(buffer@.lines =~= b.lines.skip(top as int));
        }
    }
}

/// Erase in line (`ESC [ n K`).
fn erase_line_exec(buffer: &mut Buffer, mode: u16, x: u16, y: u16)
    requires
        erase_line_ok(old(buffer)@, mode, x, y),
    ensures
        final(buffer)@ == erase_line(old(buffer)@, mode, x, y),
{
    let ay = buffer.actual_y(y as usize);
    if ay < buffer.lines.len() {
        if mode == 0 {
            let len = buffer.lines[ay].cells.len();
            blank_line_span(buffer, ay, x as usize, len);
        } else if mode == 1 {
            blank_line_span(buffer, ay, 0, x as usize + 1);
        } else if mode == 2 {
            buffer.clear_line(ay);
        }
    }
}

/// Insert lines (`ESC [ n L`).
fn insert_lines_exec(buffer: &mut Buffer, ay: usize, bottom: usize, n: u16)
    requires
        insert_lines_ok(old(buffer)@.lines, ay as int, bottom as int, old(buffer).cols, n as nat),
    ensures
        final(buffer)@ == old(buffer)@.with_lines(
            insert_lines_rep(old(buffer)@.lines, ay as int, bottom as int, old(buffer).cols, n as nat),
        ),
{
    let cols = buffer.cols;
    let mut k: u16 = 0;
    while k < n
        invariant
            k <= n,
            buffer@ == old(buffer)@.with_lines(
                insert_lines_rep(old(buffer)@.lines, ay as int, bottom as int, cols, k as nat),
            ),
            cols == old(buffer).cols,
            insert_lines_ok(old(buffer)@.lines, ay as int, bottom as int, cols, n as nat),
        decreases n - k,
    {
        proof {
            lemma_insert_lines_ok_prefix(old(buffer)@.lines, ay as int, bottom as int, cols, (k + 1) as nat, n as nat);
        }
        let ghost before = buffer.lines@;
        if ay <= bottom {
            let new_line = Line::new(cols);
            buffer.lines.insert(ay, new_line);
            if bottom + 1 < buffer.lines.len() {
                buffer.lines.remove(bottom + 1);
            }
        }
        assert(buffer@.lines =~= insert_line_once(lines_view(before), ay as int, bottom as int, cols));
        k = k + 1;
    }
}

/// Delete lines (`ESC [ n M`).
fn delete_lines_exec(buffer: &mut Buffer, ay: usize, bottom: usize, n: u16)
    requires
        delete_lines_ok(old(buffer)@.lines, ay as int, bottom as int, old(buffer).cols, n as nat),
    ensures
        final(buffer)@ == old(buffer)@.with_lines(
            delete_lines_rep(old(buffer)@.lines, ay as int, bottom as int, old(buffer).cols, n as nat),
        ),
{
    let cols = buffer.cols;
    let mut k: u16 = 0;
    while k < n
        invariant
            k <= n,
            buffer@ == old(buffer)@.with_lines(
                delete_lines_rep(old(buffer)@.lines, ay as int, bottom as int, cols, k as nat),
            ),
            cols == old(buffer).cols,
            delete_lines_ok(old(buffer)@.lines, ay as int, bottom as int, cols, n as nat),
        decreases n - k,
    {
        proof {
            lemma_delete_lines_ok_prefix(old(buffer)@.lines, ay as int, bottom as int, cols, (k + 1) as nat, n as nat);
        }
        let ghost before = buffer.lines@;
        if ay <= bottom && ay < buffer.lines.len() {
            buffer.lines.remove(ay);
            let new_line = Line::new(cols);
            buffer.lines.insert(bottom, new_line);
        }
        assert(buffer@.lines =~= delete_line_once(lines_view(before), ay as int, bottom as int, cols));
        k = k + 1;
    }
}

/// Scroll down (`ESC [ n T`).
fn scroll_down_exec(buffer: &mut Buffer, top: usize, bottom: usize, n: u16)
    requires
        scroll_down_ok(old(buffer)@.lines, top as int, bottom as int, old(buffer).cols, n as nat),
    ensures
        final(buffer)@ == old(buffer)@.with_lines(
            scroll_down_rep(old(buffer)@.lines, top as int, bottom as int, old(buffer).cols, n as nat),
        ),
{
    let cols = buffer.cols;
    let mut k: u16 = 0;
    while k < n
        invariant
            k <= n,
            buffer@ == old(buffer)@.with_lines(
                scroll_down_rep(old(buffer)@.lines, top as int, bottom as int, cols, k as nat),
            ),
            cols == old(buffer).cols,
            scroll_down_ok(old(buffer)@.lines, top as int, bottom as int, cols, n as nat),
        decreases n - k,
    {
        proof {
            lemma_scroll_down_ok_prefix(old(buffer)@.lines, top as int, bottom as int, cols, (k + 1) as nat, n as nat);
        }
        let ghost before = buffer.lines@;
        let new_line = Line::new(cols);
        buffer.lines.insert(top, new_line);
        if bottom + 1 < buffer.lines.len() {
            buffer.lines.remove(bottom + 1);
        }
        assert(buffer@.lines =~= scroll_down_once(lines_view(before), top as int, bottom as int, cols));
        k = k + 1;
    }
}

fn min_u16(a: u16, b: u16) -> (r: u16)
    ensures
        r == min_int(a as int, b as int),
{
    if a <= b { a } else { b }
}

/// A prefix of an input on which the parser does not fail is one too.
pub proof fn lemma_run_ok_prefix(m: TermModel, s: Seq<char>, k: int)
    requires
        run_ok(m, s),
        0 <= k <= s.len(),
    ensures
        run_ok(m, s.take(k)),
    decreases s.len() - k,
{
    if k == s.len() {
        assert(s.take(k) =~= s);
    } else {
        lemma_run_ok_prefix(m, s.drop_last(), k);
        assert(s.drop_last().take(k) =~= s.take(k));
    }
}

impl Parser {
    /// The effect of the final character `ch` of a control sequence, with
    /// the parameters read so far.
    fn csi_dispatch(&mut self, buffer: &mut Buffer, ch: char, x: u16, y: u16) -> (r: (u16, u16))
        requires
            csi_dispatch_ok(term(old(self)@, old(buffer)@, x, y), ch, old(self)@.params),
        ensures
            term(final(self)@, final(buffer)@, r.0, r.1) == csi_dispatch(
                term(old(self)@, old(buffer)@, x, y),
                ch,
                old(self)@.params,
            ),
    {
        let p1: u16 = if self.params.len() > 0 { self.params[0] } else { 1 };
        let rows = buffer.rows;
        let cols = buffer.cols;
        match ch {
            'A' => (x, y.saturating_sub(p1)),
            'B' => (x, min_u16(y + p1, rows - 1)),
            'C' => (min_u16(x + p1, cols - 1), y),
            'D' => (x.saturating_sub(p1), y),
            'E' => (0, min_u16(y + p1, rows - 1)),
            'F' => (0, y.saturating_sub(p1)),
            'G' => (min_u16(p1.saturating_sub(1), cols - 1), y),
            'H' | 'f' => {
                let row = (if self.params.len() > 0 { self.params[0] } else { 1 }).saturating_sub(1);
                let col = (if self.params.len() > 1 { self.params[1] } else { 1 }).saturating_sub(1);
                let ny = min_u16(row, rows - 1);
                let nx = min_u16(col, cols - 1);
                (nx, ny)
            },
            'J' => {
                let mode: u16 = if self.params.len() > 0 { self.params[0] } else { 0 };
                erase_display_exec(buffer, mode, x, y);
                (x, y)
            },
            'K' => {
                let mode: u16 = if self.params.len() > 0 { self.params[0] } else { 0 };
                erase_line_exec(buffer, mode, x, y);
                (x, y)
            },
            'L' => {
                let ay = buffer.actual_y(y as usize);
                let bottom = buffer.actual_y(rows as usize - 1);
                insert_lines_exec(buffer, ay, bottom, p1);
                (x, y)
            },
            'M' => {
                let ay = buffer.actual_y(y as usize);
                let bottom = buffer.actual_y(rows as usize - 1);
                delete_lines_exec(buffer, ay, bottom, p1);
                (x, y)
            },
            'P' => {
                let ay = buffer.actual_y(y as usize);
                if ay < buffer.lines.len() {
                    let ghost b = buffer@;
                    assert(b.lines[ay as int] == buffer.lines@[ay as int]@);
                    buffer.lines[ay].delete_cells(x as usize, p1 as usize, cols);
                    assert(buffer@.lines =~= map_line_cells(
                        b,
                        ay as int,
                        delete_chars(b.lines[ay as int].cells, x as int, p1 as int, cols),
                    ).lines);
                }
                (x, y)
            },
            'S' => {
                buffer.scroll_up(p1 as usize);
                (x, y)
            },
            'T' => {
                let top = buffer.actual_y(0);
                let bottom = buffer.actual_y(rows as usize - 1);
                scroll_down_exec(buffer, top, bottom, p1);
                (x, y)
            },
            'X' => {
                let ay = buffer.actual_y(y as usize);
                if ay < buffer.lines.len() {
                    assert(buffer@.lines[ay as int] == buffer.lines@[ay as int]@);
                    let len = buffer.lines[ay].cells.len();
                    let end = if (x as usize) + (p1 as usize) < len { (x as usize) + (p1 as usize) } else { len };
                    blank_line_span(buffer, ay, x as usize, end);
                }
                (x, y)
            },
            '@' => {
                let ay = buffer.actual_y(y as usize);
                if ay < buffer.lines.len() {
                    let ghost b = buffer@;
                    assert(b.lines[ay as int] == buffer.lines@[ay as int]@);
                    buffer.lines[ay].insert_blank_cells(x as usize, p1 as usize);
                    assert(buffer@.lines =~= map_line_cells(
                        b,
                        ay as int,
                        insert_blanks(b.lines[ay as int].cells, x as int, p1 as int),
                    ).lines);
                }
                (x, y)
            },
            'd' => (x, min_u16(p1.saturating_sub(1), rows - 1)),
            'm' => {
                let mut params: Vec<u16> = Vec::new();
                core::mem::swap(&mut params, &mut self.params);
                self.apply_sgr(params.as_slice());
                core::mem::swap(&mut params, &mut self.params);
                (x, y)
            },
            _ => (x, y),
        }
    }

    /// One character in plain-text state.
    fn step_ground(&mut self, buffer: &mut Buffer, ch: char, x: u16, y: u16) -> (r: (u16, u16))
        requires
            old(self)@.state == ParserState::Ground,
            ground_step_ok(term(old(self)@, old(buffer)@, x, y), ch),
        ensures
            term(final(self)@, final(buffer)@, r.0, r.1) == ground_step(term(old(self)@, old(buffer)@, x, y), ch),
    {
        if ch == '\x1b' {
            self.state = ParserState::Escape;
            self.params.clear();
            self.current_param.clear();
            (x, y)
        } else if ch == '\r' {
            (0, y)
        } else if ch == '\n' {
            let rows = buffer.rows;
            let ny = min_u16(y + 1, rows - 1);
            if ny == rows - 1 {
                buffer.scroll_up(1);
                (x, rows - 1)
            } else {
                (x, ny)
            }
        } else if ch == '\t' {
            let tab_stop = (x / 8 + 1) * 8;
            (min_u16(tab_stop, buffer.cols - 1), y)
        } else if ch == '\x08' {
            if x > 0 { (x - 1, y) } else { (x, y) }
        } else if ch == '\x07' {
            (x, y)
        } else if (ch as u32) <= 0x1F || (0x7F <= (ch as u32) && (ch as u32) <= 0x9F) {
            (x, y)
        } else {
            let rows = buffer.rows;
            let cols = buffer.cols;
            let cell = self.make_cell(ch);
            let actual_y = buffer.actual_y(y as usize);
            buffer.set_cell(x as usize, actual_y, cell);
            let nx = x + 1;
            if nx >= cols {
                let ny = y + 1;
                if ny >= rows {
                    buffer.scroll_up(1);
                    (0, rows - 1)
                } else {
                    (0, ny)
                }
            } else {
                (nx, y)
            }
        }
    
    }

    /// One character after `ESC`.
    fn step_escape(&mut self, buffer: &mut Buffer, ch: char, x: u16, y: u16) -> (r: (u16, u16))
        requires
            old(self)@.state == ParserState::Escape,
        ensures
            term(final(self)@, final(buffer)@, r.0, r.1) == escape_step(term(old(self)@, old(buffer)@, x, y), ch),
    {
        match ch {
            '[' => {
                self.state = ParserState::Csi;
                self.params.clear();
                self.current_param.clear();
                (x, y)
            },
            ']' => {
                self.state = ParserState::Osc;
                (x, y)
            },
            'M' => {
                self.state = ParserState::Ground;
                if y > 0 { (x, y - 1) } else { (x, y) }
            },
            'c' => {
                buffer.clear();
                self.state = ParserState::Ground;
                (0, 0)
            },
            _ => {
                self.state = ParserState::Ground;
                (x, y)
            },
        }
    
    }

    /// One character inside a control sequence.
    fn step_csi(&mut self, buffer: &mut Buffer, ch: char, x: u16, y: u16) -> (r: (u16, u16))
        requires
            old(self)@.state == ParserState::Csi,
            csi_step_ok(term(old(self)@, old(buffer)@, x, y), ch),
        ensures
            term(final(self)@, final(buffer)@, r.0, r.1) == csi_step(term(old(self)@, old(buffer)@, x, y), ch),
    {
        if '0' <= ch && ch <= '9' {
            self.current_param.push(ch);
            (x, y)
        } else if ch == ';' {
            let param = read_param(&self.current_param);
            self.params.push(param);
            self.current_param.clear();
            (x, y)
        } else if ch == 'A' || ch == 'B' || ch == 'C' || ch == 'D' || ch == 'E' || ch == 'F'
            || ch == 'G' || ch == 'H' || ch == 'f' || ch == 'J' || ch == 'K' || ch == 'L'
            || ch == 'M' || ch == 'P' || ch == 'S' || ch == 'T' || ch == 'X' || ch == '@'
            || ch == 'd' || ch == 'm' {
            self.push_final_param();
            let r = self.csi_dispatch(buffer, ch, x, y);
            self.state = ParserState::Ground;
            r
        } else if ch == 'n' || ch == 'r' || ch == 's' || ch == 'u' || ch == 'h' || ch == 'l' {
            self.current_param.clear();
            self.params.clear();
            self.state = ParserState::Ground;
            (x, y)
        } else if ch == '?' {
            self.current_param.clear();
            (x, y)
        } else {
            self.state = ParserState::Ground;
            (x, y)
        }
    
    }

    /// The effect of one input character.
    pub(crate) fn step(&mut self, buffer: &mut Buffer, ch: char, x: u16, y: u16) -> (r: (u16, u16))
        requires
            step_ok(term(old(self)@, old(buffer)@, x, y), ch),
        ensures
            term(final(self)@, final(buffer)@, r.0, r.1) == step(term(old(self)@, old(buffer)@, x, y), ch),
    {
        proof {
            reveal(step);
            reveal(step_ok);
        }
        match self.state {
            ParserState::Ground => self.step_ground(buffer, ch, x, y),
            ParserState::Escape => self.step_escape(buffer, ch, x, y),
            ParserState::Csi => self.step_csi(buffer, ch, x, y),
            ParserState::Osc => {
                if ch == '\x07' {
                    self.state = ParserState::Ground;
                }
                (x, y)
            },
        }
    }

    /// The first parameter of the control sequence being read, counting the
    /// one still being written, or 1 when there is none.
    fn final_first_param(&self) -> (p: u16)
        ensures
            p == first_param(finish_params(self@).params, 1),
    {
        if self.params.len() > 0 {
            self.params[0]
        } else if self.current_param.len() > 0 {
            read_param(&self.current_param)
        } else {
            1
        }
    }

    /// Whether the character `ch`, read with the cursor at (`x`, `y`), is one
    /// on which the parser does not fail.
    pub(crate) fn step_accepted(&self, buffer: &Buffer, ch: char, x: u16, y: u16) -> (ok: bool)
        requires
            term_wf(term(self@, buffer@, x, y)),
        ensures
            ok == step_ok(term(self@, buffer@, x, y), ch),
    {
        let ghost m = term(self@, buffer@, x, y);
        proof {
            reveal(step_ok);
        }
        match self.state {
            ParserState::Ground => {
                proof {
                    lemma_ground_ok_wf(m, ch);
                }
                if ch == '\t' {
                    let stop: u32 = (x as u32 / 8 + 1) * 8;
                    stop <= 65535
                } else {
                    true
                }
            },
            ParserState::Csi => {
                proof {
                    lemma_csi_ok_wf(m, ch);
                }
                let p1 = self.final_first_param();
                if ch == 'B' || ch == 'E' {
                    y as u32 + p1 as u32 <= 65535
                } else if ch == 'C' {
                    x as u32 + p1 as u32 <= 65535
                } else if ch == '@' {
                    x as u32 + p1 as u32 <= buffer.cols as u32
                } else {
                    true
                }
            },
            _ => true,
        }
    }

    /// Feeds `input` to the parser: text is written into `buffer` at the
    /// cursor (`cursor_x`, `cursor_y`), and escape sequences move the cursor,
    /// edit the buffer or change the attributes of new text. An escape
    /// sequence may be split over several calls.
    pub fn parse(&mut self, buffer: &mut Buffer, input: &str, cursor_x: &mut u16, cursor_y: &mut u16)
        requires
            run_ok(term(old(self)@, old(buffer)@, *old(cursor_x), *old(cursor_y)), input@),
        ensures
            term(final(self)@, final(buffer)@, *final(cursor_x), *final(cursor_y)) == run(
                term(old(self)@, old(buffer)@, *old(cursor_x), *old(cursor_y)),
                input@,
            ),
    {
        let ghost m0 = term(self@, buffer@, *cursor_x, *cursor_y);
        proof {
            assert(input@.take(0) =~= Seq::<char>::empty());
        }
        for ch in it: input.chars()
            invariant
                it.seq() == input@,
                run_ok(m0, input@),
                term(self@, buffer@, *cursor_x, *cursor_y) == run(m0, input@.take(it.index() as int)),
        {
            let ghost k = it.index() as int;
            proof {
                lemma_run_ok_prefix(m0, input@, k + 1);
                assert(input@.take(k + 1).drop_last() =~= input@.take(k));
            }
            let (nx, ny) = self.step(buffer, ch, *cursor_x, *cursor_y);
            *cursor_x = nx;
            *cursor_y = ny;
        }
        proof {
            assert(input@.take(input@.len() as int) =~= input@);
        }
    }
}

} // verus!
