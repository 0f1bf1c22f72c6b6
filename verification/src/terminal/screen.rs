use super::buffer::{Buffer, BufferModel};
use super::parser::{initial_parser, term, Parser};
use super::laws::{lemma_new_buffer_wf, lemma_resize_wf, lemma_run_wf, lemma_with_directions_wf, term_wf};
use super::parser::lemma_run_ok_prefix;
use super::split::processed;
use super::semantics::{min_int, run, run_ok, step_ok, TermModel};
use super::Cursor;
use vstd::prelude::*;

verus! {

/// The state of one terminal: its buffer, cursor, parser and whether the
/// user forced right-to-left display.
#[derive(Debug)]
pub struct Screen {
    pub buffer: Buffer,
    pub cursor: Cursor,
    pub parser: Parser,
    pub rtl_mode: bool,
}

impl Clone for Screen {
    /// A copy of the screen: the same buffer, cursor, parser and mode.
    fn clone(&self) -> (r: Self)
        ensures
            r.buffer@ == self.buffer@,
            r.cursor == self.cursor,
            r.parser@ == self.parser@,
            r.rtl_mode == self.rtl_mode,
    {
        Screen {
            buffer: self.buffer.clone(),
            cursor: self.cursor,
            parser: self.parser.clone(),
            rtl_mode: self.rtl_mode,
        }
    }
}

impl Screen {
    /// The parser, buffer and cursor position as one value.
    pub open spec fn term(&self) -> TermModel {
        term(self.parser@, self.buffer@, self.cursor.x, self.cursor.y)
    }

    /// A screen of `rows` blank lines, `cols` wide, keeping up to
    /// `scrollback` lines; the cursor is at the top left corner.
    pub fn new(cols: u16, rows: u16, scrollback: usize) -> (s: Self)
        requires
            rows + scrollback <= usize::MAX,
        ensures
            s.buffer@ == Buffer::new_model(cols, rows, scrollback),
            s.cursor == (Cursor { x: 0, y: 0, visible: true, blink: true }),
            s.parser@ == initial_parser(),
            !s.rtl_mode,
            cols >= 1 && rows >= 1 ==> term_wf(s.term()),
    {
        proof {
            lemma_new_buffer_wf(cols, rows, scrollback);
        }
        Screen {
            buffer: Buffer::new(cols, rows, scrollback),
            cursor: Cursor::default(),
            parser: Parser::new(),
            rtl_mode: false,
        }
    }

    /// Resizes the screen; the cursor is moved inside it.
    pub fn resize(&mut self, cols: u16, rows: u16)
        requires
            cols >= 1,
            rows >= 1,
        ensures
            final(self).buffer@ == old(self).buffer@.resized(cols, rows),
            final(self).cursor.x == min_int(old(self).cursor.x as int, cols - 1),
            final(self).cursor.y == min_int(old(self).cursor.y as int, rows - 1),
            final(self).cursor.visible == old(self).cursor.visible,
            final(self).cursor.blink == old(self).cursor.blink,
            final(self).parser@ == old(self).parser@,
            final(self).rtl_mode == old(self).rtl_mode,
            term_wf(old(self).term()) && old(self).buffer.scrollback + rows <= usize::MAX ==> term_wf(
                final(self).term(),
            ),
    {
        proof {
            if old(self).buffer@.wf() && old(self).buffer.scrollback + rows <= usize::MAX {
                lemma_resize_wf(old(self).buffer@, cols, rows);
            }
        }
        self.buffer.resize(cols, rows);
        self.cursor.x = if self.cursor.x <= cols - 1 { self.cursor.x } else { cols - 1 };
        self.cursor.y = if self.cursor.y <= rows - 1 { self.cursor.y } else { rows - 1 };
    }

    /// Feeds output of the shell to the terminal, then finds the direction
    /// of every line.
    pub fn process_input(&mut self, input: &str)
        requires
            run_ok(old(self).term(), input@),
        ensures
            ({
                let m = run(old(self).term(), input@);
                &&& final(self).parser@ == m.parser
                &&& final(self).buffer@ == m.buffer.with_directions()
                &&& final(self).cursor.x == m.x
                &&& final(self).cursor.y == m.y
            }),
            final(self).cursor.visible == old(self).cursor.visible,
            final(self).cursor.blink == old(self).cursor.blink,
            final(self).rtl_mode == old(self).rtl_mode,
            final(self).term() == processed(old(self).term(), input@),
            term_wf(old(self).term()) ==> term_wf(final(self).term()),
    {
        proof {
            if term_wf(old(self).term()) {
                let m = run(old(self).term(), input@);
                lemma_run_wf(old(self).term(), input@);
                lemma_with_directions_wf(m.buffer);
            }
        }
        self.parser.parse(&mut self.buffer, input, &mut self.cursor.x, &mut self.cursor.y);
        self.buffer.detect_directions();
    }

    /// Whether `input` is shell output on which the parser does not fail
    /// (see `run_ok`): the input is tried on a copy of the screen, which is
    /// left as it was.
    pub fn accepts_input(&self, input: &str) -> (ok: bool)
        requires
            term_wf(self.term()),
        ensures
            ok == run_ok(self.term(), input@),
    {
        let ghost m0 = self.term();
        let mut parser = self.parser.clone();
        let mut buffer = self.buffer.clone();
        let mut x = self.cursor.x;
        let mut y = self.cursor.y;
        proof {
            assert(input@.take(0) =~= Seq::<char>::empty());
        }
        for ch in it: input.chars()
            invariant
                it.seq() == input@,
                m0 == self.term(),
                term_wf(m0),
                term(parser@, buffer@, x, y) == run(m0, input@.take(it.index() as int)),
                run_ok(m0, input@.take(it.index() as int)),
        {
            let ghost k = it.index() as int;
            let ghost prefix = input@.take(k + 1);
            proof {
                assert(prefix.drop_last() =~= input@.take(k));
                assert(prefix.last() == ch);
                lemma_run_wf(m0, input@.take(k));
            }
            if !parser.step_accepted(&buffer, ch, x, y) {
                proof {
                    assert(!step_ok(run(m0, prefix.drop_last()), prefix.last()));
                    assert(!run_ok(m0, prefix));
                    if run_ok(m0, input@) {
                        lemma_run_ok_prefix(m0, input@, k + 1);
                    }
                }
                return false;
            }
            let (nx, ny) = parser.step(&mut buffer, ch, x, y);
            x = nx;
            y = ny;
        }
        proof {
            assert(input@.take(input@.len() as int) =~= input@);
        }
        true
    }

    /// Sets whether the screen is shown right-to-left whatever its lines hold.
    pub fn set_rtl_mode(&mut self, rtl: bool)
        ensures
            final(self).rtl_mode == rtl,
            final(self).buffer@ == old(self).buffer@,
            final(self).cursor == old(self).cursor,
            final(self).parser@ == old(self).parser@,
    {
        self.rtl_mode = rtl;
    }
}

/// Resizing puts the cursor on the new screen: a cursor that fits stays
/// where it is, one past the right or bottom edge moves to the last column
/// or row.
pub proof fn lemma_resize_cursor(x: u16, y: u16, cols: u16, rows: u16)
    requires
        cols >= 1,
        rows >= 1,
    ensures
        min_int(x as int, cols - 1) < cols,
        min_int(y as int, rows - 1) < rows,
        x < cols ==> min_int(x as int, cols - 1) == x,
        y < rows ==> min_int(y as int, rows - 1) == y,
        x >= cols ==> min_int(x as int, cols - 1) == cols - 1,
        y >= rows ==> min_int(y as int, rows - 1) == rows - 1,
{
}

} // verus!
