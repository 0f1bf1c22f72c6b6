use omniconsole::terminal::buffer::{Buffer, Line};
use omniconsole::terminal::parser::Parser;
use omniconsole::terminal::{Cell, Cursor, Direction, Screen};

fn row_text(buffer: &Buffer, row: usize) -> String {
    let y = buffer.actual_y(row);
    buffer.lines[y].cells.iter().map(|c| c.ch).collect()
}

fn feed(screen: &mut Screen, input: &str) {
    screen.process_input(input);
}

#[test]
fn new_buffer_is_rows_of_blank_cells() {
    let b = Buffer::new(4, 3, 10);
    assert_eq!(b.lines.len(), 3);
    assert_eq!(b.cols, 4);
    assert_eq!(b.rows, 3);
    assert_eq!(b.scrollback, 10);
    for line in &b.lines {
        assert_eq!(line.cells.len(), 4);
        assert_eq!(line.direction, Direction::LTR);
        assert!(line.cells.iter().all(|c| *c == Cell::default()));
    }
}

#[test]
fn blank_cell_and_cursor_defaults() {
    let c = Cell::default();
    assert_eq!(c.ch, ' ');
    assert_eq!(c.fg, 7);
    assert_eq!(c.bg, 0);
    assert!(!c.bold && !c.italic && !c.underline && !c.dim && !c.reverse && !c.strikethrough);
    assert_eq!(c.direction, Direction::LTR);
    assert_eq!(Direction::default(), Direction::Auto);
    assert_eq!(Cursor::default(), Cursor { x: 0, y: 0, visible: true, blink: true });
}

#[test]
fn printing_moves_the_cursor() {
    let mut s = Screen::new(10, 3, 5);
    feed(&mut s, "ab");
    assert_eq!(row_text(&s.buffer, 0), "ab        ");
    assert_eq!((s.cursor.x, s.cursor.y), (2, 0));
}

#[test]
fn printing_wraps_at_the_right_edge() {
    let mut s = Screen::new(3, 3, 5);
    feed(&mut s, "abcd");
    assert_eq!(row_text(&s.buffer, 0), "abc");
    assert_eq!(row_text(&s.buffer, 1), "d  ");
    assert_eq!((s.cursor.x, s.cursor.y), (1, 1));
}

#[test]
fn wrapping_on_the_last_row_scrolls() {
    let mut s = Screen::new(2, 2, 5);
    feed(&mut s, "abcde");
    // "ab" on row 0, "cd" on row 1, then "e" wraps past the bottom.
    assert_eq!(s.buffer.lines.len(), 3);
    assert_eq!(row_text(&s.buffer, 0), "cd");
    assert_eq!(row_text(&s.buffer, 1), "e ");
    assert_eq!((s.cursor.x, s.cursor.y), (1, 1));
}

#[test]
fn newline_reaching_the_last_row_scrolls() {
    let mut s = Screen::new(4, 3, 5);
    feed(&mut s, "a\n");
    assert_eq!(s.cursor.y, 1);
    assert_eq!(s.buffer.lines.len(), 3);
    feed(&mut s, "\n");
    // Moving onto the last row scrolls the buffer once.
    assert_eq!(s.cursor.y, 2);
    assert_eq!(s.buffer.lines.len(), 4);
}

#[test]
fn scrollback_is_bounded() {
    let mut s = Screen::new(4, 2, 3);
    for _ in 0..20 {
        feed(&mut s, "x\r\n");
    }
    assert_eq!(s.buffer.lines.len(), 5);
    assert!(s.buffer.lines.iter().all(|l| l.cells.len() == 4));
}

#[test]
fn carriage_return_tab_and_backspace() {
    let mut s = Screen::new(20, 2, 0);
    feed(&mut s, "abc\rX");
    assert_eq!(&row_text(&s.buffer, 0)[..3], "Xbc");
    feed(&mut s, "\tY");
    assert_eq!(s.buffer.lines[0].cells[8].ch, 'Y');
    assert_eq!(s.cursor.x, 9);
    feed(&mut s, "\x08\x08Z");
    assert_eq!(s.buffer.lines[0].cells[7].ch, 'Z');
    feed(&mut s, "\x07\x01");
    assert_eq!(s.cursor.x, 8);
}

#[test]
fn tab_stops_at_the_last_column() {
    let mut s = Screen::new(10, 2, 0);
    feed(&mut s, "\t\t");
    assert_eq!(s.cursor.x, 9);
}

#[test]
fn sgr_sets_and_resets_attributes() {
    let mut s = Screen::new(10, 2, 0);
    feed(&mut s, "\x1b[1;3;4;31;42mA");
    let c = s.buffer.lines[0].cells[0];
    assert_eq!(c.ch, 'A');
    assert!(c.bold && c.italic && c.underline);
    assert_eq!((c.fg, c.bg), (1, 2));
    feed(&mut s, "\x1b[22;39;49mB");
    let c = s.buffer.lines[0].cells[1];
    assert!(!c.bold && c.italic);
    assert_eq!((c.fg, c.bg), (7, 0));
    feed(&mut s, "\x1b[mC");
    assert_eq!(s.buffer.lines[0].cells[2], Cell { ch: 'C', ..Cell::default() });
    feed(&mut s, "\x1b[95;104;2;7;9mD");
    let c = s.buffer.lines[0].cells[3];
    assert_eq!((c.fg, c.bg), (13, 12));
    assert!(c.dim && c.reverse && c.strikethrough);
    feed(&mut s, "\x1b[0mE");
    assert_eq!(s.buffer.lines[0].cells[4], Cell { ch: 'E', ..Cell::default() });
    assert_eq!((s.parser.fg, s.parser.bg), (7, 0));
}

#[test]
fn cursor_position_and_moves() {
    let mut s = Screen::new(20, 10, 0);
    feed(&mut s, "\x1b[5;10H");
    assert_eq!((s.cursor.x, s.cursor.y), (9, 4));
    feed(&mut s, "\x1b[2A");
    assert_eq!(s.cursor.y, 2);
    feed(&mut s, "\x1b[3B");
    assert_eq!(s.cursor.y, 5);
    feed(&mut s, "\x1b[4C");
    assert_eq!(s.cursor.x, 13);
    feed(&mut s, "\x1b[D");
    assert_eq!(s.cursor.x, 12);
    feed(&mut s, "\x1b[99A\x1b[99D");
    assert_eq!((s.cursor.x, s.cursor.y), (0, 0));
    feed(&mut s, "\x1b[99B\x1b[99C");
    assert_eq!((s.cursor.x, s.cursor.y), (19, 9));
    feed(&mut s, "\x1b[3F");
    assert_eq!((s.cursor.x, s.cursor.y), (0, 6));
    feed(&mut s, "\x1b[2E");
    assert_eq!((s.cursor.x, s.cursor.y), (0, 8));
    feed(&mut s, "\x1b[7G");
    assert_eq!(s.cursor.x, 6);
    feed(&mut s, "\x1b[4d");
    assert_eq!(s.cursor.y, 3);
    feed(&mut s, "\x1b[H");
    assert_eq!((s.cursor.x, s.cursor.y), (0, 0));
    feed(&mut s, "\x1b[3;4f");
    assert_eq!((s.cursor.x, s.cursor.y), (3, 2));
}

#[test]
fn a_parameter_too_large_reads_as_zero() {
    let mut s = Screen::new(20, 2, 0);
    feed(&mut s, "ab\x1b[70000C");
    assert_eq!(s.cursor.x, 2);
    feed(&mut s, "\x1b[65535D");
    assert_eq!(s.cursor.x, 0);
}

#[test]
fn reverse_index_moves_up() {
    let mut s = Screen::new(5, 3, 0);
    feed(&mut s, "\n\x1bM");
    assert_eq!(s.cursor.y, 0);
    feed(&mut s, "\x1bM");
    assert_eq!(s.cursor.y, 0);
}

#[test]
fn full_reset_clears_and_homes() {
    let mut s = Screen::new(5, 3, 10);
    feed(&mut s, "ab\r\ncd\r\nef\r\ngh\x1bc");
    assert_eq!((s.cursor.x, s.cursor.y), (0, 0));
    assert_eq!(s.buffer.lines.len(), 3);
    assert!(s.buffer.lines.iter().all(|l| l.cells.iter().all(|c| *c == Cell::default())));
}

#[test]
fn erase_in_line() {
    let mut s = Screen::new(6, 2, 0);
    feed(&mut s, "abcdef\x1b[1;3H\x1b[K");
    assert_eq!(row_text(&s.buffer, 0), "ab    ");
    feed(&mut s, "\x1b[1;1Habcdef\x1b[1;3H\x1b[1K");
    assert_eq!(row_text(&s.buffer, 0), "   def");
    feed(&mut s, "\x1b[2K");
    assert_eq!(row_text(&s.buffer, 0), "      ");
}

#[test]
fn erase_in_display() {
    let mut s = Screen::new(4, 3, 5);
    feed(&mut s, "abc\x1b[2;1Hdef\x1b[3;1Hghi\x1b[2;2H\x1b[J");
    assert_eq!(row_text(&s.buffer, 0), "abc ");
    assert_eq!(row_text(&s.buffer, 1), "d   ");
    assert_eq!(row_text(&s.buffer, 2), "    ");
    feed(&mut s, "\x1b[1;1Habc\x1b[2;1Hdef\x1b[2;2H\x1b[1J");
    assert_eq!(row_text(&s.buffer, 0), "    ");
    assert_eq!(row_text(&s.buffer, 1), "  f ");
    feed(&mut s, "\x1b[1;1Hxyz\x1b[2J");
    assert!((0..3).all(|r| row_text(&s.buffer, r) == "    "));
}

#[test]
fn erase_scrollback() {
    let mut s = Screen::new(3, 2, 5);
    feed(&mut s, "a\r\nb\r\nc\r\nd");
    assert!(s.buffer.lines.len() > 2);
    feed(&mut s, "\x1b[3J");
    assert_eq!(s.buffer.lines.len(), 2);
}

#[test]
fn insert_and_delete_characters() {
    let mut s = Screen::new(8, 1, 0);
    feed(&mut s, "abcdef\x1b[1;3H\x1b[2@");
    assert_eq!(row_text(&s.buffer, 0), "ab  cdef");
    feed(&mut s, "\x1b[2P");
    assert_eq!(row_text(&s.buffer, 0), "abcdef  ");
    feed(&mut s, "\x1b[1;2H\x1b[2X");
    assert_eq!(row_text(&s.buffer, 0), "a  def  ");
    assert_eq!(s.buffer.lines[0].cells.len(), 8);
}

#[test]
fn insert_and_delete_lines() {
    let mut s = Screen::new(3, 3, 0);
    feed(&mut s, "aa\x1b[2;1Hbb\x1b[3;1Hcc\x1b[2;1H\x1b[L");
    assert_eq!(row_text(&s.buffer, 0), "aa ");
    assert_eq!(row_text(&s.buffer, 1), "   ");
    assert_eq!(row_text(&s.buffer, 2), "bb ");
    feed(&mut s, "\x1b[M");
    assert_eq!(row_text(&s.buffer, 1), "bb ");
    assert_eq!(row_text(&s.buffer, 2), "   ");
    assert_eq!(s.buffer.lines.len(), 3);
}

#[test]
fn scroll_up_and_down() {
    let mut s = Screen::new(3, 3, 0);
    feed(&mut s, "aa\x1b[2;1Hbb\x1b[3;1Hcc\x1b[T");
    assert_eq!(row_text(&s.buffer, 0), "   ");
    assert_eq!(row_text(&s.buffer, 1), "aa ");
    assert_eq!(row_text(&s.buffer, 2), "bb ");
    feed(&mut s, "\x1b[2S");
    assert_eq!(row_text(&s.buffer, 0), "bb ");
    assert_eq!(row_text(&s.buffer, 1), "   ");
}

#[test]
fn osc_is_skipped_until_bell() {
    let mut s = Screen::new(10, 2, 0);
    feed(&mut s, "\x1b]0;title\x07X");
    assert_eq!(row_text(&s.buffer, 0), "X         ");
}

#[test]
fn ignored_sequences_leave_the_screen() {
    let mut s = Screen::new(10, 2, 0);
    feed(&mut s, "\x1b[?25l\x1b[?1049h\x1b[6nA\x1b[1;2rB\x1b[sC\x1b[uD\x1bZE\x1b[zF");
    assert_eq!(row_text(&s.buffer, 0), "ABCDEF    ");
}

#[test]
fn split_escape_sequence_matches_whole() {
    let mut a = Screen::new(10, 3, 0);
    feed(&mut a, "\x1b[3");
    feed(&mut a, "1;1");
    feed(&mut a, "mX\x1b");
    feed(&mut a, "[2;3HY");
    let mut b = Screen::new(10, 3, 0);
    feed(&mut b, "\x1b[31;1mX\x1b[2;3HY");
    for i in 0..3 {
        assert_eq!(a.buffer.lines[i].cells, b.buffer.lines[i].cells);
    }
    assert_eq!(a.cursor, b.cursor);
    assert_eq!(a.buffer.lines[0].cells[0].fg, 1);
    assert_eq!(a.buffer.lines[1].cells[2].ch, 'Y');
}

#[test]
fn lines_get_their_direction() {
    let mut s = Screen::new(10, 3, 5);
    feed(&mut s, "hello\r\nمرحبا\r\n   ");
    assert_eq!(s.buffer.lines.len(), 4);
    assert_eq!(s.buffer.lines[0].direction, Direction::LTR);
    assert_eq!(s.buffer.lines[1].direction, Direction::RTL);
    assert_eq!(s.buffer.lines[3].direction, Direction::LTR);
}

#[test]
fn parser_on_its_own() {
    let mut p = Parser::new();
    let mut b = Buffer::new(5, 2, 0);
    let (mut x, mut y) = (0u16, 0u16);
    p.parse(&mut b, "\x1b[1mhi", &mut x, &mut y);
    assert_eq!((x, y), (2, 0));
    assert!(b.lines[0].cells[0].bold && p.bold);
    assert_eq!(b.lines[0].cells[1].ch, 'i');
}

#[test]
fn screen_resize_clamps_the_cursor() {
    let mut s = Screen::new(10, 5, 2);
    feed(&mut s, "\x1b[5;10H");
    s.resize(4, 3);
    assert_eq!((s.cursor.x, s.cursor.y), (3, 2));
    assert_eq!(s.buffer.lines.len(), 3);
    assert!(s.buffer.lines.iter().all(|l| l.cells.len() == 4));
    s.resize(6, 4);
    assert_eq!(s.buffer.lines.len(), 4);
    assert!(s.buffer.lines.iter().all(|l| l.cells.len() == 6));
    s.set_rtl_mode(true);
    assert!(s.rtl_mode);
}

#[test]
fn buffer_line_operations() {
    let mut b = Buffer::new(3, 2, 1);
    b.set_cell(1, 0, Cell { ch: 'q', ..Cell::default() });
    assert_eq!(b.get_line(0).unwrap().cells[1].ch, 'q');
    b.set_cell(9, 0, Cell { ch: 'z', ..Cell::default() });
    b.set_cell(0, 9, Cell { ch: 'z', ..Cell::default() });
    assert!(b.get_line(5).is_none());
    b.clear_line(0);
    assert_eq!(b.lines[0].cells[1], Cell::default());
    b.get_line_mut(1).unwrap().set_cell(2, Cell { ch: 'w', ..Cell::default() });
    assert_eq!(b.lines[1].cells[2].ch, 'w');
    b.scroll_up(5);
    assert_eq!(b.lines.len(), 3);
    assert_eq!(b.actual_y(0), 1);
    b.clear();
    assert_eq!(b.lines.len(), 2);
    let mut l = Line::new(2);
    l.resize(4);
    assert_eq!(l.cells.len(), 4);
    l.set_cell(3, Cell { ch: 'k', ..Cell::default() });
    l.resize(1);
    assert_eq!(l.cells.len(), 1);
    l.clear();
    assert_eq!(l.cells[0], Cell::default());
}

#[test]
fn accepts_ordinary_output() {
    let screen = Screen::new(80, 24, 100);
    assert!(screen.accepts_input("hello\r\nworld\t!\x1b[31mred\x1b[0m\x1b[2J\x1b[5;10H"));
    assert!(screen.accepts_input("\x1b[3L\x1b[2M\x1b[4S\x1b[2T\x1b[10P\x1b[10X\x1b[5@"));
    assert!(screen.accepts_input(""));
    assert!(screen.accepts_input("\x1b[65535A\x1b[65535D\x1b[999;999H"));
}

#[test]
fn refuses_output_that_would_overflow() {
    let screen = Screen::new(80, 24, 100);
    // More blanks than the line holds after the cursor.
    assert!(!screen.accepts_input("\x1b[100@"));
    assert!(screen.accepts_input("\x1b[80@"));
    assert!(!screen.accepts_input("\x1b[10G\x1b[72@"));
    assert!(screen.accepts_input("\x1b[10G\x1b[71@"));
    // Moves down or right past what the cursor position can hold.
    assert!(screen.accepts_input("\x1b[65535B"));
    assert!(!screen.accepts_input("\x1b[2;1H\x1b[65535B"));
    assert!(!screen.accepts_input("\x1b[1;2H\x1b[65535C"));
    assert!(screen.accepts_input("\x1b[65535C"));
    assert!(!screen.accepts_input("\x1b[3;1H\x1b[65534E"));
    // A failure later in the input refuses the whole input.
    assert!(!screen.accepts_input("fine so far\x1b[100@"));
}

#[test]
fn refuses_a_tab_past_the_last_stop() {
    let mut screen = Screen::new(65535, 2, 0);
    assert!(screen.accepts_input("\t"));
    screen.cursor.x = 65527;
    assert!(screen.accepts_input("\t"));
    screen.cursor.x = 65528;
    assert!(!screen.accepts_input("\t"));
}

#[test]
fn checking_leaves_the_screen_unchanged() {
    let mut screen = Screen::new(10, 3, 5);
    feed(&mut screen, "abc");
    let before = row_text(&screen.buffer, 0);
    assert!(screen.accepts_input("\x1b[2Jxyz\r\n\r\n\r\n"));
    assert_eq!(row_text(&screen.buffer, 0), before);
    assert_eq!((screen.cursor.x, screen.cursor.y), (3, 0));
}

#[test]
fn clone_copies_the_screen() {
    let mut screen = Screen::new(10, 3, 5);
    feed(&mut screen, "ab\x1b[1m");
    let copy = screen.clone();
    feed(&mut screen, "cd");
    assert_eq!(row_text(&copy.buffer, 0).trim_end(), "ab");
    assert_eq!(row_text(&screen.buffer, 0).trim_end(), "abcd");
    assert_eq!((copy.cursor.x, copy.cursor.y), (2, 0));
    assert!(copy.parser.bold);
}

#[test]
fn split_output_with_rtl_lines_matches_whole() {
    let whole = "مرحبا\r\nhello\r\nسلام world\r\n\x1b[1Lend\x1b[2;1H\x1b[K";
    let mut a = Screen::new(12, 3, 4);
    feed(&mut a, whole);
    for cut in [1usize, 3, 7, 12, 20] {
        let chars: Vec<char> = whole.chars().collect();
        let first: String = chars[..cut].iter().collect();
        let second: String = chars[cut..].iter().collect();
        let mut b = Screen::new(12, 3, 4);
        feed(&mut b, &first);
        feed(&mut b, &second);
        assert_eq!(a.buffer.lines.len(), b.buffer.lines.len());
        for i in 0..a.buffer.lines.len() {
            assert_eq!(a.buffer.lines[i].cells, b.buffer.lines[i].cells);
            assert_eq!(a.buffer.lines[i].direction, b.buffer.lines[i].direction);
        }
        assert_eq!(a.cursor, b.cursor);
    }
}

#[test]
fn sgr_codes_apply_left_to_right() {
    let attrs_after = |input: &str| {
        let mut s = Screen::new(10, 2, 0);
        feed(&mut s, input);
        s.parser.attrs()
    };
    assert_eq!(attrs_after("\x1b[31;32m").fg, 2);
    assert!(!attrs_after("\x1b[1;0m").bold);
    let a = attrs_after("\x1b[1;31;0;4;97;101m");
    assert_eq!((a.fg, a.bg), (15, 9));
    assert!(a.underline && !a.bold && !a.italic && !a.dim && !a.reverse && !a.strikethrough);
    // Two sequences set what one sequence with both lists sets.
    assert_eq!(attrs_after("\x1b[1;31m\x1b[0;4;97;101m"), a);
    assert_eq!(attrs_after("\x1b[31m\x1b[32m"), attrs_after("\x1b[31;32m"));
}

#[test]
fn a_run_keeps_the_dimensions() {
    let mut s = Screen::new(12, 4, 3);
    feed(&mut s, "line\r\n\x1b[2J\x1bc\x1b[5S\x1b[3T\x1b[2L\x1b[3M\x1b[3J\r\n\r\n\r\n\r\n\r\n");
    assert_eq!((s.buffer.cols, s.buffer.rows, s.buffer.scrollback), (12, 4, 3));
    assert!(s.buffer.lines.len() >= 4 && s.buffer.lines.len() <= 7);
    assert!(s.buffer.lines.iter().all(|l| l.cells.len() == 12));
    assert!(s.cursor.x < 12 && s.cursor.y < 4);
}
