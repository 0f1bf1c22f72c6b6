use omniconsole::bidi::detector::{contains_rtl_markers, is_rtl_char, is_whitespace_char, rtl_letter_counts, count_letters};
use omniconsole::bidi::reorder::{auto_order_pairs, get_display_cells, rtl_order_pairs, shape_with_text};
use omniconsole::bidi::{cells_are_blank, cells_have_rtl, BidiAnalyzer};
use omniconsole::terminal::{Cell, Direction};

fn cells_of(text: &str) -> Vec<Cell> {
    text.chars().map(|ch| Cell { ch, ..Default::default() }).collect()
}

fn is_permutation(positions: &[usize], n: usize) -> bool {
    let mut seen = vec![false; n];
    for &p in positions {
        if p >= n || seen[p] {
            return false;
        }
        seen[p] = true;
    }
    positions.len() == n
}

#[test]
fn rtl_ranges() {
    for ch in ['\u{0600}', '\u{06FF}', '\u{0750}', '\u{08A0}', '\u{FB50}', '\u{FDFF}', '\u{FE70}',
        '\u{FEFF}', '\u{0590}', '\u{05FF}', '\u{FB1D}', '\u{0700}', '\u{0780}', '\u{07C0}',
        '\u{0800}', '\u{0840}', '\u{085F}'] {
        assert!(is_rtl_char(ch), "{:?}", ch);
    }
    for ch in ['\u{058F}', '\u{0860}', '\u{077F}' as char, 'z', '1', ' ', '\u{FB4F}'] {
        let expected = ch == '\u{077F}' || ch == '\u{FB4F}';
        assert_eq!(is_rtl_char(ch), expected, "{:?}", ch);
    }
}

#[test]
fn rtl_markers_in_text() {
    assert!(!contains_rtl_markers("hello, world"));
    assert!(contains_rtl_markers("say مرحبا"));
    assert!(contains_rtl_markers("שלום"));
    assert!(!contains_rtl_markers(""));
}

#[test]
fn whitespace_and_blank_lines() {
    assert!(is_whitespace_char(' '));
    assert!(is_whitespace_char('\u{3000}'));
    assert!(!is_whitespace_char('a'));
    assert!(cells_are_blank(&cells_of("  \t ")));
    assert!(cells_are_blank(&[]));
    assert!(!cells_are_blank(&cells_of(" a ")));
    assert!(cells_have_rtl(&cells_of("ab ج")));
    assert!(!cells_have_rtl(&cells_of("abc")));
}

#[test]
fn analyzer_finds_line_direction() {
    let a = BidiAnalyzer::new();
    assert_eq!(a.analyze_line(&cells_of("hello")), Direction::LTR);
    assert_eq!(a.analyze_line(&cells_of("hi سلام")), Direction::RTL);
    assert_eq!(a.analyze_line(&cells_of("    ")), Direction::LTR);
    assert_eq!(a.analyze_line(&[]), Direction::LTR);
    assert_eq!(BidiAnalyzer::default().analyze_line(&cells_of("א")), Direction::RTL);
}

#[test]
fn ltr_display_keeps_logical_order() {
    let cells = cells_of("abc");
    let d = get_display_cells(&cells, Direction::LTR);
    assert_eq!(d.len(), 3);
    for (i, c) in d.iter().enumerate() {
        assert_eq!(c.visual_position, i);
        assert_eq!(c.logical_position, i);
        assert_eq!(c.cell, cells[i]);
        assert_eq!(c.direction, Direction::LTR);
    }
}

#[test]
fn rtl_display_reverses_arabic() {
    let cells = cells_of("العر");
    let d = get_display_cells(&cells, Direction::RTL);
    let logical: Vec<usize> = d.iter().map(|c| c.logical_position).collect();
    assert_eq!(logical, vec![3, 2, 1, 0]);
    // Shaped letters: final Reh is shown first, isolated Alef last.
    assert_eq!(d[0].cell.ch, '\u{FEAE}');
    assert_eq!(d[3].cell.ch, '\u{FE8D}');
}

#[test]
fn auto_display_keeps_plain_english() {
    let cells = cells_of("hello world");
    let d = get_display_cells(&cells, Direction::Auto);
    let logical: Vec<usize> = d.iter().map(|c| c.logical_position).collect();
    assert_eq!(logical, (0..11).collect::<Vec<_>>());
}

#[test]
fn mixed_line_is_a_permutation() {
    let cells = cells_of("abc سلام 12");
    for dir in [Direction::LTR, Direction::RTL, Direction::Auto] {
        let d = get_display_cells(&cells, dir);
        let logical: Vec<usize> = d.iter().map(|c| c.logical_position).collect();
        assert!(is_permutation(&logical, cells.len()), "{:?} {:?}", dir, logical);
    }
    let d = get_display_cells(&cells, Direction::Auto);
    // The English run stays first and in order.
    assert_eq!(&d.iter().map(|c| c.logical_position).collect::<Vec<_>>()[..3], &[0, 1, 2]);
}

#[test]
fn ligatures_leave_the_cells_unshaped() {
    // "سلام" reshapes into 3 characters (a Lam-Alef ligature): the 4 cells
    // keep their own characters.
    let cells = cells_of("سلام");
    let d = get_display_cells(&cells, Direction::LTR);
    assert_eq!(d.len(), 4);
    for (i, c) in d.iter().enumerate() {
        assert_eq!(c.cell.ch, cells[i].ch);
    }
}

#[test]
fn blank_and_empty_lines() {
    assert!(get_display_cells(&[], Direction::RTL).is_empty());
    let cells = cells_of("   ");
    let d = get_display_cells(&cells, Direction::RTL);
    assert_eq!(d.iter().map(|c| c.logical_position).collect::<Vec<_>>(), vec![0, 1, 2]);
}

#[test]
fn forced_rtl_english_keeps_order() {
    // The bidi algorithm takes the paragraph direction from the text.
    let cells = cells_of("abc");
    let d = get_display_cells(&cells, Direction::RTL);
    assert_eq!(d.iter().map(|c| c.logical_position).collect::<Vec<_>>(), vec![0, 1, 2]);
}

#[test]
fn letter_counts_skip_digits_spaces_and_marks() {
    assert_eq!(rtl_letter_counts(""), (0, 0));
    assert_eq!(rtl_letter_counts("123 !?"), (0, 0));
    assert_eq!(rtl_letter_counts("abc سلام 123"), (4, 7));
    assert_eq!(rtl_letter_counts("שלום"), (4, 4));
    assert_eq!(rtl_letter_counts("Hello"), (0, 5));
}

fn positions(pairs: &[(usize, Cell)]) -> Vec<usize> {
    pairs.iter().map(|p| p.0).collect()
}

#[test]
fn rtl_order_is_followed_or_reversed() {
    let cells = cells_of("abcd");
    let r = rtl_order_pairs(&cells, &Some(vec![3, 2, 1, 0]));
    assert_eq!(positions(&r), vec![3, 2, 1, 0]);
    assert_eq!(r[0].1.ch, 'd');
    // Indices past the last cell (the order counts bytes) are skipped.
    let r = rtl_order_pairs(&cells, &Some(vec![5, 1, 4, 0, 3, 2]));
    assert_eq!(positions(&r), vec![1, 0, 3, 2]);
    // No paragraph: the logical order reversed.
    let r = rtl_order_pairs(&cells, &None);
    assert_eq!(positions(&r), vec![3, 2, 1, 0]);
    assert_eq!(r[3].1.ch, 'a');
}

#[test]
fn auto_order_keeps_logical_order_when_nothing_moves() {
    let cells = cells_of("abc");
    assert_eq!(positions(&auto_order_pairs(&cells, &Some(vec![0, 1, 2]))), vec![0, 1, 2]);
    assert_eq!(positions(&auto_order_pairs(&cells, &Some(vec![2, 1, 0]))), vec![2, 1, 0]);
    assert_eq!(positions(&auto_order_pairs(&cells, &Some(vec![0, 1, 2, 3]))), vec![0, 1, 2]);
    assert_eq!(positions(&auto_order_pairs(&cells, &None)), vec![0, 1, 2]);
}

#[test]
fn shaping_replaces_characters_only_one_for_one() {
    let cells = cells_of("abc");
    let shaped = shape_with_text(&cells, "xyz");
    assert_eq!(shaped.iter().map(|c| c.ch).collect::<String>(), "xyz");
    let kept = shape_with_text(&cells, "xy");
    assert_eq!(kept.iter().map(|c| c.ch).collect::<String>(), "abc");
    let mut bold = cells_of("ab");
    bold[1].bold = true;
    let shaped = shape_with_text(&bold, "pq");
    assert!(shaped[1].bold);
    assert_eq!(shaped[1].ch, 'q');
}

#[test]
fn letter_counts_follow_the_given_marks() {
    assert_eq!(count_letters("ab", &[true, true]), (0, 2));
    assert_eq!(count_letters("ab", &[false, true]), (0, 1));
    assert_eq!(count_letters("سa", &[true, true]), (1, 2));
    assert_eq!(count_letters("سa", &[false, true]), (0, 1));
    assert_eq!(count_letters("", &[]), (0, 0));
}

#[test]
fn a_joiner_leaves_the_line_unshaped() {
    let cells = cells_of("\u{200D}\u{0644}\u{0627}");
    for direction in [Direction::LTR, Direction::RTL, Direction::Auto] {
        let shown = get_display_cells(&cells, direction);
        assert_eq!(shown.len(), 3);
        let mut chars: Vec<char> = shown.iter().map(|d| d.cell.ch).collect();
        chars.sort();
        let mut expected: Vec<char> = "\u{200D}\u{0644}\u{0627}".chars().collect();
        expected.sort();
        assert_eq!(chars, expected);
    }
}

#[test]
fn order_is_found_on_unshaped_characters() {
    // Latin text, then Arabic: the Arabic letters come out reversed, each at
    // its character position, and shaped.
    let cells = cells_of("ab سلم");
    let shown = get_display_cells(&cells, Direction::LTR);
    let positions: Vec<usize> = shown.iter().map(|d| d.logical_position).collect();
    assert_eq!(positions, vec![0, 1, 2, 3, 4, 5]);
    let shown = get_display_cells(&cells, Direction::Auto);
    let positions: Vec<usize> = shown.iter().map(|d| d.logical_position).collect();
    assert_eq!(positions, vec![0, 1, 2, 5, 4, 3]);
    assert_ne!(shown[3].cell.ch, 'م');
    assert!(is_permutation(&positions, 6));
}
