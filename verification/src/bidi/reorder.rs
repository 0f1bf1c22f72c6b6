use super::{cells_are_blank, spec_is_blank};
use crate::terminal::{Cell, Direction};
use unicode_bidi::BidiInfo;
use vstd::prelude::*;

verus! {

/// What `arabic_reshaper::arabic_reshape` returns for a text: the text with
/// its Arabic letters replaced by their contextual presentation forms.
pub uninterp spec fn spec_arabic_reshape(text: Seq<char>) -> Seq<char>;

/// The visual order that the `unicode-bidi` crate gives to a text read as
/// one line of its first paragraph, as indices of the text's characters
/// (`None` when the text has no paragraph).
pub uninterp spec fn spec_bidi_visual_order(text: Seq<char>) -> Option<Seq<usize>>;

/// Each of the indices `0..v.len()` occurs exactly once in `v`.
pub open spec fn is_index_permutation(v: Seq<usize>) -> bool {
    &&& forall|i: int| 0 <= i < v.len() ==> (#[trigger] v[i] as int) < v.len()
    &&& forall|i: int, j: int| 0 <= i < v.len() && 0 <= j < v.len() && i != j ==> v[i] != v[j]
    &&& forall|k: int| 0 <= k < v.len() ==> #[trigger] index_occurs(v, k)
}

/// `k` occurs in `v`.
pub open spec fn index_occurs(v: Seq<usize>, k: int) -> bool {
    exists|i: int| 0 <= i < v.len() && v[i] == k
}

/// `String::from_iter` over chars: the string made of the characters.
#[verifier::external_body]
pub(crate) fn string_from_chars(chars: &Vec<char>) -> (s: String)
    ensures
        s@ == chars@,
{
    String::from_iter(chars.iter())
}

/// The zero-width joiner, U+200D.
pub open spec fn is_joiner(c: char) -> bool {
    c == '\u{200D}'
}

/// Whether `arabic_reshaper` can reshape the text: it holds no zero-width
/// joiner. The reshaper drops joiners from its output but still places its
/// ligatures by the character positions of the text with them, and indexes
/// past the end of its output when a ligature follows a joiner.
pub open spec fn reshape_accepts(text: Seq<char>) -> bool {
    forall|i: int| 0 <= i < text.len() ==> !is_joiner(#[trigger] text[i])
}

/// `arabic_reshaper::arabic_reshape`, on a text without a zero-width joiner.
/// Its result is taken as a function of the text alone (`spec_arabic_reshape`,
/// the reshaper's configuration being built in); nothing more is claimed of
/// it.
#[verifier::external_body]
fn arabic_reshape(text: &str) -> (r: String)
    requires
        reshape_accepts(text@),
    ensures
        r@ == spec_arabic_reshape(text@),
{
    arabic_reshaper::arabic_reshape(text)
}

/// The visual order of a line, from `unicode_bidi`: `BidiInfo::new` with no
/// default paragraph level, then, for the first paragraph, the levels of the
/// whole text taken one per character (`BidiInfo::reordered_levels_per_char`)
/// reordered by `BidiInfo::reorder_visual`.
///
/// Claimed: the result is `spec_bidi_visual_order` of the text; a returned
/// order is a permutation of the indices of the text's characters (there is
/// one level per character, and `reorder_visual` starts from the identity
/// and only reverses ranges of it). Which permutation it is, is not stated.
#[verifier::external_body]
fn bidi_visual_order(text: &str) -> (r: Option<Vec<usize>>)
    ensures
        (match r {
            Some(v) => Some(v@),
            None => None,
        }) == spec_bidi_visual_order(text@),
        r matches Some(v) ==> is_index_permutation(v@) && v@.len() == text@.len(),
{
    let info = BidiInfo::new(text, None);
    match info.paragraphs.first() {
        Some(para) => Some(BidiInfo::reorder_visual(&info.reordered_levels_per_char(para, 0..text.len()))),
        None => None,
    }
}

/// The characters of the cells.
pub open spec fn cells_text(cells: Seq<Cell>) -> Seq<char> {
    cells.map_values(|c: Cell| c.ch)
}

/// The cells shaped for display: when the text can be reshaped and the
/// reshaped text has one character per cell, each cell takes the character
/// at its place, else the cells are kept as they are (a ligature would leave
/// the grid; a line with a zero-width joiner is not reshaped).
pub open spec fn spec_shape_cells(cells: Seq<Cell>) -> Seq<Cell> {
    if reshape_accepts(cells_text(cells)) {
        shape_with(cells, spec_arabic_reshape(cells_text(cells)))
    } else {
        cells
    }
}

/// The cells given the characters of `shaped`, when it has one character per
/// cell; else the cells unchanged.
pub open spec fn shape_with(cells: Seq<Cell>, shaped: Seq<char>) -> Seq<Cell> {
    if shaped.len() == cells.len() {
        Seq::new(cells.len(), |i: int| with_char(cells[i], shaped[i]))
    } else {
        cells
    }
}

/// Every cell with its logical position, in logical order.
pub open spec fn identity_pairs(cells: Seq<Cell>) -> Seq<(usize, Cell)> {
    Seq::new(cells.len(), |i: int| (i as usize, cells[i]))
}

/// The cells in the visual order `order`: the indices of `order` that are
/// positions of cells, each with its cell.
pub open spec fn visual_pairs(order: Seq<usize>, cells: Seq<Cell>) -> Seq<(usize, Cell)> {
    order.filter_map(pair_at(cells))
}

/// The position `i` with its cell, if `i` is a position of a cell.
pub open spec fn pair_at(cells: Seq<Cell>) -> spec_fn(usize) -> Option<(usize, Cell)> {
    |i: usize| pair_opt(cells, i)
}

pub open spec fn pair_opt(cells: Seq<Cell>, i: usize) -> Option<(usize, Cell)> {
    if (i as int) < cells.len() {
        Some((i, cells[i as int]))
    } else {
        None
    }
}

/// The cell `c` holding `ch` in place of its character.
pub open spec fn with_char(c: Cell, ch: char) -> Cell {
    Cell { ch, ..c }
}

/// `0, 1, ..., n - 1`.
pub open spec fn index_range(n: nat) -> Seq<usize> {
    Seq::new(n, |i: int| i as usize)
}

/// A line forced right-to-left: blank lines stay in logical order; else the
/// order of the bidi algorithm, or the logical order reversed when there is
/// no paragraph.
pub open spec fn spec_reorder_rtl(cells: Seq<Cell>) -> Seq<(usize, Cell)> {
    if spec_is_blank(cells) {
        identity_pairs(cells)
    } else {
        rtl_pairs(cells, spec_bidi_visual_order(cells_text(cells)))
    }
}

/// A non-blank line forced right-to-left, given the visual order found for
/// its text: the cells in that order, or in reverse logical order when none
/// was found.
pub open spec fn rtl_pairs(cells: Seq<Cell>, order: Option<Seq<usize>>) -> Seq<(usize, Cell)> {
    match order {
        Some(order) => visual_pairs(order, cells),
        None => identity_pairs(cells).reverse(),
    }
}

/// A line in automatic direction: the order of the bidi algorithm, the
/// logical order when it keeps every cell in place or there is no paragraph.
pub open spec fn spec_apply_bidi(cells: Seq<Cell>) -> Seq<(usize, Cell)> {
    if spec_is_blank(cells) {
        identity_pairs(cells)
    } else {
        auto_pairs(cells, spec_bidi_visual_order(cells_text(cells)))
    }
}

/// A non-blank line in automatic direction, given the visual order found for
/// its text: the cells in logical order when the order keeps every cell in
/// place or none was found, else in that order.
pub open spec fn auto_pairs(cells: Seq<Cell>, order: Option<Seq<usize>>) -> Seq<(usize, Cell)> {
    match order {
        Some(order) => if order == index_range(cells.len()) {
            identity_pairs(cells)
        } else {
            visual_pairs(order, cells)
        },
        None => identity_pairs(cells),
    }
}

/// The view of an optional order.
pub open spec fn order_view(order: &Option<Vec<usize>>) -> Option<Seq<usize>> {
    match order {
        Some(v) => Some(v@),
        None => None,
    }
}

/// An order that shows each of `n` cells exactly once: a permutation of at
/// least `n` indices, as the bidi algorithm gives for a text of `n`
/// characters.
pub open spec fn covers_cells(order: Option<Seq<usize>>, n: nat) -> bool {
    match order {
        Some(v) => is_index_permutation(v) && v.len() >= n,
        None => true,
    }
}

/// The cells of a line in display order, each with its logical position.
pub open spec fn spec_reorder(cells: Seq<Cell>, direction: Direction) -> Seq<(usize, Cell)> {
    if cells.len() == 0 {
        Seq::empty()
    } else {
        match direction {
            Direction::LTR => identity_pairs(cells),
            Direction::RTL => spec_reorder_rtl(cells),
            Direction::Auto => spec_apply_bidi(cells),
        }
    }
}

/// What the display shows of a line: its cells in display order (the order
/// found for the unshaped text), each shown in its shaped form.
pub open spec fn spec_display_cells(cells: Seq<Cell>, direction: Direction) -> Seq<DisplayCellInfo> {
    let r = spec_reorder(cells, direction);
    let shaped = spec_shape_cells(cells);
    Seq::new(
        r.len(),
        |i: int|
            DisplayCellInfo {
                visual_position: i as usize,
                logical_position: r[i].0,
                cell: shaped[r[i].0 as int],
                direction,
            },
    )
}

/// The display shows every (shaped) cell of the line exactly once, the
/// `i`-th shown at visual position `i` with its logical position.
pub open spec fn is_display_permutation(r: Seq<DisplayCellInfo>, shaped: Seq<Cell>, direction: Direction) -> bool {
    &&& r.len() == shaped.len()
    &&& forall|i: int|
        0 <= i < r.len() ==> (#[trigger] r[i]).visual_position == i && r[i].direction == direction
            && (r[i].logical_position as int) < shaped.len() && r[i].cell == shaped[r[i].logical_position as int]
    &&& forall|i: int, j: int|
        0 <= i < r.len() && 0 <= j < r.len() && i != j ==> r[i].logical_position != r[j].logical_position
}

/// One cell as displayed: where it is shown and where it is in the line.
#[derive(Debug, Clone, Copy)]
pub struct DisplayCellInfo {
    pub visual_position: usize,
    pub logical_position: usize,
    pub cell: Cell,
    pub direction: Direction,
}

/// `p` shows each of the cells exactly once, each with its logical position.
pub open spec fn pairs_perm(p: Seq<(usize, Cell)>, cells: Seq<Cell>) -> bool {
    &&& p.len() == cells.len()
    &&& forall|i: int|
        0 <= i < p.len() ==> (#[trigger] p[i]).0 < cells.len() && p[i].1 == cells[p[i].0 as int]
    &&& forall|i: int, j: int| 0 <= i < p.len() && 0 <= j < p.len() && i != j ==> p[i].0 != p[j].0
}

/// `v` is one of the first `k` indices of `order`.
pub open spec fn occurs_in_prefix(order: Seq<usize>, k: int, v: int) -> bool {
    exists|j: int| 0 <= j < k && order[j] as int == v
}

/// `v` is the logical position of one of the pairs.
pub open spec fn position_occurs(p: Seq<(usize, Cell)>, v: int) -> bool {
    exists|i: int| 0 <= i < p.len() && p[i].0 as int == v
}

proof fn lemma_identity_perm(cells: Seq<Cell>)
    requires
        cells.len() <= usize::MAX,
    ensures
        pairs_perm(identity_pairs(cells), cells),
{
}

proof fn lemma_reverse_perm(cells: Seq<Cell>)
    requires
        cells.len() <= usize::MAX,
    ensures
        pairs_perm(identity_pairs(cells).reverse(), cells),
{
    let p = identity_pairs(cells).reverse();
    let n = cells.len() as int;
    assert forall|i: int| 0 <= i < p.len() implies (#[trigger] p[i]).0 < cells.len() && p[i].1
        == cells[p[i].0 as int] by {
        assert(p[i] == identity_pairs(cells)[n - 1 - i]);
    }
    assert forall|i: int, j: int| 0 <= i < p.len() && 0 <= j < p.len() && i != j implies p[i].0 != p[j].0 by {
        assert(p[i] == identity_pairs(cells)[n - 1 - i]);
        assert(p[j] == identity_pairs(cells)[n - 1 - j]);
    }
}

proof fn lemma_visual_prefix(order: Seq<usize>, cells: Seq<Cell>, k: int)
    requires
        is_index_permutation(order),
        0 <= k <= order.len(),
    ensures
        ({
            let p = order.take(k).filter_map(pair_at(cells));
            &&& forall|i: int|
                0 <= i < p.len() ==> (#[trigger] p[i]).0 < cells.len() && p[i].1 == cells[p[i].0 as int]
                    && occurs_in_prefix(order, k, p[i].0 as int)
            &&& forall|i: int, j: int| 0 <= i < p.len() && 0 <= j < p.len() && i != j ==> p[i].0 != p[j].0
            &&& forall|v: int|
                0 <= v < cells.len() && #[trigger] occurs_in_prefix(order, k, v) ==> position_occurs(p, v)
        }),
    decreases k,
{
    let f = pair_at(cells);
    if k == 0 {
        assert(order.take(0) =~= Seq::<usize>::empty());
        assert(order.take(0).filter_map(f) =~= Seq::<(usize, Cell)>::empty());
    } else {
        lemma_visual_prefix(order, cells, k - 1);
        order.lemma_filter_map_take_succ(f, k - 1);
        let q = order.take(k - 1).filter_map(f);
        let p = order.take(k).filter_map(f);
        let v0 = order[k - 1];
        assert(f(v0) == pair_opt(cells, v0));
        if (v0 as int) < cells.len() {
            assert(p =~= q.push((v0, cells[v0 as int])));
            assert forall|i: int|
                0 <= i < p.len() implies (#[trigger] p[i]).0 < cells.len() && p[i].1 == cells[p[i].0 as int]
                    && occurs_in_prefix(order, k, p[i].0 as int) by {
                if i < q.len() {
                    assert(p[i] == q[i]);
                    assert(occurs_in_prefix(order, k - 1, q[i].0 as int));
                } else {
                    assert(order[k - 1] as int == p[i].0 as int);
                }
            }
            assert forall|i: int, j: int| 0 <= i < p.len() && 0 <= j < p.len() && i != j implies p[i].0
                != p[j].0 by {
                if i < q.len() && j < q.len() {
                    assert(p[i] == q[i] && p[j] == q[j]);
                } else if i < q.len() {
                    assert(occurs_in_prefix(order, k - 1, q[i].0 as int));
                    let jj = choose|jj: int| 0 <= jj < k - 1 && order[jj] as int == q[i].0 as int;
                    assert(order[jj] != order[k - 1]);
                } else if j < q.len() {
                    assert(occurs_in_prefix(order, k - 1, q[j].0 as int));
                    let jj = choose|jj: int| 0 <= jj < k - 1 && order[jj] as int == q[j].0 as int;
                    assert(order[jj] != order[k - 1]);
                }
            }
            assert forall|v: int| 0 <= v < cells.len() && #[trigger] occurs_in_prefix(order, k, v) implies position_occurs(p, v) by {
                let jj = choose|jj: int| 0 <= jj < k && order[jj] as int == v;
                if jj < k - 1 {
                    assert(occurs_in_prefix(order, k - 1, v));
                    let ii = choose|ii: int| 0 <= ii < q.len() && q[ii].0 as int == v;
                    assert(p[ii] == q[ii]);
                } else {
                    assert(p[q.len() as int].0 as int == v);
                }
            }
        } else {
            assert(p =~= q);
            assert forall|i: int|
                0 <= i < p.len() implies (#[trigger] p[i]).0 < cells.len() && p[i].1 == cells[p[i].0 as int]
                    && occurs_in_prefix(order, k, p[i].0 as int) by {
                assert(occurs_in_prefix(order, k - 1, q[i].0 as int));
            }
            assert forall|v: int| 0 <= v < cells.len() && #[trigger] occurs_in_prefix(order, k, v) implies position_occurs(p, v) by {
                let jj = choose|jj: int| 0 <= jj < k && order[jj] as int == v;
                if jj < k - 1 {
                    assert(occurs_in_prefix(order, k - 1, v));
                }
            }
        }
    }
}

/// The cells in the order of a permutation of at least as many indices as
/// there are cells: each cell exactly once.
proof fn lemma_visual_perm(order: Seq<usize>, cells: Seq<Cell>)
    requires
        is_index_permutation(order),
        order.len() >= cells.len(),
    ensures
        pairs_perm(visual_pairs(order, cells), cells),
{
    let n = cells.len() as int;
    lemma_visual_prefix(order, cells, order.len() as int);
    assert(order.take(order.len() as int) =~= order);
    let p = visual_pairs(order, cells);
    let q = p.map_values(|pr: (usize, Cell)| pr.0 as int);
    assert(q.no_duplicates()) by {
        assert forall|i: int, j: int| 0 <= i < q.len() && 0 <= j < q.len() && i != j implies q[i] != q[j] by {
            assert(p[i].0 != p[j].0);
        }
    }
    q.unique_seq_to_set();
    vstd::set_lib::lemma_int_range(0, n);
    assert(q.to_set() =~= vstd::set_lib::set_int_range(0, n)) by {
        assert forall|v: int| q.to_set().contains(v) implies vstd::set_lib::set_int_range(0, n).contains(v) by {
            let i = choose|i: int| 0 <= i < q.len() && q[i] == v;
            assert(p[i].0 < n);
        }
        assert forall|v: int| vstd::set_lib::set_int_range(0, n).contains(v) implies q.to_set().contains(v) by {
            assert(index_occurs(order, v));
            let j = choose|j: int| 0 <= j < order.len() && order[j] == v;
            assert(occurs_in_prefix(order, order.len() as int, v));
            assert(position_occurs(p, v));
            let i = choose|i: int| 0 <= i < p.len() && p[i].0 as int == v;
            assert(q[i] == v);
        }
    }
}

fn identity_pairs_exec(cells: &[Cell]) -> (r: Vec<(usize, Cell)>)
    ensures
        r@ == identity_pairs(cells@),
        pairs_perm(r@, cells@),
{
    let n = cells.len();
    proof {
        lemma_identity_perm(cells@);
    }
    let mut r: Vec<(usize, Cell)> = Vec::new();
    let mut i: usize = 0;
    while i < n
        invariant
            n == cells@.len(),
            i <= n,
            r@ =~= identity_pairs(cells@.take(i as int)),
        decreases n - i,
    {
        r.push((i, cells[i]));
        i = i + 1;
    }
    assert(cells@.take(cells@.len() as int) =~= cells@);
    r
}

fn text_of_cells(cells: &[Cell]) -> (s: String)
    ensures
        s@ == cells_text(cells@),
{
    let mut chars: Vec<char> = Vec::new();
    let mut i: usize = 0;
    while i < cells.len()
        invariant
            i <= cells@.len(),
            chars@ =~= cells_text(cells@.take(i as int)),
        decreases cells@.len() - i,
    {
        chars.push(cells[i].ch);
        i = i + 1;
    }
    assert(cells@.take(cells@.len() as int) =~= cells@);
    string_from_chars(&chars)
}

fn visual_pairs_exec(order: &Vec<usize>, cells: &[Cell]) -> (r: Vec<(usize, Cell)>)
    ensures
        r@ == visual_pairs(order@, cells@),
{
    let ghost f = pair_at(cells@);
    let mut result: Vec<(usize, Cell)> = Vec::new();
    let mut k: usize = 0;
    assert(order@.take(0) =~= Seq::<usize>::empty());
    while k < order.len()
        invariant
            k <= order@.len(),
            result@ == order@.take(k as int).filter_map(f),
            f == pair_at(cells@),
        decreases order@.len() - k,
    {
        proof {
            order@.lemma_filter_map_take_succ(f, k as int);
        }
        let logical_idx = order[k];
        let ghost before = result@;
        assert(f(logical_idx) == pair_opt(cells@, logical_idx));
        if logical_idx < cells.len() {
            result.push((logical_idx, cells[logical_idx]));
            assert(result@ =~= before + seq![(logical_idx, cells@[logical_idx as int])]);
        } else {
            assert(result@ =~= before + Seq::<(usize, Cell)>::empty());
        }
        k = k + 1;
    }
    assert(order@.take(order@.len() as int) =~= order@);
    result
}

/// The cells of a non-blank line forced right-to-left, given the visual
/// order found for its text (see `rtl_pairs`).
pub fn rtl_order_pairs(cells: &[Cell], order: &Option<Vec<usize>>) -> (r: Vec<(usize, Cell)>)
    ensures
        r@ == rtl_pairs(cells@, order_view(order)),
        covers_cells(order_view(order), cells@.len()) ==> pairs_perm(r@, cells@),
{
    match order {
        Some(visual_order) => {
            proof {
                if is_index_permutation(visual_order@) && visual_order@.len() >= cells@.len() {
                    lemma_visual_perm(visual_order@, cells@);
                }
            }
            visual_pairs_exec(visual_order, cells)
        },
        None => {
            let forward = identity_pairs_exec(cells);
            let mut result: Vec<(usize, Cell)> = Vec::new();
            let n = forward.len();
            proof {
                lemma_reverse_perm(cells@);
            }
            let mut k: usize = 0;
            while k < n
                invariant
                    n == forward@.len(),
                    k <= n,
                    result@ =~= forward@.reverse().take(k as int),
                decreases n - k,
            {
                result.push(forward[n - 1 - k]);
                k = k + 1;
            }
            assert(forward@.reverse().take(n as int) =~= forward@.reverse());
            result
        },
    }
}

fn reorder_rtl(cells: &[Cell], text: &str) -> (r: Vec<(usize, Cell)>)
    requires
        text@ == cells_text(cells@),
    ensures
        r@ == spec_reorder_rtl(cells@),
        pairs_perm(r@, cells@),
{
    if cells_are_blank(cells) {
        return identity_pairs_exec(cells);
    }
    let order = bidi_visual_order(text);
    rtl_order_pairs(cells, &order)
}

/// Whether `order` is `0, 1, ..., n - 1`.
fn is_index_range(order: &Vec<usize>, n: usize) -> (b: bool)
    ensures
        b == (order@ == index_range(n as nat)),
{
    if order.len() != n {
        return false;
    }
    let mut i: usize = 0;
    while i < n
        invariant
            n == order@.len(),
            i <= n,
            forall|j: int| 0 <= j < i ==> order@[j] == j as usize,
        decreases n - i,
    {
        if order[i] != i {
            return false;
        }
        i = i + 1;
    }
    assert(order@ =~= index_range(n as nat));
    true
}

/// The cells of a non-blank line in automatic direction, given the visual
/// order found for its text (see `auto_pairs`).
pub fn auto_order_pairs(cells: &[Cell], order: &Option<Vec<usize>>) -> (r: Vec<(usize, Cell)>)
    ensures
        r@ == auto_pairs(cells@, order_view(order)),
        covers_cells(order_view(order), cells@.len()) ==> pairs_perm(r@, cells@),
{
    match order {
        Some(visual_order) => {
            if is_index_range(visual_order, cells.len()) {
                identity_pairs_exec(cells)
            } else {
                proof {
                    if is_index_permutation(visual_order@) && visual_order@.len() >= cells@.len() {
                        lemma_visual_perm(visual_order@, cells@);
                    }
                }
                visual_pairs_exec(visual_order, cells)
            }
        },
        None => identity_pairs_exec(cells),
    }
}

fn apply_bidi_algorithm(cells: &[Cell], text: &str) -> (r: Vec<(usize, Cell)>)
    requires
        text@ == cells_text(cells@),
    ensures
        r@ == spec_apply_bidi(cells@),
        pairs_perm(r@, cells@),
{
    if cells_are_blank(cells) {
        return identity_pairs_exec(cells);
    }
    let order = bidi_visual_order(text);
    auto_order_pairs(cells, &order)
}

/// The cells of a line in display order, each with its logical position.
fn reorder_for_display(cells: &[Cell], direction: Direction) -> (r: Vec<(usize, Cell)>)
    ensures
        r@ == spec_reorder(cells@, direction),
        pairs_perm(r@, cells@),
{
    if cells.len() == 0 {
        return Vec::new();
    }
    let text = text_of_cells(cells);
    match direction {
        Direction::LTR => identity_pairs_exec(cells),
        Direction::RTL => reorder_rtl(cells, text.as_str()),
        Direction::Auto => apply_bidi_algorithm(cells, text.as_str()),
    }
}

/// The cells given the characters of `shaped`, when it has one character
/// per cell; else the cells unchanged (see `shape_with`).
pub fn shape_with_text(cells: &[Cell], shaped: &str) -> (r: Vec<Cell>)
    ensures
        r@ == shape_with(cells@, shaped@),
{
    let mut chars: Vec<char> = Vec::new();
    for ch in it: shaped.chars()
        invariant
            it.seq() == shaped@,
            chars@ == shaped@.take(it.index() as int),
    {
        proof {
            assert(shaped@.take(it.index() as int + 1) =~= shaped@.take(it.index() as int).push(ch));
        }
        chars.push(ch);
    }
    assert(shaped@.take(shaped@.len() as int) =~= shaped@);
    assert(chars@ == shaped@);
    let mut result: Vec<Cell> = Vec::new();
    if chars.len() == cells.len() {
        let mut i: usize = 0;
        while i < cells.len()
            invariant
                i <= cells@.len(),
                chars@.len() == cells@.len(),
                chars@ == shaped@,
                result@ =~= Seq::new(i as nat, |j: int| with_char(cells@[j], chars@[j])),
            decreases cells@.len() - i,
        {
            let c = cells[i];
            let shaped_cell = Cell { ch: chars[i], ..c };
            assert(shaped_cell == with_char(cells@[i as int], chars@[i as int]));
            result.push(shaped_cell);
            i = i + 1;
        }
    } else {
        let mut i: usize = 0;
        while i < cells.len()
            invariant
                i <= cells@.len(),
                result@ =~= cells@.take(i as int),
            decreases cells@.len() - i,
        {
            result.push(cells[i]);
            i = i + 1;
        }
        assert(cells@.take(cells@.len() as int) =~= cells@);
    }
    result
}

/// The cells with the characters of the reshaped text, when it has one
/// character per cell.
fn shape_cells(cells: &[Cell]) -> (r: Vec<Cell>)
    ensures
        r@ == spec_shape_cells(cells@),
{
    if has_joiner(cells) {
        let mut result: Vec<Cell> = Vec::new();
        let mut i: usize = 0;
        while i < cells.len()
            invariant
                i <= cells@.len(),
                result@ =~= cells@.take(i as int),
            decreases cells@.len() - i,
        {
            result.push(cells[i]);
            i = i + 1;
        }
        assert(cells@.take(cells@.len() as int) =~= cells@);
        return result;
    }
    let text = text_of_cells(cells);
    let shaped = arabic_reshape(text.as_str());
    shape_with_text(cells, shaped.as_str())
}

/// Whether one of the cells holds a zero-width joiner.
fn has_joiner(cells: &[Cell]) -> (b: bool)
    ensures
        b == !reshape_accepts(cells_text(cells@)),
{
    let mut i: usize = 0;
    while i < cells.len()
        invariant
            i <= cells@.len(),
            forall|j: int| 0 <= j < i ==> !is_joiner(#[trigger] cells_text(cells@)[j]),
        decreases cells@.len() - i,
    {
        if cells[i].ch == '\u{200D}' {
            assert(is_joiner(cells_text(cells@)[i as int]));
            return true;
        }
        i = i + 1;
    }
    false
}

/// The cells of a line as the display shows them: Arabic letters in their
/// contextual forms, in the order of the line's direction (`LTR`: logical
/// order; `RTL` and `Auto`: the order of the bidi algorithm on the unshaped
/// text).
pub fn get_display_cells(cells: &[Cell], direction: Direction) -> (r: Vec<DisplayCellInfo>)
    ensures
        r@ == spec_display_cells(cells@, direction),
        is_display_permutation(r@, spec_shape_cells(cells@), direction),
        direction == Direction::LTR ==> forall|i: int| 0 <= i < r@.len() ==> (#[trigger] r@[i]).logical_position == i,
{
    let reordered = reorder_for_display(cells, direction);
    let shaped = shape_cells(cells);
    let mut result: Vec<DisplayCellInfo> = Vec::new();
    let mut visual_pos: usize = 0;
    while visual_pos < reordered.len()
        invariant
            visual_pos <= reordered@.len(),
            reordered@ == spec_reorder(cells@, direction),
            pairs_perm(reordered@, cells@),
            shaped@ == spec_shape_cells(cells@),
            shaped@.len() == cells@.len(),
            result@ =~= Seq::new(
                visual_pos as nat,
                |i: int|
                    DisplayCellInfo {
                        visual_position: i as usize,
                        logical_position: reordered@[i].0,
                        cell: shaped@[reordered@[i].0 as int],
                        direction,
                    },
            ),
        decreases reordered@.len() - visual_pos,
    {
        let (logical_pos, _) = reordered[visual_pos];
        let cell = shaped[logical_pos];
        result.push(DisplayCellInfo { visual_position: visual_pos, logical_position: logical_pos, cell, direction });
        visual_pos = visual_pos + 1;
    }
    result
}

} // verus!
