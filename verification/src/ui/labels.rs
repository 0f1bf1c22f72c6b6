use crate::bidi::reorder::string_from_chars;
use vstd::prelude::*;

verus! {

/// The decimal digit for `d` (taken below ten).
pub open spec fn spec_digit(d: nat) -> char {
    if d == 0 { '0' }
    else if d == 1 { '1' }
    else if d == 2 { '2' }
    else if d == 3 { '3' }
    else if d == 4 { '4' }
    else if d == 5 { '5' }
    else if d == 6 { '6' }
    else if d == 7 { '7' }
    else if d == 8 { '8' }
    else { '9' }
}

/// The decimal writing of `n`, most significant digit first, without
/// leading zeros (`0` is written as one digit).
pub open spec fn spec_decimal(n: nat) -> Seq<char>
    decreases n,
{
    if n < 10 {
        seq![spec_digit(n)]
    } else {
        spec_decimal(n / 10).push(spec_digit(n % 10))
    }
}

fn digit(d: usize) -> (c: char)
    requires
        d < 10,
    ensures
        c == spec_digit(d as nat),
{
    if d == 0 { '0' }
    else if d == 1 { '1' }
    else if d == 2 { '2' }
    else if d == 3 { '3' }
    else if d == 4 { '4' }
    else if d == 5 { '5' }
    else if d == 6 { '6' }
    else if d == 7 { '7' }
    else if d == 8 { '8' }
    else { '9' }
}

/// Appends the decimal writing of `n`.
fn push_decimal(out: &mut Vec<char>, n: usize)
    ensures
        final(out)@ == old(out)@ + spec_decimal(n as nat),
    decreases n,
{
    if n < 10 {
        out.push(digit(n));
    } else {
        push_decimal(out, n / 10);
        out.push(digit(n % 10));
    }
}

/// Appends the characters of `s`.
fn push_str(out: &mut Vec<char>, s: &str)
    ensures
        final(out)@ == old(out)@ + s@,
{
    let ghost start = out@;
    for ch in it: s.chars()
        invariant
            it.seq() == s@,
            out@ == start + s@.take(it.index() as int),
    {
        proof {
            assert(s@.take(it.index() as int + 1) == s@.take(it.index() as int).push(ch));
        }
        out.push(ch);
    }
    proof {
        assert(s@.take(s@.len() as int) == s@);
    }
}

/// The title shown on a tab: the tab's title, marked ` [RTL]` when the tab is
/// forced right-to-left.
pub fn tab_label(title: &str, rtl_mode: bool) -> (r: String)
    ensures
        r@ == (if rtl_mode { title@ + " [RTL]"@ } else { title@ }),
{
    let mut out: Vec<char> = Vec::new();
    push_str(&mut out, title);
    if rtl_mode {
        push_str(&mut out, " [RTL]");
    }
    proof {
        assert(Seq::<char>::empty() + title@ == title@);
    }
    string_from_chars(&out)
}

/// The title a tab takes once its shell has exited.
pub fn exited_title(title: &str) -> (r: String)
    ensures
        r@ == title@ + " [Exited]"@,
{
    let mut out: Vec<char> = Vec::new();
    push_str(&mut out, title);
    push_str(&mut out, " [Exited]");
    proof {
        assert(Seq::<char>::empty() + title@ == title@);
    }
    string_from_chars(&out)
}

/// The title of a tab opened while `open_tabs` tabs are open:
/// `Terminal ` and the new tab's number.
pub fn new_tab_title(open_tabs: usize) -> (r: String)
    requires
        open_tabs < usize::MAX,
    ensures
        r@ == "Terminal "@ + spec_decimal(open_tabs as nat + 1),
{
    let mut out: Vec<char> = Vec::new();
    push_str(&mut out, "Terminal ");
    push_decimal(&mut out, open_tabs + 1);
    proof {
        assert(Seq::<char>::empty() + "Terminal "@ == "Terminal "@);
    }
    string_from_chars(&out)
}

/// The cursor position shown in the status bar, counted from one:
/// `Ln <row>, Col <column>`.
pub fn cursor_status(x: u16, y: u16) -> (r: String)
    ensures
        r@ == "Ln "@ + spec_decimal(y as nat + 1) + ", Col "@ + spec_decimal(x as nat + 1),
{
    let mut out: Vec<char> = Vec::new();
    push_str(&mut out, "Ln ");
    push_decimal(&mut out, y as usize + 1);
    push_str(&mut out, ", Col ");
    push_decimal(&mut out, x as usize + 1);
    proof {
        assert(Seq::<char>::empty() + "Ln "@ == "Ln "@);
    }
    string_from_chars(&out)
}

/// `ON` or `OFF`.
pub fn on_off(on: bool) -> (r: String)
    ensures
        r@ == (if on { "ON"@ } else { "OFF"@ }),
{
    let mut out: Vec<char> = Vec::new();
    if on {
        push_str(&mut out, "ON");
    } else {
        push_str(&mut out, "OFF");
    }
    proof {
        assert(Seq::<char>::empty() + "ON"@ == "ON"@);
        assert(Seq::<char>::empty() + "OFF"@ == "OFF"@);
    }
    string_from_chars(&out)
}

/// The label of the status bar's right-to-left button: `RTL: ON` or `RTL: OFF`.
pub fn rtl_button_label(rtl_mode: bool) -> (r: String)
    ensures
        r@ == "RTL: "@ + (if rtl_mode { "ON"@ } else { "OFF"@ }),
{
    let mut out: Vec<char> = Vec::new();
    push_str(&mut out, "RTL: ");
    if rtl_mode {
        push_str(&mut out, "ON");
    } else {
        push_str(&mut out, "OFF");
    }
    proof {
        assert(Seq::<char>::empty() + "RTL: "@ == "RTL: "@);
    }
    string_from_chars(&out)
}

} // verus!
