use vstd::prelude::*;

verus! {

/// The right-to-left scripts that the terminal recognises, by code point:
/// Arabic (with its supplement, extended-A and presentation forms), Hebrew
/// (with its presentation forms), Syriac, Thaana, NKo, Samaritan and Mandaic.
pub open spec fn spec_is_rtl_code(code: u32) -> bool {
    ||| 0x0600 <= code <= 0x06FF
    ||| 0x0750 <= code <= 0x077F
    ||| 0x08A0 <= code <= 0x08FF
    ||| 0xFB50 <= code <= 0xFDFF
    ||| 0xFE70 <= code <= 0xFEFF
    ||| 0x0590 <= code <= 0x05FF
    ||| 0xFB1D <= code <= 0xFB4F
    ||| 0x0700 <= code <= 0x074F
    ||| 0x0780 <= code <= 0x07BF
    ||| 0x07C0 <= code <= 0x07FF
    ||| 0x0800 <= code <= 0x083F
    ||| 0x0840 <= code <= 0x085F
}

pub open spec fn spec_is_rtl_char(ch: char) -> bool {
    spec_is_rtl_code(ch as u32)
}

/// True when the text holds at least one right-to-left character.
pub open spec fn spec_has_rtl(text: Seq<char>) -> bool {
    exists|i: int| 0 <= i < text.len() && spec_is_rtl_char(#[trigger] text[i])
}

/// Whether `text` holds a character of a right-to-left script.
pub fn contains_rtl_markers(text: &str) -> (b: bool)
    ensures
        b == spec_has_rtl(text@),
{
    let mut found = false;
    for ch in it: text.chars()
        invariant
            it.seq() == text@,
            found == (exists|i: int| 0 <= i < it.index() && spec_is_rtl_char(#[trigger] text@[i])),
    {
        if is_rtl_char(ch) {
            found = true;
        }
    }
    found
}

/// Whether `ch` belongs to a right-to-left script (see `spec_is_rtl_code`).
pub fn is_rtl_char(ch: char) -> (b: bool)
    ensures
        b == spec_is_rtl_char(ch),
{
    let code = ch as u32;
    if (0x0600 <= code && code <= 0x06FF) || (0x0750 <= code && code <= 0x077F) || (0x08A0
        <= code && code <= 0x08FF) || (0xFB50 <= code && code <= 0xFDFF) || (0xFE70 <= code
        && code <= 0xFEFF) {
        return true;
    }
    if (0x0590 <= code && code <= 0x05FF) || (0xFB1D <= code && code <= 0xFB4F) {
        return true;
    }
    if (0x0700 <= code && code <= 0x074F) || (0x0780 <= code && code <= 0x07BF) || (0x07C0
        <= code && code <= 0x07FF) || (0x0800 <= code && code <= 0x083F) || (0x0840 <= code
        && code <= 0x085F) {
        return true;
    }
    false
}

/// The Arabic block (U+0600 to U+06FF) and the Hebrew block (U+0590 to
/// U+05FF) are right-to-left; ASCII (below U+0080) is not.
pub proof fn lemma_rtl_scripts(ch: char)
    ensures
        0x0590 <= (ch as u32) <= 0x06FF ==> spec_is_rtl_char(ch),
        (ch as u32) < 0x80 ==> !spec_is_rtl_char(ch),
{
}

} // verus!

verus! {

/// The characters with the Unicode `White_Space` property, the set that
/// `char::is_whitespace` and `str::trim` go by.
pub open spec fn spec_is_whitespace(ch: char) -> bool {
    let c = ch as u32;
    ||| 0x09 <= c <= 0x0D
    ||| c == 0x20
    ||| c == 0x85
    ||| c == 0xA0
    ||| c == 0x1680
    ||| 0x2000 <= c <= 0x200A
    ||| c == 0x2028
    ||| c == 0x2029
    ||| c == 0x202F
    ||| c == 0x205F
    ||| c == 0x3000
}

/// Whether `ch` is white space in the sense of `char::is_whitespace`.
pub fn is_whitespace_char(ch: char) -> (b: bool)
    ensures
        b == spec_is_whitespace(ch),
{
    let c = ch as u32;
    (0x09 <= c && c <= 0x0D) || c == 0x20 || c == 0x85 || c == 0xA0 || c == 0x1680 || (0x2000
        <= c && c <= 0x200A) || c == 0x2028 || c == 0x2029 || c == 0x202F || c == 0x205F || c
        == 0x3000
}

} // verus!

verus! {

/// Whether `char::is_alphabetic` holds of `ch` (the Unicode `Alphabetic`
/// property).
pub uninterp spec fn spec_is_alphabetic(ch: char) -> bool;

/// `char::is_alphabetic`. Its result is taken as a function of the character
/// alone (`spec_is_alphabetic`); the Unicode table behind it is not stated.
#[verifier::external_body]
fn is_alphabetic(ch: char) -> (b: bool)
    ensures
        b == spec_is_alphabetic(ch),
{
    ch.is_alphabetic()
}

/// Whether each character of `text` is a letter.
pub open spec fn letter_flags(text: Seq<char>) -> Seq<bool> {
    text.map_values(|c: char| spec_is_alphabetic(c))
}

/// The number of the first `n` characters marked as letters.
pub open spec fn letters_upto(is_letter: Seq<bool>, n: int) -> nat
    decreases n,
{
    if n <= 0 {
        0
    } else {
        letters_upto(is_letter, n - 1) + if is_letter[n - 1] { 1nat } else { 0nat }
    }
}

/// The number of the first `n` characters marked as letters that belong to a
/// right-to-left script.
pub open spec fn rtl_letters_upto(text: Seq<char>, is_letter: Seq<bool>, n: int) -> nat
    decreases n,
{
    if n <= 0 {
        0
    } else {
        rtl_letters_upto(text, is_letter, n - 1) + if is_letter[n - 1] && spec_is_rtl_char(text[n - 1]) {
            1nat
        } else {
            0nat
        }
    }
}

pub open spec fn cap_usize(n: nat) -> usize {
    if n <= usize::MAX { n as usize } else { usize::MAX }
}

fn letters_of(text: &str) -> (flags: Vec<bool>)
    ensures
        flags@ == letter_flags(text@),
{
    let mut flags: Vec<bool> = Vec::new();
    for ch in it: text.chars()
        invariant
            it.seq() == text@,
            flags@ == letter_flags(text@.take(it.index() as int)),
    {
        proof {
            assert(text@.take(it.index() as int + 1) =~= text@.take(it.index() as int).push(ch));
        }
        flags.push(is_alphabetic(ch));
        assert(flags@ =~= letter_flags(text@.take(it.index() as int + 1)));
    }
    proof {
        assert(text@.take(text@.len() as int) =~= text@);
    }
    flags
}

/// The number of right-to-left letters and the number of letters in `text`,
/// where `is_letter` marks its letters, each capped at `usize::MAX`.
pub fn count_letters(text: &str, is_letter: &[bool]) -> (r: (usize, usize))
    requires
        is_letter@.len() == text@.len(),
    ensures
        r.0 == cap_usize(rtl_letters_upto(text@, is_letter@, text@.len() as int)),
        r.1 == cap_usize(letters_upto(is_letter@, text@.len() as int)),
{
    let mut rtl: usize = 0;
    let mut total: usize = 0;
    let mut i: usize = 0;
    for ch in it: text.chars()
        invariant
            it.seq() == text@,
            is_letter@.len() == text@.len(),
            i == it.index(),
            rtl == cap_usize(rtl_letters_upto(text@, is_letter@, i as int)),
            total == cap_usize(letters_upto(is_letter@, i as int)),
    {
        if is_letter[i] {
            total = total.saturating_add(1);
            if is_rtl_char(ch) {
                rtl = rtl.saturating_add(1);
            }
        }
        i = i + 1;
    }
    (rtl, total)
}

/// The number of right-to-left letters and the number of letters in `text`
/// (each capped at `usize::MAX`): the terms of the share of right-to-left
/// letters in a text.
pub fn rtl_letter_counts(text: &str) -> (r: (usize, usize))
    ensures
        r.0 == cap_usize(rtl_letters_upto(text@, letter_flags(text@), text@.len() as int)),
        r.1 == cap_usize(letters_upto(letter_flags(text@), text@.len() as int)),
{
    let flags = letters_of(text);
    count_letters(text, flags.as_slice())
}

} // verus!
