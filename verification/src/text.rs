//! Character display widths: the single width table shared by the
//! bounds calculator and the text placer, so rendered labels occupy
//! exactly the columns the bounds reserve for them.

use vstd::prelude::*;

verus! {

/// Displayed width in columns of one character, as the terminal width
/// table defines it; zero for control and zero-width characters.
pub uninterp spec fn char_display_width(c: char) -> nat;

/// Relies on unicode_width's `UnicodeWidthChar::width`: the displayed
/// width is a function of the character alone; control characters
/// (`None`) count as zero; the packed table and its special cases
/// never yield more than three columns.
#[verifier::external_body]
pub(crate) fn char_width(c: char) -> (w: usize)
    ensures
        w == char_display_width(c),
        w <= 3,
{
    unicode_width::UnicodeWidthChar::width(c).unwrap_or(0)
}

/// Relies on `str::chars`: the characters of the string, in order.
#[verifier::external_body]
pub(crate) fn str_chars(s: &str) -> (v: Vec<char>)
    ensures
        v@ == s@,
{
    s.chars().collect()
}

/// Columns a label contributes to the bounding box: the sum of its
/// characters' display widths.
pub open spec fn text_extent(s: Seq<char>) -> int
    decreases s.len(),
{
    if s.len() == 0 {
        0
    } else {
        text_extent(s.drop_last()) + char_display_width(s.last())
    }
}

/// Columns the placer advances for one character: two for a wide
/// character (it also reserves the following cell), one for a normal
/// one, none for a zero-width one.
pub open spec fn advance_of(c: char) -> int {
    if char_display_width(c) >= 2 {
        2
    } else {
        char_display_width(c) as int
    }
}

/// Columns the placer advances over a whole label.
pub open spec fn text_advance(s: Seq<char>) -> int
    decreases s.len(),
{
    if s.len() == 0 {
        0
    } else {
        text_advance(s.drop_last()) + advance_of(s.last())
    }
}

/// The width the bounds calculator reserves for a label and the width
/// the placer walks over it agree, whenever every character is at most
/// two columns wide (the width table exceeds two on no character the
/// placer distinguishes).
pub proof fn lemma_extent_matches_advance(s: Seq<char>)
    requires
        forall|i: int| 0 <= i < s.len() ==> char_display_width(#[trigger] s[i]) <= 2,
    ensures
        text_extent(s) == text_advance(s),
    decreases s.len(),
{
    if s.len() > 0 {
        assert(forall|i: int|
            0 <= i < s.drop_last().len() ==> char_display_width(#[trigger] s.drop_last()[i])
                <= 2);
        lemma_extent_matches_advance(s.drop_last());
        assert(char_display_width(s.last()) <= 2);
    }
}

} // verus!
