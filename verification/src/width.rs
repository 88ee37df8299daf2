//! Display width of characters and of runs of text, measured in terminal
//! columns. Most characters take one column, wide ones two, some none.

use vstd::prelude::*;

verus! {

/// Columns one character occupies on the terminal grid. Which value belongs
/// to which character is decided by the unicode_width crate alone.
pub uninterp spec fn char_cols(c: char) -> nat;

/// Relies on unicode_width's UnicodeWidthChar::width: the column width of a
/// character depends on the character alone, is at most 3 (every character is
/// 0, 1 or 2 columns wide but one Khmer sign of width 3), an ordinary space is
/// 1 column, and a control character such as a line feed, for which the crate
/// answers nothing, counts as zero columns here.
#[verifier::external_body]
pub fn width_of(c: char) -> (w: usize)
    ensures
        w == char_cols(c),
        w <= 3,
        c == ' ' ==> w == 1,
        c == '\n' ==> w == 0,
{
    unicode_width::UnicodeWidthChar::width(c).unwrap_or(0)
}

/// Columns a run of text occupies when drawn on one line.
pub open spec fn cols_of(s: Seq<char>) -> nat
    decreases s.len(),
{
    if s.len() == 0 {
        0
    } else {
        cols_of(s.drop_last()) + char_cols(s.last())
    }
}

/// The width of a range splits at any interior point.
pub proof fn lemma_cols_of_split(t: Seq<char>, a: int, b: int, c: int)
    requires
        0 <= a <= b <= c <= t.len(),
    ensures
        cols_of(t.subrange(a, c)) == cols_of(t.subrange(a, b)) + cols_of(t.subrange(b, c)),
    decreases c - b,
{
    if b == c {
        assert(t.subrange(b, c) =~= Seq::<char>::empty());
        assert(t.subrange(a, b) =~= t.subrange(a, c));
    } else {
        lemma_cols_of_split(t, a, b, c - 1);
        assert(t.subrange(a, c).drop_last() =~= t.subrange(a, c - 1));
        assert(t.subrange(b, c).drop_last() =~= t.subrange(b, c - 1));
        assert(t.subrange(a, c).last() == t[c - 1]);
        assert(t.subrange(b, c).last() == t[c - 1]);
    }
}

/// Extending a range by one character on the right adds that character's
/// columns.
pub proof fn lemma_cols_of_snoc(t: Seq<char>, a: int, i: int)
    requires
        0 <= a <= i < t.len(),
    ensures
        cols_of(t.subrange(a, i + 1)) == cols_of(t.subrange(a, i)) + char_cols(t[i]),
{
    lemma_cols_of_split(t, a, i, i + 1);
    assert(t.subrange(i, i + 1).drop_last() =~= Seq::<char>::empty());
    assert(t.subrange(i, i + 1).last() == t[i]);
    assert(cols_of(Seq::<char>::empty()) == 0);
    assert(cols_of(t.subrange(i, i + 1)) == char_cols(t[i]));
}

/// A range of no columns at all has only zero-width characters in it.
pub proof fn lemma_zero_cols_zero_char(t: Seq<char>, a: int, b: int, j: int)
    requires
        0 <= a <= j < b <= t.len(),
        cols_of(t.subrange(a, b)) == 0,
    ensures
        char_cols(t[j]) == 0,
{
    lemma_cols_of_split(t, a, j, b);
    lemma_cols_of_split(t, j, j + 1, b);
    assert(t.subrange(j, j + 1).drop_last() =~= Seq::<char>::empty());
    assert(t.subrange(j, j + 1).last() == t[j]);
    assert(cols_of(Seq::<char>::empty()) == 0);
    assert(cols_of(t.subrange(j, j + 1)) == char_cols(t[j]));
}

/// The offset of the character that covers display column `col` in the text
/// range `[s, e)`: widths accumulate left to right until the column is
/// covered; nothing when the range ends first.
pub open spec fn col_off_spec(t: Seq<char>, s: int, e: int, col: int) -> Option<int>
    decreases e - s,
    when s <= e
{
    if s >= e {
        None
    } else if col < char_cols(t[s]) {
        Some(s)
    } else {
        col_off_spec(t, s + 1, e, col - char_cols(t[s]))
    }
}

/// Translates a display column into the text offset it covers.
#[verifier::loop_isolation(false)]
pub fn col_to_offset(text: &[char], s: usize, e: usize, col: usize) -> (r: Option<usize>)
    requires
        s <= e <= text@.len(),
    ensures
        match r {
            Some(i) => col_off_spec(text@, s as int, e as int, col as int) == Some(i as int)
                && s <= i < e,
            None => col_off_spec(text@, s as int, e as int, col as int) is None,
        },
{
    let mut i: usize = s;
    let mut left: usize = col;
    while i < e
        invariant
            s <= i <= e,
            col_off_spec(text@, s as int, e as int, col as int) == col_off_spec(
                text@,
                i as int,
                e as int,
                left as int,
            ),
        decreases e - i,
    {
        let w = width_of(text[i]);
        if left < w {
            return Some(i);
        }
        left = left - w;
        i = i + 1;
    }
    None
}
}
