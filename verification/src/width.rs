//! Display-column cost of characters and strings.
//!
//! The cost is a deliberate approximation, not the Unicode East-Asian-Width
//! table: every code point from U+1000 upwards (which takes in the CJK
//! ideographs and the emoji blocks) counts two columns, everything below
//! counts one.

use vstd::prelude::*;

verus! {

/// First code point that is counted as two columns wide.
pub const WIDE_FROM: u32 = 0x1000;

/// Whether `c` occupies two display columns.
pub open spec fn is_wide(c: char) -> bool {
    c as u32 >= 0x1000
}

/// Columns taken by one character: 2 when wide, else 1.
pub open spec fn char_width(c: char) -> nat {
    if is_wide(c) {
        2
    } else {
        1
    }
}

/// Columns taken by a string: the sum of its characters' costs.
pub open spec fn display_width(s: Seq<char>) -> nat
    decreases s.len(),
{
    if s.len() == 0 {
        0
    } else {
        display_width(s.drop_last()) + char_width(s.last())
    }
}

/// Width is additive over concatenation.
pub proof fn lemma_width_concat(a: Seq<char>, b: Seq<char>)
    ensures
        display_width(a + b) == display_width(a) + display_width(b),
    decreases b.len(),
{
    if b.len() == 0 {
        assert(a + b =~= a);
    } else {
        assert((a + b).drop_last() =~= a + b.drop_last());
        lemma_width_concat(a, b.drop_last());
    }
}

/// A string is at least as wide as it is long and at most twice that.
pub proof fn lemma_width_bounds(s: Seq<char>)
    ensures
        s.len() <= display_width(s) <= 2 * s.len(),
    decreases s.len(),
{
    if s.len() > 0 {
        lemma_width_bounds(s.drop_last());
    }
}

/// Width of a one-character string.
pub proof fn lemma_width_single(c: char)
    ensures
        display_width(seq![c]) == char_width(c),
{
    assert(seq![c].drop_last() =~= Seq::<char>::empty());
    assert(display_width(Seq::<char>::empty()) == 0);
}

/// Width after appending one character.
pub proof fn lemma_width_push(s: Seq<char>, c: char)
    ensures
        display_width(s.push(c)) == display_width(s) + char_width(c),
{
    assert(s.push(c).drop_last() =~= s);
}

/// Width of a string in terms of its first character and the rest.
pub proof fn lemma_width_first(s: Seq<char>)
    requires
        s.len() > 0,
    ensures
        display_width(s) == char_width(s[0]) + display_width(s.drop_first()),
{
    lemma_width_single(s[0]);
    lemma_width_concat(seq![s[0]], s.drop_first());
    assert(seq![s[0]] + s.drop_first() =~= s);
}

/// The width of a stored text fits comfortably in 128 bits.
pub proof fn lemma_stored_width(s: &[char])
    ensures
        display_width(s@) <= 2 * usize::MAX,
{
    lemma_width_bounds(s@);
    assert(s@.len() == s.len());
}

/// The width of a text under construction fits comfortably in 128 bits.
pub proof fn lemma_buffer_width(v: &Vec<char>)
    ensures
        display_width(v@) <= 2 * usize::MAX,
{
    lemma_width_bounds(v@);
    assert(v@.len() == v.len());
}

/// Column cost of one character.
pub fn char_display_width(c: char) -> (w: u128)
    ensures
        w == char_width(c),
{
    if c as u32 >= WIDE_FROM {
        2
    } else {
        1
    }
}

/// Column cost of a string, summed character by character.
pub fn str_display_width(s: &[char]) -> (w: u128)
    ensures
        w == display_width(s@),
{
    let mut w: u128 = 0;
    let mut i: usize = 0;
    while i < s.len()
        invariant
            i <= s.len(),
            w == display_width(s@.take(i as int)),
            w <= 2 * i,
        decreases s.len() - i,
    {
        proof {
            assert(s@.take(i + 1).drop_last() =~= s@.take(i as int));
        }
        w = w + char_display_width(s[i]);
        i = i + 1;
    }
    proof {
        assert(s@.take(i as int) =~= s@);
    }
    w
}

} // verus!
