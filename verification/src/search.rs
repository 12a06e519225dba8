//! Finding and replacing substrings.

use crate::chars::{matches_at, occurs_at, push_all};
use vstd::prelude::*;

verus! {

/// Index of the first occurrence of `pat` in `s` at or after `i`, if any.
pub open spec fn find_from(s: Seq<char>, pat: Seq<char>, i: int) -> Option<int>
    decreases s.len() - i,
{
    if i < 0 || i > s.len() {
        None
    } else if occurs_at(s, pat, i) {
        Some(i)
    } else if i == s.len() {
        None
    } else {
        find_from(s, pat, i + 1)
    }
}

/// Index of the first occurrence of `pat` in `s`, if any.
pub open spec fn find(s: Seq<char>, pat: Seq<char>) -> Option<int> {
    find_from(s, pat, 0)
}

/// The value of an optional index.
pub open spec fn index_view(r: Option<usize>) -> Option<int> {
    match r {
        Some(i) => Some(i as int),
        None => None,
    }
}

/// Computes [`find_from`].
pub fn find_sub(s: &[char], pat: &[char], from: usize) -> (r: Option<usize>)
    requires
        from <= s.len(),
    ensures
        index_view(r) == find_from(s@, pat@, from as int),
        r matches Some(i) ==> from <= i && i + pat.len() <= s.len(),
{
    let mut i: usize = from;
    loop
        invariant
            from <= i <= s.len(),
            find_from(s@, pat@, from as int) == find_from(s@, pat@, i as int),
        decreases s.len() - i,
    {
        if matches_at(s, pat, i) {
            return Some(i);
        }
        if i == s.len() {
            return None;
        }
        i = i + 1;
    }
}

/// `s[i..]` with every occurrence of `pat` replaced by `rep`, the
/// occurrences taken from left to right without overlap. An empty pattern
/// occurs before every character and at the end.
pub open spec fn replace_from(s: Seq<char>, pat: Seq<char>, rep: Seq<char>, i: int) -> Seq<char>
    decreases s.len() - i,
{
    if i < 0 || i >= s.len() {
        if pat.len() == 0 {
            rep
        } else {
            Seq::empty()
        }
    } else if pat.len() == 0 {
        rep + seq![s[i]] + replace_from(s, pat, rep, i + 1)
    } else if occurs_at(s, pat, i) {
        rep + replace_from(s, pat, rep, i + pat.len())
    } else {
        seq![s[i]] + replace_from(s, pat, rep, i + 1)
    }
}

/// `s` with every occurrence of `pat` replaced by `rep`.
pub open spec fn replace(s: Seq<char>, pat: Seq<char>, rep: Seq<char>) -> Seq<char> {
    replace_from(s, pat, rep, 0)
}

/// Computes [`replace`].
pub fn replace_all(s: &[char], pat: &[char], rep: &[char]) -> (out: Vec<char>)
    ensures
        out@ == replace(s@, pat@, rep@),
{
    let mut out: Vec<char> = Vec::new();
    let mut i: usize = 0;
    while i < s.len()
        invariant
            i <= s.len(),
            out@ + replace_from(s@, pat@, rep@, i as int) == replace(s@, pat@, rep@),
        decreases s.len() - i,
    {
        let ghost before = out@;
        if pat.len() == 0 {
            push_all(&mut out, rep);
            out.push(s[i]);
            proof {
                assert(out@ + replace_from(s@, pat@, rep@, i + 1) =~= before + replace_from(
                    s@,
                    pat@,
                    rep@,
                    i as int,
                ));
            }
            i = i + 1;
        } else if matches_at(s, pat, i) {
            push_all(&mut out, rep);
            proof {
                assert(out@ + replace_from(s@, pat@, rep@, i + pat.len()) =~= before
                    + replace_from(s@, pat@, rep@, i as int));
            }
            i = i + pat.len();
        } else {
            out.push(s[i]);
            proof {
                assert(out@ + replace_from(s@, pat@, rep@, i + 1) =~= before + replace_from(
                    s@,
                    pat@,
                    rep@,
                    i as int,
                ));
            }
            i = i + 1;
        }
    }
    let ghost before = out@;
    if pat.len() == 0 {
        push_all(&mut out, rep);
    }
    proof {
        assert(out@ =~= before + replace_from(s@, pat@, rep@, i as int));
    }
    out
}

} // verus!
