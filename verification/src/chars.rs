//! Character-sequence primitives shared by the rest of the library.
//!
//! Text is handled as a sequence of `char`s: strings are taken apart into
//! characters at the entry of the library and put together again at its
//! exit, and everything in between works on slices and vectors of `char`.

use vstd::prelude::*;
use vstd::slice::slice_subrange;

verus! {

/// Taken on trust of the standard library's `String::push`: the string
/// afterwards is the string before with the character `c` at its end.
pub assume_specification[ String::push ](s: &mut String, c: char)
    ensures
        final(s)@ == old(s)@.push(c),
;

/// The characters of `s`, in order.
pub fn to_chars(s: &str) -> (v: Vec<char>)
    ensures
        v@ == s@,
{
    let mut v: Vec<char> = Vec::new();
    for c in it: s.chars()
        invariant
            v@ == it.seq().take(it.index() as int),
            it.seq() == s@,
    {
        v.push(c);
    }
    v
}

/// The string made of the characters of `v`, in order.
pub fn from_chars(v: &[char]) -> (s: String)
    ensures
        s@ == v@,
{
    let mut s = String::new();
    let mut i: usize = 0;
    while i < v.len()
        invariant
            i <= v.len(),
            s@ == v@.take(i as int),
        decreases v.len() - i,
    {
        s.push(v[i]);
        proof {
            assert(v@.take(i + 1) =~= v@.take(i as int).push(v@[i as int]));
        }
        i = i + 1;
    }
    proof {
        assert(v@.take(i as int) =~= v@);
    }
    s
}

/// Appends the characters of `src` to `dst`.
pub fn push_all(dst: &mut Vec<char>, src: &[char])
    ensures
        final(dst)@ == old(dst)@ + src@,
{
    let mut i: usize = 0;
    while i < src.len()
        invariant
            i <= src.len(),
            dst@ == old(dst)@ + src@.take(i as int),
        decreases src.len() - i,
    {
        dst.push(src[i]);
        proof {
            assert(src@.take(i + 1) =~= src@.take(i as int).push(src@[i as int]));
            assert(dst@ =~= old(dst)@ + src@.take(i + 1));
        }
        i = i + 1;
    }
    proof {
        assert(src@.take(i as int) =~= src@);
    }
}

/// A fresh copy of `src[from..to]`.
pub fn sub_chars(src: &[char], from: usize, to: usize) -> (v: Vec<char>)
    requires
        from <= to <= src.len(),
    ensures
        v@ == src@.subrange(from as int, to as int),
{
    let mut v: Vec<char> = Vec::new();
    push_all(&mut v, slice_subrange(src, from, to));
    proof {
        assert(v@ =~= src@.subrange(from as int, to as int));
    }
    v
}

/// Whether `c` has the Unicode `White_Space` property.
pub open spec fn is_whitespace(c: char) -> bool {
    let n = c as u32;
    ||| 0x09 <= n <= 0x0D
    ||| n == 0x20
    ||| n == 0x85
    ||| n == 0xA0
    ||| n == 0x1680
    ||| 0x2000 <= n <= 0x200A
    ||| n == 0x2028
    ||| n == 0x2029
    ||| n == 0x202F
    ||| n == 0x205F
    ||| n == 0x3000
}

/// Decides [`is_whitespace`].
pub fn is_whitespace_char(c: char) -> (b: bool)
    ensures
        b == is_whitespace(c),
{
    let n: u32 = c as u32;
    (0x09 <= n && n <= 0x0D) || n == 0x20 || n == 0x85 || n == 0xA0 || n == 0x1680 || (0x2000 <= n
        && n <= 0x200A) || n == 0x2028 || n == 0x2029 || n == 0x202F || n == 0x205F || n == 0x3000
}

/// Index of the first non-whitespace character at or after `i`, or the length.
pub open spec fn skip_whitespace(s: Seq<char>, i: int) -> int
    decreases s.len() - i,
{
    if i >= s.len() {
        s.len() as int
    } else if is_whitespace(s[i]) {
        skip_whitespace(s, i + 1)
    } else {
        i
    }
}

/// One past the index of the last non-whitespace character before `j`, or 0.
pub open spec fn skip_whitespace_back(s: Seq<char>, j: int) -> int
    decreases j,
{
    if j <= 0 {
        0
    } else if is_whitespace(s[j - 1]) {
        skip_whitespace_back(s, j - 1)
    } else {
        j
    }
}

/// `s` without its leading whitespace.
pub open spec fn trim_start(s: Seq<char>) -> Seq<char> {
    s.subrange(skip_whitespace(s, 0), s.len() as int)
}

/// `s` without its leading and trailing whitespace.
pub open spec fn trim(s: Seq<char>) -> Seq<char> {
    let a = skip_whitespace(s, 0);
    if a >= s.len() {
        Seq::empty()
    } else {
        s.subrange(a, skip_whitespace_back(s, s.len() as int))
    }
}

/// Where [`skip_whitespace`] lands, and what lies before it.
pub proof fn lemma_skip_whitespace(s: Seq<char>, i: int)
    requires
        0 <= i <= s.len(),
    ensures
        i <= skip_whitespace(s, i) <= s.len(),
        forall|k: int| i <= k < skip_whitespace(s, i) ==> is_whitespace(#[trigger] s[k]),
        skip_whitespace(s, i) < s.len() ==> !is_whitespace(s[skip_whitespace(s, i)]),
    decreases s.len() - i,
{
    if i < s.len() && is_whitespace(s[i]) {
        lemma_skip_whitespace(s, i + 1);
    }
}

/// Where [`skip_whitespace_back`] lands, and what lies after it.
pub proof fn lemma_skip_whitespace_back(s: Seq<char>, j: int)
    requires
        0 <= j <= s.len(),
    ensures
        0 <= skip_whitespace_back(s, j) <= j,
        forall|k: int| skip_whitespace_back(s, j) <= k < j ==> is_whitespace(#[trigger] s[k]),
        skip_whitespace_back(s, j) > 0 ==> !is_whitespace(s[skip_whitespace_back(s, j) - 1]),
    decreases j,
{
    if j > 0 && is_whitespace(s[j - 1]) {
        lemma_skip_whitespace_back(s, j - 1);
    }
}

/// Index of the first non-whitespace character of `s`, or its length.
pub fn first_non_whitespace(s: &[char]) -> (i: usize)
    ensures
        i == skip_whitespace(s@, 0),
        i <= s.len(),
{
    let mut i: usize = 0;
    while i < s.len() && is_whitespace_char(s[i])
        invariant
            i <= s.len(),
            skip_whitespace(s@, 0) == skip_whitespace(s@, i as int),
        decreases s.len() - i,
    {
        i = i + 1;
    }
    i
}

/// One past the index of the last non-whitespace character of `s`, or 0.
pub fn last_non_whitespace_end(s: &[char]) -> (j: usize)
    ensures
        j == skip_whitespace_back(s@, s.len() as int),
        j <= s.len(),
{
    let mut j: usize = s.len();
    while j > 0 && is_whitespace_char(s[j - 1])
        invariant
            j <= s.len(),
            skip_whitespace_back(s@, s.len() as int) == skip_whitespace_back(s@, j as int),
        decreases j,
    {
        j = j - 1;
    }
    j
}

/// A copy of `s` without its leading and trailing whitespace.
pub fn trimmed(s: &[char]) -> (t: Vec<char>)
    ensures
        t@ == trim(s@),
{
    let a = first_non_whitespace(s);
    if a >= s.len() {
        Vec::new()
    } else {
        let b = last_non_whitespace_end(s);
        proof {
            lemma_skip_whitespace(s@, 0);
            lemma_skip_whitespace_back(s@, s.len() as int);
            if b <= a {
                // everything from `b` on is whitespace, yet `s[a]` is not
                assert(is_whitespace(s@[a as int]));
            }
        }
        sub_chars(s, a, b)
    }
}

/// A text trims to nothing exactly when it is all whitespace; otherwise the
/// trimmed text starts and ends with a character that is not whitespace.
pub proof fn lemma_trim(s: Seq<char>)
    ensures
        trim(s).len() > 0 <==> skip_whitespace(s, 0) < s.len(),
        trim(s).len() > 0 ==> {
            &&& 0 <= skip_whitespace(s, 0) < skip_whitespace_back(s, s.len() as int) <= s.len()
            &&& trim(s) == s.subrange(
                skip_whitespace(s, 0),
                skip_whitespace_back(s, s.len() as int),
            )
            &&& !is_whitespace(trim(s).first())
            &&& !is_whitespace(trim(s).last())
        },
{
    lemma_skip_whitespace(s, 0);
    lemma_skip_whitespace_back(s, s.len() as int);
    let a = skip_whitespace(s, 0);
    let b = skip_whitespace_back(s, s.len() as int);
    if a < s.len() {
        if b <= a {
            assert(is_whitespace(s[a]));
        }
    }
}

/// A text that starts and ends with a character that is not whitespace is
/// its own trimmed text.
pub proof fn lemma_trim_tight(s: Seq<char>)
    requires
        s.len() > 0,
        !is_whitespace(s.first()),
        !is_whitespace(s.last()),
    ensures
        trim(s) == s,
{
    assert(skip_whitespace(s, 0) == 0);
    assert(skip_whitespace_back(s, s.len() as int) == s.len());
    assert(s.subrange(0, s.len() as int) =~= s);
}

/// Trimming a trimmed text changes nothing.
pub proof fn lemma_trim_idempotent(s: Seq<char>)
    ensures
        trim(trim(s)) == trim(s),
{
    lemma_trim(s);
    if trim(s).len() > 0 {
        lemma_trim_tight(trim(s));
    } else {
        assert(trim(s) =~= Seq::<char>::empty());
        assert(skip_whitespace(Seq::<char>::empty(), 0) == 0);
    }
}

/// Whether `s` holds a character that is not whitespace.
pub fn has_content(s: &[char]) -> (b: bool)
    ensures
        b == (trim(s@).len() > 0),
{
    proof {
        lemma_trim(s@);
    }
    first_non_whitespace(s) < s.len()
}

/// Whether the character `c` occurs in `s`.
pub fn contains_char(s: &[char], c: char) -> (b: bool)
    ensures
        b == s@.contains(c),
{
    let mut i: usize = 0;
    while i < s.len()
        invariant
            i <= s.len(),
            forall|k: int| 0 <= k < i ==> s@[k] != c,
        decreases s.len() - i,
    {
        if s[i] == c {
            return true;
        }
        i = i + 1;
    }
    false
}

/// Whether `pat` occurs in `s` starting at index `i`.
pub open spec fn occurs_at(s: Seq<char>, pat: Seq<char>, i: int) -> bool {
    0 <= i && i + pat.len() <= s.len() && s.subrange(i, i + pat.len()) == pat
}

/// Decides [`occurs_at`].
pub fn matches_at(s: &[char], pat: &[char], i: usize) -> (r: bool)
    ensures
        r == occurs_at(s@, pat@, i as int),
{
    if i > s.len() || pat.len() > s.len() - i {
        return false;
    }
    let mut k: usize = 0;
    while k < pat.len()
        invariant
            k <= pat.len(),
            i + pat.len() <= s.len(),
            forall|m: int| 0 <= m < k ==> s@[i + m] == pat@[m],
        decreases pat.len() - k,
    {
        if s[i + k] != pat[k] {
            proof {
                assert(s@.subrange(i as int, i + pat.len())[k as int] == s@[i + k]);
            }
            return false;
        }
        k = k + 1;
    }
    proof {
        assert(s@.subrange(i as int, i + pat.len()) =~= pat@);
    }
    true
}

} // verus!
