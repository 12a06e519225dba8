//! Splitting text into words, lines and paragraphs, and joining it back.

use crate::chars::{is_whitespace, is_whitespace_char, push_all, skip_whitespace, sub_chars};
use vstd::prelude::*;

verus! {

/// The pieces of `s` between occurrences of the character `sep`, where
/// `start` is where the current piece began and `i` is the scanning position.
pub open spec fn split_on_from(s: Seq<char>, sep: char, start: int, i: int) -> Seq<Seq<char>>
    decreases s.len() - i,
{
    if i >= s.len() {
        seq![s.subrange(start, s.len() as int)]
    } else if s[i] == sep {
        seq![s.subrange(start, i)] + split_on_from(s, sep, i + 1, i + 1)
    } else {
        split_on_from(s, sep, start, i + 1)
    }
}

/// The pieces of `s` between occurrences of `sep`; `n` separators give
/// `n + 1` pieces, some of which may be empty.
pub open spec fn split_on(s: Seq<char>, sep: char) -> Seq<Seq<char>> {
    split_on_from(s, sep, 0, 0)
}

/// Computes [`split_on`].
pub fn split_on_char(s: &[char], sep: char) -> (parts: Vec<Vec<char>>)
    ensures
        parts.deep_view() == split_on(s@, sep),
{
    let mut parts: Vec<Vec<char>> = Vec::new();
    let mut start: usize = 0;
    let mut i: usize = 0;
    while i < s.len()
        invariant
            start <= i <= s.len(),
            parts.deep_view() + split_on_from(s@, sep, start as int, i as int) == split_on(
                s@,
                sep,
            ),
        decreases s.len() - i,
    {
        if s[i] == sep {
            let piece = sub_chars(s, start, i);
            proof {
                lemma_deep_view_push(parts, piece);
                assert(parts.deep_view().push(piece@) + split_on_from(s@, sep, i + 1, i + 1)
                    =~= parts.deep_view() + split_on_from(s@, sep, start as int, i as int));
            }
            parts.push(piece);
            start = i + 1;
        }
        i = i + 1;
    }
    let piece = sub_chars(s, start, s.len());
    proof {
        lemma_deep_view_push(parts, piece);
        assert(parts.deep_view().push(piece@) =~= parts.deep_view() + split_on_from(
            s@,
            sep,
            start as int,
            i as int,
        ));
    }
    parts.push(piece);
    parts
}

/// Pushing onto a vector of vectors pushes the new element's view onto the
/// deep view.
pub proof fn lemma_deep_view_push(v: Vec<Vec<char>>, x: Vec<char>)
    ensures
        v@.push(x).map_values(|e: Vec<char>| e.deep_view()) =~= v.deep_view().push(x@),
{
    let f = |e: Vec<char>| e.deep_view();
    assert(v.deep_view() =~= v@.map_values(f));
    assert forall|i: int| 0 <= i < v@.len() + 1 implies #[trigger] v@.push(x).map_values(f)[i]
        == v.deep_view().push(x@)[i] by {
        if i < v@.len() {
            assert(v@.push(x)[i] == v@[i]);
        } else {
            assert(v@.push(x)[i] == x);
            assert(x.deep_view() =~= x@);
        }
    }
}


/// The maximal runs of non-whitespace characters of `s`, where `start` is
/// where the current run began and `i` is the scanning position.
pub open spec fn split_whitespace_from(s: Seq<char>, start: int, i: int) -> Seq<Seq<char>>
    decreases s.len() - i,
{
    if i >= s.len() {
        if start < s.len() {
            seq![s.subrange(start, s.len() as int)]
        } else {
            Seq::empty()
        }
    } else if is_whitespace(s[i]) {
        if start < i {
            seq![s.subrange(start, i)] + split_whitespace_from(s, i + 1, i + 1)
        } else {
            split_whitespace_from(s, i + 1, i + 1)
        }
    } else {
        split_whitespace_from(s, start, i + 1)
    }
}

/// The words of `s`: its maximal runs of non-whitespace characters, in order.
pub open spec fn split_whitespace(s: Seq<char>) -> Seq<Seq<char>> {
    split_whitespace_from(s, 0, 0)
}

/// Computes [`split_whitespace`].
pub fn split_whitespace_chars(s: &[char]) -> (words: Vec<Vec<char>>)
    ensures
        words.deep_view() == split_whitespace(s@),
{
    let mut words: Vec<Vec<char>> = Vec::new();
    let mut start: usize = 0;
    let mut i: usize = 0;
    while i < s.len()
        invariant
            start <= i <= s.len(),
            words.deep_view() + split_whitespace_from(s@, start as int, i as int)
                == split_whitespace(s@),
        decreases s.len() - i,
    {
        if is_whitespace_char(s[i]) {
            if start < i {
                let word = sub_chars(s, start, i);
                proof {
                    lemma_deep_view_push(words, word);
                    assert(words.deep_view().push(word@) + split_whitespace_from(s@, i + 1, i + 1)
                        =~= words.deep_view() + split_whitespace_from(
                        s@,
                        start as int,
                        i as int,
                    ));
                }
                words.push(word);
            }
            start = i + 1;
        }
        i = i + 1;
    }
    if start < s.len() {
        let word = sub_chars(s, start, s.len());
        proof {
            lemma_deep_view_push(words, word);
            assert(words.deep_view().push(word@) =~= words.deep_view() + split_whitespace_from(
                s@,
                start as int,
                i as int,
            ));
        }
        words.push(word);
    } else {
        proof {
            assert(words.deep_view() =~= words.deep_view() + split_whitespace_from(
                s@,
                start as int,
                i as int,
            ));
        }
    }
    words
}

/// Whether a blank-line separator (two line feeds) starts at index `i`.
pub open spec fn separator_at(s: Seq<char>, i: int) -> bool {
    0 <= i && i + 1 < s.len() && s[i] == '\n' && s[i + 1] == '\n'
}

/// The pieces of `s` between blank-line separators, taken left to right
/// without overlap; `start` is where the current piece began and `i` is the
/// scanning position.
pub open spec fn split_blank_from(s: Seq<char>, start: int, i: int) -> Seq<Seq<char>>
    decreases s.len() - i,
{
    if i >= s.len() {
        seq![s.subrange(start, s.len() as int)]
    } else if separator_at(s, i) {
        seq![s.subrange(start, i)] + split_blank_from(s, i + 2, i + 2)
    } else {
        split_blank_from(s, start, i + 1)
    }
}

/// The pieces of `s` between blank-line separators.
pub open spec fn split_blank(s: Seq<char>) -> Seq<Seq<char>> {
    split_blank_from(s, 0, 0)
}

/// Computes [`split_blank`].
pub fn split_blank_chars(s: &[char]) -> (parts: Vec<Vec<char>>)
    ensures
        parts.deep_view() == split_blank(s@),
{
    let mut parts: Vec<Vec<char>> = Vec::new();
    let mut start: usize = 0;
    let mut i: usize = 0;
    while i < s.len()
        invariant
            start <= i <= s.len(),
            parts.deep_view() + split_blank_from(s@, start as int, i as int) == split_blank(s@),
        decreases s.len() - i,
    {
        if s[i] == '\n' && i + 1 < s.len() && s[i + 1] == '\n' {
            let piece = sub_chars(s, start, i);
            proof {
                lemma_deep_view_push(parts, piece);
                assert(parts.deep_view().push(piece@) + split_blank_from(s@, i + 2, i + 2)
                    =~= parts.deep_view() + split_blank_from(s@, start as int, i as int));
            }
            parts.push(piece);
            start = i + 2;
            i = i + 2;
        } else {
            i = i + 1;
        }
    }
    let piece = sub_chars(s, start, s.len());
    proof {
        lemma_deep_view_push(parts, piece);
        assert(parts.deep_view().push(piece@) =~= parts.deep_view() + split_blank_from(
            s@,
            start as int,
            i as int,
        ));
    }
    parts.push(piece);
    parts
}

/// The physical lines of `s`: its pieces between line feeds, without the
/// empty piece that a final line feed (or an empty text) leaves at the end.
pub open spec fn physical_lines(s: Seq<char>) -> Seq<Seq<char>> {
    let pieces = split_on(s, '\n');
    if pieces.len() > 0 && pieces.last().len() == 0 {
        pieces.drop_last()
    } else {
        pieces
    }
}

/// Computes [`physical_lines`].
pub fn physical_lines_chars(s: &[char]) -> (lines: Vec<Vec<char>>)
    ensures
        lines.deep_view() == physical_lines(s@),
{
    let mut lines = split_on_char(s, '\n');
    let n = lines.len();
    if n > 0 && lines[n - 1].len() == 0 {
        let ghost before = lines.deep_view();
        lines.pop();
        proof {
            assert(lines.deep_view() =~= before.drop_last());
        }
    }
    lines
}

/// The parts of `parts` written one after the other with `sep` between
/// each two neighbours.
pub open spec fn join(parts: Seq<Seq<char>>, sep: Seq<char>) -> Seq<char>
    decreases parts.len(),
{
    if parts.len() == 0 {
        Seq::empty()
    } else if parts.len() == 1 {
        parts[0]
    } else {
        join(parts.drop_last(), sep) + sep + parts.last()
    }
}

/// Computes [`join`].
pub fn join_chars(parts: &Vec<Vec<char>>, sep: &[char]) -> (out: Vec<char>)
    ensures
        out@ == join(parts.deep_view(), sep@),
{
    let mut out: Vec<char> = Vec::new();
    let mut i: usize = 0;
    while i < parts.len()
        invariant
            i <= parts.len(),
            out@ == join(parts.deep_view().take(i as int), sep@),
        decreases parts.len() - i,
    {
        proof {
            assert(parts.deep_view().take(i + 1).drop_last() =~= parts.deep_view().take(i as int));
            assert(parts.deep_view().take(i + 1).last() == parts@[i as int]@);
        }
        if i > 0 {
            push_all(&mut out, sep);
        }
        push_all(&mut out, parts[i].as_slice());
        proof {
            if i == 0 {
                assert(out@ =~= parts@[0]@);
                assert(parts.deep_view().take(1)[0] == parts@[0]@);
            }
        }
        i = i + 1;
    }
    proof {
        assert(parts.deep_view().take(i as int) =~= parts.deep_view());
    }
    out
}

/// Whether `piece` is a stretch of `s`.
pub open spec fn is_part_of(piece: Seq<char>, s: Seq<char>) -> bool {
    exists|a: int, b: int| 0 <= a <= b <= s.len() && piece == #[trigger] s.subrange(a, b)
}

/// Every character of a stretch of `s` is a character of `s`.
pub proof fn lemma_part_chars(piece: Seq<char>, s: Seq<char>, j: int)
    requires
        is_part_of(piece, s),
        0 <= j < piece.len(),
    ensures
        s.contains(piece[j]),
{
    let (a, b) = choose|a: int, b: int|
        0 <= a <= b <= s.len() && piece == #[trigger] s.subrange(a, b);
    assert(s[a + j] == piece[j]);
}

/// Every word of a text is a stretch of it.
pub proof fn lemma_words_are_parts(s: Seq<char>, start: int, i: int)
    requires
        0 <= start <= i <= s.len(),
    ensures
        forall|k: int|
            0 <= k < split_whitespace_from(s, start, i).len() ==> is_part_of(
                #[trigger] split_whitespace_from(s, start, i)[k],
                s,
            ),
    decreases s.len() - i,
{
    let pieces = split_whitespace_from(s, start, i);
    assert forall|k: int| 0 <= k < pieces.len() implies is_part_of(#[trigger] pieces[k], s) by {
        if i >= s.len() {
            assert(pieces[k] == s.subrange(start, s.len() as int));
        } else if is_whitespace(s[i]) {
            lemma_words_are_parts(s, i + 1, i + 1);
            let tail = split_whitespace_from(s, i + 1, i + 1);
            if start < i {
                assert(pieces =~= seq![s.subrange(start, i)] + tail);
                if k > 0 {
                    assert(pieces[k] == tail[k - 1]);
                } else {
                    assert(pieces[k] == s.subrange(start, i));
                }
            } else {
                assert(pieces[k] == tail[k]);
            }
        } else {
            lemma_words_are_parts(s, start, i + 1);
            assert(pieces[k] == split_whitespace_from(s, start, i + 1)[k]);
        }
    }
}

/// Every piece between separators is a stretch of the text.
pub proof fn lemma_pieces_are_parts(s: Seq<char>, sep: char, start: int, i: int)
    requires
        0 <= start <= i <= s.len(),
    ensures
        forall|k: int|
            0 <= k < split_on_from(s, sep, start, i).len() ==> is_part_of(
                #[trigger] split_on_from(s, sep, start, i)[k],
                s,
            ),
    decreases s.len() - i,
{
    let pieces = split_on_from(s, sep, start, i);
    assert forall|k: int| 0 <= k < pieces.len() implies is_part_of(#[trigger] pieces[k], s) by {
        if i >= s.len() {
            assert(pieces[k] == s.subrange(start, s.len() as int));
        } else if s[i] == sep {
            lemma_pieces_are_parts(s, sep, i + 1, i + 1);
            let tail = split_on_from(s, sep, i + 1, i + 1);
            assert(pieces =~= seq![s.subrange(start, i)] + tail);
            if k > 0 {
                assert(pieces[k] == tail[k - 1]);
            } else {
                assert(pieces[k] == s.subrange(start, i));
            }
        } else {
            lemma_pieces_are_parts(s, sep, start, i + 1);
            assert(pieces[k] == split_on_from(s, sep, start, i + 1)[k]);
        }
    }
}

/// Behind a separator, splitting goes on as if the text began there.
pub proof fn lemma_split_after(a: Seq<char>, sep: char, b: Seq<char>, start: int, i: int)
    requires
        0 <= start <= i <= b.len(),
    ensures
        split_on_from(a + seq![sep] + b, sep, a.len() + 1 + start, a.len() + 1 + i)
            == split_on_from(b, sep, start, i),
    decreases b.len() - i,
{
    let whole = a + seq![sep] + b;
    let n = a.len() + 1;
    if i >= b.len() {
        assert(whole.subrange(n + start, whole.len() as int) =~= b.subrange(start, b.len() as int));
    } else {
        assert(whole[n + i] == b[i]);
        if b[i] == sep {
            assert(whole.subrange(n + start, n + i) =~= b.subrange(start, i));
            lemma_split_after(a, sep, b, i + 1, i + 1);
        } else {
            lemma_split_after(a, sep, b, start, i + 1);
        }
    }
}

/// Before a separator, splitting goes on as if the text ended there, and
/// the pieces of what follows the separator come after.
pub proof fn lemma_split_before(a: Seq<char>, sep: char, b: Seq<char>, start: int, i: int)
    requires
        0 <= start <= i <= a.len(),
    ensures
        split_on_from(a + seq![sep] + b, sep, start, i) == split_on_from(a, sep, start, i)
            + split_on(b, sep),
    decreases a.len() - i,
{
    let whole = a + seq![sep] + b;
    if i == a.len() {
        assert(whole[i] == sep);
        assert(whole.subrange(start, i) =~= a.subrange(start, a.len() as int));
        lemma_split_after(a, sep, b, 0, 0);
        assert(split_on_from(a, sep, start, i) =~= seq![a.subrange(start, a.len() as int)]);
    } else {
        assert(whole[i] == a[i]);
        if a[i] == sep {
            assert(whole.subrange(start, i) =~= a.subrange(start, i));
            lemma_split_before(a, sep, b, i + 1, i + 1);
            assert(seq![a.subrange(start, i)] + (split_on_from(a, sep, i + 1, i + 1) + split_on(
                b,
                sep,
            )) =~= seq![a.subrange(start, i)] + split_on_from(a, sep, i + 1, i + 1) + split_on(
                b,
                sep,
            ));
        } else {
            lemma_split_before(a, sep, b, start, i + 1);
        }
    }
}

/// The pieces of two texts with a separator between them are the pieces of
/// the first followed by the pieces of the second.
pub proof fn lemma_split_on_concat(a: Seq<char>, sep: char, b: Seq<char>)
    ensures
        split_on(a + seq![sep] + b, sep) == split_on(a, sep) + split_on(b, sep),
{
    lemma_split_before(a, sep, b, 0, 0);
}

/// A text without the separator, from the scanning position on, is one
/// piece.
pub proof fn lemma_split_rest(s: Seq<char>, sep: char, start: int, i: int)
    requires
        0 <= start <= i <= s.len(),
        forall|k: int| i <= k < s.len() ==> s[k] != sep,
    ensures
        split_on_from(s, sep, start, i) == seq![s.subrange(start, s.len() as int)],
    decreases s.len() - i,
{
    if i < s.len() {
        lemma_split_rest(s, sep, start, i + 1);
    }
}

/// A text without the separator is one piece.
pub proof fn lemma_split_on_whole(s: Seq<char>, sep: char)
    requires
        !s.contains(sep),
    ensures
        split_on(s, sep) == seq![s],
{
    lemma_split_rest(s, sep, 0, 0);
    assert(s.subrange(0, s.len() as int) =~= s);
}

/// Splitting undoes joining: lines that hold no separator, joined by it and
/// split again, are the same lines.
pub proof fn lemma_split_join(lines: Seq<Seq<char>>, sep: char)
    requires
        lines.len() >= 1,
        forall|k: int| 0 <= k < lines.len() ==> !(#[trigger] lines[k]).contains(sep),
    ensures
        split_on(join(lines, seq![sep]), sep) == lines,
    decreases lines.len(),
{
    if lines.len() == 1 {
        lemma_split_on_whole(lines[0], sep);
        assert(lines =~= seq![lines[0]]);
    } else {
        let init = lines.drop_last();
        assert forall|k: int| 0 <= k < init.len() implies !(#[trigger] init[k]).contains(sep) by {
            assert(init[k] == lines[k]);
        }
        lemma_split_join(init, sep);
        lemma_split_on_concat(join(init, seq![sep]), sep, lines.last());
        lemma_split_on_whole(lines.last(), sep);
        assert(init + seq![lines.last()] =~= lines);
    }
}

/// Whether a word is solid: not empty, and free of whitespace.
pub open spec fn is_solid(word: Seq<char>) -> bool {
    word.len() > 0 && forall|j: int| 0 <= j < word.len() ==> !is_whitespace(#[trigger] word[j])
}

/// Every word of a text is solid.
pub proof fn lemma_words_are_solid(s: Seq<char>, start: int, i: int)
    requires
        0 <= start <= i <= s.len(),
        forall|k: int| start <= k < i ==> !is_whitespace(#[trigger] s[k]),
    ensures
        forall|k: int|
            0 <= k < split_whitespace_from(s, start, i).len() ==> is_solid(
                #[trigger] split_whitespace_from(s, start, i)[k],
            ),
    decreases s.len() - i,
{
    let pieces = split_whitespace_from(s, start, i);
    assert forall|k: int| 0 <= k < pieces.len() implies is_solid(#[trigger] pieces[k]) by {
        if i >= s.len() {
            assert(pieces[k] == s.subrange(start, s.len() as int));
        } else if is_whitespace(s[i]) {
            lemma_words_are_solid(s, i + 1, i + 1);
            let tail = split_whitespace_from(s, i + 1, i + 1);
            if start < i {
                assert(pieces =~= seq![s.subrange(start, i)] + tail);
                if k > 0 {
                    assert(pieces[k] == tail[k - 1]);
                } else {
                    assert(pieces[k] == s.subrange(start, i));
                }
            } else {
                assert(pieces[k] == tail[k]);
            }
        } else {
            lemma_words_are_solid(s, start, i + 1);
            assert(pieces[k] == split_whitespace_from(s, start, i + 1)[k]);
        }
    }
}

/// A text that holds a character other than whitespace, at or after the
/// start of the current word, has a word.
pub proof fn lemma_words_exist(s: Seq<char>, start: int, i: int, at: int)
    requires
        0 <= start <= i <= s.len(),
        start < i || i <= at,
        start <= at < s.len(),
        !is_whitespace(s[at]),
        forall|k: int| start <= k < i ==> !is_whitespace(#[trigger] s[k]),
    ensures
        split_whitespace_from(s, start, i).len() > 0,
    decreases s.len() - i,
{
    if i >= s.len() {
    } else if is_whitespace(s[i]) {
        if start < i {
        } else {
            lemma_words_exist(s, i + 1, i + 1, at);
        }
    } else {
        lemma_words_exist(s, start, i + 1, at);
    }
}

/// Joining one more part adds the separator and the part, or the part alone
/// when it is the first.
pub proof fn lemma_join_push(parts: Seq<Seq<char>>, part: Seq<char>, sep: Seq<char>)
    ensures
        join(parts.push(part), sep) == (if parts.len() == 0 {
            part
        } else {
            join(parts, sep) + sep + part
        }),
{
    assert(parts.push(part).drop_last() =~= parts);
    assert(parts.push(part).last() == part);
    if parts.len() == 0 {
        assert(parts.push(part)[0] == part);
    }
}

/// Joining parts behind a first part puts the first part and a separator
/// before them, or gives the first part alone when nothing follows.
pub proof fn lemma_join_first(part: Seq<char>, rest: Seq<Seq<char>>, sep: Seq<char>)
    ensures
        join(seq![part] + rest, sep) == (if rest.len() == 0 {
            part
        } else {
            part + sep + join(rest, sep)
        }),
    decreases rest.len(),
{
    let all = seq![part] + rest;
    if rest.len() == 0 {
        assert(all =~= seq![part]);
        assert(all[0] == part);
    } else {
        assert(all.drop_last() =~= seq![part] + rest.drop_last());
        assert(all.last() == rest.last());
        lemma_join_first(part, rest.drop_last(), sep);
        if rest.len() == 1 {
            assert(rest[0] == rest.last());
            assert(join(rest, sep) == rest[0]);
            assert(part + sep + rest.last() =~= part + sep + join(rest, sep));
        } else {
            assert(part + sep + join(rest.drop_last(), sep) + sep + rest.last() =~= part + sep + (
            join(rest.drop_last(), sep) + sep + rest.last()));
        }
    }
}

/// Splitting always gives at least one piece.
pub proof fn lemma_split_on_len(s: Seq<char>, sep: char, start: int, i: int)
    requires
        0 <= start <= i <= s.len(),
    ensures
        split_on_from(s, sep, start, i).len() >= 1,
        (exists|k: int| i <= k < s.len() && s[k] == sep) ==> split_on_from(s, sep, start, i).len()
            >= 2,
    decreases s.len() - i,
{
    if i < s.len() {
        if s[i] == sep {
            lemma_split_on_len(s, sep, i + 1, i + 1);
        } else {
            lemma_split_on_len(s, sep, start, i + 1);
            if exists|k: int| i <= k < s.len() && s[k] == sep {
                let k = choose|k: int| i <= k < s.len() && s[k] == sep;
                assert(i + 1 <= k < s.len() && s[k] == sep);
            }
        }
    }
}

/// Joining undoes splitting: the pieces of a text from a scanning position
/// on, joined by the separator, are the text from where the current piece
/// began.
pub proof fn lemma_join_split_from(s: Seq<char>, sep: char, start: int, i: int)
    requires
        0 <= start <= i <= s.len(),
    ensures
        join(split_on_from(s, sep, start, i), seq![sep]) == s.subrange(start, s.len() as int),
    decreases s.len() - i,
{
    if i >= s.len() {
        assert(split_on_from(s, sep, start, i)[0] == s.subrange(start, s.len() as int));
    } else if s[i] == sep {
        let tail = split_on_from(s, sep, i + 1, i + 1);
        lemma_join_split_from(s, sep, i + 1, i + 1);
        lemma_split_on_len(s, sep, i + 1, i + 1);
        lemma_join_first(s.subrange(start, i), tail, seq![sep]);
        assert(s.subrange(start, i) + seq![sep] + s.subrange(i + 1, s.len() as int) =~= s.subrange(
            start,
            s.len() as int,
        ));
    } else {
        lemma_join_split_from(s, sep, start, i + 1);
    }
}

/// Joining undoes splitting.
pub proof fn lemma_join_split(s: Seq<char>, sep: char)
    ensures
        join(split_on(s, sep), seq![sep]) == s,
{
    lemma_join_split_from(s, sep, 0, 0);
    assert(s.subrange(0, s.len() as int) =~= s);
}

/// A text that is all whitespace from the scanning position on, with no
/// word begun, has no word.
pub proof fn lemma_no_words(s: Seq<char>, i: int)
    requires
        0 <= i <= s.len(),
        forall|k: int| i <= k < s.len() ==> is_whitespace(#[trigger] s[k]),
    ensures
        split_whitespace_from(s, i, i).len() == 0,
    decreases s.len() - i,
{
    if i < s.len() {
        lemma_no_words(s, i + 1);
    }
}

/// Splitting at blank-line separators always gives at least one piece.
pub proof fn lemma_split_blank_len(s: Seq<char>, start: int, i: int)
    requires
        0 <= start <= i <= s.len(),
    ensures
        split_blank_from(s, start, i).len() >= 1,
    decreases s.len() - i,
{
    if i < s.len() {
        if separator_at(s, i) {
            lemma_split_blank_len(s, i + 2, i + 2);
        } else {
            lemma_split_blank_len(s, start, i + 1);
        }
    }
}

/// Joining undoes splitting at blank-line separators: the pieces of a text
/// from a scanning position on, joined by the separator, are the text from
/// where the current piece began.
pub proof fn lemma_join_split_blank_from(s: Seq<char>, start: int, i: int)
    requires
        0 <= start <= i <= s.len(),
    ensures
        join(split_blank_from(s, start, i), seq!['\n', '\n']) == s.subrange(start, s.len() as int),
    decreases s.len() - i,
{
    let sep = seq!['\n', '\n'];
    if i >= s.len() {
        assert(split_blank_from(s, start, i)[0] == s.subrange(start, s.len() as int));
    } else if separator_at(s, i) {
        let tail = split_blank_from(s, i + 2, i + 2);
        lemma_join_split_blank_from(s, i + 2, i + 2);
        lemma_split_blank_len(s, i + 2, i + 2);
        lemma_join_first(s.subrange(start, i), tail, sep);
        assert(s.subrange(start, i) + sep + s.subrange(i + 2, s.len() as int) =~= s.subrange(
            start,
            s.len() as int,
        ));
    } else {
        lemma_join_split_blank_from(s, start, i + 1);
    }
}

/// Joining undoes splitting at blank-line separators.
pub proof fn lemma_join_split_blank(s: Seq<char>)
    ensures
        join(split_blank(s), seq!['\n', '\n']) == s,
{
    lemma_join_split_blank_from(s, 0, 0);
    assert(s.subrange(0, s.len() as int) =~= s);
}

/// Parts joined begin with the first part and end with the last, when
/// those are not empty.
pub proof fn lemma_join_ends(parts: Seq<Seq<char>>, sep: Seq<char>)
    requires
        parts.len() >= 1,
        parts.first().len() > 0,
        parts.last().len() > 0,
    ensures
        join(parts, sep).len() > 0,
        join(parts, sep).first() == parts.first().first(),
        join(parts, sep).last() == parts.last().last(),
    decreases parts.len(),
{
    if parts.len() == 1 {
        assert(parts[0] == parts.last());
    } else {
        lemma_join_start(parts.drop_last(), sep);
        assert(parts.drop_last().first() == parts.first());
    }
}

/// Parts joined begin with the first part, when that is not empty.
pub proof fn lemma_join_start(parts: Seq<Seq<char>>, sep: Seq<char>)
    requires
        parts.len() >= 1,
        parts.first().len() > 0,
    ensures
        join(parts, sep).len() > 0,
        join(parts, sep).first() == parts.first().first(),
    decreases parts.len(),
{
    if parts.len() >= 2 {
        lemma_join_start(parts.drop_last(), sep);
        assert(parts.drop_last().first() == parts.first());
    }
}

/// No piece between separators holds the separator.
pub proof fn lemma_pieces_hold_no_separator(s: Seq<char>, sep: char, start: int, i: int)
    requires
        0 <= start <= i <= s.len(),
        forall|k: int| start <= k < i ==> s[k] != sep,
    ensures
        forall|k: int|
            0 <= k < split_on_from(s, sep, start, i).len() ==> !(#[trigger] split_on_from(
                s,
                sep,
                start,
                i,
            )[k]).contains(sep),
    decreases s.len() - i,
{
    let pieces = split_on_from(s, sep, start, i);
    assert forall|k: int| 0 <= k < pieces.len() implies !(#[trigger] pieces[k]).contains(sep) by {
        if i >= s.len() {
            assert(pieces[k] == s.subrange(start, s.len() as int));
        } else if s[i] == sep {
            lemma_pieces_hold_no_separator(s, sep, i + 1, i + 1);
            let tail = split_on_from(s, sep, i + 1, i + 1);
            assert(pieces =~= seq![s.subrange(start, i)] + tail);
            if k > 0 {
                assert(pieces[k] == tail[k - 1]);
            } else {
                assert(pieces[k] == s.subrange(start, i));
            }
        } else {
            lemma_pieces_hold_no_separator(s, sep, start, i + 1);
            assert(pieces[k] == split_on_from(s, sep, start, i + 1)[k]);
        }
    }
}

/// The first word from a scanning position on, when one has begun, begins
/// where it began.
pub proof fn lemma_begun_word(s: Seq<char>, start: int, i: int)
    requires
        0 <= start < i <= s.len(),
    ensures
        split_whitespace_from(s, start, i).len() > 0,
        split_whitespace_from(s, start, i)[0].len() > 0,
        split_whitespace_from(s, start, i)[0][0] == s[start],
    decreases s.len() - i,
{
    if i >= s.len() {
    } else if is_whitespace(s[i]) {
        assert(split_whitespace_from(s, start, i)[0] == s.subrange(start, i));
    } else {
        lemma_begun_word(s, start, i + 1);
    }
}

/// The first word of a text begins with the first character of the text
/// that is not whitespace.
pub proof fn lemma_first_word(s: Seq<char>, i: int)
    requires
        0 <= i <= s.len(),
        split_whitespace_from(s, i, i).len() > 0,
    ensures
        skip_whitespace(s, i) < s.len(),
        split_whitespace_from(s, i, i)[0].len() > 0,
        split_whitespace_from(s, i, i)[0][0] == s[skip_whitespace(s, i)],
    decreases s.len() - i,
{
    if i < s.len() {
        if is_whitespace(s[i]) {
            lemma_first_word(s, i + 1);
        } else {
            lemma_begun_word(s, i, i + 1);
        }
    }
}

/// The first piece of a text that has begun, from a scanning position on,
/// begins where it began and is not empty.
pub proof fn lemma_begun_piece(s: Seq<char>, sep: char, start: int, i: int)
    requires
        0 <= start < i <= s.len(),
    ensures
        split_on_from(s, sep, start, i).len() > 0,
        split_on_from(s, sep, start, i)[0].len() > 0,
    decreases s.len() - i,
{
    if i >= s.len() {
    } else if s[i] == sep {
        assert(split_on_from(s, sep, start, i)[0] == s.subrange(start, i));
    } else {
        lemma_begun_piece(s, sep, start, i + 1);
    }
}

} // verus!
