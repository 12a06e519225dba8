//! What the word packer's lines are made of. Two facts are carried through
//! the packing of any list of words: every line holds at least one
//! character of the words, so that no line is empty or left to the list
//! marker alone; and the lines hold nothing but characters of the words and
//! of the hanging indent, and spaces.

use crate::chars::{is_whitespace, lemma_trim, skip_whitespace, trim};
use crate::text_wrapper::pack::{all_lines, available, break_word, chunk_end, ends_with_space};
use crate::text_wrapper::pack::{is_marker_only, lemma_fit_count, LineState, list_marker, pack_word};
use crate::text_wrapper::pack::{pack_words, with_separator, with_space};
use crate::text_wrapper::types::WrapParams;
use crate::width::{char_width, display_width};
use vstd::prelude::*;

verus! {

/// Whether a character is no whitespace.
pub open spec fn is_solid_char(c: char) -> bool {
    !is_whitespace(c)
}

/// Whether a character is no line feed.
pub open spec fn is_no_feed(c: char) -> bool {
    c != '\n'
}

/// Whether the line holds a character of the kind `good`.
pub open spec fn has_some(line: Seq<char>, good: spec_fn(char) -> bool) -> bool {
    exists|k: int| 0 <= k < line.len() && good(#[trigger] line[k])
}

/// Whether the line holds only characters of the kind `ok`.
pub open spec fn holds_only(line: Seq<char>, ok: spec_fn(char) -> bool) -> bool {
    forall|k: int| 0 <= k < line.len() ==> ok(#[trigger] line[k])
}

/// Whether each of the lines holds a character of the kind `good`.
pub open spec fn each_has_some(lines: Seq<Seq<char>>, good: spec_fn(char) -> bool) -> bool {
    forall|k: int| 0 <= k < lines.len() ==> has_some(#[trigger] lines[k], good)
}

/// Whether each of the lines holds only characters of the kind `ok`.
pub open spec fn each_holds_only(lines: Seq<Seq<char>>, ok: spec_fn(char) -> bool) -> bool {
    forall|k: int| 0 <= k < lines.len() ==> holds_only(#[trigger] lines[k], ok)
}

/// What one part of a line holds, the whole line holds.
pub proof fn lemma_has_some_in(before: Seq<char>, part: Seq<char>, after: Seq<char>, good: spec_fn(char) -> bool)
    requires
        has_some(part, good),
    ensures
        has_some(before + part + after, good),
{
    let k = choose|k: int| 0 <= k < part.len() && good(#[trigger] part[k]);
    let line = before + part + after;
    assert(line[before.len() + k] == part[k]);
}

/// A line made of parts that hold only `ok` characters holds only such.
pub proof fn lemma_holds_only_concat(a: Seq<char>, b: Seq<char>, ok: spec_fn(char) -> bool)
    requires
        holds_only(a, ok),
        holds_only(b, ok),
    ensures
        holds_only(a + b, ok),
{
    assert forall|k: int| 0 <= k < (a + b).len() implies ok(#[trigger] (a + b)[k]) by {
        if k < a.len() {
            assert((a + b)[k] == a[k]);
        } else {
            assert((a + b)[k] == b[k - a.len()]);
        }
    }
}

/// A stretch of a line that holds only `ok` characters holds only such.
pub proof fn lemma_holds_only_part(a: Seq<char>, from: int, to: int, ok: spec_fn(char) -> bool)
    requires
        holds_only(a, ok),
        0 <= from <= to <= a.len(),
    ensures
        holds_only(a.subrange(from, to), ok),
{
    assert forall|k: int| 0 <= k < to - from implies ok(#[trigger] a.subrange(from, to)[k]) by {
        assert(a.subrange(from, to)[k] == a[from + k]);
    }
}

/// A line with a separating space added still holds only `ok` characters.
pub proof fn lemma_holds_only_spaced(line: Seq<char>, ok: spec_fn(char) -> bool)
    requires
        holds_only(line, ok),
        ok(' '),
    ensures
        holds_only(with_space(line), ok),
        holds_only(with_separator(line), ok),
        holds_only(line.push(' '), ok),
{
    assert forall|k: int| 0 <= k < line.push(' ').len() implies ok(#[trigger] line.push(' ')[k]) by {
        if k < line.len() {
            assert(line.push(' ')[k] == line[k]);
        }
    }
}

/// One more line that has what the others have.
pub proof fn lemma_each_has_some_push(lines: Seq<Seq<char>>, line: Seq<char>, good: spec_fn(char) -> bool)
    requires
        each_has_some(lines, good),
        has_some(line, good),
    ensures
        each_has_some(lines.push(line), good),
{
    assert forall|k: int| 0 <= k < lines.push(line).len() implies has_some(
        #[trigger] lines.push(line)[k],
        good,
    ) by {
        if k < lines.len() {
            assert(lines.push(line)[k] == lines[k]);
        }
    }
}

/// One more line that holds only what the others hold.
pub proof fn lemma_each_holds_only_push(lines: Seq<Seq<char>>, line: Seq<char>, ok: spec_fn(char) -> bool)
    requires
        each_holds_only(lines, ok),
        holds_only(line, ok),
    ensures
        each_holds_only(lines.push(line), ok),
{
    assert forall|k: int| 0 <= k < lines.push(line).len() implies holds_only(
        #[trigger] lines.push(line)[k],
        ok,
    ) by {
        if k < lines.len() {
            assert(lines.push(line)[k] == lines[k]);
        }
    }
}

/// Whether no character of the word is wider than `unit` columns.
pub open spec fn chars_within(word: Seq<char>, unit: nat) -> bool {
    forall|k: int| 0 <= k < word.len() ==> char_width(#[trigger] word[k]) <= unit
}

/// Whether a packer state is substantial: every finished line holds a
/// `good` character, and the line being filled holds one too, or is empty
/// with room for a character of `unit` columns, or holds only the list
/// marker with room for a space and such a character.
pub open spec fn substantial(st: LineState, good: spec_fn(char) -> bool, p: WrapParams, unit: nat) -> bool {
    &&& each_has_some(st.lines, good)
    &&& (has_some(st.cur, good) || (st.cur.len() == 0 && st.width + unit <= p.max_width) || (
    is_marker_only(st.cur) && st.width + 1 + unit <= p.max_width))
}

/// Breaking a word of `good` characters leaves every line with one of them,
/// as long as the first chunk has a line to join or room for a character.
pub proof fn lemma_break_word_substantial(
    st: LineState,
    word: Seq<char>,
    i: int,
    first: bool,
    good: spec_fn(char) -> bool,
    p: WrapParams,
)
    requires
        0 <= i < word.len(),
        holds_only(word, good),
        each_has_some(st.lines, good),
        first ==> has_some(st.cur, good) || available(st, p) >= char_width(word[i]),
    ensures
        each_has_some(break_word(st, word, i, first, p).lines, good),
        has_some(break_word(st, word, i, first, p).cur, good),
    decreases word.len() - i, (if first { 1int } else { 0int }),
{
    lemma_fit_count(word, i, available(st, p));
    let j = chunk_end(st, word, i, first, p);
    let chunk = word.subrange(i, j);
    let line = with_separator(st.cur) + chunk;
    if j > i {
        assert(chunk[0] == word[i]);
        assert(has_some(chunk, good));
        lemma_has_some_in(with_separator(st.cur), chunk, Seq::empty(), good);
        assert(with_separator(st.cur) + chunk + Seq::<char>::empty() =~= line);
    } else {
        assert(has_some(st.cur, good));
        lemma_has_some_in(Seq::empty(), st.cur, with_separator(st.cur).subrange(
            st.cur.len() as int,
            with_separator(st.cur).len() as int,
        ) + chunk, good);
        assert(Seq::<char>::empty() + st.cur + (with_separator(st.cur).subrange(
            st.cur.len() as int,
            with_separator(st.cur).len() as int,
        ) + chunk) =~= line);
    }
    if i <= j < word.len() && (j > i || first) {
        let next = LineState {
            lines: st.lines.push(line),
            cur: p.hanging_indent,
            width: display_width(p.hanging_indent),
        };
        lemma_each_has_some_push(st.lines, line, good);
        lemma_break_word_substantial(next, word, j, false, good, p);
    }
}

/// Placing a word of `good` characters keeps a state substantial, and puts
/// one of them on the line being filled.
pub proof fn lemma_pack_word_substantial(
    st: LineState,
    word: Seq<char>,
    good: spec_fn(char) -> bool,
    p: WrapParams,
    unit: nat,
)
    requires
        substantial(st, good, p, unit),
        word.len() > 0,
        holds_only(word, good),
        chars_within(word, unit),
        display_width(p.indent) + unit <= p.max_width,
    ensures
        each_has_some(pack_word(st, word, p).lines, good),
        has_some(pack_word(st, word, p).cur, good),
{
    let w = display_width(word);
    let sep: nat = if st.cur.len() == 0 {
        0
    } else {
        1
    };
    assert(has_some(word, good)) by {
        assert(good(word[0]));
    }
    assert(char_width(word[0]) <= unit);
    lemma_empty_is_no_marker();
    if st.width + sep + w <= p.max_width {
        let head = if st.cur.len() == 0 {
            st.cur
        } else {
            st.cur.push(' ')
        };
        lemma_has_some_in(head, word, Seq::empty(), good);
        assert(head + word + Seq::<char>::empty() =~= head + word);
    } else if p.break_long_words && w > p.max_width {
        if is_marker_only(st.cur) {
            let head = if ends_with_space(st.cur) {
                st
            } else {
                LineState { lines: st.lines, cur: st.cur.push(' '), width: st.width + 1 }
            };
            if has_some(st.cur, good) {
                lemma_has_some_in(Seq::empty(), st.cur, head.cur.subrange(
                    st.cur.len() as int,
                    head.cur.len() as int,
                ), good);
                assert(Seq::<char>::empty() + st.cur + head.cur.subrange(
                    st.cur.len() as int,
                    head.cur.len() as int,
                ) =~= head.cur);
            }
            lemma_break_word_substantial(head, word, 0, true, good, p);
        } else if st.cur.len() > 0 {
            let head = LineState {
                lines: st.lines.push(st.cur),
                cur: Seq::empty(),
                width: display_width(p.indent),
            };
            lemma_each_has_some_push(st.lines, st.cur, good);
            lemma_break_word_substantial(head, word, 0, true, good, p);
        } else {
            lemma_break_word_substantial(st, word, 0, true, good, p);
        }
    } else if is_marker_only(st.cur) {
        lemma_has_some_in(with_space(st.cur), word, Seq::empty(), good);
        assert(with_space(st.cur) + word + Seq::<char>::empty() =~= with_space(st.cur) + word);
    } else {
        lemma_has_some_in(p.hanging_indent, word, Seq::empty(), good);
        assert(p.hanging_indent + word + Seq::<char>::empty() =~= p.hanging_indent + word);
        if st.cur.len() > 0 {
            lemma_each_has_some_push(st.lines, st.cur, good);
        }
    }
}

/// A line that holds only the list marker holds a dash.
pub proof fn lemma_marker_has_dash(line: Seq<char>)
    requires
        is_marker_only(line),
    ensures
        line.contains('-'),
{
    assert(list_marker().len() == 1 && list_marker()[0] == '-');
    lemma_trim(line);
    let a = skip_whitespace(line, 0);
    assert(line[a] == trim(line)[0]);
}

/// No character is wider than two columns.
pub proof fn lemma_chars_within_two(word: Seq<char>)
    ensures
        chars_within(word, 2),
{
}

/// The empty line is not a line with only the list marker.
pub proof fn lemma_empty_is_no_marker()
    ensures
        !is_marker_only(Seq::<char>::empty()),
{
    assert(list_marker().len() == 1);
}

/// Placing words of `good` characters, at least one of them, leaves every
/// line with one of those characters.
pub proof fn lemma_pack_words_substantial(
    st: LineState,
    words: Seq<Seq<char>>,
    i: int,
    good: spec_fn(char) -> bool,
    p: WrapParams,
    unit: nat,
)
    requires
        0 <= i < words.len(),
        substantial(st, good, p, unit),
        forall|k: int|
            i <= k < words.len() ==> (#[trigger] words[k]).len() > 0 && holds_only(words[k], good)
                && chars_within(words[k], unit),
        display_width(p.indent) + unit <= p.max_width,
    ensures
        each_has_some(all_lines(pack_words(st, words, i, p)), good),
        pack_words(st, words, i, p).cur.len() > 0,
    decreases words.len() - i,
{
    lemma_pack_word_substantial(st, words[i], good, p, unit);
    let next = pack_word(st, words[i], p);
    if i + 1 < words.len() {
        lemma_pack_words_substantial(next, words, i + 1, good, p, unit);
    } else {
        assert(pack_words(next, words, i + 1, p) == next);
        lemma_each_has_some_push(next.lines, next.cur, good);
    }
}

/// Whether a packer state is made of `ok` characters only.
pub open spec fn made_of(st: LineState, ok: spec_fn(char) -> bool) -> bool {
    each_holds_only(st.lines, ok) && holds_only(st.cur, ok)
}

/// Breaking a word keeps a state made of `ok` characters.
pub proof fn lemma_break_word_made_of(
    st: LineState,
    word: Seq<char>,
    i: int,
    first: bool,
    ok: spec_fn(char) -> bool,
    p: WrapParams,
)
    requires
        0 <= i <= word.len(),
        made_of(st, ok),
        holds_only(word, ok),
        holds_only(p.hanging_indent, ok),
        ok(' '),
    ensures
        made_of(break_word(st, word, i, first, p), ok),
    decreases word.len() - i, (if first { 1int } else { 0int }),
{
    if i < word.len() {
        lemma_fit_count(word, i, available(st, p));
        let j = chunk_end(st, word, i, first, p);
        let line = with_separator(st.cur) + word.subrange(i, j);
        lemma_holds_only_spaced(st.cur, ok);
        lemma_holds_only_part(word, i, j, ok);
        lemma_holds_only_concat(with_separator(st.cur), word.subrange(i, j), ok);
        if i <= j < word.len() && (j > i || first) {
            let next = LineState {
                lines: st.lines.push(line),
                cur: p.hanging_indent,
                width: display_width(p.hanging_indent),
            };
            lemma_each_holds_only_push(st.lines, line, ok);
            lemma_break_word_made_of(next, word, j, false, ok, p);
        }
    }
}

/// Placing a word keeps a state made of `ok` characters.
pub proof fn lemma_pack_word_made_of(st: LineState, word: Seq<char>, ok: spec_fn(char) -> bool, p: WrapParams)
    requires
        made_of(st, ok),
        holds_only(word, ok),
        holds_only(p.hanging_indent, ok),
        ok(' '),
    ensures
        made_of(pack_word(st, word, p), ok),
{
    let w = display_width(word);
    let sep: nat = if st.cur.len() == 0 {
        0
    } else {
        1
    };
    lemma_holds_only_spaced(st.cur, ok);
    if st.cur.len() > 0 {
        lemma_each_holds_only_push(st.lines, st.cur, ok);
    }
    if st.width + sep + w <= p.max_width {
        if st.cur.len() == 0 {
            lemma_holds_only_concat(st.cur, word, ok);
        } else {
            lemma_holds_only_concat(st.cur.push(' '), word, ok);
        }
    } else if p.break_long_words && w > p.max_width {
        if is_marker_only(st.cur) {
            if ends_with_space(st.cur) {
                lemma_break_word_made_of(st, word, 0, true, ok, p);
            } else {
                lemma_break_word_made_of(
                    LineState { lines: st.lines, cur: st.cur.push(' '), width: st.width + 1 },
                    word,
                    0,
                    true,
                    ok,
                    p,
                );
            }
        } else if st.cur.len() > 0 {
            lemma_break_word_made_of(
                LineState {
                    lines: st.lines.push(st.cur),
                    cur: Seq::empty(),
                    width: display_width(p.indent),
                },
                word,
                0,
                true,
                ok,
                p,
            );
        } else {
            lemma_break_word_made_of(st, word, 0, true, ok, p);
        }
    } else if is_marker_only(st.cur) {
        lemma_holds_only_concat(with_space(st.cur), word, ok);
    } else {
        lemma_holds_only_concat(p.hanging_indent, word, ok);
    }
}

/// Placing words keeps a state made of `ok` characters.
pub proof fn lemma_pack_words_made_of(
    st: LineState,
    words: Seq<Seq<char>>,
    i: int,
    ok: spec_fn(char) -> bool,
    p: WrapParams,
)
    requires
        0 <= i <= words.len(),
        made_of(st, ok),
        forall|k: int| 0 <= k < words.len() ==> holds_only(#[trigger] words[k], ok),
        holds_only(p.hanging_indent, ok),
        ok(' '),
    ensures
        each_holds_only(all_lines(pack_words(st, words, i, p)), ok),
    decreases words.len() - i,
{
    if i < words.len() {
        lemma_pack_word_made_of(st, words[i], ok, p);
        lemma_pack_words_made_of(pack_word(st, words[i], p), words, i + 1, ok, p);
    } else {
        if st.cur.len() > 0 {
            lemma_each_holds_only_push(st.lines, st.cur, ok);
        }
    }
}

} // verus!
