//! The width bound: no line of the wrapped text is wider than the
//! configured width, except where something in the text forces the packer to
//! overrun it.
//!
//! A line that begins with a list marker may be wider: the packer never
//! leaves the marker alone, so it puts the next word or segment on the
//! marker's line whether it fits or not. The statements here allow for such
//! lines and leave out what else can force an overrun: a unit that must stay
//! whole and is wider than a line (inline code, a link, a code block, a word
//! when word breaking is off, a character wider than the whole line), and an
//! indent, which is put before units that were measured without it.

use crate::chars::{is_whitespace, lemma_skip_whitespace, lemma_skip_whitespace_back, lemma_trim};
use crate::chars::{skip_whitespace, skip_whitespace_back, trim};
use crate::split::{is_part_of, is_solid, join, lemma_part_chars, lemma_pieces_are_parts};
use crate::split::{lemma_words_are_parts, lemma_words_are_solid, physical_lines, split_on};
use crate::text_wrapper::flow::{FlowState, initial_flow, is_list_item, pack_segments};
use crate::text_wrapper::flow::{place_segment, place_segments, render_segment};
use crate::text_wrapper::hybrid_wrapper::hybrid_wrap;
use crate::text_wrapper::pack::{available, break_word, chunk_end, ends_with_space, initial_state};
use crate::text_wrapper::pack::{is_marker_only, lemma_fit_count, LineState, list_marker, pack_word};
use crate::text_wrapper::pack::{pack_words, packed_lines, with_separator, with_space, words_of};
use crate::text_wrapper::pack::wrap_words;
use crate::text_wrapper::paragraph::{paragraph_break, paragraphs, wrap_each, wrap_lines};
use crate::text_wrapper::segment::segments;
use crate::text_wrapper::theory::atomicity::{is_unit_of, lemma_wrap_each_index};
use crate::text_wrapper::theory::atomicity::{lemma_wrap_each_len, lemma_wrap_lines_index};
use crate::text_wrapper::theory::atomicity::lemma_wrap_lines_len;
use crate::text_wrapper::theory::line_width::{all_feeds, all_fit, all_narrow, end_column, end_lead};
use crate::text_wrapper::theory::line_width::{is_marked, Lead, lead_after, lemma_column_after_feed};
use crate::text_wrapper::theory::line_width::{lemma_end_push, lemma_feeds_within};
use crate::text_wrapper::theory::line_width::{lemma_join_within, lemma_lines_fit_by_line};
use crate::text_wrapper::theory::line_width::{lemma_narrow_within, lemma_within_behind_marker};
use crate::text_wrapper::theory::line_width::{lemma_within_concat, lines_fit, within};
use crate::text_wrapper::theory::pack_facts::{chars_within, each_has_some, has_some, holds_only};
use crate::text_wrapper::theory::pack_facts::{is_no_feed, is_solid_char, lemma_marker_has_dash};
use crate::text_wrapper::theory::pack_facts::lemma_pack_words_made_of;
use crate::text_wrapper::theory::pack_facts::{lemma_pack_words_substantial, made_of, substantial};
use crate::text_wrapper::types::{SegmentView, WrapParams};
use crate::width::{char_width, display_width, lemma_width_concat, lemma_width_push};
use vstd::prelude::*;

verus! {

/// What the beginning of a line with only the list marker reads as, up to
/// each of its characters: blank before the dash, a dash at it, and a
/// marker behind it.
pub proof fn lemma_lead_of_marker(line: Seq<char>, at: int, k: int)
    requires
        0 <= at < line.len(),
        line[at] == '-',
        forall|j: int| 0 <= j < line.len() && j != at ==> is_whitespace(#[trigger] line[j]),
        !line.contains('\n'),
        0 <= k <= line.len(),
    ensures
        end_lead(line.take(k), Lead::Blank) == (if k <= at {
            Lead::Blank
        } else if k == at + 1 {
            Lead::Dash
        } else {
            Lead::Marked
        }),
    decreases k,
{
    if k > 0 {
        lemma_lead_of_marker(line, at, k - 1);
        assert(line.take(k) =~= line.take(k - 1).push(line[k - 1]));
        lemma_end_push(line.take(k - 1), line[k - 1], 0, Lead::Blank);
        assert(line.contains(line[k - 1]));
        assert(!is_whitespace('-'));
    } else {
        assert(line.take(0) =~= Seq::<char>::empty());
    }
}

/// A line with only the list marker, and without a line feed, begins with a
/// dash; with a space behind it, it begins with a list marker.
pub proof fn lemma_marker_lead(line: Seq<char>)
    requires
        is_marker_only(line),
        !line.contains('\n'),
    ensures
        end_lead(line, Lead::Blank).is_bare(),
        end_lead(with_space(line), Lead::Blank) is Marked,
        ends_with_space(line) ==> end_lead(line, Lead::Blank) is Marked,
{
    assert(list_marker().len() == 1 && list_marker()[0] == '-');
    lemma_trim(line);
    lemma_skip_whitespace(line, 0);
    lemma_skip_whitespace_back(line, line.len() as int);
    let at = skip_whitespace(line, 0);
    assert(skip_whitespace_back(line, line.len() as int) == at + 1);
    assert(line[at] == trim(line)[0]);
    lemma_lead_of_marker(line, at, line.len() as int);
    assert(line.take(line.len() as int) =~= line);
    lemma_end_push(line, ' ', 0, Lead::Blank);
    assert(is_whitespace(' '));
    if ends_with_space(line) {
        assert(line.last() != '-');
    }
}

/// A line whose lines fit, with a character added that starts no new line,
/// still has lines that fit when the character fits or stands behind a list
/// marker.
pub proof fn lemma_lines_fit_push(line: Seq<char>, c: char, max: nat)
    requires
        lines_fit(line, max),
        c != '\n',
        end_column(line, 0) + char_width(c) <= max || lead_after_end(line, c).is_marker(),
    ensures
        lines_fit(line.push(c), max),
{
    let one = seq![c];
    lemma_within_concat(line, one, 0, Lead::Blank, max);
    assert(line + one =~= line.push(c));
    assert(one[0] == c);
    assert(one.drop_first().len() == 0);
    assert(within(
        one.drop_first(),
        end_column(line, 0) + char_width(c),
        lead_after_end(line, c),
        max,
    ));
}

/// What a line begins with once the character `c` is added to it.
pub open spec fn lead_after_end(line: Seq<char>, c: char) -> Lead {
    lead_after(end_lead(line, Lead::Blank), c)
}

/// Behind a line that begins with a list marker anything may follow whose
/// own lines fit.
pub proof fn lemma_marked_takes(line: Seq<char>, more: Seq<char>, max: nat)
    requires
        lines_fit(line, max),
        is_marked(line),
        lines_fit(more, max),
    ensures
        lines_fit(line + more, max),
{
    lemma_within_concat(line, more, 0, Lead::Blank, max);
    lemma_within_behind_marker(
        more,
        0,
        Lead::Blank,
        end_column(line, 0),
        end_lead(line, Lead::Blank),
        max,
    );
}

/// A line with only the list marker takes a space and whatever follows,
/// when the lines of that fit.
pub proof fn lemma_marker_takes(line: Seq<char>, more: Seq<char>, max: nat)
    requires
        is_marker_only(line),
        !line.contains('\n'),
        lines_fit(line, max),
        lines_fit(more, max),
    ensures
        lines_fit(with_space(line), max),
        is_marked(with_space(line)),
        lines_fit(with_space(line) + more, max),
{
    lemma_marker_lead(line);
    if !ends_with_space(line) {
        assert(is_whitespace(' '));
        lemma_lines_fit_push(line, ' ', max);
    }
    lemma_marked_takes(with_space(line), more, max);
}

/// Whether a word can be placed without overrunning the width: each of its
/// characters fits on a line, and the word fits on a line as a whole unless
/// it may be broken. With words preserved it holds no line feed; otherwise
/// it holds no dash.
pub open spec fn word_fits(word: Seq<char>, p: WrapParams) -> bool {
    &&& chars_within(word, p.max_width)
    &&& (p.break_long_words || display_width(word) <= p.max_width)
    &&& if p.preserve_words {
        !word.contains('\n')
    } else {
        !word.contains('-')
    }
}

/// Whether a plain text can be reflowed without overrunning the width: each
/// of its characters fits on a line, and each of its words fits on a line
/// unless words may be broken. When words are not preserved, so that a word
/// may hold whitespace, the text holds no dash.
pub open spec fn plain_text_fits(text: Seq<char>, p: WrapParams) -> bool {
    &&& chars_within(text, p.max_width)
    &&& (p.break_long_words || all_narrow(words_of(text, p), p.max_width))
    &&& (p.preserve_words || !text.contains('-'))
}

/// The words of a text that fits all fit.
pub proof fn lemma_words_fit(text: Seq<char>, p: WrapParams)
    requires
        plain_text_fits(text, p),
    ensures
        forall|i: int| 0 <= i < words_of(text, p).len() ==> word_fits(#[trigger] words_of(text, p)[i], p),
{
    let words = words_of(text, p);
    if p.preserve_words {
        lemma_words_are_parts(text, 0, 0);
        lemma_words_are_solid(text, 0, 0);
    } else {
        lemma_pieces_are_parts(text, ' ', 0, 0);
    }
    assert forall|i: int| 0 <= i < words.len() implies word_fits(#[trigger] words[i], p) by {
        let word = words[i];
        assert(is_part_of(word, text));
        if p.preserve_words {
            assert(is_solid(word));
            if word.contains('\n') {
                let j = choose|j: int| 0 <= j < word.len() && word[j] == '\n';
                assert(!is_whitespace(word[j]));
            }
        } else if word.contains('-') {
            let j = choose|j: int| 0 <= j < word.len() && word[j] == '-';
            lemma_part_chars(word, text, j);
        }
        assert forall|k: int| 0 <= k < word.len() implies char_width(#[trigger] word[k])
            <= p.max_width by {
            lemma_part_chars(word, text, k);
            let t = choose|t: int| 0 <= t < text.len() && text[t] == word[k];
            assert(char_width(text[t]) <= p.max_width);
        }
    }
}

/// Whether a line is free of what the packer must not meet in it: of line
/// feeds when words are preserved, of dashes otherwise.
pub open spec fn is_clean(line: Seq<char>, p: WrapParams) -> bool {
    if p.preserve_words {
        !line.contains('\n')
    } else {
        !line.contains('-')
    }
}

/// Two clean lines, with or without a space between them, make a clean
/// line.
pub proof fn lemma_clean_concat(a: Seq<char>, b: Seq<char>, p: WrapParams)
    requires
        is_clean(a, p),
        is_clean(b, p),
    ensures
        is_clean(a + b, p),
        is_clean(a.push(' '), p),
        is_clean(with_space(a), p),
        is_clean(with_separator(a), p),
{
    let bad = if p.preserve_words {
        '\n'
    } else {
        '-'
    };
    if (a + b).contains(bad) {
        let t = choose|t: int| 0 <= t < (a + b).len() && (a + b)[t] == bad;
        if t < a.len() {
            assert(a[t] == bad);
        } else {
            assert(b[t - a.len()] == bad);
        }
    }
    if a.push(' ').contains(bad) {
        let t = choose|t: int| 0 <= t < a.push(' ').len() && a.push(' ')[t] == bad;
        if t < a.len() {
            assert(a[t] == bad);
        }
    }
}

/// A stretch of a clean line is clean.
pub proof fn lemma_clean_part(a: Seq<char>, from: int, to: int, p: WrapParams)
    requires
        is_clean(a, p),
        0 <= from <= to <= a.len(),
    ensures
        is_clean(a.subrange(from, to), p),
{
    let bad = if p.preserve_words {
        '\n'
    } else {
        '-'
    };
    let part = a.subrange(from, to);
    if part.contains(bad) {
        let t = choose|t: int| 0 <= t < part.len() && part[t] == bad;
        assert(a[from + t] == bad);
    }
}

/// Whether each of the lines keeps within the width.
pub open spec fn each_fits(lines: Seq<Seq<char>>, max: nat) -> bool {
    forall|k: int| 0 <= k < lines.len() ==> lines_fit(#[trigger] lines[k], max)
}

/// One more line that keeps within the width.
pub proof fn lemma_each_fits_push(lines: Seq<Seq<char>>, line: Seq<char>, max: nat)
    requires
        each_fits(lines, max),
        lines_fit(line, max),
    ensures
        each_fits(lines.push(line), max),
{
    assert forall|k: int| 0 <= k < lines.push(line).len() implies lines_fit(
        #[trigger] lines.push(line)[k],
        max,
    ) by {
        if k < lines.len() {
            assert(lines.push(line)[k] == lines[k]);
        }
    }
}

/// Whether a packer state is in order for the width bound: every finished
/// line and the line being filled keep within the width, the column count
/// is the width of the line being filled, and that line is clean.
pub open spec fn in_bounds(st: LineState, p: WrapParams) -> bool {
    &&& each_fits(st.lines, p.max_width)
    &&& st.width == display_width(st.cur)
    &&& lines_fit(st.cur, p.max_width)
    &&& is_clean(st.cur, p)
}

/// Breaking a word keeps the state in order, on an empty line and on a line
/// that holds a list marker and its space.
pub proof fn lemma_break_word_in_bounds(st: LineState, word: Seq<char>, i: int, first: bool, p: WrapParams)
    requires
        p.hanging_indent.len() == 0,
        in_bounds(st, p),
        st.cur.len() == 0 || (first && p.preserve_words && ends_with_space(st.cur) && is_marked(
            st.cur,
        )),
        0 <= i <= word.len(),
        chars_within(word, p.max_width),
        is_clean(word, p),
    ensures
        in_bounds(break_word(st, word, i, first, p), p),
    decreases word.len() - i, (if first { 1int } else { 0int }),
{
    let max = p.max_width;
    assert(display_width(Seq::<char>::empty()) == 0);
    if i < word.len() {
        lemma_fit_count(word, i, available(st, p));
        let j = chunk_end(st, word, i, first, p);
        let chunk = word.subrange(i, j);
        let line = with_separator(st.cur) + chunk;
        assert(char_width(word[i]) <= max);
        lemma_clean_part(word, i, j, p);
        lemma_clean_concat(st.cur, chunk, p);
        if st.cur.len() == 0 {
            assert(available(st, p) == max);
            assert(line =~= chunk);
            lemma_narrow_within(chunk, 0, Lead::Blank, max);
        } else {
            assert(with_separator(st.cur) == st.cur);
            lemma_narrow_within(chunk, 0, Lead::Blank, max);
            lemma_marked_takes(st.cur, chunk, max);
        }
        if i <= j < word.len() && (j > i || first) {
            let next = LineState {
                lines: st.lines.push(line),
                cur: p.hanging_indent,
                width: display_width(p.hanging_indent),
            };
            assert(p.hanging_indent =~= Seq::<char>::empty());
            lemma_each_fits_push(st.lines, line, max);
            lemma_break_word_in_bounds(next, word, j, false, p);
        }
    }
}

/// Placing a word that fits keeps the state in order.
pub proof fn lemma_pack_word_in_bounds(st: LineState, word: Seq<char>, p: WrapParams)
    requires
        p.indent.len() == 0,
        p.hanging_indent.len() == 0,
        in_bounds(st, p),
        word_fits(word, p),
    ensures
        in_bounds(pack_word(st, word, p), p),
{
    let max = p.max_width;
    let w = display_width(word);
    let sep: nat = if st.cur.len() == 0 {
        0
    } else {
        1
    };
    assert(display_width(Seq::<char>::empty()) == 0);
    assert(p.indent =~= Seq::<char>::empty());
    assert(p.hanging_indent =~= Seq::<char>::empty());
    lemma_clean_concat(st.cur, word, p);
    lemma_clean_concat(st.cur.push(' '), word, p);
    lemma_clean_concat(with_space(st.cur), word, p);
    if is_marker_only(st.cur) && !p.preserve_words {
        lemma_marker_has_dash(st.cur);
    }
    if st.cur.len() > 0 {
        lemma_each_fits_push(st.lines, st.cur, max);
    }
    if st.width + sep + w <= max {
        let line = (if st.cur.len() == 0 {
            st.cur
        } else {
            st.cur.push(' ')
        }) + word;
        if st.cur.len() > 0 {
            lemma_width_push(st.cur, ' ');
            lemma_width_concat(st.cur.push(' '), word);
        } else {
            lemma_width_concat(st.cur, word);
        }
        lemma_narrow_within(line, 0, Lead::Blank, max);
    } else if p.break_long_words && w > max {
        if is_marker_only(st.cur) {
            lemma_marker_takes(st.cur, Seq::empty(), max);
            lemma_marker_lead(st.cur);
            let head = LineState { lines: st.lines, cur: with_space(st.cur), width: display_width(with_space(st.cur)) };
            if !ends_with_space(st.cur) {
                lemma_width_push(st.cur, ' ');
            }
            assert(pack_word(st, word, p) == break_word(head, word, 0, true, p));
            lemma_break_word_in_bounds(head, word, 0, true, p);
        } else if st.cur.len() > 0 {
            let head = LineState { lines: st.lines.push(st.cur), cur: Seq::empty(), width: 0 };
            assert(pack_word(st, word, p) == break_word(head, word, 0, true, p));
            lemma_break_word_in_bounds(head, word, 0, true, p);
        } else {
            lemma_break_word_in_bounds(st, word, 0, true, p);
        }
    } else if is_marker_only(st.cur) {
        lemma_narrow_within(word, 0, Lead::Blank, max);
        lemma_marker_takes(st.cur, word, max);
    } else {
        let line = p.hanging_indent + word;
        assert(line =~= word);
        lemma_narrow_within(word, 0, Lead::Blank, max);
    }
}

/// Placing words that fit keeps the state in order.
pub proof fn lemma_pack_words_in_bounds(st: LineState, words: Seq<Seq<char>>, i: int, p: WrapParams)
    requires
        p.indent.len() == 0,
        p.hanging_indent.len() == 0,
        in_bounds(st, p),
        0 <= i <= words.len(),
        forall|k: int| 0 <= k < words.len() ==> word_fits(#[trigger] words[k], p),
    ensures
        in_bounds(pack_words(st, words, i, p), p),
    decreases words.len() - i,
{
    if i < words.len() {
        lemma_pack_word_in_bounds(st, words[i], p);
        lemma_pack_words_in_bounds(pack_word(st, words[i], p), words, i + 1, p);
    }
}

/// The word packer keeps to the width: with no indents, every line of a
/// reflowed plain text that fits is no wider than the configured width, or
/// begins with a list marker.
pub proof fn reflowed_lines_fit(text: Seq<char>, p: WrapParams)
    requires
        p.indent.len() == 0,
        p.hanging_indent.len() == 0,
        plain_text_fits(text, p),
    ensures
        lines_fit(wrap_words(text, p), p.max_width),
        all_fit(split_on(wrap_words(text, p), '\n'), p.max_width),
{
    let start = initial_state(p);
    assert(p.indent =~= Seq::<char>::empty());
    assert(display_width(Seq::<char>::empty()) == 0);
    lemma_words_fit(text, p);
    lemma_pack_words_in_bounds(start, words_of(text, p), 0, p);
    let end = pack_words(start, words_of(text, p), 0, p);
    if end.cur.len() > 0 {
        lemma_each_fits_push(end.lines, end.cur, p.max_width);
    }
    assert(all_feeds(seq!['\n']));
    lemma_join_within(packed_lines(text, p), seq!['\n'], p.max_width);
    lemma_lines_fit_by_line(wrap_words(text, p), p.max_width);
}

/// Whether a text holds two characters that are not whitespace.
pub open spec fn has_two_solid(x: Seq<char>) -> bool {
    exists|i: int, j: int|
        0 <= i < j < x.len() && !is_whitespace(#[trigger] x[i]) && !is_whitespace(#[trigger] x[j])
}

/// Whether a text is steady: when it spans several lines, it holds two
/// characters that are not whitespace. Such a text is never mistaken for a
/// list marker, and nothing that holds it is.
pub open spec fn is_steady(x: Seq<char>) -> bool {
    x.contains('\n') ==> has_two_solid(x)
}

/// A text that holds two characters other than whitespace holds more than a
/// list marker.
pub proof fn lemma_two_solid_is_no_marker(x: Seq<char>)
    requires
        has_two_solid(x),
    ensures
        !is_marker_only(x),
{
    if is_marker_only(x) {
        let (i, j) = choose|i: int, j: int|
            0 <= i < j < x.len() && !is_whitespace(#[trigger] x[i]) && !is_whitespace(
                #[trigger] x[j],
            );
        assert(list_marker().len() == 1);
        lemma_trim(x);
        lemma_skip_whitespace(x, 0);
        lemma_skip_whitespace_back(x, x.len() as int);
    }
}

/// What holds a text with two characters other than whitespace holds two
/// such characters.
pub proof fn lemma_two_solid_in(before: Seq<char>, x: Seq<char>, after: Seq<char>)
    requires
        has_two_solid(x),
    ensures
        has_two_solid(before + x + after),
{
    let (i, j) = choose|i: int, j: int|
        0 <= i < j < x.len() && !is_whitespace(#[trigger] x[i]) && !is_whitespace(#[trigger] x[j]);
    let whole = before + x + after;
    assert(whole[before.len() + i] == x[i]);
    assert(whole[before.len() + j] == x[j]);
}

/// A line feed in a concatenation is in one of its parts.
pub proof fn lemma_feed_in_concat(a: Seq<char>, b: Seq<char>)
    requires
        (a + b).contains('\n'),
    ensures
        a.contains('\n') || b.contains('\n'),
{
    let t = choose|t: int| 0 <= t < (a + b).len() && (a + b)[t] == '\n';
    if t < a.len() {
        assert(a[t] == '\n');
    } else {
        assert(b[t - a.len()] == '\n');
    }
}

/// Two steady texts, one after the other, are a steady text.
pub proof fn lemma_steady_concat(a: Seq<char>, b: Seq<char>)
    requires
        is_steady(a),
        is_steady(b),
    ensures
        is_steady(a + b),
{
    if (a + b).contains('\n') {
        lemma_feed_in_concat(a, b);
        if a.contains('\n') {
            lemma_two_solid_in(Seq::empty(), a, b);
            assert(Seq::<char>::empty() + a + b =~= a + b);
        } else {
            lemma_two_solid_in(a, b, Seq::empty());
            assert(a + b + Seq::<char>::empty() =~= a + b);
        }
    }
}

/// Lines that each hold a character other than whitespace, two of them or
/// more, hold two such characters when they are joined.
pub proof fn lemma_joined_lines_two_solid(lines: Seq<Seq<char>>, sep: Seq<char>)
    requires
        lines.len() >= 2,
        each_has_some(lines, |c: char| is_solid_char(c)),
    ensures
        has_two_solid(join(lines, sep)),
    decreases lines.len(),
{
    let good = |c: char| is_solid_char(c);
    let init = lines.drop_last();
    let head = join(init, sep);
    assert(has_some(lines.last(), good));
    assert(has_some(lines[0], good));
    let j = choose|j: int| 0 <= j < lines.last().len() && good(#[trigger] lines.last()[j]);
    let whole = join(lines, sep);
    assert(whole[head.len() + sep.len() + j] == lines.last()[j]);
    if init.len() == 1 {
        assert(init[0] == lines[0]);
        let i = choose|i: int| 0 <= i < lines[0].len() && good(#[trigger] lines[0][i]);
        assert(whole[i] == lines[0][i]);
        assert(!is_whitespace(whole[i]) && !is_whitespace(whole[head.len() + sep.len() + j]));
    } else {
        assert forall|k: int| 0 <= k < init.len() implies has_some(#[trigger] init[k], good) by {
            assert(init[k] == lines[k]);
        }
        lemma_joined_lines_two_solid(init, sep);
        lemma_two_solid_in(Seq::empty(), head, sep + lines.last());
        assert(Seq::<char>::empty() + head + (sep + lines.last()) =~= whole);
    }
}

/// A reflowed plain text that fits is steady.
pub proof fn lemma_reflowed_is_steady(text: Seq<char>, p: WrapParams)
    requires
        p.preserve_words,
        p.indent.len() == 0,
        p.hanging_indent.len() == 0,
        plain_text_fits(text, p),
    ensures
        is_steady(wrap_words(text, p)),
{
    let good = |c: char| is_solid_char(c);
    let ok = |c: char| is_no_feed(c);
    let words = words_of(text, p);
    let start = initial_state(p);
    let lines = packed_lines(text, p);
    let feed = seq!['\n'];
    assert(p.indent =~= Seq::<char>::empty());
    assert(p.hanging_indent =~= Seq::<char>::empty());
    assert(display_width(Seq::<char>::empty()) == 0);
    lemma_words_fit(text, p);
    lemma_words_are_solid(text, 0, 0);
    assert forall|k: int| 0 <= k < words.len() implies (#[trigger] words[k]).len() > 0 && holds_only(
        words[k],
        good,
    ) && holds_only(words[k], ok) && chars_within(words[k], p.max_width) by {
        assert(is_solid(words[k]));
        assert(word_fits(words[k], p));
        assert forall|j: int| 0 <= j < words[k].len() implies ok(#[trigger] words[k][j]) by {
            assert(!is_whitespace(words[k][j]));
        }
    }
    assert(made_of(start, ok));
    lemma_pack_words_made_of(start, words, 0, ok, p);
    if words.len() > 0 {
        assert(substantial(start, good, p, p.max_width));
        lemma_pack_words_substantial(start, words, 0, good, p, p.max_width);
    } else {
        assert(lines =~= Seq::<Seq<char>>::empty());
    }
    if lines.len() >= 2 {
        lemma_joined_lines_two_solid(lines, feed);
    } else if lines.len() == 1 {
        assert(holds_only(lines[0], ok));
        if lines[0].contains('\n') {
            let j = choose|j: int| 0 <= j < lines[0].len() && lines[0][j] == '\n';
            assert(ok(lines[0][j]));
        }
    }
}

/// Whether a segment is reflowed when it is rendered: it is plain text, and
/// plain text is reflowed.
pub open spec fn is_reflowed(segment: SegmentView, p: WrapParams) -> bool {
    segment is PlainText && p.handle_code_blocks
}

/// Whether a segment can be placed without overrunning the width: plain
/// text that is reflowed fits as plain text; any other segment, which is
/// placed as it stands, has an output form whose lines fit.
pub open spec fn segment_fits(segment: SegmentView, p: WrapParams) -> bool {
    match segment {
        SegmentView::PlainText(text) => if p.handle_code_blocks {
            plain_text_fits(text, p)
        } else {
            lines_fit(text, p.max_width)
        },
        _ => lines_fit(render_segment(segment, p), p.max_width),
    }
}

/// Whether a segment list can be packed without overrunning the width:
/// each of its segments fits; and when it begins a list item, words are
/// preserved and every segment that is placed as it stands is steady.
pub open spec fn segments_fit(segments: Seq<SegmentView>, p: WrapParams) -> bool {
    &&& forall|k: int| 0 <= k < segments.len() ==> segment_fits(#[trigger] segments[k], p)
    &&& is_list_item(segments) ==> p.preserve_words && forall|k: int|
        0 <= k < segments.len() ==> is_reflowed(#[trigger] segments[k], p) || is_steady(
            render_segment(segments[k], p),
        )
}

/// The output form of a segment of a list that fits has lines that fit, and
/// is steady when the list begins a list item.
pub proof fn lemma_rendered_fits(segments: Seq<SegmentView>, k: int, p: WrapParams)
    requires
        p.indent.len() == 0,
        p.hanging_indent.len() == 0,
        segments_fit(segments, p),
        0 <= k < segments.len(),
    ensures
        lines_fit(render_segment(segments[k], p), p.max_width),
        is_list_item(segments) ==> is_steady(render_segment(segments[k], p)),
{
    assert(segment_fits(segments[k], p));
    match segments[k] {
        SegmentView::PlainText(text) => {
            if p.handle_code_blocks {
                reflowed_lines_fit(text, p);
                if is_list_item(segments) {
                    lemma_reflowed_is_steady(text, p);
                }
            }
        },
        _ => {},
    }
}

/// Whether a flow state is in order for the width bound: the finished
/// output keeps within the width and is empty or ends in a line feed, and
/// the line being filled keeps within the width and, in a list item, is
/// steady.
pub open spec fn flow_in_bounds(st: FlowState, list_item: bool, max: nat) -> bool {
    &&& lines_fit(st.out, max)
    &&& (st.out.len() == 0 || st.out.last() == '\n')
    &&& lines_fit(st.cur, max)
    &&& list_item ==> is_steady(st.cur)
}

/// After what is empty or ends in a line feed a new line begins.
pub proof fn lemma_column_after_lines(s: Seq<char>)
    requires
        s.len() == 0 || s.last() == '\n',
    ensures
        end_column(s, 0) == 0,
        end_lead(s, Lead::Blank) == Lead::Blank,
{
    if s.len() > 0 {
        lemma_column_after_feed(s, 0, Lead::Blank);
    }
}

/// Placing a segment whose output form fits keeps the state in order.
pub proof fn lemma_place_segment_in_bounds(
    st: FlowState,
    rendered: Seq<char>,
    list_item: bool,
    p: WrapParams,
)
    requires
        p.indent.len() == 0,
        p.hanging_indent.len() == 0,
        flow_in_bounds(st, list_item, p.max_width),
        lines_fit(rendered, p.max_width),
        list_item ==> is_steady(rendered),
    ensures
        flow_in_bounds(place_segment(st, rendered, list_item, p), list_item, p.max_width),
{
    let max = p.max_width;
    if display_width(st.cur) + display_width(rendered) <= max {
        lemma_width_concat(st.cur, rendered);
        lemma_narrow_within(st.cur + rendered, 0, Lead::Blank, max);
        if list_item {
            lemma_steady_concat(st.cur, rendered);
        }
    } else if list_item && is_marker_only(st.cur) {
        if st.cur.contains('\n') {
            lemma_two_solid_is_no_marker(st.cur);
        }
        lemma_marker_takes(st.cur, rendered, max);
        if with_space(st.cur).contains('\n') {
            let t = choose|t: int|
                0 <= t < with_space(st.cur).len() && with_space(st.cur)[t] == '\n';
            if t < st.cur.len() {
                assert(st.cur[t] == '\n');
            }
        }
        lemma_steady_concat(with_space(st.cur), rendered);
    } else {
        assert(p.indent + p.hanging_indent + rendered =~= rendered);
        if st.cur.len() > 0 {
            let feed = seq!['\n'];
            lemma_column_after_lines(st.out);
            lemma_within_concat(st.out, st.cur, 0, Lead::Blank, max);
            lemma_within_concat(st.out + st.cur, feed, 0, Lead::Blank, max);
            assert(all_feeds(feed));
            lemma_feeds_within(
                feed,
                end_column(st.out + st.cur, 0),
                end_lead(st.out + st.cur, Lead::Blank),
                max,
            );
            assert((st.out + st.cur + feed).last() == '\n');
        }
    }
}

/// Placing the segments of a list that fits keeps the state in order.
pub proof fn lemma_place_segments_in_bounds(
    st: FlowState,
    segments: Seq<SegmentView>,
    i: int,
    p: WrapParams,
)
    requires
        p.indent.len() == 0,
        p.hanging_indent.len() == 0,
        flow_in_bounds(st, is_list_item(segments), p.max_width),
        0 <= i <= segments.len(),
        segments_fit(segments, p),
    ensures
        flow_in_bounds(
            place_segments(st, segments, i, is_list_item(segments), p),
            is_list_item(segments),
            p.max_width,
        ),
    decreases segments.len() - i,
{
    if i < segments.len() {
        lemma_rendered_fits(segments, i, p);
        lemma_place_segment_in_bounds(
            st,
            render_segment(segments[i], p),
            is_list_item(segments),
            p,
        );
        lemma_place_segments_in_bounds(
            place_segment(st, render_segment(segments[i], p), is_list_item(segments), p),
            segments,
            i + 1,
            p,
        );
    }
}

/// The line packer keeps to the width: with no indents, every line of the
/// text packed from segments that fit is no wider than the configured
/// width, or begins with a list marker.
pub proof fn packed_lines_fit(segments: Seq<SegmentView>, p: WrapParams)
    requires
        p.indent.len() == 0,
        p.hanging_indent.len() == 0,
        segments_fit(segments, p),
    ensures
        lines_fit(pack_segments(segments, p), p.max_width),
        all_fit(split_on(pack_segments(segments, p), '\n'), p.max_width),
{
    let start = initial_flow(p);
    assert(start.cur =~= Seq::<char>::empty());
    lemma_place_segments_in_bounds(start, segments, 0, p);
    let end = place_segments(start, segments, 0, is_list_item(segments), p);
    lemma_column_after_lines(end.out);
    lemma_within_concat(end.out, end.cur, 0, Lead::Blank, p.max_width);
    lemma_lines_fit_by_line(pack_segments(segments, p), p.max_width);
}

/// Whether a unit of text can be wrapped without overrunning the width: its
/// segments can be packed without doing so.
pub open spec fn unit_fits(unit: Seq<char>, p: WrapParams) -> bool {
    segments_fit(segments(unit), p)
}

/// Without paragraph handling and without indents, every line of the
/// wrapped text is no wider than the configured width, or begins with a
/// list marker, provided that the text fits: its plain text holds no word
/// or character that cannot be made to fit, and none of its other segments
/// has a line wider than the width.
pub proof fn wrapped_lines_fit(text: Seq<char>, p: WrapParams)
    requires
        !p.preserve_paragraphs,
        p.indent.len() == 0,
        p.hanging_indent.len() == 0,
        unit_fits(text, p),
    ensures
        all_fit(split_on(hybrid_wrap(text, p), '\n'), p.max_width),
{
    if text.len() > 0 {
        packed_lines_fit(segments(text), p);
    } else {
        lemma_lines_fit_by_line(Seq::<char>::empty(), p.max_width);
    }
}

/// With paragraph handling and without indents, every line of the wrapped
/// text is no wider than the configured width, or begins with a list
/// marker, provided that every unit that is wrapped on its own fits.
pub proof fn wrapped_paragraph_lines_fit(text: Seq<char>, p: WrapParams)
    requires
        p.preserve_paragraphs,
        p.indent.len() == 0,
        p.hanging_indent.len() == 0,
        forall|k: int, unit: Seq<char>|
            0 <= k < paragraphs(text).len() && #[trigger] is_unit_of(paragraphs(text)[k], unit)
                ==> unit_fits(unit, p),
    ensures
        all_fit(split_on(hybrid_wrap(text, p), '\n'), p.max_width),
{
    let max = p.max_width;
    let pars = paragraphs(text);
    let wrapped = wrap_each(pars, p, true);
    assert forall|k: int| 0 <= k < wrapped.len() implies lines_fit(#[trigger] wrapped[k], max) by {
        lemma_wrap_each_len(pars, p, true);
        lemma_wrap_each_index(pars, p, true, k);
        let body = trim(pars[k]);
        if body.contains('\n') {
            let lines = physical_lines(body);
            let parts = wrap_lines(lines, p, true);
            assert forall|l: int| 0 <= l < parts.len() implies lines_fit(#[trigger] parts[l], max) by {
                lemma_wrap_lines_len(lines, p, true);
                lemma_wrap_lines_index(lines, p, true, l);
                if trim(lines[l]).len() > 0 {
                    assert(is_unit_of(pars[k], trim(lines[l])));
                    packed_lines_fit(segments(trim(lines[l])), p);
                }
            }
            assert(all_feeds(seq!['\n']));
            lemma_join_within(parts, seq!['\n'], max);
        } else {
            assert(is_unit_of(pars[k], body));
            packed_lines_fit(segments(body), p);
        }
    }
    assert(all_feeds(paragraph_break()));
    lemma_join_within(wrapped, paragraph_break(), max);
    if text.len() == 0 {
        assert(hybrid_wrap(text, p) =~= Seq::<char>::empty());
    }
    lemma_lines_fit_by_line(hybrid_wrap(text, p), max);
}

} // verus!
