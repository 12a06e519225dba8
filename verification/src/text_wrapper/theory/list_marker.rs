//! The list marker is never left alone: when a text is a list item, no line
//! of the wrapped text holds the dash and nothing else.

use crate::chars::{is_whitespace, lemma_skip_whitespace, lemma_skip_whitespace_back, lemma_trim};
use crate::chars::{skip_whitespace, skip_whitespace_back, trim, trim_start};
use crate::split::{is_solid, join, lemma_first_word, lemma_join_split, lemma_part_chars};
use crate::split::{lemma_pieces_hold_no_separator, lemma_split_on_len, lemma_words_are_parts};
use crate::split::{lemma_words_are_solid, lemma_words_exist, physical_lines, split_on_from};
use crate::split::split_whitespace;
use crate::text_wrapper::flow::{FlowState, initial_flow, is_list_item, pack_segments};
use crate::text_wrapper::flow::{place_segment, place_segments, render_segment};
use crate::text_wrapper::hybrid_wrapper::hybrid_wrap;
use crate::text_wrapper::pack::{all_lines, ends_with_space, initial_state, is_marker_only};
use crate::text_wrapper::pack::{list_marker, pack_word, pack_words, packed_lines, with_space};
use crate::text_wrapper::pack::wrap_words;
use crate::text_wrapper::paragraph::{paragraphs, wrap_each, wrap_lines};
use crate::text_wrapper::segment::segments;
use crate::text_wrapper::theory::atomicity::{is_unit_of, lemma_wrap_each_index};
use crate::text_wrapper::theory::atomicity::{lemma_wrap_each_len, lemma_wrap_lines_index};
use crate::text_wrapper::theory::atomicity::lemma_wrap_lines_len;
use crate::text_wrapper::theory::line_width::{end_lead, Lead, lead_after, lemma_column_after_feed};
use crate::text_wrapper::theory::line_width::{lemma_end_push, lemma_within_concat};
use crate::text_wrapper::theory::output_lines::{every_line, feed, lemma_every_line_of_joined};
use crate::text_wrapper::theory::output_lines::{lemma_lines_of_empty, lines_of};
use crate::text_wrapper::theory::pack_facts::{chars_within, each_has_some, has_some, holds_only};
use crate::text_wrapper::theory::pack_facts::{is_no_feed, lemma_chars_within_two};
use crate::text_wrapper::theory::pack_facts::{lemma_empty_is_no_marker, lemma_pack_words_made_of};
use crate::text_wrapper::theory::pack_facts::{lemma_pack_words_substantial, made_of, substantial};
use crate::text_wrapper::theory::width_bound::lemma_marker_lead;
use crate::text_wrapper::types::{SegmentView, WrapParams};
use crate::width::{display_width, lemma_width_single};
use vstd::prelude::*;

verus! {

/// Whether a character belongs to the words of a list item: it is neither
/// whitespace nor a dash.
pub open spec fn is_item_char(c: char) -> bool {
    !is_whitespace(c) && c != '-'
}

/// Whether a text is a list item whose only dash is its marker: its first
/// word is the dash, at least one more word follows, and no later word
/// holds a dash.
pub open spec fn is_plain_list_item(text: Seq<char>) -> bool {
    let words = split_whitespace(text);
    &&& words.len() >= 2
    &&& words[0] == list_marker()
    &&& forall|k: int| 1 <= k < words.len() ==> !(#[trigger] words[k]).contains('-')
}

/// The dash alone is a line with only the list marker.
pub proof fn lemma_marker_is_marker_only()
    ensures
        is_marker_only(list_marker()),
{
    let m = list_marker();
    assert(m.len() == 1 && m[0] == '-');
    assert(!is_whitespace('-'));
    assert(skip_whitespace(m, 0) == 0);
    assert(skip_whitespace_back(m, 1) == 1);
    assert(m.subrange(0, 1) =~= m);
}

/// A line that holds a character of a list item's words holds more than
/// the list marker.
pub proof fn lemma_item_char_is_company(line: Seq<char>)
    requires
        has_some(line, |c: char| is_item_char(c)),
    ensures
        !is_marker_only(line),
{
    let good = |c: char| is_item_char(c);
    let k = choose|k: int| 0 <= k < line.len() && good(#[trigger] line[k]);
    assert(is_item_char(line[k]));
    if is_marker_only(line) {
        assert(list_marker().len() == 1 && list_marker()[0] == '-');
        lemma_trim(line);
        lemma_skip_whitespace(line, 0);
        lemma_skip_whitespace_back(line, line.len() as int);
        let a = skip_whitespace(line, 0);
        let b = skip_whitespace_back(line, line.len() as int);
        assert(a <= k < b);
        assert(trim(line)[k - a] == line[k]);
    }
}

/// The word packer never leaves the list marker alone: when a list item
/// whose only dash is its marker is reflowed, with room for the marker, a
/// space and one character of any width behind the indent, no line of the
/// result holds the dash and nothing else.
pub proof fn list_marker_keeps_company(text: Seq<char>, p: WrapParams)
    requires
        p.preserve_words,
        is_plain_list_item(text),
        display_width(p.indent) + 4 <= p.max_width,
    ensures
        forall|k: int|
            0 <= k < packed_lines(text, p).len() ==> !is_marker_only(#[trigger] packed_lines(text, p)[k]),
        each_has_some(packed_lines(text, p), |c: char| is_item_char(c)),
        packed_lines(text, p).len() > 0,
{
    let good = |c: char| is_item_char(c);
    let words = split_whitespace(text);
    let start = initial_state(p);
    let marked = pack_word(start, words[0], p);
    lemma_width_single('-');
    assert(words[0] =~= seq!['-']);
    assert(marked.cur =~= list_marker());
    lemma_marker_is_marker_only();
    assert(each_has_some(marked.lines, good));
    assert(substantial(marked, good, p, 2));
    lemma_words_are_solid(text, 0, 0);
    assert forall|k: int| 1 <= k < words.len() implies (#[trigger] words[k]).len() > 0 && holds_only(
        words[k],
        good,
    ) && chars_within(words[k], 2) by {
        lemma_chars_within_two(words[k]);
        assert(is_solid(words[k]));
        assert forall|j: int| 0 <= j < words[k].len() implies good(#[trigger] words[k][j]) by {
            assert(!is_whitespace(words[k][j]));
            if words[k][j] == '-' {
                assert(words[k].contains('-'));
            }
        }
    }
    lemma_pack_words_substantial(marked, words, 1, good, p, 2);
    assert(pack_words(start, words, 0, p) == pack_words(marked, words, 1, p));
    let lines = packed_lines(text, p);
    assert forall|k: int| 0 <= k < lines.len() implies !is_marker_only(#[trigger] lines[k]) by {
        lemma_item_char_is_company(lines[k]);
    }
}

/// Whether no line of `s` that a line feed ends holds a list marker and
/// nothing else, when `s` is written on a line that began with `lead`.
pub open spec fn closes_no_bare(s: Seq<char>, lead: Lead) -> bool
    decreases s.len(),
{
    if s.len() == 0 {
        true
    } else if s[0] == '\n' {
        !lead.is_bare() && closes_no_bare(s.drop_first(), Lead::Blank)
    } else {
        closes_no_bare(s.drop_first(), lead_after(lead, s[0]))
    }
}

/// Whether no line of `s` holds a list marker and nothing else.
pub open spec fn strands_no_marker(s: Seq<char>) -> bool {
    closes_no_bare(s, Lead::Blank) && !end_lead(s, Lead::Blank).is_bare()
}

/// Whether a line holds more than a list marker, or nothing at all.
pub open spec fn is_not_bare(line: Seq<char>) -> bool {
    !is_marker_only(line)
}

/// A concatenation strands no marker on the lines it closes exactly when
/// its first part does not and its second part does not from where the
/// first part ends.
pub proof fn lemma_closes_concat(a: Seq<char>, b: Seq<char>, lead: Lead)
    ensures
        closes_no_bare(a + b, lead) == (closes_no_bare(a, lead) && closes_no_bare(
            b,
            end_lead(a, lead),
        )),
    decreases a.len(),
{
    if a.len() == 0 {
        assert(a + b =~= b);
    } else {
        assert((a + b).drop_first() =~= a.drop_first() + b);
        assert((a + b)[0] == a[0]);
        if a[0] == '\n' {
            lemma_closes_concat(a.drop_first(), b, Lead::Blank);
        } else {
            lemma_closes_concat(a.drop_first(), b, lead_after(lead, a[0]));
        }
    }
}

/// When the rest of a text strands no marker from a scanning position on,
/// no line from the current one on holds a list marker and nothing else.
pub proof fn lemma_scan_bare(s: Seq<char>, start: int, i: int)
    requires
        0 <= start <= i <= s.len(),
        forall|k: int| start <= k < i ==> s[k] != '\n',
        closes_no_bare(s.subrange(i, s.len() as int), end_lead(s.subrange(start, i), Lead::Blank)),
        !end_lead(
            s.subrange(i, s.len() as int),
            end_lead(s.subrange(start, i), Lead::Blank),
        ).is_bare(),
    ensures
        forall|k: int|
            0 <= k < split_on_from(s, '\n', start, i).len() ==> is_not_bare(
                #[trigger] split_on_from(s, '\n', start, i)[k],
            ),
    decreases s.len() - i,
{
    let rest = s.subrange(i, s.len() as int);
    let line = s.subrange(start, i);
    let pieces = split_on_from(s, '\n', start, i);
    assert(!line.contains('\n')) by {
        if line.contains('\n') {
            let t = choose|t: int| 0 <= t < line.len() && line[t] == '\n';
            assert(s[start + t] == '\n');
        }
    }
    assert forall|k: int| 0 <= k < pieces.len() implies is_not_bare(#[trigger] pieces[k]) by {
        if i >= s.len() {
            assert(line =~= s.subrange(start, s.len() as int));
            assert(rest.len() == 0);
            assert(end_lead(rest, end_lead(line, Lead::Blank)) == end_lead(line, Lead::Blank));
            if is_marker_only(line) {
                lemma_marker_lead(line);
            }
            assert(pieces[k] == line);
        } else {
            assert(rest.drop_first() =~= s.subrange(i + 1, s.len() as int));
            assert(rest[0] == s[i]);
            if s[i] == '\n' {
                let tail = split_on_from(s, '\n', i + 1, i + 1);
                assert(s.subrange(i + 1, i + 1) =~= Seq::<char>::empty());
                assert(end_lead(Seq::<char>::empty(), Lead::Blank) == Lead::Blank);
                lemma_scan_bare(s, i + 1, i + 1);
                if is_marker_only(line) {
                    lemma_marker_lead(line);
                }
                assert(pieces =~= seq![line] + tail);
                if k > 0 {
                    assert(pieces[k] == tail[k - 1]);
                } else {
                    assert(pieces[0] == line);
                }
            } else {
                assert(s.subrange(start, i + 1) =~= line.push(s[i]));
                lemma_end_push(line, s[i], 0, Lead::Blank);
                lemma_scan_bare(s, start, i + 1);
                assert(pieces[k] == split_on_from(s, '\n', start, i + 1)[k]);
            }
        }
    }
}

/// In a text that strands no marker, no line, taken between its line feeds,
/// holds a list marker and nothing else.
pub proof fn lemma_strands_none_by_line(s: Seq<char>)
    requires
        strands_no_marker(s),
    ensures
        every_line(s, |l: Seq<char>| is_not_bare(l)),
{
    assert(s.subrange(0, 0) =~= Seq::<char>::empty());
    assert(end_lead(Seq::<char>::empty(), Lead::Blank) == Lead::Blank);
    assert(s.subrange(0, s.len() as int) =~= s);
    lemma_scan_bare(s, 0, 0);
}

/// Whether a piece of output is firm: wherever it is written, it closes no
/// line that holds a list marker and nothing else, and leaves no such line
/// open.
pub open spec fn is_firm(piece: Seq<char>) -> bool {
    forall|lead: Lead| firm_from(piece, lead)
}

/// Whether a piece of output, written on a line that began with `lead`,
/// closes no line that holds a list marker and nothing else, and leaves no
/// such line open.
pub open spec fn firm_from(piece: Seq<char>, lead: Lead) -> bool {
    closes_no_bare(piece, lead) && !end_lead(piece, lead).is_bare()
}

/// Past an item, a line without a line feed stays as it is.
pub proof fn lemma_lead_settled(line: Seq<char>, lead: Lead)
    requires
        !line.contains('\n'),
        lead is Item || lead is Other,
    ensures
        end_lead(line, lead) == lead,
        closes_no_bare(line, lead),
    decreases line.len(),
{
    if line.len() > 0 {
        assert(line.contains(line[0]));
        assert forall|k: int| 0 <= k < line.drop_first().len() implies line.drop_first()[k]
            != '\n' by {
            assert(line.contains(line[k + 1]));
        }
        if line.drop_first().contains('\n') {
            let t = choose|t: int| 0 <= t < line.drop_first().len() && line.drop_first()[t] == '\n';
            assert(line.drop_first()[t] != '\n');
        }
        lemma_lead_settled(line.drop_first(), lead);
    }
}

/// A line that holds a character of an item, and no line feed, is firm.
pub proof fn lemma_item_line_is_firm(line: Seq<char>, lead: Lead)
    requires
        has_some(line, |c: char| is_item_char(c)),
        !line.contains('\n'),
    ensures
        closes_no_bare(line, lead),
        end_lead(line, lead) is Item || end_lead(line, lead) is Other,
    decreases line.len(),
{
    let good = |c: char| is_item_char(c);
    let k = choose|k: int| 0 <= k < line.len() && good(#[trigger] line[k]);
    let rest = line.drop_first();
    assert(line.contains(line[0]));
    if rest.contains('\n') {
        let t = choose|t: int| 0 <= t < rest.len() && rest[t] == '\n';
        assert(line.contains(line[t + 1]));
    }
    if is_item_char(line[0]) {
        lemma_lead_settled(rest, lead_after(lead, line[0]));
    } else {
        assert(k > 0);
        assert(good(rest[k - 1]));
        lemma_item_line_is_firm(rest, lead_after(lead, line[0]));
    }
}

/// Lines that each hold a character of an item, and no line feed, make a
/// firm piece when they are joined by line feeds.
pub proof fn lemma_item_lines_are_firm(lines: Seq<Seq<char>>, lead: Lead)
    requires
        lines.len() >= 1,
        each_has_some(lines, |c: char| is_item_char(c)),
        forall|k: int| 0 <= k < lines.len() ==> !(#[trigger] lines[k]).contains('\n'),
    ensures
        closes_no_bare(join(lines, feed()), lead),
        !end_lead(join(lines, feed()), lead).is_bare(),
    decreases lines.len(),
{
    let good = |c: char| is_item_char(c);
    assert(has_some(lines.last(), good));
    if lines.len() == 1 {
        assert(lines[0] == lines.last());
        lemma_item_line_is_firm(lines[0], lead);
    } else {
        let init = lines.drop_last();
        assert forall|k: int| 0 <= k < init.len() implies has_some(#[trigger] init[k], good) && !(
        init[k]).contains('\n') by {
            assert(init[k] == lines[k]);
        }
        lemma_item_lines_are_firm(init, lead);
        let head = join(init, feed());
        lemma_closes_concat(head, feed(), lead);
        lemma_within_concat(head, feed(), 0, lead, 0);
        lemma_closes_concat(head + feed(), lines.last(), lead);
        lemma_within_concat(head + feed(), lines.last(), 0, lead, 0);
        assert((head + feed()).last() == '\n');
        lemma_column_after_feed(head + feed(), 0, lead);
        assert(feed()[0] == '\n');
        assert(feed().drop_first().len() == 0);
        assert(closes_no_bare(feed().drop_first(), Lead::Blank));
        lemma_item_line_is_firm(lines.last(), Lead::Blank);
    }
}

/// Whether every line of a text holds a character of an item.
pub open spec fn has_item_on_every_line(s: Seq<char>) -> bool {
    each_has_some(lines_of(s), |c: char| is_item_char(c))
}

/// A text of which every line holds a character of an item is firm.
pub proof fn lemma_item_text_is_firm(s: Seq<char>)
    requires
        has_item_on_every_line(s),
    ensures
        is_firm(s),
{
    lemma_join_split(s, '\n');
    lemma_split_on_len(s, '\n', 0, 0);
    lemma_pieces_hold_no_separator(s, '\n', 0, 0);
    assert forall|lead: Lead| firm_from(s, lead) by {
        lemma_item_lines_are_firm(lines_of(s), lead);
    }
}

/// A reflowed plain text without a dash is empty or firm.
pub proof fn lemma_dashless_is_firm(text: Seq<char>, p: WrapParams)
    requires
        p.preserve_words,
        !text.contains('-'),
        p.hanging_indent.len() == 0,
        display_width(p.indent) + 2 <= p.max_width,
    ensures
        wrap_words(text, p).len() == 0 || is_firm(wrap_words(text, p)),
        trim(text).len() > 0 ==> is_firm(wrap_words(text, p)),
{
    let good = |c: char| is_item_char(c);
    let ok = |c: char| is_no_feed(c);
    let words = split_whitespace(text);
    let start = initial_state(p);
    let lines = packed_lines(text, p);
    lemma_words_are_parts(text, 0, 0);
    lemma_words_are_solid(text, 0, 0);
    assert(p.hanging_indent =~= Seq::<char>::empty());
    assert forall|k: int| 0 <= k < words.len() implies (#[trigger] words[k]).len() > 0 && holds_only(
        words[k],
        good,
    ) && holds_only(words[k], ok) && chars_within(words[k], 2) by {
        assert(is_solid(words[k]));
        lemma_chars_within_two(words[k]);
        assert forall|j: int| 0 <= j < words[k].len() implies good(#[trigger] words[k][j]) && ok(
            words[k][j],
        ) by {
            lemma_part_chars(words[k], text, j);
            assert(!is_whitespace(words[k][j]));
        }
    }
    assert(made_of(start, ok));
    lemma_pack_words_made_of(start, words, 0, ok, p);
    if trim(text).len() > 0 {
        lemma_trim(text);
        lemma_skip_whitespace(text, 0);
        lemma_words_exist(text, 0, 0, skip_whitespace(text, 0));
    }
    if words.len() > 0 {
        assert(substantial(start, good, p, 2));
        lemma_pack_words_substantial(start, words, 0, good, p, 2);
        assert forall|k: int| 0 <= k < lines.len() implies !(#[trigger] lines[k]).contains('\n') by {
            assert(holds_only(lines[k], ok));
            if lines[k].contains('\n') {
                let j = choose|j: int| 0 <= j < lines[k].len() && lines[k][j] == '\n';
                assert(ok(lines[k][j]));
            }
        }
        assert forall|lead: Lead| firm_from(wrap_words(text, p), lead) by {
            lemma_item_lines_are_firm(lines, lead);
        }
    } else {
        assert(lines =~= Seq::<Seq<char>>::empty());
    }
}

/// A reflowed list item whose only dash is its marker is firm.
pub proof fn lemma_list_item_is_firm(text: Seq<char>, p: WrapParams)
    requires
        p.preserve_words,
        is_plain_list_item(text),
        p.hanging_indent.len() == 0,
        display_width(p.indent) + 4 <= p.max_width,
    ensures
        is_firm(wrap_words(text, p)),
{
    let ok = |c: char| is_no_feed(c);
    let words = split_whitespace(text);
    let lines = packed_lines(text, p);
    list_marker_keeps_company(text, p);
    lemma_words_are_solid(text, 0, 0);
    assert(p.hanging_indent =~= Seq::<char>::empty());
    assert forall|k: int| 0 <= k < words.len() implies holds_only(#[trigger] words[k], ok) by {
        assert(is_solid(words[k]));
        assert forall|j: int| 0 <= j < words[k].len() implies ok(#[trigger] words[k][j]) by {
            assert(!is_whitespace(words[k][j]));
        }
    }
    assert(made_of(initial_state(p), ok));
    lemma_pack_words_made_of(initial_state(p), words, 0, ok, p);
    assert forall|k: int| 0 <= k < lines.len() implies !(#[trigger] lines[k]).contains('\n') by {
        assert(holds_only(lines[k], ok));
        if lines[k].contains('\n') {
            let j = choose|j: int| 0 <= j < lines[k].len() && lines[k][j] == '\n';
            assert(ok(lines[k][j]));
        }
    }
    assert forall|lead: Lead| firm_from(wrap_words(text, p), lead) by {
        lemma_item_lines_are_firm(lines, lead);
    }
}

/// Whether a text is a list marker and nothing else: its only word is the
/// dash.
pub open spec fn is_marker_text(text: Seq<char>) -> bool {
    split_whitespace(text) == seq![list_marker()]
}

/// A list marker and nothing else is reflowed to the dash.
pub proof fn lemma_marker_text_is_dash(text: Seq<char>, p: WrapParams)
    requires
        p.preserve_words,
        is_marker_text(text),
        display_width(p.indent) + 1 <= p.max_width,
    ensures
        wrap_words(text, p) == list_marker(),
{
    let words = split_whitespace(text);
    let start = initial_state(p);
    let marked = pack_word(start, words[0], p);
    lemma_width_single('-');
    assert(words[0] =~= seq!['-']);
    assert(marked.cur =~= list_marker());
    assert(pack_words(start, words, 0, p) == pack_words(marked, words, 1, p));
    assert(all_lines(marked) =~= seq![list_marker()]);
    assert(all_lines(marked)[0] == list_marker());
}

/// Whether a segment of a list item is an item piece: plain text without a
/// dash, or a segment placed as it stands of which every line of the output
/// form holds a character of an item.
pub open spec fn is_item_piece(segment: SegmentView, p: WrapParams) -> bool {
    match segment {
        SegmentView::PlainText(text) => !text.contains('-'),
        _ => has_item_on_every_line(render_segment(segment, p)),
    }
}

/// Whether a segment brings content: it is no plain text, or plain text
/// that holds more than whitespace.
pub open spec fn brings_content(segment: SegmentView) -> bool {
    match segment {
        SegmentView::PlainText(text) => trim(text).len() > 0,
        _ => true,
    }
}

/// Whether the segments are a list item whose marker can be kept company:
/// the first segment is plain text that begins with the marker, the marker
/// is the only dash in the plain text, every other segment is an item
/// piece, and something follows the marker.
pub open spec fn is_list_item_text(segments: Seq<SegmentView>, p: WrapParams) -> bool {
    &&& segments.len() >= 1
    &&& segments[0] matches SegmentView::PlainText(first) && (is_plain_list_item(first) || (is_marker_text(
        first,
    ) && exists|k: int| 1 <= k < segments.len() && brings_content(#[trigger] segments[k])))
    &&& forall|k: int| 1 <= k < segments.len() ==> is_item_piece(#[trigger] segments[k], p)
}

/// Whether the segments can strand no marker: they are a list item whose
/// marker can be kept company, or each of them is an item piece.
pub open spec fn is_settled(segments: Seq<SegmentView>, p: WrapParams) -> bool {
    is_list_item_text(segments, p) || forall|k: int|
        0 <= k < segments.len() ==> is_item_piece(#[trigger] segments[k], p)
}

/// The output form of an item piece is empty or firm, and firm when the
/// piece brings content.
pub proof fn lemma_item_piece(segment: SegmentView, p: WrapParams)
    requires
        p.preserve_words,
        p.handle_code_blocks,
        p.indent.len() == 0,
        p.hanging_indent.len() == 0,
        p.max_width >= 4,
        is_item_piece(segment, p),
    ensures
        render_segment(segment, p).len() == 0 || is_firm(render_segment(segment, p)),
        brings_content(segment) ==> is_firm(render_segment(segment, p)),
{
    assert(p.indent =~= Seq::<char>::empty());
    assert(display_width(Seq::<char>::empty()) == 0);
    match segment {
        SegmentView::PlainText(text) => {
            lemma_dashless_is_firm(text, p);
        },
        _ => {
            lemma_item_text_is_firm(render_segment(segment, p));
        },
    }
}

/// Whether a line is the stub of a list item: the marker, with or without
/// the space behind it.
pub open spec fn is_stub(line: Seq<char>) -> bool {
    line == list_marker() || line == list_marker().push(' ')
}

/// A stub holds a list marker and nothing else; with a space behind it, it
/// is a stub still.
pub proof fn lemma_stub(line: Seq<char>)
    requires
        is_stub(line),
    ensures
        is_marker_only(line),
        !line.contains('\n'),
        is_stub(with_space(line)),
        end_lead(line, Lead::Blank).is_bare(),
        closes_no_bare(line, Lead::Blank),
{
    let m = list_marker();
    let spaced = m.push(' ');
    assert(m.len() == 1 && m[0] == '-');
    assert(!is_whitespace('-'));
    assert(is_whitespace(' '));
    lemma_marker_is_marker_only();
    if line == spaced {
        assert(skip_whitespace(spaced, 0) == 0);
        assert(skip_whitespace_back(spaced, 2) == skip_whitespace_back(spaced, 1));
        assert(skip_whitespace_back(spaced, 1) == 1);
        assert(spaced.subrange(0, 1) =~= m);
        assert(with_space(line) == line);
    } else {
        assert(with_space(line) =~= spaced);
    }
    if line.contains('\n') {
        let t = choose|t: int| 0 <= t < line.len() && line[t] == '\n';
        assert(t == 0 || t == 1);
    }
    lemma_marker_lead(line);
    lemma_closes_stub(line);
}

/// A text without a line feed closes no line at all.
pub proof fn lemma_closes_stub(line: Seq<char>)
    requires
        !line.contains('\n'),
    ensures
        forall|lead: Lead| #[trigger] closes_no_bare(line, lead),
    decreases line.len(),
{
    if line.len() > 0 {
        assert(line.contains(line[0]));
        if line.drop_first().contains('\n') {
            let t = choose|t: int| 0 <= t < line.drop_first().len() && line.drop_first()[t] == '\n';
            assert(line.contains(line[t + 1]));
        }
        lemma_closes_stub(line.drop_first());
        assert forall|lead: Lead| #[trigger] closes_no_bare(line, lead) by {
            assert(closes_no_bare(line.drop_first(), lead_after(lead, line[0])));
        }
    }
}

/// Whether a flow state strands no marker: the finished output closes no
/// line with a list marker and nothing else, and is empty or ends in a line
/// feed; the line being filled closes no such line either, and is not left
/// as one unless it is the stub of the list item.
pub open spec fn flow_settled(st: FlowState, list_item: bool) -> bool {
    &&& closes_no_bare(st.out, Lead::Blank)
    &&& (st.out.len() == 0 || st.out.last() == '\n')
    &&& closes_no_bare(st.cur, Lead::Blank)
    &&& (!end_lead(st.cur, Lead::Blank).is_bare() || (list_item && is_stub(st.cur)))
}

/// A line that is not a stub of a list marker alone stays so with a space
/// behind it.
pub proof fn lemma_spaced_stays(line: Seq<char>)
    requires
        !end_lead(line, Lead::Blank).is_bare(),
        closes_no_bare(line, Lead::Blank),
    ensures
        !end_lead(with_space(line), Lead::Blank).is_bare(),
        closes_no_bare(with_space(line), Lead::Blank),
{
    if !ends_with_space(line) {
        lemma_end_push(line, ' ', 0, Lead::Blank);
        assert(is_whitespace(' '));
        lemma_closes_concat(line, seq![' '], Lead::Blank);
        assert(line + seq![' '] =~= line.push(' '));
        lemma_closes_stub(seq![' ']);
        assert(!seq![' '].contains('\n')) by {
            if seq![' '].contains('\n') {
                let t = choose|t: int| 0 <= t < seq![' '].len() && seq![' '][t] == '\n';
            }
        }
    }
}

/// Placing a piece that is empty or firm keeps a state from stranding a
/// marker, and a firm piece leaves the line being filled with more than a
/// marker.
pub proof fn lemma_place_piece(st: FlowState, piece: Seq<char>, list_item: bool, p: WrapParams)
    requires
        p.indent.len() == 0,
        p.hanging_indent.len() == 0,
        flow_settled(st, list_item),
        piece.len() == 0 || is_firm(piece),
    ensures
        flow_settled(place_segment(st, piece, list_item, p), list_item),
        is_firm(piece) || !end_lead(st.cur, Lead::Blank).is_bare() ==> !end_lead(
            place_segment(st, piece, list_item, p).cur,
            Lead::Blank,
        ).is_bare(),
{
    let lead = end_lead(st.cur, Lead::Blank);
    let empty = Seq::<char>::empty();
    assert(end_lead(empty, Lead::Blank) == Lead::Blank);
    assert(closes_no_bare(empty, Lead::Blank));
    if is_firm(piece) {
        assert(firm_from(piece, lead));
        assert(firm_from(piece, Lead::Blank));
    } else {
        assert(piece =~= empty);
    }
    if is_stub(st.cur) {
        lemma_stub(st.cur);
    }
    if display_width(st.cur) + display_width(piece) <= p.max_width {
        lemma_closes_concat(st.cur, piece, Lead::Blank);
        lemma_within_concat(st.cur, piece, 0, Lead::Blank, 0);
        if !is_firm(piece) {
            assert(st.cur + piece =~= st.cur);
        }
    } else if list_item && is_marker_only(st.cur) {
        let spaced = with_space(st.cur);
        if is_stub(st.cur) {
            lemma_stub(spaced);
        } else {
            lemma_spaced_stays(st.cur);
        }
        lemma_closes_concat(spaced, piece, Lead::Blank);
        lemma_within_concat(spaced, piece, 0, Lead::Blank, 0);
        if is_firm(piece) {
            assert(firm_from(piece, end_lead(spaced, Lead::Blank)));
        } else {
            assert(spaced + piece =~= spaced);
        }
    } else {
        assert(p.indent + p.hanging_indent + piece =~= piece);
        if st.cur.len() > 0 {
            let flushed = st.out + st.cur + feed();
            lemma_closes_concat(st.out, st.cur, Lead::Blank);
            lemma_closes_concat(st.out + st.cur, feed(), Lead::Blank);
            lemma_within_concat(st.out, st.cur, 0, Lead::Blank, 0);
            if st.out.len() > 0 {
                lemma_column_after_feed(st.out, 0, Lead::Blank);
            } else {
                assert(st.out =~= empty);
            }
            assert(end_lead(st.out + st.cur, Lead::Blank) == lead);
            assert(feed()[0] == '\n');
            assert(feed().drop_first() =~= empty);
            assert(closes_no_bare(feed(), lead));
            assert(flushed.last() == '\n');
        }
    }
}

/// Placing pieces that are each empty or firm keeps a state from stranding
/// a marker; and when the line being filled holds more than a marker, or a
/// piece that brings content is among them, so does the line in the end.
pub proof fn lemma_place_pieces(
    st: FlowState,
    segments: Seq<SegmentView>,
    i: int,
    list_item: bool,
    p: WrapParams,
)
    requires
        p.preserve_words,
        p.handle_code_blocks,
        p.indent.len() == 0,
        p.hanging_indent.len() == 0,
        p.max_width >= 4,
        flow_settled(st, list_item),
        1 <= i <= segments.len() || (i == 0 && forall|k: int|
            0 <= k < segments.len() ==> is_item_piece(#[trigger] segments[k], p)),
        forall|k: int| 1 <= k < segments.len() ==> is_item_piece(#[trigger] segments[k], p),
    ensures
        flow_settled(place_segments(st, segments, i, list_item, p), list_item),
        !end_lead(st.cur, Lead::Blank).is_bare() || (exists|k: int|
            i <= k < segments.len() && brings_content(#[trigger] segments[k])) ==> !end_lead(
            place_segments(st, segments, i, list_item, p).cur,
            Lead::Blank,
        ).is_bare(),
    decreases segments.len() - i,
{
    if i < segments.len() {
        let piece = render_segment(segments[i], p);
        assert(is_item_piece(segments[i], p));
        lemma_item_piece(segments[i], p);
        lemma_place_piece(st, piece, list_item, p);
        let next = place_segment(st, piece, list_item, p);
        lemma_place_pieces(next, segments, i + 1, list_item, p);
        if exists|k: int| i <= k < segments.len() && brings_content(#[trigger] segments[k]) {
            let k = choose|k: int| i <= k < segments.len() && brings_content(#[trigger] segments[k]);
            if k > i {
                assert(i + 1 <= k < segments.len() && brings_content(segments[k]));
            }
        }
    }
}

/// The first segment of a list item begins with a dash, as the packer
/// sees it.
pub proof fn lemma_marker_leads(segments: Seq<SegmentView>, p: WrapParams)
    requires
        is_list_item_text(segments, p),
    ensures
        is_list_item(segments),
{
    let first = segments[0]->PlainText_0;
    let words = split_whitespace(first);
    assert(list_marker().len() == 1 && list_marker()[0] == '-');
    assert(words.len() > 0);
    assert(words[0] == list_marker());
    lemma_first_word(first, 0);
    lemma_skip_whitespace(first, 0);
    let a = skip_whitespace(first, 0);
    assert(trim_start(first)[0] == first[a]);
}

/// The line packer strands no marker: with no indents, when the segments
/// are a list item whose marker can be kept company, or hold no dash that
/// could be taken for a marker, no line of the packed text holds the dash
/// and nothing else.
pub proof fn packed_text_strands_no_marker(segments: Seq<SegmentView>, p: WrapParams)
    requires
        p.preserve_words,
        p.handle_code_blocks,
        p.indent.len() == 0,
        p.hanging_indent.len() == 0,
        p.max_width >= 4,
        is_settled(segments, p),
    ensures
        strands_no_marker(pack_segments(segments, p)),
        every_line(pack_segments(segments, p), |l: Seq<char>| is_not_bare(l)),
{
    let start = initial_flow(p);
    let list_item = is_list_item(segments);
    assert(p.indent =~= Seq::<char>::empty());
    assert(display_width(Seq::<char>::empty()) == 0);
    assert(start.cur =~= Seq::<char>::empty());
    assert(flow_settled(start, list_item));
    if is_list_item_text(segments, p) {
        lemma_marker_leads(segments, p);
        let first = segments[0]->PlainText_0;
        let piece = render_segment(segments[0], p);
        let second = place_segment(start, piece, list_item, p);
        assert(place_segments(start, segments, 0, list_item, p) == place_segments(
            second,
            segments,
            1,
            list_item,
            p,
        ));
        if is_plain_list_item(first) {
            lemma_list_item_is_firm(first, p);
            lemma_place_piece(start, piece, list_item, p);
        } else {
            lemma_marker_text_is_dash(first, p);
            lemma_width_single('-');
            assert(second.cur =~= list_marker());
            lemma_stub(second.cur);
        }
        lemma_place_pieces(second, segments, 1, list_item, p);
    } else {
        lemma_place_pieces(start, segments, 0, list_item, p);
    }
    let end = place_segments(start, segments, 0, list_item, p);
    lemma_closes_concat(end.out, end.cur, Lead::Blank);
    lemma_within_concat(end.out, end.cur, 0, Lead::Blank, 0);
    if end.out.len() > 0 {
        lemma_column_after_feed(end.out, 0, Lead::Blank);
    }
    lemma_strands_none_by_line(pack_segments(segments, p));
}

/// Without paragraph handling, wrapping strands no marker: when the text is
/// a list item whose marker can be kept company, or holds no dash that
/// could be taken for a marker, no line of the wrapped text holds the dash
/// and nothing else.
pub proof fn wrapped_text_strands_no_marker(text: Seq<char>, p: WrapParams)
    requires
        !p.preserve_paragraphs,
        p.preserve_words,
        p.handle_code_blocks,
        p.indent.len() == 0,
        p.hanging_indent.len() == 0,
        p.max_width >= 4,
        is_settled(segments(text), p),
    ensures
        every_line(hybrid_wrap(text, p), |l: Seq<char>| is_not_bare(l)),
{
    if text.len() > 0 {
        packed_text_strands_no_marker(segments(text), p);
    } else {
        lemma_lines_of_empty();
        lemma_empty_is_no_marker();
    }
}

/// With paragraph handling, wrapping strands no marker when the segments of
/// every unit that is wrapped on its own are settled: no line of the
/// wrapped text holds the dash and nothing else.
pub proof fn wrapped_paragraphs_strand_no_marker(text: Seq<char>, p: WrapParams)
    requires
        p.preserve_paragraphs,
        p.preserve_words,
        p.handle_code_blocks,
        p.indent.len() == 0,
        p.hanging_indent.len() == 0,
        p.max_width >= 4,
        forall|k: int, unit: Seq<char>|
            0 <= k < paragraphs(text).len() && #[trigger] is_unit_of(paragraphs(text)[k], unit)
                ==> is_settled(segments(unit), p),
    ensures
        every_line(hybrid_wrap(text, p), |l: Seq<char>| is_not_bare(l)),
{
    let fine = |l: Seq<char>| is_not_bare(l);
    let pars = paragraphs(text);
    let wrapped = wrap_each(pars, p, true);
    lemma_empty_is_no_marker();
    lemma_lines_of_empty();
    lemma_wrap_each_len(pars, p, true);
    assert forall|k: int| 0 <= k < wrapped.len() implies every_line(#[trigger] wrapped[k], fine) by {
        lemma_wrap_each_index(pars, p, true, k);
        let body = trim(pars[k]);
        if body.contains('\n') {
            let lines = physical_lines(body);
            let parts = wrap_lines(lines, p, true);
            lemma_wrap_lines_len(lines, p, true);
            assert forall|l: int| 0 <= l < parts.len() implies every_line(
                #[trigger] parts[l],
                fine,
            ) by {
                lemma_wrap_lines_index(lines, p, true, l);
                if trim(lines[l]).len() > 0 {
                    let unit = trim(lines[l]);
                    assert(is_unit_of(pars[k], unit));
                    packed_text_strands_no_marker(segments(unit), p);
                }
            }
            lemma_every_line_of_joined(parts, false, fine);
        } else {
            assert(is_unit_of(pars[k], body));
            packed_text_strands_no_marker(segments(body), p);
        }
    }
    lemma_every_line_of_joined(wrapped, true, fine);
    if text.len() == 0 {
        assert(hybrid_wrap(text, p) =~= Seq::<char>::empty());
    }
}

} // verus!
