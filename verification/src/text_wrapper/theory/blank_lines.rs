//! Paragraphs keep their distance: however many blank lines separate the
//! paragraphs of the input, exactly one separates them in the output.

use crate::chars::{is_whitespace, lemma_skip_whitespace, lemma_trim, lemma_trim_idempotent};
use crate::chars::{skip_whitespace, trim};
use crate::split::{is_solid, join, lemma_join_split, lemma_pieces_hold_no_separator};
use crate::split::{lemma_split_on_len, lemma_words_are_solid, lemma_words_exist, physical_lines};
use crate::split::{split_blank, split_on_from, split_whitespace};
use crate::text_wrapper::flow::{FlowState, initial_flow, is_list_item, pack_segments};
use crate::text_wrapper::flow::{place_segment, place_segments, render_segment};
use crate::text_wrapper::hybrid_wrapper::hybrid_wrap;
use crate::text_wrapper::pack::{ends_with_space, initial_state, is_marker_only, list_marker};
use crate::text_wrapper::pack::{packed_lines, with_space, wrap_words};
use crate::text_wrapper::paragraph::{is_paragraph, paragraphs, paragraphs_among, wrap_each};
use crate::text_wrapper::paragraph::wrap_lines;
use crate::text_wrapper::segment::segments;
use crate::text_wrapper::theory::atomicity::{is_unit_of, lemma_wrap_each_index};
use crate::text_wrapper::theory::atomicity::{lemma_wrap_each_len, lemma_wrap_lines_index};
use crate::text_wrapper::theory::atomicity::lemma_wrap_lines_len;
use crate::text_wrapper::theory::line_width::{end_lead, Lead, lead_after, lemma_column_after_feed};
use crate::text_wrapper::theory::line_width::{lemma_end_push, lemma_within_concat};
use crate::text_wrapper::theory::output_lines::{blank_lines, count_blank, feed, is_blank};
use crate::text_wrapper::theory::output_lines::lemma_broken_parts_have_one_blank_each;
use crate::text_wrapper::theory::output_lines::{lemma_fed_parts_have_no_blank, lines_of};
use crate::text_wrapper::theory::pack_facts::{chars_within, each_has_some, has_some, holds_only};
use crate::text_wrapper::theory::pack_facts::{is_no_feed, is_solid_char, lemma_chars_within_two};
use crate::text_wrapper::theory::pack_facts::lemma_pack_words_made_of;
use crate::text_wrapper::theory::pack_facts::{lemma_pack_words_substantial, made_of, substantial};
use crate::text_wrapper::theory::reassembly::lemma_last_segment;
use crate::text_wrapper::theory::width_bound::is_reflowed;
use crate::text_wrapper::types::{SegmentView, WrapParams};
use crate::width::display_width;
use vstd::prelude::*;

verus! {

/// Every paragraph among the pieces of a text holds more than whitespace.
pub proof fn lemma_paragraphs_hold_text(pieces: Seq<Seq<char>>, k: int)
    requires
        0 <= k < paragraphs_among(pieces).len(),
    ensures
        is_paragraph(paragraphs_among(pieces)[k]),
    decreases pieces.len(),
{
    if pieces.len() > 0 {
        if is_paragraph(pieces.last()) {
            if k < paragraphs_among(pieces.drop_last()).len() {
                lemma_paragraphs_hold_text(pieces.drop_last(), k);
            }
        } else {
            lemma_paragraphs_hold_text(pieces.drop_last(), k);
        }
    }
}

/// Whether no line of `s` that a line feed ends is blank, when `s` is
/// written on a line that began with `lead`.
pub open spec fn closes_no_blank(s: Seq<char>, lead: Lead) -> bool
    decreases s.len(),
{
    if s.len() == 0 {
        true
    } else if s[0] == '\n' {
        !(lead is Blank) && closes_no_blank(s.drop_first(), Lead::Blank)
    } else {
        closes_no_blank(s.drop_first(), lead_after(lead, s[0]))
    }
}

/// Whether no line of `s` is blank.
pub open spec fn has_no_blank_lines(s: Seq<char>) -> bool {
    closes_no_blank(s, Lead::Blank) && !(end_lead(s, Lead::Blank) is Blank)
}

/// A concatenation closes no blank line exactly when its first part closes
/// none and its second part closes none from where the first part ends.
pub proof fn lemma_closes_no_blank_concat(a: Seq<char>, b: Seq<char>, lead: Lead)
    ensures
        closes_no_blank(a + b, lead) == (closes_no_blank(a, lead) && closes_no_blank(
            b,
            end_lead(a, lead),
        )),
    decreases a.len(),
{
    if a.len() == 0 {
        assert(a + b =~= b);
    } else {
        assert((a + b).drop_first() =~= a.drop_first() + b);
        assert((a + b)[0] == a[0]);
        if a[0] == '\n' {
            lemma_closes_no_blank_concat(a.drop_first(), b, Lead::Blank);
        } else {
            lemma_closes_no_blank_concat(a.drop_first(), b, lead_after(lead, a[0]));
        }
    }
}

/// A line of nothing but whitespace, without a line feed, begins with
/// nothing but whitespace.
pub proof fn lemma_blank_lead(line: Seq<char>)
    requires
        is_blank(line),
        !line.contains('\n'),
    ensures
        end_lead(line, Lead::Blank) is Blank,
    decreases line.len(),
{
    lemma_trim(line);
    lemma_skip_whitespace(line, 0);
    if line.len() > 0 {
        let rest = line.drop_first();
        assert(is_whitespace(line[0]));
        assert(line.contains(line[0]));
        assert forall|k: int| 0 <= k < rest.len() implies is_whitespace(#[trigger] rest[k]) by {
            assert(rest[k] == line[k + 1]);
        }
        lemma_all_whitespace_is_blank(rest);
        if rest.contains('\n') {
            let t = choose|t: int| 0 <= t < rest.len() && rest[t] == '\n';
            assert(line.contains(line[t + 1]));
        }
        lemma_blank_lead(rest);
    }
}

/// A line of which every character is whitespace is blank.
pub proof fn lemma_all_whitespace_is_blank(line: Seq<char>)
    requires
        forall|k: int| 0 <= k < line.len() ==> is_whitespace(#[trigger] line[k]),
    ensures
        is_blank(line),
{
    lemma_trim(line);
    lemma_skip_whitespace(line, 0);
}

/// When the rest of a text closes no blank line from a scanning position
/// on, and leaves none open, no line from the current one on is blank.
pub proof fn lemma_scan_blank(s: Seq<char>, start: int, i: int)
    requires
        0 <= start <= i <= s.len(),
        forall|k: int| start <= k < i ==> s[k] != '\n',
        closes_no_blank(
            s.subrange(i, s.len() as int),
            end_lead(s.subrange(start, i), Lead::Blank),
        ),
        !(end_lead(s.subrange(i, s.len() as int), end_lead(s.subrange(start, i), Lead::Blank))
            is Blank),
    ensures
        forall|k: int|
            0 <= k < split_on_from(s, '\n', start, i).len() ==> !is_blank(
                #[trigger] split_on_from(s, '\n', start, i)[k],
            ),
    decreases s.len() - i,
{
    let rest = s.subrange(i, s.len() as int);
    let line = s.subrange(start, i);
    let pieces = split_on_from(s, '\n', start, i);
    assert(!line.contains('\n')) by {
        if line.contains('\n') {
            let t = choose|t: int| 0 <= t < line.len() && line[t] == '\n';
            assert(s[start + t] == '\n');
        }
    }
    assert forall|k: int| 0 <= k < pieces.len() implies !is_blank(#[trigger] pieces[k]) by {
        if i >= s.len() {
            assert(line =~= s.subrange(start, s.len() as int));
            assert(rest.len() == 0);
            assert(end_lead(rest, end_lead(line, Lead::Blank)) == end_lead(line, Lead::Blank));
            if is_blank(line) {
                lemma_blank_lead(line);
            }
            assert(pieces[k] == line);
        } else {
            assert(rest.drop_first() =~= s.subrange(i + 1, s.len() as int));
            assert(rest[0] == s[i]);
            if s[i] == '\n' {
                let tail = split_on_from(s, '\n', i + 1, i + 1);
                assert(s.subrange(i + 1, i + 1) =~= Seq::<char>::empty());
                assert(end_lead(Seq::<char>::empty(), Lead::Blank) == Lead::Blank);
                lemma_scan_blank(s, i + 1, i + 1);
                if is_blank(line) {
                    lemma_blank_lead(line);
                }
                assert(pieces =~= seq![line] + tail);
                if k > 0 {
                    assert(pieces[k] == tail[k - 1]);
                } else {
                    assert(pieces[0] == line);
                }
            } else {
                assert(s.subrange(start, i + 1) =~= line.push(s[i]));
                lemma_end_push(line, s[i], 0, Lead::Blank);
                lemma_scan_blank(s, start, i + 1);
                assert(pieces[k] == split_on_from(s, '\n', start, i + 1)[k]);
            }
        }
    }
}

/// Lines of which none is blank count no blank line.
pub proof fn lemma_count_no_blank(lines: Seq<Seq<char>>)
    requires
        forall|k: int| 0 <= k < lines.len() ==> !is_blank(#[trigger] lines[k]),
    ensures
        count_blank(lines) == 0,
    decreases lines.len(),
{
    if lines.len() > 0 {
        assert(!is_blank(lines.last()));
        assert forall|k: int| 0 <= k < lines.drop_last().len() implies !is_blank(
            #[trigger] lines.drop_last()[k],
        ) by {
            assert(lines.drop_last()[k] == lines[k]);
        }
        lemma_count_no_blank(lines.drop_last());
    }
}

/// A text without blank lines has no blank line among its lines.
pub proof fn lemma_no_blank_by_line(s: Seq<char>)
    requires
        has_no_blank_lines(s),
    ensures
        blank_lines(s) == 0,
{
    assert(s.subrange(0, 0) =~= Seq::<char>::empty());
    assert(end_lead(Seq::<char>::empty(), Lead::Blank) == Lead::Blank);
    assert(s.subrange(0, s.len() as int) =~= s);
    lemma_scan_blank(s, 0, 0);
    lemma_count_no_blank(lines_of(s));
}

/// Whether a piece of output, written on a line that began with `lead`,
/// closes no blank line and leaves none open.
pub open spec fn dense_from(piece: Seq<char>, lead: Lead) -> bool {
    closes_no_blank(piece, lead) && !(end_lead(piece, lead) is Blank)
}

/// Whether a piece of output is dense: wherever it is written, it closes
/// no blank line and leaves none open.
pub open spec fn is_dense(piece: Seq<char>) -> bool {
    forall|lead: Lead| dense_from(piece, lead)
}

/// On a line that is no longer blank, a text without a line feed closes no
/// line and leaves the line no longer blank.
pub proof fn lemma_begun_line(line: Seq<char>, lead: Lead)
    requires
        !line.contains('\n'),
        !(lead is Blank),
    ensures
        closes_no_blank(line, lead),
        !(end_lead(line, lead) is Blank),
    decreases line.len(),
{
    if line.len() > 0 {
        assert(line.contains(line[0]));
        if line.drop_first().contains('\n') {
            let t = choose|t: int| 0 <= t < line.drop_first().len() && line.drop_first()[t] == '\n';
            assert(line.contains(line[t + 1]));
        }
        lemma_begun_line(line.drop_first(), lead_after(lead, line[0]));
    }
}

/// A line that holds a character other than whitespace, and no line feed,
/// is dense.
pub proof fn lemma_solid_line_is_dense(line: Seq<char>, lead: Lead)
    requires
        has_some(line, |c: char| is_solid_char(c)),
        !line.contains('\n'),
    ensures
        dense_from(line, lead),
    decreases line.len(),
{
    let good = |c: char| is_solid_char(c);
    let k = choose|k: int| 0 <= k < line.len() && good(#[trigger] line[k]);
    let rest = line.drop_first();
    assert(line.contains(line[0]));
    if rest.contains('\n') {
        let t = choose|t: int| 0 <= t < rest.len() && rest[t] == '\n';
        assert(line.contains(line[t + 1]));
    }
    if !is_whitespace(line[0]) {
        lemma_begun_line(rest, lead_after(lead, line[0]));
    } else {
        assert(k > 0);
        assert(good(rest[k - 1]));
        lemma_solid_line_is_dense(rest, lead_after(lead, line[0]));
    }
}

/// Lines that each hold a character other than whitespace, and no line
/// feed, make a dense piece when they are joined by line feeds.
pub proof fn lemma_solid_lines_are_dense(lines: Seq<Seq<char>>, lead: Lead)
    requires
        lines.len() >= 1,
        each_has_some(lines, |c: char| is_solid_char(c)),
        forall|k: int| 0 <= k < lines.len() ==> !(#[trigger] lines[k]).contains('\n'),
    ensures
        dense_from(join(lines, feed()), lead),
    decreases lines.len(),
{
    let good = |c: char| is_solid_char(c);
    assert(has_some(lines.last(), good));
    if lines.len() == 1 {
        assert(lines[0] == lines.last());
        lemma_solid_line_is_dense(lines[0], lead);
    } else {
        let init = lines.drop_last();
        assert forall|k: int| 0 <= k < init.len() implies has_some(#[trigger] init[k], good) && !(
        init[k]).contains('\n') by {
            assert(init[k] == lines[k]);
        }
        lemma_solid_lines_are_dense(init, lead);
        let head = join(init, feed());
        lemma_closes_no_blank_concat(head, feed(), lead);
        lemma_within_concat(head, feed(), 0, lead, 0);
        lemma_closes_no_blank_concat(head + feed(), lines.last(), lead);
        lemma_within_concat(head + feed(), lines.last(), 0, lead, 0);
        assert((head + feed()).last() == '\n');
        lemma_column_after_feed(head + feed(), 0, lead);
        assert(feed()[0] == '\n');
        assert(feed().drop_first().len() == 0);
        assert(closes_no_blank(feed().drop_first(), Lead::Blank));
        lemma_solid_line_is_dense(lines.last(), Lead::Blank);
    }
}

/// Whether every line of a text holds a character other than whitespace.
pub open spec fn has_text_on_every_line(s: Seq<char>) -> bool {
    each_has_some(lines_of(s), |c: char| is_solid_char(c))
}

/// A text of which every line holds a character other than whitespace is
/// dense.
pub proof fn lemma_full_text_is_dense(s: Seq<char>)
    requires
        has_text_on_every_line(s),
    ensures
        is_dense(s),
{
    lemma_join_split(s, '\n');
    lemma_split_on_len(s, '\n', 0, 0);
    lemma_pieces_hold_no_separator(s, '\n', 0, 0);
    assert forall|lead: Lead| dense_from(s, lead) by {
        lemma_solid_lines_are_dense(lines_of(s), lead);
    }
}

/// A reflowed plain text is empty or dense, and dense when the text holds
/// more than whitespace.
pub proof fn lemma_reflowed_is_dense(text: Seq<char>, p: WrapParams)
    requires
        p.preserve_words,
        p.hanging_indent.len() == 0,
        display_width(p.indent) + 2 <= p.max_width,
    ensures
        wrap_words(text, p).len() == 0 || is_dense(wrap_words(text, p)),
        trim(text).len() > 0 ==> is_dense(wrap_words(text, p)),
{
    let good = |c: char| is_solid_char(c);
    let ok = |c: char| is_no_feed(c);
    let words = split_whitespace(text);
    let start = initial_state(p);
    let lines = packed_lines(text, p);
    lemma_words_are_solid(text, 0, 0);
    assert(p.hanging_indent =~= Seq::<char>::empty());
    assert forall|k: int| 0 <= k < words.len() implies (#[trigger] words[k]).len() > 0 && holds_only(
        words[k],
        good,
    ) && holds_only(words[k], ok) && chars_within(words[k], 2) by {
        assert(is_solid(words[k]));
        lemma_chars_within_two(words[k]);
        assert forall|j: int| 0 <= j < words[k].len() implies ok(#[trigger] words[k][j]) by {
            assert(!is_whitespace(words[k][j]));
        }
    }
    assert(made_of(start, ok));
    lemma_pack_words_made_of(start, words, 0, ok, p);
    if trim(text).len() > 0 {
        lemma_trim(text);
        lemma_skip_whitespace(text, 0);
        lemma_words_exist(text, 0, 0, skip_whitespace(text, 0));
    }
    if words.len() > 0 {
        assert(substantial(start, good, p, 2));
        lemma_pack_words_substantial(start, words, 0, good, p, 2);
        assert forall|k: int| 0 <= k < lines.len() implies !(#[trigger] lines[k]).contains('\n') by {
            assert(holds_only(lines[k], ok));
            if lines[k].contains('\n') {
                let j = choose|j: int| 0 <= j < lines[k].len() && lines[k][j] == '\n';
                assert(ok(lines[k][j]));
            }
        }
        assert forall|lead: Lead| dense_from(wrap_words(text, p), lead) by {
            lemma_solid_lines_are_dense(lines, lead);
        }
    } else {
        assert(lines =~= Seq::<Seq<char>>::empty());
    }
}

/// Whether a segment is a dense piece: plain text that is reflowed, or a
/// segment placed as it stands of which every line of the output form holds
/// a character other than whitespace.
pub open spec fn is_dense_piece(segment: SegmentView, p: WrapParams) -> bool {
    is_reflowed(segment, p) || has_text_on_every_line(render_segment(segment, p))
}

/// Whether a segment brings text: it is no plain text that is reflowed, or
/// it holds more than whitespace.
pub open spec fn brings_text(segment: SegmentView, p: WrapParams) -> bool {
    match segment {
        SegmentView::PlainText(text) => !p.handle_code_blocks || trim(text).len() > 0,
        _ => true,
    }
}

/// Whether the segments can be packed without a blank line: there is a
/// segment, each of them is a dense piece, and the last one brings text.
pub open spec fn are_dense(segments: Seq<SegmentView>, p: WrapParams) -> bool {
    &&& segments.len() >= 1
    &&& forall|k: int| 0 <= k < segments.len() ==> is_dense_piece(#[trigger] segments[k], p)
    &&& brings_text(segments.last(), p)
}

/// Whether a unit of text can be wrapped without a blank line: each of its
/// segments is a dense piece.
pub open spec fn is_dense_unit(unit: Seq<char>, p: WrapParams) -> bool {
    forall|k: int| 0 <= k < segments(unit).len() ==> is_dense_piece(#[trigger] segments(unit)[k], p)
}

/// A dense unit that begins and ends with a character other than
/// whitespace is wrapped without a blank line.
pub proof fn lemma_dense_unit(unit: Seq<char>, p: WrapParams)
    requires
        p.preserve_words,
        p.indent.len() == 0,
        p.hanging_indent.len() == 0,
        p.max_width >= 2,
        is_dense_unit(unit, p),
        trim(unit).len() > 0,
        trim(unit) == unit,
    ensures
        blank_lines(pack_segments(segments(unit), p)) == 0,
{
    lemma_trim(unit);
    lemma_last_segment(unit);
    packed_text_has_no_blank_line(segments(unit), p);
}

/// The output form of a dense piece is empty or dense, and dense when the
/// piece brings text.
pub proof fn lemma_dense_piece(segment: SegmentView, p: WrapParams)
    requires
        p.preserve_words,
        p.indent.len() == 0,
        p.hanging_indent.len() == 0,
        p.max_width >= 2,
        is_dense_piece(segment, p),
    ensures
        render_segment(segment, p).len() == 0 || is_dense(render_segment(segment, p)),
        brings_text(segment, p) ==> is_dense(render_segment(segment, p)),
{
    assert(p.indent =~= Seq::<char>::empty());
    assert(display_width(Seq::<char>::empty()) == 0);
    if is_reflowed(segment, p) {
        lemma_reflowed_is_dense(segment->PlainText_0, p);
    } else {
        lemma_full_text_is_dense(render_segment(segment, p));
    }
}

/// Whether a flow state holds no blank line: the finished output closes
/// none and is empty or ends in a line feed, and the line being filled
/// closes none and is empty or no longer blank.
pub open spec fn flow_dense(st: FlowState) -> bool {
    &&& closes_no_blank(st.out, Lead::Blank)
    &&& (st.out.len() == 0 || st.out.last() == '\n')
    &&& closes_no_blank(st.cur, Lead::Blank)
    &&& (st.cur.len() == 0 || !(end_lead(st.cur, Lead::Blank) is Blank))
}

/// Placing a piece that is empty or dense keeps a state free of blank
/// lines, and a dense piece leaves the line being filled no longer blank.
pub proof fn lemma_place_dense(st: FlowState, piece: Seq<char>, list_item: bool, p: WrapParams)
    requires
        p.indent.len() == 0,
        p.hanging_indent.len() == 0,
        flow_dense(st),
        piece.len() == 0 || is_dense(piece),
    ensures
        flow_dense(place_segment(st, piece, list_item, p)),
        is_dense(piece) ==> place_segment(st, piece, list_item, p).cur.len() > 0,
{
    let lead = end_lead(st.cur, Lead::Blank);
    let empty = Seq::<char>::empty();
    assert(end_lead(empty, Lead::Blank) == Lead::Blank);
    assert(closes_no_blank(empty, Lead::Blank));
    if is_dense(piece) {
        assert(dense_from(piece, lead));
        assert(dense_from(piece, Lead::Blank));
        assert(piece.len() > 0) by {
            if piece.len() == 0 {
                assert(end_lead(piece, Lead::Blank) == Lead::Blank);
            }
        }
    } else {
        assert(piece =~= empty);
    }
    if display_width(st.cur) + display_width(piece) <= p.max_width {
        lemma_closes_no_blank_concat(st.cur, piece, Lead::Blank);
        lemma_within_concat(st.cur, piece, 0, Lead::Blank, 0);
        if !is_dense(piece) {
            assert(st.cur + piece =~= st.cur);
        }
    } else if list_item && is_marker_only(st.cur) {
        let spaced = with_space(st.cur);
        assert(list_marker().len() == 1);
        lemma_trim(st.cur);
        assert(st.cur.len() > 0);
        if !ends_with_space(st.cur) {
            lemma_end_push(st.cur, ' ', 0, Lead::Blank);
            lemma_closes_no_blank_concat(st.cur, seq![' '], Lead::Blank);
            assert(st.cur + seq![' '] =~= st.cur.push(' '));
            assert(seq![' '][0] == ' ');
            assert(seq![' '].drop_first().len() == 0);
            assert(closes_no_blank(seq![' '].drop_first(), lead_after(lead, ' ')));
        }
        lemma_closes_no_blank_concat(spaced, piece, Lead::Blank);
        lemma_within_concat(spaced, piece, 0, Lead::Blank, 0);
        if is_dense(piece) {
            assert(dense_from(piece, end_lead(spaced, Lead::Blank)));
        } else {
            assert(spaced + piece =~= spaced);
        }
    } else {
        assert(p.indent + p.hanging_indent + piece =~= piece);
        if st.cur.len() > 0 {
            let flushed = st.out + st.cur + feed();
            lemma_closes_no_blank_concat(st.out, st.cur, Lead::Blank);
            lemma_closes_no_blank_concat(st.out + st.cur, feed(), Lead::Blank);
            lemma_within_concat(st.out, st.cur, 0, Lead::Blank, 0);
            if st.out.len() > 0 {
                lemma_column_after_feed(st.out, 0, Lead::Blank);
            } else {
                assert(st.out =~= empty);
            }
            assert(end_lead(st.out + st.cur, Lead::Blank) == lead);
            assert(feed()[0] == '\n');
            assert(feed().drop_first() =~= empty);
            assert(closes_no_blank(feed(), lead));
            assert(flushed.last() == '\n');
        }
    }
}

/// Placing dense pieces keeps a state free of blank lines; and when the
/// last of them brings text, the line being filled is not empty in the end.
pub proof fn lemma_place_dense_pieces(
    st: FlowState,
    segments: Seq<SegmentView>,
    i: int,
    list_item: bool,
    p: WrapParams,
)
    requires
        p.preserve_words,
        p.indent.len() == 0,
        p.hanging_indent.len() == 0,
        p.max_width >= 2,
        flow_dense(st),
        0 <= i <= segments.len(),
        forall|k: int| 0 <= k < segments.len() ==> is_dense_piece(#[trigger] segments[k], p),
    ensures
        flow_dense(place_segments(st, segments, i, list_item, p)),
        i < segments.len() && brings_text(segments.last(), p) ==> place_segments(
            st,
            segments,
            i,
            list_item,
            p,
        ).cur.len() > 0,
    decreases segments.len() - i,
{
    if i < segments.len() {
        let piece = render_segment(segments[i], p);
        lemma_dense_piece(segments[i], p);
        lemma_place_dense(st, piece, list_item, p);
        let next = place_segment(st, piece, list_item, p);
        lemma_place_dense_pieces(next, segments, i + 1, list_item, p);
        if i + 1 == segments.len() {
            assert(segments[i] == segments.last());
            assert(place_segments(next, segments, i + 1, list_item, p) == next);
        }
    }
}

/// The line packer leaves no blank line: with no indents, the text packed
/// from dense segments has no line that is empty or holds nothing but
/// whitespace.
pub proof fn packed_text_has_no_blank_line(segments: Seq<SegmentView>, p: WrapParams)
    requires
        p.preserve_words,
        p.indent.len() == 0,
        p.hanging_indent.len() == 0,
        p.max_width >= 2,
        are_dense(segments, p),
    ensures
        has_no_blank_lines(pack_segments(segments, p)),
        blank_lines(pack_segments(segments, p)) == 0,
{
    let start = initial_flow(p);
    let list_item = is_list_item(segments);
    assert(start.cur =~= Seq::<char>::empty());
    assert(closes_no_blank(Seq::<char>::empty(), Lead::Blank));
    lemma_place_dense_pieces(start, segments, 0, list_item, p);
    let end = place_segments(start, segments, 0, list_item, p);
    lemma_closes_no_blank_concat(end.out, end.cur, Lead::Blank);
    lemma_within_concat(end.out, end.cur, 0, Lead::Blank, 0);
    if end.out.len() > 0 {
        lemma_column_after_feed(end.out, 0, Lead::Blank);
    } else {
        assert(end.out =~= Seq::<char>::empty());
        assert(end_lead(end.out, Lead::Blank) == Lead::Blank);
    }
    lemma_no_blank_by_line(pack_segments(segments, p));
}

/// Whether a paragraph has no blank line inside: when it has hard line
/// breaks, each of its lines holds more than whitespace.
pub open spec fn has_no_blank_line(paragraph: Seq<char>) -> bool {
    let body = trim(paragraph);
    body.contains('\n') ==> forall|l: int|
        0 <= l < physical_lines(body).len() ==> trim(#[trigger] physical_lines(body)[l]).len() > 0
}

/// Wrapping text of `n` paragraphs gives text with exactly `n - 1` blank
/// lines, one between each two paragraphs, however many blank lines the
/// input had between them. This holds when words are preserved, there are
/// no indents, the width is at least two columns, no paragraph has a blank
/// line inside, and every unit that is wrapped on its own is dense.
pub proof fn paragraphs_are_one_blank_line_apart(text: Seq<char>, p: WrapParams)
    requires
        p.preserve_paragraphs,
        p.preserve_words,
        p.indent.len() == 0,
        p.hanging_indent.len() == 0,
        p.max_width >= 2,
        paragraphs(text).len() >= 1,
        forall|k: int, unit: Seq<char>|
            0 <= k < paragraphs(text).len() && #[trigger] is_unit_of(paragraphs(text)[k], unit)
                ==> is_dense_unit(unit, p),
        forall|k: int| 0 <= k < paragraphs(text).len() ==> has_no_blank_line(#[trigger] paragraphs(text)[k]),
    ensures
        blank_lines(hybrid_wrap(text, p)) == paragraphs(text).len() - 1,
{
    let pars = paragraphs(text);
    let wrapped = wrap_each(pars, p, true);
    lemma_wrap_each_len(pars, p, true);
    assert forall|k: int| 0 <= k < wrapped.len() implies blank_lines(#[trigger] wrapped[k]) == 0 by {
        lemma_wrap_each_index(pars, p, true, k);
        let body = trim(pars[k]);
        if body.contains('\n') {
            let lines = physical_lines(body);
            let parts = wrap_lines(lines, p, true);
            lemma_wrap_lines_len(lines, p, true);
            let at = choose|at: int| 0 <= at < body.len() && body[at] == '\n';
            lemma_split_on_len(body, '\n', 0, 0);
            assert(lines.len() >= 1);
            assert(has_no_blank_line(pars[k]));
            assert forall|l: int| 0 <= l < parts.len() implies blank_lines(#[trigger] parts[l])
                == 0 by {
                lemma_wrap_lines_index(lines, p, true, l);
                let unit = trim(lines[l]);
                assert(trim(lines[l]).len() > 0);
                assert(is_unit_of(pars[k], unit));
                lemma_trim_idempotent(lines[l]);
                lemma_dense_unit(unit, p);
            }
            lemma_fed_parts_have_no_blank(parts);
        } else {
            assert(is_unit_of(pars[k], body));
            lemma_paragraphs_hold_text(split_blank(text), k);
            lemma_trim_idempotent(pars[k]);
            lemma_dense_unit(body, p);
        }
    }
    lemma_broken_parts_have_one_blank_each(wrapped);
    if text.len() == 0 {
        let e = Seq::<char>::empty();
        assert(text =~= e);
        assert(e.subrange(0, 0) =~= e);
        assert(split_blank(text) =~= seq![e]);
        assert(trim(e).len() == 0);
        assert(seq![e].drop_last() =~= Seq::<Seq<char>>::empty());
        assert(seq![e].last() == e);
        assert(!is_paragraph(e));
        assert(paragraphs_among(Seq::<Seq<char>>::empty()).len() == 0);
        assert(paragraphs_among(seq![e]) == paragraphs_among(seq![e].drop_last()));
    }
}

} // verus!
