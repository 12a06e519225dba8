//! Segments are never divided: whatever the packer does, the output form of
//! every segment stands in the wrapped text as one unbroken run.

use crate::chars::{occurs_at, trim};
use crate::split::{join, physical_lines};
use crate::text_wrapper::flow::{flow_text, FlowState, initial_flow, is_list_item, pack_segments};
use crate::text_wrapper::flow::{place_segment, place_segments, render_segment};
use crate::text_wrapper::hybrid_wrapper::hybrid_wrap;
use crate::text_wrapper::paragraph::{paragraph_break, paragraphs, wrap_each, wrap_line, wrap_lines};
use crate::text_wrapper::paragraph::{wrap_paragraph, wrap_unit};
use crate::text_wrapper::segment::segments;
use crate::text_wrapper::types::{SegmentView, WrapParams};
use vstd::prelude::*;

verus! {

/// Whether `part` stands somewhere in `text` as one unbroken run.
pub open spec fn occurs_in(text: Seq<char>, part: Seq<char>) -> bool {
    exists|k: int| occurs_at(text, part, k)
}

/// Whether `a` is the beginning of `b`.
pub open spec fn is_prefix(a: Seq<char>, b: Seq<char>) -> bool {
    a.len() <= b.len() && b.subrange(0, a.len() as int) == a
}

/// What stands in a text still stands in it when more is written around it.
pub proof fn lemma_occurs_in_context(before: Seq<char>, text: Seq<char>, after: Seq<char>, part: Seq<char>)
    requires
        occurs_in(text, part),
    ensures
        occurs_in(before + text + after, part),
{
    let k = choose|k: int| occurs_at(text, part, k);
    let whole = before + text + after;
    assert(whole.subrange(before.len() + k, before.len() + k + part.len()) =~= text.subrange(
        k,
        k + part.len(),
    ));
    assert(occurs_at(whole, part, before.len() + k));
}

/// A text stands in itself.
pub proof fn lemma_occurs_in_self(text: Seq<char>)
    ensures
        occurs_in(text, text),
{
    assert(text.subrange(0, text.len() as int) =~= text);
    assert(occurs_at(text, text, 0));
}

/// What stands in the beginning of a text stands in the text.
pub proof fn lemma_occurs_in_prefix(a: Seq<char>, b: Seq<char>, part: Seq<char>)
    requires
        is_prefix(a, b),
        occurs_in(a, part),
    ensures
        occurs_in(b, part),
{
    let rest = b.subrange(a.len() as int, b.len() as int);
    assert(b =~= Seq::<char>::empty() + a + rest);
    lemma_occurs_in_context(Seq::empty(), a, rest, part);
}

/// Placing a segment only adds to the text: what was there stays at the
/// beginning, and the segment's output form ends the new text.
pub proof fn lemma_place_segment_appends(st: FlowState, rendered: Seq<char>, list_item: bool, p: WrapParams)
    ensures
        is_prefix(flow_text(st), flow_text(place_segment(st, rendered, list_item, p))),
        occurs_in(flow_text(place_segment(st, rendered, list_item, p)), rendered),
{
    let next = place_segment(st, rendered, list_item, p);
    let old_text = flow_text(st);
    let new_text = flow_text(next);
    let glue = new_text.subrange(old_text.len() as int, new_text.len() - rendered.len());
    assert(new_text =~= old_text + glue + rendered);
    assert(new_text.subrange(0, old_text.len() as int) =~= old_text);
    lemma_occurs_in_self(rendered);
    lemma_occurs_in_context(old_text + glue, rendered, Seq::empty(), rendered);
    assert(old_text + glue + rendered + Seq::<char>::empty() =~= new_text);
}

/// Placing further segments keeps what was there at the beginning.
pub proof fn lemma_place_segments_extends(
    st: FlowState,
    segments: Seq<SegmentView>,
    i: int,
    list_item: bool,
    p: WrapParams,
)
    requires
        0 <= i <= segments.len(),
    ensures
        is_prefix(flow_text(st), flow_text(place_segments(st, segments, i, list_item, p))),
    decreases segments.len() - i,
{
    if i < segments.len() {
        let next = place_segment(st, render_segment(segments[i], p), list_item, p);
        lemma_place_segment_appends(st, render_segment(segments[i], p), list_item, p);
        lemma_place_segments_extends(next, segments, i + 1, list_item, p);
        let end = flow_text(place_segments(next, segments, i + 1, list_item, p));
        assert(end.subrange(0, flow_text(st).len() as int) =~= flow_text(next).subrange(
            0,
            flow_text(st).len() as int,
        ));
    } else {
        assert(flow_text(st).subrange(0, flow_text(st).len() as int) =~= flow_text(st));
    }
}

/// Every segment from index `i` on stands whole in the text that placing
/// the segments from `i` on gives.
pub proof fn lemma_placed_segment_stays(
    st: FlowState,
    segments: Seq<SegmentView>,
    i: int,
    list_item: bool,
    p: WrapParams,
    j: int,
)
    requires
        0 <= i <= j < segments.len(),
    ensures
        occurs_in(
            flow_text(place_segments(st, segments, i, list_item, p)),
            render_segment(segments[j], p),
        ),
    decreases segments.len() - i,
{
    let next = place_segment(st, render_segment(segments[i], p), list_item, p);
    if i == j {
        lemma_place_segment_appends(st, render_segment(segments[i], p), list_item, p);
        lemma_place_segments_extends(next, segments, i + 1, list_item, p);
        lemma_occurs_in_prefix(
            flow_text(next),
            flow_text(place_segments(next, segments, i + 1, list_item, p)),
            render_segment(segments[j], p),
        );
    } else {
        lemma_placed_segment_stays(next, segments, i + 1, list_item, p, j);
    }
}

/// The line packer divides no segment: the output form of each segment of
/// the list stands in the packed text as one unbroken run. For inline code
/// that form is the span itself, backticks included; for a link it is the
/// markdown form or the display text, as configured.
pub proof fn segments_stay_whole(segments: Seq<SegmentView>, p: WrapParams, j: int)
    requires
        0 <= j < segments.len(),
    ensures
        occurs_in(pack_segments(segments, p), render_segment(segments[j], p)),
{
    lemma_placed_segment_stays(initial_flow(p), segments, 0, is_list_item(segments), p, j);
}

/// What stands in one of the parts stands in the parts joined.
pub proof fn lemma_join_keeps_part(parts: Seq<Seq<char>>, sep: Seq<char>, k: int, part: Seq<char>)
    requires
        0 <= k < parts.len(),
        occurs_in(parts[k], part),
    ensures
        occurs_in(join(parts, sep), part),
    decreases parts.len(),
{
    if parts.len() == 1 {
    } else if k == parts.len() - 1 {
        lemma_occurs_in_context(join(parts.drop_last(), sep) + sep, parts[k], Seq::empty(), part);
        assert(join(parts.drop_last(), sep) + sep + parts[k] + Seq::<char>::empty() =~= join(
            parts,
            sep,
        ));
    } else {
        lemma_join_keeps_part(parts.drop_last(), sep, k, part);
        lemma_occurs_in_context(
            Seq::empty(),
            join(parts.drop_last(), sep),
            sep + parts.last(),
            part,
        );
        assert(Seq::<char>::empty() + join(parts.drop_last(), sep) + (sep + parts.last()) =~= join(
            parts,
            sep,
        ));
    }
}

/// The wrapped lines, index by index.
pub proof fn lemma_wrap_lines_index(lines: Seq<Seq<char>>, p: WrapParams, segmented: bool, k: int)
    requires
        0 <= k < lines.len(),
    ensures
        wrap_lines(lines, p, segmented).len() == lines.len(),
        wrap_lines(lines, p, segmented)[k] == wrap_line(lines[k], p, segmented),
    decreases lines.len(),
{
    lemma_wrap_lines_len(lines, p, segmented);
    if k < lines.len() - 1 {
        lemma_wrap_lines_index(lines.drop_last(), p, segmented, k);
    } else {
        lemma_wrap_lines_len(lines.drop_last(), p, segmented);
    }
}

/// As many wrapped lines as lines.
pub proof fn lemma_wrap_lines_len(lines: Seq<Seq<char>>, p: WrapParams, segmented: bool)
    ensures
        wrap_lines(lines, p, segmented).len() == lines.len(),
    decreases lines.len(),
{
    if lines.len() > 0 {
        lemma_wrap_lines_len(lines.drop_last(), p, segmented);
    }
}

/// As many wrapped paragraphs as paragraphs.
pub proof fn lemma_wrap_each_len(pars: Seq<Seq<char>>, p: WrapParams, segmented: bool)
    ensures
        wrap_each(pars, p, segmented).len() == pars.len(),
    decreases pars.len(),
{
    if pars.len() > 0 {
        lemma_wrap_each_len(pars.drop_last(), p, segmented);
    }
}

/// The wrapped paragraphs, index by index.
pub proof fn lemma_wrap_each_index(pars: Seq<Seq<char>>, p: WrapParams, segmented: bool, k: int)
    requires
        0 <= k < pars.len(),
    ensures
        wrap_each(pars, p, segmented).len() == pars.len(),
        wrap_each(pars, p, segmented)[k] == wrap_paragraph(pars[k], p, segmented),
    decreases pars.len(),
{
    lemma_wrap_each_len(pars, p, segmented);
    if k < pars.len() - 1 {
        lemma_wrap_each_index(pars.drop_last(), p, segmented, k);
    } else {
        lemma_wrap_each_len(pars.drop_last(), p, segmented);
    }
}

/// Whether `unit` is one of the pieces of a paragraph that are wrapped on
/// their own: the paragraph without the whitespace around it when it has no
/// hard line break, and otherwise any of its lines that holds more than
/// whitespace, again without the whitespace around it.
pub open spec fn is_unit_of(paragraph: Seq<char>, unit: Seq<char>) -> bool {
    let body = trim(paragraph);
    if body.contains('\n') {
        exists|l: int|
            0 <= l < physical_lines(body).len() && trim(#[trigger] physical_lines(body)[l]).len()
                > 0 && unit == trim(physical_lines(body)[l])
    } else {
        unit == body
    }
}

/// Without paragraph handling, every segment of the text stands whole in
/// the wrapped text: no inline code span and no link is split across lines.
pub proof fn atomic_spans_stay_whole(text: Seq<char>, p: WrapParams, j: int)
    requires
        !p.preserve_paragraphs,
        text.len() > 0,
        0 <= j < segments(text).len(),
    ensures
        occurs_in(hybrid_wrap(text, p), render_segment(segments(text)[j], p)),
{
    segments_stay_whole(segments(text), p, j);
}

/// With paragraph handling, every segment of every unit that is wrapped on
/// its own stands whole in the wrapped text.
pub proof fn atomic_spans_stay_whole_in_paragraphs(
    text: Seq<char>,
    p: WrapParams,
    k: int,
    unit: Seq<char>,
    j: int,
)
    requires
        p.preserve_paragraphs,
        text.len() > 0,
        0 <= k < paragraphs(text).len(),
        is_unit_of(paragraphs(text)[k], unit),
        0 <= j < segments(unit).len(),
    ensures
        occurs_in(hybrid_wrap(text, p), render_segment(segments(unit)[j], p)),
{
    let part = render_segment(segments(unit)[j], p);
    let paragraph = paragraphs(text)[k];
    let body = trim(paragraph);
    segments_stay_whole(segments(unit), p, j);
    assert(occurs_in(wrap_unit(unit, p, true), part));
    if body.contains('\n') {
        let lines = physical_lines(body);
        let l = choose|l: int|
            0 <= l < lines.len() && trim(#[trigger] lines[l]).len() > 0 && unit == trim(lines[l]);
        lemma_wrap_lines_index(lines, p, true, l);
        lemma_join_keeps_part(wrap_lines(lines, p, true), seq!['\n'], l, part);
    }
    assert(occurs_in(wrap_paragraph(paragraph, p, true), part));
    lemma_wrap_each_index(paragraphs(text), p, true, k);
    lemma_join_keeps_part(wrap_each(paragraphs(text), p, true), paragraph_break(), k, part);
}

} // verus!
