//! Segmentation loses nothing: the segments of a text, each taken back to
//! the stretch of text it was read from, make up the text again, in order
//! and without gaps or overlaps.

use crate::chars::{is_whitespace, lemma_skip_whitespace, lemma_trim, trim};
use crate::text_wrapper::flow::markdown_link;
use crate::text_wrapper::segment::{bare_url_at, code_block_from, code_segments, code_segments_from};
use crate::text_wrapper::segment::{fence_at, index_of_from, inline_code_from, lemma_index_of_from};
use crate::text_wrapper::segment::{link_at, link_segment, link_segments, link_segments_from};
use crate::text_wrapper::segment::{next_fence, next_link, run_end, scheme_len, segments};
use crate::text_wrapper::segment::{segments_from, word_end};
use crate::text_wrapper::types::SegmentView;
use vstd::prelude::*;

verus! {

/// The parts written one after the other.
pub open spec fn concat_all(parts: Seq<Seq<char>>) -> Seq<char>
    decreases parts.len(),
{
    if parts.len() == 0 {
        Seq::empty()
    } else {
        concat_all(parts.drop_last()) + parts.last()
    }
}

/// Whether `source` is a stretch of text that reads as the segment: the
/// content itself for plain text, a code block and inline code; for a link,
/// the bare target, when target and display text are the same, or the
/// markdown form.
pub open spec fn is_source_of(source: Seq<char>, segment: SegmentView) -> bool {
    match segment {
        SegmentView::PlainText(text) => source == text,
        SegmentView::CodeBlock(code) => source == code,
        SegmentView::InlineCode(code) => source == code,
        SegmentView::Link(url, text) => (url == text && source == url) || source == markdown_link(
            url,
            text,
        ),
    }
}

/// Whether the sources are, one by one, sources of the segments, and none
/// of them is empty.
pub open spec fn are_sources_of(sources: Seq<Seq<char>>, segments: Seq<SegmentView>) -> bool {
    &&& sources.len() == segments.len()
    &&& forall|k: int|
        0 <= k < sources.len() ==> is_source_of(#[trigger] sources[k], segments[k]) && sources[k].len()
            > 0
}

/// Writing out two lists of parts is writing out the first and then the
/// second.
pub proof fn lemma_concat_all_concat(a: Seq<Seq<char>>, b: Seq<Seq<char>>)
    ensures
        concat_all(a + b) == concat_all(a) + concat_all(b),
    decreases b.len(),
{
    if b.len() == 0 {
        assert(a + b =~= a);
        assert(concat_all(a) + concat_all(b) =~= concat_all(a));
    } else {
        assert((a + b).drop_last() =~= a + b.drop_last());
        assert((a + b).last() == b.last());
        lemma_concat_all_concat(a, b.drop_last());
        assert(concat_all(a) + concat_all(b.drop_last()) + b.last() =~= concat_all(a) + (
        concat_all(b.drop_last()) + b.last()));
    }
}

/// Writing out one part gives the part.
pub proof fn lemma_concat_all_single(part: Seq<char>)
    ensures
        concat_all(seq![part]) == part,
{
    assert(seq![part].drop_last() =~= Seq::<Seq<char>>::empty());
    assert(concat_all(Seq::<Seq<char>>::empty()) =~= Seq::<char>::empty());
    assert(concat_all(seq![part]) =~= part);
}

/// Sources of two lists of segments are sources of the two lists joined.
pub proof fn lemma_sources_concat(
    a: Seq<Seq<char>>,
    sa: Seq<SegmentView>,
    b: Seq<Seq<char>>,
    sb: Seq<SegmentView>,
)
    requires
        are_sources_of(a, sa),
        are_sources_of(b, sb),
    ensures
        are_sources_of(a + b, sa + sb),
{
    assert forall|k: int| 0 <= k < (a + b).len() implies is_source_of(
        #[trigger] (a + b)[k],
        (sa + sb)[k],
    ) && (a + b)[k].len() > 0 by {
        if k < a.len() {
            assert((a + b)[k] == a[k]);
        } else {
            assert((a + b)[k] == b[k - a.len()]);
        }
    }
}

/// Where [`run_end`] lands.
pub proof fn lemma_run_end(s: Seq<char>, c: char, i: int)
    requires
        0 <= i <= s.len(),
    ensures
        i <= run_end(s, c, i) <= s.len(),
        i < s.len() && s[i] == c ==> run_end(s, c, i) > i,
    decreases s.len() - i,
{
    if i < s.len() && s[i] == c {
        lemma_run_end(s, c, i + 1);
    }
}

/// Where [`word_end`] lands.
pub proof fn lemma_word_end(s: Seq<char>, i: int)
    requires
        0 <= i <= s.len(),
    ensures
        i <= word_end(s, i) <= s.len(),
    decreases s.len() - i,
{
    if i < s.len() && !is_whitespace(s[i]) {
        lemma_word_end(s, i + 1);
    }
}

/// Where [`next_fence`] lands.
pub proof fn lemma_next_fence(s: Seq<char>, i: int)
    requires
        0 <= i <= s.len(),
    ensures
        i <= next_fence(s, i) <= s.len(),
        next_fence(s, i) < s.len() ==> fence_at(s, next_fence(s, i)),
    decreases s.len() - i,
{
    if i < s.len() && !fence_at(s, i) {
        lemma_next_fence(s, i + 1);
    }
}

/// Where [`next_link`] lands.
pub proof fn lemma_next_link(s: Seq<char>, i: int)
    requires
        0 <= i <= s.len(),
    ensures
        i <= next_link(s, i) <= s.len(),
        next_link(s, i) < s.len() ==> link_at(s, next_link(s, i)) is Some,
    decreases s.len() - i,
{
    if i < s.len() && link_at(s, i) is None {
        lemma_next_link(s, i + 1);
    }
}

/// An inline code span lies inside the text, at or after the position the
/// search began at, and is not empty.
pub proof fn lemma_inline_code_span(s: Seq<char>, i: int)
    requires
        0 <= i <= s.len(),
    ensures
        inline_code_from(s, i) matches Some((a, e)) ==> i <= a < e <= s.len(),
{
    lemma_index_of_from(s, '`', i);
    let a = index_of_from(s, '`', i);
    if a < s.len() {
        lemma_run_end(s, '`', a);
        let content = run_end(s, '`', a);
        lemma_index_of_from(s, '`', content);
        let b = index_of_from(s, '`', content);
        if b < s.len() {
            lemma_run_end(s, '`', b);
        }
    }
}

/// A fenced code block lies inside the text, at or after the position the
/// search began at, and holds at least its two fences.
pub proof fn lemma_code_block_span(s: Seq<char>, i: int)
    requires
        0 <= i <= s.len(),
    ensures
        code_block_from(s, i) matches Some((a, e)) ==> i <= a && a + 6 <= e <= s.len(),
{
    lemma_next_fence(s, i);
    let a = next_fence(s, i);
    if a < s.len() {
        lemma_next_fence(s, a + 3);
    }
}

/// A link lies inside the text, ends after its start, and the stretch of
/// text it covers is a source of its segment.
pub proof fn lemma_link_span(s: Seq<char>, a: int)
    requires
        0 <= a < s.len(),
        link_at(s, a) is Some,
    ensures
        a < link_at(s, a)->0.end <= s.len(),
        is_source_of(s.subrange(a, link_at(s, a)->0.end), link_segment(s, link_at(s, a)->0)),
{
    let span = link_at(s, a)->0;
    if bare_url_at(s, a) is Some {
        lemma_word_end(s, a + scheme_len(s, a));
    } else {
        let j = index_of_from(s, ']', a + 1);
        lemma_index_of_from(s, ']', a + 1);
        let k = index_of_from(s, ')', j + 2);
        lemma_index_of_from(s, ')', j + 2);
        assert(s.subrange(a, k + 1) =~= markdown_link(s.subrange(j + 2, k), s.subrange(a + 1, j)));
    }
}

/// The third pass loses nothing: sources of the segments it makes of the
/// text from `i` on, which together are that text.
pub proof fn lemma_code_sources(s: Seq<char>, i: int) -> (sources: Seq<Seq<char>>)
    requires
        0 <= i <= s.len(),
    ensures
        are_sources_of(sources, code_segments_from(s, i)),
        concat_all(sources) == s.subrange(i, s.len() as int),
    decreases s.len() - i,
{
    lemma_inline_code_span(s, i);
    match inline_code_from(s, i) {
        Some((a, e)) => {
            let rest = lemma_code_sources(s, e);
            let before = if i < a {
                seq![s.subrange(i, a)]
            } else {
                Seq::empty()
            };
            let before_segments = if i < a {
                seq![SegmentView::PlainText(s.subrange(i, a))]
            } else {
                Seq::empty()
            };
            let code = seq![s.subrange(a, e)];
            let code_segment = seq![SegmentView::InlineCode(s.subrange(a, e))];
            assert(are_sources_of(before, before_segments));
            assert(are_sources_of(code, code_segment));
            lemma_sources_concat(before, before_segments, code, code_segment);
            lemma_sources_concat(
                before + code,
                before_segments + code_segment,
                rest,
                code_segments_from(s, e),
            );
            lemma_concat_all_concat(before, code);
            lemma_concat_all_concat(before + code, rest);
            lemma_concat_all_single(s.subrange(a, e));
            if i < a {
                lemma_concat_all_single(s.subrange(i, a));
            } else {
                assert(concat_all(before) =~= Seq::<char>::empty());
            }
            assert(concat_all(before) + s.subrange(a, e) + s.subrange(e, s.len() as int)
                =~= s.subrange(i, s.len() as int));
            before + code + rest
        },
        None => {
            if i < s.len() {
                lemma_concat_all_single(s.subrange(i, s.len() as int));
                seq![s.subrange(i, s.len() as int)]
            } else {
                assert(s.subrange(i, s.len() as int) =~= Seq::<char>::empty());
                assert(concat_all(Seq::<Seq<char>>::empty()) =~= Seq::<char>::empty());
                Seq::empty()
            }
        },
    }
}

/// The second pass loses nothing: sources of the segments it makes of the
/// text from `i` on, which together are that text.
pub proof fn lemma_link_sources(s: Seq<char>, i: int) -> (sources: Seq<Seq<char>>)
    requires
        0 <= i <= s.len(),
    ensures
        are_sources_of(sources, link_segments_from(s, i)),
        concat_all(sources) == s.subrange(i, s.len() as int),
    decreases s.len() - i,
{
    lemma_next_link(s, i);
    let a = next_link(s, i);
    if a < s.len() {
        lemma_link_span(s, a);
        let span = link_at(s, a)->0;
        let gap = s.subrange(i, a);
        let before = lemma_code_sources(gap, 0);
        assert(gap.subrange(0, gap.len() as int) =~= gap);
        let link = seq![s.subrange(a, span.end)];
        let link_segment = seq![link_segment(s, span)];
        let rest = lemma_link_sources(s, span.end);
        assert(are_sources_of(link, link_segment));
        lemma_sources_concat(before, code_segments(gap), link, link_segment);
        lemma_sources_concat(
            before + link,
            code_segments(gap) + link_segment,
            rest,
            link_segments_from(s, span.end),
        );
        lemma_concat_all_concat(before, link);
        lemma_concat_all_concat(before + link, rest);
        lemma_concat_all_single(s.subrange(a, span.end));
        assert(gap + s.subrange(a, span.end) + s.subrange(span.end, s.len() as int) =~= s.subrange(
            i,
            s.len() as int,
        ));
        before + link + rest
    } else {
        let gap = s.subrange(i, s.len() as int);
        let sources = lemma_code_sources(gap, 0);
        assert(gap.subrange(0, gap.len() as int) =~= gap);
        sources
    }
}

/// The first pass loses nothing: sources of the segments it makes of the
/// text from `i` on, which together are that text.
pub proof fn lemma_block_sources(s: Seq<char>, i: int) -> (sources: Seq<Seq<char>>)
    requires
        0 <= i <= s.len(),
    ensures
        are_sources_of(sources, segments_from(s, i)),
        concat_all(sources) == s.subrange(i, s.len() as int),
    decreases s.len() - i,
{
    lemma_code_block_span(s, i);
    match code_block_from(s, i) {
        Some((a, e)) => {
            let gap = s.subrange(i, a);
            let before = lemma_link_sources(gap, 0);
            assert(gap.subrange(0, gap.len() as int) =~= gap);
            let block = seq![s.subrange(a, e)];
            let block_segment = seq![SegmentView::CodeBlock(s.subrange(a, e))];
            let rest = lemma_block_sources(s, e);
            assert(are_sources_of(block, block_segment));
            lemma_sources_concat(before, link_segments(gap), block, block_segment);
            lemma_sources_concat(
                before + block,
                link_segments(gap) + block_segment,
                rest,
                segments_from(s, e),
            );
            lemma_concat_all_concat(before, block);
            lemma_concat_all_concat(before + block, rest);
            lemma_concat_all_single(s.subrange(a, e));
            assert(gap + s.subrange(a, e) + s.subrange(e, s.len() as int) =~= s.subrange(
                i,
                s.len() as int,
            ));
            before + block + rest
        },
        None => {
            let gap = s.subrange(i, s.len() as int);
            let sources = lemma_link_sources(gap, 0);
            assert(gap.subrange(0, gap.len() as int) =~= gap);
            sources
        },
    }
}

/// Segmentation loses nothing: there are stretches of text, one for each
/// segment and a source of it, that written one after the other are the
/// text. So the segments cover the text in order, without gaps and without
/// overlaps, and an unterminated marker stays in the plain text around it.
pub proof fn segments_make_up_the_text(text: Seq<char>) -> (sources: Seq<Seq<char>>)
    ensures
        are_sources_of(sources, segments(text)),
        concat_all(sources) == text,
{
    let sources = lemma_block_sources(text, 0);
    assert(text.subrange(0, text.len() as int) =~= text);
    sources
}

/// Parts that are not empty, written one after the other, end as the last
/// of them ends.
pub proof fn lemma_concat_all_last(parts: Seq<Seq<char>>)
    requires
        parts.len() >= 1,
        parts.last().len() > 0,
    ensures
        concat_all(parts).len() > 0,
        concat_all(parts).last() == parts.last().last(),
{
}

/// A text that ends with a character other than whitespace has segments,
/// and the last of them, when it is plain text, holds more than whitespace.
pub proof fn lemma_last_segment(text: Seq<char>)
    requires
        text.len() > 0,
        !is_whitespace(text.last()),
    ensures
        segments(text).len() >= 1,
        segments(text).last() matches SegmentView::PlainText(last) ==> trim(last).len() > 0,
{
    let sources = segments_make_up_the_text(text);
    if sources.len() == 0 {
        assert(concat_all(sources) =~= Seq::<char>::empty());
    }
    lemma_concat_all_last(sources);
    let source = sources.last();
    assert(is_source_of(source, segments(text).last()));
    match segments(text).last() {
        SegmentView::PlainText(last) => {
            lemma_trim(last);
            lemma_skip_whitespace(last, 0);
            assert(!is_whitespace(last[last.len() - 1]));
        },
        _ => {},
    }
}

} // verus!
