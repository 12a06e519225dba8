//! Line packing of segments: each segment is rendered to its output form and
//! placed whole, on the line being filled when it fits and on a new line when
//! it does not.

use crate::chars::{first_non_whitespace, lemma_skip_whitespace, push_all, to_chars, trim_start};
use crate::text_wrapper::hybrid_wrapper::HybridWrapper;
use crate::text_wrapper::pack::{is_marker_only, marker_only, with_space, wrap_words};
use crate::text_wrapper::types::{segment_views, SegmentView, TextSegment, WrapConfig, WrapParams};
use crate::width::{display_width, lemma_buffer_width, lemma_width_concat, str_display_width};
use vstd::prelude::*;

verus! {

/// A link in its markdown form, `[text](url)`.
pub open spec fn markdown_link(url: Seq<char>, text: Seq<char>) -> Seq<char> {
    seq!['['] + text + seq![']', '('] + url + seq![')']
}

/// A fenced code block on lines of its own: a line feed before and after.
pub open spec fn fenced(code: Seq<char>) -> Seq<char> {
    seq!['\n'] + code + seq!['\n']
}

/// The output form of a segment.
///
/// Plain text is reflowed, and a code block is set on lines of its own, when
/// code blocks are handled; otherwise both are passed through. A link keeps
/// its markdown form when links are preserved and is reduced to its display
/// text otherwise. Inline code is always passed through unchanged.
pub open spec fn render_segment(segment: SegmentView, p: WrapParams) -> Seq<char> {
    match segment {
        SegmentView::PlainText(text) => if p.handle_code_blocks {
            wrap_words(text, p)
        } else {
            text
        },
        SegmentView::CodeBlock(code) => if p.handle_code_blocks {
            fenced(code)
        } else {
            code
        },
        SegmentView::Link(url, text) => if p.preserve_links {
            markdown_link(url, text)
        } else {
            text
        },
        SegmentView::InlineCode(code) => code,
    }
}

/// Whether the segments begin a list item: the first one is plain text whose
/// first character after leading whitespace is a dash.
pub open spec fn is_list_item(segments: Seq<SegmentView>) -> bool {
    segments.len() > 0 && match segments[0] {
        SegmentView::PlainText(text) => trim_start(text).len() > 0 && trim_start(text)[0] == '-',
        _ => false,
    }
}

/// The output finished so far, every line of it closed by a line feed, and
/// the line being filled.
pub struct FlowState {
    pub out: Seq<char>,
    pub cur: Seq<char>,
}

/// The prefix of a line that the packer starts after a flush.
pub open spec fn continuation_prefix(p: WrapParams) -> Seq<char> {
    p.indent + p.hanging_indent
}

/// The state after one more rendered segment.
///
/// What fits on the line being filled is appended to it. Otherwise the line
/// is flushed and the segment starts a new one, whole, however wide it is;
/// but a line that holds only the marker of a list item is not flushed: it
/// takes a space and the segment.
pub open spec fn place_segment(st: FlowState, rendered: Seq<char>, list_item: bool, p: WrapParams) -> FlowState {
    if display_width(st.cur) + display_width(rendered) <= p.max_width {
        FlowState { out: st.out, cur: st.cur + rendered }
    } else if list_item && is_marker_only(st.cur) {
        FlowState { out: st.out, cur: with_space(st.cur) + rendered }
    } else {
        FlowState {
            out: if st.cur.len() > 0 {
                st.out + st.cur + seq!['\n']
            } else {
                st.out
            },
            cur: continuation_prefix(p) + rendered,
        }
    }
}

/// The state after the segments from index `i` on.
pub open spec fn place_segments(
    st: FlowState,
    segments: Seq<SegmentView>,
    i: int,
    list_item: bool,
    p: WrapParams,
) -> FlowState
    decreases segments.len() - i,
{
    if i < 0 || i >= segments.len() {
        st
    } else {
        place_segments(
            place_segment(st, render_segment(segments[i], p), list_item, p),
            segments,
            i + 1,
            list_item,
            p,
        )
    }
}

/// The state before the first segment: nothing finished, and the line being
/// filled seeded with the first-line indent.
pub open spec fn initial_flow(p: WrapParams) -> FlowState {
    FlowState { out: Seq::empty(), cur: p.indent }
}

/// The text of a state: the finished lines, then the line being filled.
pub open spec fn flow_text(st: FlowState) -> Seq<char> {
    st.out + st.cur
}

/// A segment list packed into lines.
pub open spec fn pack_segments(segments: Seq<SegmentView>, p: WrapParams) -> Seq<char> {
    flow_text(place_segments(initial_flow(p), segments, 0, is_list_item(segments), p))
}

/// Decides [`is_list_item`].
pub fn list_item_start(segments: &[TextSegment]) -> (b: bool)
    ensures
        b == is_list_item(segment_views(segments@)),
{
    if segments.len() == 0 {
        return false;
    }
    match &segments[0] {
        TextSegment::PlainText(text) => {
            let chars = to_chars(text.as_str());
            let a = first_non_whitespace(chars.as_slice());
            proof {
                lemma_skip_whitespace(chars@, 0);
            }
            a < chars.len() && chars[a] == '-'
        },
        _ => false,
    }
}

impl HybridWrapper {
    /// Renders one segment to its output form.
    pub fn process_segment(&self, segment: &TextSegment, config: &WrapConfig) -> (out: Vec<char>)
        ensures
            out@ == render_segment(segment@, config@),
    {
        match segment {
            TextSegment::PlainText(text) => {
                let chars = to_chars(text.as_str());
                if config.handle_code_blocks {
                    self.wrap_without_paragraphs(chars.as_slice(), config)
                } else {
                    chars
                }
            },
            TextSegment::CodeBlock(code) => {
                let chars = to_chars(code.as_str());
                if config.handle_code_blocks {
                    let mut out: Vec<char> = Vec::new();
                    out.push('\n');
                    push_all(&mut out, chars.as_slice());
                    out.push('\n');
                    proof {
                        assert(out@ =~= fenced(code@));
                    }
                    out
                } else {
                    chars
                }
            },
            TextSegment::Link(url, text) => {
                let display = to_chars(text.as_str());
                if config.preserve_links {
                    let target = to_chars(url.as_str());
                    let mut out: Vec<char> = Vec::new();
                    out.push('[');
                    push_all(&mut out, display.as_slice());
                    out.push(']');
                    out.push('(');
                    push_all(&mut out, target.as_slice());
                    out.push(')');
                    proof {
                        assert(out@ =~= markdown_link(url@, text@));
                    }
                    out
                } else {
                    display
                }
            },
            TextSegment::InlineCode(code) => to_chars(code.as_str()),
        }
    }

    /// Packs a segment list into lines of text.
    pub fn pack_segment_list(&self, segments: &[TextSegment], config: &WrapConfig) -> (out: Vec<char>)
        ensures
            out@ == pack_segments(segment_views(segments@), config@),
    {
        let ghost views = segment_views(segments@);
        let list_item = list_item_start(segments);
        let indent = to_chars(config.indent.as_str());
        let hanging = to_chars(config.hanging_indent.as_str());
        let limit = config.max_width as u128;
        let mut out: Vec<char> = Vec::new();
        let mut cur: Vec<char> = Vec::new();
        push_all(&mut cur, indent.as_slice());
        let mut width: u128 = str_display_width(cur.as_slice());
        proof {
            assert(cur@ =~= config@.indent);
        }
        let mut i: usize = 0;
        while i < segments.len()
            invariant
                i <= segments.len(),
                views == segment_views(segments@),
                list_item == is_list_item(views),
                indent@ == config.indent@,
                hanging@ == config.hanging_indent@,
                limit == config.max_width,
                width == display_width(cur@),
                place_segments(FlowState { out: out@, cur: cur@ }, views, i as int, list_item, config@)
                    == place_segments(initial_flow(config@), views, 0, list_item, config@),
            decreases segments.len() - i,
        {
            let ghost st0 = FlowState { out: out@, cur: cur@ };
            let rendered = self.process_segment(&segments[i], config);
            let w = str_display_width(rendered.as_slice());
            proof {
                assert(views[i as int] == segments@[i as int]@);
                lemma_buffer_width(&cur);
                lemma_buffer_width(&rendered);
                lemma_width_concat(cur@, rendered@);
            }
            if width + w <= limit {
                push_all(&mut cur, rendered.as_slice());
                width = width + w;
            } else if list_item && marker_only(cur.as_slice()) {
                let n = cur.len();
                if n == 0 || cur[n - 1] != ' ' {
                    cur.push(' ');
                }
                push_all(&mut cur, rendered.as_slice());
                width = str_display_width(cur.as_slice());
            } else {
                if cur.len() > 0 {
                    push_all(&mut out, cur.as_slice());
                    out.push('\n');
                    proof {
                        assert(out@ =~= st0.out + st0.cur + seq!['\n']);
                    }
                }
                cur = Vec::new();
                push_all(&mut cur, indent.as_slice());
                push_all(&mut cur, hanging.as_slice());
                push_all(&mut cur, rendered.as_slice());
                width = str_display_width(cur.as_slice());
                proof {
                    assert(cur@ =~= continuation_prefix(config@) + rendered@);
                }
            }
            proof {
                assert(FlowState { out: out@, cur: cur@ } == place_segment(
                    st0,
                    render_segment(views[i as int], config@),
                    list_item,
                    config@,
                ));
            }
            i = i + 1;
        }
        push_all(&mut out, cur.as_slice());
        out
    }
}

} // verus!
