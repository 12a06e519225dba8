//! The wrapper's entry point and its variants.

use crate::chars::{from_chars, has_content, push_all, to_chars, trim};
use crate::split::{join, join_chars, lemma_deep_view_push};
use crate::text_wrapper::flow::pack_segments;
use crate::text_wrapper::hybrid_wrapper::{hybrid_wrap, HybridWrapper};
use crate::text_wrapper::types::{segment_views, SegmentView, TextSegment, WordWrapper, WrapConfig};
use crate::text_wrapper::types::{WrapParams, WrapStrategy};
use crate::width::{char_display_width, display_width, lemma_buffer_width, lemma_width_push};
use crate::width::str_display_width;
use vstd::prelude::*;

verus! {

/// Wraps text with a fixed configuration.
pub struct TextWrapper {
    config: WrapConfig,
}

impl TextWrapper {
    /// The settings this wrapper was made with.
    pub closed spec fn params(&self) -> WrapParams {
        self.config@
    }

    /// A wrapper with the given settings.
    pub fn new(config: WrapConfig) -> (wrapper: TextWrapper)
        ensures
            wrapper.params() == config@,
    {
        TextWrapper { config }
    }

    /// Reflows `text` to the configured width. Every strategy runs the
    /// segment-aware pipeline.
    pub fn wrap(&self, text: &str) -> (out: String)
        ensures
            out@ == hybrid_wrap(text@, self.params()),
    {
        match self.config.strategy {
            WrapStrategy::WordBoundary => WordBoundaryWrapper::new().wrap_text(text, &self.config),
            WrapStrategy::Hybrid => HybridWrapper::new().wrap_text(text, &self.config),
            WrapStrategy::Semantic => SemanticWrapper::new().wrap_text(text, &self.config),
        }
    }
}

impl Default for TextWrapper {
    /// A wrapper with the default settings.
    fn default() -> (wrapper: TextWrapper)
        ensures
            wrapper.params() == WrapParams::standard(),
    {
        TextWrapper::new(WrapConfig::default())
    }
}

/// Wrapping at word boundaries; for now the segment-aware pipeline.
#[derive(Debug, Clone, Copy)]
pub struct WordBoundaryWrapper {
    inner: HybridWrapper,
}

impl WordBoundaryWrapper {
    /// A new wrapper.
    pub fn new() -> (w: WordBoundaryWrapper) {
        WordBoundaryWrapper { inner: HybridWrapper::new() }
    }
}

impl WordWrapper for WordBoundaryWrapper {
    open spec fn wrapped_text(&self, text: Seq<char>, config: WrapParams) -> Seq<char> {
        hybrid_wrap(text, config)
    }

    open spec fn wrapped_segments(&self, segments: Seq<SegmentView>, config: WrapParams) -> Seq<
        char,
    > {
        pack_segments(segments, config)
    }

    fn wrap_text(&self, text: &str, config: &WrapConfig) -> (out: String) {
        self.inner.wrap_text(text, config)
    }

    fn wrap_segments(&self, segments: &[TextSegment], config: &WrapConfig) -> (out: String) {
        self.inner.wrap_segments(segments, config)
    }
}

/// Wrapping at semantic boundaries; for now the segment-aware pipeline.
#[derive(Debug, Clone, Copy)]
pub struct SemanticWrapper {
    inner: HybridWrapper,
}

impl SemanticWrapper {
    /// A new wrapper.
    pub fn new() -> (w: SemanticWrapper) {
        SemanticWrapper { inner: HybridWrapper::new() }
    }
}

impl WordWrapper for SemanticWrapper {
    open spec fn wrapped_text(&self, text: Seq<char>, config: WrapParams) -> Seq<char> {
        hybrid_wrap(text, config)
    }

    open spec fn wrapped_segments(&self, segments: Seq<SegmentView>, config: WrapParams) -> Seq<
        char,
    > {
        pack_segments(segments, config)
    }

    fn wrap_text(&self, text: &str, config: &WrapConfig) -> (out: String) {
        self.inner.wrap_text(text, config)
    }

    fn wrap_segments(&self, segments: &[TextSegment], config: &WrapConfig) -> (out: String) {
        self.inner.wrap_segments(segments, config)
    }
}

/// Wrapping character by character, with no regard for words or segments.
#[derive(Debug, Clone, Copy)]
pub struct CharacterWrapper;

/// The lines finished so far and the line being filled.
pub struct CharState {
    pub lines: Seq<Seq<char>>,
    pub cur: Seq<char>,
}

/// The state after one more character: a line that is full and holds more
/// than whitespace is finished first, and the character starts the next one
/// behind the hanging indent.
pub open spec fn place_char(st: CharState, c: char, p: WrapParams) -> CharState {
    if display_width(st.cur) >= p.max_width && trim(st.cur).len() > 0 {
        CharState { lines: st.lines.push(st.cur), cur: p.hanging_indent.push(c) }
    } else {
        CharState { lines: st.lines, cur: st.cur.push(c) }
    }
}

/// The state after the characters from index `i` on.
pub open spec fn place_chars(st: CharState, text: Seq<char>, i: int, p: WrapParams) -> CharState
    decreases text.len() - i,
{
    if i < 0 || i >= text.len() {
        st
    } else {
        place_chars(place_char(st, text[i], p), text, i + 1, p)
    }
}

/// A text wrapped character by character: the first line starts with the
/// indent, and the lines are joined by line feeds.
pub open spec fn wrap_characters(text: Seq<char>, p: WrapParams) -> Seq<char> {
    let end = place_chars(CharState { lines: Seq::empty(), cur: p.indent }, text, 0, p);
    join(
        if end.cur.len() > 0 {
            end.lines.push(end.cur)
        } else {
            end.lines
        },
        seq!['\n'],
    )
}

/// The text of a segment with its markup taken as it stands; of a link, the
/// display text.
pub open spec fn segment_text(segment: SegmentView) -> Seq<char> {
    match segment {
        SegmentView::PlainText(text) => text,
        SegmentView::CodeBlock(code) => code,
        SegmentView::Link(_, text) => text,
        SegmentView::InlineCode(code) => code,
    }
}

/// The texts of the segments, one after the other.
pub open spec fn flatten(segments: Seq<SegmentView>) -> Seq<char>
    decreases segments.len(),
{
    if segments.len() == 0 {
        Seq::empty()
    } else {
        flatten(segments.drop_last()) + segment_text(segments.last())
    }
}

impl CharacterWrapper {
    /// Wraps `text`, given and returned as characters.
    pub fn wrap_chars(&self, text: &[char], config: &WrapConfig) -> (out: Vec<char>)
        ensures
            out@ == wrap_characters(text@, config@),
    {
        let hanging = to_chars(config.hanging_indent.as_str());
        let limit = config.max_width as u128;
        let mut lines: Vec<Vec<char>> = Vec::new();
        let mut cur = to_chars(config.indent.as_str());
        let mut width = str_display_width(cur.as_slice());
        proof {
            assert(lines.deep_view() =~= Seq::<Seq<char>>::empty());
        }
        let mut i: usize = 0;
        while i < text.len()
            invariant
                i <= text.len(),
                hanging@ == config.hanging_indent@,
                limit == config.max_width,
                width == display_width(cur@),
                place_chars(
                    CharState { lines: lines.deep_view(), cur: cur@ },
                    text@,
                    i as int,
                    config@,
                ) == place_chars(
                    CharState { lines: Seq::empty(), cur: config@.indent },
                    text@,
                    0,
                    config@,
                ),
            decreases text.len() - i,
        {
            let c = text[i];
            let ghost st0 = CharState { lines: lines.deep_view(), cur: cur@ };
            proof {
                lemma_buffer_width(&cur);
                lemma_buffer_width(&hanging);
            }
            if width >= limit && has_content(cur.as_slice()) {
                let mut line: Vec<char> = Vec::new();
                push_all(&mut line, hanging.as_slice());
                std::mem::swap(&mut cur, &mut line);
                proof {
                    lemma_deep_view_push(lines, line);
                }
                lines.push(line);
                width = str_display_width(cur.as_slice());
                proof {
                    assert(lines.deep_view() == st0.lines.push(st0.cur));
                }
            }
            proof {
                lemma_width_push(cur@, c);
            }
            cur.push(c);
            width = width + char_display_width(c);
            proof {
                assert(CharState { lines: lines.deep_view(), cur: cur@ } == place_char(
                    st0,
                    c,
                    config@,
                ));
            }
            i = i + 1;
        }
        let ghost end = CharState { lines: lines.deep_view(), cur: cur@ };
        proof {
            assert(place_chars(end, text@, i as int, config@) == end);
        }
        if cur.len() > 0 {
            proof {
                lemma_deep_view_push(lines, cur);
            }
            lines.push(cur);
            proof {
                assert(lines.deep_view() == end.lines.push(end.cur));
            }
        }
        let mut feed: Vec<char> = Vec::new();
        feed.push('\n');
        proof {
            assert(feed@ =~= seq!['\n']);
        }
        join_chars(&lines, feed.as_slice())
    }
}

impl WordWrapper for CharacterWrapper {
    open spec fn wrapped_text(&self, text: Seq<char>, config: WrapParams) -> Seq<char> {
        wrap_characters(text, config)
    }

    open spec fn wrapped_segments(&self, segments: Seq<SegmentView>, config: WrapParams) -> Seq<
        char,
    > {
        wrap_characters(flatten(segments), config)
    }

    fn wrap_text(&self, text: &str, config: &WrapConfig) -> (out: String) {
        let chars = to_chars(text);
        let wrapped = self.wrap_chars(chars.as_slice(), config);
        from_chars(wrapped.as_slice())
    }

    fn wrap_segments(&self, segments: &[TextSegment], config: &WrapConfig) -> (out: String) {
        let mut text: Vec<char> = Vec::new();
        let mut i: usize = 0;
        while i < segments.len()
            invariant
                i <= segments.len(),
                text@ == flatten(segment_views(segments@).take(i as int)),
            decreases segments.len() - i,
        {
            proof {
                let next = segment_views(segments@).take(i + 1);
                assert(next.drop_last() =~= segment_views(segments@).take(i as int));
                assert(next.last() == segments@[i as int]@);
            }
            let piece = match &segments[i] {
                TextSegment::PlainText(s) => to_chars(s.as_str()),
                TextSegment::CodeBlock(s) => to_chars(s.as_str()),
                TextSegment::Link(_, s) => to_chars(s.as_str()),
                TextSegment::InlineCode(s) => to_chars(s.as_str()),
            };
            push_all(&mut text, piece.as_slice());
            i = i + 1;
        }
        proof {
            assert(segment_views(segments@).take(i as int) =~= segment_views(segments@));
        }
        let wrapped = self.wrap_chars(text.as_slice(), config);
        from_chars(wrapped.as_slice())
    }
}

} // verus!
