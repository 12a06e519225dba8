//! Configuration and segment types of the text wrapper.

use crate::config::TextWrapConfig;
use vstd::prelude::*;

verus! {

/// Which wrapper variant reflows the text.
#[derive(Debug, Clone, Copy, PartialEq, Eq, Structural)]
pub enum WrapStrategy {
    /// Break at word boundaries.
    WordBoundary,
    /// Segment-aware wrapping; the production path.
    Hybrid,
    /// Reserved for breaking at semantic boundaries.
    Semantic,
}

/// Settings of one wrapping run.
#[derive(Debug, Clone)]
pub struct WrapConfig {
    /// Display columns available on a line.
    pub max_width: usize,
    /// Split words on runs of whitespace rather than on single spaces.
    pub preserve_words: bool,
    /// Allow a word wider than `max_width` to be split.
    pub break_long_words: bool,
    /// Reflow plain text and put fenced code blocks on lines of their own.
    pub handle_code_blocks: bool,
    /// Keep links in their `[text](url)` form rather than the bare text.
    pub preserve_links: bool,
    /// Keep blank-line paragraph breaks and hard line breaks.
    pub preserve_paragraphs: bool,
    /// Wrapper variant.
    pub strategy: WrapStrategy,
    /// Prefix of the first line.
    pub indent: String,
    /// Prefix of every continuation line.
    pub hanging_indent: String,
}

/// Mathematical value of a [`WrapConfig`].
pub struct WrapParams {
    pub max_width: nat,
    pub preserve_words: bool,
    pub break_long_words: bool,
    pub handle_code_blocks: bool,
    pub preserve_links: bool,
    pub preserve_paragraphs: bool,
    pub strategy: WrapStrategy,
    pub indent: Seq<char>,
    pub hanging_indent: Seq<char>,
}

impl WrapParams {
    /// The settings that [`WrapConfig::default`] returns.
    pub open spec fn standard() -> WrapParams {
        WrapParams {
            max_width: 80,
            preserve_words: true,
            break_long_words: true,
            handle_code_blocks: true,
            preserve_links: true,
            preserve_paragraphs: false,
            strategy: WrapStrategy::Hybrid,
            indent: Seq::empty(),
            hanging_indent: Seq::empty(),
        }
    }
}

impl View for WrapConfig {
    type V = WrapParams;

    open spec fn view(&self) -> WrapParams {
        WrapParams {
            max_width: self.max_width as nat,
            preserve_words: self.preserve_words,
            break_long_words: self.break_long_words,
            handle_code_blocks: self.handle_code_blocks,
            preserve_links: self.preserve_links,
            preserve_paragraphs: self.preserve_paragraphs,
            strategy: self.strategy,
            indent: self.indent@,
            hanging_indent: self.hanging_indent@,
        }
    }
}

impl WrapConfig {
    /// Settings for one run: the persisted preferences, with the width
    /// overridden by `wrap_width` when it is given, no first-line indent, and
    /// the Hybrid strategy.
    pub fn from_config_and_args(
        text_wrap_config: &TextWrapConfig,
        wrap_width: Option<usize>,
        preserve_paragraphs: bool,
    ) -> (config: WrapConfig)
        ensures
            config@ == (WrapParams {
                max_width: match wrap_width {
                    Some(w) => w as nat,
                    None => text_wrap_config.default_width as nat,
                },
                preserve_words: text_wrap_config.preserve_words,
                break_long_words: text_wrap_config.break_long_words,
                handle_code_blocks: text_wrap_config.handle_code_blocks,
                preserve_links: text_wrap_config.preserve_links,
                preserve_paragraphs,
                strategy: WrapStrategy::Hybrid,
                indent: Seq::empty(),
                hanging_indent: text_wrap_config.hanging_indent@,
            }),
    {
        let max_width = match wrap_width {
            Some(w) => w,
            None => text_wrap_config.default_width,
        };
        WrapConfig {
            max_width,
            preserve_words: text_wrap_config.preserve_words,
            break_long_words: text_wrap_config.break_long_words,
            handle_code_blocks: text_wrap_config.handle_code_blocks,
            preserve_links: text_wrap_config.preserve_links,
            preserve_paragraphs,
            strategy: WrapStrategy::Hybrid,
            indent: String::new(),
            hanging_indent: text_wrap_config.hanging_indent.clone(),
        }
    }
}

impl Default for WrapConfig {
    /// Eighty columns, every feature on but paragraph preservation, no indents.
    fn default() -> (config: WrapConfig)
        ensures
            config@ == WrapParams::standard(),
    {
        WrapConfig {
            max_width: 80,
            preserve_words: true,
            break_long_words: true,
            handle_code_blocks: true,
            preserve_links: true,
            preserve_paragraphs: false,
            strategy: WrapStrategy::Hybrid,
            indent: String::new(),
            hanging_indent: String::new(),
        }
    }
}

/// A classified span of the input.
#[derive(Debug, Clone, PartialEq)]
pub enum TextSegment {
    /// Text that may be reflowed.
    PlainText(String),
    /// A fenced code block, fences included.
    CodeBlock(String),
    /// A link: its target, then its display text.
    Link(String, String),
    /// An inline code span, backticks included.
    InlineCode(String),
}

/// Mathematical value of a [`TextSegment`].
pub enum SegmentView {
    PlainText(Seq<char>),
    CodeBlock(Seq<char>),
    Link(Seq<char>, Seq<char>),
    InlineCode(Seq<char>),
}

impl View for TextSegment {
    type V = SegmentView;

    open spec fn view(&self) -> SegmentView {
        match self {
            TextSegment::PlainText(s) => SegmentView::PlainText(s@),
            TextSegment::CodeBlock(s) => SegmentView::CodeBlock(s@),
            TextSegment::Link(url, text) => SegmentView::Link(url@, text@),
            TextSegment::InlineCode(s) => SegmentView::InlineCode(s@),
        }
    }
}

/// The values of a sequence of segments.
pub open spec fn segment_views(segments: Seq<TextSegment>) -> Seq<SegmentView> {
    segments.map_values(|s: TextSegment| s@)
}

/// A wrapper variant: one way of reflowing text and segment lists. What each
/// operation returns is fixed by the variant's two specification functions.
pub trait WordWrapper {
    /// The text that [`wrap_text`](WordWrapper::wrap_text) returns.
    spec fn wrapped_text(&self, text: Seq<char>, config: WrapParams) -> Seq<char>;

    /// The text that [`wrap_segments`](WordWrapper::wrap_segments) returns.
    spec fn wrapped_segments(&self, segments: Seq<SegmentView>, config: WrapParams) -> Seq<char>;

    /// Reflows `text`.
    fn wrap_text(&self, text: &str, config: &WrapConfig) -> (out: String)
        ensures
            out@ == self.wrapped_text(text@, config@),
    ;

    /// Reflows an already segmented text.
    fn wrap_segments(&self, segments: &[TextSegment], config: &WrapConfig) -> (out: String)
        ensures
            out@ == self.wrapped_segments(segment_views(segments@), config@),
    ;
}

} // verus!
