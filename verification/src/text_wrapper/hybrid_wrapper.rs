//! The segment-aware wrapper.

use crate::chars::{from_chars, to_chars};
use crate::text_wrapper::flow::pack_segments;
use crate::text_wrapper::paragraph::wrap_paragraphs;
use crate::text_wrapper::segment::segments;
use crate::text_wrapper::types::{SegmentView, TextSegment, WordWrapper, WrapConfig, WrapParams};
use vstd::prelude::*;

verus! {

/// The wrapper that treats inline code, links and fenced code blocks as
/// units. Its operations are spread over the modules of this directory:
/// segmentation, word packing, segment packing and paragraph handling.
#[derive(Debug, Clone, Copy)]
pub struct HybridWrapper;

/// A text wrapped by the segment-aware pipeline.
///
/// The empty text stays empty. With paragraphs preserved the text is wrapped
/// paragraph by paragraph, each unit segmented on its own; otherwise the
/// whole text is segmented and packed as one stream.
pub open spec fn hybrid_wrap(text: Seq<char>, p: WrapParams) -> Seq<char> {
    if text.len() == 0 {
        Seq::empty()
    } else if p.preserve_paragraphs {
        wrap_paragraphs(text, p, true)
    } else {
        pack_segments(segments(text), p)
    }
}

impl HybridWrapper {
    /// A new wrapper; it holds no state.
    pub fn new() -> (w: HybridWrapper) {
        HybridWrapper
    }

    /// Wraps `text`, given and returned as characters.
    pub fn wrap_chars(&self, text: &[char], config: &WrapConfig) -> (out: Vec<char>)
        ensures
            out@ == hybrid_wrap(text@, config@),
    {
        if text.len() == 0 {
            Vec::new()
        } else if config.preserve_paragraphs {
            self.wrap_paragraph_list(text, config, true)
        } else {
            let parsed = self.parse_segments(text);
            self.pack_segment_list(parsed.as_slice(), config)
        }
    }
}

impl WordWrapper for HybridWrapper {
    open spec fn wrapped_text(&self, text: Seq<char>, config: WrapParams) -> Seq<char> {
        hybrid_wrap(text, config)
    }

    open spec fn wrapped_segments(&self, segments: Seq<SegmentView>, config: WrapParams) -> Seq<
        char,
    > {
        pack_segments(segments, config)
    }

    fn wrap_text(&self, text: &str, config: &WrapConfig) -> (out: String) {
        let chars = to_chars(text);
        let wrapped = self.wrap_chars(chars.as_slice(), config);
        from_chars(wrapped.as_slice())
    }

    fn wrap_segments(&self, segments: &[TextSegment], config: &WrapConfig) -> (out: String) {
        let wrapped = self.pack_segment_list(segments, config);
        from_chars(wrapped.as_slice())
    }
}

} // verus!
