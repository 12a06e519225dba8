//! Segment-aware text wrapping.
//!
//! Text is reflowed to a target display width while inline code, links and
//! fenced code blocks are kept whole. The work is done in four steps, each in
//! a module of its own: `segment` splits the text into segments, `pack` fills
//! lines with the words of plain text, `flow` places the rendered segments on
//! lines, and `paragraph` keeps paragraphs and hard line breaks apart.
//! `hybrid_wrapper` puts the steps together and `text_wrapper` is the entry
//! point. What is proved of the whole stands in `theory`.

pub mod flow;
pub mod hybrid_wrapper;
pub mod pack;
pub mod paragraph;
pub mod segment;
pub mod text_wrapper;
pub mod theory;
pub mod types;

pub use hybrid_wrapper::{hybrid_wrap, HybridWrapper};
pub use text_wrapper::{CharacterWrapper, SemanticWrapper, TextWrapper, WordBoundaryWrapper};
pub use types::{SegmentView, TextSegment, WordWrapper, WrapConfig, WrapParams, WrapStrategy};
