//! Paragraph handling: blank-line paragraph breaks and hard line breaks
//! survive the wrapping.
//!
//! The text is cut at blank-line separators. Pieces that hold nothing but
//! whitespace are no paragraphs and are dropped, so that exactly one blank
//! line stands between two paragraphs of the output however many the input
//! had. A paragraph with hard line breaks is wrapped line by line; one
//! without is wrapped as a whole.

use crate::chars::{contains_char, trim, trimmed};
use crate::split::{join, join_chars, lemma_deep_view_push, physical_lines, physical_lines_chars};
use crate::split::{split_blank, split_blank_chars};
use crate::text_wrapper::flow::pack_segments;
use crate::text_wrapper::hybrid_wrapper::HybridWrapper;
use crate::text_wrapper::pack::wrap_words;
use crate::text_wrapper::segment::segments;
use crate::text_wrapper::types::{WrapConfig, WrapParams};
use vstd::prelude::*;

verus! {

/// One unit of text wrapped: segmented and packed, or, for text that is
/// known to be plain, packed word by word.
pub open spec fn wrap_unit(text: Seq<char>, p: WrapParams, segmented: bool) -> Seq<char> {
    if segmented {
        pack_segments(segments(text), p)
    } else {
        wrap_words(text, p)
    }
}

/// One physical line wrapped on its own. A line of nothing but whitespace
/// gives an empty line.
pub open spec fn wrap_line(line: Seq<char>, p: WrapParams, segmented: bool) -> Seq<char> {
    if trim(line).len() == 0 {
        Seq::empty()
    } else {
        wrap_unit(trim(line), p, segmented)
    }
}

/// Each of the lines wrapped on its own.
pub open spec fn wrap_lines(lines: Seq<Seq<char>>, p: WrapParams, segmented: bool) -> Seq<Seq<char>>
    decreases lines.len(),
{
    if lines.len() == 0 {
        Seq::empty()
    } else {
        wrap_lines(lines.drop_last(), p, segmented).push(wrap_line(lines.last(), p, segmented))
    }
}

/// One paragraph wrapped: line by line when it has hard line breaks, as a
/// whole when it has none. Whitespace around the paragraph is dropped first.
pub open spec fn wrap_paragraph(paragraph: Seq<char>, p: WrapParams, segmented: bool) -> Seq<char> {
    let body = trim(paragraph);
    if body.contains('\n') {
        join(wrap_lines(physical_lines(body), p, segmented), seq!['\n'])
    } else {
        wrap_unit(body, p, segmented)
    }
}

/// Whether a piece of text is a paragraph: it holds more than whitespace.
pub open spec fn is_paragraph(piece: Seq<char>) -> bool {
    trim(piece).len() > 0
}

/// The paragraphs among the pieces, in order.
pub open spec fn paragraphs_among(pieces: Seq<Seq<char>>) -> Seq<Seq<char>>
    decreases pieces.len(),
{
    if pieces.len() == 0 {
        Seq::empty()
    } else if is_paragraph(pieces.last()) {
        paragraphs_among(pieces.drop_last()).push(pieces.last())
    } else {
        paragraphs_among(pieces.drop_last())
    }
}

/// The paragraphs of a text: its pieces between blank-line separators that
/// hold more than whitespace.
pub open spec fn paragraphs(text: Seq<char>) -> Seq<Seq<char>> {
    paragraphs_among(split_blank(text))
}

/// Each of the paragraphs wrapped.
pub open spec fn wrap_each(paragraphs: Seq<Seq<char>>, p: WrapParams, segmented: bool) -> Seq<Seq<char>>
    decreases paragraphs.len(),
{
    if paragraphs.len() == 0 {
        Seq::empty()
    } else {
        wrap_each(paragraphs.drop_last(), p, segmented).push(
            wrap_paragraph(paragraphs.last(), p, segmented),
        )
    }
}

/// The separator between two paragraphs of the output: one blank line.
pub open spec fn paragraph_break() -> Seq<char> {
    seq!['\n', '\n']
}

/// A text wrapped paragraph by paragraph, with one blank line between each
/// two paragraphs.
pub open spec fn wrap_paragraphs(text: Seq<char>, p: WrapParams, segmented: bool) -> Seq<char> {
    join(wrap_each(paragraphs(text), p, segmented), paragraph_break())
}

/// The wrapped paragraphs of the pieces, in order: [`wrap_each`] of
/// [`paragraphs_among`], written as one walk over the pieces.
pub open spec fn wrap_pieces(pieces: Seq<Seq<char>>, p: WrapParams, segmented: bool) -> Seq<Seq<char>>
    decreases pieces.len(),
{
    if pieces.len() == 0 {
        Seq::empty()
    } else if is_paragraph(pieces.last()) {
        wrap_pieces(pieces.drop_last(), p, segmented).push(
            wrap_paragraph(pieces.last(), p, segmented),
        )
    } else {
        wrap_pieces(pieces.drop_last(), p, segmented)
    }
}

/// Wrapping the pieces in one walk gives the wrapped paragraphs.
pub proof fn lemma_wrap_pieces(pieces: Seq<Seq<char>>, p: WrapParams, segmented: bool)
    ensures
        wrap_pieces(pieces, p, segmented) == wrap_each(paragraphs_among(pieces), p, segmented),
    decreases pieces.len(),
{
    if pieces.len() > 0 {
        lemma_wrap_pieces(pieces.drop_last(), p, segmented);
        if is_paragraph(pieces.last()) {
            let ps = paragraphs_among(pieces);
            assert(ps.drop_last() =~= paragraphs_among(pieces.drop_last()));
            assert(ps.last() == pieces.last());
        }
    }
}

impl HybridWrapper {
    /// Wraps one unit of text.
    fn wrap_one(&self, text: &[char], config: &WrapConfig, segmented: bool) -> (out: Vec<char>)
        ensures
            out@ == wrap_unit(text@, config@, segmented),
    {
        if segmented {
            let parsed = self.parse_segments(text);
            self.pack_segment_list(parsed.as_slice(), config)
        } else {
            self.wrap_without_paragraphs(text, config)
        }
    }

    /// Wraps one paragraph.
    fn wrap_one_paragraph(&self, paragraph: &[char], config: &WrapConfig, segmented: bool) -> (out:
        Vec<char>)
        ensures
            out@ == wrap_paragraph(paragraph@, config@, segmented),
    {
        let body = trimmed(paragraph);
        if contains_char(body.as_slice(), '\n') {
            let lines = physical_lines_chars(body.as_slice());
            let mut wrapped: Vec<Vec<char>> = Vec::new();
            let mut i: usize = 0;
            while i < lines.len()
                invariant
                    i <= lines.len(),
                    wrapped.deep_view() == wrap_lines(
                        lines.deep_view().take(i as int),
                        config@,
                        segmented,
                    ),
                decreases lines.len() - i,
            {
                let line = trimmed(lines[i].as_slice());
                let piece = if line.len() == 0 {
                    Vec::new()
                } else {
                    self.wrap_one(line.as_slice(), config, segmented)
                };
                proof {
                    let next = lines.deep_view().take(i + 1);
                    assert(next.drop_last() =~= lines.deep_view().take(i as int));
                    assert(next.last() == lines@[i as int]@);
                    lemma_deep_view_push(wrapped, piece);
                }
                wrapped.push(piece);
                i = i + 1;
            }
            proof {
                assert(lines.deep_view().take(i as int) =~= lines.deep_view());
            }
            let mut feed: Vec<char> = Vec::new();
            feed.push('\n');
            proof {
                assert(feed@ =~= seq!['\n']);
            }
            join_chars(&wrapped, feed.as_slice())
        } else {
            self.wrap_one(body.as_slice(), config, segmented)
        }
    }

    /// Wraps a text paragraph by paragraph.
    pub fn wrap_paragraph_list(&self, text: &[char], config: &WrapConfig, segmented: bool) -> (out:
        Vec<char>)
        ensures
            out@ == wrap_paragraphs(text@, config@, segmented),
    {
        let pieces = split_blank_chars(text);
        let mut wrapped: Vec<Vec<char>> = Vec::new();
        let mut i: usize = 0;
        while i < pieces.len()
            invariant
                i <= pieces.len(),
                wrapped.deep_view() == wrap_pieces(
                    pieces.deep_view().take(i as int),
                    config@,
                    segmented,
                ),
            decreases pieces.len() - i,
        {
            proof {
                let next = pieces.deep_view().take(i + 1);
                assert(next.drop_last() =~= pieces.deep_view().take(i as int));
                assert(next.last() == pieces@[i as int]@);
            }
            let body = trimmed(pieces[i].as_slice());
            if body.len() > 0 {
                let piece = self.wrap_one_paragraph(pieces[i].as_slice(), config, segmented);
                proof {
                    lemma_deep_view_push(wrapped, piece);
                }
                wrapped.push(piece);
            }
            i = i + 1;
        }
        proof {
            assert(pieces.deep_view().take(i as int) =~= pieces.deep_view());
            lemma_wrap_pieces(pieces.deep_view(), config@, segmented);
        }
        let mut separator: Vec<char> = Vec::new();
        separator.push('\n');
        separator.push('\n');
        proof {
            assert(separator@ =~= paragraph_break());
        }
        join_chars(&wrapped, separator.as_slice())
    }

    /// Reflows a plain text paragraph by paragraph, each line or paragraph
    /// packed word by word.
    pub fn wrap_with_paragraphs(&self, text: &[char], config: &WrapConfig) -> (out: Vec<char>)
        ensures
            out@ == wrap_paragraphs(text@, config@, false),
    {
        self.wrap_paragraph_list(text, config, false)
    }

    /// Reflows a plain text: paragraph by paragraph when paragraphs are
    /// preserved, as one stream of words otherwise.
    pub fn wrap_plain_text(&self, text: &[char], config: &WrapConfig) -> (out: Vec<char>)
        ensures
            out@ == (if config.preserve_paragraphs {
                wrap_paragraphs(text@, config@, false)
            } else {
                wrap_words(text@, config@)
            }),
    {
        if config.preserve_paragraphs {
            self.wrap_with_paragraphs(text, config)
        } else {
            self.wrap_without_paragraphs(text, config)
        }
    }
}

} // verus!
