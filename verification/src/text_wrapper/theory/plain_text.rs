//! Plain text: text in which none of the three scanners finds anything. It
//! is one plain-text segment; and a text that holds none of the markers the
//! scanners look for is plain.

use crate::text_wrapper::segment::{code_block_from, index_of_from, inline_code_from, next_fence};
use crate::text_wrapper::segment::{next_link, scheme_len, segments};
use crate::text_wrapper::types::SegmentView;
use vstd::prelude::*;

verus! {

/// Whether a text is plain: it holds no fenced code block, no link and no
/// inline code span.
pub open spec fn is_plain(text: Seq<char>) -> bool {
    &&& code_block_from(text, 0) is None
    &&& next_link(text, 0) == text.len()
    &&& inline_code_from(text, 0) is None
}

/// A plain text that is not empty is one plain-text segment.
pub proof fn lemma_plain_is_one_segment(text: Seq<char>)
    requires
        is_plain(text),
        text.len() > 0,
    ensures
        segments(text) == seq![SegmentView::PlainText(text)],
{
    assert(text.subrange(0, text.len() as int) =~= text);
}

/// Whether a text holds none of the markers that begin a segment: no
/// backtick, no opening bracket, and no `http://` or `https://`.
pub open spec fn has_no_markers(text: Seq<char>) -> bool {
    &&& !text.contains('`')
    &&& !text.contains('[')
    &&& forall|i: int| 0 <= i < text.len() ==> #[trigger] scheme_len(text, i) == 0
}

/// In a text without a backtick no search finds one, and no fence.
pub proof fn lemma_no_backtick(text: Seq<char>, i: int)
    requires
        !text.contains('`'),
        0 <= i <= text.len(),
    ensures
        index_of_from(text, '`', i) == text.len(),
        next_fence(text, i) == text.len(),
    decreases text.len() - i,
{
    if i < text.len() {
        assert(text.contains(text[i]));
        lemma_no_backtick(text, i + 1);
    }
}

/// In a text without markers no link begins.
pub proof fn lemma_no_link(text: Seq<char>, i: int)
    requires
        has_no_markers(text),
        0 <= i <= text.len(),
    ensures
        next_link(text, i) == text.len(),
    decreases text.len() - i,
{
    if i < text.len() {
        assert(text.contains(text[i]));
        assert(scheme_len(text, i) == 0);
        lemma_no_link(text, i + 1);
    }
}

/// A text without markers is plain.
pub proof fn markerless_text_is_plain(text: Seq<char>)
    requires
        has_no_markers(text),
    ensures
        is_plain(text),
{
    lemma_no_backtick(text, 0);
    lemma_no_link(text, 0);
}

} // verus!
