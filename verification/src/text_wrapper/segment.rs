//! Segmentation: splitting raw text into plain text, fenced code blocks,
//! links and inline code.
//!
//! Three scanners run in a fixed order of precedence, each on the text that
//! the one before it left unclaimed: fenced code blocks first, then links,
//! then inline code. A marker without its closing counterpart matches
//! nothing and stays in the plain text around it.

use crate::chars::{from_chars, is_whitespace, is_whitespace_char, sub_chars};
use crate::text_wrapper::hybrid_wrapper::HybridWrapper;
use crate::text_wrapper::types::{segment_views, SegmentView, TextSegment};
use vstd::prelude::*;

verus! {

/// Index of the first `c` at or after `i`, or the length when there is none.
pub open spec fn index_of_from(s: Seq<char>, c: char, i: int) -> int
    decreases s.len() - i,
{
    if i >= s.len() {
        s.len() as int
    } else if s[i] == c {
        i
    } else {
        index_of_from(s, c, i + 1)
    }
}

/// Index of the first character other than `c` at or after `i`, or the length.
pub open spec fn run_end(s: Seq<char>, c: char, i: int) -> int
    decreases s.len() - i,
{
    if i >= s.len() {
        s.len() as int
    } else if s[i] != c {
        i
    } else {
        run_end(s, c, i + 1)
    }
}

/// Index of the first whitespace character at or after `i`, or the length.
pub open spec fn word_end(s: Seq<char>, i: int) -> int
    decreases s.len() - i,
{
    if i >= s.len() {
        s.len() as int
    } else if is_whitespace(s[i]) {
        i
    } else {
        word_end(s, i + 1)
    }
}

/// Whether three backticks start at index `i`.
pub open spec fn fence_at(s: Seq<char>, i: int) -> bool {
    0 <= i && i + 3 <= s.len() && s[i] == '`' && s[i + 1] == '`' && s[i + 2] == '`'
}

/// Index of the first fence at or after `i`, or the length when there is none.
pub open spec fn next_fence(s: Seq<char>, i: int) -> int
    decreases s.len() - i,
{
    if i >= s.len() {
        s.len() as int
    } else if fence_at(s, i) {
        i
    } else {
        next_fence(s, i + 1)
    }
}

/// The first fenced code block at or after `i`, as start and end index: the
/// first fence, up to and including the next fence that does not overlap it.
pub open spec fn code_block_from(s: Seq<char>, i: int) -> Option<(int, int)> {
    let a = next_fence(s, i);
    if a < s.len() {
        let b = next_fence(s, a + 3);
        if b < s.len() {
            Some((a, b + 3))
        } else {
            None
        }
    } else {
        None
    }
}

/// Length of the scheme that starts at `i`: 7 for `http://`, 8 for
/// `https://`, 0 when neither starts there.
pub open spec fn scheme_len(s: Seq<char>, i: int) -> int {
    if 0 <= i && i + 7 <= s.len() && s[i] == 'h' && s[i + 1] == 't' && s[i + 2] == 't' && s[i + 3]
        == 'p' && s[i + 4] == ':' && s[i + 5] == '/' && s[i + 6] == '/' {
        7
    } else if 0 <= i && i + 8 <= s.len() && s[i] == 'h' && s[i + 1] == 't' && s[i + 2] == 't'
        && s[i + 3] == 'p' && s[i + 4] == 's' && s[i + 5] == ':' && s[i + 6] == '/' && s[i + 7]
        == '/' {
        8
    } else {
        0
    }
}

/// Where a link lies in the text: the end of the whole match and the spans
/// of its target and of its display text.
pub struct LinkSpan {
    pub end: int,
    pub url_from: int,
    pub url_to: int,
    pub text_from: int,
    pub text_to: int,
}

/// The bare URL that starts at `i`: a scheme followed by at least one
/// character, up to the next whitespace.
pub open spec fn bare_url_at(s: Seq<char>, i: int) -> Option<LinkSpan> {
    let p = scheme_len(s, i);
    if p > 0 && i + p < s.len() && !is_whitespace(s[i + p]) {
        let e = word_end(s, i + p);
        Some(LinkSpan { end: e, url_from: i, url_to: e, text_from: i, text_to: e })
    } else {
        None
    }
}

/// The markdown link `[text](url)` that starts at `i`: the text runs to the
/// first `]`, which an opening parenthesis must follow at once, and the
/// target runs to the first `)`; neither may be empty.
pub open spec fn markdown_link_at(s: Seq<char>, i: int) -> Option<LinkSpan> {
    if 0 <= i < s.len() && s[i] == '[' {
        let j = index_of_from(s, ']', i + 1);
        if j > i + 1 && j + 1 < s.len() && s[j + 1] == '(' {
            let k = index_of_from(s, ')', j + 2);
            if k > j + 2 && k < s.len() {
                Some(
                    LinkSpan {
                        end: k + 1,
                        url_from: j + 2,
                        url_to: k,
                        text_from: i + 1,
                        text_to: j,
                    },
                )
            } else {
                None
            }
        } else {
            None
        }
    } else {
        None
    }
}

/// The link that starts at `i`, a bare URL being tried first.
pub open spec fn link_at(s: Seq<char>, i: int) -> Option<LinkSpan> {
    match bare_url_at(s, i) {
        Some(span) => Some(span),
        None => markdown_link_at(s, i),
    }
}

/// Index of the first position at or after `i` where a link starts, or the
/// length when there is none.
pub open spec fn next_link(s: Seq<char>, i: int) -> int
    decreases s.len() - i,
{
    if i >= s.len() {
        s.len() as int
    } else if link_at(s, i) is Some {
        i
    } else {
        next_link(s, i + 1)
    }
}

/// The first inline code span at or after `i`, as start and end index.
///
/// The span opens with the last three (or fewer) backticks of the first run
/// of backticks, holds at least one other character, and closes with the
/// first three (or fewer) backticks of the next run. When the text ends
/// before a closing backtick there is no span at all.
pub open spec fn inline_code_from(s: Seq<char>, i: int) -> Option<(int, int)> {
    let a = index_of_from(s, '`', i);
    let content = run_end(s, '`', a);
    let b = index_of_from(s, '`', content);
    if a < s.len() && content < s.len() && b < s.len() {
        let close = run_end(s, '`', b);
        Some(
            (
                if content - a <= 3 {
                    a
                } else {
                    content - 3
                },
                if close - b <= 3 {
                    close
                } else {
                    b + 3
                },
            ),
        )
    } else {
        None
    }
}

/// Third pass, from index `i`: inline code spans, and plain text for
/// everything between and after them.
pub open spec fn code_segments_from(s: Seq<char>, i: int) -> Seq<SegmentView>
    decreases s.len() - i,
{
    match inline_code_from(s, i) {
        Some((a, e)) => {
            let before = if i < a {
                seq![SegmentView::PlainText(s.subrange(i, a))]
            } else {
                Seq::empty()
            };
            // a span always ends after `i`; the test makes the recursion visibly end
            if i < e <= s.len() {
                before + seq![SegmentView::InlineCode(s.subrange(a, e))] + code_segments_from(s, e)
            } else {
                before
            }
        },
        None => if 0 <= i < s.len() {
            seq![SegmentView::PlainText(s.subrange(i, s.len() as int))]
        } else {
            Seq::empty()
        },
    }
}

/// Third pass over a whole text.
pub open spec fn code_segments(s: Seq<char>) -> Seq<SegmentView> {
    code_segments_from(s, 0)
}

/// The segment for a link found in `s`.
pub open spec fn link_segment(s: Seq<char>, span: LinkSpan) -> SegmentView {
    SegmentView::Link(
        s.subrange(span.url_from, span.url_to),
        s.subrange(span.text_from, span.text_to),
    )
}

/// Second pass, from index `i`: links, with the third pass run on the text
/// between and after them.
pub open spec fn link_segments_from(s: Seq<char>, i: int) -> Seq<SegmentView>
    decreases s.len() - i,
{
    let a = next_link(s, i);
    if 0 <= i <= a < s.len() && link_at(s, a) is Some {
        let span = link_at(s, a)->0;
        let head = code_segments(s.subrange(i, a)) + seq![link_segment(s, span)];
        // a link always ends after its start; the test makes the recursion visibly end
        if a < span.end <= s.len() {
            head + link_segments_from(s, span.end)
        } else {
            head
        }
    } else if 0 <= i <= s.len() {
        code_segments(s.subrange(i, s.len() as int))
    } else {
        Seq::empty()
    }
}

/// Second pass over a whole text.
pub open spec fn link_segments(s: Seq<char>) -> Seq<SegmentView> {
    link_segments_from(s, 0)
}

/// First pass, from index `i`: fenced code blocks, with the second pass run
/// on the text between and after them.
pub open spec fn segments_from(s: Seq<char>, i: int) -> Seq<SegmentView>
    decreases s.len() - i,
{
    match code_block_from(s, i) {
        Some((a, e)) => if 0 <= i <= a && a < e <= s.len() {
            link_segments(s.subrange(i, a)) + seq![SegmentView::CodeBlock(s.subrange(a, e))]
                + segments_from(s, e)
        } else {
            Seq::empty()
        },
        None => if 0 <= i <= s.len() {
            link_segments(s.subrange(i, s.len() as int))
        } else {
            Seq::empty()
        },
    }
}

/// The segments of a text, in order.
pub open spec fn segments(s: Seq<char>) -> Seq<SegmentView> {
    segments_from(s, 0)
}

/// Views distribute over concatenation of segment lists.
pub proof fn lemma_segment_views_concat(a: Seq<TextSegment>, b: Seq<TextSegment>)
    ensures
        segment_views(a + b) =~= segment_views(a) + segment_views(b),
{
}

/// Views commute with pushing one segment.
pub proof fn lemma_segment_views_push(a: Seq<TextSegment>, x: TextSegment)
    ensures
        segment_views(a.push(x)) =~= segment_views(a).push(x@),
{
}

/// Computes [`index_of_from`].
pub fn find_char(s: &[char], c: char, from: usize) -> (r: usize)
    requires
        from <= s.len(),
    ensures
        r == index_of_from(s@, c, from as int),
        from <= r <= s.len(),
        r < s.len() ==> s@[r as int] == c,
{
    let mut i: usize = from;
    while i < s.len() && s[i] != c
        invariant
            from <= i <= s.len(),
            index_of_from(s@, c, from as int) == index_of_from(s@, c, i as int),
        decreases s.len() - i,
    {
        i = i + 1;
    }
    i
}

/// Computes [`run_end`].
pub fn find_run_end(s: &[char], c: char, from: usize) -> (r: usize)
    requires
        from <= s.len(),
    ensures
        r == run_end(s@, c, from as int),
        from <= r <= s.len(),
        r < s.len() ==> s@[r as int] != c,
{
    let mut i: usize = from;
    while i < s.len() && s[i] == c
        invariant
            from <= i <= s.len(),
            run_end(s@, c, from as int) == run_end(s@, c, i as int),
        decreases s.len() - i,
    {
        i = i + 1;
    }
    i
}

/// Computes [`word_end`].
pub fn find_word_end(s: &[char], from: usize) -> (r: usize)
    requires
        from <= s.len(),
    ensures
        r == word_end(s@, from as int),
        from <= r <= s.len(),
{
    let mut i: usize = from;
    while i < s.len() && !is_whitespace_char(s[i])
        invariant
            from <= i <= s.len(),
            word_end(s@, from as int) == word_end(s@, i as int),
        decreases s.len() - i,
    {
        i = i + 1;
    }
    i
}

/// Computes [`next_fence`].
pub fn find_fence(s: &[char], from: usize) -> (r: usize)
    requires
        from <= s.len(),
    ensures
        r == next_fence(s@, from as int),
        from <= r <= s.len(),
        r < s.len() ==> r + 3 <= s.len(),
{
    let mut i: usize = from;
    while i < s.len()
        invariant
            from <= i <= s.len(),
            next_fence(s@, from as int) == next_fence(s@, i as int),
        decreases s.len() - i,
    {
        if s.len() - i >= 3 && s[i] == '`' && s[i + 1] == '`' && s[i + 2] == '`' {
            return i;
        }
        i = i + 1;
    }
    i
}

/// The value of an optional pair of indices.
pub open spec fn span_view(m: Option<(usize, usize)>) -> Option<(int, int)> {
    match m {
        Some((a, e)) => Some((a as int, e as int)),
        None => None,
    }
}

/// Computes [`code_block_from`].
pub fn find_code_block(s: &[char], from: usize) -> (m: Option<(usize, usize)>)
    requires
        from <= s.len(),
    ensures
        span_view(m) == code_block_from(s@, from as int),
        m matches Some((a, e)) ==> from <= a && a + 6 <= e <= s.len(),
{
    let a = find_fence(s, from);
    if a < s.len() {
        let b = find_fence(s, a + 3);
        if b < s.len() {
            return Some((a, b + 3));
        }
    }
    None
}

/// Computes [`scheme_len`].
pub fn scheme_length(s: &[char], i: usize) -> (p: usize)
    ensures
        p == scheme_len(s@, i as int),
{
    if i > s.len() || s.len() - i < 7 {
        return 0;
    }
    if !(s[i] == 'h' && s[i + 1] == 't' && s[i + 2] == 't' && s[i + 3] == 'p') {
        return 0;
    }
    if s[i + 4] == ':' && s[i + 5] == '/' && s[i + 6] == '/' {
        7
    } else if s.len() - i >= 8 && s[i + 4] == 's' && s[i + 5] == ':' && s[i + 6] == '/' && s[i
        + 7] == '/' {
        8
    } else {
        0
    }
}

/// Where a link lies in the text, in machine integers.
#[derive(Debug, Clone, Copy)]
pub struct LinkMatch {
    pub end: usize,
    pub url_from: usize,
    pub url_to: usize,
    pub text_from: usize,
    pub text_to: usize,
}

impl View for LinkMatch {
    type V = LinkSpan;

    open spec fn view(&self) -> LinkSpan {
        LinkSpan {
            end: self.end as int,
            url_from: self.url_from as int,
            url_to: self.url_to as int,
            text_from: self.text_from as int,
            text_to: self.text_to as int,
        }
    }
}

/// The value of an optional link match.
pub open spec fn link_view(m: Option<LinkMatch>) -> Option<LinkSpan> {
    match m {
        Some(l) => Some(l@),
        None => None,
    }
}

/// Whether the spans of a link lie inside a text of length `len`, in order,
/// with the link ending after `i`.
pub open spec fn span_in_bounds(span: LinkSpan, i: int, len: int) -> bool {
    &&& i < span.end <= len
    &&& i <= span.url_from <= span.url_to <= len
    &&& i <= span.text_from <= span.text_to <= len
}

/// The answer to a search for a character, kept for the searches that
/// follow: a search from `from` found `at`. Searches that begin between the
/// two have the same answer, so that a text is scanned once however many
/// searches are made, as long as they move forward.
#[derive(Debug, Clone, Copy)]
pub struct Found {
    pub from: usize,
    pub at: usize,
}

impl Found {
    /// Whether this is the answer to a search for `c` in `s`.
    pub open spec fn is_for(self, s: Seq<char>, c: char) -> bool {
        self.from <= s.len() && self.at == index_of_from(s, c, self.from as int)
    }

    /// An answer that holds for any text of the given length and any
    /// character: a search from the end finds nothing.
    pub fn none(len: usize) -> (found: Found)
        ensures
            found.from == len,
            found.at == len,
    {
        Found { from: len, at: len }
    }
}

/// A search that begins before the answer to an earlier search, and not
/// before that search began, has the same answer.
pub proof fn lemma_search_again(s: Seq<char>, c: char, from: int, again: int)
    requires
        0 <= from <= again <= index_of_from(s, c, from),
        from <= s.len(),
    ensures
        index_of_from(s, c, again) == index_of_from(s, c, from),
    decreases again - from,
{
    if from < again {
        lemma_search_again(s, c, from + 1, again);
    }
}

/// Computes [`index_of_from`], scanning only where no earlier search has.
pub fn find_char_again(s: &[char], c: char, from: usize, found: &mut Found) -> (r: usize)
    requires
        from <= s.len(),
        old(found).is_for(s@, c),
    ensures
        r == index_of_from(s@, c, from as int),
        from <= r <= s.len(),
        r < s.len() ==> s@[r as int] == c,
        final(found).is_for(s@, c),
{
    if found.from <= from && from <= found.at {
        proof {
            lemma_search_again(s@, c, found.from as int, from as int);
            lemma_index_of_from(s@, c, found.from as int);
        }
        found.at
    } else {
        let r = find_char(s, c, from);
        found.from = from;
        found.at = r;
        r
    }
}

/// Where a search lands: not before it began, and on the character it
/// looks for unless it reaches the end.
pub proof fn lemma_index_of_from(s: Seq<char>, c: char, from: int)
    requires
        0 <= from <= s.len(),
    ensures
        from <= index_of_from(s, c, from) <= s.len(),
        index_of_from(s, c, from) < s.len() ==> s[index_of_from(s, c, from)] == c,
    decreases s.len() - from,
{
    if from < s.len() && s[from] != c {
        lemma_index_of_from(s, c, from + 1);
    }
}

/// Computes [`link_at`]. The answers to the searches for the closing
/// bracket and the closing parenthesis are kept in `brackets` and `parens`.
pub fn find_link_at(s: &[char], i: usize, brackets: &mut Found, parens: &mut Found) -> (m: Option<
    LinkMatch,
>)
    requires
        i < s.len(),
        old(brackets).is_for(s@, ']'),
        old(parens).is_for(s@, ')'),
    ensures
        link_view(m) == link_at(s@, i as int),
        m matches Some(l) ==> span_in_bounds(l@, i as int, s.len() as int),
        final(brackets).is_for(s@, ']'),
        final(parens).is_for(s@, ')'),
{
    let p = scheme_length(s, i);
    if p > 0 && s.len() - i > p && !is_whitespace_char(s[i + p]) {
        let e = find_word_end(s, i + p);
        return Some(LinkMatch { end: e, url_from: i, url_to: e, text_from: i, text_to: e });
    }
    if s[i] == '[' {
        let j = find_char_again(s, ']', i + 1, brackets);
        if j > i + 1 && s.len() - j > 1 && s[j + 1] == '(' {
            let k = find_char_again(s, ')', j + 2, parens);
            if k > j + 2 && k < s.len() {
                return Some(
                    LinkMatch {
                        end: k + 1,
                        url_from: j + 2,
                        url_to: k,
                        text_from: i + 1,
                        text_to: j,
                    },
                );
            }
        }
    }
    None
}

/// Finds the first link at or after `from`: its start and its spans.
pub fn find_link(s: &[char], from: usize, brackets: &mut Found, parens: &mut Found) -> (m: Option<
    (usize, LinkMatch),
>)
    requires
        from <= s.len(),
        old(brackets).is_for(s@, ']'),
        old(parens).is_for(s@, ')'),
    ensures
        match m {
            Some((a, l)) => {
                &&& a == next_link(s@, from as int)
                &&& from <= a < s.len()
                &&& link_at(s@, a as int) == Some(l@)
                &&& span_in_bounds(l@, a as int, s.len() as int)
            },
            None => next_link(s@, from as int) == s.len(),
        },
        final(brackets).is_for(s@, ']'),
        final(parens).is_for(s@, ')'),
{
    let mut i: usize = from;
    while i < s.len()
        invariant
            from <= i <= s.len(),
            next_link(s@, from as int) == next_link(s@, i as int),
            brackets.is_for(s@, ']'),
            parens.is_for(s@, ')'),
        decreases s.len() - i,
    {
        match find_link_at(s, i, brackets, parens) {
            Some(l) => {
                return Some((i, l));
            },
            None => {},
        }
        i = i + 1;
    }
    None
}

/// Computes [`inline_code_from`].
pub fn find_inline_code(s: &[char], from: usize) -> (m: Option<(usize, usize)>)
    requires
        from <= s.len(),
    ensures
        span_view(m) == inline_code_from(s@, from as int),
        m matches Some((a, e)) ==> from <= a < e <= s.len(),
{
    let a = find_char(s, '`', from);
    let content = find_run_end(s, '`', a);
    let b = find_char(s, '`', content);
    if a < s.len() && content < s.len() && b < s.len() {
        let close = find_run_end(s, '`', b);
        let start = if content - a <= 3 {
            a
        } else {
            content - 3
        };
        let end = if close - b <= 3 {
            close
        } else {
            b + 3
        };
        proof {
            // the run that opens the span is not empty, nor is the one that closes it
            assert(content > a);
            assert(close > b);
        }
        Some((start, end))
    } else {
        None
    }
}

impl HybridWrapper {
    /// Third pass: splits `text` into inline code spans and the plain text
    /// around them.
    pub fn parse_inline_code(&self, text: &[char]) -> (out: Vec<TextSegment>)
        ensures
            segment_views(out@) == code_segments(text@),
    {
        let mut out: Vec<TextSegment> = Vec::new();
        let mut pos: usize = 0;
        let mut found = find_inline_code(text, pos);
        while found.is_some()
            invariant
                pos <= text.len(),
                span_view(found) == inline_code_from(text@, pos as int),
                found matches Some((a, e)) ==> pos <= a < e <= text.len(),
                segment_views(out@) + code_segments_from(text@, pos as int) == code_segments(
                    text@,
                ),
            decreases text.len() - pos,
        {
            let (a, e) = found.unwrap();
            let ghost before = segment_views(out@);
            if pos < a {
                let plain = TextSegment::PlainText(from_chars(sub_chars(text, pos, a).as_slice()));
                proof {
                    lemma_segment_views_push(out@, plain);
                }
                out.push(plain);
            }
            let code = TextSegment::InlineCode(from_chars(sub_chars(text, a, e).as_slice()));
            proof {
                lemma_segment_views_push(out@, code);
            }
            out.push(code);
            proof {
                assert(segment_views(out@) + code_segments_from(text@, e as int) =~= before
                    + code_segments_from(text@, pos as int));
            }
            pos = e;
            found = find_inline_code(text, pos);
        }
        if pos < text.len() {
            let ghost before = segment_views(out@);
            let plain = TextSegment::PlainText(
                from_chars(sub_chars(text, pos, text.len()).as_slice()),
            );
            proof {
                lemma_segment_views_push(out@, plain);
            }
            out.push(plain);
            proof {
                assert(segment_views(out@) =~= before + code_segments_from(text@, pos as int));
            }
        } else {
            proof {
                assert(segment_views(out@) =~= segment_views(out@) + code_segments_from(
                    text@,
                    pos as int,
                ));
            }
        }
        out
    }

    /// Second pass: splits `text` into links and what the third pass makes
    /// of the text around them.
    pub fn parse_links_and_code(&self, text: &[char]) -> (out: Vec<TextSegment>)
        ensures
            segment_views(out@) == link_segments(text@),
    {
        let mut out: Vec<TextSegment> = Vec::new();
        let mut pos: usize = 0;
        let mut brackets = Found::none(text.len());
        let mut parens = Found::none(text.len());
        let mut found = find_link(text, pos, &mut brackets, &mut parens);
        while found.is_some()
            invariant
                pos <= text.len(),
                brackets.is_for(text@, ']'),
                parens.is_for(text@, ')'),
                match found {
                    Some((a, l)) => {
                        &&& a == next_link(text@, pos as int)
                        &&& pos <= a < text.len()
                        &&& link_at(text@, a as int) == Some(l@)
                        &&& span_in_bounds(l@, a as int, text.len() as int)
                    },
                    None => next_link(text@, pos as int) == text.len(),
                },
                segment_views(out@) + link_segments_from(text@, pos as int) == link_segments(
                    text@,
                ),
            decreases text.len() - pos,
        {
            let (a, l) = found.unwrap();
            let ghost before = segment_views(out@);
            let mut inner = self.parse_inline_code(sub_chars(text, pos, a).as_slice());
            proof {
                lemma_segment_views_concat(out@, inner@);
            }
            out.append(&mut inner);
            let link = TextSegment::Link(
                from_chars(sub_chars(text, l.url_from, l.url_to).as_slice()),
                from_chars(sub_chars(text, l.text_from, l.text_to).as_slice()),
            );
            proof {
                lemma_segment_views_push(out@, link);
            }
            out.push(link);
            proof {
                assert(link@ == link_segment(text@, l@));
                assert(segment_views(out@) + link_segments_from(text@, l.end as int) =~= before
                    + link_segments_from(text@, pos as int));
            }
            pos = l.end;
            found = find_link(text, pos, &mut brackets, &mut parens);
        }
        let ghost before = segment_views(out@);
        let mut inner = self.parse_inline_code(sub_chars(text, pos, text.len()).as_slice());
        proof {
            lemma_segment_views_concat(out@, inner@);
        }
        out.append(&mut inner);
        proof {
            assert(segment_views(out@) =~= before + link_segments_from(text@, pos as int));
        }
        out
    }

    /// Splits `text` into its segments: fenced code blocks first, then links,
    /// then inline code, and plain text for what is left.
    pub fn parse_segments(&self, text: &[char]) -> (out: Vec<TextSegment>)
        ensures
            segment_views(out@) == segments(text@),
    {
        let mut out: Vec<TextSegment> = Vec::new();
        let mut pos: usize = 0;
        let mut found = find_code_block(text, pos);
        while found.is_some()
            invariant
                pos <= text.len(),
                span_view(found) == code_block_from(text@, pos as int),
                found matches Some((a, e)) ==> pos <= a && a + 6 <= e <= text.len(),
                segment_views(out@) + segments_from(text@, pos as int) == segments(text@),
            decreases text.len() - pos,
        {
            let (a, e) = found.unwrap();
            let ghost before = segment_views(out@);
            let mut inner = self.parse_links_and_code(sub_chars(text, pos, a).as_slice());
            proof {
                lemma_segment_views_concat(out@, inner@);
            }
            out.append(&mut inner);
            let block = TextSegment::CodeBlock(from_chars(sub_chars(text, a, e).as_slice()));
            proof {
                lemma_segment_views_push(out@, block);
            }
            out.push(block);
            proof {
                assert(segment_views(out@) + segments_from(text@, e as int) =~= before
                    + segments_from(text@, pos as int));
            }
            pos = e;
            found = find_code_block(text, pos);
        }
        let ghost before = segment_views(out@);
        let mut inner = self.parse_links_and_code(sub_chars(text, pos, text.len()).as_slice());
        proof {
            lemma_segment_views_concat(out@, inner@);
        }
        out.append(&mut inner);
        proof {
            assert(segment_views(out@) =~= before + segments_from(text@, pos as int));
        }
        out
    }
}

} // verus!
