//! Word packing: greedy filling of lines with the words of a plain text,
//! and the breaking of words that are wider than a line.

use crate::chars::{first_non_whitespace, last_non_whitespace_end, lemma_skip_whitespace};
use crate::chars::{lemma_skip_whitespace_back, push_all, to_chars, trim};
use crate::split::{join, join_chars, lemma_deep_view_push, split_on, split_on_char};
use crate::split::{split_whitespace, split_whitespace_chars};
use crate::text_wrapper::hybrid_wrapper::HybridWrapper;
use crate::text_wrapper::types::{WrapConfig, WrapParams};
use crate::width::{char_display_width, char_width, display_width, lemma_buffer_width};
use crate::width::{lemma_stored_width, lemma_width_concat, lemma_width_first, lemma_width_push};
use crate::width::{lemma_width_single, str_display_width};
use vstd::prelude::*;
use vstd::slice::slice_subrange;

verus! {

/// The lines finished so far, the line being filled, and the column count
/// that the packer keeps for it.
pub struct LineState {
    pub lines: Seq<Seq<char>>,
    pub cur: Seq<char>,
    pub width: nat,
}

/// The list marker: a single dash.
pub open spec fn list_marker() -> Seq<char> {
    seq!['-']
}

/// Whether a line holds a list marker and nothing else but whitespace.
pub open spec fn is_marker_only(line: Seq<char>) -> bool {
    trim(line) == list_marker()
}

/// Whether a line ends in a space.
pub open spec fn ends_with_space(line: Seq<char>) -> bool {
    line.len() > 0 && line.last() == ' '
}

/// The line, with a space added unless it ends in one.
pub open spec fn with_space(line: Seq<char>) -> Seq<char> {
    if ends_with_space(line) {
        line
    } else {
        line.push(' ')
    }
}

/// The line, with a space added unless it is empty or ends in one.
pub open spec fn with_separator(line: Seq<char>) -> Seq<char> {
    if line.len() == 0 {
        line
    } else {
        with_space(line)
    }
}

/// The words of a plain text: its runs of non-whitespace characters, or,
/// when words are not preserved, its pieces between single spaces.
pub open spec fn words_of(text: Seq<char>, p: WrapParams) -> Seq<Seq<char>> {
    if p.preserve_words {
        split_whitespace(text)
    } else {
        split_on(text, ' ')
    }
}

/// The index up to which `word[i..]` fits into `budget` columns: the end of
/// its longest prefix that is not wider than `budget`.
pub open spec fn fit_count(word: Seq<char>, i: int, budget: int) -> int
    decreases word.len() - i,
{
    if i >= word.len() {
        word.len() as int
    } else if char_width(word[i]) > budget {
        i
    } else {
        fit_count(word, i + 1, budget - char_width(word[i]))
    }
}

/// Where the part of a word that fits ends: not before its start, with
/// nothing wider than the budget before it, and past the first character
/// when that one fits.
pub proof fn lemma_fit_count(word: Seq<char>, i: int, budget: int)
    requires
        0 <= i <= word.len(),
        0 <= budget,
    ensures
        i <= fit_count(word, i, budget) <= word.len(),
        display_width(word.subrange(i, fit_count(word, i, budget))) <= budget,
        i < word.len() && char_width(word[i]) <= budget ==> fit_count(word, i, budget) > i,
        fit_count(word, i, budget) < word.len() ==> display_width(
            word.subrange(i, fit_count(word, i, budget) + 1),
        ) > budget,
    decreases word.len() - i,
{
    let end = fit_count(word, i, budget);
    if i >= word.len() {
        assert(word.subrange(i, end) =~= Seq::<char>::empty());
    } else if char_width(word[i]) > budget {
        assert(word.subrange(i, i) =~= Seq::<char>::empty());
        assert(word.subrange(i, i + 1) =~= seq![word[i]]);
        lemma_width_single(word[i]);
    } else {
        lemma_fit_count(word, i + 1, budget - char_width(word[i]));
        lemma_width_first(word.subrange(i, end));
        assert(word.subrange(i, end).drop_first() =~= word.subrange(i + 1, end));
        if end < word.len() {
            lemma_width_first(word.subrange(i, end + 1));
            assert(word.subrange(i, end + 1).drop_first() =~= word.subrange(i + 1, end + 1));
        }
    }
}

/// The columns left on the line being filled; none when it is already full
/// or over-full.
pub open spec fn available(st: LineState, p: WrapParams) -> int {
    if p.max_width >= st.width {
        p.max_width - st.width
    } else {
        0
    }
}

/// Where the next chunk of a word under breaking ends. The chunk is what
/// fits into the columns that are left; on a continuation line it holds at
/// least one character, so that every line but the first takes up some of
/// the word.
pub open spec fn chunk_end(st: LineState, word: Seq<char>, i: int, first: bool, p: WrapParams) -> int {
    let fit = fit_count(word, i, available(st, p));
    if fit == i && !first {
        i + 1
    } else {
        fit
    }
}

/// Places `word[i..]`, a word wider than a line, chunk by chunk: the first
/// chunk on the line being filled, each later one on a continuation line
/// that starts with the hanging indent.
pub open spec fn break_word(st: LineState, word: Seq<char>, i: int, first: bool, p: WrapParams) -> LineState
    decreases word.len() - i, (if first { 1int } else { 0int }),
{
    if i < 0 || i >= word.len() {
        st
    } else {
        let j = chunk_end(st, word, i, first, p);
        let line = with_separator(st.cur) + word.subrange(i, j);
        if i <= j < word.len() && (j > i || first) {
            break_word(
                LineState {
                    lines: st.lines.push(line),
                    cur: p.hanging_indent,
                    width: display_width(p.hanging_indent),
                },
                word,
                j,
                false,
                p,
            )
        } else {
            LineState { lines: st.lines, cur: line, width: display_width(line) }
        }
    }
}

/// The state after one more word.
///
/// A word that fits is appended after a space. A word wider than a whole
/// line is broken when breaking is allowed. Any other word starts a new line
/// behind the hanging indent. A line that holds only the list marker is
/// never left alone: the word goes onto that line, whatever its width.
pub open spec fn pack_word(st: LineState, word: Seq<char>, p: WrapParams) -> LineState {
    let w = display_width(word);
    let sep: nat = if st.cur.len() == 0 {
        0
    } else {
        1
    };
    if st.width + sep + w <= p.max_width {
        LineState {
            lines: st.lines,
            cur: (if st.cur.len() == 0 {
                st.cur
            } else {
                st.cur.push(' ')
            }) + word,
            width: st.width + sep + w,
        }
    } else if p.break_long_words && w > p.max_width {
        if is_marker_only(st.cur) {
            if ends_with_space(st.cur) {
                break_word(st, word, 0, true, p)
            } else {
                break_word(
                    LineState { lines: st.lines, cur: st.cur.push(' '), width: st.width + 1 },
                    word,
                    0,
                    true,
                    p,
                )
            }
        } else if st.cur.len() > 0 {
            break_word(
                LineState {
                    lines: st.lines.push(st.cur),
                    cur: Seq::empty(),
                    width: display_width(p.indent),
                },
                word,
                0,
                true,
                p,
            )
        } else {
            break_word(st, word, 0, true, p)
        }
    } else if is_marker_only(st.cur) {
        let line = with_space(st.cur) + word;
        LineState { lines: st.lines, cur: line, width: display_width(line) }
    } else {
        let line = p.hanging_indent + word;
        LineState {
            lines: if st.cur.len() > 0 {
                st.lines.push(st.cur)
            } else {
                st.lines
            },
            cur: line,
            width: display_width(line),
        }
    }
}

/// The state after the words from index `i` on.
pub open spec fn pack_words(st: LineState, words: Seq<Seq<char>>, i: int, p: WrapParams) -> LineState
    decreases words.len() - i,
{
    if i < 0 || i >= words.len() {
        st
    } else {
        pack_words(pack_word(st, words[i], p), words, i + 1, p)
    }
}

/// The state before the first word: no line yet, and the first-line indent
/// counted as already used.
pub open spec fn initial_state(p: WrapParams) -> LineState {
    LineState { lines: Seq::empty(), cur: Seq::empty(), width: display_width(p.indent) }
}

/// All lines of a state: the finished ones, then the one being filled
/// unless it is empty.
pub open spec fn all_lines(st: LineState) -> Seq<Seq<char>> {
    if st.cur.len() > 0 {
        st.lines.push(st.cur)
    } else {
        st.lines
    }
}

/// The lines that packing the words of `text` gives.
pub open spec fn packed_lines(text: Seq<char>, p: WrapParams) -> Seq<Seq<char>> {
    all_lines(pack_words(initial_state(p), words_of(text, p), 0, p))
}

/// A plain text reflowed: its packed lines, joined by line feeds.
pub open spec fn wrap_words(text: Seq<char>, p: WrapParams) -> Seq<char> {
    join(packed_lines(text, p), seq!['\n'])
}

/// The packer's working state.
pub struct LinePacker {
    pub lines: Vec<Vec<char>>,
    pub cur: Vec<char>,
    pub width: u128,
}

impl View for LinePacker {
    type V = LineState;

    open spec fn view(&self) -> LineState {
        LineState { lines: self.lines.deep_view(), cur: self.cur@, width: self.width as nat }
    }
}

/// The column count never runs ahead of the line by more than the indent.
pub open spec fn width_in_range(st: LineState, indent: Seq<char>) -> bool {
    st.width <= display_width(indent) + display_width(st.cur)
}

/// Decides [`is_marker_only`].
pub fn marker_only(line: &[char]) -> (b: bool)
    ensures
        b == is_marker_only(line@),
{
    let a = first_non_whitespace(line);
    if a >= line.len() {
        proof {
            assert(trim(line@).len() == 0);
            assert(list_marker().len() == 1);
        }
        return false;
    }
    let e = last_non_whitespace_end(line);
    proof {
        lemma_skip_whitespace(line@, 0);
        lemma_skip_whitespace_back(line@, line.len() as int);
        if e <= a {
            assert(is_whitespace_at(line@, a as int));
        }
        assert(trim(line@) == line@.subrange(a as int, e as int));
        assert(list_marker().len() == 1 && list_marker()[0] == '-');
        if e - a == 1 && line@[a as int] == '-' {
            assert(trim(line@) =~= list_marker());
        } else if e - a == 1 {
            assert(trim(line@)[0] == line@[a as int]);
        }
    }
    e - a == 1 && line[a] == '-'
}

/// Whether the character at index `i` is whitespace.
pub open spec fn is_whitespace_at(s: Seq<char>, i: int) -> bool {
    crate::chars::is_whitespace(s[i])
}

/// Computes [`fit_count`].
pub fn fit_index(word: &[char], from: usize, budget: u128) -> (at: usize)
    requires
        from <= word.len(),
    ensures
        at == fit_count(word@, from as int, budget as int),
        from <= at <= word.len(),
{
    let mut i: usize = from;
    let mut left: u128 = budget;
    while i < word.len() && char_display_width(word[i]) <= left
        invariant
            from <= i <= word.len(),
            fit_count(word@, from as int, budget as int) == fit_count(word@, i as int, left as int),
        decreases word.len() - i,
    {
        left = left - char_display_width(word[i]);
        i = i + 1;
    }
    i
}

impl HybridWrapper {
    /// Splits `word` where it stops fitting into `max_width` columns: the
    /// longest prefix that is not wider, and the rest.
    pub fn break_word_at_width<'a>(&self, word: &'a [char], max_width: usize) -> (parts: (
        &'a [char],
        &'a [char],
    ))
        ensures
            parts.0@ == word@.subrange(0, fit_count(word@, 0, max_width as int)),
            parts.1@ == word@.subrange(fit_count(word@, 0, max_width as int), word@.len() as int),
    {
        let at = fit_index(word, 0, max_width as u128);
        (slice_subrange(word, 0, at), slice_subrange(word, at, word.len()))
    }

    /// Places a word that is wider than a line, chunk by chunk.
    fn place_chunks(&self, st: &mut LinePacker, word: &[char], config: &WrapConfig, hanging: &[char])
        requires
            hanging@ == config.hanging_indent@,
        ensures
            final(st)@ == break_word(old(st)@, word@, 0, true, config@),
            final(st).width == display_width(final(st).cur@) || *final(st) == *old(st),
    {
        let mut i: usize = 0;
        let mut first = true;
        while i < word.len()
            invariant
                i <= word.len(),
                hanging@ == config.hanging_indent@,
                break_word(st@, word@, i as int, first, config@) == break_word(
                    old(st)@,
                    word@,
                    0,
                    true,
                    config@,
                ),
                st.width == display_width(st.cur@) || (*st == *old(st) && i == 0),
            decreases word.len() - i, (if first { 1int } else { 0int }),
        {
            let ghost st0 = st@;
            let limit = config.max_width as u128;
            let room: u128 = if limit >= st.width {
                limit - st.width
            } else {
                0
            };
            let fit = fit_index(word, i, room);
            let j = if fit == i && !first {
                i + 1
            } else {
                fit
            };
            let n = st.cur.len();
            if n > 0 && st.cur[n - 1] != ' ' {
                st.cur.push(' ');
            }
            push_all(&mut st.cur, slice_subrange(word, i, j));
            proof {
                assert(room as int == available(st0, config@));
                assert(j as int == chunk_end(st0, word@, i as int, first, config@));
                assert(st.cur@ == with_separator(st0.cur) + word@.subrange(i as int, j as int));
            }
            if j < word.len() {
                let mut line: Vec<char> = Vec::new();
                push_all(&mut line, hanging);
                let ghost finished = st.cur;
                let ghost lines_before = st.lines;
                std::mem::swap(&mut st.cur, &mut line);
                proof {
                    lemma_deep_view_push(lines_before, line);
                }
                st.lines.push(line);
                st.width = str_display_width(hanging);
                proof {
                    assert(st.cur@ == config@.hanging_indent);
                    assert(st@.lines == st0.lines.push(finished@));
                }
                i = j;
                first = false;
            } else {
                st.width = str_display_width(st.cur.as_slice());
                i = j;
                first = false;
            }
        }
    }

    /// Places one word.
    fn place_word(
        &self,
        st: &mut LinePacker,
        word: &[char],
        config: &WrapConfig,
        indent: &[char],
        hanging: &[char],
    )
        requires
            indent@ == config.indent@,
            hanging@ == config.hanging_indent@,
            width_in_range(old(st)@, indent@),
        ensures
            final(st)@ == pack_word(old(st)@, word@, config@),
            width_in_range(final(st)@, indent@),
    {
        proof {
            lemma_stored_width(indent);
            lemma_buffer_width(&st.cur);
            lemma_stored_width(word);
        }
        let w = str_display_width(word);
        let limit = config.max_width as u128;
        let sep: u128 = if st.cur.len() == 0 {
            0
        } else {
            1
        };
        let ghost st0 = st@;
        if st.width + sep + w <= limit {
            if st.cur.len() > 0 {
                st.cur.push(' ');
            }
            push_all(&mut st.cur, word);
            st.width = st.width + sep + w;
            proof {
                if st0.cur.len() > 0 {
                    lemma_width_push(st0.cur, ' ');
                    lemma_width_concat(st0.cur.push(' '), word@);
                } else {
                    lemma_width_concat(st0.cur, word@);
                }
                assert(st@ == pack_word(st0, word@, config@));
            }
        } else if config.break_long_words && w > limit {
            let marker = marker_only(st.cur.as_slice());
            if marker {
                let n = st.cur.len();
                if n == 0 || st.cur[n - 1] != ' ' {
                    st.cur.push(' ');
                    st.width = st.width + 1;
                }
            } else if st.cur.len() > 0 {
                let mut line: Vec<char> = Vec::new();
                let ghost lines_before = st.lines;
                std::mem::swap(&mut st.cur, &mut line);
                proof {
                    lemma_deep_view_push(lines_before, line);
                }
                st.lines.push(line);
                st.width = str_display_width(indent);
                proof {
                    assert(st@.lines == st0.lines.push(st0.cur));
                    assert(st@.cur =~= Seq::<char>::empty());
                }
            }
            let ghost st1 = st@;
            self.place_chunks(st, word, config, hanging);
            proof {
                assert(st@ == break_word(st1, word@, 0, true, config@));
                assert(st@ == pack_word(st0, word@, config@));
                if st@ == st1 {
                    lemma_width_push(st0.cur, ' ');
                }
            }
        } else if marker_only(st.cur.as_slice()) {
            let n = st.cur.len();
            if n == 0 || st.cur[n - 1] != ' ' {
                st.cur.push(' ');
            }
            push_all(&mut st.cur, word);
            st.width = str_display_width(st.cur.as_slice());
            proof {
                assert(st@ == pack_word(st0, word@, config@));
            }
        } else {
            let mut line: Vec<char> = Vec::new();
            push_all(&mut line, hanging);
            push_all(&mut line, word);
            let ghost lines_before = st.lines;
            std::mem::swap(&mut st.cur, &mut line);
            if line.len() > 0 {
                proof {
                    lemma_deep_view_push(lines_before, line);
                }
                st.lines.push(line);
                proof {
                    assert(st@.lines == st0.lines.push(st0.cur));
                }
            }
            st.width = str_display_width(st.cur.as_slice());
            proof {
                assert(st@.cur =~= config@.hanging_indent + word@);
                assert(st@ == pack_word(st0, word@, config@));
            }
        }
    }

    /// Reflows a plain text: packs its words greedily into lines of at most
    /// `max_width` columns and joins the lines with line feeds.
    pub fn wrap_without_paragraphs(&self, text: &[char], config: &WrapConfig) -> (out: Vec<char>)
        ensures
            out@ == wrap_words(text@, config@),
    {
        let words = if config.preserve_words {
            split_whitespace_chars(text)
        } else {
            split_on_char(text, ' ')
        };
        let indent = to_chars(config.indent.as_str());
        let hanging = to_chars(config.hanging_indent.as_str());
        let mut st = LinePacker {
            lines: Vec::new(),
            cur: Vec::new(),
            width: str_display_width(indent.as_slice()),
        };
        proof {
            assert(st@.lines =~= Seq::<Seq<char>>::empty());
            assert(st@ == initial_state(config@));
        }
        let mut i: usize = 0;
        while i < words.len()
            invariant
                i <= words.len(),
                indent@ == config.indent@,
                hanging@ == config.hanging_indent@,
                words.deep_view() == words_of(text@, config@),
                width_in_range(st@, indent@),
                pack_words(st@, words.deep_view(), i as int, config@) == pack_words(
                    initial_state(config@),
                    words.deep_view(),
                    0,
                    config@,
                ),
            decreases words.len() - i,
        {
            proof {
                assert(words.deep_view()[i as int] == words@[i as int]@);
            }
            self.place_word(&mut st, words[i].as_slice(), config, indent.as_slice(), hanging.as_slice());
            i = i + 1;
        }
        let ghost last = st@;
        proof {
            assert(pack_words(last, words.deep_view(), i as int, config@) == last);
        }
        if st.cur.len() > 0 {
            let mut line: Vec<char> = Vec::new();
            let ghost lines_before = st.lines;
            std::mem::swap(&mut st.cur, &mut line);
            proof {
                lemma_deep_view_push(lines_before, line);
            }
            st.lines.push(line);
        }
        proof {
            assert(st.lines.deep_view() == all_lines(last));
        }
        let mut feed: Vec<char> = Vec::new();
        feed.push('\n');
        proof {
            assert(feed@ =~= seq!['\n']);
        }
        join_chars(&st.lines, feed.as_slice())
    }
}

} // verus!
