//! Text that is short enough is left as it is: wrapping a plain text that
//! already fits on its line, with its words a single space apart, returns
//! the text unchanged.

use crate::chars::{is_whitespace, lemma_trim_tight, trim};
use crate::split::{is_solid, join, lemma_begun_piece, lemma_join_ends, lemma_join_push};
use crate::split::{lemma_join_split, lemma_join_split_blank, lemma_split_on_len};
use crate::split::{lemma_split_on_whole, lemma_words_are_solid, physical_lines, split_blank};
use crate::split::{split_on, split_whitespace};
use crate::text_wrapper::flow::{flow_text, initial_flow, is_list_item, pack_segments};
use crate::text_wrapper::flow::{place_segment, place_segments, render_segment};
use crate::text_wrapper::hybrid_wrapper::hybrid_wrap;
use crate::text_wrapper::pack::{all_lines, initial_state, LineState, pack_word, pack_words};
use crate::text_wrapper::pack::wrap_words;
use crate::text_wrapper::paragraph::{is_paragraph, paragraphs_among, wrap_each, wrap_line};
use crate::text_wrapper::paragraph::{wrap_lines, wrap_paragraph};
use crate::text_wrapper::segment::segments;
use crate::text_wrapper::theory::atomicity::{lemma_wrap_each_index, lemma_wrap_each_len};
use crate::text_wrapper::theory::atomicity::{lemma_wrap_lines_index, lemma_wrap_lines_len};
use crate::text_wrapper::theory::plain_text::{is_plain, lemma_plain_is_one_segment};
use crate::text_wrapper::types::WrapParams;
use crate::width::{display_width, lemma_width_concat, lemma_width_push};
use vstd::prelude::*;

verus! {

/// The single space that separates two words.
pub open spec fn space() -> Seq<char> {
    seq![' ']
}

/// A text with its whitespace put in order: its words, with a single space
/// between each two.
pub open spec fn normalized(text: Seq<char>) -> Seq<char> {
    join(split_whitespace(text), space())
}

/// Whether the whitespace of a text is in order: the text is its words with
/// a single space between each two, and nothing else.
pub open spec fn is_normalized(text: Seq<char>) -> bool {
    text == normalized(text)
}

/// The first words of a list, joined, are no wider than all of them joined.
pub proof fn lemma_joined_prefix_is_narrower(words: Seq<Seq<char>>, i: int)
    requires
        0 <= i <= words.len(),
    ensures
        display_width(join(words.take(i), space())) <= display_width(join(words, space())),
    decreases words.len() - i,
{
    if i == words.len() {
        assert(words.take(i) =~= words);
    } else {
        lemma_joined_prefix_is_narrower(words, i + 1);
        assert(words.take(i + 1) =~= words.take(i).push(words[i]));
        lemma_join_push(words.take(i), words[i], space());
        if i > 0 {
            lemma_width_concat(join(words.take(i), space()) + space(), words[i]);
            lemma_width_concat(join(words.take(i), space()), space());
        } else {
            assert(join(words.take(0), space()) =~= Seq::<char>::empty());
            assert(display_width(Seq::<char>::empty()) == 0);
        }
    }
}

/// Words joined are at least as long as the first of them.
pub proof fn lemma_first_word_is_in(words: Seq<Seq<char>>, i: int)
    requires
        0 < i <= words.len(),
    ensures
        join(words.take(i), space()).len() >= words[0].len(),
    decreases i,
{
    if i == 1 {
        assert(words.take(1)[0] == words[0]);
    } else {
        lemma_first_word_is_in(words, i - 1);
        assert(words.take(i).drop_last() =~= words.take(i - 1));
    }
}

/// Reflowing a text whose words fit on one line behind the indent puts
/// them on one line, a single space apart.
pub proof fn short_text_is_normalized_by_reflow(text: Seq<char>, p: WrapParams)
    requires
        p.preserve_words,
        display_width(p.indent) + display_width(normalized(text)) <= p.max_width,
    ensures
        wrap_words(text, p) == normalized(text),
{
    let words = split_whitespace(text);
    let start = initial_state(p);
    lemma_words_are_solid(text, 0, 0);
    assert(words.take(0) =~= Seq::<Seq<char>>::empty());
    assert(display_width(Seq::<char>::empty()) == 0);
    if words.len() > 0 {
        assert(is_solid(words[0]));
        lemma_pack_short_pieces(start, words, 0, p);
        lemma_first_word_is_in(words, words.len() as int);
        assert(words.take(words.len() as int) =~= words);
        let end = pack_words(start, words, 0, p);
        assert(end.lines =~= Seq::<Seq<char>>::empty());
        assert(all_lines(end) =~= seq![normalized(text)]);
        assert(all_lines(end)[0] == normalized(text));
    } else {
        assert(all_lines(start) =~= Seq::<Seq<char>>::empty());
        assert(normalized(text) =~= Seq::<char>::empty());
    }
}

/// Packing the one segment of a short plain text gives the text behind the
/// indent: as it stands when its whitespace is in order or plain text is
/// not reflowed, and with its whitespace put in order otherwise.
pub proof fn lemma_short_unit(text: Seq<char>, p: WrapParams)
    requires
        p.preserve_words,
        is_plain(text),
        text.len() > 0,
        display_width(p.indent) + display_width(
            if p.handle_code_blocks {
                normalized(text)
            } else {
                text
            },
        ) <= p.max_width,
    ensures
        pack_segments(segments(text), p) == p.indent + (if p.handle_code_blocks {
            normalized(text)
        } else {
            text
        }),
{
    lemma_plain_is_one_segment(text);
    if p.handle_code_blocks {
        short_text_is_normalized_by_reflow(text, p);
    }
    let segs = segments(text);
    let rendered = render_segment(segs[0], p);
    let start = initial_flow(p);
    let next = place_segment(start, rendered, is_list_item(segs), p);
    assert(place_segments(start, segs, 0, is_list_item(segs), p) == place_segments(
        next,
        segs,
        1,
        is_list_item(segs),
        p,
    ));
    assert(flow_text(next) =~= p.indent + rendered);
}

/// Wrapping leaves short text alone: a plain text whose whitespace is in
/// order and which fits on the line behind the indent comes back unchanged
/// behind that indent; with no indent, it comes back as it is.
pub proof fn short_text_is_unchanged(text: Seq<char>, p: WrapParams)
    requires
        !p.preserve_paragraphs,
        p.preserve_words,
        is_plain(text),
        is_normalized(text),
        text.len() > 0,
        display_width(p.indent) + display_width(text) <= p.max_width,
    ensures
        hybrid_wrap(text, p) == p.indent + text,
{
    lemma_short_unit(text, p);
}

/// Wrapping changes nothing but the whitespace of short text: a plain text
/// whose words fit on one line behind the indent comes back as those words,
/// a single space apart, behind that indent.
pub proof fn short_text_is_normalized(text: Seq<char>, p: WrapParams)
    requires
        !p.preserve_paragraphs,
        p.preserve_words,
        p.handle_code_blocks,
        is_plain(text),
        text.len() > 0,
        display_width(p.indent) + display_width(normalized(text)) <= p.max_width,
    ensures
        hybrid_wrap(text, p) == p.indent + normalized(text),
{
    lemma_short_unit(text, p);
}

/// Pieces that fit on one line together, the first of them not empty, are
/// packed onto one line, a single space apart.
pub proof fn lemma_pack_short_pieces(st: LineState, words: Seq<Seq<char>>, i: int, p: WrapParams)
    requires
        0 <= i <= words.len(),
        words.len() >= 1,
        words[0].len() > 0,
        display_width(p.indent) + display_width(join(words, space())) <= p.max_width,
        st.lines.len() == 0,
        st.cur == join(words.take(i), space()),
        st.width == display_width(p.indent) + display_width(st.cur),
    ensures
        pack_words(st, words, i, p).lines.len() == 0,
        pack_words(st, words, i, p).cur == join(words, space()),
    decreases words.len() - i,
{
    if i == words.len() {
        assert(words.take(i) =~= words);
    } else {
        let word = words[i];
        assert(words.take(i + 1) =~= words.take(i).push(word));
        lemma_join_push(words.take(i), word, space());
        lemma_joined_prefix_is_narrower(words, i + 1);
        if i > 0 {
            lemma_first_word_is_in(words, i);
            lemma_width_push(st.cur, ' ');
            lemma_width_concat(st.cur.push(' '), word);
            assert(st.cur + space() =~= st.cur.push(' '));
        } else {
            assert(st.cur =~= Seq::<char>::empty());
            lemma_width_concat(st.cur, word);
            assert(st.cur + word =~= word);
        }
        let next = pack_word(st, word, p);
        assert(next.cur == join(words.take(i + 1), space()));
        lemma_pack_short_pieces(next, words, i + 1, p);
    }
}

/// When words are not preserved, wrapping leaves short text alone: a plain
/// text that fits on the line behind the indent, and does not begin with a
/// space, comes back unchanged behind that indent, whitespace and all.
pub proof fn short_text_is_unchanged_when_words_are_split(text: Seq<char>, p: WrapParams)
    requires
        !p.preserve_paragraphs,
        !p.preserve_words,
        is_plain(text),
        text.len() > 0,
        text[0] != ' ',
        display_width(p.indent) + display_width(text) <= p.max_width,
    ensures
        hybrid_wrap(text, p) == p.indent + text,
{
    lemma_plain_is_one_segment(text);
    let segs = segments(text);
    let rendered = render_segment(segs[0], p);
    if p.handle_code_blocks {
        let words = split_on(text, ' ');
        let start = initial_state(p);
        lemma_begun_piece(text, ' ', 0, 1);
        lemma_join_split(text, ' ');
        assert(words.take(0) =~= Seq::<Seq<char>>::empty());
        assert(display_width(Seq::<char>::empty()) == 0);
        assert(space() == seq![' ']);
        lemma_pack_short_pieces(start, words, 0, p);
        let end = pack_words(start, words, 0, p);
        assert(end.lines =~= Seq::<Seq<char>>::empty());
        assert(all_lines(end) =~= seq![text]);
        assert(all_lines(end)[0] == text);
        assert(rendered == text);
    }
    let start = initial_flow(p);
    let next = place_segment(start, rendered, is_list_item(segs), p);
    assert(place_segments(start, segs, 0, is_list_item(segs), p) == place_segments(
        next,
        segs,
        1,
        is_list_item(segs),
        p,
    ));
    assert(flow_text(next) =~= p.indent + rendered);
}

/// A text that is not empty and whose whitespace is in order begins and
/// ends with a character that is not whitespace.
pub proof fn lemma_normalized_is_tight(line: Seq<char>)
    requires
        is_normalized(line),
        line.len() > 0,
    ensures
        !is_whitespace(line.first()),
        !is_whitespace(line.last()),
        trim(line) == line,
{
    let words = split_whitespace(line);
    lemma_words_are_solid(line, 0, 0);
    if words.len() == 0 {
        assert(join(words, space()) =~= Seq::<char>::empty());
    }
    assert(is_solid(words.first()));
    assert(is_solid(words.last()));
    lemma_join_ends(words, space());
    lemma_trim_tight(line);
}

/// Whether a line is tidy: not empty, plain, with its whitespace in order,
/// and no wider than the configured width.
pub open spec fn is_tidy_line(line: Seq<char>, p: WrapParams) -> bool {
    &&& line.len() > 0
    &&& is_plain(line)
    &&& is_normalized(line)
    &&& display_width(line) <= p.max_width
}

/// Whether a text is tidy: every line of every piece between its blank-line
/// separators is tidy. Such a text has exactly one blank line between each
/// two paragraphs and no whitespace at the ends of its lines.
pub open spec fn is_tidy(text: Seq<char>, p: WrapParams) -> bool {
    forall|k: int, l: int|
        0 <= k < split_blank(text).len() && 0 <= l < split_on(split_blank(text)[k], '\n').len()
            ==> is_tidy_line(#[trigger] split_on(split_blank(text)[k], '\n')[l], p)
}

/// When every piece holds more than whitespace, every piece is a paragraph.
pub proof fn lemma_all_are_paragraphs(pieces: Seq<Seq<char>>)
    requires
        forall|k: int| 0 <= k < pieces.len() ==> is_paragraph(#[trigger] pieces[k]),
    ensures
        paragraphs_among(pieces) == pieces,
    decreases pieces.len(),
{
    if pieces.len() > 0 {
        assert(is_paragraph(pieces.last()));
        assert forall|k: int| 0 <= k < pieces.drop_last().len() implies is_paragraph(
            #[trigger] pieces.drop_last()[k],
        ) by {
            assert(pieces.drop_last()[k] == pieces[k]);
        }
        lemma_all_are_paragraphs(pieces.drop_last());
        assert(pieces.drop_last().push(pieces.last()) =~= pieces);
    } else {
        assert(paragraphs_among(pieces) =~= pieces);
    }
}

/// A piece of tidy lines is a paragraph that wrapping leaves as it is.
pub proof fn lemma_tidy_piece(piece: Seq<char>, p: WrapParams)
    requires
        p.preserve_words,
        p.indent.len() == 0,
        forall|l: int|
            0 <= l < split_on(piece, '\n').len() ==> is_tidy_line(
                #[trigger] split_on(piece, '\n')[l],
                p,
            ),
    ensures
        is_paragraph(piece),
        wrap_paragraph(piece, p, true) == piece,
{
    let lines = split_on(piece, '\n');
    lemma_split_on_len(piece, '\n', 0, 0);
    lemma_join_split(piece, '\n');
    assert(is_tidy_line(lines.first(), p));
    assert(is_tidy_line(lines.last(), p));
    lemma_normalized_is_tight(lines.first());
    lemma_normalized_is_tight(lines.last());
    lemma_join_ends(lines, seq!['\n']);
    lemma_trim_tight(piece);
    assert(p.indent =~= Seq::<char>::empty());
    assert(display_width(Seq::<char>::empty()) == 0);
    assert forall|l: int| 0 <= l < lines.len() implies wrap_line(#[trigger] lines[l], p, true)
        == lines[l] by {
        assert(is_tidy_line(lines[l], p));
        lemma_normalized_is_tight(lines[l]);
        lemma_short_unit(lines[l], p);
        assert(p.indent + lines[l] =~= lines[l]);
    }
    if piece.contains('\n') {
        assert(physical_lines(piece) == lines);
        lemma_wrap_lines_len(lines, p, true);
        assert forall|l: int| 0 <= l < lines.len() implies wrap_lines(lines, p, true)[l]
            == lines[l] by {
            lemma_wrap_lines_index(lines, p, true, l);
        }
        assert(wrap_lines(lines, p, true) =~= lines);
    } else {
        lemma_split_on_whole(piece, '\n');
        assert(lines[0] == piece);
        assert(wrap_line(piece, p, true) == piece);
    }
}

/// With paragraph handling, wrapping leaves tidy text alone: a plain text
/// in which every line fits and has its whitespace in order, and in which
/// exactly one blank line separates each two paragraphs, comes back
/// unchanged.
pub proof fn tidy_text_is_unchanged(text: Seq<char>, p: WrapParams)
    requires
        p.preserve_paragraphs,
        p.preserve_words,
        p.indent.len() == 0,
        is_tidy(text, p),
    ensures
        hybrid_wrap(text, p) == text,
{
    if text.len() > 0 {
        let pieces = split_blank(text);
        assert forall|k: int| 0 <= k < pieces.len() implies is_paragraph(#[trigger] pieces[k])
            && wrap_paragraph(pieces[k], p, true) == pieces[k] by {
            lemma_tidy_piece(pieces[k], p);
        }
        lemma_all_are_paragraphs(pieces);
        lemma_wrap_each_len(pieces, p, true);
        assert forall|k: int| 0 <= k < pieces.len() implies wrap_each(pieces, p, true)[k]
            == pieces[k] by {
            lemma_wrap_each_index(pieces, p, true, k);
        }
        assert(wrap_each(pieces, p, true) =~= pieces);
        lemma_join_split_blank(text);
    } else {
        assert(text =~= Seq::<char>::empty());
    }
}

} // verus!
