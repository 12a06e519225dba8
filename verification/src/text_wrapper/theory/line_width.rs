//! Line widths of a text.
//!
//! Scanning a text from left to right, the column is the display width of
//! what stands on the current line so far. A text keeps within a width when
//! the column never exceeds it, except on a line that begins with a list
//! marker: there the packer may have put a word that does not fit, because
//! it never leaves the marker alone.

use crate::chars::is_whitespace;
use crate::split::{join, split_on, split_on_from};
use crate::width::{char_width, display_width, lemma_width_first, lemma_width_push};
use vstd::prelude::*;

verus! {

/// What a line begins with, as far as it has been read.
pub enum Lead {
    /// Nothing but whitespace so far.
    Blank,
    /// Whitespace, if any, and then a dash.
    Dash,
    /// A list marker: a dash with nothing but whitespace behind it.
    Marked,
    /// A list marker with an item behind it.
    Item,
    /// Anything else.
    Other,
}

impl Lead {
    /// Whether the line begins with a list marker.
    pub open spec fn is_marker(self) -> bool {
        self is Marked || self is Item
    }

    /// Whether the line holds a list marker and nothing else.
    pub open spec fn is_bare(self) -> bool {
        self is Dash || self is Marked
    }
}

/// What a line begins with after one more character.
pub open spec fn lead_after(lead: Lead, c: char) -> Lead {
    match lead {
        Lead::Blank => if is_whitespace(c) {
            Lead::Blank
        } else if c == '-' {
            Lead::Dash
        } else {
            Lead::Other
        },
        Lead::Dash => if is_whitespace(c) {
            Lead::Marked
        } else {
            Lead::Other
        },
        Lead::Marked => if is_whitespace(c) {
            Lead::Marked
        } else {
            Lead::Item
        },
        Lead::Item => Lead::Item,
        Lead::Other => Lead::Other,
    }
}

/// Whether the column stays within `max` while `s` is written from column
/// `col` on, on a line that began with `lead`. A line feed starts a new line
/// at column zero; any other character moves the column on by its width. On
/// a line that begins with a list marker the column may be anything.
pub open spec fn within(s: Seq<char>, col: nat, lead: Lead, max: nat) -> bool
    decreases s.len(),
{
    if s.len() == 0 {
        true
    } else if s[0] == '\n' {
        within(s.drop_first(), 0, Lead::Blank, max)
    } else {
        let next = lead_after(lead, s[0]);
        (col + char_width(s[0]) <= max || next.is_marker()) && within(
            s.drop_first(),
            col + char_width(s[0]),
            next,
            max,
        )
    }
}

/// The column after `s` is written from column `col` on.
pub open spec fn end_column(s: Seq<char>, col: nat) -> nat
    decreases s.len(),
{
    if s.len() == 0 {
        col
    } else if s[0] == '\n' {
        end_column(s.drop_first(), 0)
    } else {
        end_column(s.drop_first(), col + char_width(s[0]))
    }
}

/// What the last line begins with after `s` is written on a line that began
/// with `lead`.
pub open spec fn end_lead(s: Seq<char>, lead: Lead) -> Lead
    decreases s.len(),
{
    if s.len() == 0 {
        lead
    } else if s[0] == '\n' {
        end_lead(s.drop_first(), Lead::Blank)
    } else {
        end_lead(s.drop_first(), lead_after(lead, s[0]))
    }
}

/// Whether no line of `s` overruns `max` columns, but for lines that begin
/// with a list marker.
pub open spec fn lines_fit(s: Seq<char>, max: nat) -> bool {
    within(s, 0, Lead::Blank, max)
}

/// Whether a line begins with a list marker: after whitespace, if any, a
/// dash with whitespace behind it.
pub open spec fn is_marked(line: Seq<char>) -> bool {
    end_lead(line, Lead::Blank).is_marker()
}

/// Whether a line fits: it is no wider than `max` columns, or it begins
/// with a list marker.
pub open spec fn line_fits(line: Seq<char>, max: nat) -> bool {
    display_width(line) <= max || is_marked(line)
}

/// Whether each of the lines fits.
pub open spec fn all_fit(lines: Seq<Seq<char>>, max: nat) -> bool {
    forall|k: int| 0 <= k < lines.len() ==> line_fits(#[trigger] lines[k], max)
}

/// Whether none of the lines is wider than `max`.
pub open spec fn all_narrow(lines: Seq<Seq<char>>, max: nat) -> bool {
    forall|k: int| 0 <= k < lines.len() ==> display_width(#[trigger] lines[k]) <= max
}

/// Whether `s` consists of line feeds only.
pub open spec fn all_feeds(s: Seq<char>) -> bool {
    forall|i: int| 0 <= i < s.len() ==> #[trigger] s[i] == '\n'
}

/// A text that is narrow enough as a whole stays within the width.
pub proof fn lemma_narrow_within(s: Seq<char>, col: nat, lead: Lead, max: nat)
    requires
        col + display_width(s) <= max,
    ensures
        within(s, col, lead, max),
    decreases s.len(),
{
    if s.len() > 0 {
        lemma_width_first(s);
        if s[0] == '\n' {
            lemma_narrow_within(s.drop_first(), 0, Lead::Blank, max);
        } else {
            lemma_narrow_within(
                s.drop_first(),
                col + char_width(s[0]),
                lead_after(lead, s[0]),
                max,
            );
        }
    }
}

/// What stays within the width from the start of a line stays within it
/// behind a list marker, from any column.
pub proof fn lemma_within_behind_marker(
    s: Seq<char>,
    col: nat,
    lead: Lead,
    at: nat,
    marker: Lead,
    max: nat,
)
    requires
        within(s, col, lead, max),
        marker.is_marker(),
    ensures
        within(s, at, marker, max),
    decreases s.len(),
{
    if s.len() > 0 && s[0] != '\n' {
        lemma_within_behind_marker(
            s.drop_first(),
            col + char_width(s[0]),
            lead_after(lead, s[0]),
            at + char_width(s[0]),
            lead_after(marker, s[0]),
            max,
        );
    }
}

/// A concatenation stays within the width exactly when its first part does
/// and its second part does from where the first part ends.
pub proof fn lemma_within_concat(a: Seq<char>, b: Seq<char>, col: nat, lead: Lead, max: nat)
    ensures
        within(a + b, col, lead, max) == (within(a, col, lead, max) && within(
            b,
            end_column(a, col),
            end_lead(a, lead),
            max,
        )),
        end_column(a + b, col) == end_column(b, end_column(a, col)),
        end_lead(a + b, lead) == end_lead(b, end_lead(a, lead)),
    decreases a.len(),
{
    if a.len() == 0 {
        assert(a + b =~= b);
    } else {
        assert((a + b).drop_first() =~= a.drop_first() + b);
        assert((a + b)[0] == a[0]);
        if a[0] == '\n' {
            lemma_within_concat(a.drop_first(), b, 0, Lead::Blank, max);
        } else {
            lemma_within_concat(
                a.drop_first(),
                b,
                col + char_width(a[0]),
                lead_after(lead, a[0]),
                max,
            );
        }
    }
}

/// The column and the beginning of the line after one more character.
pub proof fn lemma_end_push(s: Seq<char>, c: char, col: nat, lead: Lead)
    ensures
        end_column(s.push(c), col) == (if c == '\n' {
            0
        } else {
            end_column(s, col) + char_width(c)
        }),
        end_lead(s.push(c), lead) == (if c == '\n' {
            Lead::Blank
        } else {
            lead_after(end_lead(s, lead), c)
        }),
{
    let one = seq![c];
    let rest = one.drop_first();
    lemma_within_concat(s, one, col, lead, 0);
    assert(s + one =~= s.push(c));
    assert(one[0] == c);
    assert(rest.len() == 0);
    assert(end_column(rest, 0) == 0);
    assert(end_column(rest, end_column(s, col) + char_width(c)) == end_column(s, col)
        + char_width(c));
    assert(end_lead(rest, Lead::Blank) == Lead::Blank);
    assert(end_lead(rest, lead_after(end_lead(s, lead), c)) == lead_after(end_lead(s, lead), c));
}

/// After a text that ends in a line feed a new line begins.
pub proof fn lemma_column_after_feed(s: Seq<char>, col: nat, lead: Lead)
    requires
        s.len() > 0,
        s.last() == '\n',
    ensures
        end_column(s, col) == 0,
        end_lead(s, lead) == Lead::Blank,
{
    assert(s.drop_last().push(s.last()) =~= s);
    lemma_end_push(s.drop_last(), s.last(), col, lead);
}

/// Line feeds stay within any width, from any column.
pub proof fn lemma_feeds_within(s: Seq<char>, col: nat, lead: Lead, max: nat)
    requires
        all_feeds(s),
    ensures
        within(s, col, lead, max),
    decreases s.len(),
{
    if s.len() > 0 {
        assert(s[0] == '\n');
        assert forall|i: int| 0 <= i < s.drop_first().len() implies #[trigger] s.drop_first()[i]
            == '\n' by {
            assert(s.drop_first()[i] == s[i + 1]);
        }
        lemma_feeds_within(s.drop_first(), 0, Lead::Blank, max);
    }
}

/// Parts whose lines fit still have lines that fit when they are joined by
/// line feeds.
pub proof fn lemma_join_within(parts: Seq<Seq<char>>, sep: Seq<char>, max: nat)
    requires
        forall|k: int| 0 <= k < parts.len() ==> lines_fit(#[trigger] parts[k], max),
        sep.len() > 0,
        all_feeds(sep),
    ensures
        lines_fit(join(parts, sep), max),
    decreases parts.len(),
{
    if parts.len() >= 2 {
        let init = join(parts.drop_last(), sep);
        assert forall|k: int| 0 <= k < parts.drop_last().len() implies lines_fit(
            #[trigger] parts.drop_last()[k],
            max,
        ) by {
            assert(parts.drop_last()[k] == parts[k]);
        }
        lemma_join_within(parts.drop_last(), sep, max);
        lemma_within_concat(init, sep, 0, Lead::Blank, max);
        lemma_feeds_within(sep, end_column(init, 0), end_lead(init, Lead::Blank), max);
        lemma_within_concat(init + sep, parts.last(), 0, Lead::Blank, max);
        assert((init + sep).last() == sep.last());
        lemma_column_after_feed(init + sep, 0, Lead::Blank);
    } else if parts.len() == 1 {
        assert(parts[0] == parts.last());
    }
}

/// When the rest of a text keeps within the width from a scanning position
/// on, and what the current line holds so far fits, then every line from
/// the current one on fits.
pub proof fn lemma_scan_lines(s: Seq<char>, start: int, i: int, max: nat)
    requires
        0 <= start <= i <= s.len(),
        line_fits(s.subrange(start, i), max),
        within(
            s.subrange(i, s.len() as int),
            display_width(s.subrange(start, i)),
            end_lead(s.subrange(start, i), Lead::Blank),
            max,
        ),
    ensures
        all_fit(split_on_from(s, '\n', start, i), max),
    decreases s.len() - i,
{
    let rest = s.subrange(i, s.len() as int);
    let pieces = split_on_from(s, '\n', start, i);
    if i >= s.len() {
        assert(s.subrange(start, i) =~= s.subrange(start, s.len() as int));
        assert(pieces[0] == s.subrange(start, s.len() as int));
    } else {
        assert(rest.drop_first() =~= s.subrange(i + 1, s.len() as int));
        assert(rest[0] == s[i]);
        if s[i] == '\n' {
            let tail = split_on_from(s, '\n', i + 1, i + 1);
            assert(s.subrange(i + 1, i + 1) =~= Seq::<char>::empty());
            assert(display_width(Seq::<char>::empty()) == 0);
            assert(end_lead(Seq::<char>::empty(), Lead::Blank) == Lead::Blank);
            lemma_scan_lines(s, i + 1, i + 1, max);
            assert(pieces =~= seq![s.subrange(start, i)] + tail);
            assert forall|k: int| 0 <= k < pieces.len() implies line_fits(
                #[trigger] pieces[k],
                max,
            ) by {
                if k > 0 {
                    assert(pieces[k] == tail[k - 1]);
                } else {
                    assert(pieces[0] == s.subrange(start, i));
                }
            }
        } else {
            assert(s.subrange(start, i + 1) =~= s.subrange(start, i).push(s[i]));
            lemma_width_push(s.subrange(start, i), s[i]);
            lemma_end_push(s.subrange(start, i), s[i], 0, Lead::Blank);
            lemma_scan_lines(s, start, i + 1, max);
        }
    }
}

/// When a text keeps within a width, each of its lines, taken between its
/// line feeds, is no wider or begins with a list marker.
pub proof fn lemma_lines_fit_by_line(s: Seq<char>, max: nat)
    requires
        lines_fit(s, max),
    ensures
        all_fit(split_on(s, '\n'), max),
{
    assert(s.subrange(0, 0) =~= Seq::<char>::empty());
    assert(display_width(Seq::<char>::empty()) == 0);
    assert(end_lead(Seq::<char>::empty(), Lead::Blank) == Lead::Blank);
    assert(s.subrange(0, s.len() as int) =~= s);
    lemma_scan_lines(s, 0, 0, max);
}

} // verus!
