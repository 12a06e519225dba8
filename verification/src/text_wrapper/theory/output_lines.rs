//! The lines of a text, and how the lines of a joined text come from the
//! lines of its parts.

use crate::chars::trim;
use crate::split::{join, lemma_split_on_concat, split_on};
use crate::text_wrapper::paragraph::paragraph_break;
use vstd::prelude::*;

verus! {

/// The line feed that separates two lines.
pub open spec fn feed() -> Seq<char> {
    seq!['\n']
}

/// The lines of a text: what stands between its line feeds.
pub open spec fn lines_of(s: Seq<char>) -> Seq<Seq<char>> {
    split_on(s, '\n')
}

/// Whether every line of a text is of the kind `fine`.
pub open spec fn every_line(s: Seq<char>, fine: spec_fn(Seq<char>) -> bool) -> bool {
    forall|k: int| 0 <= k < lines_of(s).len() ==> fine(#[trigger] lines_of(s)[k])
}

/// Whether a line is blank: it holds nothing, or nothing but whitespace.
pub open spec fn is_blank(line: Seq<char>) -> bool {
    trim(line).len() == 0
}

/// How many of the lines are blank.
pub open spec fn count_blank(lines: Seq<Seq<char>>) -> nat
    decreases lines.len(),
{
    if lines.len() == 0 {
        0
    } else if is_blank(lines.last()) {
        count_blank(lines.drop_last()) + 1
    } else {
        count_blank(lines.drop_last())
    }
}

/// How many lines of a text are blank.
pub open spec fn blank_lines(s: Seq<char>) -> nat {
    count_blank(lines_of(s))
}

/// The empty text is one empty line.
pub proof fn lemma_lines_of_empty()
    ensures
        lines_of(Seq::<char>::empty()) == seq![Seq::<char>::empty()],
{
    let e = Seq::<char>::empty();
    assert(e.subrange(0, 0) =~= e);
}

/// The lines of two texts with a line feed between them are the lines of
/// the first followed by the lines of the second.
pub proof fn lemma_lines_of_fed(a: Seq<char>, b: Seq<char>)
    ensures
        lines_of(a + feed() + b) == lines_of(a) + lines_of(b),
{
    lemma_split_on_concat(a, '\n', b);
}

/// The lines of two texts with a blank line between them are the lines of
/// the first, an empty line, and the lines of the second.
pub proof fn lemma_lines_of_broken(a: Seq<char>, b: Seq<char>)
    ensures
        lines_of(a + paragraph_break() + b) == lines_of(a) + seq![Seq::<char>::empty()] + lines_of(
            b,
        ),
{
    let e = Seq::<char>::empty();
    assert(a + paragraph_break() + b =~= (a + feed() + e) + feed() + b);
    lemma_lines_of_fed(a + feed() + e, b);
    lemma_lines_of_fed(a, e);
    lemma_lines_of_empty();
}

/// Blank lines are counted part by part.
pub proof fn lemma_count_blank_concat(a: Seq<Seq<char>>, b: Seq<Seq<char>>)
    ensures
        count_blank(a + b) == count_blank(a) + count_blank(b),
    decreases b.len(),
{
    if b.len() == 0 {
        assert(a + b =~= a);
    } else {
        assert((a + b).drop_last() =~= a + b.drop_last());
        assert((a + b).last() == b.last());
        lemma_count_blank_concat(a, b.drop_last());
    }
}

/// One empty line counts as one blank line.
pub proof fn lemma_count_blank_single()
    ensures
        count_blank(seq![Seq::<char>::empty()]) == 1,
{
    let one = seq![Seq::<char>::empty()];
    assert(one.drop_last() =~= Seq::<Seq<char>>::empty());
    assert(one.last().len() == 0);
    assert(is_blank(one.last()));
    assert(count_blank(Seq::<Seq<char>>::empty()) == 0);
}

/// Parts without a blank line, joined by line feeds, have no blank line.
pub proof fn lemma_fed_parts_have_no_blank(parts: Seq<Seq<char>>)
    requires
        parts.len() >= 1,
        forall|k: int| 0 <= k < parts.len() ==> blank_lines(#[trigger] parts[k]) == 0,
    ensures
        blank_lines(join(parts, feed())) == 0,
    decreases parts.len(),
{
    if parts.len() >= 2 {
        let init = parts.drop_last();
        assert forall|k: int| 0 <= k < init.len() implies blank_lines(#[trigger] init[k]) == 0 by {
            assert(init[k] == parts[k]);
        }
        lemma_fed_parts_have_no_blank(init);
        lemma_lines_of_fed(join(init, feed()), parts.last());
        lemma_count_blank_concat(lines_of(join(init, feed())), lines_of(parts.last()));
    } else {
        assert(parts[0] == parts.last());
    }
}

/// Parts without a blank line, joined by blank lines, have one blank line
/// for each two neighbours.
pub proof fn lemma_broken_parts_have_one_blank_each(parts: Seq<Seq<char>>)
    requires
        parts.len() >= 1,
        forall|k: int| 0 <= k < parts.len() ==> blank_lines(#[trigger] parts[k]) == 0,
    ensures
        blank_lines(join(parts, paragraph_break())) == parts.len() - 1,
    decreases parts.len(),
{
    if parts.len() >= 2 {
        let init = parts.drop_last();
        assert forall|k: int| 0 <= k < init.len() implies blank_lines(#[trigger] init[k]) == 0 by {
            assert(init[k] == parts[k]);
        }
        lemma_broken_parts_have_one_blank_each(init);
        let head = join(init, paragraph_break());
        lemma_lines_of_broken(head, parts.last());
        lemma_count_blank_single();
        lemma_count_blank_concat(lines_of(head), seq![Seq::<char>::empty()]);
        lemma_count_blank_concat(
            lines_of(head) + seq![Seq::<char>::empty()],
            lines_of(parts.last()),
        );
    } else {
        assert(parts[0] == parts.last());
    }
}

/// When every line of every part is fine, and the empty line is fine, then
/// every line of the parts joined by line feeds, or by blank lines, is fine.
pub proof fn lemma_every_line_of_joined(parts: Seq<Seq<char>>, broken: bool, fine: spec_fn(Seq<char>) -> bool)
    requires
        forall|k: int| 0 <= k < parts.len() ==> every_line(#[trigger] parts[k], fine),
        fine(Seq::<char>::empty()),
    ensures
        every_line(
            join(
                parts,
                if broken {
                    paragraph_break()
                } else {
                    feed()
                },
            ),
            fine,
        ),
    decreases parts.len(),
{
    let sep = if broken {
        paragraph_break()
    } else {
        feed()
    };
    let whole = join(parts, sep);
    if parts.len() == 0 {
        lemma_lines_of_empty();
    } else if parts.len() == 1 {
        assert(parts[0] == parts.last());
    } else {
        let init = parts.drop_last();
        assert forall|k: int| 0 <= k < init.len() implies every_line(#[trigger] init[k], fine) by {
            assert(init[k] == parts[k]);
        }
        lemma_every_line_of_joined(init, broken, fine);
        let head = join(init, sep);
        let a = lines_of(head);
        let b = lines_of(parts.last());
        if broken {
            lemma_lines_of_broken(head, parts.last());
        } else {
            lemma_lines_of_fed(head, parts.last());
        }
        assert forall|k: int| 0 <= k < lines_of(whole).len() implies fine(
            #[trigger] lines_of(whole)[k],
        ) by {
            if k < a.len() {
                assert(lines_of(whole)[k] == a[k]);
            } else if broken && k == a.len() {
                assert(lines_of(whole)[k] == Seq::<char>::empty());
            } else if broken {
                assert(lines_of(whole)[k] == b[k - a.len() - 1]);
            } else {
                assert(lines_of(whole)[k] == b[k - a.len()]);
            }
        }
    }
}

} // verus!
