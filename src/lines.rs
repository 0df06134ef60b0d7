use vstd::prelude::*;
use crate::numtext::NEWLINE;

verus! {

/// How many line feeds `s` holds.
pub open spec fn newlines(s: Seq<u8>) -> nat
    decreases s.len(),
{
    if s.len() == 0 {
        0
    } else {
        newlines(s.drop_last()) + if s.last() == NEWLINE {
            1nat
        } else {
            0nat
        }
    }
}

/// How many lines `s` holds: one per line feed, and one more for text after
/// the last line feed.
pub open spec fn line_count(s: Seq<u8>) -> nat {
    newlines(s) + if s.len() > 0 && s.last() != NEWLINE {
        1nat
    } else {
        0nat
    }
}

/// Whether `s` ends where a line ends: it is empty or its last byte is a line feed.
pub open spec fn ends_line(s: Seq<u8>) -> bool {
    s.len() == 0 || s.last() == NEWLINE
}

/// Line feeds are counted piece by piece.
pub proof fn lemma_newlines_append(a: Seq<u8>, b: Seq<u8>)
    ensures
        newlines(a + b) == newlines(a) + newlines(b),
    decreases b.len(),
{
    if b.len() == 0 {
        assert(a + b =~= a);
    } else {
        lemma_newlines_append(a, b.drop_last());
        assert((a + b).drop_last() =~= a + b.drop_last());
    }
}

/// The line count of a byte followed by more text.
pub proof fn lemma_line_count_cons(c: u8, t: Seq<u8>)
    ensures
        line_count(seq![c] + t) == if c == NEWLINE {
            1 + line_count(t)
        } else if t.len() == 0 {
            1
        } else {
            line_count(t)
        },
{
    lemma_newlines_append(seq![c], t);
    assert(seq![c].drop_last() =~= Seq::<u8>::empty());
    assert(newlines(Seq::<u8>::empty()) == 0);
    assert(newlines(seq![c]) == if c == NEWLINE { 1nat } else { 0nat });
    if t.len() > 0 {
        assert((seq![c] + t).last() == t.last());
    } else {
        assert(seq![c] + t =~= seq![c]);
    }
}

/// The pieces of `s` between line feeds, line feeds left out: one more piece
/// than there are line feeds.
pub open spec fn segments(s: Seq<u8>) -> Seq<Seq<u8>>
    decreases s.len(),
{
    if s.len() == 0 {
        seq![Seq::empty()]
    } else {
        let g = segments(s.drop_last());
        if s.last() == NEWLINE {
            g.push(Seq::empty())
        } else {
            g.update(g.len() - 1, g.last().push(s.last()))
        }
    }
}

pub proof fn lemma_segments_nonempty(s: Seq<u8>)
    ensures
        segments(s).len() == newlines(s) + 1,
    decreases s.len(),
{
    if s.len() > 0 {
        lemma_segments_nonempty(s.drop_last());
    }
}

/// The lines of `s` without their line feeds; text after the last line feed is
/// a line of its own, an empty remainder is none.
pub open spec fn split_lines_spec(s: Seq<u8>) -> Seq<Seq<u8>> {
    let g = segments(s);
    if g.last().len() == 0 {
        g.drop_last()
    } else {
        g
    }
}

} // verus!
