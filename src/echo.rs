use vstd::prelude::*;

verus! {

/// The words joined by single spaces.
pub open spec fn join_words(words: Seq<Seq<u8>>) -> Seq<u8>
    decreases words.len(),
{
    if words.len() == 0 {
        Seq::empty()
    } else if words.len() == 1 {
        words[0]
    } else {
        join_words(words.drop_last()) + seq![32u8] + words.last()
    }
}

/// The text printed for `words`: the words joined by single spaces, followed by
/// a newline unless `omit_newline` is set.
pub open spec fn echo_spec(words: Seq<Seq<u8>>, omit_newline: bool) -> Seq<u8> {
    if omit_newline {
        join_words(words)
    } else {
        join_words(words) + seq![10u8]
    }
}

/// Builds the output of echo: the words joined by single spaces, followed by a
/// newline unless `omit_newline` is set.
pub fn echo_text(words: &Vec<Vec<u8>>, omit_newline: bool) -> (r: Vec<u8>)
    ensures
        r@ == echo_spec(words.deep_view(), omit_newline),
{
    let mut out: Vec<u8> = Vec::new();
    let mut i: usize = 0;
    while i < words.len()
        invariant
            0 <= i <= words.len(),
            out@ == join_words(words.deep_view().take(i as int)),
        decreases words.len() - i,
    {
        let w = &words[i];
        if i > 0 {
            out.push(32u8);
        }
        let ghost before = out@;
        let mut j: usize = 0;
        while j < w.len()
            invariant
                0 <= j <= w.len(),
                out@ == before + w@.take(j as int),
            decreases w.len() - j,
        {
            out.push(w[j]);
            assert(w@.take(j as int + 1) =~= w@.take(j as int).push(w@[j as int]));
            j += 1;
        }
        proof {
            let ws = words.deep_view();
            assert(ws.take(i as int + 1).drop_last() =~= ws.take(i as int));
            assert(w@.take(j as int) =~= w@);
            assert(ws[i as int] == w@);
            if i == 0 {
                assert(before =~= Seq::<u8>::empty());
            }
        }
        i += 1;
    }
    proof {
        assert(words.deep_view().take(i as int) =~= words.deep_view());
    }
    if !omit_newline {
        out.push(10u8);
    }
    out
}

} // verus!
