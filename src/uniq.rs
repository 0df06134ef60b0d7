use vstd::prelude::*;
use crate::lines::{segments, split_lines_spec};
use crate::numtext::{NEWLINE, SPACE, decimal, push_all, push_decimal};

verus! {

/// What uniq is asked to do: the input (`-` for standard input), where to
/// write, and whether to prefix each line with its run length.
pub struct Config {
    pub input_file: String,
    pub output_file: Option<String>,
    pub count: bool,
}

/// A run: `count` consecutive copies of `line`.
pub struct Run {
    pub count: usize,
    pub line: Vec<u8>,
}

/// The contents of each vector.
pub open spec fn views(v: Seq<Vec<u8>>) -> Seq<Seq<u8>> {
    Seq::new(v.len(), |i: int| v[i]@)
}

/// Each run as its length and its line.
pub open spec fn run_views(v: Seq<Run>) -> Seq<(nat, Seq<u8>)> {
    Seq::new(v.len(), |i: int| (v[i].count as nat, v[i].line@))
}

/// The maximal runs of equal consecutive lines of `lines`, in order.
pub open spec fn runs_of(lines: Seq<Seq<u8>>) -> Seq<(nat, Seq<u8>)>
    decreases lines.len(),
{
    if lines.len() == 0 {
        Seq::empty()
    } else {
        let r = runs_of(lines.drop_last());
        if r.len() > 0 && r.last().1 == lines.last() {
            r.update(r.len() - 1, (r.last().0 + 1, lines.last()))
        } else {
            r.push((1nat, lines.last()))
        }
    }
}

/// The lines that `runs` stands for: each line repeated by its run length.
pub open spec fn expand(runs: Seq<(nat, Seq<u8>)>) -> Seq<Seq<u8>>
    decreases runs.len(),
{
    if runs.len() == 0 {
        Seq::empty()
    } else {
        expand(runs.drop_last()) + Seq::new(runs.last().0, |i: int| runs.last().1)
    }
}

/// Collapsing lines into runs loses nothing: every run is at least one line
/// long, two neighbouring runs hold different lines, and repeating each run's
/// line by its length gives back the lines.
pub proof fn lemma_runs_expand(lines: Seq<Seq<u8>>)
    ensures
        expand(runs_of(lines)) == lines,
        forall|i: int| 0 <= i < runs_of(lines).len() ==> #[trigger] runs_of(lines)[i].0 >= 1,
        forall|i: int|
            0 <= i < runs_of(lines).len() - 1 ==> #[trigger] runs_of(lines)[i].1 != runs_of(
                lines,
            )[i + 1].1,
    decreases lines.len(),
{
    if lines.len() == 0 {
        assert(expand(runs_of(lines)) =~= lines);
    } else {
        let prev = lines.drop_last();
        let x = lines.last();
        lemma_runs_expand(prev);
        let r0 = runs_of(prev);
        let r = runs_of(lines);
        if r0.len() > 0 && r0.last().1 == x {
            let c = r0.last().0;
            assert(r.drop_last() =~= r0.drop_last());
            assert(Seq::new(c + 1, |i: int| x) =~= Seq::new(c, |i: int| x).push(x));
            assert(expand(r) =~= expand(r0).push(x));
        } else {
            assert(r.drop_last() =~= r0);
            assert(Seq::new(1nat, |i: int| x) =~= seq![x]);
            assert(expand(r) =~= expand(r0).push(x));
        }
        assert(lines =~= prev.push(x));
    }
}

/// Splits `data` into its lines, line feeds left out.
pub fn split_lines(data: &[u8]) -> (r: Vec<Vec<u8>>)
    ensures
        views(r@) == split_lines_spec(data@),
{
    let mut out: Vec<Vec<u8>> = Vec::new();
    let mut cur: Vec<u8> = Vec::new();
    let mut i: usize = 0;
    assert(data@.take(0) =~= Seq::<u8>::empty());
    assert(views(out@).push(cur@) =~= segments(data@.take(0)));
    while i < data.len()
        invariant
            0 <= i <= data.len(),
            views(out@).push(cur@) == segments(data@.take(i as int)),
        decreases data.len() - i,
    {
        let c = data[i];
        let ghost before = views(out@).push(cur@);
        assert(data@.take(i as int + 1).drop_last() =~= data@.take(i as int));
        if c == NEWLINE {
            out.push(cur);
            cur = Vec::new();
            assert(views(out@).push(cur@) =~= before.push(Seq::empty()));
        } else {
            cur.push(c);
            assert(views(out@).push(cur@) =~= before.update(
                before.len() - 1,
                before.last().push(c),
            ));
        }
        i += 1;
    }
    assert(data@.take(data.len() as int) =~= data@);
    let ghost g = views(out@).push(cur@);
    if cur.len() > 0 {
        out.push(cur);
        assert(views(out@) =~= g);
    } else {
        assert(views(out@) =~= g.drop_last());
    }
    out
}

/// The line after the one at `i`, if there is one.
pub fn peek_next(lines: &Vec<Vec<u8>>, i: usize) -> (r: Option<&Vec<u8>>)
    ensures
        match r {
            Some(l) => i + 1 < lines@.len() && l@ == lines@[i + 1]@,
            None => i + 1 >= lines@.len(),
        },
{
    if i < lines.len() && i + 1 < lines.len() {
        Some(&lines[i + 1])
    } else {
        None
    }
}

/// Whether two byte strings are equal.
pub fn same_bytes(a: &[u8], b: &[u8]) -> (r: bool)
    ensures
        r == (a@ == b@),
{
    if a.len() != b.len() {
        return false;
    }
    let mut j: usize = 0;
    while j < a.len()
        invariant
            0 <= j <= a.len(),
            a.len() == b.len(),
            a@.take(j as int) == b@.take(j as int),
        decreases a.len() - j,
    {
        if a[j] != b[j] {
            assert(a@.take(j as int + 1).last() != b@.take(j as int + 1).last());
            return false;
        }
        assert(a@.take(j as int + 1) =~= a@.take(j as int).push(a@[j as int]));
        assert(b@.take(j as int + 1) =~= b@.take(j as int).push(b@[j as int]));
        j += 1;
    }
    assert(a@.take(j as int) =~= a@);
    assert(b@.take(j as int) =~= b@);
    true
}

/// A copy of `v`.
fn copy_bytes(v: &Vec<u8>) -> (r: Vec<u8>)
    ensures
        r@ == v@,
{
    let mut out: Vec<u8> = Vec::new();
    push_all(&mut out, v.as_slice());
    out
}

/// Collapses each maximal run of equal consecutive lines into one line and
/// its length.
pub fn collapse_runs(lines: &Vec<Vec<u8>>) -> (r: Vec<Run>)
    ensures
        run_views(r@) == runs_of(views(lines@)),
{
    let ghost ls = views(lines@);
    let mut out: Vec<Run> = Vec::new();
    if lines.len() == 0 {
        assert(run_views(out@) =~= runs_of(ls));
        return out;
    }
    let mut count: usize = 1;
    let mut i: usize = 0;
    proof {
        assert(ls.take(1).drop_last() =~= Seq::<Seq<u8>>::empty());
        assert(runs_of(Seq::<Seq<u8>>::empty()) == Seq::<(nat, Seq<u8>)>::empty());
        assert(ls.take(1).last() == ls[0]);
        assert(run_views(out@).push((1nat, ls[0])) =~= runs_of(ls.take(1)));
    }
    loop
        invariant
            0 <= i < lines.len(),
            1 <= count <= i + 1,
            ls == views(lines@),
            run_views(out@).push((count as nat, ls[i as int])) == runs_of(ls.take(i + 1)),
            out@.len() > 0 ==> out@.last().line@ != ls[i as int],
        decreases lines.len() - i,
    {
        let ghost open_run = (count as nat, ls[i as int]);
        let ghost prior = runs_of(ls.take(i + 1));
        match peek_next(lines, i) {
            Some(next) => {
                assert(ls.take(i + 2).drop_last() =~= ls.take(i + 1));
                assert(ls.take(i + 2).last() == next@);
                assert(prior.last() == open_run);
                if same_bytes(lines[i].as_slice(), next.as_slice()) {
                    count = count + 1;
                    assert(run_views(out@).push((count as nat, ls[i + 1])) =~= prior.update(
                        prior.len() - 1,
                        (prior.last().0 + 1, next@),
                    ));
                } else {
                    let line = copy_bytes(&lines[i]);
                    out.push(Run { count, line });
                    count = 1;
                    assert(run_views(out@) =~= prior);
                    assert(run_views(out@).push((1nat, ls[i + 1])) =~= prior.push((1nat, next@)));
                }
                i = i + 1;
            },
            None => {
                let line = copy_bytes(&lines[i]);
                out.push(Run { count, line });
                assert(run_views(out@) =~= prior);
                assert(ls.take(i + 1) =~= ls);
                return out;
            },
        }
    }
}

/// One run as uniq prints it, line feed left out: with counts, three spaces,
/// the length, a space, then the line.
pub open spec fn render_run(run: (nat, Seq<u8>), count: bool) -> Seq<u8> {
    if count {
        seq![SPACE, SPACE, SPACE] + decimal(run.0) + seq![SPACE] + run.1
    } else {
        run.1
    }
}

/// Each run rendered and ended by a line feed.
pub open spec fn render_runs(runs: Seq<(nat, Seq<u8>)>, count: bool) -> Seq<u8>
    decreases runs.len(),
{
    if runs.len() == 0 {
        Seq::empty()
    } else {
        render_runs(runs.drop_last(), count) + render_run(runs.last(), count) + seq![NEWLINE]
    }
}

/// What uniq prints for the text `s`: its runs of equal lines, one line each;
/// the last line keeps the terminator that the input's last line had.
pub open spec fn uniq_spec(s: Seq<u8>, count: bool) -> Seq<u8> {
    let out = render_runs(runs_of(split_lines_spec(s)), count);
    if s.len() > 0 && s.last() != NEWLINE {
        out.drop_last()
    } else {
        out
    }
}

/// Prints the runs, each ended by a line feed.
pub fn render(runs: &Vec<Run>, count: bool) -> (r: Vec<u8>)
    ensures
        r@ == render_runs(run_views(runs@), count),
{
    let mut out: Vec<u8> = Vec::new();
    let mut k: usize = 0;
    while k < runs.len()
        invariant
            0 <= k <= runs.len(),
            out@ == render_runs(run_views(runs@).take(k as int), count),
        decreases runs.len() - k,
    {
        let ghost before = out@;
        let run = &runs[k];
        if count {
            out.push(SPACE);
            out.push(SPACE);
            out.push(SPACE);
            push_decimal(&mut out, run.count);
            out.push(SPACE);
        }
        push_all(&mut out, run.line.as_slice());
        out.push(NEWLINE);
        proof {
            let rv = run_views(runs@);
            assert(rv.take(k as int + 1).drop_last() =~= rv.take(k as int));
            assert(rv.take(k as int + 1).last() == (run.count as nat, run.line@));
            assert(out@ =~= before + render_run((run.count as nat, run.line@), count) + seq![NEWLINE]);
        }
        k += 1;
    }
    assert(run_views(runs@).take(k as int) =~= run_views(runs@));
    out
}

/// uniq on the text `data`: each run of equal consecutive lines printed once,
/// prefixed by its length where `count` is set.
pub fn uniq_text(data: &[u8], count: bool) -> (r: Vec<u8>)
    ensures
        r@ == uniq_spec(data@, count),
{
    let lines = split_lines(data);
    let runs = collapse_runs(&lines);
    let mut out = render(&runs, count);
    if data.len() > 0 && data[data.len() - 1] != NEWLINE {
        proof {
            assert(data@.last() == data@[data@.len() - 1]);
            let g = segments(data@.drop_last());
            crate::lines::lemma_segments_nonempty(data@.drop_last());
            assert(segments(data@).last() == g.last().push(data@.last()));
            let ls = split_lines_spec(data@);
            assert(ls.len() > 0);
            assert(runs_of(ls).len() > 0);
            assert(render_runs(runs_of(ls), count).len() > 0);
        }
        out.pop();
        assert(out@ =~= uniq_spec(data@, count));
    }
    out
}

} // verus!
