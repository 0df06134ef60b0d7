use vstd::prelude::*;
use vstd::string::StringSliceAdditionalSpecFns;
use crate::lines::{newlines, line_count, ends_line, lemma_line_count_cons};
use crate::numtext::{NEWLINE, SPACE, push_all};

verus! {

/// What head is asked to print: the files to read, and how much of each.
#[derive(Debug)]
pub struct Config {
    pub files: Vec<String>,
    pub lines: usize,
    pub bytes: Option<usize>,
}

/// The first `n` lines of `s`, each with its line feed; the last one may lack it.
pub open spec fn take_lines(s: Seq<u8>, n: nat) -> Seq<u8>
    decreases s.len(),
{
    if n == 0 || s.len() == 0 {
        Seq::empty()
    } else if s[0] == NEWLINE {
        seq![s[0]] + take_lines(s.drop_first(), (n - 1) as nat)
    } else {
        seq![s[0]] + take_lines(s.drop_first(), n)
    }
}

/// The first `n` bytes of `s`, or all of it where it is shorter.
pub open spec fn take_bytes(s: Seq<u8>, n: nat) -> Seq<u8> {
    if n < s.len() {
        s.take(n as int)
    } else {
        s
    }
}

/// What head prints of one file's contents under `config`.
pub open spec fn head_spec(config: &Config, s: Seq<u8>) -> Seq<u8> {
    match config.bytes {
        Some(b) => take_bytes(s, b as nat),
        None => take_lines(s, config.lines as nat),
    }
}

/// The line that precedes a file's part when head prints several files:
/// `==> name <==`.
pub open spec fn header_spec(name: Seq<u8>) -> Seq<u8> {
    seq![61u8, 61u8, 62u8, SPACE] + name + seq![SPACE, 60u8, 61u8, 61u8, NEWLINE]
}

/// What head prints for the file at `index` of `count` files, whose selected
/// part is `body`: with several files, a header before it and a blank line
/// after it unless it is the last.
pub open spec fn section_spec(name: Seq<u8>, body: Seq<u8>, index: nat, count: nat) -> Seq<u8> {
    if count > 1 {
        header_spec(name) + body + if index + 1 < count {
            seq![NEWLINE]
        } else {
            Seq::empty()
        }
    } else {
        body
    }
}

/// The first `n` lines of a text are whole lines taken from its start, as
/// many as it has up to `n`.
pub proof fn lemma_take_lines(s: Seq<u8>, n: nat)
    ensures
        take_lines(s, n).len() <= s.len(),
        s.take(take_lines(s, n).len() as int) == take_lines(s, n),
        take_lines(s, n).len() == s.len() || ends_line(take_lines(s, n)),
        line_count(take_lines(s, n)) == if n < line_count(s) {
            n
        } else {
            line_count(s)
        },
    decreases s.len(),
{
    let r = take_lines(s, n);
    if n == 0 || s.len() == 0 {
        assert(s.take(0) =~= r);
        assert(newlines(r) == 0);
    } else {
        let c = s[0];
        let t = s.drop_first();
        let m: nat = if c == NEWLINE { (n - 1) as nat } else { n };
        lemma_take_lines(t, m);
        let rt = take_lines(t, m);
        assert(s =~= seq![c] + t);
        assert(r == seq![c] + rt);
        assert(s.take(r.len() as int) =~= seq![c] + t.take(rt.len() as int));
        lemma_line_count_cons(c, t);
        lemma_line_count_cons(c, rt);
        if rt.len() > 0 {
            assert(r.last() == rt.last());
        }
        if c != NEWLINE && t.len() > 0 {
            assert(rt.len() > 0);
        }
    }
}

/// The first `n` lines of `data`, line terminators kept as they are.
pub fn head_lines(data: &[u8], n: usize) -> (r: Vec<u8>)
    ensures
        r@ == take_lines(data@, n as nat),
{
    let mut out: Vec<u8> = Vec::new();
    let mut i: usize = 0;
    let mut left: usize = n;
    proof {
        assert(data@.skip(0) =~= data@);
        assert(out@ + take_lines(data@, n as nat) =~= take_lines(data@, n as nat));
    }
    while i < data.len() && left > 0
        invariant
            0 <= i <= data.len(),
            left <= n,
            take_lines(data@, n as nat) == out@ + take_lines(data@.skip(i as int), left as nat),
        decreases data.len() - i,
    {
        let c = data[i];
        proof {
            let rest = data@.skip(i as int);
            assert(rest[0] == c);
            assert(rest.drop_first() =~= data@.skip(i as int + 1));
        }
        out.push(c);
        if c == NEWLINE {
            left = left - 1;
        }
        assert(take_lines(data@, n as nat) == out@ + take_lines(data@.skip(i as int + 1), left as nat));
        i += 1;
    }
    proof {
        assert(take_lines(data@.skip(i as int), left as nat) =~= Seq::<u8>::empty());
        assert(out@ + Seq::<u8>::empty() =~= out@);
    }
    out
}

/// The first `n` bytes of `data`, or all of it where it is shorter.
pub fn head_bytes(data: &[u8], n: usize) -> (r: Vec<u8>)
    ensures
        r@ == take_bytes(data@, n as nat),
{
    let end: usize = if n < data.len() { n } else { data.len() };
    let mut out: Vec<u8> = Vec::new();
    let mut i: usize = 0;
    while i < end
        invariant
            0 <= i <= end <= data.len(),
            out@ == data@.take(i as int),
        decreases end - i,
    {
        out.push(data[i]);
        assert(data@.take(i as int + 1) =~= data@.take(i as int).push(data@[i as int]));
        i += 1;
    }
    assert(data@.take(data.len() as int) =~= data@);
    out
}

/// What head prints of one file's contents: its first bytes where a byte
/// limit is set, else its first lines.
pub fn head_file(config: &Config, data: &[u8]) -> (r: Vec<u8>)
    ensures
        r@ == head_spec(config, data@),
{
    match config.bytes {
        Some(b) => head_bytes(data, b),
        None => head_lines(data, config.lines),
    }
}

/// Frames the selected part `body` of the file `name`, the one at `index` of
/// `count` files.
pub fn head_section(name: &str, body: &[u8], index: usize, count: usize) -> (r: Vec<u8>)
    ensures
        r@ == section_spec(name.spec_bytes(), body@, index as nat, count as nat),
{
    let mut out: Vec<u8> = Vec::new();
    if count > 1 {
        out.push(61u8);
        out.push(61u8);
        out.push(62u8);
        out.push(SPACE);
        push_all(&mut out, name.as_bytes());
        out.push(SPACE);
        out.push(60u8);
        out.push(61u8);
        out.push(61u8);
        out.push(NEWLINE);
        assert(out@ =~= header_spec(name.spec_bytes()));
    }
    push_all(&mut out, body);
    if count > 1 && index < count - 1 {
        out.push(NEWLINE);
    }
    assert(out@ =~= section_spec(name.spec_bytes(), body@, index as nat, count as nat));
    out
}

} // verus!
