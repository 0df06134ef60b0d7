use vstd::prelude::*;
use vstd::string::StringSliceAdditionalSpecFns;
use vstd::utf8::encode_utf8;
use crate::numtext::{NEWLINE, SPACE, decimal, pad_left, push_all, push_padded};

verus! {

/// What wc is asked to print: the files to read (`-` for standard input), and
/// which counts to show.
pub struct Config {
    pub files: Vec<String>,
    pub lines: bool,
    pub bytes: bool,
    pub characters: bool,
    pub words: bool,
}

/// The four counts of one text.
pub struct Counts {
    pub lines: usize,
    pub words: usize,
    pub bytes: usize,
    pub chars: usize,
}

/// Whether `c` has the Unicode White_Space property, as std's
/// `char::is_whitespace` decides it.
pub open spec fn is_space(c: char) -> bool {
    let u = c as u32;
    (9 <= u <= 13) || u == 32 || u == 0x85 || u == 0xA0 || u == 0x1680 || (0x2000 <= u
        <= 0x200A) || u == 0x2028 || u == 0x2029 || u == 0x202F || u == 0x205F || u == 0x3000
}

/// How many bytes UTF-8 takes for `c`.
pub open spec fn utf8_len(c: char) -> nat {
    let u = c as u32;
    if u < 0x80 {
        1
    } else if u < 0x800 {
        2
    } else if u < 0x10000 {
        3
    } else {
        4
    }
}

/// Whether `c` is the line feed.
pub open spec fn is_newline(c: char) -> bool {
    c as u32 == NEWLINE as u32
}

/// How many line feeds `s` holds.
pub open spec fn newline_chars(s: Seq<char>) -> nat
    decreases s.len(),
{
    if s.len() == 0 {
        0
    } else {
        newline_chars(s.drop_last()) + if is_newline(s.last()) {
            1nat
        } else {
            0nat
        }
    }
}

/// The line count of `s`: one per line feed, and one more for text after the
/// last line feed.
pub open spec fn text_lines(s: Seq<char>) -> nat {
    newline_chars(s) + if s.len() > 0 && !is_newline(s.last()) {
        1nat
    } else {
        0nat
    }
}

/// Whether a word starts at index `i` of `s`: a non-space that is first or
/// follows a space.
pub open spec fn word_starts_at(s: Seq<char>, i: int) -> bool {
    !is_space(s[i]) && (i == 0 || is_space(s[i - 1]))
}

/// The word count of `s`: its maximal runs of non-space characters.
pub open spec fn text_words(s: Seq<char>) -> nat
    decreases s.len(),
{
    if s.len() == 0 {
        0
    } else {
        text_words(s.drop_last()) + if word_starts_at(s, s.len() - 1) {
            1nat
        } else {
            0nat
        }
    }
}

/// The length of `s` in UTF-8.
pub open spec fn text_bytes(s: Seq<char>) -> nat
    decreases s.len(),
{
    if s.len() == 0 {
        0
    } else {
        text_bytes(s.drop_last()) + utf8_len(s.last())
    }
}

/// Whether `c` holds the counts of the text `s`.
pub open spec fn counts_of(c: Counts, s: Seq<char>) -> bool {
    &&& c.lines == text_lines(s)
    &&& c.words == text_words(s)
    &&& c.bytes == text_bytes(s)
    &&& c.chars == s.len()
}

proof fn lemma_text_bytes_bound(s: Seq<char>)
    ensures
        text_bytes(s) <= 4 * s.len(),
        newline_chars(s) <= s.len(),
        text_words(s) <= s.len(),
    decreases s.len(),
{
    if s.len() > 0 {
        lemma_text_bytes_bound(s.drop_last());
    }
}

/// Counting is additive over a text cut at the end of a line: the counts of
/// the whole are the sums of the counts of the two parts.
pub proof fn lemma_counts_additive(a: Seq<char>, b: Seq<char>)
    requires
        a.len() == 0 || is_newline(a.last()),
    ensures
        text_lines(a + b) == text_lines(a) + text_lines(b),
        text_words(a + b) == text_words(a) + text_words(b),
        text_bytes(a + b) == text_bytes(a) + text_bytes(b),
        (a + b).len() == a.len() + b.len(),
    decreases b.len(),
{
    if b.len() == 0 {
        assert(a + b =~= a);
    } else {
        let b0 = b.drop_last();
        lemma_counts_additive(a, b0);
        let ab = a + b;
        assert(ab.drop_last() =~= a + b0);
        assert(ab.last() == b.last());
        if b.len() >= 2 {
            assert(ab[ab.len() - 2] == b[b.len() - 2]);
        } else if a.len() > 0 {
            assert(ab[ab.len() - 2] == a.last());
        }
        assert(word_starts_at(ab, ab.len() - 1) == word_starts_at(b, b.len() - 1));
    }
}

/// Whether `c` is a space as std's `char::is_whitespace` decides it.
pub fn is_whitespace(c: char) -> (r: bool)
    ensures
        r == is_space(c),
{
    let u = c as u32;
    (9 <= u && u <= 13) || u == 32 || u == 0x85 || u == 0xA0 || u == 0x1680 || (0x2000 <= u
        && u <= 0x200A) || u == 0x2028 || u == 0x2029 || u == 0x202F || u == 0x205F || u
        == 0x3000
}

/// How many bytes UTF-8 takes for `c`.
pub fn char_utf8_len(c: char) -> (r: usize)
    ensures
        r == utf8_len(c),
{
    let u = c as u32;
    if u < 0x80 {
        1
    } else if u < 0x800 {
        2
    } else if u < 0x10000 {
        3
    } else {
        4
    }
}

/// The line, word, byte and character counts of `text`.
pub fn count_text(text: &[char]) -> (r: Counts)
    requires
        text@.len() <= usize::MAX / 4,
    ensures
        counts_of(r, text@),
{
    let mut newlines: usize = 0;
    let mut words: usize = 0;
    let mut bytes: usize = 0;
    let mut prev_space = true;
    let mut i: usize = 0;
    while i < text.len()
        invariant
            0 <= i <= text.len(),
            text@.len() <= usize::MAX / 4,
            newlines == newline_chars(text@.take(i as int)),
            words == text_words(text@.take(i as int)),
            bytes == text_bytes(text@.take(i as int)),
            prev_space == (i == 0 || is_space(text@[i - 1])),
        decreases text.len() - i,
    {
        let c = text[i];
        let ghost t = text@.take(i as int + 1);
        proof {
            assert(t.drop_last() =~= text@.take(i as int));
            assert(t.last() == c);
            if i > 0 {
                assert(t[i - 1] == text@[i - 1]);
            }
            lemma_text_bytes_bound(text@.take(i as int));
        }
        let space = is_whitespace(c);
        if c as u32 == NEWLINE as u32 {
            newlines = newlines + 1;
        }
        if !space && prev_space {
            words = words + 1;
        }
        bytes = bytes + char_utf8_len(c);
        prev_space = space;
        i += 1;
    }
    assert(text@.take(i as int) =~= text@);
    let mut lines = newlines;
    if text.len() > 0 && text[text.len() - 1] as u32 != NEWLINE as u32 {
        proof {
            assert(text@.last() == text@[text@.len() - 1]);
            lemma_text_bytes_bound(text@);
        }
        lines = lines + 1;
    }
    Counts { lines, words, bytes, chars: text.len() }
}

impl Counts {
    /// The counts of two texts added up, or `None` where a sum does not fit.
    pub fn plus(&self, o: &Counts) -> (r: Option<Counts>)
        ensures
            match r {
                Some(t) => t.lines == self.lines + o.lines && t.words == self.words + o.words
                    && t.bytes == self.bytes + o.bytes && t.chars == self.chars + o.chars,
                None => self.lines + o.lines > usize::MAX || self.words + o.words > usize::MAX
                    || self.bytes + o.bytes > usize::MAX || self.chars + o.chars > usize::MAX,
            },
    {
        let lines = match self.lines.checked_add(o.lines) {
            Some(v) => v,
            None => return None,
        };
        let words = match self.words.checked_add(o.words) {
            Some(v) => v,
            None => return None,
        };
        let bytes = match self.bytes.checked_add(o.bytes) {
            Some(v) => v,
            None => return None,
        };
        let chars = match self.chars.checked_add(o.chars) {
            Some(v) => v,
            None => return None,
        };
        Some(Counts { lines, words, bytes, chars })
    }
}

/// The width of each count's column.
pub const FIELD_WIDTH: usize = 8;

/// Whether no count was asked for, in which case lines, words and bytes are
/// shown.
pub open spec fn shows_default(config: &Config) -> bool {
    !config.lines && !config.words && !config.bytes && !config.characters
}

/// `n` in its column where `shown`, else nothing.
pub open spec fn field(shown: bool, n: usize) -> Seq<u8> {
    if shown {
        pad_left(decimal(n as nat), FIELD_WIDTH as nat)
    } else {
        Seq::empty()
    }
}

/// The columns of the counts that `config` selects, in the order lines, words,
/// bytes, characters.
pub open spec fn fields_spec(config: &Config, c: &Counts) -> Seq<u8> {
    let d = shows_default(config);
    field(config.lines || d, c.lines) + field(config.words || d, c.words) + field(
        config.bytes || d,
        c.bytes,
    ) + field(config.characters, c.chars)
}

/// The name that stands for standard input.
pub open spec fn is_stdin_name(name: Seq<u8>) -> bool {
    name == seq![45u8]
}

/// One line of wc's output: the selected counts, then the name unless it is
/// standard input's.
pub open spec fn row_spec(config: &Config, c: &Counts, name: Seq<u8>) -> Seq<u8> {
    fields_spec(config, c) + if is_stdin_name(name) {
        Seq::empty()
    } else {
        seq![SPACE] + name
    } + seq![NEWLINE]
}

/// Appends `n` in its column where `shown`.
fn push_field(out: &mut Vec<u8>, shown: bool, n: usize)
    ensures
        final(out)@ == old(out)@ + field(shown, n),
{
    if shown {
        push_padded(out, n, FIELD_WIDTH);
    } else {
        assert(old(out)@ + Seq::<u8>::empty() =~= old(out)@);
    }
}

/// One line of wc's output for the counts `c` of the file whose name is the
/// bytes `nb`.
fn row_bytes(config: &Config, c: &Counts, nb: &[u8]) -> (r: Vec<u8>)
    ensures
        r@ == row_spec(config, c, nb@),
{
    let d = !config.lines && !config.words && !config.bytes && !config.characters;
    let mut out: Vec<u8> = Vec::new();
    push_field(&mut out, config.lines || d, c.lines);
    push_field(&mut out, config.words || d, c.words);
    push_field(&mut out, config.bytes || d, c.bytes);
    push_field(&mut out, config.characters, c.chars);
    assert(out@ =~= fields_spec(config, c));
    let stdin = nb.len() == 1 && nb[0] == 45u8;
    proof {
        if stdin {
            assert(nb@ =~= seq![45u8]);
        }
    }
    if !stdin {
        out.push(SPACE);
        push_all(&mut out, nb);
    }
    out.push(NEWLINE);
    assert(out@ =~= row_spec(config, c, nb@));
    out
}

/// Formats one line of wc's output for the counts `c` of the file `name`.
pub fn format_row(config: &Config, c: &Counts, name: &str) -> (r: Vec<u8>)
    ensures
        r@ == row_spec(config, c, name.spec_bytes()),
{
    row_bytes(config, c, name.as_bytes())
}

/// The count of kind `k` in `c`: lines, words, bytes, characters for 0 to 3.
pub open spec fn count_field(c: Counts, k: int) -> nat {
    if k == 0 {
        c.lines as nat
    } else if k == 1 {
        c.words as nat
    } else if k == 2 {
        c.bytes as nat
    } else {
        c.chars as nat
    }
}

/// The sum of the counts of kind `k` over all files.
pub open spec fn sum_field(s: Seq<Counts>, k: int) -> nat
    decreases s.len(),
{
    if s.len() == 0 {
        0
    } else {
        sum_field(s.drop_last(), k) + count_field(s.last(), k)
    }
}

/// Whether every total fits in a `usize`.
pub open spec fn totals_fit(s: Seq<Counts>) -> bool {
    forall|k: int| 0 <= k < 4 ==> #[trigger] sum_field(s, k) <= usize::MAX
}

/// The totals over all files, where they fit.
pub open spec fn totals_spec(s: Seq<Counts>) -> Counts {
    Counts {
        lines: sum_field(s, 0) as usize,
        words: sum_field(s, 1) as usize,
        bytes: sum_field(s, 2) as usize,
        chars: sum_field(s, 3) as usize,
    }
}

/// The name of the totals line.
pub open spec fn total_name() -> Seq<u8> {
    seq![116u8, 111u8, 116u8, 97u8, 108u8]
}

/// One line per file, in order.
pub open spec fn rows_spec(config: &Config, names: Seq<String>, counts: Seq<Counts>) -> Seq<u8>
    decreases counts.len(),
{
    if counts.len() == 0 || names.len() == 0 {
        Seq::empty()
    } else {
        rows_spec(config, names.drop_last(), counts.drop_last()) + row_spec(
            config,
            &counts.last(),
            encode_utf8(names.last()@),
        )
    }
}

/// All of wc's output: a line per file and, for more than one file, a line of
/// totals.
pub open spec fn report_spec(config: &Config, names: Seq<String>, counts: Seq<Counts>) -> Seq<u8> {
    rows_spec(config, names, counts) + if counts.len() > 1 {
        row_spec(config, &totals_spec(counts), total_name())
    } else {
        Seq::empty()
    }
}

proof fn lemma_sum_field_prefix(s: Seq<Counts>, i: int, k: int)
    requires
        0 <= i <= s.len(),
    ensures
        sum_field(s.take(i), k) <= sum_field(s, k),
    decreases s.len() - i,
{
    if i < s.len() {
        lemma_sum_field_prefix(s, i + 1, k);
        assert(s.take(i + 1).drop_last() =~= s.take(i));
    } else {
        assert(s.take(i) =~= s);
    }
}

/// wc's output for the files `names` whose counts are `counts`, or `None`
/// where a total does not fit in a `usize`.
pub fn wc_report(config: &Config, names: &Vec<String>, counts: &Vec<Counts>) -> (r: Option<Vec<u8>>)
    requires
        names@.len() == counts@.len(),
    ensures
        match r {
            Some(out) => totals_fit(counts@) && out@ == report_spec(config, names@, counts@),
            None => !totals_fit(counts@),
        },
{
    let mut out: Vec<u8> = Vec::new();
    let mut total = Counts { lines: 0, words: 0, bytes: 0, chars: 0 };
    let mut i: usize = 0;
    assert(counts@.take(0) =~= Seq::<Counts>::empty());
    assert(names@.take(0) =~= Seq::<String>::empty());
    while i < counts.len()
        invariant
            0 <= i <= counts.len(),
            names@.len() == counts@.len(),
            out@ == rows_spec(config, names@.take(i as int), counts@.take(i as int)),
            forall|k: int| 0 <= k < 4 ==> count_field(total, k) == #[trigger] sum_field(counts@.take(i as int), k),
        decreases counts.len() - i,
    {
        let c = &counts[i];
        proof {
            assert(counts@.take(i + 1).drop_last() =~= counts@.take(i as int));
            assert(names@.take(i + 1).drop_last() =~= names@.take(i as int));
            assert(counts@.take(i + 1).last() == *c);
            assert(names@.take(i + 1).last() == names@[i as int]);
            assert forall|k: int| 0 <= k < 4 implies #[trigger] sum_field(counts@.take(i + 1), k)
                == count_field(total, k) + count_field(*c, k) by {
                assert(sum_field(counts@.take(i as int), k) == count_field(total, k));
            }
        }
        match total.plus(c) {
            Some(t) => {
                total = t;
            },
            None => {
                proof {
                    let k: int = if total.lines + c.lines > usize::MAX {
                        0
                    } else if total.words + c.words > usize::MAX {
                        1
                    } else if total.bytes + c.bytes > usize::MAX {
                        2
                    } else {
                        3
                    };
                    assert(sum_field(counts@.take(i + 1), k) > usize::MAX);
                    lemma_sum_field_prefix(counts@, i + 1, k);
                }
                return None;
            },
        }
        let row = row_bytes(config, c, names[i].as_str().as_bytes());
        push_all(&mut out, row.as_slice());
        i += 1;
    }
    assert(counts@.take(i as int) =~= counts@);
    assert(names@.take(i as int) =~= names@);
    if counts.len() > 1 {
        let total_bytes: Vec<u8> = vec![116u8, 111u8, 116u8, 97u8, 108u8];
        assert(total_bytes@ =~= total_name());
        assert(total == totals_spec(counts@));
        let row = row_bytes(config, &total, total_bytes.as_slice());
        push_all(&mut out, row.as_slice());
    } else {
        assert(out@ + Seq::<u8>::empty() =~= out@);
    }
    Some(out)
}

} // verus!
