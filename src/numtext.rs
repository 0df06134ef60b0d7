use vstd::prelude::*;
use vstd::string::StringSliceAdditionalSpecFns;

verus! {

/// The ASCII space.
pub const SPACE: u8 = 32;

/// The ASCII line feed.
pub const NEWLINE: u8 = 10;

/// The ASCII plus sign.
pub const PLUS: u8 = 43;

/// The ASCII digit zero.
pub const ZERO: u8 = 48;

/// Whether `b` is an ASCII digit.
pub open spec fn is_digit(b: u8) -> bool {
    ZERO <= b <= ZERO + 9
}

/// Whether every byte of `s` is an ASCII digit.
pub open spec fn all_digits(s: Seq<u8>) -> bool {
    forall|i: int| 0 <= i < s.len() ==> is_digit(#[trigger] s[i])
}

/// The number that a sequence of ASCII digits denotes in base ten.
pub open spec fn digits_value(s: Seq<u8>) -> nat
    decreases s.len(),
{
    if s.len() == 0 {
        0
    } else {
        digits_value(s.drop_last()) * 10 + (s.last() - ZERO) as nat
    }
}

/// The digits of an unsigned number as written by std's integer parser: one
/// leading `+` is allowed.
pub open spec fn unsigned_digits(s: Seq<u8>) -> Seq<u8> {
    if s.len() > 0 && s[0] == PLUS {
        s.drop_first()
    } else {
        s
    }
}

/// Whether `s` is the text of a `usize`: an optional `+` and at least one digit,
/// with a value that fits.
pub open spec fn is_usize_text(s: Seq<u8>) -> bool {
    let d = unsigned_digits(s);
    d.len() > 0 && all_digits(d) && digits_value(d) <= usize::MAX
}

/// The shortest base-ten text of `n`.
pub open spec fn decimal(n: nat) -> Seq<u8>
    decreases n,
{
    if n < 10 {
        seq![(ZERO + n) as u8]
    } else {
        decimal(n / 10) + seq![(ZERO + n % 10) as u8]
    }
}

/// `s` right-justified with spaces in a field of `width` bytes.
pub open spec fn pad_left(s: Seq<u8>, width: nat) -> Seq<u8> {
    if s.len() < width {
        Seq::new((width - s.len()) as nat, |i: int| SPACE) + s
    } else {
        s
    }
}

/// A longer run of digits never denotes a smaller number.
proof fn lemma_digits_value_prefix(s: Seq<u8>, i: int, j: int)
    requires
        0 <= i <= j <= s.len(),
        all_digits(s),
    ensures
        digits_value(s.take(i)) <= digits_value(s.take(j)),
    decreases j - i,
{
    if i < j {
        lemma_digits_value_prefix(s, i, j - 1);
        assert(s.take(j).drop_last() =~= s.take(j - 1));
    }
}

/// Parses a positive decimal integer, accepting what std's `usize` parser
/// accepts; the error is the rejected text itself.
pub fn parse_positive_int(val: &str) -> (r: Result<usize, String>)
    ensures
        match r {
            Ok(n) => is_usize_text(val.spec_bytes()) && n == digits_value(
                unsigned_digits(val.spec_bytes()),
            ) && n > 0,
            Err(e) => e@ == val@ && !(is_usize_text(val.spec_bytes()) && digits_value(
                unsigned_digits(val.spec_bytes()),
            ) > 0),
        },
{
    let b = val.as_bytes();
    let ghost s = val.spec_bytes();
    let mut start: usize = 0;
    if b.len() > 0 && b[0] == PLUS {
        start = 1;
    }
    let ghost d = unsigned_digits(s);
    assert(d =~= s.skip(start as int));
    if start == b.len() {
        return Err(val.to_owned());
    }
    let mut v: usize = 0;
    let mut i: usize = start;
    while i < b.len()
        invariant
            start <= i <= b.len(),
            b@ == s,
            d =~= s.skip(start as int),
            d == unsigned_digits(s),
            s == val.spec_bytes(),
            all_digits(d.take(i - start)),
            v == digits_value(d.take(i - start)),
        decreases b.len() - i,
    {
        let c = b[i];
        let ghost k: int = i - start;
        assert(d[k] == c);
        if c < ZERO || c > ZERO + 9 {
            assert(!is_digit(d[k]));
            return Err(val.to_owned());
        }
        let dv: usize = (c - ZERO) as usize;
        assert(d.take(k + 1).drop_last() =~= d.take(k));
        assert(d.take(k + 1).last() == c);
        assert(digits_value(d.take(k + 1)) == v * 10 + dv);
        if v > (usize::MAX - dv) / 10 {
            proof {
                assert(v * 10 + dv > usize::MAX) by (nonlinear_arith)
                    requires v > (usize::MAX - dv) / 10, dv <= 9;
                if all_digits(d) {
                    lemma_digits_value_prefix(d, k + 1, d.len() as int);
                    assert(d.take(d.len() as int) =~= d);
                }
            }
            return Err(val.to_owned());
        }
        assert(v * 10 + dv <= usize::MAX) by (nonlinear_arith)
            requires v <= (usize::MAX - dv) / 10, dv <= 9;
        v = v * 10 + dv;
        assert(all_digits(d.take(k + 1)));
        i += 1;
    }
    assert(d.take(d.len() as int) =~= d);
    if v == 0 {
        return Err(val.to_owned());
    }
    Ok(v)
}

/// Appends the bytes of `s`.
pub fn push_all(out: &mut Vec<u8>, s: &[u8])
    ensures
        final(out)@ == old(out)@ + s@,
{
    let ghost start = out@;
    let mut j: usize = 0;
    while j < s.len()
        invariant
            0 <= j <= s.len(),
            out@ == start + s@.take(j as int),
        decreases s.len() - j,
    {
        out.push(s[j]);
        assert(s@.take(j as int + 1) =~= s@.take(j as int).push(s@[j as int]));
        j += 1;
    }
    assert(s@.take(j as int) =~= s@);
}

/// Appends the base-ten text of `n`.
pub fn push_decimal(out: &mut Vec<u8>, n: usize)
    ensures
        final(out)@ == old(out)@ + decimal(n as nat),
    decreases n,
{
    if n < 10 {
        out.push(ZERO + n as u8);
    } else {
        push_decimal(out, n / 10);
        out.push(ZERO + (n % 10) as u8);
    }
}

/// The base-ten text of `n`.
pub fn decimal_text(n: usize) -> (r: Vec<u8>)
    ensures
        r@ == decimal(n as nat),
{
    let mut out: Vec<u8> = Vec::new();
    push_decimal(&mut out, n);
    assert(out@ =~= decimal(n as nat));
    out
}

/// Appends the base-ten text of `n`, right-justified in a field of `width`
/// bytes.
pub fn push_padded(out: &mut Vec<u8>, n: usize, width: usize)
    ensures
        final(out)@ == old(out)@ + pad_left(decimal(n as nat), width as nat),
{
    let digits = decimal_text(n);
    let mut k: usize = digits.len();
    let ghost start = out@;
    while k < width
        invariant
            digits.len() <= k <= width || k == digits.len(),
            out@ == start + Seq::new((k - digits.len()) as nat, |i: int| SPACE),
        decreases width - k,
    {
        out.push(SPACE);
        assert(start + Seq::new((k + 1 - digits.len()) as nat, |i: int| SPACE) =~= (start
            + Seq::new((k - digits.len()) as nat, |i: int| SPACE)).push(SPACE));
        k += 1;
    }
    push_all(out, digits.as_slice());
    if digits.len() < width {
        assert(out@ =~= start + pad_left(decimal(n as nat), width as nat));
    } else {
        assert(Seq::new((k - digits.len()) as nat, |i: int| SPACE) =~= Seq::<u8>::empty());
        assert(out@ =~= start + pad_left(decimal(n as nat), width as nat));
    }
}

} // verus!
