//! Decimal digit runs: the numeric value of a sequence of ASCII digit
//! characters, rendering a number back into (optionally zero-padded) digits,
//! and the verified executable routines for both directions.

use vstd::prelude::*;

use crate::error::{IntErrorKind, InvalidIntError};

verus! {

/// Whether `c` is an ASCII decimal digit (`'0'` through `'9'`).
pub open spec fn is_digit(c: char) -> bool {
    48 <= c as u32 <= 57
}

/// Numeric value of the ASCII digit `c`.
pub open spec fn digit_val(c: char) -> int {
    c as u32 - 48
}

/// Whether every character of `s` is an ASCII decimal digit.
pub open spec fn all_digits(s: Seq<char>) -> bool {
    forall|i: int| 0 <= i < s.len() ==> is_digit(#[trigger] s[i])
}

/// Numeric value of the digit run `s`, most significant digit first.
/// Characters outside `'0'..='9'` make the result meaningless; callers
/// guard with [`all_digits`].
pub open spec fn digits_val(s: Seq<char>) -> int
    decreases s.len(),
{
    if s.len() == 0 {
        0
    } else {
        digits_val(s.drop_last()) * 10 + digit_val(s.last())
    }
}

/// The digit character with value `d` (meaningful for `0 <= d <= 9`).
pub open spec fn digit_char(d: int) -> char {
    if d == 0 {
        '0'
    } else if d == 1 {
        '1'
    } else if d == 2 {
        '2'
    } else if d == 3 {
        '3'
    } else if d == 4 {
        '4'
    } else if d == 5 {
        '5'
    } else if d == 6 {
        '6'
    } else if d == 7 {
        '7'
    } else if d == 8 {
        '8'
    } else {
        '9'
    }
}

/// Decimal rendering of `n >= 0`, most significant digit first, no padding.
pub open spec fn dec_chars(n: int) -> Seq<char>
    decreases n,
{
    if n <= 9 {
        seq![digit_char(n)]
    } else {
        dec_chars(n / 10).push(digit_char(n % 10))
    }
}

/// A run of `n` zero characters (empty when `n <= 0`).
pub open spec fn zero_chars(n: int) -> Seq<char> {
    Seq::new(if n >= 0 { n as nat } else { 0 }, |i: int| '0')
}

/// Decimal rendering of `n >= 0`, left-padded with zeros to at least `w`
/// characters.
pub open spec fn padded_dec_chars(n: int, w: int) -> Seq<char> {
    zero_chars(w - dec_chars(n).len()) + dec_chars(n)
}

/// Result of reading a digit run as a number no greater than `max`:
/// the empty run, a stray character and a too-large value each fail
/// with the matching [`IntErrorKind`].
pub open spec fn spec_parse_dec(s: Seq<char>, max: int) -> Result<int, InvalidIntError> {
    if s.len() == 0 {
        Err(InvalidIntError { kind: IntErrorKind::Empty })
    } else if !all_digits(s) {
        Err(InvalidIntError { kind: IntErrorKind::InvalidDigit })
    } else if digits_val(s) > max {
        Err(InvalidIntError { kind: IntErrorKind::Overflow })
    } else {
        Ok(digits_val(s))
    }
}

/// A digit run denotes a non-negative value.
pub proof fn lemma_digits_val_nonneg(s: Seq<char>)
    requires
        all_digits(s),
    ensures
        digits_val(s) >= 0,
    decreases s.len(),
{
    if s.len() > 0 {
        assert(all_digits(s.drop_last())) by {
            assert(forall|i: int|
                0 <= i < s.len() - 1 ==> #[trigger] s.drop_last()[i] == s[i]);
        }
        lemma_digits_val_nonneg(s.drop_last());
    }
}

/// The value of a digit run is at least the value of any of its prefixes.
pub proof fn lemma_digits_val_prefix_le(s: Seq<char>, i: int)
    requires
        all_digits(s),
        0 <= i <= s.len(),
    ensures
        digits_val(s.subrange(0, i)) <= digits_val(s),
    decreases s.len() - i,
{
    if i < s.len() {
        let t = s.subrange(0, i + 1);
        assert(t.drop_last() =~= s.subrange(0, i));
        assert(all_digits(s.subrange(0, i)));
        lemma_digits_val_nonneg(s.subrange(0, i));
        assert(digits_val(t) == digits_val(s.subrange(0, i)) * 10 + digit_val(s[i]));
        assert(digits_val(s.subrange(0, i)) * 10 >= digits_val(s.subrange(0, i)))
            by (nonlinear_arith)
            requires digits_val(s.subrange(0, i)) >= 0;
        lemma_digits_val_prefix_le(s, i + 1);
        assert(s.subrange(0, s.len() as int) =~= s);
    } else {
        assert(s.subrange(0, i) =~= s);
    }
}

/// Rendering a number gives only digits, at least one of them, and reading
/// the run back yields the number.
pub proof fn lemma_dec_chars_val(n: int)
    requires
        n >= 0,
    ensures
        all_digits(dec_chars(n)),
        digits_val(dec_chars(n)) == n,
        dec_chars(n).len() >= 1,
    decreases n,
{
    if n <= 9 {
        assert(digits_val(dec_chars(n).drop_last()) == 0);
    } else {
        lemma_dec_chars_val(n / 10);
        let s = dec_chars(n);
        assert(s.drop_last() =~= dec_chars(n / 10));
        assert(digits_val(s) == (n / 10) * 10 + n % 10);
    }
}

/// A number below `10^k` renders in at most `k` digits; in particular the
/// year, month and day fields of a version fit their fixed-width slots.
pub proof fn lemma_dec_chars_len(n: int, k: int, p: int)
    requires
        0 <= n < p,
        k >= 1,
        p == pow10(k),
    ensures
        dec_chars(n).len() <= k,
    decreases k,
{
    if n <= 9 {
    } else {
        assert(k >= 2) by {
            if k == 1 {
                assert(pow10(1) == 10);
            }
        }
        assert(pow10(k) == pow10(k - 1) * 10);
        assert(n / 10 < pow10(k - 1)) by (nonlinear_arith)
            requires n < pow10(k - 1) * 10, n >= 0;
        lemma_dec_chars_len(n / 10, k - 1, pow10(k - 1));
    }
}

/// `10^k` (for `k >= 0`).
pub open spec fn pow10(k: int) -> int
    decreases k,
{
    if k <= 0 {
        1
    } else {
        pow10(k - 1) * 10
    }
}

/// Concatenating digit runs: the left run's value is scaled by ten to the
/// length of the right run.
pub proof fn lemma_digits_val_concat(a: Seq<char>, b: Seq<char>)
    ensures
        digits_val(a + b) == digits_val(a) * pow10(b.len() as int) + digits_val(b),
    decreases b.len(),
{
    if b.len() == 0 {
        assert(a + b =~= a);
    } else {
        lemma_digits_val_concat(a, b.drop_last());
        assert((a + b).drop_last() =~= a + b.drop_last());
        assert(digits_val(a + b) == digits_val(a + b.drop_last()) * 10 + digit_val(b.last()));
        assert(digits_val(b) == digits_val(b.drop_last()) * 10 + digit_val(b.last()));
        let va = digits_val(a);
        let vb = digits_val(b.drop_last());
        let p = pow10(b.len() - 1);
        assert((va * p + vb) * 10 == va * (p * 10) + vb * 10) by (nonlinear_arith);
    }
}

/// Leading zeros do not change the value of a digit run.
pub proof fn lemma_padded_val(n: int, w: int)
    requires
        n >= 0,
    ensures
        all_digits(padded_dec_chars(n, w)),
        digits_val(padded_dec_chars(n, w)) == n,
        padded_dec_chars(n, w).len() >= w,
        padded_dec_chars(n, w).len() >= dec_chars(n).len(),
{
    lemma_dec_chars_val(n);
    let k = w - dec_chars(n).len();
    lemma_zero_chars_val(k);
    lemma_digits_val_concat(zero_chars(k), dec_chars(n));
    assert(digits_val(zero_chars(k)) * pow10(dec_chars(n).len() as int) == 0) by (nonlinear_arith)
        requires digits_val(zero_chars(k)) == 0;
}

/// A run of zeros reads back as zero.
pub proof fn lemma_zero_chars_val(n: int)
    ensures
        all_digits(zero_chars(n)),
        digits_val(zero_chars(n)) == 0,
    decreases n,
{
    if n > 0 {
        lemma_zero_chars_val(n - 1);
        assert(zero_chars(n).drop_last() =~= zero_chars(n - 1));
    }
}

/// Reads the characters `s[lo..hi]` as a decimal number of value at most
/// `max`, reporting the empty run, a non-digit character, or a too-large
/// value exactly as [`spec_parse_dec`] does.
pub fn parse_dec(s: &str, lo: usize, hi: usize, max: u64) -> (r: Result<u64, InvalidIntError>)
    requires
        lo <= hi <= s@.len(),
        max <= u32::MAX,
    ensures
        match r {
            Ok(v) => spec_parse_dec(s@.subrange(lo as int, hi as int), max as int)
                == Ok::<int, InvalidIntError>(v as int),
            Err(e) => spec_parse_dec(s@.subrange(lo as int, hi as int), max as int)
                == Err::<int, InvalidIntError>(e),
        },
{
    let ghost run = s@.subrange(lo as int, hi as int);
    if lo == hi {
        return Err(InvalidIntError { kind: IntErrorKind::Empty });
    }
    let mut i: usize = lo;
    while i < hi
        invariant
            lo <= i <= hi <= s@.len(),
            run == s@.subrange(lo as int, hi as int),
            forall|j: int| lo <= j < i ==> is_digit(#[trigger] s@[j]),
        decreases hi - i,
    {
        let c = s.get_char(i);
        let u = c as u32;
        if !(48 <= u && u <= 57) {
            assert(!is_digit(s@[i as int]));
            assert(!all_digits(run)) by {
                assert(run[i - lo] == s@[i as int]);
            }
            return Err(InvalidIntError { kind: IntErrorKind::InvalidDigit });
        }
        i = i + 1;
    }
    assert(all_digits(run)) by {
        assert(forall|j: int| 0 <= j < run.len() ==> run[j] == s@[lo + j]);
    }
    let mut acc: u64 = 0;
    let mut i: usize = lo;
    proof {
        assert(run.subrange(0, 0) =~= Seq::<char>::empty());
    }
    while i < hi
        invariant
            lo <= i <= hi <= s@.len(),
            max <= u32::MAX,
            run == s@.subrange(lo as int, hi as int),
            all_digits(run),
            acc == digits_val(run.subrange(0, i - lo)),
            acc <= max,
        decreases hi - i,
    {
        let c = s.get_char(i);
        proof {
            assert(run[i - lo] == s@[i as int]);
            assert(is_digit(s@[i as int]));
            assert(run.subrange(0, i + 1 - lo).drop_last() =~= run.subrange(0, i - lo));
        }
        let d = (c as u32 - 48) as u64;
        let next = acc * 10 + d;
        assert(next == digits_val(run.subrange(0, i + 1 - lo)));
        if next > max {
            proof {
                lemma_digits_val_prefix_le(run, i + 1 - lo);
            }
            return Err(InvalidIntError { kind: IntErrorKind::Overflow });
        }
        acc = next;
        i = i + 1;
    }
    proof {
        assert(run.subrange(0, hi - lo) =~= run);
    }
    Ok(acc)
}

/// Appends the unpadded decimal rendering of `n` to `out`.
pub fn push_dec(out: &mut String, n: u32)
    ensures
        final(out)@ == old(out)@ + dec_chars(n as int),
    decreases n,
{
    if n > 9 {
        push_dec(out, n / 10);
    }
    out.append(digit_str(n % 10));
    proof {
        if n > 9 {
            assert(old(out)@ + dec_chars((n / 10) as int) + seq![digit_char((n % 10) as int)]
                =~= old(out)@ + dec_chars(n as int));
        } else {
            assert(old(out)@ + seq![digit_char(n as int)] =~= old(out)@ + dec_chars(n as int));
        }
    }
}

/// Appends the decimal rendering of `n`, left-padded with zeros to at least
/// `width` characters.
pub fn push_dec_padded(out: &mut String, n: u32, width: usize)
    ensures
        final(out)@ == old(out)@ + padded_dec_chars(n as int, width as int),
{
    proof {
        lemma_dec_chars_val(n as int);
    }
    let digits = count_dec_digits(n);
    let mut pad: usize = 0;
    while pad + digits < width
        invariant
            digits == dec_chars(n as int).len(),
            pad + digits <= width || pad == 0,
            out@ == old(out)@ + zero_chars(pad as int),
        decreases width - pad,
    {
        out.append("0");
        proof {
            assert(old(out)@ + zero_chars(pad as int) + "0"@ =~= old(out)@ + zero_chars(
                pad + 1,
            )) by {
                reveal_strlit("0");
            }
        }
        pad = pad + 1;
    }
    assert(pad as int == if width - digits >= 0 { width - digits } else { 0 });
    push_dec(out, n);
    proof {
        assert(old(out)@ + zero_chars(pad as int) + dec_chars(n as int) =~= old(out)@
            + padded_dec_chars(n as int, width as int));
    }
}

/// Any `u32` renders in at most ten digits.
pub proof fn lemma_dec_chars_len_u32(n: int)
    requires
        0 <= n <= u32::MAX,
    ensures
        dec_chars(n).len() <= 10,
{
    assert(pow10(10) == 10000000000) by {
        assert(pow10(0) == 1);
        assert(pow10(1) == 10);
        assert(pow10(2) == 100);
        assert(pow10(3) == 1000);
        assert(pow10(4) == 10000);
        assert(pow10(5) == 100000);
        assert(pow10(6) == 1000000);
        assert(pow10(7) == 10000000);
        assert(pow10(8) == 100000000);
        assert(pow10(9) == 1000000000);
    }
    lemma_dec_chars_len(n, 10, pow10(10));
}

/// Number of digits in the decimal rendering of `n`.
fn count_dec_digits(n: u32) -> (r: usize)
    ensures
        r == dec_chars(n as int).len(),
        r <= 10,
    decreases n,
{
    proof {
        lemma_dec_chars_len_u32(n as int);
    }
    if n <= 9 {
        1
    } else {
        let rest = count_dec_digits(n / 10);
        assert(dec_chars(n as int).len() == dec_chars((n / 10) as int).len() + 1);
        rest + 1
    }
}

/// The single-character string for the digit of value `d % 10`.
fn digit_str(d: u32) -> (r: &'static str)
    ensures
        r@ == seq![digit_char((d % 10) as int)],
{
    let m = d % 10;
    let r = if m == 0 {
        "0"
    } else if m == 1 {
        "1"
    } else if m == 2 {
        "2"
    } else if m == 3 {
        "3"
    } else if m == 4 {
        "4"
    } else if m == 5 {
        "5"
    } else if m == 6 {
        "6"
    } else if m == 7 {
        "7"
    } else if m == 8 {
        "8"
    } else {
        "9"
    };
    proof {
        reveal_strlit("0");
        reveal_strlit("1");
        reveal_strlit("2");
        reveal_strlit("3");
        reveal_strlit("4");
        reveal_strlit("5");
        reveal_strlit("6");
        reveal_strlit("7");
        reveal_strlit("8");
        reveal_strlit("9");
        assert(r@ =~= seq![digit_char((d % 10) as int)]);
    }
    r
}

} // verus!
