//! Decimal integer text and float literal text.
//!
//! `int_of_text` gives the mathematical value of a decimal integer literal
//! exactly as the standard library's integer parsing accepts it: an optional
//! sign followed by one or more ASCII digits. `is_float_text` is the grammar
//! of float literals that the standard library's float parsing accepts.

use vstd::prelude::*;
use crate::text::{all_digits, digit_char, digit_val, is_digit_char};

verus! {

// ---------------------------------------------------------------------------
// Integer text: value
// ---------------------------------------------------------------------------

/// Value of a digit string read as decimal (most significant digit first).
pub open spec fn dec_uval(s: Seq<char>) -> int
    decreases s.len(),
{
    if s.len() == 0 {
        0
    } else {
        dec_uval(s.drop_last()) * 10 + digit_val(s.last())
    }
}

/// A non-empty string of ASCII digits.
pub open spec fn is_digit_seq(s: Seq<char>) -> bool {
    s.len() > 0 && all_digits(s)
}

/// The integer denoted by `s`, if `s` is an optional `+` or `-` sign
/// followed by one or more digits; `None` otherwise.
pub open spec fn int_of_text(s: Seq<char>) -> Option<int> {
    if s.len() > 0 && (s[0] == '+' || s[0] == '-') {
        if is_digit_seq(s.skip(1)) {
            if s[0] == '-' {
                Some(-dec_uval(s.skip(1)))
            } else {
                Some(dec_uval(s.skip(1)))
            }
        } else {
            None
        }
    } else {
        if is_digit_seq(s) {
            Some(dec_uval(s))
        } else {
            None
        }
    }
}

pub proof fn lemma_dec_uval_nonneg(s: Seq<char>)
    requires
        all_digits(s),
    ensures
        dec_uval(s) >= 0,
    decreases s.len(),
{
    if s.len() > 0 {
        assert(all_digits(s.drop_last())) by {
            assert(forall|i: int|
                0 <= i < s.len() - 1 ==> #[trigger] s.drop_last()[i] == s[i]);
        }
        lemma_dec_uval_nonneg(s.drop_last());
    }
}

/// Extending a digit string with further digits never lowers its value.
pub proof fn lemma_dec_uval_prefix_le(s: Seq<char>, k: int)
    requires
        all_digits(s),
        0 <= k <= s.len(),
    ensures
        dec_uval(s.subrange(0, k)) <= dec_uval(s),
    decreases s.len() - k,
{
    if k < s.len() {
        let t = s.subrange(0, k + 1);
        assert(t.drop_last() =~= s.subrange(0, k));
        assert(all_digits(t));
        lemma_dec_uval_nonneg(t.drop_last());
        assert(dec_uval(t) == dec_uval(s.subrange(0, k)) * 10 + digit_val(s[k]));
        assert(digit_val(s[k]) >= 0);
        lemma_dec_uval_prefix_le(s, k + 1);
    } else {
        assert(s.subrange(0, k) =~= s);
    }
}

// ---------------------------------------------------------------------------
// Integer text: executable parsing
// ---------------------------------------------------------------------------

/// Parses decimal integer text into a sign and a magnitude.
///
/// Returns `Some((neg, mag))` when `s` denotes the integer `-mag` (if `neg`)
/// or `mag`, and `None` when `s` is malformed or its magnitude exceeds
/// `u64::MAX` (and is then out of range of every GBLN integer type).
pub(crate) fn parse_int_text(s: &str) -> (r: Option<(bool, u64)>)
    ensures
        match r {
            Some(p) => {
                &&& int_of_text(s@) == Some(
                    if p.0 {
                        -(p.1 as int)
                    } else {
                        p.1 as int
                    },
                )
                &&& p.0 == (s@.len() > 0 && s@[0] == '-')
            },
            None => match int_of_text(s@) {
                Some(n) => n > u64::MAX || n < -(u64::MAX as int),
                None => true,
            },
        },
{
    let n = s.unicode_len();
    if n == 0 {
        return None;
    }
    let first = s.get_char(0);
    let neg = first == '-';
    let b: usize = if first == '-' || first == '+' {
        1
    } else {
        0
    };
    if b == n {
        // a bare sign has no digits
        return None;
    }
    let ghost body = s@.skip(b as int);
    proof {
        assert(body.len() == n - b);
        if b == 0 {
            assert(s@.skip(0) =~= s@);
        }
        assert(s@.subrange(b as int, b as int) =~= Seq::<char>::empty());
    }
    let mut i: usize = b;
    let mut acc: u64 = 0;
    while i < n
        invariant
            n == s@.len(),
            b <= i <= n,
            b < n,
            b == 0 || b == 1,
            (b == 1) == (s@[0] == '+' || s@[0] == '-'),
            neg == (s@[0] == '-'),
            body == s@.skip(b as int),
            forall|j: int| b <= j < i ==> is_digit_char(#[trigger] s@[j]),
            acc == dec_uval(s@.subrange(b as int, i as int)),
        decreases n - i,
    {
        let c = s.get_char(i);
        if !(c >= '0' && c <= '9') {
            proof {
                assert(!is_digit_char(c));
                assert(body[i - b] == s@[i as int]);
                assert(!all_digits(body));
                assert(int_of_text(s@) is None);
            }
            return None;
        }
        let d: u64 = ((c as u32) - 48) as u64;
        proof {
            assert(d == digit_val(c));
        }
        let ghost pref = s@.subrange(b as int, i as int);
        let ghost pref1 = s@.subrange(b as int, i + 1);
        proof {
            assert(pref1.drop_last() =~= pref);
            assert(pref1.last() == s@[i as int]);
        }
        if acc > (u64::MAX - d) / 10 {
            proof {
                assert(acc * 10 + d > u64::MAX) by (nonlinear_arith)
                    requires
                        acc > (u64::MAX - d) / 10,
                        d <= 9,
                        u64::MAX == 0xffff_ffff_ffff_ffff,
                ;
                assert(pref1.len() == i + 1 - b);
                assert(dec_uval(pref1) == acc * 10 + digit_val(s@[i as int]));
                assert(dec_uval(pref1) > u64::MAX);
                if b == 0 {
                    assert(s@.skip(0) =~= s@);
                }
                match int_of_text(s@) {
                    Some(nn) => {
                        assert(all_digits(body));
                        assert forall|j: int| 0 <= j < i + 1 - b implies pref1[j] == body[j] by {
                            assert(pref1[j] == s@[b + j]);
                            assert(body[j] == s@[b + j]);
                        }
                        assert(pref1 =~= body.subrange(0, i + 1 - b));
                        lemma_dec_uval_prefix_le(body, i + 1 - b);
                        assert(dec_uval(body) > u64::MAX);
                        if b == 1 && s@[0] == '-' {
                            assert(nn == -dec_uval(body));
                            assert(nn < -(u64::MAX as int));
                        } else {
                            assert(nn == dec_uval(body));
                            assert(nn > u64::MAX);
                        }
                    },
                    None => {},
                }
            }
            return None;
        }
        let next: u64 = acc * 10 + d;
        proof {
            assert(acc * 10 + d <= u64::MAX) by (nonlinear_arith)
                requires
                    acc <= (u64::MAX - d) / 10,
                    d <= 9,
                    u64::MAX == 0xffff_ffff_ffff_ffff,
            ;
        }
        acc = next;
        i += 1;
    }
    proof {
        assert(s@.subrange(b as int, n as int) =~= body);
        assert(all_digits(body)) by {
            assert(forall|j: int|
                0 <= j < body.len() ==> #[trigger] body[j] == s@[j + b]);
        }
        assert(is_digit_seq(body));
    }
    Some((neg, acc))
}

// ---------------------------------------------------------------------------
// Integer text: rendering
// ---------------------------------------------------------------------------

/// Canonical decimal text of a non-negative integer.
pub open spec fn dec_text(n: int) -> Seq<char>
    decreases n,
{
    if n < 10 {
        seq![digit_char(n)]
    } else {
        dec_text(n / 10).push(digit_char(n % 10))
    }
}

/// Canonical decimal text of an integer: a `-` sign for negative values,
/// then the digits, with no leading zeros.
pub open spec fn int_text(n: int) -> Seq<char> {
    if n < 0 {
        seq!['-'] + dec_text(-n)
    } else {
        dec_text(n)
    }
}

/// Appends the decimal text of `n` to `out`.
pub(crate) fn push_u64_text(out: &mut Vec<char>, n: u64)
    ensures
        final(out)@ == old(out)@ + dec_text(n as int),
    decreases n,
{
    if n < 10 {
        let c = ((n as u8) + 48) as char;
        proof {
            assert(c == digit_char(n as int));
        }
        out.push(c);
        assert(out@ =~= old(out)@ + dec_text(n as int));
    } else {
        push_u64_text(out, n / 10);
        let d = n % 10;
        let c = ((d as u8) + 48) as char;
        proof {
            assert(c == digit_char(n as int % 10));
        }
        out.push(c);
        assert(out@ =~= old(out)@ + dec_text(n as int));
    }
}

/// Appends the decimal text of `n` to `out`, with a `-` sign if negative.
pub(crate) fn push_i64_text(out: &mut Vec<char>, n: i64)
    ensures
        final(out)@ == old(out)@ + int_text(n as int),
{
    if n >= 0 {
        push_u64_text(out, n as u64);
    } else {
        out.push('-');
        let mag: u64 = ((-(n as i128)) as u64);
        proof {
            assert(mag == -(n as int));
        }
        push_u64_text(out, mag);
        assert(out@ =~= old(out)@ + int_text(n as int));
    }
}

/// Rendered integer text parses back to the same value.
pub proof fn lemma_dec_text_digits(n: int)
    requires
        n >= 0,
    ensures
        all_digits(dec_text(n)),
        dec_text(n).len() > 0,
        dec_uval(dec_text(n)) == n,
    decreases n,
{
    if n < 10 {
        let t = dec_text(n);
        assert(t =~= seq![digit_char(n)]);
        assert(digit_char(n) as u32 == n + 48);
        assert(is_digit_char(digit_char(n)));
        assert(t.drop_last() =~= Seq::<char>::empty());
        assert(dec_uval(t.drop_last()) == 0);
        assert(t.last() == digit_char(n));
        assert(dec_uval(t) == digit_val(digit_char(n)));
        assert(digit_val(digit_char(n)) == n);
    } else {
        lemma_dec_text_digits(n / 10);
        let t = dec_text(n);
        assert(t.drop_last() =~= dec_text(n / 10));
        assert(t.last() == digit_char(n % 10));
        assert(is_digit_char(digit_char(n % 10)));
        assert(all_digits(t)) by {
            assert(forall|i: int|
                0 <= i < t.len() - 1 ==> t[i] == #[trigger] dec_text(n / 10)[i]);
        }
        assert(digit_val(digit_char(n % 10)) == n % 10);
        assert(dec_uval(t) == (n / 10) * 10 + n % 10);
        assert((n / 10) * 10 + n % 10 == n) by (nonlinear_arith);
    }
}

/// `int_of_text` inverts `int_text`.
pub proof fn lemma_int_text_roundtrip(n: int)
    ensures
        int_of_text(int_text(n)) == Some(n),
{
    if n >= 0 {
        lemma_dec_text_digits(n);
        let t = dec_text(n);
        assert(is_digit_char(t[0]));
        assert(t[0] != '+' && t[0] != '-');
    } else {
        lemma_dec_text_digits(-n);
        let t = int_text(n);
        assert(t[0] == '-');
        assert(t.skip(1) =~= dec_text(-n));
    }
}

// ---------------------------------------------------------------------------
// Float literal text
// ---------------------------------------------------------------------------

/// End of the run of digits starting at `i`, bounded by `hi`.
pub open spec fn digits_end(s: Seq<char>, i: int, hi: int) -> int
    decreases hi - i,
{
    if i < hi && i < s.len() && 0 <= i && is_digit_char(s[i]) {
        digits_end(s, i + 1, hi)
    } else {
        i
    }
}

/// Every character in `[lo, hi)` is a digit.
pub open spec fn all_digits_range(s: Seq<char>, lo: int, hi: int) -> bool {
    forall|j: int| lo <= j < hi ==> is_digit_char(#[trigger] s[j])
}

/// `s[lo..hi]` is a mantissa: `digits+`, `digits+ . digits*`,
/// or `. digits+`.
pub open spec fn mantissa_ok(s: Seq<char>, lo: int, hi: int) -> bool {
    let d = digits_end(s, lo, hi);
    if lo >= hi || hi > s.len() || lo < 0 {
        false
    } else if d == hi {
        true
    } else if s[d] == '.' {
        if d > lo {
            all_digits_range(s, d + 1, hi)
        } else {
            d + 1 < hi && all_digits_range(s, d + 1, hi)
        }
    } else {
        false
    }
}

/// First `e` or `E` at or after `i`, bounded by `hi`.
pub open spec fn e_pos(s: Seq<char>, i: int, hi: int) -> int
    decreases hi - i,
{
    if i < hi && i < s.len() && 0 <= i {
        if s[i] == 'e' || s[i] == 'E' {
            i
        } else {
            e_pos(s, i + 1, hi)
        }
    } else {
        i
    }
}

/// `s[lo..hi]` is an exponent body: an optional sign, then `digits+`.
pub open spec fn exp_ok(s: Seq<char>, lo: int, hi: int) -> bool {
    if lo < 0 || hi > s.len() || lo >= hi {
        false
    } else {
        let l2 = if s[lo] == '+' || s[lo] == '-' {
            lo + 1
        } else {
            lo
        };
        l2 < hi && all_digits_range(s, l2, hi)
    }
}

/// `s[lo..hi]` is a number: a mantissa with an optional exponent.
pub open spec fn number_ok(s: Seq<char>, lo: int, hi: int) -> bool {
    let k = e_pos(s, lo, hi);
    if k == hi {
        mantissa_ok(s, lo, hi)
    } else {
        mantissa_ok(s, lo, k) && exp_ok(s, k + 1, hi)
    }
}

/// ASCII lowercase folding of one character.
pub open spec fn lower_c(c: char) -> char {
    if 'A' <= c && c <= 'Z' {
        (((c as u8) + 32) as u8) as char
    } else {
        c
    }
}

/// `s[lo..hi]` spells `inf`, `infinity`, or `nan`, in any letter case.
pub open spec fn inf_nan_ok(s: Seq<char>, lo: int, hi: int) -> bool {
    if lo < 0 || hi > s.len() {
        false
    } else if hi - lo == 3 {
        (lower_c(s[lo]) == 'i' && lower_c(s[lo + 1]) == 'n' && lower_c(s[lo + 2]) == 'f') || (
        lower_c(s[lo]) == 'n' && lower_c(s[lo + 1]) == 'a' && lower_c(s[lo + 2]) == 'n')
    } else if hi - lo == 8 {
        lower_c(s[lo]) == 'i' && lower_c(s[lo + 1]) == 'n' && lower_c(s[lo + 2]) == 'f'
            && lower_c(s[lo + 3]) == 'i' && lower_c(s[lo + 4]) == 'n' && lower_c(s[lo + 5]) == 'i'
            && lower_c(s[lo + 6]) == 't' && lower_c(s[lo + 7]) == 'y'
    } else {
        false
    }
}

/// `s` is a float literal as the standard library's float parsing accepts
/// it: an optional sign, then `inf`, `infinity`, `nan` (any case), or a
/// number with an optional exponent.
pub open spec fn is_float_text(s: Seq<char>) -> bool {
    let lo: int = if s.len() > 0 && (s[0] == '+' || s[0] == '-') {
        1
    } else {
        0
    };
    inf_nan_ok(s, lo, s.len() as int) || number_ok(s, lo, s.len() as int)
}

// ---------------------------------------------------------------------------
// Float literal text: executable check
// ---------------------------------------------------------------------------

/// ASCII lowercase folding of one character.
fn lower_char(c: char) -> (r: char)
    ensures
        r == lower_c(c),
{
    if c >= 'A' && c <= 'Z' {
        (((c as u8) + 32) as u8) as char
    } else {
        c
    }
}

/// End of the digit run starting at `i` (executable form of [`digits_end`]).
fn scan_digits(s: &str, i: usize, hi: usize) -> (r: usize)
    requires
        i <= hi,
        hi <= s@.len(),
    ensures
        r == digits_end(s@, i as int, hi as int),
        i <= r <= hi,
    decreases hi - i,
{
    if i < hi {
        let c = s.get_char(i);
        if c >= '0' && c <= '9' {
            return scan_digits(s, i + 1, hi);
        }
    }
    i
}

/// First `e` or `E` at or after `i` (executable form of [`e_pos`]).
fn scan_e(s: &str, i: usize, hi: usize) -> (r: usize)
    requires
        i <= hi,
        hi <= s@.len(),
    ensures
        r == e_pos(s@, i as int, hi as int),
        i <= r <= hi,
    decreases hi - i,
{
    if i < hi {
        let c = s.get_char(i);
        if c == 'e' || c == 'E' {
            return i;
        }
        return scan_e(s, i + 1, hi);
    }
    i
}

/// Whether every character in `[lo, hi)` is a digit.
fn check_digits_range(s: &str, lo: usize, hi: usize) -> (r: bool)
    requires
        lo <= hi,
        hi <= s@.len(),
    ensures
        r == all_digits_range(s@, lo as int, hi as int),
{
    let mut i = lo;
    while i < hi
        invariant
            lo <= i <= hi,
            hi <= s@.len(),
            forall|j: int| lo <= j < i ==> is_digit_char(#[trigger] s@[j]),
        decreases hi - i,
    {
        let c = s.get_char(i);
        if !(c >= '0' && c <= '9') {
            return false;
        }
        i += 1;
    }
    true
}

/// Executable form of [`mantissa_ok`].
fn check_mantissa(s: &str, lo: usize, hi: usize) -> (r: bool)
    requires
        hi <= s@.len(),
        lo <= hi,
    ensures
        r == mantissa_ok(s@, lo as int, hi as int),
{
    if lo >= hi {
        return false;
    }
    let d = scan_digits(s, lo, hi);
    if d == hi {
        true
    } else if s.get_char(d) == '.' {
        if d > lo {
            check_digits_range(s, d + 1, hi)
        } else {
            d + 1 < hi && check_digits_range(s, d + 1, hi)
        }
    } else {
        false
    }
}

/// Executable form of [`exp_ok`].
fn check_exp(s: &str, lo: usize, hi: usize) -> (r: bool)
    requires
        hi <= s@.len(),
        lo <= hi,
    ensures
        r == exp_ok(s@, lo as int, hi as int),
{
    if lo >= hi {
        return false;
    }
    let c = s.get_char(lo);
    let l2: usize = if c == '+' || c == '-' {
        lo + 1
    } else {
        lo
    };
    l2 < hi && check_digits_range(s, l2, hi)
}

/// Executable form of [`inf_nan_ok`].
fn check_inf_nan(s: &str, lo: usize, hi: usize) -> (r: bool)
    requires
        hi <= s@.len(),
        lo <= hi,
    ensures
        r == inf_nan_ok(s@, lo as int, hi as int),
{
    if hi - lo == 3 {
        let c0 = lower_char(s.get_char(lo));
        let c1 = lower_char(s.get_char(lo + 1));
        let c2 = lower_char(s.get_char(lo + 2));
        (c0 == 'i' && c1 == 'n' && c2 == 'f') || (c0 == 'n' && c1 == 'a' && c2 == 'n')
    } else if hi - lo == 8 {
        let c0 = lower_char(s.get_char(lo));
        let c1 = lower_char(s.get_char(lo + 1));
        let c2 = lower_char(s.get_char(lo + 2));
        let c3 = lower_char(s.get_char(lo + 3));
        let c4 = lower_char(s.get_char(lo + 4));
        let c5 = lower_char(s.get_char(lo + 5));
        let c6 = lower_char(s.get_char(lo + 6));
        let c7 = lower_char(s.get_char(lo + 7));
        c0 == 'i' && c1 == 'n' && c2 == 'f' && c3 == 'i' && c4 == 'n' && c5 == 'i' && c6 == 't'
            && c7 == 'y'
    } else {
        false
    }
}

/// Whether `s` is a float literal (executable form of [`is_float_text`]).
pub(crate) fn check_float_text(s: &str) -> (r: bool)
    ensures
        r == is_float_text(s@),
{
    let n = s.unicode_len();
    let lo: usize = if n > 0 {
        let c = s.get_char(0);
        if c == '+' || c == '-' {
            1
        } else {
            0
        }
    } else {
        0
    };
    if check_inf_nan(s, lo, n) {
        return true;
    }
    let k = scan_e(s, lo, n);
    if k == n {
        check_mantissa(s, lo, n)
    } else {
        check_mantissa(s, lo, k) && check_exp(s, k + 1, n)
    }
}

} // verus!
