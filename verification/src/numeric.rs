//! Decimal-string arithmetic for arbitrary-precision token amounts.
//!
//! Amounts and balances travel through the pipeline as decimal strings, since
//! they routinely exceed the 64-bit range.  This module gives those strings a
//! mathematical meaning (`int_val`), defines the canonical decimal rendering
//! of an integer (`dec_rep`), and wraps the big-integer operations the core
//! needs behind exact contracts.

use vstd::prelude::*;
use std::str::FromStr;

verus! {

/// A decimal digit, by code point.
pub open spec fn is_digit(c: char) -> bool {
    48 <= c as int && c as int <= 57
}

/// The numeric value of a decimal digit.
pub open spec fn digit_val(c: char) -> int {
    c as int - 48
}

pub open spec fn all_digits(s: Seq<char>) -> bool {
    forall|i: int| 0 <= i < s.len() ==> is_digit(#[trigger] s[i])
}

/// The number denoted by a digit sequence, most significant digit first.
pub open spec fn digits_val(s: Seq<char>) -> int
    decreases s.len(),
{
    if s.len() == 0 {
        0
    } else {
        digits_val(s.drop_last()) * 10 + digit_val(s.last())
    }
}

/// Whether `s` is a well-formed integer string: an optionally signed,
/// non-empty run of decimal digits.  This is the encoding the extractor
/// produces for amounts and the ledger produces for balances; anything
/// else is treated as malformed and counts as zero.
pub open spec fn is_int_str(s: Seq<char>) -> bool {
    if s.len() > 0 && (s[0] == '-' || s[0] == '+') {
        s.len() > 1 && all_digits(s.skip(1))
    } else {
        s.len() > 0 && all_digits(s)
    }
}

/// The signed value denoted by an integer string (meaningful under `is_int_str`).
pub open spec fn int_val(s: Seq<char>) -> int {
    if s.len() > 0 && s[0] == '-' {
        -digits_val(s.skip(1))
    } else if s.len() > 0 && s[0] == '+' {
        digits_val(s.skip(1))
    } else {
        digits_val(s)
    }
}

/// Fail-soft reading of a numeric field: a malformed string counts as zero.
pub open spec fn val_or_zero(s: Seq<char>) -> int {
    if is_int_str(s) {
        int_val(s)
    } else {
        0
    }
}

pub open spec fn digit_char(d: int) -> char {
    if d == 0 {
        '0'
    } else if d == 1 {
        '1'
    } else if d == 2 {
        '2'
    } else if d == 3 {
        '3'
    } else if d == 4 {
        '4'
    } else if d == 5 {
        '5'
    } else if d == 6 {
        '6'
    } else if d == 7 {
        '7'
    } else if d == 8 {
        '8'
    } else {
        '9'
    }
}

/// The decimal digits of a non-negative number, without leading zeros
/// (a lone `'0'` for zero).
pub open spec fn dec_digits(n: nat) -> Seq<char>
    decreases n,
{
    if n < 10 {
        seq![digit_char(n as int)]
    } else {
        dec_digits(n / 10) + seq![digit_char((n % 10) as int)]
    }
}

/// The canonical decimal rendering of a signed number: what the big-integer
/// library's display produces.
pub open spec fn dec_rep(v: int) -> Seq<char> {
    if v < 0 {
        seq!['-'] + dec_digits((-v) as nat)
    } else {
        dec_digits(v as nat)
    }
}

pub proof fn lemma_dec_digits(n: nat)
    ensures
        all_digits(dec_digits(n)),
        digits_val(dec_digits(n)) == n,
        dec_digits(n).len() >= 1,
        dec_digits(n)[0] != '-',
        dec_digits(n)[0] != '+',
    decreases n,
{
    if n < 10 {
        let s1 = seq![digit_char(n as int)];
        assert(dec_digits(n) =~= s1);
        assert(s1.drop_last() =~= Seq::<char>::empty());
        assert(digits_val(Seq::<char>::empty()) == 0);
        assert(digits_val(s1) == 0 * 10 + digit_val(s1.last()));
    } else {
        lemma_dec_digits(n / 10);
        let d = dec_digits(n / 10);
        let whole = dec_digits(n);
        assert(whole =~= d + seq![digit_char((n % 10) as int)]);
        assert(whole.drop_last() =~= d);
        assert(whole.last() == digit_char((n % 10) as int));
        assert(digits_val(whole) == digits_val(d) * 10 + digit_val(digit_char((n % 10) as int)));
        assert(digit_val(digit_char((n % 10) as int)) == n % 10);
        assert(digits_val(d) * 10 + n % 10 == n) by {
            assert(n == 10 * (n / 10) + n % 10) by (nonlinear_arith);
            assert(digits_val(d) == n / 10);
        }
    }
}

/// Rendering and reading are inverse: the canonical rendering of `v` is a
/// well-formed integer string denoting `v`.
pub proof fn lemma_dec_rep(v: int)
    ensures
        is_int_str(dec_rep(v)),
        int_val(dec_rep(v)) == v,
        val_or_zero(dec_rep(v)) == v,
{
    if v < 0 {
        lemma_dec_digits((-v) as nat);
        let d = dec_digits((-v) as nat);
        let s = dec_rep(v);
        assert(s =~= seq!['-'] + d);
        assert(s[0] == '-');
        assert(s.skip(1) =~= d);
        assert(int_val(s) == -digits_val(d));
    } else {
        lemma_dec_digits(v as nat);
    }
}

/// Only zero renders canonically as `"0"`.
pub proof fn lemma_dec_rep_zero(v: int)
    ensures
        (dec_rep(v) == seq!['0']) <==> (v == 0),
{
    lemma_dec_rep(v);
    if dec_rep(v) == seq!['0'] {
        let s1 = seq!['0'];
        assert(int_val(s1) == digits_val(s1));
        assert(s1.drop_last() =~= Seq::<char>::empty());
        assert(digits_val(Seq::<char>::empty()) == 0);
        assert(digits_val(s1) == 0 * 10 + digit_val(s1.last()));
    }
    if v == 0 {
        assert(dec_rep(0) =~= seq![digit_char(0)]);
    }
}

/// Whether a string is a well-formed optionally signed decimal integer.
pub fn check_int_str(s: &str) -> (r: bool)
    ensures
        r == is_int_str(s@),
{
    let n = s.unicode_len();
    if n == 0 {
        return false;
    }
    let first = s.get_char(0);
    let fu = first as u32;
    let signed: bool = fu == 45 || fu == 43;
    proof {
        assert('-' as u32 == 45);
        assert('+' as u32 == 43);
        assert(first == s@[0]);
        assert(signed == (s@[0] == '-' || s@[0] == '+'));
    }
    let start: usize = if signed { 1 } else { 0 };
    if signed && n == 1 {
        return false;
    }
    let mut i: usize = start;
    while i < n
        invariant
            start <= i <= n,
            start <= 1,
            n == s@.len(),
            start == 1 ==> (s@[0] == '-' || s@[0] == '+'),
            start == 0 ==> !(s@[0] == '-' || s@[0] == '+'),
            n > start,
            forall|k: int| start <= k < i ==> is_digit(#[trigger] s@[k]),
        decreases n - i,
    {
        let c = s.get_char(i);
        let u = c as u32;
        if !(48 <= u && u <= 57) {
            proof {
                assert(!is_digit(s@[i as int]));
                if start == 1 {
                    assert(0 <= i - 1 < s@.skip(1).len());
                    assert(s@.skip(1)[i - 1] == s@[i as int]);
                    assert(!all_digits(s@.skip(1)));
                    assert(!is_int_str(s@));
                } else {
                    assert(!(s@[0] == '-' || s@[0] == '+'));
                    assert(!all_digits(s@));
                    assert(!is_int_str(s@));
                }
            }
            return false;
        }
        i += 1;
    }
    proof {
        if start == 1 {
            assert(forall|k: int| 0 <= k < s@.skip(1).len() ==> is_digit(#[trigger] s@.skip(1)[k])) by {
                assert(forall|k: int| 0 <= k < s@.skip(1).len() ==> s@.skip(1)[k] == s@[k + 1]);
            }
        }
    }
    true
}

/// The fail-soft normalization of a numeric field: the string itself when it
/// is a well-formed integer, `"0"` otherwise.
pub fn or_zero(s: &str) -> (r: String)
    ensures
        is_int_str(s@) ==> r@ == s@,
        !is_int_str(s@) ==> r@ == seq!['0'],
        is_int_str(r@),
        int_val(r@) == val_or_zero(s@),
{
    if check_int_str(s) {
        s.to_owned()
    } else {
        zero_string()
    }
}

/// The canonical zero balance string.
pub fn zero_string() -> (r: String)
    ensures
        r@ == seq!['0'],
        is_int_str(r@),
        int_val(r@) == 0,
{
    let z = "0".to_owned();
    proof {
        reveal_strlit("0");
        assert(z@ =~= seq!['0']);
        lemma_dec_rep(0);
        assert(dec_rep(0) =~= seq!['0']);
    }
    z
}

/// Relies on `num_bigint::BigInt`: `FromStr` reads an optionally signed
/// decimal string, `Add` is exact integer addition, and `Display` renders
/// the sign and the decimal digits without leading zeros.
#[verifier::external_body]
pub(crate) fn big_add(a: &str, b: &str) -> (r: String)
    requires
        is_int_str(a@),
        is_int_str(b@),
    ensures
        r@ == dec_rep(int_val(a@) + int_val(b@)),
{
    let x = num_bigint::BigInt::from_str(a).unwrap();
    let y = num_bigint::BigInt::from_str(b).unwrap();
    (x + y).to_string()
}

/// Relies on `num_bigint::BigInt`: `FromStr` reads an optionally signed
/// decimal string, `Sub` is exact integer subtraction, and `Display` renders
/// the sign and the decimal digits without leading zeros.
#[verifier::external_body]
pub(crate) fn big_sub(a: &str, b: &str) -> (r: String)
    requires
        is_int_str(a@),
        is_int_str(b@),
    ensures
        r@ == dec_rep(int_val(a@) - int_val(b@)),
{
    let x = num_bigint::BigInt::from_str(a).unwrap();
    let y = num_bigint::BigInt::from_str(b).unwrap();
    (x - y).to_string()
}

/// Relies on `num_bigint::BigInt`: `FromStr` reads an optionally signed
/// decimal string and `Ord` is exact integer comparison.
#[verifier::external_body]
pub(crate) fn big_ge(a: &str, b: &str) -> (r: bool)
    requires
        is_int_str(a@),
        is_int_str(b@),
    ensures
        r == (int_val(a@) >= int_val(b@)),
{
    let x = num_bigint::BigInt::from_str(a).unwrap();
    let y = num_bigint::BigInt::from_str(b).unwrap();
    x >= y
}

/// Relies on `u64`'s `Display` implementation: the decimal digits of the
/// number, without sign or leading zeros.
#[verifier::external_body]
pub(crate) fn u64_to_dec(n: u64) -> (r: String)
    ensures
        r@ == dec_rep(n as int),
{
    n.to_string()
}

} // verus!
