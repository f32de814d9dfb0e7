use num::bigint::{BigInt, BigUint, ParseBigIntError};
use num::traits::{Pow, Signed, Zero};
use vstd::arithmetic::power::{lemma_pow_positive, lemma_pow_strictly_increases_converse, pow};
use vstd::prelude::*;

verus! {

/// Unsigned value of little-endian base-256 digits.
pub open spec fn unsigned_le(b: Seq<u8>) -> int
    decreases b.len(),
{
    if b.len() == 0 {
        0
    } else {
        b[0] as int + 256 * unsigned_le(b.drop_first())
    }
}

/// Value of little-endian two's complement bytes.
pub open spec fn signed_le(b: Seq<u8>) -> int {
    if b.len() > 0 && b.last() >= 128 {
        unsigned_le(b) - pow(256, b.len())
    } else {
        unsigned_le(b)
    }
}

pub open spec fn is_digit(c: char) -> bool {
    '0' <= c && c <= '9'
}

pub open spec fn digit_value(c: char) -> int {
    (c as u32) as int - ('0' as u32) as int
}

/// A non-empty run of ASCII decimal digits.
pub open spec fn is_digit_run(s: Seq<char>) -> bool {
    s.len() > 0 && forall|i: int| 0 <= i < s.len() ==> is_digit(#[trigger] s[i])
}

/// The number that a string of decimal digits spells.
pub open spec fn digits_value(s: Seq<char>) -> int
    decreases s.len(),
{
    if s.len() == 0 {
        0
    } else {
        10 * digits_value(s.drop_last()) + digit_value(s.last())
    }
}

/// Digits without a superfluous leading zero.
pub open spec fn is_canonical_digits(s: Seq<char>) -> bool {
    is_digit_run(s) && (s.len() == 1 || s[0] != '0')
}

proof fn lemma_digits_bounds(s: Seq<char>)
    requires
        forall|i: int| 0 <= i < s.len() ==> is_digit(#[trigger] s[i]),
    ensures
        0 <= digits_value(s) < pow(10, s.len()),
        s.len() > 0 && s[0] != '0' ==> digits_value(s) >= pow(10, (s.len() - 1) as nat),
    decreases s.len(),
{
    reveal(pow);
    if s.len() > 0 {
        let p = s.drop_last();
        assert(is_digit(s[s.len() - 1]));
        lemma_digits_bounds(p);
        assert(pow(10, s.len()) == 10 * pow(10, p.len()));
        if p.len() > 0 {
            assert(p[0] == s[0]);
            assert(pow(10, p.len()) == 10 * pow(10, (p.len() - 1) as nat));
        }
    }
}

proof fn lemma_digits_same_length(a: Seq<char>, b: Seq<char>)
    requires
        a.len() == b.len(),
        forall|i: int| 0 <= i < a.len() ==> is_digit(#[trigger] a[i]),
        forall|i: int| 0 <= i < b.len() ==> is_digit(#[trigger] b[i]),
        digits_value(a) == digits_value(b),
    ensures
        a == b,
    decreases a.len(),
{
    if a.len() > 0 {
        let (pa, pb) = (a.drop_last(), b.drop_last());
        let (da, db) = (digit_value(a.last()), digit_value(b.last()));
        assert(is_digit(a[a.len() - 1]) && is_digit(b[b.len() - 1]));
        assert(0 <= da <= 9 && 0 <= db <= 9);
        let (va, vb) = (digits_value(pa), digits_value(pb));
        assert(10 * va + da == 10 * vb + db);
        assert(va == vb && da == db) by (nonlinear_arith)
            requires
                10 * va + da == 10 * vb + db,
                0 <= da <= 9,
                0 <= db <= 9,
        ;
        lemma_digits_same_length(pa, pb);
        assert(a =~= pa.push(a.last()));
        assert(b =~= pb.push(b.last()));
    }
}

/// The usual decimal notation of a number is unique: a canonical run of digits is
/// the only notation of the number it spells.
pub proof fn lemma_decimal_echo(s: Seq<char>, r: Seq<char>)
    requires
        is_canonical_digits(s),
        is_decimal_of(r, digits_value(s)),
    ensures
        r == s,
{
    lemma_digits_bounds(s);
    lemma_digits_bounds(r);
    if s[0] != '0' && r[0] != '0' {
        lemma_pow_strictly_increases_converse(10, (r.len() - 1) as nat, s.len());
        lemma_pow_strictly_increases_converse(10, (s.len() - 1) as nat, r.len());
    } else {
        lemma_pow_positive(10, (s.len() - 1) as nat);
        lemma_pow_positive(10, (r.len() - 1) as nat);
        if s[0] == '0' {
            assert(s.drop_last().len() == 0 && s.last() == '0');
            assert(digits_value(s.drop_last()) == 0);
            assert(digits_value(s) == 0);
        } else {
            assert(r.drop_last().len() == 0 && r.last() == '0');
            assert(digits_value(r.drop_last()) == 0);
            assert(digits_value(r) == 0);
        }
    }
    lemma_digits_same_length(s, r);
}

/// `s` is the usual decimal notation of `v`: an optional minus sign, then digits
/// without leading zeros.
pub open spec fn is_decimal_of(s: Seq<char>, v: int) -> bool {
    if v < 0 {
        s.len() > 0 && s[0] == '-' && is_canonical_digits(s.drop_first()) && digits_value(
            s.drop_first(),
        ) == -v
    } else {
        is_canonical_digits(s) && digits_value(s) == v
    }
}

pub open spec fn magnitude(a: int) -> int {
    if a < 0 {
        -a
    } else {
        a
    }
}

/// Quotient rounded toward zero.
pub open spec fn trunc_div(a: int, b: int) -> int {
    let q = magnitude(a) / magnitude(b);
    if (a < 0) == (b < 0) {
        q
    } else {
        -q
    }
}

/// Remainder of the quotient rounded toward zero; it takes the sign of `a`.
pub open spec fn trunc_rem(a: int, b: int) -> int {
    a - b * trunc_div(a, b)
}

#[verifier::external_type_specification]
#[verifier::external_body]
pub struct ExParseBigIntError(ParseBigIntError);

/// An integer of any size, held as little-endian two's complement bytes.
#[derive(Debug)]
pub struct BigInteger {
    bytes: Vec<u8>,
}

impl View for BigInteger {
    type V = int;

    closed spec fn view(&self) -> int {
        signed_le(self.bytes@)
    }
}

/// Relies on num's `BigInt::from_str`: a non-empty run of decimal digits is read as
/// the number it spells.
#[verifier::external_body]
fn parse_decimal(s: &str) -> (r: Result<BigInteger, ParseBigIntError>)
    ensures
        is_digit_run(s@) ==> r is Ok,
        is_digit_run(s@) && r is Ok ==> r->Ok_0@ == digits_value(s@),
{
    match s.parse::<BigInt>() {
        Ok(v) => Ok(BigInteger { bytes: v.to_signed_bytes_le() }),
        Err(e) => Err(e),
    }
}

/// Relies on num's `Display` for BigInt: the usual decimal notation.
#[verifier::external_body]
fn decimal_string(a: &BigInteger) -> (r: String)
    ensures
        is_decimal_of(r@, a@),
{
    BigInt::from_signed_bytes_le(&a.bytes).to_string()
}

/// Relies on num's `Add` for BigInt: the exact sum.
#[verifier::external_body]
pub(crate) fn big_add(a: &BigInteger, b: &BigInteger) -> (r: BigInteger)
    ensures
        r@ == a@ + b@,
{
    let s = BigInt::from_signed_bytes_le(&a.bytes) + BigInt::from_signed_bytes_le(&b.bytes);
    BigInteger { bytes: s.to_signed_bytes_le() }
}

/// Relies on num's `Sub` for BigInt: the exact difference.
#[verifier::external_body]
pub(crate) fn big_sub(a: &BigInteger, b: &BigInteger) -> (r: BigInteger)
    ensures
        r@ == a@ - b@,
{
    let s = BigInt::from_signed_bytes_le(&a.bytes) - BigInt::from_signed_bytes_le(&b.bytes);
    BigInteger { bytes: s.to_signed_bytes_le() }
}

/// Relies on num's `Mul` for BigInt: the exact product.
#[verifier::external_body]
pub(crate) fn big_mul(a: &BigInteger, b: &BigInteger) -> (r: BigInteger)
    ensures
        r@ == a@ * b@,
{
    let s = BigInt::from_signed_bytes_le(&a.bytes) * BigInt::from_signed_bytes_le(&b.bytes);
    BigInteger { bytes: s.to_signed_bytes_le() }
}

/// Relies on num's `Div` for BigInt: the quotient rounded toward zero (it panics
/// on a zero divisor, which `requires` leaves out).
#[verifier::external_body]
pub(crate) fn big_div(a: &BigInteger, b: &BigInteger) -> (r: BigInteger)
    requires
        b@ != 0,
    ensures
        r@ == trunc_div(a@, b@),
{
    let s = BigInt::from_signed_bytes_le(&a.bytes) / BigInt::from_signed_bytes_le(&b.bytes);
    BigInteger { bytes: s.to_signed_bytes_le() }
}

/// Relies on num's `Rem` for BigInt: the remainder with the sign of the dividend
/// (it panics on a zero divisor, which `requires` leaves out).
#[verifier::external_body]
pub(crate) fn big_rem(a: &BigInteger, b: &BigInteger) -> (r: BigInteger)
    requires
        b@ != 0,
    ensures
        r@ == trunc_rem(a@, b@),
{
    let s = BigInt::from_signed_bytes_le(&a.bytes) % BigInt::from_signed_bytes_le(&b.bytes);
    BigInteger { bytes: s.to_signed_bytes_le() }
}

/// Relies on num's `Neg` for BigInt: the negation.
#[verifier::external_body]
pub(crate) fn big_neg(a: &BigInteger) -> (r: BigInteger)
    ensures
        r@ == -a@,
{
    let s = -BigInt::from_signed_bytes_le(&a.bytes);
    BigInteger { bytes: s.to_signed_bytes_le() }
}

/// Relies on num's `Pow<&BigUint>` for `&BigInt`: `a` raised to a non-negative
/// exponent, whose two's complement bytes read unsigned give the same number.
#[verifier::external_body]
pub(crate) fn big_pow(a: &BigInteger, e: &BigInteger) -> (r: BigInteger)
    requires
        e@ >= 0,
    ensures
        r@ == pow(a@, e@ as nat),
{
    let exponent = BigUint::from_bytes_le(&e.bytes);
    let s = Pow::pow(&BigInt::from_signed_bytes_le(&a.bytes), &exponent);
    BigInteger { bytes: s.to_signed_bytes_le() }
}

/// Relies on num's `Zero::is_zero` for BigInt.
#[verifier::external_body]
pub(crate) fn big_is_zero(a: &BigInteger) -> (r: bool)
    ensures
        r == (a@ == 0),
{
    BigInt::from_signed_bytes_le(&a.bytes).is_zero()
}

/// Relies on num's `Signed::is_negative` for BigInt.
#[verifier::external_body]
pub(crate) fn big_is_negative(a: &BigInteger) -> (r: bool)
    ensures
        r == (a@ < 0),
{
    BigInt::from_signed_bytes_le(&a.bytes).is_negative()
}

/// Whether every character of `s` is an ASCII digit and there is at least one.
pub fn all_digits(s: &str) -> (r: bool)
    ensures
        r == is_digit_run(s@),
{
    let n = s.unicode_len();
    if n == 0 {
        return false;
    }
    let mut i: usize = 0;
    while i < n
        invariant
            n == s@.len(),
            i <= n,
            forall|k: int| 0 <= k < i ==> is_digit(#[trigger] s@[k]),
        decreases n - i,
    {
        let c = s.get_char(i);
        if !('0' <= c && c <= '9') {
            return false;
        }
        i += 1;
    }
    true
}

impl BigInteger {
    /// The number spelled by a non-empty run of decimal digits; `None` for any
    /// other text.
    pub fn from_digits(s: &str) -> (r: Option<BigInteger>)
        ensures
            r is Some <==> is_digit_run(s@),
            r matches Some(v) ==> v@ == digits_value(s@),
    {
        if !all_digits(s) {
            return None;
        }
        match parse_decimal(s) {
            Ok(v) => Some(v),
            Err(_) => None,
        }
    }

    /// The usual decimal notation, with a leading `-` when negative.
    pub fn to_decimal(&self) -> (r: String)
        ensures
            is_decimal_of(r@, self@),
    {
        decimal_string(self)
    }

    /// An equal copy.
    pub fn duplicate(&self) -> (r: BigInteger)
        ensures
            r@ == self@,
    {
        BigInteger { bytes: self.bytes.clone() }
    }
}

} // verus!
