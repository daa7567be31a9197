use vstd::prelude::*;

use crate::strutil::{chars_to_string, push_char, push_repeated, repeat_char, str_to_chars};

verus! {

use bigdecimal::num_bigint::{BigInt, BigUint, Sign};
use bigdecimal::BigDecimal;
use core::str::FromStr;

// ---------------------------------------------------------------------------
// Digit sequences (base 10, most significant first)
// ---------------------------------------------------------------------------
/// Ten to the `n`.
pub open spec fn pow10(n: nat) -> int
    decreases n,
{
    if n == 0 {
        1
    } else {
        10 * pow10((n - 1) as nat)
    }
}

/// `n` negated when `neg` holds.
pub open spec fn signed_val(neg: bool, n: int) -> int {
    if neg {
        -n
    } else {
        n
    }
}

pub proof fn lemma_pow10_pos(n: nat)
    ensures
        pow10(n) >= 1,
    decreases n,
{
    if n > 0 {
        lemma_pow10_pos((n - 1) as nat);
    }
}

pub proof fn lemma_pow10_add(a: nat, b: nat)
    ensures
        pow10(a + b) == pow10(a) * pow10(b),
    decreases a,
{
    if a == 0 {
    } else {
        lemma_pow10_add((a - 1) as nat, b);
        assert(pow10(a + b) == 10 * pow10((a + b - 1) as nat));
        assert(pow10(a) * pow10(b) == 10 * (pow10((a - 1) as nat) * pow10(b))) by {
            vstd::arithmetic::mul::lemma_mul_is_associative(
                10,
                pow10((a - 1) as nat),
                pow10(b),
            );
        }
    }
}

// ---------------------------------------------------------------------------
// Digit characters, for the trusted boundary and for rendering
// ---------------------------------------------------------------------------
pub open spec fn is_digit_char(c: char) -> bool {
    48 <= c as u32 <= 57
}

pub open spec fn char_digit(c: char) -> int {
    c as u32 - 48
}

/// The character that renders the digit `d`.
pub open spec fn digit_char(d: int) -> char {
    if d == 0 {
        '0'
    } else if d == 1 {
        '1'
    } else if d == 2 {
        '2'
    } else if d == 3 {
        '3'
    } else if d == 4 {
        '4'
    } else if d == 5 {
        '5'
    } else if d == 6 {
        '6'
    } else if d == 7 {
        '7'
    } else if d == 8 {
        '8'
    } else {
        '9'
    }
}

pub open spec fn digit_chars_ok(s: Seq<char>) -> bool {
    forall|i: int| 0 <= i < s.len() ==> is_digit_char(s[i])
}

/// A well-formed mantissa written in characters.
pub open spec fn chars_digits_wf(s: Seq<char>) -> bool {
    &&& s.len() >= 1
    &&& digit_chars_ok(s)
    &&& (s.len() > 1 ==> s[0] != '0')
}

/// The integer denoted by a sequence of digit characters.
pub open spec fn chars_int(s: Seq<char>) -> int
    decreases s.len(),
{
    if s.len() == 0 {
        0
    } else {
        chars_int(s.drop_last()) * 10 + char_digit(s.last())
    }
}

/// Converts one digit to its character.
pub fn digit_to_char(d: u8) -> (r: char)
    requires
        d < 10,
    ensures
        r == digit_char(d as int),
        is_digit_char(r),
        char_digit(r) == d as int,
{
    match d {
        0 => '0',
        1 => '1',
        2 => '2',
        3 => '3',
        4 => '4',
        5 => '5',
        6 => '6',
        7 => '7',
        8 => '8',
        _ => '9',
    }
}

/// Converts one digit character back to its value.
pub fn char_to_digit(c: char) -> (r: u8)
    requires
        is_digit_char(c),
    ensures
        r < 10,
        r as int == char_digit(c),
{
    match c {
        '0' => 0,
        '1' => 1,
        '2' => 2,
        '3' => 3,
        '4' => 4,
        '5' => 5,
        '6' => 6,
        '7' => 7,
        '8' => 8,
        _ => {
            proof {
                vstd::utf8::char_u32_cast(c, c as u32);
            }
            9
        },
    }
}

/// The position of the first decimal point at or after `i`.
pub open spec fn first_dot(s: Seq<char>, i: int) -> Option<int>
    decreases s.len() - i,
{
    if i < 0 || i >= s.len() {
        None
    } else if s[i] == '.' {
        Some(i)
    } else {
        first_dot(s, i + 1)
    }
}

/// The value and scale of a plain decimal string: bare digits, or digits on
/// both sides of one point. Anything else is out of this shape.
pub open spec fn simple_decimal(s: Seq<char>) -> Option<(int, nat)> {
    if s.len() == 0 {
        None
    } else {
        match first_dot(s, 0) {
            None => if digit_chars_ok(s) {
                Some((chars_int(s), 0nat))
            } else {
                None
            },
            Some(d) => {
                let a = s.take(d);
                let b = s.skip(d + 1);
                if a.len() >= 1 && b.len() >= 1 && digit_chars_ok(a) && digit_chars_ok(b) {
                    Some((chars_int(a + b), b.len()))
                } else {
                    None
                }
            },
        }
    }
}

/// The decimal digit characters of `n`, most significant first.
pub open spec fn nat_digits(n: nat) -> Seq<char>
    decreases n,
{
    if n < 10 {
        seq![digit_char(n as int)]
    } else {
        nat_digits(n / 10).push(digit_char((n % 10) as int))
    }
}

// ---------------------------------------------------------------------------
// Rational equality and order over (numerator, decimal scale) pairs,
// where a pair (n, s) denotes n / 10^s.
// ---------------------------------------------------------------------------
/// n1 / 10^s1 == n2 / 10^s2.
pub open spec fn rat_eq_int(n1: int, s1: int, n2: int, s2: int) -> bool {
    if s1 <= s2 {
        n1 * pow10((s2 - s1) as nat) == n2
    } else {
        n1 == n2 * pow10((s1 - s2) as nat)
    }
}

/// n1 / 10^s1 <= n2 / 10^s2, for scales at least zero.
pub open spec fn rat_le_int(n1: int, s1: nat, n2: int, s2: nat) -> bool {
    n1 * pow10(s2) <= n2 * pow10(s1)
}

/// Three-way comparison of n1 / 10^s1 against n2 / 10^s2.
pub open spec fn rat_cmp_int(n1: int, s1: nat, n2: int, s2: nat) -> int {
    let l = n1 * pow10(s2);
    let r = n2 * pow10(s1);
    if l < r {
        -1
    } else if l == r {
        0
    } else {
        1
    }
}

/// Lifts a rational equality to any common scale at least both scales.
pub proof fn lemma_rat_eq_at(n1: int, s1: int, n2: int, s2: int, k: int)
    requires
        rat_eq_int(n1, s1, n2, s2),
        k >= s1,
        k >= s2,
    ensures
        n1 * pow10((k - s1) as nat) == n2 * pow10((k - s2) as nat),
{
    if s1 <= s2 {
        assert(n1 * pow10((s2 - s1) as nat) == n2);
        lemma_pow10_add((s2 - s1) as nat, (k - s2) as nat);
        assert((n1 * pow10((s2 - s1) as nat)) * pow10((k - s2) as nat) == n1 * (pow10(
            (s2 - s1) as nat,
        ) * pow10((k - s2) as nat))) by {
            vstd::arithmetic::mul::lemma_mul_is_associative(
                n1,
                pow10((s2 - s1) as nat),
                pow10((k - s2) as nat),
            );
        }
    } else {
        assert(n1 == n2 * pow10((s1 - s2) as nat));
        lemma_pow10_add((s1 - s2) as nat, (k - s1) as nat);
        assert((n2 * pow10((s1 - s2) as nat)) * pow10((k - s1) as nat) == n2 * (pow10(
            (s1 - s2) as nat,
        ) * pow10((k - s1) as nat))) by {
            vstd::arithmetic::mul::lemma_mul_is_associative(
                n2,
                pow10((s1 - s2) as nat),
                pow10((k - s1) as nat),
            );
        }
    }
}

/// Establishes a rational equality from agreement at any common scale.
pub proof fn lemma_rat_eq_from(n1: int, s1: int, n2: int, s2: int, k: int)
    requires
        k >= s1,
        k >= s2,
        n1 * pow10((k - s1) as nat) == n2 * pow10((k - s2) as nat),
    ensures
        rat_eq_int(n1, s1, n2, s2),
{
    lemma_pow10_pos((k - s1) as nat);
    lemma_pow10_pos((k - s2) as nat);
    if s1 <= s2 {
        lemma_pow10_add((s2 - s1) as nat, (k - s2) as nat);
        assert((n1 * pow10((s2 - s1) as nat)) * pow10((k - s2) as nat) == n1 * pow10(
            (k - s1) as nat,
        )) by {
            vstd::arithmetic::mul::lemma_mul_is_associative(
                n1,
                pow10((s2 - s1) as nat),
                pow10((k - s2) as nat),
            );
        }
        assert((n1 * pow10((s2 - s1) as nat)) * pow10((k - s2) as nat) == n2 * pow10(
            (k - s2) as nat,
        ));
        vstd::arithmetic::mul::lemma_mul_is_commutative(
            n1 * pow10((s2 - s1) as nat),
            pow10((k - s2) as nat),
        );
        vstd::arithmetic::mul::lemma_mul_is_commutative(n2, pow10((k - s2) as nat));
        vstd::arithmetic::mul::lemma_mul_equality_converse(
            pow10((k - s2) as nat),
            n1 * pow10((s2 - s1) as nat),
            n2,
        );
    } else {
        lemma_pow10_add((s1 - s2) as nat, (k - s1) as nat);
        assert((n2 * pow10((s1 - s2) as nat)) * pow10((k - s1) as nat) == n2 * pow10(
            (k - s2) as nat,
        )) by {
            vstd::arithmetic::mul::lemma_mul_is_associative(
                n2,
                pow10((s1 - s2) as nat),
                pow10((k - s1) as nat),
            );
        }
        vstd::arithmetic::mul::lemma_mul_is_commutative(
            n2 * pow10((s1 - s2) as nat),
            pow10((k - s1) as nat),
        );
        vstd::arithmetic::mul::lemma_mul_is_commutative(n1, pow10((k - s1) as nat));
        vstd::arithmetic::mul::lemma_mul_equality_converse(
            pow10((k - s1) as nat),
            n2 * pow10((s1 - s2) as nat),
            n1,
        );
    }
}

// ---------------------------------------------------------------------------
// The library's decimal numbers
// ---------------------------------------------------------------------------
/// An arbitrary-precision decimal: `(-1)^neg * digits / 10^scale`, with the
/// mantissa held as its decimal digit characters, most significant first.
#[derive(Debug, Clone)]
pub struct Decimal {
    pub neg: bool,
    pub digits: String,
    pub scale: i64,
}

impl Decimal {
    /// Structural well-formedness: canonical mantissa, a scale that is not
    /// negative, and a zero that is never negative.
    pub open spec fn wf(self) -> bool {
        &&& chars_digits_wf(self.digits@)
        &&& self.scale >= 0
        &&& (self.neg ==> chars_int(self.digits@) != 0)
    }

    /// The signed numerator.
    pub open spec fn num(self) -> int {
        signed_val(self.neg, chars_int(self.digits@))
    }

    /// Two decimals denote the same rational number.
    pub open spec fn same_value(self, other: Decimal) -> bool {
        rat_eq_int(self.num(), self.scale as int, other.num(), other.scale as int)
    }

    /// This decimal denotes a rational no greater than `other`.
    pub open spec fn le(self, other: Decimal) -> bool {
        rat_le_int(self.num(), self.scale as nat, other.num(), other.scale as nat)
    }

    /// Zero with scale zero.
    pub fn zero() -> (r: Decimal)
        ensures
            r.wf(),
            r.num() == 0,
            r.scale == 0,
    {
        let mut digits = String::new();
        crate::strutil::push_char(&mut digits, '0');
        proof {
            assert(digits@ =~= seq!['0']);
            assert(digits@.drop_last() =~= Seq::<char>::empty());
            assert(chars_int(Seq::<char>::empty()) == 0);
        }
        Decimal { neg: false, digits, scale: 0 }
    }

    /// Whether this decimal denotes zero.
    pub fn is_zero(&self) -> (r: bool)
        requires
            self.wf(),
        ensures
            r == (self.num() == 0),
    {
        proof {
            lemma_chars_int_zero(self.digits@);
        }
        let r = self.digits.as_str().unicode_len() == 1 && self.digits.as_str().get_char(0) == '0';
        proof {
            if r {
                assert(self.digits@ =~= seq!['0']);
            } else {
                if self.digits@.len() == 1 {
                    assert(!(self.digits@ =~= seq!['0']));
                }
            }
        }
        r
    }

    /// Copies a decimal; the copy equals the original.
    pub fn duplicate(&self) -> (r: Decimal)
        ensures
            r == *self,
    {
        Decimal { neg: self.neg, digits: self.digits.clone(), scale: self.scale }
    }
}

/// Digit-character sequences denote nothing below zero.
pub proof fn lemma_chars_int_nonneg(s: Seq<char>)
    requires
        digit_chars_ok(s),
    ensures
        chars_int(s) >= 0,
    decreases s.len(),
{
    if s.len() > 0 {
        assert(digit_chars_ok(s.drop_last()));
        lemma_chars_int_nonneg(s.drop_last());
    }
}

/// A well-formed mantissa denotes zero only when it is the single digit zero.
pub proof fn lemma_chars_int_zero(s: Seq<char>)
    requires
        chars_digits_wf(s),
    ensures
        (chars_int(s) == 0) <==> (s =~= seq!['0']),
    decreases s.len(),
{
    if s.len() == 1 {
        assert(chars_int(s) == chars_int(s.drop_last()) * 10 + char_digit(s.last()));
        assert(s.drop_last().len() == 0);
        assert(chars_int(s) == char_digit(s[0]));
        if char_digit(s[0]) == 0 {
            assert(s[0] as u32 == 48);
            vstd::utf8::char_u32_cast(s[0], 48u32);
            assert(s[0] == '0');
            assert(s =~= seq!['0']);
        }
    } else {
        let front = s.drop_last();
        assert(front[0] == s[0]);
        assert(chars_digits_wf(front));
        lemma_chars_int_zero(front);
        lemma_chars_int_nonneg(front);
        assert(!(front =~= seq!['0'])) by {
            if front.len() == 1 {
                assert(front[0] != '0');
                assert(front[0] == front.first());
            }
        }
        assert(chars_int(front) > 0);
        lemma_chars_int_nonneg(s);
        assert(chars_int(s) >= chars_int(front) * 10) by {
            assert(chars_int(front) * 10 >= 0);
        }
        assert(chars_int(front) * 10 >= 10) by {
            vstd::arithmetic::mul::lemma_mul_inequality(1, chars_int(front), 10);
        }
    }
}

/// Appending the digit zero multiplies the denoted integer by ten.
pub proof fn lemma_chars_int_push_zero(s: Seq<char>)
    ensures
        chars_int(s.push('0')) == chars_int(s) * 10,
{
    assert(s.push('0').drop_last() =~= s);
    assert(s.push('0').last() == '0');
}

// ---------------------------------------------------------------------------
// Trusted boundary: bigdecimal does the arbitrary-precision arithmetic.
// Mantissas cross the boundary as strings of decimal digits.
// ---------------------------------------------------------------------------
/// What bigdecimal's `FromStr` parser accepts and returns for a given string,
/// as sign, mantissa digits and scale.
pub uninterp spec fn dec_parse_of(s: Seq<char>) -> Option<(bool, Seq<char>, int)>;

/// Relies on `BigDecimal::from_str` of the bigdecimal crate to parse a decimal
/// number, and on `BigDecimal::into_bigint_and_exponent` to read the result
/// back as a (sign, mantissa, scale) triple; the mantissa digits come from the
/// decimal rendering of the magnitude, which has no leading zero.
#[verifier::external_body]
pub(crate) fn dec_parse_raw(s: &str) -> (r: Option<(bool, String, i64)>)
    ensures
        // a bare digit string, or digits around one point, parses to exactly
        // that value, non-negative, with the written fractional length as scale
        match r {
            Some(p) => dec_parse_of(s@) == Some((p.0, p.1@, p.2 as int)) && chars_digits_wf(p.1@)
                && (chars_int(p.1@) == 0 ==> !p.0) && (simple_decimal(s@) matches Some(pv) ==> !p.0
                && rat_eq_int(chars_int(p.1@), p.2 as int, pv.0, pv.1 as int)),
            None => dec_parse_of(s@) is None && simple_decimal(s@) is None,
        },
{
    match BigDecimal::from_str(s) {
        Ok(d) => {
            let (bi, exp) = d.into_bigint_and_exponent();
            let neg = bi.sign() == Sign::Minus;
            Some((neg, bi.magnitude().to_string(), exp))
        },
        Err(_) => None,
    }
}

/// What bigdecimal's addition returns, representation included, as a
/// function of both operands.
pub uninterp spec fn dec_add_of(
    aneg: bool,
    amant: Seq<char>,
    ascale: int,
    bneg: bool,
    bmant: Seq<char>,
    bscale: int,
) -> (bool, Seq<char>, int);

/// What bigdecimal's subtraction returns, representation included.
pub uninterp spec fn dec_sub_of(
    aneg: bool,
    amant: Seq<char>,
    ascale: int,
    bneg: bool,
    bmant: Seq<char>,
    bscale: int,
) -> (bool, Seq<char>, int);

/// What bigdecimal's multiplication returns, representation included.
pub uninterp spec fn dec_mul_of(
    aneg: bool,
    amant: Seq<char>,
    ascale: int,
    bneg: bool,
    bmant: Seq<char>,
    bscale: int,
) -> (bool, Seq<char>, int);

/// Relies on the `Add` impl of `bigdecimal::BigDecimal`: addition of decimals
/// is exact, so the result denotes exactly the sum of the two rationals, and
/// the operands are aligned to the larger scale, which the result keeps.
#[verifier::external_body]
pub(crate) fn dec_add_raw(aneg: bool, amant: &str, ascale: i64, bneg: bool, bmant: &str, bscale: i64) -> (r: (
    bool,
    String,
    i64,
))
    requires
        digit_chars_ok(amant@),
        amant@.len() >= 1,
        ascale >= 0,
        digit_chars_ok(bmant@),
        bmant@.len() >= 1,
        bscale >= 0,
    ensures
        chars_digits_wf(r.1@),
        chars_int(r.1@) == 0 ==> !r.0,
        r.2 <= (if ascale >= bscale {
            ascale
        } else {
            bscale
        }),
        (r.0, r.1@, r.2 as int) == dec_add_of(
            aneg,
            amant@,
            ascale as int,
            bneg,
            bmant@,
            bscale as int,
        ),
        rat_eq_int(
            signed_val(r.0, chars_int(r.1@)),
            r.2 as int,
            signed_val(aneg, chars_int(amant@)) * pow10(bscale as nat) + signed_val(
                bneg,
                chars_int(bmant@),
            ) * pow10(ascale as nat),
            ascale + bscale,
        ),
{
    let asign = if aneg { Sign::Minus } else { Sign::Plus };
    let bsign = if bneg { Sign::Minus } else { Sign::Plus };
    let am = BigUint::parse_bytes(amant.as_bytes(), 10).expect("mantissa digits");
    let bm = BigUint::parse_bytes(bmant.as_bytes(), 10).expect("mantissa digits");
    let a = BigDecimal::new(BigInt::from_biguint(asign, am), ascale);
    let b = BigDecimal::new(BigInt::from_biguint(bsign, bm), bscale);
    let (bi, exp) = (a + b).into_bigint_and_exponent();
    (bi.sign() == Sign::Minus, bi.magnitude().to_string(), exp)
}

/// Relies on the `Sub` impl of `bigdecimal::BigDecimal`: subtraction is exact.
#[verifier::external_body]
pub(crate) fn dec_sub_raw(aneg: bool, amant: &str, ascale: i64, bneg: bool, bmant: &str, bscale: i64) -> (r: (
    bool,
    String,
    i64,
))
    requires
        digit_chars_ok(amant@),
        amant@.len() >= 1,
        ascale >= 0,
        digit_chars_ok(bmant@),
        bmant@.len() >= 1,
        bscale >= 0,
    ensures
        chars_digits_wf(r.1@),
        chars_int(r.1@) == 0 ==> !r.0,
        (r.0, r.1@, r.2 as int) == dec_sub_of(
            aneg,
            amant@,
            ascale as int,
            bneg,
            bmant@,
            bscale as int,
        ),
        rat_eq_int(
            signed_val(r.0, chars_int(r.1@)),
            r.2 as int,
            signed_val(aneg, chars_int(amant@)) * pow10(bscale as nat) - signed_val(
                bneg,
                chars_int(bmant@),
            ) * pow10(ascale as nat),
            ascale + bscale,
        ),
{
    let asign = if aneg { Sign::Minus } else { Sign::Plus };
    let bsign = if bneg { Sign::Minus } else { Sign::Plus };
    let am = BigUint::parse_bytes(amant.as_bytes(), 10).expect("mantissa digits");
    let bm = BigUint::parse_bytes(bmant.as_bytes(), 10).expect("mantissa digits");
    let a = BigDecimal::new(BigInt::from_biguint(asign, am), ascale);
    let b = BigDecimal::new(BigInt::from_biguint(bsign, bm), bscale);
    let (bi, exp) = (a - b).into_bigint_and_exponent();
    (bi.sign() == Sign::Minus, bi.magnitude().to_string(), exp)
}

/// Relies on the `Mul` impl of `bigdecimal::BigDecimal`: multiplication is
/// exact, and the result's scale is the sum of the input scales, so that sum
/// must fit the scale's integer type.
#[verifier::external_body]
pub(crate) fn dec_mul_raw(aneg: bool, amant: &str, ascale: i64, bneg: bool, bmant: &str, bscale: i64) -> (r: (
    bool,
    String,
    i64,
))
    requires
        digit_chars_ok(amant@),
        amant@.len() >= 1,
        ascale >= 0,
        digit_chars_ok(bmant@),
        bmant@.len() >= 1,
        bscale >= 0,
        ascale + bscale <= i64::MAX,
    ensures
        chars_digits_wf(r.1@),
        chars_int(r.1@) == 0 ==> !r.0,
        (r.0, r.1@, r.2 as int) == dec_mul_of(
            aneg,
            amant@,
            ascale as int,
            bneg,
            bmant@,
            bscale as int,
        ),
        rat_eq_int(
            signed_val(r.0, chars_int(r.1@)),
            r.2 as int,
            signed_val(aneg, chars_int(amant@)) * signed_val(bneg, chars_int(bmant@)),
            ascale + bscale,
        ),
{
    let asign = if aneg { Sign::Minus } else { Sign::Plus };
    let bsign = if bneg { Sign::Minus } else { Sign::Plus };
    let am = BigUint::parse_bytes(amant.as_bytes(), 10).expect("mantissa digits");
    let bm = BigUint::parse_bytes(bmant.as_bytes(), 10).expect("mantissa digits");
    let a = BigDecimal::new(BigInt::from_biguint(asign, am), ascale);
    let b = BigDecimal::new(BigInt::from_biguint(bsign, bm), bscale);
    let (bi, exp) = (a * b).into_bigint_and_exponent();
    (bi.sign() == Sign::Minus, bi.magnitude().to_string(), exp)
}

/// What bigdecimal's division returns, as a function of both operands
/// (it rounds to the crate's default precision of one hundred digits).
pub uninterp spec fn dec_div_of(
    aneg: bool,
    amant: Seq<char>,
    ascale: int,
    bneg: bool,
    bmant: Seq<char>,
    bscale: int,
) -> (bool, Seq<char>, int);

/// Relies on the `Div` impl of `bigdecimal::BigDecimal`, which panics on a
/// zero divisor and otherwise rounds to the crate's default precision of one
/// hundred digits. The quotient's scale can exceed the dividend's by the
/// divisor's digit count plus that precision, so the dividend's scale must
/// leave that much headroom below the scale type's maximum.
#[verifier::external_body]
pub(crate) fn dec_div_raw(aneg: bool, amant: &str, ascale: i64, bneg: bool, bmant: &str, bscale: i64) -> (r: (
    bool,
    String,
    i64,
))
    requires
        digit_chars_ok(amant@),
        amant@.len() >= 1,
        ascale >= 0,
        digit_chars_ok(bmant@),
        bmant@.len() >= 1,
        bscale >= 0,
        chars_int(bmant@) != 0,
        ascale + bmant@.len() + 128 <= i64::MAX,
    ensures
        chars_digits_wf(r.1@),
        chars_int(r.1@) == 0 ==> !r.0,
        (r.0, r.1@, r.2 as int) == dec_div_of(
            aneg,
            amant@,
            ascale as int,
            bneg,
            bmant@,
            bscale as int,
        ),
{
    let asign = if aneg { Sign::Minus } else { Sign::Plus };
    let bsign = if bneg { Sign::Minus } else { Sign::Plus };
    let am = BigUint::parse_bytes(amant.as_bytes(), 10).expect("mantissa digits");
    let bm = BigUint::parse_bytes(bmant.as_bytes(), 10).expect("mantissa digits");
    let a = BigDecimal::new(BigInt::from_biguint(asign, am), ascale);
    let b = BigDecimal::new(BigInt::from_biguint(bsign, bm), bscale);
    let (bi, exp) = (a / b).into_bigint_and_exponent();
    (bi.sign() == Sign::Minus, bi.magnitude().to_string(), exp)
}

/// What bigdecimal's remainder returns, as a function of both operands.
pub uninterp spec fn dec_rem_of(
    aneg: bool,
    amant: Seq<char>,
    ascale: int,
    bneg: bool,
    bmant: Seq<char>,
    bscale: int,
) -> (bool, Seq<char>, int);

/// Relies on the `Rem` impl of `bigdecimal::BigDecimal`, which panics on a
/// zero divisor.
#[verifier::external_body]
pub(crate) fn dec_rem_raw(aneg: bool, amant: &str, ascale: i64, bneg: bool, bmant: &str, bscale: i64) -> (r: (
    bool,
    String,
    i64,
))
    requires
        digit_chars_ok(amant@),
        amant@.len() >= 1,
        ascale >= 0,
        digit_chars_ok(bmant@),
        bmant@.len() >= 1,
        bscale >= 0,
        chars_int(bmant@) != 0,
    ensures
        chars_digits_wf(r.1@),
        chars_int(r.1@) == 0 ==> !r.0,
        (r.0, r.1@, r.2 as int) == dec_rem_of(
            aneg,
            amant@,
            ascale as int,
            bneg,
            bmant@,
            bscale as int,
        ),
{
    let asign = if aneg { Sign::Minus } else { Sign::Plus };
    let bsign = if bneg { Sign::Minus } else { Sign::Plus };
    let am = BigUint::parse_bytes(amant.as_bytes(), 10).expect("mantissa digits");
    let bm = BigUint::parse_bytes(bmant.as_bytes(), 10).expect("mantissa digits");
    let a = BigDecimal::new(BigInt::from_biguint(asign, am), ascale);
    let b = BigDecimal::new(BigInt::from_biguint(bsign, bm), bscale);
    let (bi, exp) = (a % b).into_bigint_and_exponent();
    (bi.sign() == Sign::Minus, bi.magnitude().to_string(), exp)
}

/// Relies on the `Ord` impl of `bigdecimal::BigDecimal`, which orders decimals
/// by their numeric value.
#[verifier::external_body]
pub(crate) fn dec_cmp_raw(aneg: bool, amant: &str, ascale: i64, bneg: bool, bmant: &str, bscale: i64) -> (r:
    i8)
    requires
        digit_chars_ok(amant@),
        amant@.len() >= 1,
        ascale >= 0,
        digit_chars_ok(bmant@),
        bmant@.len() >= 1,
        bscale >= 0,
    ensures
        r as int == rat_cmp_int(
            signed_val(aneg, chars_int(amant@)),
            ascale as nat,
            signed_val(bneg, chars_int(bmant@)),
            bscale as nat,
        ),
{
    let asign = if aneg { Sign::Minus } else { Sign::Plus };
    let bsign = if bneg { Sign::Minus } else { Sign::Plus };
    let am = BigUint::parse_bytes(amant.as_bytes(), 10).expect("mantissa digits");
    let bm = BigUint::parse_bytes(bmant.as_bytes(), 10).expect("mantissa digits");
    let a = BigDecimal::new(BigInt::from_biguint(asign, am), ascale);
    let b = BigDecimal::new(BigInt::from_biguint(bsign, bm), bscale);
    match a.cmp(&b) {
        core::cmp::Ordering::Less => -1,
        core::cmp::Ordering::Equal => 0,
        core::cmp::Ordering::Greater => 1,
    }
}


// ---------------------------------------------------------------------------
// Building well-formed decimals out of the raw triples of the trusted boundary
// ---------------------------------------------------------------------------
/// Transitivity of rational equality.
pub proof fn lemma_rat_eq_trans(n1: int, s1: int, n2: int, s2: int, n3: int, s3: int)
    requires
        rat_eq_int(n1, s1, n2, s2),
        rat_eq_int(n2, s2, n3, s3),
    ensures
        rat_eq_int(n1, s1, n3, s3),
{
    let k = if s1 >= s2 && s1 >= s3 {
        s1
    } else if s2 >= s3 {
        s2
    } else {
        s3
    };
    lemma_rat_eq_at(n1, s1, n2, s2, k);
    lemma_rat_eq_at(n2, s2, n3, s3, k);
    lemma_rat_eq_from(n1, s1, n3, s3, k);
}

/// Symmetry of rational equality.
pub proof fn lemma_rat_eq_sym(n1: int, s1: int, n2: int, s2: int)
    requires
        rat_eq_int(n1, s1, n2, s2),
    ensures
        rat_eq_int(n2, s2, n1, s1),
{
    let k = if s1 >= s2 { s1 } else { s2 };
    lemma_rat_eq_at(n1, s1, n2, s2, k);
    lemma_rat_eq_from(n2, s2, n1, s1, k);
}

/// How a raw triple is folded into a well-formed decimal: a negative scale
/// becomes trailing zeros, and zero loses its sign and scale.
pub open spec fn norm_triple(t: (bool, Seq<char>, int)) -> (bool, Seq<char>, int) {
    if t.2 >= 0 {
        t
    } else if t.1 =~= seq!['0'] {
        (false, t.1, 0int)
    } else {
        (t.0, t.1 + repeat_char('0', (0 - t.2) as nat), 0int)
    }
}

/// Builds a well-formed decimal from a raw (sign, mantissa, scale) triple,
/// folding a negative scale into trailing zeros of the mantissa.
pub(crate) fn dec_from_raw(neg: bool, mant: String, scale: i64) -> (r: Decimal)
    requires
        chars_digits_wf(mant@),
        chars_int(mant@) == 0 ==> !neg,
    ensures
        r.wf(),
        rat_eq_int(r.num(), r.scale as int, signed_val(neg, chars_int(mant@)), scale as int),
        (r.neg, r.digits@, r.scale as int) == norm_triple((neg, mant@, scale as int)),
{
    proof {
        lemma_chars_int_nonneg(mant@);
        lemma_chars_int_zero(mant@);
    }
    if scale >= 0 {
        let r = Decimal { neg, digits: mant, scale };
        proof {
            lemma_rat_eq_from(
                r.num(),
                r.scale as int,
                signed_val(neg, chars_int(r.digits@)),
                scale as int,
                scale as int,
            );
        }
        r
    } else if mant.as_str().unicode_len() == 1 && mant.as_str().get_char(0) == '0' {
        // zero: a negative scale adds nothing
        proof {
            assert(mant@ =~= seq!['0']);
        }
        let r = Decimal { neg: false, digits: mant, scale: 0 };
        proof {
            assert(chars_int(r.digits@) == 0);
            lemma_pow10_pos((0 - scale) as nat);
            assert(r.num() == 0);
            assert(0 == signed_val(neg, chars_int(mant@)) * pow10((0 - scale) as nat)) by {
                vstd::arithmetic::mul::lemma_mul_by_zero_is_zero(pow10((0 - scale) as nat));
            }
        }
        r
    } else {
        // shift the mantissa left until the scale reaches zero
        let mut digits = mant;
        let mut s: i64 = scale;
        proof {
            assert(!(digits@ =~= seq!['0'])) by {
                if digits@.len() == 1 {
                    assert(digits@[0] != '0');
                }
            }
            assert(chars_int(digits@) > 0);
        }
        let ghost n0 = chars_int(digits@);
        let ghost orig = digits@;
        proof {
            assert(digits@ =~= orig + repeat_char('0', 0));
        }
        while s < 0
            invariant
                chars_digits_wf(digits@),
                digits@ == orig + repeat_char('0', (s - scale) as nat),
                digits@[0] == orig[0],
                orig.len() >= 1,
                orig[0] != '0',
                scale <= s <= 0,
                chars_int(digits@) == n0 * pow10((s - scale) as nat),
                n0 > 0,
            decreases 0 - s,
        {
            proof {
                lemma_chars_int_push_zero(digits@);
                assert(pow10(0) == 1);
                assert(pow10(1) == 10);
                assert((n0 * pow10((s - scale) as nat)) * 10 == n0 * (pow10((s - scale) as nat)
                    * 10)) by {
                    vstd::arithmetic::mul::lemma_mul_is_associative(
                        n0,
                        pow10((s - scale) as nat),
                        10,
                    );
                }
                assert(pow10((s - scale) as nat) * 10 == pow10((s + 1 - scale) as nat)) by {
                    vstd::arithmetic::mul::lemma_mul_is_commutative(
                        pow10((s - scale) as nat),
                        10,
                    );
                    lemma_pow10_add(1, (s - scale) as nat);
                }
            }
            let ghost before = digits@;
            crate::strutil::push_char(&mut digits, '0');
            s = s + 1;
            proof {
                assert(digits@[0] == before[0]);
                assert(digits@ =~= orig + repeat_char('0', (s - scale) as nat));
            }
        }
        proof {
            lemma_pow10_pos((0 - scale) as nat);
        }
        let r = Decimal { neg, digits, scale: 0 };
        proof {
            assert(r.digits@ == orig + repeat_char('0', (0 - scale) as nat));
            assert(!(orig =~= seq!['0']));
            assert(chars_int(r.digits@) > 0) by {
                vstd::arithmetic::mul::lemma_mul_strictly_positive(
                    n0,
                    pow10((0 - scale) as nat),
                );
            }
            assert(r.num() == signed_val(neg, n0) * pow10((0 - scale) as nat)) by {
                vstd::arithmetic::mul::lemma_mul_unary_negation(
                    n0,
                    pow10((0 - scale) as nat),
                );
            }
        }
        r
    }
}

/// Parses a string into a decimal, accepting what the bigdecimal parser accepts.
pub(crate) fn dec_parse(s: &str) -> (r: Option<Decimal>)
    ensures
        r is Some <==> dec_parse_of(s@) is Some,
        match r {
            Some(d) => d.wf() && {
                let p = dec_parse_of(s@)->Some_0;
                rat_eq_int(d.num(), d.scale as int, signed_val(p.0, chars_int(p.1)), p.2)
            },
            None => true,
        },
{
    match dec_parse_raw(s) {
        Some((neg, mant, scale)) => Some(dec_from_raw(neg, mant, scale)),
        None => None,
    }
}

impl Decimal {
    /// Exact sum of two decimals; the result's scale stays within the
    /// larger operand scale.
    pub fn add(&self, other: &Decimal) -> (r: Decimal)
        requires
            self.wf(),
            other.wf(),
        ensures
            r.wf(),
            r.scale <= (if self.scale >= other.scale {
                self.scale
            } else {
                other.scale
            }),
            rat_eq_int(
                r.num(),
                r.scale as int,
                self.num() * pow10(other.scale as nat) + other.num() * pow10(self.scale as nat),
                self.scale as int + other.scale as int,
            ),
            (r.neg, r.digits@, r.scale as int) == norm_triple(
                dec_add_of(
                    self.neg,
                    self.digits@,
                    self.scale as int,
                    other.neg,
                    other.digits@,
                    other.scale as int,
                ),
            ),
    {
        let (rneg, rmant, rscale) = dec_add_raw(
            self.neg,
            self.digits.as_str(),
            self.scale,
            other.neg,
            other.digits.as_str(),
            other.scale,
        );
        let ghost wn = signed_val(rneg, chars_int(rmant@));
        let ghost ws = rscale as int;
        let r = dec_from_raw(rneg, rmant, rscale);
        proof {
            lemma_rat_eq_trans(
                r.num(),
                r.scale as int,
                wn,
                ws,
                self.num() * pow10(other.scale as nat) + other.num() * pow10(self.scale as nat),
                self.scale as int + other.scale as int,
            );
        }
        r
    }

    /// Exact difference of two decimals.
    pub fn sub(&self, other: &Decimal) -> (r: Decimal)
        requires
            self.wf(),
            other.wf(),
        ensures
            r.wf(),
            rat_eq_int(
                r.num(),
                r.scale as int,
                self.num() * pow10(other.scale as nat) - other.num() * pow10(self.scale as nat),
                self.scale as int + other.scale as int,
            ),
            (r.neg, r.digits@, r.scale as int) == norm_triple(
                dec_sub_of(
                    self.neg,
                    self.digits@,
                    self.scale as int,
                    other.neg,
                    other.digits@,
                    other.scale as int,
                ),
            ),
    {
        let (rneg, rmant, rscale) = dec_sub_raw(
            self.neg,
            self.digits.as_str(),
            self.scale,
            other.neg,
            other.digits.as_str(),
            other.scale,
        );
        let ghost wn = signed_val(rneg, chars_int(rmant@));
        let ghost ws = rscale as int;
        let r = dec_from_raw(rneg, rmant, rscale);
        proof {
            lemma_rat_eq_trans(
                r.num(),
                r.scale as int,
                wn,
                ws,
                self.num() * pow10(other.scale as nat) - other.num() * pow10(self.scale as nat),
                self.scale as int + other.scale as int,
            );
        }
        r
    }

    /// Exact product of two decimals; the scales' sum must fit their type.
    pub fn mul(&self, other: &Decimal) -> (r: Decimal)
        requires
            self.wf(),
            other.wf(),
            self.scale + other.scale <= i64::MAX,
        ensures
            r.wf(),
            rat_eq_int(
                r.num(),
                r.scale as int,
                self.num() * other.num(),
                self.scale as int + other.scale as int,
            ),
            (r.neg, r.digits@, r.scale as int) == norm_triple(
                dec_mul_of(
                    self.neg,
                    self.digits@,
                    self.scale as int,
                    other.neg,
                    other.digits@,
                    other.scale as int,
                ),
            ),
    {
        let (rneg, rmant, rscale) = dec_mul_raw(
            self.neg,
            self.digits.as_str(),
            self.scale,
            other.neg,
            other.digits.as_str(),
            other.scale,
        );
        let ghost wn = signed_val(rneg, chars_int(rmant@));
        let ghost ws = rscale as int;
        let r = dec_from_raw(rneg, rmant, rscale);
        proof {
            lemma_rat_eq_trans(
                r.num(),
                r.scale as int,
                wn,
                ws,
                self.num() * other.num(),
                self.scale as int + other.scale as int,
            );
        }
        r
    }

    /// Quotient of two decimals, rounded by bigdecimal; the divisor must not
    /// be zero, and the dividend's scale must leave headroom for the
    /// quotient's scale.
    pub fn div(&self, other: &Decimal) -> (r: Decimal)
        requires
            self.wf(),
            other.wf(),
            other.num() != 0,
            self.scale + other.digits@.len() + 128 <= i64::MAX,
        ensures
            r.wf(),
            ({
                let w = dec_div_of(
                    self.neg,
                    self.digits@,
                    self.scale as int,
                    other.neg,
                    other.digits@,
                    other.scale as int,
                );
                rat_eq_int(r.num(), r.scale as int, signed_val(w.0, chars_int(w.1)), w.2)
                    && (r.neg, r.digits@, r.scale as int) == norm_triple(w)
            }),
    {
        let (rneg, rmant, rscale) = dec_div_raw(
            self.neg,
            self.digits.as_str(),
            self.scale,
            other.neg,
            other.digits.as_str(),
            other.scale,
        );
        dec_from_raw(rneg, rmant, rscale)
    }

    /// Remainder of two decimals; the divisor must not be zero.
    pub fn rem(&self, other: &Decimal) -> (r: Decimal)
        requires
            self.wf(),
            other.wf(),
            other.num() != 0,
        ensures
            r.wf(),
            ({
                let w = dec_rem_of(
                    self.neg,
                    self.digits@,
                    self.scale as int,
                    other.neg,
                    other.digits@,
                    other.scale as int,
                );
                rat_eq_int(r.num(), r.scale as int, signed_val(w.0, chars_int(w.1)), w.2)
                    && (r.neg, r.digits@, r.scale as int) == norm_triple(w)
            }),
    {
        let (rneg, rmant, rscale) = dec_rem_raw(
            self.neg,
            self.digits.as_str(),
            self.scale,
            other.neg,
            other.digits.as_str(),
            other.scale,
        );
        dec_from_raw(rneg, rmant, rscale)
    }

    /// Three-way numeric comparison.
    pub fn cmp_dec(&self, other: &Decimal) -> (r: i8)
        requires
            self.wf(),
            other.wf(),
        ensures
            r as int == rat_cmp_int(
                self.num(),
                self.scale as nat,
                other.num(),
                other.scale as nat,
            ),
            (r == 0) == self.same_value(*other),
            (r != 1) == self.le(*other),
    {
        let r = dec_cmp_raw(
            self.neg,
            self.digits.as_str(),
            self.scale,
            other.neg,
            other.digits.as_str(),
            other.scale,
        );
        proof {
            let k = self.scale as int + other.scale as int;
            if self.num() * pow10(other.scale as nat) == other.num() * pow10(self.scale as nat) {
                lemma_rat_eq_from(
                    self.num(),
                    self.scale as int,
                    other.num(),
                    other.scale as int,
                    k,
                );
            }
            if self.same_value(*other) {
                lemma_rat_eq_at(
                    self.num(),
                    self.scale as int,
                    other.num(),
                    other.scale as int,
                    k,
                );
            }
        }
        r
    }

    /// The decimal that denotes the integer `n`.
    pub fn from_u64(n: u64) -> (r: Decimal)
        ensures
            r.wf(),
            r.num() == n as int,
            r.scale == 0,
            !r.neg,
            r.digits@ == nat_digits(n as nat),
    {
        let digits = u64_to_dec_digits(n);
        Decimal { neg: false, digits, scale: 0 }
    }

    /// Renders the decimal in plain notation, the way bigdecimal prints it.
    pub fn render(&self) -> (r: String)
        requires
            self.wf(),
        ensures
            r@ == dec_render(self.neg, self.digits@, self.scale as int),
    {
        let mut out = String::new();
        if self.neg {
            crate::strutil::push_char(&mut out, '-');
        }
        let len: u64 = self.digits.as_str().unicode_len() as u64;
        if self.scale == 0 {
            out.append(self.digits.as_str());
            proof {
                assert(out@ =~= dec_render(self.neg, self.digits@, self.scale as int));
            }
        } else if (self.scale as u64) < len {
            let cut = self.digits.as_str().unicode_len() - self.scale as usize;
            out.append(self.digits.as_str().substring_char(0, cut));
            crate::strutil::push_char(&mut out, '.');
            out.append(
                self.digits.as_str().substring_char(cut, self.digits.as_str().unicode_len()),
            );
            proof {
                assert(out@ =~= dec_render(self.neg, self.digits@, self.scale as int));
            }
        } else {
            crate::strutil::push_char(&mut out, '0');
            crate::strutil::push_char(&mut out, '.');
            let mut pad: u64 = self.scale as u64 - len;
            while pad > 0
                invariant
                    out@ + repeat_char('0', pad as nat) + self.digits@ == ({
                        let scale0 = self.scale as u64;
                        let len0 = self.digits@.len();
                        (if self.neg {
                            seq!['-']
                        } else {
                            Seq::<char>::empty()
                        }) + seq!['0', '.'] + repeat_char('0', (scale0 - len0) as nat)
                            + self.digits@
                    }),
                decreases pad,
            {
                crate::strutil::push_char(&mut out, '0');
                pad = pad - 1;
                proof {
                    assert(out@ + repeat_char('0', pad as nat) =~= (out@.drop_last()
                        + repeat_char('0', (pad + 1) as nat)));
                }
            }
            out.append(self.digits.as_str());
            proof {
                assert(out@ + repeat_char('0', 0) + self.digits@ =~= out@ + self.digits@);
                assert(out@ =~= dec_render(self.neg, self.digits@, self.scale as int));
            }
        }
        out
    }
}

/// The decimal digit characters of `n`, most significant first.
pub fn u64_to_dec_digits(n: u64) -> (r: String)
    ensures
        chars_digits_wf(r@),
        chars_int(r@) == n as int,
        r@ == nat_digits(n as nat),
    decreases n,
{
    if n < 10 {
        let mut r = String::new();
        crate::strutil::push_char(&mut r, digit_to_char(n as u8));
        proof {
            assert(r@ =~= seq![digit_char(n as int)]);
            assert(r@.drop_last() =~= Seq::<char>::empty());
            assert(chars_int(Seq::<char>::empty()) == 0);
            assert(chars_int(r@) == chars_int(r@.drop_last()) * 10 + char_digit(r@.last()));
        }
        r
    } else {
        let mut r = u64_to_dec_digits(n / 10);
        proof {
            lemma_chars_int_zero(r@);
            assert(n / 10 >= 1) by (nonlinear_arith)
                requires
                    n >= 10,
            ;
            assert(!(r@ =~= seq!['0'])) by {
                if chars_int(r@) == 0 {
                    assert(r@ =~= seq!['0']);
                }
            }
        }
        let ghost front = r@;
        crate::strutil::push_char(&mut r, digit_to_char((n % 10) as u8));
        proof {
            assert(r@.drop_last() =~= front);
            assert(chars_int(r@) == chars_int(front) * 10 + char_digit(r@.last()));
            assert((n / 10) * 10 + n % 10 == n) by (nonlinear_arith);
            if front.len() == 1 {
                assert(front[0] != '0') by {
                    if front[0] == '0' {
                        assert(front =~= seq!['0']);
                    }
                }
            }
            assert(r@[0] == front[0]);
        }
        r
    }
}

/// Ten to the twentieth power exceeds the largest 64-bit count.
pub proof fn lemma_pow10_twenty()
    ensures
        pow10(20) > 0xFFFF_FFFF_FFFF_FFFF,
{
    assert(pow10(0) == 1);
    assert(pow10(1) == 10);
    assert(pow10(2) == 100);
    assert(pow10(3) == 1000);
    assert(pow10(4) == 10000);
    assert(pow10(5) == 100000);
    lemma_pow10_add(5, 5);
    assert(pow10(10) == 10000000000);
    lemma_pow10_add(10, 10);
    assert(pow10(20) == 10000000000 * 10000000000);
}

/// A number below ten to the `k` has at most `k` digits.
pub proof fn lemma_nat_digits_len(n: nat, k: nat)
    requires
        k >= 1,
        n < pow10(k),
    ensures
        nat_digits(n).len() <= k,
    decreases n,
{
    if n >= 10 {
        assert(pow10(k) == 10 * pow10((k - 1) as nat));
        assert(k >= 2) by {
            if k == 1 {
                assert(pow10(1nat) == 10 * pow10(0nat));
                assert(pow10(0nat) == 1);
            }
        }
        assert(n / 10 < pow10((k - 1) as nat)) by (nonlinear_arith)
            requires
                n < 10 * pow10((k - 1) as nat),
                n >= 10,
        ;
        lemma_nat_digits_len(n / 10, (k - 1) as nat);
    }
}

/// Plain decimal notation: sign, integer part, and a fractional part when the
/// scale calls for one.
pub open spec fn dec_render(neg: bool, ds: Seq<char>, scale: int) -> Seq<char> {
    let body = if scale <= 0 {
        ds
    } else if scale < ds.len() {
        ds.take(ds.len() - scale) + seq!['.'] + ds.skip(ds.len() - scale)
    } else {
        seq!['0', '.'] + repeat_char('0', (scale - ds.len()) as nat) + ds
    };
    if neg {
        seq!['-'] + body
    } else {
        body
    }
}

// ---------------------------------------------------------------------------
// Order facts used by sorting and by the value comparisons
// ---------------------------------------------------------------------------
/// The decimal order is transitive.
pub proof fn lemma_dec_le_trans(a: Decimal, b: Decimal, c: Decimal)
    requires
        a.wf(),
        b.wf(),
        c.wf(),
        a.le(b),
        b.le(c),
    ensures
        a.le(c),
{
    let pa = pow10(a.scale as nat);
    let pb = pow10(b.scale as nat);
    let pc = pow10(c.scale as nat);
    lemma_pow10_pos(a.scale as nat);
    lemma_pow10_pos(b.scale as nat);
    lemma_pow10_pos(c.scale as nat);
    assert(a.num() * pc <= c.num() * pa) by (nonlinear_arith)
        requires
            a.num() * pb <= b.num() * pa,
            b.num() * pc <= c.num() * pb,
            pa >= 1,
            pb >= 1,
            pc >= 1,
    ;
}

/// Two decimals below each other denote the same value.
pub proof fn lemma_dec_le_antisym(a: Decimal, b: Decimal)
    requires
        a.wf(),
        b.wf(),
        a.le(b),
        b.le(a),
    ensures
        a.same_value(b),
{
    lemma_rat_eq_from(
        a.num(),
        a.scale as int,
        b.num(),
        b.scale as int,
        a.scale as int + b.scale as int,
    );
}

} // verus!
