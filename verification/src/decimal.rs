//! Exact decimal numbers.
//!
//! A [`Decimal`] is an unscaled integer of any size together with a scale:
//! the number it stands for is `unscaled / 10^scale`. It holds the integer as
//! bytes in two's complement, most significant byte first.
//!
//! The arithmetic itself is done by the `bigdecimal` crate. Each operation is
//! a small function that hands the bytes and the scale to the crate, through
//! `BigInt::from_signed_bytes_be` and `BigDecimal::new`, and takes the result
//! back through `into_bigint_and_scale` and `to_signed_bytes_be`. What such a
//! function returns is stated over the mathematical model [`DecimalView`] and
//! is taken on trust; everything else in the library is proved from it.
//!
//! The crate adds and subtracts scales as `i64`, and it orders two numbers
//! of different scales by an estimate of their sizes in floating point. That
//! estimate is off by one at a difference of 163,506,621 between the scales,
//! the first of many, and the crate then takes `10^163506621` for smaller
//! than itself written at another scale. Arithmetic is therefore carried out
//! only on numbers whose scale is at most [`MAX_SCALE`] in magnitude: no two
//! such scales are that far apart.
//!
//! Across different scales `==` is decided by the order in both directions.
//! The crate's own `==` is asked only for two numbers of one scale: across
//! scales it multiplies 32-bit digits by a power of ten and adds a carry
//! without checking, and so takes some equal numbers for different.

use num_bigint::BigInt;
use bigdecimal::BigDecimal;
use bigdecimal::ParseBigDecimalError;
use bigdecimal::RoundingMode;
use bigdecimal::ToPrimitive;
use std::str::FromStr;
use vstd::arithmetic::power::pow;
use vstd::prelude::*;
use vstd::std_specs::cmp::PartialEqSpecImpl;

verus! {

/// The largest magnitude of a scale on which arithmetic is carried out.
pub const MAX_SCALE: i64 = 80000000;

/// The mathematical content of a decimal: the number `unscaled / 10^scale`,
/// together with the scale it is written at.
pub struct DecimalView {
    pub unscaled: int,
    pub scale: int,
}

/// The direction in which digits are dropped.
#[derive(Clone, Copy, Debug, PartialEq, Eq)]
pub enum Rounding {
    /// To the nearest neighbour, a tie going away from zero.
    HalfUp,
    /// Toward positive infinity.
    Ceiling,
    /// Toward negative infinity.
    Floor,
}

/// The `n`-th power of ten.
pub open spec fn pow10(n: nat) -> int {
    pow(10, n)
}

/// The larger of two integers.
pub open spec fn max_int(a: int, b: int) -> int {
    if a >= b {
        a
    } else {
        b
    }
}

impl DecimalView {
    /// The unscaled integer of the same number written at `scale`, which is
    /// not below the own scale.
    pub open spec fn rescaled(self, scale: int) -> int
        recommends
            scale >= self.scale,
    {
        self.unscaled * pow10((scale - self.scale) as nat)
    }

    /// Whether the scale is one on which arithmetic is carried out.
    pub open spec fn in_range(self) -> bool {
        -MAX_SCALE <= self.scale <= MAX_SCALE
    }

    /// Whether both stand for the same number, whatever their scales.
    pub open spec fn same_number(self, other: DecimalView) -> bool {
        let m = max_int(self.scale, other.scale);
        self.rescaled(m) == other.rescaled(m)
    }

    /// What `==` answers. Two numbers written at one scale are equal where
    /// their unscaled integers are. Two numbers written at different scales
    /// are equal where both scales are in range and both stand for the same
    /// number; beyond the range they are not aligned, and count as
    /// different.
    pub open spec fn equals(self, other: DecimalView) -> bool {
        if self.scale == other.scale {
            self.unscaled == other.unscaled
        } else {
            self.in_range() && other.in_range() && self.same_number(other)
        }
    }

    /// Numeric order.
    pub open spec fn le(self, other: DecimalView) -> bool {
        let m = max_int(self.scale, other.scale);
        self.rescaled(m) <= other.rescaled(m)
    }

    /// Whether the number is one, written with at most 38 fractional digits.
    pub open spec fn is_short_one(self) -> bool {
        0 <= self.scale <= 38 && self.unscaled == pow10(self.scale as nat)
    }
}

/// The sum, written at the larger of the two scales.
pub open spec fn decimal_sum(a: DecimalView, b: DecimalView) -> DecimalView {
    let m = max_int(a.scale, b.scale);
    DecimalView { unscaled: a.rescaled(m) + b.rescaled(m), scale: m }
}

/// The difference: zero on either side leaves the other operand's scale
/// alone, otherwise the result is written at the larger scale.
pub open spec fn decimal_difference(a: DecimalView, b: DecimalView) -> DecimalView {
    let m = max_int(a.scale, b.scale);
    if b.unscaled == 0 {
        a
    } else if a.unscaled == 0 {
        DecimalView { unscaled: -b.unscaled, scale: b.scale }
    } else {
        DecimalView { unscaled: a.rescaled(m) - b.rescaled(m), scale: m }
    }
}

/// The product: a factor that is a short one hands the other factor back
/// unchanged, otherwise the unscaled integers multiply and the scales add.
pub open spec fn decimal_product(a: DecimalView, b: DecimalView) -> DecimalView {
    if a.is_short_one() {
        b
    } else if b.is_short_one() {
        a
    } else {
        DecimalView { unscaled: a.unscaled * b.unscaled, scale: a.scale + b.scale }
    }
}

/// The quotient of two decimals as `bigdecimal` computes it. The dividend's
/// unscaled integer is multiplied by ten until it is not the smaller of the
/// two, and divided; the scale is the difference of the scales and one more
/// for each such ten. Where that division leaves a remainder, further digits
/// are produced one by one, each adding one to the scale, until none is left
/// or the quotient has as many digits as the precision that the crate was
/// built with, a hundred unless its build says otherwise; the last digit is
/// then rounded up where the next one would be five or more.
pub uninterp spec fn decimal_quotient(a: DecimalView, b: DecimalView) -> DecimalView;

/// The magnitude of an integer.
pub open spec fn magnitude(n: int) -> int {
    if n < 0 {
        -n
    } else {
        n
    }
}

/// How many times a positive `num` has to be multiplied by ten to reach
/// `den`.
pub open spec fn tens_to_reach(num: int, den: int) -> nat
    decreases
            (if den > num {
                den - num
            } else {
                0
            }),
{
    if 0 < num < den {
        1 + tens_to_reach(num * 10, den)
    } else {
        0
    }
}

/// The quotient where the division comes out at once: of zero, by a short
/// one, of two equal unscaled integers, and where the divisor's unscaled
/// integer divides the other one, which is first multiplied by ten until it
/// is not the smaller of the two. `None` where none of these holds.
pub open spec fn exact_quotient(a: DecimalView, b: DecimalView) -> Option<DecimalView> {
    let num = magnitude(a.unscaled);
    let den = magnitude(b.unscaled);
    let tens = tens_to_reach(num, den);
    let shifted = num * pow10(tens);
    if b.unscaled == 0 {
        None
    } else if a.unscaled == 0 || b.is_short_one() {
        Some(a)
    } else if a.unscaled == b.unscaled {
        Some(DecimalView { unscaled: 1, scale: a.scale - b.scale })
    } else if shifted % den == 0 {
        Some(
            DecimalView {
                unscaled: if (a.unscaled < 0) == (b.unscaled < 0) {
                    shifted / den
                } else {
                    -(shifted / den)
                },
                scale: a.scale - b.scale + tens,
            },
        )
    } else {
        None
    }
}

/// The quotient: exact where the division comes out at once, else as
/// `bigdecimal` computes it.
pub open spec fn decimal_ratio(a: DecimalView, b: DecimalView) -> DecimalView {
    match exact_quotient(a, b) {
        Some(q) => q,
        None => decimal_quotient(a, b),
    }
}

/// The number with its sign changed, at the same scale.
pub open spec fn decimal_negation(a: DecimalView) -> DecimalView {
    DecimalView { unscaled: -a.unscaled, scale: a.scale }
}

/// `n / d` for a positive `d`, brought to an integer in the given direction.
pub open spec fn rounded_quotient(n: int, d: int, mode: Rounding) -> int
    recommends
        d > 0,
{
    match mode {
        Rounding::Floor => n / d,
        Rounding::Ceiling => -((-n) / d),
        Rounding::HalfUp => if n >= 0 {
            (2 * n + d) / (2 * d)
        } else {
            -((-2 * n + d) / (2 * d))
        },
    }
}

/// The number written at `scale`: padded with zeros where the scale grows,
/// rounded in the given direction where it shrinks.
pub open spec fn decimal_rounded(a: DecimalView, scale: int, mode: Rounding) -> DecimalView {
    if scale >= a.scale {
        DecimalView { unscaled: a.rescaled(scale), scale }
    } else {
        DecimalView {
            unscaled: rounded_quotient(a.unscaled, pow10((a.scale - scale) as nat), mode),
            scale,
        }
    }
}

/// The integer part of the number, the fraction cut off toward zero.
pub open spec fn decimal_truncated(a: DecimalView) -> int {
    if a.scale <= 0 {
        a.unscaled * pow10((-a.scale) as nat)
    } else if a.unscaled >= 0 {
        a.unscaled / pow10(a.scale as nat)
    } else {
        -((-a.unscaled) / pow10(a.scale as nat))
    }
}

/// Whether `c` is one of the ten digits.
pub open spec fn is_digit(c: char) -> bool {
    '0' <= c && c <= '9'
}

/// The character that writes a digit.
pub open spec fn digit_char(d: int) -> char
    recommends
        0 <= d < 10,
{
    (d + 48) as u8 as char
}

/// The decimal digits of a natural number, most significant first.
pub open spec fn digit_chars(n: nat) -> Seq<char>
    decreases n,
{
    if n < 10 {
        seq![digit_char(n as int)]
    } else {
        digit_chars(n / 10).push(digit_char((n % 10) as int))
    }
}

/// A run of `n` zeros.
pub open spec fn zeros(n: int) -> Seq<char> {
    Seq::new(n as nat, |i: int| '0')
}

/// The number in plain notation: a minus sign where it is negative, the
/// digits, and a point before the last `scale` of them. A scale that is not
/// positive appends zeros instead; one beyond the digit count pads the
/// fraction after a leading `0.`.
pub open spec fn plain_text(a: DecimalView) -> Seq<char> {
    let d = digit_chars(
        (if a.unscaled < 0 {
            -a.unscaled
        } else {
            a.unscaled
        }) as nat,
    );
    let body = if a.scale <= 0 {
        d + zeros(-a.scale)
    } else if a.scale < d.len() {
        d.subrange(0, d.len() - a.scale) + seq!['.'] + d.subrange(d.len() - a.scale, d.len() as int)
    } else {
        seq!['0', '.'] + zeros(a.scale - d.len()) + d
    };
    if a.unscaled < 0 {
        seq!['-'] + body
    } else {
        body
    }
}

/// How many digits stand at position `i`.
pub open spec fn digits_at(s: Seq<char>, i: int) -> nat
    decreases s.len() - i,
{
    if 0 <= i < s.len() && is_digit(s[i]) {
        1 + digits_at(s, i + 1)
    } else {
        0
    }
}

/// The value of a run of digits read as a natural number.
pub open spec fn digits_value(s: Seq<char>) -> nat
    decreases s.len(),
{
    if s.len() == 0 {
        0
    } else {
        (10 * digits_value(s.drop_last()) + (s.last() as int - 48)) as nat
    }
}

/// Whether `s` is a literal: digits, then optionally a point and more digits.
pub open spec fn is_literal(s: Seq<char>) -> bool {
    let whole = digits_at(s, 0) as int;
    &&& whole > 0
    &&& whole == s.len() || {
        &&& s[whole] == '.'
        &&& digits_at(s, whole + 1) > 0
        &&& whole + 1 + digits_at(s, whole + 1) == s.len()
    }
}

/// The decimal that a literal writes: all its digits as the unscaled integer,
/// the count of those after the point as the scale.
pub open spec fn literal_value(s: Seq<char>) -> DecimalView
    recommends
        is_literal(s),
{
    let whole = digits_at(s, 0) as int;
    if whole == s.len() {
        DecimalView { unscaled: digits_value(s) as int, scale: 0 }
    } else {
        DecimalView {
            unscaled: digits_value(s.subrange(0, whole) + s.subrange(whole + 1, s.len() as int)) as int,
            scale: s.len() - whole - 1,
        }
    }
}

/// What `bigdecimal` reads a text as: `None` where it rejects the text.
pub uninterp spec fn parsed_decimal(text: Seq<char>) -> Option<DecimalView>;

/// Whether a digit stands anywhere in the text.
pub open spec fn has_digit(text: Seq<char>) -> bool {
    exists|i: int| 0 <= i < text.len() && is_digit(#[trigger] text[i])
}

/// The decimal that a text reads as: a literal as the decimal it writes, a
/// text without a digit as none, and any other text as `bigdecimal` reads
/// it, which takes a sign and an exponent too. `None` where the text is no
/// number.
pub open spec fn decimal_of_text(text: Seq<char>) -> Option<DecimalView> {
    if is_literal(text) {
        Some(literal_value(text))
    } else if !has_digit(text) {
        None
    } else {
        parsed_decimal(text)
    }
}

/// The integer that big-endian bytes write in two's complement.
pub open spec fn twos_complement(bytes: Seq<u8>) -> int
    decreases bytes.len(),
{
    if bytes.len() == 0 {
        0
    } else if bytes.len() == 1 {
        if bytes[0] >= 128 {
            bytes[0] - 256
        } else {
            bytes[0] as int
        }
    } else {
        256 * twos_complement(bytes.drop_last()) + bytes.last()
    }
}

/// Bytes write zero just where all of them are zero.
proof fn lemma_zero_bytes(bytes: Seq<u8>)
    ensures
        twos_complement(bytes) == 0 <==> forall|k: int| 0 <= k < bytes.len() ==> bytes[k] == 0,
    decreases bytes.len(),
{
    if bytes.len() > 1 {
        let front = bytes.drop_last();
        lemma_zero_bytes(front);
        if twos_complement(bytes) == 0 {
            assert(twos_complement(front) == 0 && bytes.last() == 0) by (nonlinear_arith)
                requires
                    256 * twos_complement(front) + bytes.last() == 0,
                    0 <= bytes.last() < 256,
            ;
            assert forall|k: int| 0 <= k < bytes.len() implies bytes[k] == 0 by {
                if k < bytes.len() - 1 {
                    assert(front[k] == bytes[k]);
                }
            }
        }
        if forall|k: int| 0 <= k < bytes.len() ==> bytes[k] == 0 {
            assert forall|k: int| 0 <= k < front.len() implies front[k] == 0 by {
                assert(front[k] == bytes[k]);
            }
            assert(bytes.last() == 0);
        }
    }
}

/// An exact decimal number of any size.
#[derive(Debug)]
pub struct Decimal {
    unscaled: Vec<u8>,
    scale: i64,
}

impl View for Decimal {
    type V = DecimalView;

    closed spec fn view(&self) -> DecimalView {
        DecimalView { unscaled: twos_complement(self.unscaled@), scale: self.scale as int }
    }
}

/// Why `bigdecimal` rejected a text.
#[verifier::external_type_specification]
#[verifier::external_body]
pub struct ExParseBigDecimalError(ParseBigDecimalError);

/// `BigDecimal::from_str`: the text is read as `parsed_decimal` names it. A
/// literal is accepted with the value it writes, and a text without a digit
/// is rejected.
#[verifier::external_body]
pub(crate) fn decimal_from_str(text: &str) -> (r: Result<Decimal, ParseBigDecimalError>)
    ensures
        r is Ok <==> parsed_decimal(text@) is Some,
        r is Ok ==> Some(r->Ok_0@) == parsed_decimal(text@),
        is_literal(text@) ==> r is Ok && r->Ok_0@ == literal_value(text@),
        !has_digit(text@) ==> r is Err,
{
    let (n, scale) = BigDecimal::from_str(text)?.into_bigint_and_scale();
    Ok(Decimal { unscaled: n.to_signed_bytes_be(), scale })
}

/// `BigDecimal::from` of an `i64`: the integer at scale 0.
#[verifier::external_body]
fn decimal_from_i64(n: i64) -> (r: Decimal)
    ensures
        r@ == (DecimalView { unscaled: n as int, scale: 0 }),
{
    let (n, scale) = BigDecimal::from(n).into_bigint_and_scale();
    Decimal { unscaled: n.to_signed_bytes_be(), scale }
}

/// `BigDecimal::from` of a `u64`: the integer at scale 0.
#[verifier::external_body]
fn decimal_from_u64(n: u64) -> (r: Decimal)
    ensures
        r@ == (DecimalView { unscaled: n as int, scale: 0 }),
{
    let (n, scale) = BigDecimal::from(n).into_bigint_and_scale();
    Decimal { unscaled: n.to_signed_bytes_be(), scale }
}

/// `+` on two owned `BigDecimal`s: the exact sum at the larger scale.
#[verifier::external_body]
pub(crate) fn decimal_add(a: &Decimal, b: &Decimal) -> (r: Decimal)
    requires
        a@.in_range(),
        b@.in_range(),
    ensures
        r@ == decimal_sum(a@, b@),
{
    let x = BigDecimal::new(BigInt::from_signed_bytes_be(&a.unscaled), a.scale);
    let y = BigDecimal::new(BigInt::from_signed_bytes_be(&b.unscaled), b.scale);
    let (n, scale) = (x + y).into_bigint_and_scale();
    Decimal { unscaled: n.to_signed_bytes_be(), scale }
}

/// `-` on two owned `BigDecimal`s: the exact difference, at the scale that
/// `decimal_difference` gives.
#[verifier::external_body]
pub(crate) fn decimal_sub(a: &Decimal, b: &Decimal) -> (r: Decimal)
    requires
        a@.in_range(),
        b@.in_range(),
    ensures
        r@ == decimal_difference(a@, b@),
{
    let x = BigDecimal::new(BigInt::from_signed_bytes_be(&a.unscaled), a.scale);
    let y = BigDecimal::new(BigInt::from_signed_bytes_be(&b.unscaled), b.scale);
    let (n, scale) = (x - y).into_bigint_and_scale();
    Decimal { unscaled: n.to_signed_bytes_be(), scale }
}

/// `*` on two owned `BigDecimal`s: the exact product, at the scale that
/// `decimal_product` gives.
#[verifier::external_body]
pub(crate) fn decimal_mul(a: &Decimal, b: &Decimal) -> (r: Decimal)
    requires
        a@.in_range(),
        b@.in_range(),
    ensures
        r@ == decimal_product(a@, b@),
{
    let x = BigDecimal::new(BigInt::from_signed_bytes_be(&a.unscaled), a.scale);
    let y = BigDecimal::new(BigInt::from_signed_bytes_be(&b.unscaled), b.scale);
    let (n, scale) = (x * y).into_bigint_and_scale();
    Decimal { unscaled: n.to_signed_bytes_be(), scale }
}

/// `/` on two owned `BigDecimal`s, which panics on a zero divisor: the
/// quotient that `decimal_quotient` names, which is the exact one where the
/// division comes out at once.
#[verifier::external_body]
pub(crate) fn decimal_div(a: &Decimal, b: &Decimal) -> (r: Decimal)
    requires
        a@.in_range(),
        b@.in_range(),
        b@.unscaled != 0,
    ensures
        r@ == decimal_quotient(a@, b@),
        exact_quotient(a@, b@) is Some ==> r@ == exact_quotient(a@, b@)->Some_0,
{
    let x = BigDecimal::new(BigInt::from_signed_bytes_be(&a.unscaled), a.scale);
    let y = BigDecimal::new(BigInt::from_signed_bytes_be(&b.unscaled), b.scale);
    let (n, scale) = (x / y).into_bigint_and_scale();
    Decimal { unscaled: n.to_signed_bytes_be(), scale }
}

/// Unary `-` on an owned `BigDecimal`: the unscaled integer changes sign, the
/// scale stays.
#[verifier::external_body]
pub(crate) fn decimal_neg(a: &Decimal) -> (r: Decimal)
    ensures
        r@ == decimal_negation(a@),
{
    let x = BigDecimal::new(BigInt::from_signed_bytes_be(&a.unscaled), a.scale);
    let (n, scale) = (-x).into_bigint_and_scale();
    Decimal { unscaled: n.to_signed_bytes_be(), scale }
}

/// `<=` on `BigDecimal`: numeric order, whatever the scales.
#[verifier::external_body]
pub(crate) fn decimal_le(a: &Decimal, b: &Decimal) -> (r: bool)
    requires
        a@.in_range(),
        b@.in_range(),
    ensures
        r == a@.le(b@),
{
    let x = BigDecimal::new(BigInt::from_signed_bytes_be(&a.unscaled), a.scale);
    let y = BigDecimal::new(BigInt::from_signed_bytes_be(&b.unscaled), b.scale);
    x <= y
}

/// `==` on two `BigDecimal`s of one scale: whether their unscaled integers
/// are the same. The crate compares the signs and the magnitudes as they
/// are; no power of ten comes in.
#[verifier::external_body]
fn decimal_eq_at_scale(a: &Decimal, b: &Decimal) -> (r: bool)
    requires
        a@.scale == b@.scale,
    ensures
        r == (a@.unscaled == b@.unscaled),
{
    let x = BigDecimal::new(BigInt::from_signed_bytes_be(&a.unscaled), a.scale);
    let y = BigDecimal::new(BigInt::from_signed_bytes_be(&b.unscaled), b.scale);
    x == y
}

/// `BigDecimal::with_scale_round` in one of three of its modes: the number
/// at the new scale, rounded as `decimal_rounded` says.
#[verifier::external_body]
pub(crate) fn decimal_round(a: &Decimal, scale: i64, mode: Rounding) -> (r: Decimal)
    requires
        a@.in_range(),
        -MAX_SCALE <= scale <= MAX_SCALE,
    ensures
        r@ == decimal_rounded(a@, scale as int, mode),
{
    let x = BigDecimal::new(BigInt::from_signed_bytes_be(&a.unscaled), a.scale);
    let m = match mode {
        Rounding::HalfUp => RoundingMode::HalfUp,
        Rounding::Ceiling => RoundingMode::Ceiling,
        Rounding::Floor => RoundingMode::Floor,
    };
    let (n, scale) = x.with_scale_round(scale, m).into_bigint_and_scale();
    Decimal { unscaled: n.to_signed_bytes_be(), scale }
}

/// `ToPrimitive::to_i64` of a `BigDecimal`: the integer part where an `i64`
/// holds it.
#[verifier::external_body]
pub(crate) fn decimal_to_i64(a: &Decimal) -> (r: Option<i64>)
    requires
        a@.in_range(),
    ensures
        r == if i64::MIN <= decimal_truncated(a@) <= i64::MAX {
            Some(decimal_truncated(a@) as i64)
        } else {
            None
        },
{
    BigDecimal::new(BigInt::from_signed_bytes_be(&a.unscaled), a.scale).to_i64()
}

/// `BigDecimal::to_plain_string`: the number in plain notation, without an
/// exponent.
#[verifier::external_body]
pub(crate) fn decimal_to_plain_string(a: &Decimal) -> (r: String)
    requires
        a@.in_range(),
    ensures
        r@ == plain_text(a@),
{
    BigDecimal::new(BigInt::from_signed_bytes_be(&a.unscaled), a.scale).to_plain_string()
}


impl Decimal {
    /// The integer `n`, at scale 0.
    pub fn from_i64(n: i64) -> (r: Decimal)
        ensures
            r@ == (DecimalView { unscaled: n as int, scale: 0 }),
    {
        decimal_from_i64(n)
    }

    /// The integer `n`, at scale 0.
    pub fn from_u64(n: u64) -> (r: Decimal)
        ensures
            r@ == (DecimalView { unscaled: n as int, scale: 0 }),
    {
        decimal_from_u64(n)
    }

    /// The decimal whose unscaled integer the bytes write, most significant
    /// byte first and in two's complement, at the given scale.
    pub fn from_signed_bytes(unscaled: Vec<u8>, scale: i64) -> (r: Decimal)
        ensures
            r@ == (DecimalView { unscaled: twos_complement(unscaled@), scale: scale as int }),
    {
        Decimal { unscaled, scale }
    }

    /// Bytes that write the unscaled integer, most significant byte first
    /// and in two's complement.
    pub fn signed_bytes(&self) -> (r: &Vec<u8>)
        ensures
            twos_complement(r@) == self@.unscaled,
    {
        &self.unscaled
    }

    /// Reads a decimal from text: `None` where the text is not a number.
    pub fn parse(text: &str) -> (r: Option<Decimal>)
        ensures
            match decimal_of_text(text@) {
                Some(d) => r is Some && r->Some_0@ == d,
                None => r is None,
            },
    {
        match decimal_from_str(text) {
            Ok(d) => Some(d),
            Err(_) => None,
        }
    }

    /// The scale the number is written at.
    pub fn scale(&self) -> (r: i64)
        ensures
            r == self@.scale,
    {
        self.scale
    }

    /// Whether arithmetic is carried out on this number.
    pub fn in_range(&self) -> (r: bool)
        ensures
            r == self@.in_range(),
    {
        -MAX_SCALE <= self.scale && self.scale <= MAX_SCALE
    }

    /// Whether the number is zero.
    pub fn is_zero(&self) -> (r: bool)
        ensures
            r == (self@.unscaled == 0),
    {
        let mut i: usize = 0;
        while i < self.unscaled.len()
            invariant
                i <= self.unscaled.len(),
                forall|k: int| 0 <= k < i ==> self.unscaled@[k] == 0,
            decreases self.unscaled.len() - i,
        {
            if self.unscaled[i] != 0 {
                proof {
                    lemma_zero_bytes(self.unscaled@);
                }
                return false;
            }
            i += 1;
        }
        proof {
            lemma_zero_bytes(self.unscaled@);
        }
        true
    }

    /// The number in plain notation.
    pub fn to_plain_string(&self) -> (r: String)
        requires
            self@.in_range(),
        ensures
            r@ == plain_text(self@),
    {
        decimal_to_plain_string(self)
    }
}

impl Clone for Decimal {
    fn clone(&self) -> (r: Self)
        ensures
            r@ == self@,
    {
        Decimal { unscaled: self.unscaled.clone(), scale: self.scale }
    }
}

impl PartialEq for Decimal {
    fn eq(&self, other: &Decimal) -> (r: bool) {
        if self.scale == other.scale {
            decimal_eq_at_scale(self, other)
        } else if self.in_range() && other.in_range() {
            decimal_le(self, other) && decimal_le(other, self)
        } else {
            false
        }
    }
}

impl PartialEqSpecImpl for Decimal {
    open spec fn obeys_eq_spec() -> bool {
        true
    }

    open spec fn eq_spec(&self, other: &Decimal) -> bool {
        self@.equals(other@)
    }
}

/// Written at a still larger scale, a number's unscaled integer is
/// multiplied by the power of ten between the two scales.
proof fn lemma_rescaled_further(a: DecimalView, m: int, n: int)
    requires
        a.scale <= m <= n,
    ensures
        a.rescaled(n) == a.rescaled(m) * pow10((n - m) as nat),
{
    vstd::arithmetic::power::lemma_pow_adds(10, (m - a.scale) as nat, (n - m) as nat);
    assert((m - a.scale) as nat + (n - m) as nat == (n - a.scale) as nat);
    assert(a.unscaled * (pow10((m - a.scale) as nat) * pow10((n - m) as nat)) == (a.unscaled
        * pow10((m - a.scale) as nat)) * pow10((n - m) as nat)) by (nonlinear_arith);
}

/// Two numbers written at one scale stand for the same number just where
/// their unscaled integers are the same.
pub proof fn lemma_same_scale(a: DecimalView, b: DecimalView)
    requires
        a.scale == b.scale,
    ensures
        a.same_number(b) == (a.unscaled == b.unscaled),
{
    vstd::arithmetic::power::lemma_pow0(10);
    assert(pow10(0) == 1);
    assert(a.unscaled * 1 == a.unscaled) by (nonlinear_arith);
    assert(b.unscaled * 1 == b.unscaled) by (nonlinear_arith);
}

/// On two numbers with scales in range, `==` is whether both stand for the
/// same number.
pub proof fn lemma_equal_in_range(a: DecimalView, b: DecimalView)
    requires
        a.in_range(),
        b.in_range(),
    ensures
        a.equals(b) == a.same_number(b),
{
    if a.scale == b.scale {
        lemma_same_scale(a, b);
    }
}

/// The order of two numbers can be read at any scale that both can be
/// written at.
pub proof fn lemma_order_at(a: DecimalView, b: DecimalView, n: int)
    requires
        a.scale <= n,
        b.scale <= n,
    ensures
        a.le(b) <==> a.rescaled(n) <= b.rescaled(n),
{
    let m = max_int(a.scale, b.scale);
    let p = pow10((n - m) as nat);
    lemma_rescaled_further(a, m, n);
    lemma_rescaled_further(b, m, n);
    vstd::arithmetic::power::lemma_pow_positive(10, (n - m) as nat);
    let x = a.rescaled(m);
    let y = b.rescaled(m);
    assert(x <= y <==> x * p <= y * p) by (nonlinear_arith)
        requires
            p > 0,
    ;
}

/// Numeric order is transitive.
pub proof fn lemma_order_transitive(a: DecimalView, b: DecimalView, c: DecimalView)
    requires
        a.le(b),
        b.le(c),
    ensures
        a.le(c),
{
    let n = max_int(a.scale, max_int(b.scale, c.scale));
    lemma_order_at(a, b, n);
    lemma_order_at(b, c, n);
    lemma_order_at(a, c, n);
}

} // verus!
