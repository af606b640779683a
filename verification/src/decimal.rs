//! Exact decimal numbers of any size.
//!
//! A number is an integer of any length, written in decimal digits, and a
//! scale: the number of those digits that stand after the decimal point. No
//! operation here rounds.

use bigdecimal::num_bigint::Sign;
use bigdecimal::BigDecimal;
use std::str::FromStr;
use vstd::prelude::*;

verus! {

/// Ten to the power `n`.
pub open spec fn pow10(n: nat) -> nat
    decreases n,
{
    if n == 0 {
        1
    } else {
        10 * pow10((n - 1) as nat)
    }
}

/// Digit `i` of a number written least significant digit first; zero beyond
/// its end.
pub open spec fn digit_at(digits: Seq<u8>, i: int) -> nat {
    if 0 <= i < digits.len() {
        digits[i] as nat
    } else {
        0
    }
}

/// The number that the lowest `n` digits write.
pub open spec fn low_value(digits: Seq<u8>, n: nat) -> nat
    decreases n,
{
    if n == 0 {
        0
    } else {
        low_value(digits, (n - 1) as nat) + digit_at(digits, n - 1) * pow10((n - 1) as nat)
    }
}

/// The number that `digits` write, least significant digit first.
pub open spec fn magnitude(digits: Seq<u8>) -> nat {
    low_value(digits, digits.len())
}

/// Every digit is one of 0 to 9.
pub open spec fn decimal_digits(digits: Seq<u8>) -> bool {
    forall|i: int| 0 <= i < digits.len() ==> digits[i] < 10
}

/// `value`, negated where `negative`.
pub open spec fn signed(negative: bool, value: int) -> int {
    if negative {
        -value
    } else {
        value
    }
}

/// What a `Decimal` stands for: the number `unscaled / 10^scale`.
pub struct DecimalValue {
    pub unscaled: int,
    pub scale: int,
}

impl DecimalValue {
    pub open spec fn zero() -> DecimalValue {
        DecimalValue { unscaled: 0, scale: 0 }
    }

    /// The integer that writes this number with `scale` digits after the
    /// point, for a `scale` not below its own.
    pub open spec fn at_scale(self, scale: int) -> int {
        self.unscaled * pow10((scale - self.scale) as nat)
    }

    /// The larger of the two scales.
    pub open spec fn common_scale(self, other: DecimalValue) -> int {
        if self.scale >= other.scale {
            self.scale
        } else {
            other.scale
        }
    }

    /// The exact sum, written at the larger of the two scales.
    pub open spec fn plus(self, other: DecimalValue) -> DecimalValue {
        let scale = self.common_scale(other);
        DecimalValue { unscaled: self.at_scale(scale) + other.at_scale(scale), scale }
    }

    /// Both stand for the same number, whatever their scales.
    pub open spec fn same_number(self, other: DecimalValue) -> bool {
        let scale = self.common_scale(other);
        self.at_scale(scale) == other.at_scale(scale)
    }
}

/// The number that a sign, digits (least significant first) and a scale
/// write.
pub open spec fn parts_value(negative: bool, digits: Seq<u8>, scale: int) -> DecimalValue {
    DecimalValue { unscaled: signed(negative, magnitude(digits) as int), scale }
}

pub proof fn lemma_pow10_positive(n: nat)
    ensures
        pow10(n) > 0,
    decreases n,
{
    if n > 0 {
        lemma_pow10_positive((n - 1) as nat);
    }
}

pub proof fn lemma_pow10_add(a: nat, b: nat)
    ensures
        pow10(a + b) == pow10(a) * pow10(b),
    decreases b,
{
    if b == 0 {
        assert(pow10(a) * 1 == pow10(a));
    } else {
        lemma_pow10_add(a, (b - 1) as nat);
        assert(pow10(a + b) == 10 * pow10((a + b - 1) as nat));
        assert(10 * (pow10(a) * pow10((b - 1) as nat)) == pow10(a) * (10 * pow10((b - 1) as nat)))
            by (nonlinear_arith);
    }
}

/// Digits that agree below `n` write the same number there.
proof fn lemma_low_value_agrees(first: Seq<u8>, second: Seq<u8>, n: nat)
    requires
        forall|i: int| 0 <= i < n ==> digit_at(first, i) == digit_at(second, i),
    ensures
        low_value(first, n) == low_value(second, n),
    decreases n,
{
    if n > 0 {
        lemma_low_value_agrees(first, second, (n - 1) as nat);
    }
}

/// `n` decimal digits write a number below `10^n`.
proof fn lemma_low_value_bound(digits: Seq<u8>, n: nat)
    requires
        forall|i: int| 0 <= i < n ==> digit_at(digits, i) < 10,
    ensures
        low_value(digits, n) < pow10(n),
    decreases n,
{
    if n > 0 {
        lemma_low_value_bound(digits, (n - 1) as nat);
        let p = pow10((n - 1) as nat);
        let d = digit_at(digits, n - 1);
        assert(d * p <= 9 * p) by (nonlinear_arith)
            requires
                d <= 9,
                p >= 0,
        ;
    }
}

/// Beyond the last digit nothing is added.
proof fn lemma_low_value_beyond(digits: Seq<u8>, n: nat)
    requires
        n >= digits.len(),
    ensures
        low_value(digits, n) == magnitude(digits),
    decreases n,
{
    if n > digits.len() {
        lemma_low_value_beyond(digits, (n - 1) as nat);
        assert(digit_at(digits, n - 1) * pow10((n - 1) as nat) == 0) by (nonlinear_arith)
            requires
                digit_at(digits, n - 1) == 0,
        ;
    }
}

/// The lowest `n` digits write zero exactly when each of them is zero.
proof fn lemma_low_value_zero(digits: Seq<u8>, n: nat)
    ensures
        low_value(digits, n) == 0 <==> (forall|i: int| 0 <= i < n ==> digit_at(digits, i) == 0),
    decreases n,
{
    if n > 0 {
        lemma_low_value_zero(digits, (n - 1) as nat);
        lemma_pow10_positive((n - 1) as nat);
        let p = pow10((n - 1) as nat);
        let d = digit_at(digits, n - 1);
        assert(d * p == 0 <==> d == 0) by (nonlinear_arith)
            requires
                p > 0,
                d >= 0,
        ;
        if low_value(digits, n) == 0 {
            assert forall|i: int| 0 <= i < n implies digit_at(digits, i) == 0 by {
                if i < n - 1 {
                }
            }
        }
    }
}

/// `count` zeros below `digits` multiply what they write by `10^count`.
proof fn lemma_low_value_shifted(digits: Seq<u8>, count: nat, n: nat)
    ensures
        low_value(Seq::new(count, |i: int| 0u8) + digits, count + n) == pow10(count) * low_value(
            digits,
            n,
        ),
    decreases n,
{
    let zeros = Seq::new(count, |i: int| 0u8);
    let all = zeros + digits;
    if n == 0 {
        lemma_low_value_zero(all, count);
        assert(pow10(count) * 0 == 0);
    } else {
        lemma_low_value_shifted(digits, count, (n - 1) as nat);
        lemma_pow10_add(count, (n - 1) as nat);
        assert(digit_at(all, count + n - 1) == digit_at(digits, n - 1));
        let d = digit_at(digits, n - 1);
        let pc = pow10(count);
        let pn = pow10((n - 1) as nat);
        let low = low_value(digits, (n - 1) as nat);
        assert(pc * low + d * (pc * pn) == pc * (low + d * pn)) by (nonlinear_arith);
    }
}

/// What `BigDecimal::from_str` makes of `text`: whether the number it returns
/// is below zero, the decimal digits of its unscaled integer (least
/// significant first) and its scale; or nothing where it returns an error.
pub uninterp spec fn big_decimal_parsed(text: Seq<char>) -> Option<(bool, Seq<u8>, int)>;

/// Calls `BigDecimal::from_str` on the characters of `text` and takes apart
/// what it returns, with `into_bigint_and_exponent` and `to_radix_le`.
/// Nothing is claimed of the result but that it is what bigdecimal gives for
/// this text.
#[verifier::external_body]
pub(crate) fn parse_big_decimal(text: &Vec<char>) -> (parsed: Option<(bool, Vec<u8>, i64)>)
    ensures
        match parsed {
            Some(parts) => big_decimal_parsed(text@) == Some((parts.0, parts.1@, parts.2 as int)),
            None => big_decimal_parsed(text@) is None,
        },
{
    let written: String = text.iter().collect();
    match BigDecimal::from_str(&written) {
        Ok(number) => {
            let (unscaled, scale) = number.into_bigint_and_exponent();
            let (sign, digits) = unscaled.to_radix_le(10);
            let negative = match sign {
                Sign::Minus => true,
                Sign::NoSign => false,
                Sign::Plus => false,
            };
            Some((negative, digits, scale))
        },
        Err(_) => None,
    }
}

/// A decimal number of any size, exact.
#[derive(Debug)]
pub struct Decimal {
    negative: bool,
    digits: Vec<u8>,
    scale: i64,
}

impl View for Decimal {
    type V = DecimalValue;

    closed spec fn view(&self) -> DecimalValue {
        parts_value(self.negative, self.digits@, self.scale as int)
    }
}

/// `count` zeros, then `digits`: the digits of the number times `10^count`.
fn shifted(digits: &Vec<u8>, count: u64) -> (out: Vec<u8>)
    ensures
        out@ == Seq::new(count as nat, |i: int| 0u8) + digits@,
        magnitude(out@) == pow10(count as nat) * magnitude(digits@),
{
    let mut out: Vec<u8> = Vec::new();
    let mut done: u64 = 0;
    while done < count
        invariant
            done <= count,
            out@ == Seq::new(done as nat, |i: int| 0u8),
        decreases count - done,
    {
        out.push(0);
        done += 1;
    }
    let mut at: usize = 0;
    while at < digits.len()
        invariant
            at <= digits.len(),
            out@ == Seq::new(count as nat, |i: int| 0u8) + digits@.take(at as int),
        decreases digits.len() - at,
    {
        out.push(digits[at]);
        at += 1;
    }
    proof {
        assert(digits@.take(at as int) == digits@);
        lemma_low_value_shifted(digits@, count as nat, digits@.len());
    }
    out
}

/// The number of places by which `scale` lies above `own`.
fn places_between(scale: i64, own: i64) -> (gap: u64)
    requires
        scale >= own,
    ensures
        gap == scale - own,
{
    (scale as i128 - own as i128) as u64
}

/// The lowest digits of `±first ± second`, as many as the longer of the two
/// has, and what is carried out of them.
fn signed_sum(first: &Vec<u8>, first_negative: bool, second: &Vec<u8>, second_negative: bool) -> (out:
    (Vec<u8>, i32))
    ensures
        decimal_digits(out.0@),
        -60 <= out.1 <= 60,
        low_value(out.0@, out.0@.len()) + out.1 * pow10(out.0@.len()) == signed(
            first_negative,
            magnitude(first@) as int,
        ) + signed(second_negative, magnitude(second@) as int),
{
    let n = if first.len() >= second.len() {
        first.len()
    } else {
        second.len()
    };
    let mut out: Vec<u8> = Vec::new();
    let mut carry: i32 = 0;
    let mut at: usize = 0;
    while at < n
        invariant
            at <= n,
            n >= first.len(),
            n >= second.len(),
            out@.len() == at,
            decimal_digits(out@),
            -60 <= carry <= 60,
            low_value(out@, at as nat) + carry * pow10(at as nat) == signed(
                first_negative,
                low_value(first@, at as nat) as int,
            ) + signed(second_negative, low_value(second@, at as nat) as int),
        decreases n - at,
    {
        let x: i32 = if at < first.len() {
            first[at] as i32
        } else {
            0
        };
        let y: i32 = if at < second.len() {
            second[at] as i32
        } else {
            0
        };
        let signed_x: i32 = if first_negative {
            -x
        } else {
            x
        };
        let signed_y: i32 = if second_negative {
            -y
        } else {
            y
        };
        // 600 is a multiple of ten that lifts every column sum above zero.
        let lifted: i32 = signed_x + signed_y + carry + 600;
        let digit: u8 = (lifted % 10) as u8;
        let next: i32 = lifted / 10 - 60;
        proof {
            let before = out@;
            let after = before.push(digit);
            let p = pow10(at as nat) as int;
            lemma_low_value_agrees(before, after, at as nat);
            assert(digit_at(after, at as int) == digit);
            assert(digit_at(first@, at as int) == x);
            assert(digit_at(second@, at as int) == y);
            assert(pow10((at + 1) as nat) == 10 * p);
            assert(signed_x + signed_y + carry == digit + 10 * next);
            assert(signed(first_negative, low_value(first@, (at + 1) as nat) as int) == signed(
                first_negative,
                low_value(first@, at as nat) as int,
            ) + signed_x * p) by (nonlinear_arith)
                requires
                    low_value(first@, (at + 1) as nat) == low_value(first@, at as nat) + x * p,
                    signed_x == signed(first_negative, x as int),
            ;
            assert(signed(second_negative, low_value(second@, (at + 1) as nat) as int) == signed(
                second_negative,
                low_value(second@, at as nat) as int,
            ) + signed_y * p) by (nonlinear_arith)
                requires
                    low_value(second@, (at + 1) as nat) == low_value(second@, at as nat) + y * p,
                    signed_y == signed(second_negative, y as int),
            ;
            assert(digit * p + next * (10 * p) == signed_x * p + signed_y * p + carry * p)
                by (nonlinear_arith)
                requires
                    signed_x + signed_y + carry == digit + 10 * next,
            ;
        }
        out.push(digit);
        carry = next;
        at += 1;
    }
    proof {
        lemma_low_value_beyond(first@, n as nat);
        lemma_low_value_beyond(second@, n as nat);
    }
    (out, carry)
}

/// `digits` with the digits of `carry` above them.
fn with_carry(digits: Vec<u8>, carry: i32) -> (out: Vec<u8>)
    requires
        decimal_digits(digits@),
        0 <= carry <= 60,
    ensures
        decimal_digits(out@),
        magnitude(out@) == magnitude(digits@) + carry * pow10(digits@.len()),
{
    let ghost total = magnitude(digits@) + carry * pow10(digits@.len());
    let mut out = digits;
    let mut left: i32 = carry;
    while left > 0
        invariant
            0 <= left <= 60,
            decimal_digits(out@),
            magnitude(out@) + left * pow10(out@.len()) == total,
        decreases left,
    {
        let digit: u8 = (left % 10) as u8;
        let next: i32 = left / 10;
        proof {
            let before = out@;
            let after = before.push(digit);
            let p = pow10(before.len()) as int;
            lemma_low_value_agrees(before, after, before.len());
            assert(digit_at(after, before.len() as int) == digit);
            assert(pow10(after.len()) == 10 * p);
            assert(digit * p + next * (10 * p) == left * p) by (nonlinear_arith)
                requires
                    left == digit + 10 * next,
            ;
        }
        out.push(digit);
        left = next;
    }
    out
}

/// Whether the digits write zero.
fn all_zero(digits: &Vec<u8>) -> (zero: bool)
    ensures
        zero == (magnitude(digits@) == 0),
{
    proof {
        lemma_low_value_zero(digits@, digits@.len());
    }
    let mut at: usize = 0;
    while at < digits.len()
        invariant
            at <= digits.len(),
            forall|i: int| 0 <= i < at ==> digit_at(digits@, i) == 0,
            magnitude(digits@) == 0 <==> (forall|i: int|
                0 <= i < digits@.len() ==> digit_at(digits@, i) == 0),
        decreases digits.len() - at,
    {
        if digits[at] != 0 {
            assert(digit_at(digits@, at as int) != 0);
            return false;
        }
        at += 1;
    }
    true
}

/// Sign and digits of `±first ± second`.
fn combine(first: &Vec<u8>, first_negative: bool, second: &Vec<u8>, second_negative: bool) -> (out: (
    bool,
    Vec<u8>,
))
    ensures
        decimal_digits(out.1@),
        signed(out.0, magnitude(out.1@) as int) == signed(first_negative, magnitude(first@) as int)
            + signed(second_negative, magnitude(second@) as int),
{
    let (low, carry) = signed_sum(first, first_negative, second, second_negative);
    proof {
        lemma_low_value_bound(low@, low@.len());
        lemma_pow10_positive(low@.len());
    }
    if carry >= 0 {
        (false, with_carry(low, carry))
    } else {
        let (turned, turned_carry) = signed_sum(first, !first_negative, second, !second_negative);
        proof {
            lemma_low_value_bound(turned@, turned@.len());
            lemma_pow10_positive(turned@.len());
            let p = pow10(low@.len()) as int;
            assert(carry * p <= -p) by (nonlinear_arith)
                requires
                    carry <= -1,
                    p > 0,
            ;
            let q = pow10(turned@.len()) as int;
            if turned_carry < 0 {
                assert(turned_carry * q <= -q) by (nonlinear_arith)
                    requires
                        turned_carry <= -1,
                        q > 0,
                ;
            }
        }
        (true, with_carry(turned, turned_carry))
    }
}

impl Decimal {
    /// Every digit is one of 0 to 9.
    pub closed spec fn well_formed(&self) -> bool {
        decimal_digits(self.digits@)
    }

    /// The number with this sign, these digits (least significant first) and
    /// this scale; none where a digit is above 9.
    pub fn from_parts(negative: bool, digits: Vec<u8>, scale: i64) -> (made: Option<Decimal>)
        ensures
            made is Some <==> decimal_digits(digits@),
            made matches Some(number) ==> number@ == parts_value(negative, digits@, scale as int)
                && number.well_formed(),
    {
        let mut at: usize = 0;
        while at < digits.len()
            invariant
                at <= digits.len(),
                forall|i: int| 0 <= i < at ==> digits@[i] < 10,
            decreases digits.len() - at,
        {
            if digits[at] >= 10 {
                return None;
            }
            at += 1;
        }
        Some(Decimal { negative, digits, scale })
    }

    /// Zero, with no digit after the point.
    pub fn zero() -> (number: Decimal)
        ensures
            number@ == DecimalValue::zero(),
            number.well_formed(),
    {
        Decimal { negative: false, digits: Vec::new(), scale: 0 }
    }

    /// The whole number `value`.
    pub fn from_i64(value: i64) -> (number: Decimal)
        ensures
            number@ == (DecimalValue { unscaled: value as int, scale: 0 }),
            number.well_formed(),
    {
        let negative = value < 0;
        let size: u64 = if negative {
            (-(value + 1)) as u64 + 1
        } else {
            value as u64
        };
        let mut digits: Vec<u8> = Vec::new();
        let mut left: u64 = size;
        assert(left * pow10(0) == left) by (nonlinear_arith)
            requires
                pow10(0) == 1,
        ;
        while left > 0
            invariant
                decimal_digits(digits@),
                magnitude(digits@) + left * pow10(digits@.len()) == size,
            decreases left,
        {
            let digit: u8 = (left % 10) as u8;
            let next: u64 = left / 10;
            proof {
                let before = digits@;
                let after = before.push(digit);
                let p = pow10(before.len()) as int;
                lemma_low_value_agrees(before, after, before.len());
                assert(digit_at(after, before.len() as int) == digit);
                assert(pow10(after.len()) == 10 * p);
                assert(digit * p + next * (10 * p) == left * p) by (nonlinear_arith)
                    requires
                        left == digit + 10 * next,
                ;
            }
            digits.push(digit);
            left = next;
        }
        Decimal { negative, digits, scale: 0 }
    }

    /// Whether the sign is minus. Zero may carry either sign.
    pub fn is_negative(&self) -> (negative: bool)
        ensures
            negative ==> self@.unscaled <= 0,
            !negative ==> self@.unscaled >= 0,
    {
        self.negative
    }

    /// The digits of the unscaled integer, least significant first.
    pub fn digits(&self) -> (digits: &Vec<u8>)
        ensures
            magnitude(digits@) == (if self@.unscaled < 0 {
                -self@.unscaled
            } else {
                self@.unscaled
            }),
            self.well_formed() ==> decimal_digits(digits@),
    {
        &self.digits
    }

    /// The number of digits after the decimal point.
    pub fn scale(&self) -> (scale: i64)
        ensures
            scale == self@.scale,
    {
        self.scale
    }

    /// The exact sum, at the larger of the two scales.
    pub fn add(&self, other: &Decimal) -> (sum: Decimal)
        ensures
            sum@ == self@.plus(other@),
            sum.well_formed(),
    {
        let scale = if self.scale >= other.scale {
            self.scale
        } else {
            other.scale
        };
        let first = shifted(&self.digits, places_between(scale, self.scale));
        let second = shifted(&other.digits, places_between(scale, other.scale));
        let (negative, digits) = combine(&first, self.negative, &second, other.negative);
        proof {
            lemma_signed_scaled(
                self.negative,
                magnitude(self.digits@),
                pow10((scale - self.scale) as nat),
            );
            lemma_signed_scaled(
                other.negative,
                magnitude(other.digits@),
                pow10((scale - other.scale) as nat),
            );
        }
        Decimal { negative, digits, scale }
    }

    /// Whether both stand for the same number: `9000` and `9000.000` do.
    pub fn same_value(&self, other: &Decimal) -> (same: bool)
        ensures
            same == self@.same_number(other@),
    {
        let scale = if self.scale >= other.scale {
            self.scale
        } else {
            other.scale
        };
        let first = shifted(&self.digits, places_between(scale, self.scale));
        let second = shifted(&other.digits, places_between(scale, other.scale));
        let (low, carry) = signed_sum(&first, self.negative, &second, !other.negative);
        proof {
            lemma_signed_scaled(
                self.negative,
                magnitude(self.digits@),
                pow10((scale - self.scale) as nat),
            );
            lemma_signed_scaled(
                other.negative,
                magnitude(other.digits@),
                pow10((scale - other.scale) as nat),
            );
            lemma_low_value_bound(low@, low@.len());
            lemma_pow10_positive(low@.len());
            let p = pow10(low@.len()) as int;
            let left = self@.at_scale(scale as int);
            let right = other@.at_scale(scale as int);
            assert(signed(self.negative, magnitude(first@) as int) == left);
            assert(signed(!other.negative, magnitude(second@) as int) == -right);
            assert(magnitude(low@) + carry * p == left - right);
            if carry == 0 {
                assert(carry * p == 0) by (nonlinear_arith)
                    requires
                        carry == 0,
                ;
            }
            if carry > 0 {
                assert(carry * p >= p) by (nonlinear_arith)
                    requires
                        carry >= 1,
                        p > 0,
                ;
            }
            if carry < 0 {
                assert(carry * p <= -p) by (nonlinear_arith)
                    requires
                        carry <= -1,
                        p > 0,
                ;
            }
        }
        carry == 0 && all_zero(&low)
    }

    /// A copy of this number.
    pub fn duplicate(&self) -> (copy: Decimal)
        ensures
            copy@ == self@,
            self.well_formed() ==> copy.well_formed(),
    {
        let digits = shifted(&self.digits, 0);
        assert(digits@ == self.digits@);
        Decimal { negative: self.negative, digits, scale: self.scale }
    }
}

/// A sign goes through a product.
proof fn lemma_signed_scaled(negative: bool, value: nat, factor: nat)
    ensures
        signed(negative, (factor * value) as int) == signed(negative, value as int) * factor,
{
    assert(-(factor * value) == (-(value as int)) * factor) by (nonlinear_arith);
    assert(factor * value == value * factor) by (nonlinear_arith);
}

} // verus!
