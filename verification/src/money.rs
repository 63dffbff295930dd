//! Monetary amounts.
//!
//! An amount is held as the two plain values that `rust_decimal::Decimal`
//! is made of: a signed 96-bit mantissa and a decimal scale (0..=28), so the
//! amount is `mantissa / 10^scale`. Arithmetic, comparison and formatting
//! are done by `rust_decimal` itself, behind the wrappers below.

use crate::text::{decimal_text, zero_padded};
use rust_decimal::Decimal;
use vstd::prelude::*;

verus! {

/// Largest magnitude of a `Decimal` mantissa: 2^96 - 1.
pub const MAX_MANTISSA: i128 = 0xFFFF_FFFF_FFFF_FFFF_FFFF_FFFF;

/// Largest scale that a `Decimal` accepts.
pub const MAX_SCALE: u32 = 28;

/// A decimal amount `mantissa / 10^scale`, laid out as `rust_decimal::Decimal`.
#[derive(Debug, Clone, Copy, PartialEq, Eq, Structural)]
pub struct Money {
    pub mantissa: i128,
    pub scale: u32,
}

/// `10^n`.
pub open spec fn pow10(n: nat) -> int
    decreases n,
{
    if n == 0 {
        1
    } else {
        10 * pow10((n - 1) as nat)
    }
}

pub open spec fn max_scale(a: u32, b: u32) -> u32 {
    if a >= b {
        a
    } else {
        b
    }
}

pub proof fn lemma_pow10_positive(n: nat)
    ensures
        pow10(n) > 0,
    decreases n,
{
    if n > 0 {
        lemma_pow10_positive((n - 1) as nat);
    }
}

pub proof fn lemma_pow10_add(a: nat, b: nat)
    ensures
        pow10(a + b) == pow10(a) * pow10(b),
    decreases a,
{
    if a > 0 {
        lemma_pow10_add((a - 1) as nat, b);
        assert(pow10(a + b) == 10 * pow10((a - 1 + b) as nat));
        let x = pow10((a - 1) as nat);
        let y = pow10(b);
        assert(10 * (x * y) == (10 * x) * y) by (nonlinear_arith);
    }
}

/// Writing a mantissa at scale `s` up to `t` and then to `k` is writing it up to `k`.
pub proof fn lemma_rescale(m: int, s: nat, t: nat, k: nat)
    requires
        s <= t <= k,
    ensures
        m * pow10((t - s) as nat) * pow10((k - t) as nat) == m * pow10((k - s) as nat),
{
    lemma_pow10_add((t - s) as nat, (k - t) as nat);
    assert((t - s) as nat + (k - t) as nat == (k - s) as nat);
    let p = pow10((t - s) as nat);
    let q = pow10((k - t) as nat);
    assert(m * p * q == m * (p * q)) by (nonlinear_arith);
}

/// Amounts compare as numbers as their mantissas do once written at one common scale.
pub proof fn lemma_compare_at_scale(a: Money, b: Money, k: nat)
    requires
        a.scale <= k,
        b.scale <= k,
    ensures
        a.value_le(b) <==> a.scaled_to(k) <= b.scaled_to(k),
        a.value_lt(b) <==> a.scaled_to(k) < b.scaled_to(k),
        a.value_eq(b) <==> a.scaled_to(k) == b.scaled_to(k),
{
    let p = pow10(a.scale as nat);
    let q = pow10(b.scale as nat);
    let ra = pow10((k - a.scale) as nat);
    let rb = pow10((k - b.scale) as nat);
    let full = pow10(k);
    lemma_pow10_add((k - a.scale) as nat, a.scale as nat);
    lemma_pow10_add((k - b.scale) as nat, b.scale as nat);
    assert((k - a.scale) as nat + a.scale as nat == k);
    assert((k - b.scale) as nat + b.scale as nat == k);
    lemma_pow10_positive(a.scale as nat);
    lemma_pow10_positive(b.scale as nat);
    lemma_pow10_positive(k);
    let x = a.mantissa as int;
    let y = b.mantissa as int;
    assert(x * ra * (p * q) == x * q * full) by (nonlinear_arith)
        requires
            full == ra * p,
    ;
    assert(y * rb * (p * q) == y * p * full) by (nonlinear_arith)
        requires
            full == rb * q,
    ;
    assert(x * ra <= y * rb <==> x * ra * (p * q) <= y * rb * (p * q)) by (nonlinear_arith)
        requires
            p > 0,
            q > 0,
    ;
    assert(x * ra < y * rb <==> x * ra * (p * q) < y * rb * (p * q)) by (nonlinear_arith)
        requires
            p > 0,
            q > 0,
    ;
    assert(x * q * full <= y * p * full <==> x * q <= y * p) by (nonlinear_arith)
        requires
            full > 0,
    ;
    assert(x * q * full < y * p * full <==> x * q < y * p) by (nonlinear_arith)
        requires
            full > 0,
    ;
}

/// What `Decimal::checked_add` returns for two decimals given by mantissa and scale:
/// `None` on overflow, else the sum (rounded by the crate where it needs more than 96 bits).
pub uninterp spec fn decimal_checked_add(a_mantissa: i128, a_scale: u32, b_mantissa: i128, b_scale: u32) -> Option<(i128, u32)>;

/// What `Decimal::checked_sub` returns for two decimals given by mantissa and scale.
pub uninterp spec fn decimal_checked_sub(a_mantissa: i128, a_scale: u32, b_mantissa: i128, b_scale: u32) -> Option<(i128, u32)>;

/// What `str::parse::<Decimal>` gives for a text: the mantissa and scale of
/// the decimal it denotes, `None` where it is refused.
pub uninterp spec fn decimal_parse(text: Seq<char>) -> Option<(i128, u32)>;

/// The text that `Decimal`'s `Display` writes for a decimal given by mantissa
/// and scale: a `-` for a negative mantissa, then the digits of its magnitude;
/// with a scale, the digits are zero-padded to `scale + 1` and a point stands
/// `scale` places from the right.
pub open spec fn decimal_display(mantissa: i128, scale: u32) -> Seq<char> {
    let magnitude = (if mantissa < 0 { -mantissa } else { mantissa as int }) as nat;
    let sign = if mantissa < 0 { seq!['-'] } else { Seq::<char>::empty() };
    if scale == 0 {
        sign + decimal_text(magnitude)
    } else {
        let padded = zero_padded(magnitude, (scale + 1) as nat);
        let point = padded.len() - scale;
        sign + padded.take(point) + seq!['.'] + padded.skip(point)
    }
}

pub open spec fn money_of(p: Option<(i128, u32)>) -> Option<Money> {
    match p {
        Some(x) => Some(Money { mantissa: x.0, scale: x.1 }),
        None => None,
    }
}

impl Money {
    /// The value can be held by a `Decimal`.
    pub open spec fn wf(self) -> bool {
        &&& -MAX_MANTISSA <= self.mantissa <= MAX_MANTISSA
        &&& self.scale <= MAX_SCALE
    }

    /// `self <= other` as numbers: `m1 / 10^s1 <= m2 / 10^s2`.
    pub open spec fn value_le(self, other: Money) -> bool {
        self.mantissa * pow10(other.scale as nat) <= other.mantissa * pow10(self.scale as nat)
    }

    /// `self < other` as numbers.
    pub open spec fn value_lt(self, other: Money) -> bool {
        self.mantissa * pow10(other.scale as nat) < other.mantissa * pow10(self.scale as nat)
    }

    /// The sum that `rust_decimal` computes, `None` where it overflows.
    pub open spec fn checked_sum(self, other: Money) -> Option<Money> {
        money_of(decimal_checked_add(self.mantissa, self.scale, other.mantissa, other.scale))
    }

    /// The difference that `rust_decimal` computes, `None` where it overflows.
    pub open spec fn checked_difference(self, other: Money) -> Option<Money> {
        money_of(decimal_checked_sub(self.mantissa, self.scale, other.mantissa, other.scale))
    }

    /// The text of the amount as `Decimal` prints it.
    pub open spec fn display(self) -> Seq<char> {
        decimal_display(self.mantissa, self.scale)
    }

    /// The mantissa of the same amount written at scale `k` (at least its own).
    pub open spec fn scaled_to(self, k: nat) -> int {
        self.mantissa * pow10((k - self.scale) as nat)
    }

    /// The two amounts are equal as numbers.
    pub open spec fn value_eq(self, other: Money) -> bool {
        self.mantissa * pow10(other.scale as nat) == other.mantissa * pow10(self.scale as nat)
    }

    /// Whether `rust_decimal` adds or subtracts these two amounts without
    /// rounding: they have the same scale, or neither is zero; and written at
    /// the larger scale, both mantissas fit in 96 bits.
    pub open spec fn aligns_with(self, other: Money) -> bool {
        let k = max_scale(self.scale, other.scale) as nat;
        &&& self.scale == other.scale || (self.mantissa != 0 && other.mantissa != 0)
        &&& -MAX_MANTISSA <= self.scaled_to(k) <= MAX_MANTISSA
        &&& -MAX_MANTISSA <= other.scaled_to(k) <= MAX_MANTISSA
    }

    /// The sum computed without rounding, at the larger scale: defined where
    /// the amounts align and the sum fits in 96 bits.
    pub open spec fn exact_sum(self, other: Money) -> Option<Money> {
        let k = max_scale(self.scale, other.scale);
        let m = self.scaled_to(k as nat) + other.scaled_to(k as nat);
        if self.aligns_with(other) && -MAX_MANTISSA <= m <= MAX_MANTISSA {
            Some(Money { mantissa: m as i128, scale: k })
        } else {
            None
        }
    }

    /// The difference computed without rounding, at the larger scale: defined
    /// where the amounts align and the difference fits in 96 bits.
    pub open spec fn exact_difference(self, other: Money) -> Option<Money> {
        let k = max_scale(self.scale, other.scale);
        let m = self.scaled_to(k as nat) - other.scaled_to(k as nat);
        if self.aligns_with(other) && -MAX_MANTISSA <= m <= MAX_MANTISSA {
            Some(Money { mantissa: m as i128, scale: k })
        } else {
            None
        }
    }

    /// What `Decimal::checked_add` gives: the exact sum where it is computed
    /// exactly, otherwise what `rust_decimal` computes (`None` on overflow).
    pub open spec fn plus(self, other: Money) -> Option<Money> {
        if self.exact_sum(other) is Some {
            self.exact_sum(other)
        } else {
            self.checked_sum(other)
        }
    }

    /// What `Decimal::checked_sub` gives: the exact difference where it is
    /// computed exactly, otherwise what `rust_decimal` computes.
    pub open spec fn minus(self, other: Money) -> Option<Money> {
        if self.exact_difference(other) is Some {
            self.exact_difference(other)
        } else {
            self.checked_difference(other)
        }
    }

    /// The amount with its sign flipped.
    pub open spec fn negated(self) -> Money {
        Money { mantissa: (-self.mantissa) as i128, scale: self.scale }
    }

    pub open spec fn spec_zero() -> Money {
        Money { mantissa: 0, scale: 0 }
    }

    /// `Decimal::ZERO`.
    pub fn zero() -> (z: Money)
        ensures
            z == Money::spec_zero(),
            z.wf(),
    {
        Money { mantissa: 0, scale: 0 }
    }

    /// An amount compared with zero is compared by the sign of its mantissa.
    pub proof fn lemma_compare_with_zero(self)
        ensures
            self.value_le(Money::spec_zero()) <==> self.mantissa <= 0,
            self.value_lt(Money::spec_zero()) <==> self.mantissa < 0,
            Money::spec_zero().value_lt(self) <==> self.mantissa > 0,
    {
        assert(pow10(0) == 1);
        lemma_pow10_positive(self.scale as nat);
        let p = pow10(self.scale as nat);
        assert(0 * p == 0);
    }

    /// `a <= b` on `Decimal`s.
    pub fn le(&self, other: &Money) -> (r: bool)
        requires
            self.wf(),
            other.wf(),
        ensures
            r == self.value_le(*other),
    {
        decimal_le(*self, *other)
    }

    /// `a < b` on `Decimal`s.
    pub fn lt(&self, other: &Money) -> (r: bool)
        requires
            self.wf(),
            other.wf(),
        ensures
            r == self.value_lt(*other),
    {
        decimal_lt(*self, *other)
    }

    /// `Decimal::checked_add`.
    pub fn checked_add(&self, other: &Money) -> (r: Option<Money>)
        requires
            self.wf(),
            other.wf(),
        ensures
            r == self.checked_sum(*other),
            r == self.plus(*other),
            r matches Some(s) ==> s.wf(),
            self.mantissa == 0 ==> r == Some(*other),
            other.mantissa == 0 && self.mantissa != 0 ==> r == Some(*self),
            self.exact_sum(*other) is Some ==> r == self.exact_sum(*other),
    {
        decimal_add(*self, *other)
    }

    /// `Decimal::checked_sub`.
    pub fn checked_sub(&self, other: &Money) -> (r: Option<Money>)
        requires
            self.wf(),
            other.wf(),
        ensures
            r == self.checked_difference(*other),
            r == self.minus(*other),
            r matches Some(s) ==> s.wf(),
            self.mantissa == 0 ==> r == Some(other.negated()),
            other.mantissa == 0 && self.mantissa != 0 ==> r == Some(*self),
            self.exact_difference(*other) is Some ==> r == self.exact_difference(*other),
    {
        decimal_sub(*self, *other)
    }

    /// `text.parse::<Decimal>()`.
    pub fn parse(text: &str) -> (r: Option<Money>)
        ensures
            r == money_of(decimal_parse(text@)),
            r matches Some(m) ==> m.wf(),
    {
        decimal_from_str(text)
    }

    /// The amount as `Decimal` prints it.
    pub fn to_text(&self) -> (s: String)
        requires
            self.wf(),
        ensures
            s@ == self.display(),
    {
        decimal_to_string(*self)
    }
}

/// Calls `<Decimal as PartialOrd>::le`; claims that `Decimal` orders by numeric
/// value, which is what its `Ord` implementation (`ops::cmp_impl`) computes.
#[verifier::external_body]
fn decimal_le(a: Money, b: Money) -> (r: bool)
    requires
        a.wf(),
        b.wf(),
    ensures
        r == a.value_le(b),
{
    Decimal::from_i128_with_scale(a.mantissa, a.scale) <= Decimal::from_i128_with_scale(b.mantissa, b.scale)
}

/// Calls `<Decimal as PartialOrd>::lt`; claims numeric order, as for `decimal_le`.
#[verifier::external_body]
fn decimal_lt(a: Money, b: Money) -> (r: bool)
    requires
        a.wf(),
        b.wf(),
    ensures
        r == a.value_lt(b),
{
    Decimal::from_i128_with_scale(a.mantissa, a.scale) < Decimal::from_i128_with_scale(b.mantissa, b.scale)
}

/// Calls `Decimal::checked_add`. Claims that the result is the named
/// `decimal_checked_add` of the arguments; that, where there is one, it is a
/// valid `Decimal` again (96-bit mantissa, scale at most 28); and that adding
/// to zero gives the other operand as it is, and adding zero to a non-zero
/// amount gives that amount (the zero cases of `ops::add::add_sub_internal`);
/// and that two amounts that align (same scale, or both non-zero, and both
/// fitting in 96 bits when written at the larger scale) and whose sum fits in
/// 96 bits add exactly at the larger scale: `rescale32` with `fast_add`, the
/// 64-bit path, and `unaligned_add` / `aligned_add`, which only round when
/// the rescaled operand or the sum needs more than 96 bits.
/// Which other sums are rounded, and how, is left to the name.
#[verifier::external_body]
fn decimal_add(a: Money, b: Money) -> (r: Option<Money>)
    requires
        a.wf(),
        b.wf(),
    ensures
        r == money_of(decimal_checked_add(a.mantissa, a.scale, b.mantissa, b.scale)),
        r matches Some(s) ==> s.wf(),
        a.mantissa == 0 ==> r == Some(b),
        b.mantissa == 0 && a.mantissa != 0 ==> r == Some(a),
        a.exact_sum(b) is Some ==> r == a.exact_sum(b),
{
    let x = Decimal::from_i128_with_scale(a.mantissa, a.scale);
    let y = Decimal::from_i128_with_scale(b.mantissa, b.scale);
    match x.checked_add(y) {
        Some(s) => Some(Money { mantissa: s.mantissa(), scale: s.scale() }),
        None => None,
    }
}

/// Calls `Decimal::checked_sub`; claims as much as `decimal_add` does, over
/// the name `decimal_checked_sub`: zero minus an amount is that amount with
/// its sign flipped (same scale), a non-zero amount minus zero is itself, and
/// two amounts that align and whose difference fits in 96 bits subtract
/// exactly at the larger scale.
#[verifier::external_body]
fn decimal_sub(a: Money, b: Money) -> (r: Option<Money>)
    requires
        a.wf(),
        b.wf(),
    ensures
        r == money_of(decimal_checked_sub(a.mantissa, a.scale, b.mantissa, b.scale)),
        r matches Some(s) ==> s.wf(),
        a.mantissa == 0 ==> r == Some(b.negated()),
        b.mantissa == 0 && a.mantissa != 0 ==> r == Some(a),
        a.exact_difference(b) is Some ==> r == a.exact_difference(b),
{
    let x = Decimal::from_i128_with_scale(a.mantissa, a.scale);
    let y = Decimal::from_i128_with_scale(b.mantissa, b.scale);
    match x.checked_sub(y) {
        Some(s) => Some(Money { mantissa: s.mantissa(), scale: s.scale() }),
        None => None,
    }
}

/// Calls `<Decimal as FromStr>::from_str`; claims that the result is the
/// named `decimal_parse` of the text and, where there is one, a valid
/// `Decimal`. Which texts are accepted, and how they are rounded, is left to
/// the name.
#[verifier::external_body]
fn decimal_from_str(text: &str) -> (r: Option<Money>)
    ensures
        r == money_of(decimal_parse(text@)),
        r matches Some(m) ==> m.wf(),
{
    match text.parse::<Decimal>() {
        Ok(d) => Some(Money { mantissa: d.mantissa(), scale: d.scale() }),
        Err(_) => None,
    }
}

/// Calls `Decimal::to_string` (its `Display`, `str::to_str_internal` without
/// a precision); claims that the text is `decimal_display` of mantissa and scale.
#[verifier::external_body]
fn decimal_to_string(a: Money) -> (s: String)
    requires
        a.wf(),
    ensures
        s@ == decimal_display(a.mantissa, a.scale),
{
    Decimal::from_i128_with_scale(a.mantissa, a.scale).to_string()
}

} // verus!
