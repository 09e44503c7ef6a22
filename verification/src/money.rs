//! Fixed-precision decimal amounts, held as plain values, with the arithmetic
//! of `rust_decimal` behind trusted wrappers.

use vstd::prelude::*;
use rust_decimal::Decimal;
use crate::balance_files::{all_digits, decimal_text, is_digit, lemma_decimal_text};

verus! {

/// The 96-bit limit on the magnitude of a decimal amount (exclusive).
pub open spec fn magnitude_limit() -> int {
    0x1_0000_0000_0000_0000_0000_0000
}

/// The largest scale (number of fractional digits) a decimal amount can have.
pub const MAX_SCALE: u32 = 28;

/// A decimal amount: `(-1)^negative * magnitude / 10^scale`, as
/// `rust_decimal::Decimal` holds it (sign flag, scale, 96-bit magnitude).
#[derive(Clone, Copy, Debug, PartialEq, Eq, Structural)]
pub struct Money {
    pub negative: bool,
    pub scale: u32,
    pub magnitude: u128,
}

impl Money {
    /// The parts are those of a representable decimal.
    pub open spec fn wf(self) -> bool {
        &&& self.scale <= MAX_SCALE
        &&& self.magnitude < magnitude_limit()
    }

    pub open spec fn is_zero(self) -> bool {
        self.magnitude == 0
    }

    /// The value as a multiple of `10^-MAX_SCALE`.
    pub open spec fn value(self) -> int {
        let m = self.magnitude * pow10((MAX_SCALE - self.scale) as nat);
        if self.negative { -m } else { m }
    }

    /// The zero amount, as `Decimal::default()` holds it.
    pub open spec fn spec_zero() -> Money {
        Money { negative: false, scale: 0, magnitude: 0 }
    }

    /// The zero amount, as `Decimal::default()` holds it.
    pub fn zero() -> (m: Money)
        ensures
            m == Money::spec_zero(),
            m.wf(),
    {
        Money { negative: false, scale: 0, magnitude: 0 }
    }

    /// Builds an amount from its parts, or `None` where they are out of range.
    pub fn from_parts(negative: bool, scale: u32, magnitude: u128) -> (m: Option<Money>)
        ensures
            m is Some <==> (scale <= MAX_SCALE && magnitude < magnitude_limit()),
            m matches Some(v) ==> v == (Money { negative, scale, magnitude }),
    {
        if scale <= MAX_SCALE && magnitude < 0x1_0000_0000_0000_0000_0000_0000u128 {
            Some(Money { negative, scale, magnitude })
        } else {
            None
        }
    }
}

pub open spec fn pow10(n: nat) -> int
    decreases n,
{
    if n == 0 { 1 } else { 10 * pow10((n - 1) as nat) }
}

/// The signed magnitude of `m` written at scale `s` (for `s >= m.scale`).
pub open spec fn scaled(m: Money, s: u32) -> int {
    let v = m.magnitude * pow10((s - m.scale) as nat);
    if m.negative { -v } else { v }
}

/// The larger of two scales.
pub open spec fn max_scale(a: Money, b: Money) -> u32 {
    if a.scale >= b.scale { a.scale } else { b.scale }
}

/// The exact sum of two amounts, as a signed magnitude at the larger scale.
pub open spec fn sum_total(a: Money, b: Money) -> int {
    scaled(a, max_scale(a, b)) + scaled(b, max_scale(a, b))
}

/// The exact difference of two amounts, as a signed magnitude at the larger
/// scale.
pub open spec fn difference_total(a: Money, b: Money) -> int {
    scaled(a, max_scale(a, b)) - scaled(b, max_scale(a, b))
}

/// The amount that a signed magnitude writes at a scale; zero is not
/// negative.
pub open spec fn money_of_total(total: int, scale: u32) -> Money {
    Money {
        negative: total < 0,
        scale,
        magnitude: (if total < 0 { -total } else { total }) as u128,
    }
}

/// The case in which `rust_decimal` adds or subtracts without rounding:
/// both operands are non-zero and the exact result `total` at the larger
/// scale fits in 96 bits.
pub open spec fn fits_exactly(a: Money, b: Money, total: int) -> bool {
    &&& !a.is_zero()
    &&& !b.is_zero()
    &&& -magnitude_limit() < total < magnitude_limit()
}

/// The exact sum at the larger scale, where it fits.
pub open spec fn exact_sum(a: Money, b: Money) -> Option<Money> {
    if fits_exactly(a, b, sum_total(a, b)) {
        Some(money_of_total(sum_total(a, b), max_scale(a, b)))
    } else {
        None
    }
}

/// The exact difference at the larger scale, where it fits.
pub open spec fn exact_difference(a: Money, b: Money) -> Option<Money> {
    if fits_exactly(a, b, difference_total(a, b)) {
        Some(money_of_total(difference_total(a, b), max_scale(a, b)))
    } else {
        None
    }
}

/// An amount with its sign flipped.
pub open spec fn negated(m: Money) -> Money {
    Money { negative: !m.negative, ..m }
}

/// Powers of ten multiply.
pub proof fn lemma_pow10_add(a: nat, c: nat)
    ensures
        pow10(a + c) == pow10(a) * pow10(c),
        pow10(a) > 0,
    decreases a,
{
    if a > 0 {
        lemma_pow10_add((a - 1) as nat, c);
        assert(pow10(a + c) == 10 * pow10((a - 1 + c) as nat));
        assert(10 * (pow10((a - 1) as nat) * pow10(c)) == (10 * pow10((a - 1) as nat)) * pow10(c))
            by (nonlinear_arith);
    }
}

/// Writing an amount at a larger scale multiplies by a power of ten.
proof fn lemma_scaled_rescale(m: Money, s1: u32, s2: u32)
    requires
        m.scale <= s1 <= s2,
    ensures
        scaled(m, s2) == scaled(m, s1) * pow10((s2 - s1) as nat),
{
    lemma_pow10_add((s1 - m.scale) as nat, (s2 - s1) as nat);
    assert((s2 - m.scale) as nat == (s1 - m.scale) as nat + (s2 - s1) as nat);
    let p1 = pow10((s1 - m.scale) as nat);
    let p2 = pow10((s2 - s1) as nat);
    let mg = m.magnitude as int;
    assert(mg * (p1 * p2) == (mg * p1) * p2) by (nonlinear_arith);
    assert(-(mg * (p1 * p2)) == (-(mg * p1)) * p2) by (nonlinear_arith);
}

/// The amount of a signed magnitude, written at a larger scale.
proof fn lemma_scaled_of_total(t: int, s1: u32, s2: u32)
    requires
        s1 <= s2,
        -magnitude_limit() < t < magnitude_limit(),
    ensures
        scaled(money_of_total(t, s1), s2) == t * pow10((s2 - s1) as nat),
{
    let p = pow10((s2 - s1) as nat);
    assert((-t) * p == -(t * p)) by (nonlinear_arith);
}

/// The value of an amount is its signed magnitude at the largest scale.
proof fn lemma_value_is_scaled(m: Money)
    requires
        m.wf(),
    ensures
        m.value() == scaled(m, MAX_SCALE),
{
}

/// A zero amount has value zero.
pub proof fn lemma_zero_value(m: Money)
    requires
        m.is_zero(),
    ensures
        m.value() == 0,
{
}

/// An exact sum has the sum of the values.
pub proof fn lemma_exact_sum_value(a: Money, b: Money)
    requires
        a.wf(),
        b.wf(),
        exact_sum(a, b) is Some,
    ensures
        exact_sum(a, b)->0.value() == a.value() + b.value(),
{
    let s = max_scale(a, b);
    let t = sum_total(a, b);
    let m = money_of_total(t, s);
    lemma_scaled_of_total(t, s, MAX_SCALE);
    lemma_scaled_rescale(a, s, MAX_SCALE);
    lemma_scaled_rescale(b, s, MAX_SCALE);
    let p = pow10((MAX_SCALE - s) as nat);
    let (x, y) = (scaled(a, s), scaled(b, s));
    assert((x + y) * p == x * p + y * p) by (nonlinear_arith);
    lemma_value_is_scaled(m);
    lemma_value_is_scaled(a);
    lemma_value_is_scaled(b);
}

/// Two credits computed exactly give the same balance in either order.
pub proof fn lemma_exact_sums_commute(b: Money, x1: Money, x2: Money)
    requires
        exact_sum(b, x1) is Some,
        exact_sum(exact_sum(b, x1)->0, x2) is Some,
        exact_sum(b, x2) is Some,
        exact_sum(exact_sum(b, x2)->0, x1) is Some,
    ensures
        exact_sum(exact_sum(b, x1)->0, x2) == exact_sum(exact_sum(b, x2)->0, x1),
{
    let c1 = exact_sum(b, x1)->0;
    let c2 = exact_sum(b, x2)->0;
    let s1 = max_scale(b, x1);
    let s2 = max_scale(b, x2);
    let s = max_scale(c1, x2);
    assert(s == max_scale(c2, x1));
    lemma_scaled_of_total(sum_total(b, x1), s1, s);
    lemma_scaled_of_total(sum_total(b, x2), s2, s);
    lemma_scaled_rescale(b, s1, s);
    lemma_scaled_rescale(x1, s1, s);
    lemma_scaled_rescale(b, s2, s);
    lemma_scaled_rescale(x2, s2, s);
    let p1 = pow10((s - s1) as nat);
    let p2 = pow10((s - s2) as nat);
    let (b1, y1) = (scaled(b, s1), scaled(x1, s1));
    let (b2, y2) = (scaled(b, s2), scaled(x2, s2));
    assert((b1 + y1) * p1 == b1 * p1 + y1 * p1) by (nonlinear_arith);
    assert((b2 + y2) * p2 == b2 * p2 + y2 * p2) by (nonlinear_arith);
    assert(sum_total(c1, x2) == sum_total(c2, x1));
}

/// `n` zeros.
pub open spec fn zeros(n: nat) -> Seq<char> {
    Seq::new(n, |i: int| '0')
}

/// The digits of an amount's magnitude, left-padded with zeros to at least
/// `scale` digits (no digit for a zero magnitude).
pub open spec fn padded_digits(m: Money) -> Seq<char> {
    let d = if m.magnitude == 0 { Seq::<char>::empty() } else { decimal_text(m.magnitude as nat) };
    if d.len() < m.scale { zeros((m.scale - d.len()) as nat) + d } else { d }
}

/// The text that `Decimal`'s `Display` writes for an amount: a `-` where
/// the sign flag is set, then the whole digits (`0` where there are none),
/// and, for a non-zero scale, a `.` and `scale` fraction digits.
pub open spec fn display_text(m: Money) -> Seq<char> {
    let p = padded_digits(m);
    let whole = p.take(p.len() - m.scale);
    let body = if m.scale == 0 {
        if p.len() == 0 { seq!['0'] } else { p }
    } else {
        (if whole.len() == 0 { seq!['0'] } else { whole }) + seq!['.'] + p.skip(p.len() - m.scale)
    };
    if m.negative { seq!['-'] + body } else { body }
}

/// An amount is written with a leading `-` exactly where its sign flag is
/// set; otherwise it starts with a digit.
pub proof fn lemma_display_sign(m: Money)
    ensures
        display_text(m).len() > 0,
        display_text(m)[0] == '-' <==> m.negative,
        !m.negative ==> is_digit(display_text(m)[0]),
{
    let d = if m.magnitude == 0 { Seq::<char>::empty() } else { decimal_text(m.magnitude as nat) };
    if m.magnitude != 0 {
        lemma_decimal_text(m.magnitude as nat);
    }
    let p = padded_digits(m);
    assert(all_digits(p)) by {
        assert forall|i: int| 0 <= i < p.len() implies is_digit(#[trigger] p[i]) by {
            if d.len() < m.scale {
                let z = zeros((m.scale - d.len()) as nat);
                if i < z.len() {
                    assert(p[i] == z[i]);
                } else {
                    assert(p[i] == d[i - z.len()]);
                }
            } else {
                assert(p[i] == d[i]);
            }
        }
    }
    let whole = p.take(p.len() - m.scale);
    if m.scale != 0 && whole.len() > 0 {
        assert(whole[0] == p[0]);
    }
}

/// A whole amount is written as its digits, after a `-` where negative.
pub proof fn lemma_display_whole(m: Money)
    requires
        m.scale == 0,
        m.magnitude > 0,
    ensures
        display_text(m) == if m.negative {
            seq!['-'] + decimal_text(m.magnitude as nat)
        } else {
            decimal_text(m.magnitude as nat)
        },
{
    lemma_decimal_text(m.magnitude as nat);
}

/// Writes the amount with `Decimal`'s `Display` (through `to_string`).
/// Claimed: the text is `display_text(m)`, as `to_str_internal` builds it
/// with no precision (digits of the mantissa, zero-padded to the scale, a
/// `0` before a `.` with no whole digits, a `0` for an empty text) and
/// `Formatter::pad_integral` prefixes it, with no width, by `-` for a set
/// sign flag.
#[verifier::external_body]
pub(crate) fn decimal_to_string(m: Money) -> (r: String)
    requires
        m.wf(),
    ensures
        r@ == display_text(m),
{
    let mut d = Decimal::from_i128_with_scale(m.magnitude as i128, m.scale);
    d.set_sign_negative(m.negative);
    d.to_string()
}

/// What `Decimal::checked_add` returns for two amounts.
pub uninterp spec fn decimal_sum(a: Money, b: Money) -> Option<Money>;

/// What `Decimal::checked_sub` returns for two amounts.
pub uninterp spec fn decimal_difference(a: Money, b: Money) -> Option<Money>;

/// Calls `rust_decimal::Decimal::checked_add` on the two amounts.
/// Claimed: the result is `decimal_sum(a, b)`; a result is a representable
/// decimal; where `a` is zero the result is `b`, and where only `b` is zero
/// it is `a`, unchanged (the zero branches of `add_sub_internal`); where the
/// exact sum at the larger scale fits in 96 bits (`exact_sum`), the result
/// is that sum at that scale: `fast_add` and the 128-bit path compute it
/// directly, `aligned_add` rounds (`reduce_scale`) only on a carry out of
/// 96 bits, and `unaligned_add` scales the operand of smaller scale up
/// exactly (into `Buf24` where it passes 96 bits) and `Buf24::rescale`
/// rounds only where the result passes 96 bits.  Rounding and overflow are
/// left to the name.
#[verifier::external_body]
pub(crate) fn decimal_checked_add(a: Money, b: Money) -> (r: Option<Money>)
    requires
        a.wf(),
        b.wf(),
    ensures
        r == decimal_sum(a, b),
        r matches Some(m) ==> m.wf(),
        a.is_zero() ==> r == Some(b),
        !a.is_zero() && b.is_zero() ==> r == Some(a),
        exact_sum(a, b) is Some ==> r == exact_sum(a, b),
{
    let mut x = Decimal::from_i128_with_scale(a.magnitude as i128, a.scale);
    x.set_sign_negative(a.negative);
    let mut y = Decimal::from_i128_with_scale(b.magnitude as i128, b.scale);
    y.set_sign_negative(b.negative);
    match x.checked_add(y) {
        Some(d) => Some(Money { negative: d.is_sign_negative(), scale: d.scale(), magnitude: d.mantissa().unsigned_abs() }),
        None => None,
    }
}

/// Calls `rust_decimal::Decimal::checked_sub` on the two amounts.
/// Claimed: the result is `decimal_difference(a, b)`; a result is a
/// representable decimal; where `a` is zero the result is `b`, its sign
/// flipped unless `b` is zero too, and where only `b` is zero it is `a`,
/// unchanged (the zero branches of `add_sub_internal`); where the exact
/// difference at the larger scale fits in 96 bits, the result is that
/// difference at that scale (the same paths as for addition).  Except where
/// both operands are zero, the result is what `checked_add` gives for `a`
/// and `b` with its sign flipped: `sub_impl` and `add_impl` both run
/// `add_sub_internal`, which reads the sign of `b` only through the
/// effective-subtract flag and in the zero branch.  Rounding and overflow
/// are left to the name.
#[verifier::external_body]
pub(crate) fn decimal_checked_sub(a: Money, b: Money) -> (r: Option<Money>)
    requires
        a.wf(),
        b.wf(),
    ensures
        r == decimal_difference(a, b),
        r matches Some(m) ==> m.wf(),
        a.is_zero() && b.is_zero() ==> r == Some(b),
        a.is_zero() && !b.is_zero() ==> r == Some(Money { negative: !b.negative, ..b }),
        !a.is_zero() && b.is_zero() ==> r == Some(a),
        exact_difference(a, b) is Some ==> r == exact_difference(a, b),
        !(a.is_zero() && b.is_zero()) ==> r == decimal_sum(a, negated(b)),
{
    let mut x = Decimal::from_i128_with_scale(a.magnitude as i128, a.scale);
    x.set_sign_negative(a.negative);
    let mut y = Decimal::from_i128_with_scale(b.magnitude as i128, b.scale);
    y.set_sign_negative(b.negative);
    match x.checked_sub(y) {
        Some(d) => Some(Money { negative: d.is_sign_negative(), scale: d.scale(), magnitude: d.mantissa().unsigned_abs() }),
        None => None,
    }
}

} // verus!
