//! The exact decimal number used throughout the calculator, kept as a signed
//! mantissa and a base-ten scale, and the arithmetic it borrows from
//! `rust_decimal`.

use rust_decimal::prelude::FromPrimitive;
use rust_decimal::prelude::ToPrimitive;
use rust_decimal::Decimal;
use std::str::FromStr;
use vstd::arithmetic::div_mod::{lemma_fundamental_div_mod, lemma_mod_multiples_basic};
use vstd::prelude::*;

verus! {

/// Largest mantissa magnitude a decimal can carry: 2^96 - 1.
pub const MAX_MANTISSA: i128 = 0xFFFF_FFFF_FFFF_FFFF_FFFF_FFFF;

/// Largest number of digits after the decimal point.
pub const MAX_SCALE: u32 = 28;

/// The value `mantissa / 10^scale`.
#[derive(Clone, Copy, Debug, PartialEq, Eq, Structural)]
pub struct Dec {
    pub mantissa: i128,
    pub scale: u32,
}

pub open spec fn pow10(n: nat) -> nat
    decreases n,
{
    if n == 0 {
        1
    } else {
        10 * pow10((n - 1) as nat)
    }
}

pub proof fn lemma_pow10_positive(n: nat)
    ensures
        pow10(n) >= 1,
    decreases n,
{
    if n > 0 {
        lemma_pow10_positive((n - 1) as nat);
    }
}

pub proof fn lemma_pow10_monotone(a: nat, b: nat)
    requires
        a <= b,
    ensures
        pow10(a) <= pow10(b),
    decreases b,
{
    if a < b {
        lemma_pow10_monotone(a, (b - 1) as nat);
        lemma_pow10_positive((b - 1) as nat);
    }
}

pub proof fn lemma_pow10_max_scale()
    ensures
        pow10(MAX_SCALE as nat) == 10000000000000000000000000000nat,
{
    reveal_with_fuel(pow10, 29);
}

proof fn lemma_negation_keeps_divisibility(m: int, p: int)
    requires
        p > 0,
    ensures
        (-m) % p == 0 <==> m % p == 0,
{
    lemma_fundamental_div_mod(m, p);
    lemma_fundamental_div_mod(-m, p);
    if m % p == 0 {
        assert(-m == (-(m / p)) * p) by (nonlinear_arith)
            requires m == p * (m / p);
        lemma_mod_multiples_basic(-(m / p), p);
    }
    if (-m) % p == 0 {
        assert(m == (-((-m) / p)) * p) by (nonlinear_arith)
            requires -m == p * ((-m) / p);
        lemma_mod_multiples_basic(-((-m) / p), p);
    }
}

/// Computes `10^n` for a scale a decimal can carry.
pub fn power_of_ten(n: u32) -> (r: u128)
    requires
        n <= MAX_SCALE,
    ensures
        r == pow10(n as nat),
{
    let mut p: u128 = 1;
    let mut i: u32 = 0;
    while i < n
        invariant
            i <= n <= MAX_SCALE,
            p == pow10(i as nat),
        decreases n - i,
    {
        proof {
            lemma_pow10_monotone((i + 1) as nat, MAX_SCALE as nat);
            lemma_pow10_max_scale();
        }
        p = p * 10;
        i = i + 1;
    }
    p
}

impl Dec {
    /// The mantissa fits in 96 bits and the scale is at most 28.
    pub open spec fn wf(self) -> bool {
        -MAX_MANTISSA <= self.mantissa <= MAX_MANTISSA && self.scale <= MAX_SCALE
    }

    /// Two decimals stand for the same number.
    pub open spec fn same_value_as(self, other: Dec) -> bool {
        self.mantissa * pow10(other.scale as nat) == other.mantissa * pow10(self.scale as nat)
    }

    /// The number has no digits after the decimal point other than zeros.
    pub open spec fn is_integral(self) -> bool {
        (self.mantissa as int) % (pow10(self.scale as nat) as int) == 0
    }

    /// The integer part, rounded toward zero.
    pub open spec fn trunc(self) -> int {
        if self.mantissa >= 0 {
            (self.mantissa as int) / (pow10(self.scale as nat) as int)
        } else {
            -((-(self.mantissa as int)) / (pow10(self.scale as nat) as int))
        }
    }

    pub open spec fn negated(self) -> Dec {
        Dec { mantissa: (-self.mantissa) as i128, scale: self.scale }
    }

    pub open spec fn magnitude(self) -> Dec {
        Dec { mantissa: if self.mantissa < 0 { (-self.mantissa) as i128 } else { self.mantissa }, scale: self.scale }
    }

    pub open spec fn from_int(n: int) -> Dec {
        Dec { mantissa: n as i128, scale: 0 }
    }

    /// The whole number `n`.
    pub fn integer(n: i128) -> (r: Dec)
        requires
            -MAX_MANTISSA <= n <= MAX_MANTISSA,
        ensures
            r == Dec::from_int(n as int),
            r.wf(),
    {
        Dec { mantissa: n, scale: 0 }
    }

    pub fn one() -> (r: Dec)
        ensures
            r == Dec::from_int(1),
            r.wf(),
    {
        Dec { mantissa: 1, scale: 0 }
    }

    pub fn is_zero(&self) -> (r: bool)
        ensures
            r == (self.mantissa == 0),
    {
        self.mantissa == 0
    }

    pub fn is_negative(&self) -> (r: bool)
        ensures
            r == (self.mantissa < 0),
    {
        self.mantissa < 0
    }

    pub fn neg(&self) -> (r: Dec)
        requires
            self.wf(),
        ensures
            r == self.negated(),
            r.wf(),
    {
        Dec { mantissa: -self.mantissa, scale: self.scale }
    }

    pub fn abs(&self) -> (r: Dec)
        requires
            self.wf(),
        ensures
            r == self.magnitude(),
            r.wf(),
    {
        if self.mantissa < 0 {
            Dec { mantissa: -self.mantissa, scale: self.scale }
        } else {
            *self
        }
    }

    /// Whether the fractional part is zero.
    pub fn has_no_fraction(&self) -> (r: bool)
        requires
            self.wf(),
        ensures
            r == self.is_integral(),
    {
        let p = power_of_ten(self.scale);
        proof {
            lemma_pow10_positive(self.scale as nat);
        }
        let m: u128 = if self.mantissa < 0 { (-self.mantissa) as u128 } else { self.mantissa as u128 };
        let rem = m % p;
        proof {
            let pi = pow10(self.scale as nat) as int;
            let mi = self.mantissa as int;
            if mi < 0 {
                lemma_negation_keeps_divisibility(mi, pi);
            }
        }
        rem == 0
    }

    /// The integer part, rounded toward zero.
    pub fn integer_part(&self) -> (r: i128)
        requires
            self.wf(),
        ensures
            r == self.trunc(),
            -MAX_MANTISSA <= r <= MAX_MANTISSA,
    {
        let p = power_of_ten(self.scale);
        proof {
            lemma_pow10_positive(self.scale as nat);
        }
        if self.mantissa < 0 {
            let q = ((-self.mantissa) as u128) / p;
            proof {
                assert(q <= (-self.mantissa) as u128) by (nonlinear_arith)
                    requires q == ((-self.mantissa) as u128) / p, p >= 1;
            }
            -(q as i128)
        } else {
            let q = (self.mantissa as u128) / p;
            proof {
                assert(q <= self.mantissa as u128) by (nonlinear_arith)
                    requires q == (self.mantissa as u128) / p, p >= 1;
            }
            q as i128
        }
    }

    /// The same number as a `rust_decimal::Decimal`.
    pub fn to_decimal(&self) -> Decimal
        requires
            self.wf(),
    {
        Decimal::from_i128_with_scale(self.mantissa, self.scale)
    }

    /// The parts of a `rust_decimal::Decimal`.
    pub(crate) fn from_decimal(d: &Decimal) -> (r: Dec)
        ensures
            r.wf(),
    {
        Dec { mantissa: d.mantissa(), scale: d.scale() }
    }
}

#[verifier::external_type_specification]
#[verifier::external_body]
pub struct ExDecimal(Decimal);

/// Relies on `Decimal::from_i128_with_scale`, which panics unless the scale is
/// at most 28 and the mantissa fits in 96 bits.
pub assume_specification[ Decimal::from_i128_with_scale ](num: i128, scale: u32) -> Decimal
    requires
        scale <= 28,
        -0xFFFF_FFFF_FFFF_FFFF_FFFF_FFFF <= num <= 0xFFFF_FFFF_FFFF_FFFF_FFFF_FFFF,
;

/// Relies on `Decimal::mantissa`: the 96-bit magnitude with the sign applied.
pub assume_specification[ Decimal::mantissa ](d: &Decimal) -> (r: i128)
    ensures
        -0xFFFF_FFFF_FFFF_FFFF_FFFF_FFFF <= r <= 0xFFFF_FFFF_FFFF_FFFF_FFFF_FFFF,
;

/// Relies on `Decimal::scale`: every constructor keeps it within `MAX_SCALE` (28).
pub assume_specification[ Decimal::scale ](d: &Decimal) -> (r: u32)
    ensures
        r <= 28,
;

/// What `Decimal::checked_add` returns for two decimals.
pub uninterp spec fn decimal_sum(a: Dec, b: Dec) -> Option<Dec>;

/// What `Decimal::checked_sub` returns for two decimals.
pub uninterp spec fn decimal_difference(a: Dec, b: Dec) -> Option<Dec>;

/// What `Decimal::checked_mul` returns for two decimals.
pub uninterp spec fn decimal_product(a: Dec, b: Dec) -> Option<Dec>;

/// What `Decimal::checked_div` returns for two decimals.
pub uninterp spec fn decimal_quotient(a: Dec, b: Dec) -> Option<Dec>;

/// What `Decimal::checked_rem` returns for two decimals.
pub uninterp spec fn decimal_remainder(a: Dec, b: Dec) -> Option<Dec>;

/// What `Decimal::from_str` makes of a number literal.
pub uninterp spec fn literal_decimal(text: Seq<char>) -> Option<Dec>;

/// The decimal digits of `n`, most significant first; none for zero.
pub open spec fn digits_of(n: nat) -> Seq<char>
    decreases n,
{
    if n == 0 {
        Seq::empty()
    } else {
        digits_of(n / 10).push(seq!['0', '1', '2', '3', '4', '5', '6', '7', '8', '9'][(n % 10) as int])
    }
}

/// `s` with '0's put before it up to length `len`.
pub open spec fn zero_padded(s: Seq<char>, len: nat) -> Seq<char> {
    if s.len() < len {
        Seq::new((len - s.len()) as nat, |i: int| '0') + s
    } else {
        s
    }
}

/// How `Display` writes a non-negative decimal: the mantissa's digits, padded
/// with '0's to at least `scale` of them, with a '.' before the last `scale`
/// digits and a '0' before the '.' when no digit is left for the whole part;
/// "0" for a zero of scale 0.
pub open spec fn plain_text(d: Dec) -> Seq<char> {
    let scale = d.scale as nat;
    let all = zero_padded(digits_of(d.mantissa as nat), scale);
    let whole = all.subrange(0, all.len() - scale);
    let fraction = all.subrange(all.len() - scale, all.len() as int);
    if scale == 0 {
        if all.len() == 0 {
            seq!['0']
        } else {
            all
        }
    } else {
        (if whole.len() == 0 {
            seq!['0']
        } else {
            whole
        }) + seq!['.'] + fraction
    }
}

/// Relies on `Decimal::checked_add`: `None` on overflow.
#[verifier::external_body]
pub(crate) fn checked_add(a: Dec, b: Dec) -> (r: Option<Dec>)
    requires
        a.wf(),
        b.wf(),
    ensures
        r == decimal_sum(a, b),
        r matches Some(v) ==> v.wf(),
{
    a.to_decimal().checked_add(b.to_decimal()).map(|v| Dec::from_decimal(&v))
}

/// Relies on `Decimal::checked_sub`: `None` on overflow.
#[verifier::external_body]
pub(crate) fn checked_sub(a: Dec, b: Dec) -> (r: Option<Dec>)
    requires
        a.wf(),
        b.wf(),
    ensures
        r == decimal_difference(a, b),
        r matches Some(v) ==> v.wf(),
{
    a.to_decimal().checked_sub(b.to_decimal()).map(|v| Dec::from_decimal(&v))
}

/// Relies on `Decimal::checked_mul`: `None` on overflow.
#[verifier::external_body]
pub(crate) fn checked_mul(a: Dec, b: Dec) -> (r: Option<Dec>)
    requires
        a.wf(),
        b.wf(),
    ensures
        r == decimal_product(a, b),
        r matches Some(v) ==> v.wf(),
{
    a.to_decimal().checked_mul(b.to_decimal()).map(|v| Dec::from_decimal(&v))
}

/// Relies on `Decimal::checked_div`: `None` on a zero divisor or overflow.
#[verifier::external_body]
pub(crate) fn checked_div(a: Dec, b: Dec) -> (r: Option<Dec>)
    requires
        a.wf(),
        b.wf(),
    ensures
        r == decimal_quotient(a, b),
        r matches Some(v) ==> v.wf(),
{
    a.to_decimal().checked_div(b.to_decimal()).map(|v| Dec::from_decimal(&v))
}

/// Relies on `Decimal::checked_rem`: `None` on a zero divisor or overflow.
#[verifier::external_body]
pub(crate) fn checked_rem(a: Dec, b: Dec) -> (r: Option<Dec>)
    requires
        a.wf(),
        b.wf(),
    ensures
        r == decimal_remainder(a, b),
        r matches Some(v) ==> v.wf(),
{
    a.to_decimal().checked_rem(b.to_decimal()).map(|v| Dec::from_decimal(&v))
}

/// Relies on `Decimal`'s `PartialEq`, which compares values, not
/// representations (`1.50 == 1.5`).
#[verifier::external_body]
pub(crate) fn same_value(a: Dec, b: Dec) -> (r: bool)
    requires
        a.wf(),
        b.wf(),
    ensures
        r == a.same_value_as(b),
{
    a.to_decimal() == b.to_decimal()
}

/// Relies on `Decimal::from_str` to read a literal; `Err` becomes `None`.
#[verifier::external_body]
pub(crate) fn parse_literal(text: &str) -> (r: Option<Dec>)
    ensures
        r == literal_decimal(text@),
        r matches Some(v) ==> v.wf(),
{
    Decimal::from_str(text).ok().map(|v| Dec::from_decimal(&v))
}

/// Relies on `Decimal`'s `Display` through `to_string`; without a sign, a
/// width or a precision it writes what `to_str_internal` builds.
#[verifier::external_body]
pub(crate) fn text_of(d: Dec) -> (r: String)
    requires
        d.wf(),
        d.mantissa >= 0,
    ensures
        r@ == plain_text(d),
{
    d.to_decimal().to_string()
}

/// Relies on `Decimal::to_f64`, `f64::sqrt` and `Decimal::from_f64`, which
/// returns `None` for a result a decimal cannot hold. std does not promise
/// the same double-precision result everywhere, so nothing is said of the
/// value.
#[verifier::external_body]
pub(crate) fn sqrt_in_double(d: Dec) -> (r: Option<Dec>)
    requires
        d.wf(),
    ensures
        r matches Some(v) ==> v.wf(),
{
    let x = d.to_decimal().to_f64()?;
    Decimal::from_f64(x.sqrt()).map(|v| Dec::from_decimal(&v))
}

/// Relies on `Decimal::to_f64`, `f64::powf` and `Decimal::from_f64`, which
/// returns `None` for NaN, an infinity or a value a decimal cannot hold.
/// std does not promise the same double-precision result everywhere, so
/// nothing is said of the value.
#[verifier::external_body]
pub(crate) fn power_in_double(base: Dec, exponent: Dec) -> (r: Option<Dec>)
    requires
        base.wf(),
        exponent.wf(),
    ensures
        r matches Some(v) ==> v.wf(),
{
    let x = base.to_decimal().to_f64()?;
    let y = exponent.to_decimal().to_f64()?;
    Decimal::from_f64(x.powf(y)).map(|v| Dec::from_decimal(&v))
}

} // verus!
