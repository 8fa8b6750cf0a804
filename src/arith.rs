//! What each operator does to the operand stack: the binary operators, the
//! postfix factorial and the prefix functions.

use crate::decimal::{
    checked_add, checked_div, checked_mul, checked_rem, checked_sub, decimal_difference,
    decimal_product, decimal_quotient, decimal_remainder, decimal_sum, plain_text,
    power_in_double, sqrt_in_double, text_of, Dec, MAX_MANTISSA, MAX_SCALE,
};
use crate::decimal::lemma_pow10_positive;
use crate::token::{CalcError, Token};
use vstd::prelude::*;

verus! {

/// Every decimal of the sequence is well formed.
pub open spec fn all_wf(s: Seq<Dec>) -> bool {
    forall|i: int| 0 <= i < s.len() ==> (#[trigger] s[i]).wf()
}

pub open spec fn or_fail(o: Option<Dec>, e: CalcError) -> Result<Dec, CalcError> {
    match o {
        Some(v) => Ok(v),
        None => Err(e),
    }
}

/// The length of a text once its trailing '0' characters are removed.
pub open spec fn trimmed_len(s: Seq<char>) -> nat
    decreases s.len(),
{
    if s.len() > 0 && s.last() == '0' {
        trimmed_len(s.drop_last())
    } else {
        s.len()
    }
}

/// Digits counted for the overflow estimate of a power: the text of the
/// magnitude without its trailing zeros.
pub open spec fn base_digits(a: Dec) -> nat {
    trimmed_len(plain_text(a.magnitude()))
}

/// `1 * 2 * ... * k`, multiplied left to right.
pub open spec fn product_up_to(k: nat) -> Result<Dec, CalcError>
    decreases k,
{
    if k == 0 {
        Ok(Dec::from_int(1))
    } else {
        match product_up_to((k - 1) as nat) {
            Ok(p) => or_fail(decimal_product(p, Dec::from_int(k as int)), CalcError::FactorialTooLarge),
            Err(e) => Err(e),
        }
    }
}

/// The factorial of the integer part of a non-negative decimal of at most 20.
pub open spec fn factorial_result(n: Dec) -> Result<Dec, CalcError> {
    if n.mantissa < 0 {
        Err(CalcError::NegativeFactorial)
    } else if n.trunc() > 20 {
        Err(CalcError::FactorialTooLarge)
    } else {
        product_up_to(n.trunc() as nat)
    }
}

/// Exponentiation by squaring: `acc * base^e`, each multiplication checked.
pub open spec fn square_and_multiply(acc: Dec, base: Dec, e: nat) -> Result<Dec, CalcError>
    decreases e,
{
    if e == 0 {
        Ok(acc)
    } else {
        let next = if e % 2 == 1 { decimal_product(acc, base) } else { Some(acc) };
        match next {
            None => Err(CalcError::PowerOverflow),
            Some(acc2) => if e > 1 {
                match decimal_product(base, base) {
                    None => Err(CalcError::IntermediatePowerOverflow),
                    Some(b2) => square_and_multiply(acc2, b2, e / 2),
                }
            } else {
                square_and_multiply(acc2, base, e / 2)
            },
        }
    }
}

/// `|e|`.
pub open spec fn magnitude_of(e: int) -> int {
    if e < 0 {
        -e
    } else {
        e
    }
}

/// What a double-precision square root leads to: its value, or an error when
/// no decimal holds it.
pub open spec fn sqrt_outcome_of(root: Option<Dec>) -> Result<Dec, CalcError> {
    or_fail(root, CalcError::SqrtUnrepresentable)
}

/// What a double-precision power leads to: its value, or an error for NaN,
/// an infinity or a value no decimal holds.
pub open spec fn power_outcome_of(p: Option<Dec>) -> Result<Dec, CalcError> {
    or_fail(p, CalcError::InvalidPowerResult)
}

/// `a ^ b` for an integral exponent, computed exactly: an estimate (digits
/// of `|a|` times `|b|` above 28) first rejects results too large to hold; a
/// negative exponent raises `1 / a`. `None` for any other exponent, whose
/// power is taken in double precision and so is not fixed by the operands.
pub open spec fn power_result(a: Dec, b: Dec) -> Option<Result<Dec, CalcError>> {
    if b.is_integral() {
        let e = b.trunc();
        Some(
            if e != 0 && base_digits(a) * magnitude_of(e) > MAX_SCALE {
                Err(CalcError::PowerTooLarge)
            } else if e < 0 {
                if a.mantissa == 0 {
                    Err(CalcError::NegativePowerOfZero)
                } else {
                    match decimal_quotient(Dec::from_int(1), a) {
                        None => Err(CalcError::PowerOverflow),
                        Some(inv) => square_and_multiply(Dec::from_int(1), inv, (-e) as nat),
                    }
                }
            } else {
                square_and_multiply(Dec::from_int(1), a, e as nat)
            },
        )
    } else {
        None
    }
}

pub open spec fn is_binary(op: Token) -> bool {
    op is Plus || op is Minus || op is Multiply || op is Divide || op is Modulo
        || op is Exponentiation
}

pub open spec fn is_unary(op: Token) -> bool {
    op is Factorial || op is Sqrt || op is Abs
}

/// `a op b` for a binary operator; `None` where it rests on a
/// double-precision result.
pub open spec fn binary_result(op: Token, a: Dec, b: Dec) -> Option<Result<Dec, CalcError>> {
    match op {
        Token::Plus => Some(or_fail(decimal_sum(a, b), CalcError::Overflow)),
        Token::Minus => Some(or_fail(decimal_difference(a, b), CalcError::Overflow)),
        Token::Multiply => Some(or_fail(decimal_product(a, b), CalcError::Overflow)),
        Token::Divide => Some(
            if b.mantissa == 0 {
                Err(CalcError::DivisionByZero)
            } else {
                or_fail(decimal_quotient(a, b), CalcError::Overflow)
            },
        ),
        Token::Modulo => Some(
            if b.mantissa == 0 {
                Err(CalcError::ModuloByZero)
            } else {
                or_fail(decimal_remainder(a, b), CalcError::Overflow)
            },
        ),
        Token::Exponentiation => power_result(a, b),
        _ => Some(Err(CalcError::InvalidOperator)),
    }
}

/// `op n` for factorial, square root and absolute value; `None` for the
/// square root of a non-negative number, taken in double precision.
pub open spec fn unary_result(op: Token, n: Dec) -> Option<Result<Dec, CalcError>> {
    match op {
        Token::Factorial => Some(factorial_result(n)),
        Token::Sqrt => if n.mantissa < 0 {
            Some(Err(CalcError::NegativeSqrt))
        } else {
            None
        },
        Token::Abs => Some(Ok(n.magnitude())),
        _ => Some(Err(CalcError::InvalidOperator)),
    }
}

/// The operand stack after applying `op`: a binary operator replaces the top
/// two values `a, b` with `a op b`, a unary one replaces the top value.
/// `None` where the outcome rests on a double-precision result.
pub open spec fn apply_result(nums: Seq<Dec>, op: Token) -> Option<Result<Seq<Dec>, CalcError>> {
    if is_binary(op) {
        if nums.len() < 2 {
            Some(Err(CalcError::MissingOperand))
        } else {
            match binary_result(op, nums[nums.len() - 2], nums[nums.len() - 1]) {
                Some(Ok(v)) => Some(Ok(nums.drop_last().drop_last().push(v))),
                Some(Err(e)) => Some(Err(e)),
                None => None,
            }
        }
    } else if is_unary(op) {
        if nums.len() < 1 {
            Some(Err(CalcError::MissingOperand))
        } else {
            match unary_result(op, nums.last()) {
                Some(Ok(v)) => Some(Ok(nums.drop_last().push(v))),
                Some(Err(e)) => Some(Err(e)),
                None => None,
            }
        }
    } else {
        Some(Err(CalcError::InvalidOperator))
    }
}

proof fn lemma_product_failure_persists(j: nat, k: nat)
    requires
        j <= k,
        product_up_to(j) is Err,
    ensures
        product_up_to(k) == product_up_to(j),
    decreases k - j,
{
    if j < k {
        lemma_product_failure_persists(j, (k - 1) as nat);
    }
}

/// The number of characters of `text` left once trailing '0's are removed.
fn trimmed_length(text: &String) -> (r: usize)
    ensures
        r == trimmed_len(text@),
{
    let n = text.unicode_len();
    let mut k: usize = n;
    proof {
        assert(text@.subrange(0, n as int) =~= text@);
    }
    while k > 0 && text.get_char(k - 1) == '0'
        invariant
            k <= n == text@.len(),
            trimmed_len(text@) == trimmed_len(text@.subrange(0, k as int)),
        decreases k,
    {
        proof {
            let sub = text@.subrange(0, k as int);
            assert(sub.drop_last() =~= text@.subrange(0, k - 1));
        }
        k = k - 1;
    }
    proof {
        assert(text@.subrange(0, n as int) =~= text@);
    }
    k
}

/// The factorial of `n`: an error for a negative `n` or one whose integer
/// part exceeds 20, else the product `1 * 2 * ... * trunc(n)`.
pub fn factorial(n: &Dec) -> (r: Result<Dec, CalcError>)
    requires
        n.wf(),
    ensures
        r == factorial_result(*n),
        r matches Ok(v) ==> v.wf(),
{
    if n.is_negative() {
        return Err(CalcError::NegativeFactorial);
    }
    let k = n.integer_part();
    proof {
        lemma_pow10_positive(n.scale as nat);
    }
    if k > 20 {
        return Err(CalcError::FactorialTooLarge);
    }
    let mut result = Dec::one();
    let mut i: i128 = 1;
    while i <= k
        invariant
            0 <= k <= 20,
            k == n.trunc(),
            n.mantissa >= 0,
            1 <= i <= k + 1,
            product_up_to((i - 1) as nat) == Ok::<Dec, CalcError>(result),
            result.wf(),
        decreases k + 1 - i,
    {
        let factor = Dec::integer(i);
        match checked_mul(result, factor) {
            Some(v) => {
                result = v;
            },
            None => {
                proof {
                    assert(product_up_to(i as nat) == Err::<Dec, CalcError>(CalcError::FactorialTooLarge));
                    lemma_product_failure_persists(i as nat, k as nat);
                }
                return Err(CalcError::FactorialTooLarge);
            },
        }
        i = i + 1;
    }
    Ok(result)
}

/// `acc * base^e` by repeated squaring, failing as soon as a product overflows.
fn raise(start: Dec, factor: Dec, exponent: u128) -> (r: Result<Dec, CalcError>)
    requires
        start.wf(),
        factor.wf(),
    ensures
        r == square_and_multiply(start, factor, exponent as nat),
        r matches Ok(v) ==> v.wf(),
{
    let ghost goal = square_and_multiply(start, factor, exponent as nat);
    let mut acc = start;
    let mut base = factor;
    let mut e = exponent;
    while e > 0
        invariant
            goal == square_and_multiply(start, factor, exponent as nat),
            acc.wf(),
            base.wf(),
            square_and_multiply(acc, base, e as nat) == goal,
        decreases e,
    {
        let ghost acc0 = acc;
        let ghost base0 = base;
        let ghost e0 = e as nat;
        if e % 2 == 1 {
            match checked_mul(acc, base) {
                Some(v) => {
                    acc = v;
                },
                None => {
                    assert(square_and_multiply(acc0, base0, e0) == Err::<Dec, CalcError>(CalcError::PowerOverflow));
                    return Err(CalcError::PowerOverflow);
                },
            }
        }
        if e > 1 {
            match checked_mul(base, base) {
                Some(v) => {
                    base = v;
                },
                None => {
                    assert(square_and_multiply(acc0, base0, e0) == Err::<Dec, CalcError>(
                        CalcError::IntermediatePowerOverflow,
                    ));
                    return Err(CalcError::IntermediatePowerOverflow);
                },
            }
        }
        e = e / 2;
        assert(square_and_multiply(acc0, base0, e0) == square_and_multiply(acc, base, e as nat));
    }
    Ok(acc)
}

/// Whether a power is predicted to overflow: the length of `text` (the
/// printed magnitude of the base) without trailing '0's, times the exponent,
/// exceeds 28.
pub fn estimate_exceeds(text: &String, exponent: i128) -> (r: bool)
    requires
        0 < exponent <= MAX_MANTISSA,
    ensures
        r == (trimmed_len(text@) * exponent > MAX_SCALE),
{
    let digits = trimmed_length(text);
    if digits > 28 {
        assert(trimmed_len(text@) * exponent > MAX_SCALE) by (nonlinear_arith)
            requires trimmed_len(text@) > 28, exponent >= 1;
        return true;
    }
    assert((digits as int) * (exponent as int) < 0x1_0000_0000_0000_0000_0000_0000_0000) by (nonlinear_arith)
        requires 0 <= digits <= 28, 0 < exponent <= MAX_MANTISSA;
    (digits as u128) * (exponent as u128) > 28
}

/// `a ^ b`. An integral exponent is applied exactly by repeated squaring,
/// after an estimate (digits of `|a|` times the exponent above 28) rejects
/// results too large to hold; a negative one raises `1 / a`. Any other
/// exponent goes through double precision.
pub fn power(a: Dec, b: Dec) -> (r: Result<Dec, CalcError>)
    requires
        a.wf(),
        b.wf(),
    ensures
        power_result(a, b) matches Some(x) ==> r == x,
        power_result(a, b) is None ==> r is Ok || r == Err::<Dec, CalcError>(
            CalcError::InvalidPowerResult,
        ),
        r matches Ok(v) ==> v.wf(),
{
    if b.has_no_fraction() {
        let e = b.integer_part();
        if e != 0 {
            let text = text_of(a.abs());
            let size = if e < 0 { -e } else { e };
            if estimate_exceeds(&text, size) {
                return Err(CalcError::PowerTooLarge);
            }
        }
        if e < 0 {
            if a.is_zero() {
                return Err(CalcError::NegativePowerOfZero);
            }
            match checked_div(Dec::one(), a) {
                None => Err(CalcError::PowerOverflow),
                Some(inv) => raise(Dec::one(), inv, (-e) as u128),
            }
        } else {
            raise(Dec::one(), a, e as u128)
        }
    } else {
        power_outcome(power_in_double(a, b))
    }
}

/// The result of a double-precision square root: its value, or an error
/// when no decimal could hold it.
pub fn sqrt_outcome(root: Option<Dec>) -> (r: Result<Dec, CalcError>)
    ensures
        r == sqrt_outcome_of(root),
{
    match root {
        Some(v) => Ok(v),
        None => Err(CalcError::SqrtUnrepresentable),
    }
}

/// The result of a double-precision power: its value, or an error when it
/// was NaN, infinite or too large for a decimal.
pub fn power_outcome(p: Option<Dec>) -> (r: Result<Dec, CalcError>)
    ensures
        r == power_outcome_of(p),
{
    match p {
        Some(v) => Ok(v),
        None => Err(CalcError::InvalidPowerResult),
    }
}

fn binary(op: Token, a: Dec, b: Dec) -> (r: Result<Dec, CalcError>)
    requires
        a.wf(),
        b.wf(),
    ensures
        binary_result(op, a, b) matches Some(x) ==> r == x,
        binary_result(op, a, b) is None ==> r is Ok || r == Err::<Dec, CalcError>(
            CalcError::InvalidPowerResult,
        ),
        r matches Ok(v) ==> v.wf(),
{
    let o = match op {
        Token::Plus => checked_add(a, b),
        Token::Minus => checked_sub(a, b),
        Token::Multiply => checked_mul(a, b),
        Token::Divide => {
            if b.is_zero() {
                return Err(CalcError::DivisionByZero);
            }
            checked_div(a, b)
        },
        Token::Modulo => {
            if b.is_zero() {
                return Err(CalcError::ModuloByZero);
            }
            checked_rem(a, b)
        },
        Token::Exponentiation => {
            return power(a, b);
        },
        _ => {
            return Err(CalcError::InvalidOperator);
        },
    };
    match o {
        Some(v) => Ok(v),
        None => Err(CalcError::Overflow),
    }
}

fn unary(op: Token, n: Dec) -> (r: Result<Dec, CalcError>)
    requires
        n.wf(),
    ensures
        unary_result(op, n) matches Some(x) ==> r == x,
        unary_result(op, n) is None ==> r is Ok || r == Err::<Dec, CalcError>(
            CalcError::SqrtUnrepresentable,
        ),
        r matches Ok(v) ==> v.wf(),
{
    match op {
        Token::Factorial => factorial(&n),
        Token::Sqrt => {
            if n.is_negative() {
                return Err(CalcError::NegativeSqrt);
            }
            sqrt_outcome(sqrt_in_double(n))
        },
        Token::Abs => Ok(n.abs()),
        _ => Err(CalcError::InvalidOperator),
    }
}

/// Applies `op` to the operand stack: a binary operator pops `b` then `a` and
/// pushes `a op b`; factorial, `sqrt` and `abs` replace the top value. On an
/// error the stack is left unspecified. Where the outcome rests on a
/// double-precision result, only the errors that result can bring are known.
pub fn apply_operator(numbers: &mut Vec<Dec>, op: Token) -> (r: Result<(), CalcError>)
    requires
        all_wf(old(numbers)@),
    ensures
        match apply_result(old(numbers)@, op) {
            Some(Ok(s)) => r is Ok && final(numbers)@ == s,
            Some(Err(e)) => r == Err::<(), CalcError>(e),
            None => r is Ok || r == Err::<(), CalcError>(CalcError::SqrtUnrepresentable) || r
                == Err::<(), CalcError>(CalcError::InvalidPowerResult),
        },
        r is Ok ==> all_wf(final(numbers)@),
{
    let ghost before = numbers@;
    match op {
        Token::Plus | Token::Minus | Token::Multiply | Token::Divide | Token::Modulo
        | Token::Exponentiation => {
            if numbers.len() < 2 {
                return Err(CalcError::MissingOperand);
            }
            let b = numbers.pop().unwrap();
            let a = numbers.pop().unwrap();
            assert(before[before.len() - 1].wf() && before[before.len() - 2].wf());
            match binary(op, a, b) {
                Ok(v) => {
                    numbers.push(v);
                    assert forall|i: int| 0 <= i < numbers@.len() implies (#[trigger] numbers@[i]).wf() by {
                        if i < numbers@.len() - 1 {
                            assert(numbers@[i] == before[i]);
                        }
                    }
                    Ok(())
                },
                Err(e) => Err(e),
            }
        },
        Token::Factorial | Token::Sqrt | Token::Abs => {
            if numbers.len() < 1 {
                return Err(CalcError::MissingOperand);
            }
            let n = numbers.pop().unwrap();
            assert(before[before.len() - 1].wf());
            match unary(op, n) {
                Ok(v) => {
                    numbers.push(v);
                    assert forall|i: int| 0 <= i < numbers@.len() implies (#[trigger] numbers@[i]).wf() by {
                        if i < numbers@.len() - 1 {
                            assert(numbers@[i] == before[i]);
                        }
                    }
                    Ok(())
                },
                Err(e) => Err(e),
            }
        },
        _ => Err(CalcError::InvalidOperator),
    }
}

} // verus!
