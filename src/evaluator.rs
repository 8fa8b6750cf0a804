//! Two-stack evaluation of a token sequence: operands on one stack, pending
//! operators and open parentheses on the other, reduced by precedence.

use crate::arith::{all_wf, apply_operator, apply_result};
use crate::decimal::{same_value, Dec};
use crate::token::{tokens_wf, CalcError, Token};
use vstd::prelude::*;

verus! {

/// How tightly an operator binds: `+ -` 1, `* / %` 2, `^` 3, `!` 4,
/// `sqrt abs` 5, anything else 0.
pub open spec fn precedence_of(t: Token) -> nat {
    match t {
        Token::Plus | Token::Minus => 1,
        Token::Multiply | Token::Divide | Token::Modulo => 2,
        Token::Exponentiation => 3,
        Token::Factorial => 4,
        Token::Sqrt | Token::Abs => 5,
        _ => 0,
    }
}

/// The precedence of `token`.
pub fn precedence(token: &Token) -> (r: u8)
    ensures
        r == precedence_of(*token),
{
    match token {
        Token::Plus | Token::Minus => 1,
        Token::Multiply | Token::Divide | Token::Modulo => 2,
        Token::Exponentiation => 3,
        Token::Factorial => 4,
        Token::Sqrt | Token::Abs => 5,
        _ => 0,
    }
}

/// Whether `top`, waiting on the operator stack, is applied before `incoming`
/// is pushed: it binds tighter, or as tightly when `incoming` associates to
/// the left (every operator but `^`).
pub open spec fn yields_to(top: Token, incoming: Token) -> bool {
    if incoming is Exponentiation {
        precedence_of(top) > precedence_of(incoming)
    } else {
        precedence_of(top) >= precedence_of(incoming)
    }
}

/// Applies operators from the top of the stack down to the nearest `(`.
pub open spec fn reduce_to_paren(nums: Seq<Dec>, ops: Seq<Token>) -> Option<
    Result<(Seq<Dec>, Seq<Token>), CalcError>,
>
    decreases ops.len(),
{
    if ops.len() == 0 || ops.last() is LeftParen {
        Some(Ok((nums, ops)))
    } else {
        match apply_result(nums, ops.last()) {
            Some(Ok(n2)) => reduce_to_paren(n2, ops.drop_last()),
            Some(Err(e)) => Some(Err(e)),
            None => None,
        }
    }
}

/// Applies the operators on top of the stack that yield to `incoming`,
/// stopping at a `(`.
pub open spec fn reduce_before(nums: Seq<Dec>, ops: Seq<Token>, incoming: Token) -> Option<
    Result<(Seq<Dec>, Seq<Token>), CalcError>,
>
    decreases ops.len(),
{
    if ops.len() == 0 || ops.last() is LeftParen || !yields_to(ops.last(), incoming) {
        Some(Ok((nums, ops)))
    } else {
        match apply_result(nums, ops.last()) {
            Some(Ok(n2)) => reduce_before(n2, ops.drop_last(), incoming),
            Some(Err(e)) => Some(Err(e)),
            None => None,
        }
    }
}

/// Applies every operator left on the stack, top first.
pub open spec fn reduce_all(nums: Seq<Dec>, ops: Seq<Token>) -> Option<Result<Seq<Dec>, CalcError>>
    decreases ops.len(),
{
    if ops.len() == 0 {
        Some(Ok(nums))
    } else {
        match apply_result(nums, ops.last()) {
            Some(Ok(n2)) => reduce_all(n2, ops.drop_last()),
            Some(Err(e)) => Some(Err(e)),
            None => None,
        }
    }
}

/// The evaluation state between two tokens.
pub struct Machine {
    pub numbers: Seq<Dec>,
    pub operators: Seq<Token>,
    pub depth: nat,
    pub awaiting_paren: bool,
}

pub open spec fn initial_machine() -> Machine {
    Machine { numbers: Seq::empty(), operators: Seq::empty(), depth: 0, awaiting_paren: false }
}

/// What reading one token does to the state; `None` where it rests on a
/// double-precision result.
pub open spec fn step(m: Machine, t: Token) -> Option<Result<Machine, CalcError>> {
    match t {
        Token::Number(n) => Some(
            if m.awaiting_paren {
                Err(CalcError::ExpectedParenAfterFunction)
            } else {
                Ok(Machine { numbers: m.numbers.push(n), ..m })
            },
        ),
        Token::LeftParen => Some(
            Ok(
                Machine {
                    operators: m.operators.push(t),
                    depth: m.depth + 1,
                    awaiting_paren: false,
                    ..m
                },
            ),
        ),
        Token::RightParen => if m.depth == 0 {
            Some(Err(CalcError::MismatchedParentheses))
        } else {
            match reduce_to_paren(m.numbers, m.operators) {
                Some(Err(e)) => Some(Err(e)),
                None => None,
                Some(Ok((n2, o2))) => {
                    let o3 = if o2.len() > 0 { o2.drop_last() } else { o2 };
                    if o3.len() > 0 && (o3.last() is Sqrt || o3.last() is Abs) {
                        match apply_result(n2, o3.last()) {
                            Some(Ok(n4)) => Some(
                                Ok(
                                    Machine {
                                        numbers: n4,
                                        operators: o3.drop_last(),
                                        depth: (m.depth - 1) as nat,
                                        ..m
                                    },
                                ),
                            ),
                            Some(Err(e)) => Some(Err(e)),
                            None => None,
                        }
                    } else {
                        Some(
                            Ok(
                                Machine {
                                    numbers: n2,
                                    operators: o3,
                                    depth: (m.depth - 1) as nat,
                                    ..m
                                },
                            ),
                        )
                    }
                },
            }
        },
        Token::Sqrt | Token::Abs => Some(
            Ok(Machine { operators: m.operators.push(t), awaiting_paren: true, ..m }),
        ),
        _ => if m.awaiting_paren {
            Some(Err(CalcError::ExpectedParenAfterFunction))
        } else {
            match reduce_before(m.numbers, m.operators, t) {
                Some(Ok((n2, o2))) => Some(Ok(Machine { numbers: n2, operators: o2.push(t), ..m })),
                Some(Err(e)) => Some(Err(e)),
                None => None,
            }
        },
    }
}

/// The state after reading every token, or the first error.
pub open spec fn run(ts: Seq<Token>) -> Option<Result<Machine, CalcError>>
    decreases ts.len(),
{
    if ts.len() == 0 {
        Some(Ok(initial_machine()))
    } else {
        match run(ts.drop_last()) {
            Some(Ok(m)) => step(m, ts.last()),
            other => other,
        }
    }
}

/// The value left once the input is read: parentheses must be balanced, no
/// function may wait for its `(`, and exactly one value may remain.
pub open spec fn finish(m: Machine) -> Option<Result<Dec, CalcError>> {
    if m.depth != 0 {
        Some(Err(CalcError::MismatchedParentheses))
    } else if m.awaiting_paren {
        Some(Err(CalcError::ExpectedParenAfterFunction))
    } else {
        match reduce_all(m.numbers, m.operators) {
            Some(Ok(n)) => Some(
                if n.len() != 1 {
                    Err(CalcError::InvalidExpression)
                } else {
                    Ok(n[0])
                },
            ),
            Some(Err(e)) => Some(Err(e)),
            None => None,
        }
    }
}

/// The tokens from `i` read `( a ^ e ) + b - ( a' ^ e' )` with `a == a'`,
/// `e == e'` in value and `e` integral.
pub open spec fn cancels_at(ts: Seq<Token>, i: int) -> bool {
    &&& 0 <= i && i + 13 <= ts.len()
    &&& ts[i] is LeftParen
    &&& ts[i + 1] is Number
    &&& ts[i + 2] is Exponentiation
    &&& ts[i + 3] is Number
    &&& ts[i + 4] is RightParen
    &&& ts[i + 5] is Plus
    &&& ts[i + 6] is Number
    &&& ts[i + 7] is Minus
    &&& ts[i + 8] is LeftParen
    &&& ts[i + 9] is Number
    &&& ts[i + 10] is Exponentiation
    &&& ts[i + 11] is Number
    &&& ts[i + 12] is RightParen
    &&& ts[i + 1]->Number_0.same_value_as(ts[i + 9]->Number_0)
    &&& ts[i + 3]->Number_0.same_value_as(ts[i + 11]->Number_0)
    &&& ts[i + 3]->Number_0.is_integral()
}

/// The `b` of the first cancelling window at or after `i`.
pub open spec fn first_cancellation(ts: Seq<Token>, i: int) -> Option<Dec>
    decreases ts.len() - i,
{
    if i < 0 || i + 13 > ts.len() {
        None
    } else if cancels_at(ts, i) {
        Some(ts[i + 6]->Number_0)
    } else {
        first_cancellation(ts, i + 1)
    }
}

/// The value of a token sequence, or the first error met. `None` where the
/// outcome rests on a double-precision result (a square root, or a power
/// with a fractional exponent), which std does not promise to reproduce.
pub open spec fn evaluation(ts: Seq<Token>) -> Option<Result<Dec, CalcError>> {
    if ts.len() == 0 {
        Some(Err(CalcError::InvalidExpression))
    } else {
        match first_cancellation(ts, 0) {
            Some(b) => Some(Ok(b)),
            None => match run(ts) {
                Some(Ok(m)) => finish(m),
                Some(Err(e)) => Some(Err(e)),
                None => None,
            },
        }
    }
}

/// Applies operators from the top of the stack down to the nearest `(`,
/// which stays.
fn close_group(numbers: &mut Vec<Dec>, operators: &mut Vec<Token>) -> (r: Result<(), CalcError>)
    requires
        all_wf(old(numbers)@),
    ensures
        match reduce_to_paren(old(numbers)@, old(operators)@) {
            Some(Ok((n, o))) => r is Ok && final(numbers)@ == n && final(operators)@ == o,
            Some(Err(e)) => r == Err::<(), CalcError>(e),
            None => true,
        },
        r is Ok ==> all_wf(final(numbers)@),
{
    loop
        invariant
            all_wf(numbers@),
            reduce_to_paren(old(numbers)@, old(operators)@) is Some ==> reduce_to_paren(
                numbers@,
                operators@,
            ) == reduce_to_paren(old(numbers)@, old(operators)@),
        decreases operators@.len(),
    {
        let len = operators.len();
        if len == 0 {
            return Ok(());
        }
        let top = operators[len - 1];
        if let Token::LeftParen = top {
            return Ok(());
        }
        operators.pop();
        match apply_operator(numbers, top) {
            Ok(()) => {},
            Err(e) => {
                return Err(e);
            },
        }
    }
}

/// Applies the operators on top of the stack that yield to `incoming`.
fn make_room(numbers: &mut Vec<Dec>, operators: &mut Vec<Token>, incoming: Token) -> (r: Result<
    (),
    CalcError,
>)
    requires
        all_wf(old(numbers)@),
    ensures
        match reduce_before(old(numbers)@, old(operators)@, incoming) {
            Some(Ok((n, o))) => r is Ok && final(numbers)@ == n && final(operators)@ == o,
            Some(Err(e)) => r == Err::<(), CalcError>(e),
            None => true,
        },
        r is Ok ==> all_wf(final(numbers)@),
{
    let right_assoc = matches!(incoming, Token::Exponentiation);
    let p_in = precedence(&incoming);
    loop
        invariant
            all_wf(numbers@),
            right_assoc == incoming is Exponentiation,
            p_in == precedence_of(incoming),
            reduce_before(old(numbers)@, old(operators)@, incoming) is Some ==> reduce_before(
                numbers@,
                operators@,
                incoming,
            ) == reduce_before(old(numbers)@, old(operators)@, incoming),
        decreases operators@.len(),
    {
        let len = operators.len();
        if len == 0 {
            return Ok(());
        }
        let top = operators[len - 1];
        if let Token::LeftParen = top {
            return Ok(());
        }
        let p_top = precedence(&top);
        if !((right_assoc && p_top > p_in) || (!right_assoc && p_top >= p_in)) {
            return Ok(());
        }
        operators.pop();
        match apply_operator(numbers, top) {
            Ok(()) => {},
            Err(e) => {
                return Err(e);
            },
        }
    }
}

/// Applies every operator left on the stack, top first.
fn drain(numbers: &mut Vec<Dec>, operators: &mut Vec<Token>) -> (r: Result<(), CalcError>)
    requires
        all_wf(old(numbers)@),
    ensures
        match reduce_all(old(numbers)@, old(operators)@) {
            Some(Ok(n)) => r is Ok && final(numbers)@ == n,
            Some(Err(e)) => r == Err::<(), CalcError>(e),
            None => true,
        },
        r is Ok ==> all_wf(final(numbers)@),
{
    loop
        invariant
            all_wf(numbers@),
            reduce_all(old(numbers)@, old(operators)@) is Some ==> reduce_all(numbers@, operators@)
                == reduce_all(old(numbers)@, old(operators)@),
        decreases operators@.len(),
    {
        match operators.pop() {
            None => {
                return Ok(());
            },
            Some(op) => match apply_operator(numbers, op) {
                Ok(()) => {},
                Err(e) => {
                    return Err(e);
                },
            },
        }
    }
}

fn number_in(t: &Token) -> (r: Option<Dec>)
    ensures
        r is Some <==> t is Number,
        r matches Some(v) ==> v == t->Number_0,
{
    match t {
        Token::Number(n) => Some(*n),
        _ => None,
    }
}

/// Whether the thirteen tokens from `i` cancel as `(a^e) + b - (a^e)`.
fn cancels(tokens: &[Token], i: usize) -> (r: bool)
    requires
        tokens_wf(tokens@),
        i + 13 <= tokens@.len(),
    ensures
        r == cancels_at(tokens@, i as int),
{
    if !(matches!(tokens[i], Token::LeftParen) && matches!(tokens[i + 2], Token::Exponentiation)
        && matches!(tokens[i + 4], Token::RightParen) && matches!(tokens[i + 5], Token::Plus)
        && matches!(tokens[i + 6], Token::Number(_)) && matches!(tokens[i + 7], Token::Minus)
        && matches!(tokens[i + 8], Token::LeftParen) && matches!(
        tokens[i + 10],
        Token::Exponentiation,
    ) && matches!(tokens[i + 12], Token::RightParen)) {
        return false;
    }
    match (number_in(&tokens[i + 1]), number_in(&tokens[i + 3]), number_in(&tokens[i + 9]), number_in(&tokens[i + 11])) {
        (Some(a1), Some(e1), Some(a2), Some(e2)) => {
            assert(tokens@[i + 1].wf() && tokens@[i + 3].wf() && tokens@[i + 9].wf() && tokens@[i + 11].wf());
            same_value(a1, a2) && same_value(e1, e2) && e1.has_no_fraction()
        },
        _ => false,
    }
}

/// The `b` of the first window `(a^e) + b - (a^e)` in the sequence.
fn find_cancellation(tokens: &[Token]) -> (r: Option<Dec>)
    requires
        tokens_wf(tokens@),
    ensures
        r == first_cancellation(tokens@, 0),
        r matches Some(v) ==> v.wf(),
{
    let mut i: usize = 0;
    while i < tokens.len() && tokens.len() - i >= 13
        invariant
            i <= tokens@.len(),
            tokens_wf(tokens@),
            first_cancellation(tokens@, i as int) == first_cancellation(tokens@, 0),
        decreases tokens@.len() - i,
    {
        if cancels(tokens, i) {
            assert(tokens@[i + 6].wf());
            return number_in(&tokens[i + 6]);
        }
        i = i + 1;
    }
    None
}

proof fn lemma_run_failure_persists(ts: Seq<Token>, k: int)
    requires
        0 <= k <= ts.len(),
        !(run(ts.subrange(0, k)) matches Some(Ok(_))),
    ensures
        run(ts) == run(ts.subrange(0, k)),
    decreases ts.len() - k,
{
    if k < ts.len() {
        assert(ts.subrange(0, k + 1).drop_last() =~= ts.subrange(0, k));
        lemma_run_failure_persists(ts, k + 1);
    } else {
        assert(ts.subrange(0, k) =~= ts);
    }
}

/// Evaluates a token sequence: the value of the expression, or the first
/// error met. An empty sequence is an invalid expression; a window
/// `(a^e) + b - (a^e)` with an integral `e` yields `b` at once. Where the
/// outcome rests on a double-precision result, only its well-formedness is
/// promised.
pub fn evaluate(tokens: &[Token]) -> (r: Result<Dec, CalcError>)
    requires
        tokens_wf(tokens@),
    ensures
        evaluation(tokens@) matches Some(x) ==> r == x,
        r matches Ok(v) ==> v.wf(),
{
    if tokens.len() == 0 {
        return Err(CalcError::InvalidExpression);
    }
    match find_cancellation(tokens) {
        Some(b) => {
            return Ok(b);
        },
        None => {},
    }
    let ghost ts = tokens@;
    let mut numbers: Vec<Dec> = Vec::new();
    let mut operators: Vec<Token> = Vec::new();
    let mut depth: usize = 0;
    let mut awaiting_paren = false;
    let mut i: usize = 0;
    proof {
        assert(ts.subrange(0, 0) =~= Seq::<Token>::empty());
    }
    while i < tokens.len()
        invariant
            ts == tokens@,
            i <= ts.len(),
            depth <= i,
            tokens_wf(ts),
            all_wf(numbers@),
            first_cancellation(ts, 0) is None,
            ts.len() > 0,
            evaluation(ts) is Some ==> run(ts.subrange(0, i as int)) == Some(
                Ok::<Machine, CalcError>(
                    Machine {
                        numbers: numbers@,
                        operators: operators@,
                        depth: depth as nat,
                        awaiting_paren,
                    },
                ),
            ),
        decreases ts.len() - i,
    {
        proof {
            assert(ts.subrange(0, i + 1).drop_last() =~= ts.subrange(0, i as int));
            assert(ts.subrange(0, i + 1).last() == ts[i as int]);
        }
        let t = tokens[i];
        let ghost m = Machine {
            numbers: numbers@,
            operators: operators@,
            depth: depth as nat,
            awaiting_paren,
        };
        let failed: Option<CalcError> = match t {
            Token::Number(n) => {
                if awaiting_paren {
                    Some(CalcError::ExpectedParenAfterFunction)
                } else {
                    assert(ts[i as int].wf());
                    numbers.push(n);
                    None
                }
            },
            Token::LeftParen => {
                depth = depth + 1;
                awaiting_paren = false;
                operators.push(t);
                None
            },
            Token::RightParen => {
                if depth == 0 {
                    Some(CalcError::MismatchedParentheses)
                } else {
                    depth = depth - 1;
                    match close_group(&mut numbers, &mut operators) {
                        Err(e) => Some(e),
                        Ok(()) => {
                            operators.pop();
                            let len = operators.len();
                            if len > 0 && matches!(operators[len - 1], Token::Sqrt | Token::Abs) {
                                let f = operators.pop().unwrap();
                                match apply_operator(&mut numbers, f) {
                                    Ok(()) => None,
                                    Err(e) => Some(e),
                                }
                            } else {
                                None
                            }
                        },
                    }
                }
            },
            Token::Sqrt | Token::Abs => {
                awaiting_paren = true;
                operators.push(t);
                None
            },
            _ => {
                if awaiting_paren {
                    Some(CalcError::ExpectedParenAfterFunction)
                } else {
                    match make_room(&mut numbers, &mut operators, t) {
                        Ok(()) => {
                            operators.push(t);
                            None
                        },
                        Err(e) => Some(e),
                    }
                }
            },
        };
        match failed {
            Some(e) => {
                proof {
                    if evaluation(ts) is Some {
                        assert(!(step(m, t) matches Some(Ok(_))));
                        lemma_run_failure_persists(ts, i + 1);
                    }
                }
                return Err(e);
            },
            None => {},
        }
        proof {
            if evaluation(ts) is Some && !(step(m, t) matches Some(Ok(_))) {
                lemma_run_failure_persists(ts, i + 1);
            }
        }
        i = i + 1;
    }
    proof {
        assert(ts.subrange(0, ts.len() as int) =~= ts);
    }
    if depth != 0 {
        return Err(CalcError::MismatchedParentheses);
    }
    if awaiting_paren {
        return Err(CalcError::ExpectedParenAfterFunction);
    }
    match drain(&mut numbers, &mut operators) {
        Ok(()) => {},
        Err(e) => {
            return Err(e);
        },
    }
    if numbers.len() != 1 {
        return Err(CalcError::InvalidExpression);
    }
    Ok(numbers[0])
}

} // verus!
