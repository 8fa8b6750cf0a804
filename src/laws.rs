//! Properties of tokenizing and evaluating as a whole.

use crate::arith::{binary_result, is_binary, unary_result};
use crate::decimal::Dec;
use crate::evaluator::{
    cancels_at, evaluation, finish, first_cancellation, initial_machine, reduce_all,
    reduce_before, reduce_to_paren, run, step, Machine,
};
use crate::token::{CalcError, ErrorKind, Token};
use vstd::prelude::*;

verus! {

/// A fully parenthesized expression: a literal, `( left op right )`,
/// `sqrt( e )` or `abs( e )`, or `( e ! )`.
pub enum Expr {
    Lit(Dec),
    Bin(Box<Expr>, Token, Box<Expr>),
    Call(Token, Box<Expr>),
    Fact(Box<Expr>),
}

pub open spec fn expr_wf(e: Expr) -> bool
    decreases e,
{
    match e {
        Expr::Lit(d) => d.wf(),
        Expr::Bin(l, op, r) => is_binary(op) && expr_wf(*l) && expr_wf(*r),
        Expr::Call(f, a) => (f is Sqrt || f is Abs) && expr_wf(*a),
        Expr::Fact(a) => expr_wf(*a),
    }
}

/// The tokens that spell an expression.
pub open spec fn expr_tokens(e: Expr) -> Seq<Token>
    decreases e,
{
    match e {
        Expr::Lit(d) => seq![Token::Number(d)],
        Expr::Bin(l, op, r) => seq![Token::LeftParen] + expr_tokens(*l) + seq![op] + expr_tokens(
            *r,
        ) + seq![Token::RightParen],
        Expr::Call(f, a) => seq![f, Token::LeftParen] + expr_tokens(*a) + seq![Token::RightParen],
        Expr::Fact(a) => seq![Token::LeftParen] + expr_tokens(*a) + seq![Token::Factorial]
            + seq![Token::RightParen],
    }
}

/// The value of an expression, each operator applied to the values of its
/// operands, left operand first; the first error met otherwise; `None` where
/// it rests on a double-precision result.
pub open spec fn expr_value(e: Expr) -> Option<Result<Dec, CalcError>>
    decreases e,
{
    match e {
        Expr::Lit(d) => Some(Ok(d)),
        Expr::Bin(l, op, r) => match expr_value(*l) {
            Some(Ok(a)) => match expr_value(*r) {
                Some(Ok(b)) => binary_result(op, a, b),
                other => other,
            },
            other => other,
        },
        Expr::Call(f, a) => match expr_value(*a) {
            Some(Ok(v)) => unary_result(f, v),
            other => other,
        },
        Expr::Fact(a) => match expr_value(*a) {
            Some(Ok(v)) => unary_result(Token::Factorial, v),
            other => other,
        },
    }
}

/// The state `m` with the value of `r` pushed, or what stopped `r`.
pub open spec fn pushed(m: Machine, r: Option<Result<Dec, CalcError>>) -> Option<
    Result<Machine, CalcError>,
> {
    match r {
        Some(Ok(v)) => Some(Ok(Machine { numbers: m.numbers.push(v), ..m })),
        Some(Err(e)) => Some(Err(e)),
        None => None,
    }
}

/// The state after reading `ts` from the outcome `r`.
pub open spec fn resume(r: Option<Result<Machine, CalcError>>, ts: Seq<Token>) -> Option<
    Result<Machine, CalcError>,
>
    decreases ts.len(),
{
    if ts.len() == 0 {
        r
    } else {
        match resume(r, ts.drop_last()) {
            Some(Ok(m)) => step(m, ts.last()),
            other => other,
        }
    }
}

proof fn lemma_run_is_resume(ts: Seq<Token>)
    ensures
        run(ts) == resume(Some(Ok(initial_machine())), ts),
    decreases ts.len(),
{
    if ts.len() > 0 {
        lemma_run_is_resume(ts.drop_last());
    }
}

proof fn lemma_resume_failed(x: Option<Result<Machine, CalcError>>, ts: Seq<Token>)
    requires
        !(x matches Some(Ok(_))),
    ensures
        resume(x, ts) == x,
    decreases ts.len(),
{
    if ts.len() > 0 {
        lemma_resume_failed(x, ts.drop_last());
    }
}

proof fn lemma_resume_concat(r: Option<Result<Machine, CalcError>>, a: Seq<Token>, b: Seq<Token>)
    ensures
        resume(r, a + b) == resume(resume(r, a), b),
    decreases b.len(),
{
    if b.len() == 0 {
        assert(a + b =~= a);
    } else {
        assert((a + b).drop_last() =~= a + b.drop_last());
        assert((a + b).last() == b.last());
        lemma_resume_concat(r, a, b.drop_last());
    }
}

proof fn lemma_resume_one(r: Option<Result<Machine, CalcError>>, t: Token)
    ensures
        resume(r, seq![t]) == match r {
            Some(Ok(m)) => step(m, t),
            other => other,
        },
{
    assert(seq![t].drop_last() =~= Seq::<Token>::empty());
    assert(resume(r, Seq::<Token>::empty()) == r);
    assert(seq![t].last() == t);
}

/// Reading a binary operator or `!` right after `( a` pushes it.
proof fn lemma_operator_after_open(m: Machine, op: Token)
    requires
        is_binary(op) || op is Factorial,
        !m.awaiting_paren,
        m.operators.len() > 0,
        m.operators.last() is LeftParen,
    ensures
        step(m, op) == Some(
            Ok::<Machine, CalcError>(Machine { operators: m.operators.push(op), ..m }),
        ),
{
    assert(reduce_before(m.numbers, m.operators, op) == Some(
        Ok::<(Seq<Dec>, Seq<Token>), CalcError>((m.numbers, m.operators)),
    ));
}

/// Reading `)` after `( a op b` replaces them with the value of `a op b`.
proof fn lemma_close_pair(m: Machine, a: Dec, b: Dec, op: Token)
    requires
        is_binary(op),
        !m.awaiting_paren,
        m.operators.len() == 0 || !(m.operators.last() is Sqrt || m.operators.last() is Abs),
    ensures
        step(
            Machine {
                numbers: m.numbers.push(a).push(b),
                operators: m.operators.push(Token::LeftParen).push(op),
                depth: m.depth + 1,
                awaiting_paren: false,
            },
            Token::RightParen,
        ) == pushed(m, binary_result(op, a, b)),
{
    let nums = m.numbers.push(a).push(b);
    let ops = m.operators.push(Token::LeftParen).push(op);
    assert(nums[nums.len() - 2] == a);
    assert(nums[nums.len() - 1] == b);
    assert(ops.last() == op);
    assert(ops.drop_last() =~= m.operators.push(Token::LeftParen));
    match binary_result(op, a, b) {
        Some(Ok(v)) => {
            assert(nums.drop_last().drop_last().push(v) =~= m.numbers.push(v));
            assert(reduce_to_paren(m.numbers.push(v), m.operators.push(Token::LeftParen)) == Some(
                Ok::<(Seq<Dec>, Seq<Token>), CalcError>(
                    (m.numbers.push(v), m.operators.push(Token::LeftParen)),
                ),
            ));
            assert(m.operators.push(Token::LeftParen).drop_last() =~= m.operators);
        },
        _ => {},
    }
}

/// Reading `)` after `( a !` replaces them with the factorial of `a`.
proof fn lemma_close_postfix(m: Machine, a: Dec)
    requires
        !m.awaiting_paren,
        m.operators.len() == 0 || !(m.operators.last() is Sqrt || m.operators.last() is Abs),
    ensures
        step(
            Machine {
                numbers: m.numbers.push(a),
                operators: m.operators.push(Token::LeftParen).push(Token::Factorial),
                depth: m.depth + 1,
                awaiting_paren: false,
            },
            Token::RightParen,
        ) == pushed(m, unary_result(Token::Factorial, a)),
{
    let nums = m.numbers.push(a);
    let ops = m.operators.push(Token::LeftParen).push(Token::Factorial);
    assert(nums.last() == a);
    assert(ops.last() == Token::Factorial);
    assert(ops.drop_last() =~= m.operators.push(Token::LeftParen));
    match unary_result(Token::Factorial, a) {
        Some(Ok(v)) => {
            assert(nums.drop_last().push(v) =~= m.numbers.push(v));
            assert(reduce_to_paren(m.numbers.push(v), m.operators.push(Token::LeftParen)) == Some(
                Ok::<(Seq<Dec>, Seq<Token>), CalcError>(
                    (m.numbers.push(v), m.operators.push(Token::LeftParen)),
                ),
            ));
            assert(m.operators.push(Token::LeftParen).drop_last() =~= m.operators);
        },
        _ => {},
    }
}

/// Reading `)` after `f ( a` for `sqrt` or `abs` replaces them with `f a`.
proof fn lemma_close_call(m: Machine, a: Dec, f: Token)
    requires
        f is Sqrt || f is Abs,
        !m.awaiting_paren,
    ensures
        step(
            Machine {
                numbers: m.numbers.push(a),
                operators: m.operators.push(f).push(Token::LeftParen),
                depth: m.depth + 1,
                awaiting_paren: false,
            },
            Token::RightParen,
        ) == pushed(m, unary_result(f, a)),
{
    let nums = m.numbers.push(a);
    let ops = m.operators.push(f).push(Token::LeftParen);
    assert(reduce_to_paren(nums, ops) == Some(
        Ok::<(Seq<Dec>, Seq<Token>), CalcError>((nums, ops)),
    ));
    assert(ops.drop_last() =~= m.operators.push(f));
    assert(m.operators.push(f).last() == f);
    assert(m.operators.push(f).drop_last() =~= m.operators);
    assert(nums.last() == a);
    match unary_result(f, a) {
        Some(Ok(v)) => {
            assert(nums.drop_last().push(v) =~= m.numbers.push(v));
        },
        _ => {},
    }
}

/// The state after `(` is read in state `m`.
pub open spec fn opened(m: Machine) -> Machine {
    Machine {
        operators: m.operators.push(Token::LeftParen),
        depth: m.depth + 1,
        awaiting_paren: false,
        ..m
    }
}

/// The state after `( a op` is read in state `m`.
pub open spec fn after_operator(m: Machine, a: Dec, op: Token) -> Machine {
    Machine {
        numbers: m.numbers.push(a),
        operators: m.operators.push(Token::LeftParen).push(op),
        depth: m.depth + 1,
        awaiting_paren: false,
    }
}

/// The state after `f (` is read in state `m`.
pub open spec fn called(m: Machine, f: Token) -> Machine {
    Machine {
        operators: m.operators.push(f).push(Token::LeftParen),
        depth: m.depth + 1,
        awaiting_paren: false,
        ..m
    }
}

#[verifier::spinoff_prover]
proof fn lemma_pair_case(m: Machine, l: Expr, op: Token, r: Expr)
    requires
        is_binary(op),
        !m.awaiting_paren,
        m.operators.len() == 0 || !(m.operators.last() is Sqrt || m.operators.last() is Abs),
        resume(Some(Ok(opened(m))), expr_tokens(l)) == pushed(opened(m), expr_value(l)),
        expr_value(l) matches Some(Ok(a)) ==> resume(
            Some(Ok(after_operator(m, a, op))),
            expr_tokens(r),
        ) == pushed(after_operator(m, a, op), expr_value(r)),
    ensures
        resume(Some(Ok(m)), expr_tokens(Expr::Bin(Box::new(l), op, Box::new(r)))) == pushed(
            m,
            expr_value(Expr::Bin(Box::new(l), op, Box::new(r))),
        ),
{
    let start = Some(Ok::<Machine, CalcError>(m));
    let tl = expr_tokens(l);
    let tr = expr_tokens(r);
    let open = seq![Token::LeftParen];
    let with_left = open + tl;
    let with_op = with_left + seq![op];
    let with_right = with_op + tr;
    assert(expr_tokens(Expr::Bin(Box::new(l), op, Box::new(r))) == with_right + seq![
        Token::RightParen,
    ]);
    lemma_resume_concat(start, with_right, seq![Token::RightParen]);
    lemma_resume_concat(start, with_op, tr);
    lemma_resume_concat(start, with_left, seq![op]);
    lemma_resume_concat(start, open, tl);
    lemma_resume_one(start, Token::LeftParen);
    match expr_value(l) {
        Some(Ok(a)) => {
            let m2 = Machine { numbers: opened(m).numbers.push(a), ..opened(m) };
            lemma_resume_one(Some(Ok(m2)), op);
            lemma_operator_after_open(m2, op);
            assert(Machine { operators: m2.operators.push(op), ..m2 } == after_operator(m, a, op));
            match expr_value(r) {
                Some(Ok(b)) => {
                    let m4 = Machine {
                        numbers: after_operator(m, a, op).numbers.push(b),
                        ..after_operator(m, a, op)
                    };
                    lemma_resume_one(Some(Ok(m4)), Token::RightParen);
                    lemma_close_pair(m, a, b, op);
                },
                other => {
                    lemma_resume_failed(pushed(after_operator(m, a, op), other), seq![Token::RightParen]);
                },
            }
        },
        other => {
            lemma_resume_failed(pushed(opened(m), other), seq![op]);
            lemma_resume_failed(pushed(opened(m), other), tr);
            lemma_resume_failed(pushed(opened(m), other), seq![Token::RightParen]);
        },
    }
}

#[verifier::spinoff_prover]
proof fn lemma_call_case(m: Machine, f: Token, a: Expr)
    requires
        f is Sqrt || f is Abs,
        !m.awaiting_paren,
        resume(Some(Ok(called(m, f))), expr_tokens(a)) == pushed(called(m, f), expr_value(a)),
    ensures
        resume(Some(Ok(m)), expr_tokens(Expr::Call(f, Box::new(a)))) == pushed(
            m,
            expr_value(Expr::Call(f, Box::new(a))),
        ),
{
    let start = Some(Ok::<Machine, CalcError>(m));
    let ta = expr_tokens(a);
    let head = seq![f, Token::LeftParen];
    let with_arg = head + ta;
    assert(expr_tokens(Expr::Call(f, Box::new(a))) == with_arg + seq![Token::RightParen]);
    lemma_resume_concat(start, with_arg, seq![Token::RightParen]);
    lemma_resume_concat(start, head, ta);
    lemma_resume_concat(start, seq![f], seq![Token::LeftParen]);
    assert(seq![f] + seq![Token::LeftParen] =~= head);
    lemma_resume_one(start, f);
    let m0 = Machine { operators: m.operators.push(f), awaiting_paren: true, ..m };
    lemma_resume_one(Some(Ok(m0)), Token::LeftParen);
    assert(resume(start, head) == Some(Ok::<Machine, CalcError>(called(m, f))));
    match expr_value(a) {
        Some(Ok(v)) => {
            let m2 = Machine { numbers: called(m, f).numbers.push(v), ..called(m, f) };
            lemma_resume_one(Some(Ok(m2)), Token::RightParen);
            lemma_close_call(m, v, f);
        },
        other => {
            lemma_resume_failed(pushed(called(m, f), other), seq![Token::RightParen]);
        },
    }
}

#[verifier::spinoff_prover]
proof fn lemma_postfix_case(m: Machine, a: Expr)
    requires
        !m.awaiting_paren,
        m.operators.len() == 0 || !(m.operators.last() is Sqrt || m.operators.last() is Abs),
        resume(Some(Ok(opened(m))), expr_tokens(a)) == pushed(opened(m), expr_value(a)),
    ensures
        resume(Some(Ok(m)), expr_tokens(Expr::Fact(Box::new(a)))) == pushed(
            m,
            expr_value(Expr::Fact(Box::new(a))),
        ),
{
    let start = Some(Ok::<Machine, CalcError>(m));
    let ta = expr_tokens(a);
    let open = seq![Token::LeftParen];
    let with_arg = open + ta;
    let with_bang = with_arg + seq![Token::Factorial];
    assert(expr_tokens(Expr::Fact(Box::new(a))) == with_bang + seq![Token::RightParen]);
    lemma_resume_concat(start, with_bang, seq![Token::RightParen]);
    lemma_resume_concat(start, with_arg, seq![Token::Factorial]);
    lemma_resume_concat(start, open, ta);
    lemma_resume_one(start, Token::LeftParen);
    match expr_value(a) {
        Some(Ok(v)) => {
            let m2 = Machine { numbers: opened(m).numbers.push(v), ..opened(m) };
            lemma_resume_one(Some(Ok(m2)), Token::Factorial);
            lemma_operator_after_open(m2, Token::Factorial);
            let m3 = Machine { operators: m2.operators.push(Token::Factorial), ..m2 };
            lemma_resume_one(Some(Ok(m3)), Token::RightParen);
            lemma_close_postfix(m, v);
        },
        other => {
            lemma_resume_failed(pushed(opened(m), other), seq![Token::Factorial]);
            lemma_resume_failed(pushed(opened(m), other), seq![Token::RightParen]);
        },
    }
}

/// Reading the tokens of an expression pushes its value and leaves the rest
/// of the state as it was, provided no function waits for its `(`.
proof fn lemma_expr_pushes_value(e: Expr, m: Machine)
    requires
        expr_wf(e),
        !m.awaiting_paren,
        m.operators.len() == 0 || !(m.operators.last() is Sqrt || m.operators.last() is Abs),
    ensures
        resume(Some(Ok(m)), expr_tokens(e)) == pushed(m, expr_value(e)),
    decreases e,
{
    match e {
        Expr::Lit(d) => {
            lemma_resume_one(Some(Ok(m)), Token::Number(d));
        },
        Expr::Bin(l, op, r) => {
            lemma_expr_pushes_value(*l, opened(m));
            if let Some(Ok(a)) = expr_value(*l) {
                lemma_expr_pushes_value(*r, after_operator(m, a, op));
            }
            lemma_pair_case(m, *l, op, *r);
        },
        Expr::Call(f, a) => {
            lemma_expr_pushes_value(*a, called(m, f));
            lemma_call_case(m, f, *a);
        },
        Expr::Fact(a) => {
            lemma_expr_pushes_value(*a, opened(m));
            lemma_postfix_case(m, *a);
        },
    }
}

/// A literal right after a `+` in the tokens of an expression is followed by `)`.
proof fn lemma_literal_after_plus(e: Expr)
    requires
        expr_wf(e),
    ensures
        forall|j: int|
            1 <= j < expr_tokens(e).len() && (#[trigger] expr_tokens(e)[j]) is Number
                && expr_tokens(e)[j - 1] is Plus ==> j + 1 < expr_tokens(e).len() && expr_tokens(
                e,
            )[j + 1] is RightParen,
        expr_tokens(e)[0] is Number ==> expr_tokens(e).len() == 1,
        expr_tokens(e).len() >= 1,
    decreases e,
{
    match e {
        Expr::Lit(d) => {},
        Expr::Bin(l, op, r) => {
            lemma_literal_after_plus(*l);
            lemma_literal_after_plus(*r);
            let tl = expr_tokens(*l);
            let tr = expr_tokens(*r);
            let ts = expr_tokens(e);
            let a = tl.len();
            let b = tr.len();
            assert(ts.len() == a + b + 3);
            assert forall|j: int|
                1 <= j < ts.len() && (#[trigger] ts[j]) is Number && ts[j - 1] is Plus implies j + 1
                < ts.len() && ts[j + 1] is RightParen by {
                if j <= a {
                    assert(ts[j] == tl[j - 1]);
                    if j >= 2 {
                        assert(ts[j - 1] == tl[j - 2]);
                        assert(tl[j - 1] is Number);
                    }
                    if j + 1 <= a {
                        assert(ts[j + 1] == tl[j]);
                    } else {
                        assert(tl[j - 1] is Number);
                    }
                } else if j == a + 1 {
                    assert(ts[j] == op);
                } else if j <= a + 1 + b {
                    assert(ts[j] == tr[j - a - 2]);
                    if j == a + 2 {
                        assert(tr[0] is Number);
                        assert(ts[j + 1] == Token::RightParen);
                    } else {
                        assert(ts[j - 1] == tr[j - a - 3]);
                        assert(tr[j - a - 2] is Number);
                        if j + 1 <= a + 1 + b {
                            assert(ts[j + 1] == tr[j - a - 1]);
                        }
                    }
                } else {
                    assert(ts[j] == Token::RightParen);
                }
            }
            assert(ts[0] == Token::LeftParen);
        },
        Expr::Call(f, a) => {
            lemma_literal_after_plus(*a);
            let ta = expr_tokens(*a);
            let ts = expr_tokens(e);
            let n = ta.len();
            assert(ts.len() == n + 3);
            assert forall|j: int|
                1 <= j < ts.len() && (#[trigger] ts[j]) is Number && ts[j - 1] is Plus implies j + 1
                < ts.len() && ts[j + 1] is RightParen by {
                if j == 1 {
                    assert(ts[1] == Token::LeftParen);
                } else if j <= n + 1 {
                    assert(ts[j] == ta[j - 2]);
                    if j == 2 {
                        assert(ts[1] == Token::LeftParen);
                    } else {
                        assert(ts[j - 1] == ta[j - 3]);
                        assert(ta[j - 2] is Number);
                        if j + 1 <= n + 1 {
                            assert(ts[j + 1] == ta[j - 1]);
                        }
                    }
                } else {
                    assert(ts[j] == Token::RightParen);
                }
            }
            assert(ts[0] == f);
        },
        Expr::Fact(a) => {
            lemma_literal_after_plus(*a);
            let ta = expr_tokens(*a);
            let ts = expr_tokens(e);
            let n = ta.len();
            assert(ts.len() == n + 3);
            assert forall|j: int|
                1 <= j < ts.len() && (#[trigger] ts[j]) is Number && ts[j - 1] is Plus implies j + 1
                < ts.len() && ts[j + 1] is RightParen by {
                if j <= n {
                    assert(ts[j] == ta[j - 1]);
                    if j == 1 {
                        assert(ts[0] == Token::LeftParen);
                    } else {
                        assert(ts[j - 1] == ta[j - 2]);
                        assert(ta[j - 1] is Number);
                        if j + 1 <= n {
                            assert(ts[j + 1] == ta[j]);
                        }
                    }
                } else if j == n + 1 {
                    assert(ts[j] == Token::Factorial);
                } else {
                    assert(ts[j] == Token::RightParen);
                }
            }
            assert(ts[0] == Token::LeftParen);
        },
    }
}

proof fn lemma_no_cancellation(ts: Seq<Token>, i: int)
    requires
        0 <= i,
        forall|k: int| 0 <= k ==> !cancels_at(ts, k),
    ensures
        first_cancellation(ts, i) is None,
    decreases ts.len() - i,
{
    if i + 13 <= ts.len() {
        lemma_no_cancellation(ts, i + 1);
    }
}

/// Evaluating the tokens of a fully parenthesized expression gives its value:
/// each operator and function applied to its operands' values, or the first
/// error that computation meets. Where that computation takes a square root
/// or a fractional power in double precision, both sides say so alike.
pub proof fn lemma_parenthesized_evaluation(e: Expr)
    requires
        expr_wf(e),
    ensures
        evaluation(expr_tokens(e)) == expr_value(e),
{
    let ts = expr_tokens(e);
    lemma_literal_after_plus(e);
    assert forall|k: int| 0 <= k implies !cancels_at(ts, k) by {
        if cancels_at(ts, k) {
            assert(ts[k + 6] is Number && ts[k + 5] is Plus);
        }
    }
    lemma_no_cancellation(ts, 0);
    lemma_run_is_resume(ts);
    lemma_expr_pushes_value(e, initial_machine());
    match expr_value(e) {
        Some(Ok(v)) => {
            let m = Machine { numbers: initial_machine().numbers.push(v), ..initial_machine() };
            assert(reduce_all(m.numbers, m.operators) == Some(
                Ok::<Seq<Dec>, CalcError>(m.numbers),
            ));
            assert(finish(m) == Some(Ok::<Dec, CalcError>(v)));
        },
        _ => {},
    }
}

proof fn lemma_single_operation(a: Dec, op: Token, b: Dec)
    requires
        a.wf(),
        b.wf(),
        is_binary(op),
    ensures
        evaluation(seq![Token::LeftParen, Token::Number(a), op, Token::Number(b), Token::RightParen])
            == binary_result(op, a, b),
{
    let la = Expr::Lit(a);
    let lb = Expr::Lit(b);
    let e = Expr::Bin(Box::new(la), op, Box::new(lb));
    assert(expr_wf(la) && expr_wf(lb));
    assert(expr_wf(e));
    assert(expr_tokens(la) == seq![Token::Number(a)]);
    assert(expr_tokens(lb) == seq![Token::Number(b)]);
    assert(expr_tokens(e) =~= seq![Token::LeftParen, Token::Number(a), op, Token::Number(b), Token::RightParen]);
    assert(expr_value(la) == Some(Ok::<Dec, CalcError>(a)));
    assert(expr_value(lb) == Some(Ok::<Dec, CalcError>(b)));
    assert(expr_value(e) == binary_result(op, a, b));
    lemma_parenthesized_evaluation(e);
}

/// Dividing by zero, or taking a remainder by zero, fails with the matching
/// arithmetic error whatever the dividend.
pub proof fn lemma_zero_divisor(a: Dec, b: Dec)
    requires
        a.wf(),
        b.wf(),
        b.mantissa == 0,
    ensures
        evaluation(seq![Token::LeftParen, Token::Number(a), Token::Divide, Token::Number(b), Token::RightParen])
            == Some(Err::<Dec, CalcError>(CalcError::DivisionByZero)),
        evaluation(seq![Token::LeftParen, Token::Number(a), Token::Modulo, Token::Number(b), Token::RightParen])
            == Some(Err::<Dec, CalcError>(CalcError::ModuloByZero)),
        CalcError::DivisionByZero.kind_of() == ErrorKind::Arithmetic,
        CalcError::ModuloByZero.kind_of() == ErrorKind::Arithmetic,
{
    lemma_single_operation(a, Token::Divide, b);
    lemma_single_operation(a, Token::Modulo, b);
}

/// Evaluation depends on the tokens alone: two evaluations of the same
/// sequence give the same result.
pub proof fn lemma_evaluation_repeatable(a: Seq<Token>, b: Seq<Token>)
    requires
        a == b,
    ensures
        evaluation(a) == evaluation(b),
{
}

} // verus!
