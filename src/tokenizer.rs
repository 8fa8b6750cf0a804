//! Splitting calculator input into tokens, then resolving each minus sign as
//! a sign or a subtraction and folding postfix factorials onto literals.

use crate::arith::{factorial, factorial_result};
use crate::decimal::{literal_decimal, parse_literal, Dec};
use crate::token::{tokens_wf, CalcError, Token};
use vstd::prelude::*;
use vstd::string::*;

verus! {

/// Blanks skipped around a token: space and tab.
pub open spec fn is_blank(c: char) -> bool {
    c == ' ' || c == '\t'
}

/// Unicode White_Space, the characters `str::trim` removes.
pub open spec fn is_white(c: char) -> bool {
    ('\u{9}' <= c <= '\u{d}') || c == ' ' || c == '\u{85}' || c == '\u{a0}' || c == '\u{1680}'
        || ('\u{2000}' <= c <= '\u{200a}') || c == '\u{2028}' || c == '\u{2029}'
        || c == '\u{202f}' || c == '\u{205f}' || c == '\u{3000}'
}

pub open spec fn is_digit(c: char) -> bool {
    '0' <= c <= '9'
}

/// The first position at or after `p` that is not a blank.
pub open spec fn skip_blanks(s: Seq<char>, p: int) -> int
    decreases s.len() - p,
{
    if 0 <= p < s.len() && is_blank(s[p]) {
        skip_blanks(s, p + 1)
    } else {
        p
    }
}

/// The first position at or after `p` that is not a digit.
pub open spec fn digits_end(s: Seq<char>, p: int) -> int
    decreases s.len() - p,
{
    if 0 <= p < s.len() && is_digit(s[p]) {
        digits_end(s, p + 1)
    } else {
        p
    }
}

/// Where a literal `-?digits(.digits)?` starting at `p` ends, if one does.
pub open spec fn number_end(s: Seq<char>, p: int) -> Option<int> {
    let q = if 0 <= p < s.len() && s[p] == '-' { p + 1 } else { p };
    let d = digits_end(s, q);
    if d == q {
        None
    } else if d < s.len() && s[d] == '.' && digits_end(s, d + 1) > d + 1 {
        Some(digits_end(s, d + 1))
    } else {
        Some(d)
    }
}

/// The keyword `sqrt` or `abs` at `p`, with its length.
pub open spec fn keyword_at(s: Seq<char>, p: int) -> Option<(Token, int)> {
    if 0 <= p && p + 4 <= s.len() && s[p] == 's' && s[p + 1] == 'q' && s[p + 2] == 'r' && s[p
        + 3] == 't' {
        Some((Token::Sqrt, 4))
    } else if 0 <= p && p + 3 <= s.len() && s[p] == 'a' && s[p + 1] == 'b' && s[p + 2] == 's' {
        Some((Token::Abs, 3))
    } else {
        None
    }
}

/// The one-character operator or parenthesis `c`.
pub open spec fn operator_of(c: char) -> Option<Token> {
    if c == '+' {
        Some(Token::Plus)
    } else if c == '-' {
        Some(Token::Minus)
    } else if c == '*' {
        Some(Token::Multiply)
    } else if c == '/' {
        Some(Token::Divide)
    } else if c == '%' {
        Some(Token::Modulo)
    } else if c == '!' {
        Some(Token::Factorial)
    } else if c == '^' {
        Some(Token::Exponentiation)
    } else if c == '(' {
        Some(Token::LeftParen)
    } else if c == ')' {
        Some(Token::RightParen)
    } else {
        None
    }
}

/// The token that starts exactly at `p` (keywords first, then literals, then
/// operators) and where it ends; a literal that no decimal can hold is an
/// error.
pub open spec fn token_at(s: Seq<char>, p: int) -> Option<(Result<Token, CalcError>, int)> {
    match keyword_at(s, p) {
        Some((t, len)) => Some((Ok(t), p + len)),
        None => match number_end(s, p) {
            Some(e) => match literal_decimal(s.subrange(p, e)) {
                Some(d) => Some((Ok(Token::Number(d)), e)),
                None => Some((Err(CalcError::InvalidNumber), e)),
            },
            None => if 0 <= p < s.len() {
                match operator_of(s[p]) {
                    Some(t) => Some((Ok(t), p + 1)),
                    None => None,
                }
            } else {
                None
            },
        },
    }
}

/// Everything from `p` on is white space.
pub open spec fn white_from(s: Seq<char>, p: int) -> bool {
    forall|j: int| p <= j < s.len() ==> is_white(#[trigger] s[j])
}

/// The tokens read from position `p` on. Reading stops at the first place no
/// token starts; only white space may follow it. (Every token is at least one
/// character long, so the last branch is never taken.)
pub open spec fn lex_from(s: Seq<char>, p: int) -> Result<Seq<Token>, CalcError>
    decreases s.len() - p,
{
    let q = skip_blanks(s, p);
    match token_at(s, q) {
        None => if white_from(s, p) {
            Ok(Seq::empty())
        } else {
            Err(CalcError::UnparsedInput)
        },
        Some((Err(e), _)) => Err(e),
        Some((Ok(t), e)) => if p < e <= s.len() {
            match lex_from(s, e) {
                Ok(rest) => Ok(seq![t] + rest),
                Err(err) => Err(err),
            }
        } else {
            Err(CalcError::UnparsedInput)
        },
    }
}

/// An operator or `(` that leaves the next value still to come.
pub open spec fn awaits_operand(t: Token) -> bool {
    t is Plus || t is Minus || t is Multiply || t is Divide || t is Modulo || t is Exponentiation
        || t is LeftParen
}

/// A minus is a sign when nothing, or an operator or `(`, precedes it.
pub open spec fn minus_is_unary(out: Seq<Token>) -> bool {
    out.len() == 0 || awaits_operand(out.last())
}

/// The sequence `+ -1 *`, or `( -1 *`, that stands for a minus sign before a
/// term.
pub open spec fn times_minus_one(first: Token) -> Seq<Token> {
    seq![first, Token::Number(Dec::from_int(-1)), Token::Multiply]
}

/// The second pass from raw token `i` on, `out` holding what was emitted.
pub open spec fn resolve(raw: Seq<Token>, i: int, out: Seq<Token>) -> Result<
    Seq<Token>,
    CalcError,
>
    decreases raw.len() - i,
{
    if i < 0 || i >= raw.len() {
        Ok(out)
    } else {
        let t = raw[i];
        let next_is_number = i + 1 < raw.len() && raw[i + 1] is Number;
        if t is Minus && minus_is_unary(out) {
            if next_is_number {
                resolve(raw, i + 2, out.push(Token::Number(raw[i + 1]->Number_0.negated())))
            } else if i + 1 < raw.len() && raw[i + 1] is LeftParen {
                resolve(raw, i + 1, out + times_minus_one(Token::LeftParen))
            } else {
                Err(CalcError::InvalidUnaryMinus)
            }
        } else if t is Minus {
            if next_is_number {
                resolve(raw, i + 1, out.push(t))
            } else {
                resolve(raw, i + 1, out + times_minus_one(Token::Plus))
            }
        } else if t is Factorial {
            if out.len() > 0 && out.last() is Number {
                match factorial_result(out.last()->Number_0) {
                    Ok(v) => resolve(raw, i + 1, out.drop_last().push(Token::Number(v))),
                    Err(e) => Err(e),
                }
            } else if out.len() > 0 && out.last() is RightParen {
                resolve(raw, i + 1, out.push(t))
            } else {
                Err(CalcError::InvalidFactorial)
            }
        } else {
            resolve(raw, i + 1, out.push(t))
        }
    }
}

/// The tokens of an input text.
pub open spec fn tokenization(s: Seq<char>) -> Result<Seq<Token>, CalcError> {
    match lex_from(s, 0) {
        Ok(raw) => resolve(raw, 0, Seq::empty()),
        Err(e) => Err(e),
    }
}

/// `r` with `front` put before its tokens.
pub open spec fn after(front: Seq<Token>, r: Result<Seq<Token>, CalcError>) -> Result<
    Seq<Token>,
    CalcError,
> {
    match r {
        Ok(v) => Ok(front + v),
        Err(e) => Err(e),
    }
}

fn is_white_char(c: char) -> (r: bool)
    ensures
        r == is_white(c),
{
    ('\u{9}' <= c && c <= '\u{d}') || c == ' ' || c == '\u{85}' || c == '\u{a0}' || c
        == '\u{1680}' || ('\u{2000}' <= c && c <= '\u{200a}') || c == '\u{2028}' || c
        == '\u{2029}' || c == '\u{202f}' || c == '\u{205f}' || c == '\u{3000}'
}

fn skip_blanks_from(s: &str, n: usize, p: usize) -> (r: usize)
    requires
        n == s@.len(),
        p <= n,
    ensures
        r == skip_blanks(s@, p as int),
        p <= r <= n,
{
    let mut k = p;
    while k < n && (s.get_char(k) == ' ' || s.get_char(k) == '\t')
        invariant
            n == s@.len(),
            p <= k <= n,
            skip_blanks(s@, k as int) == skip_blanks(s@, p as int),
        decreases n - k,
    {
        k = k + 1;
    }
    k
}

fn digits_from(s: &str, n: usize, p: usize) -> (r: usize)
    requires
        n == s@.len(),
        p <= n,
    ensures
        r == digits_end(s@, p as int),
        p <= r <= n,
{
    let mut k = p;
    while k < n && ('0' <= s.get_char(k) && s.get_char(k) <= '9')
        invariant
            n == s@.len(),
            p <= k <= n,
            digits_end(s@, k as int) == digits_end(s@, p as int),
        decreases n - k,
    {
        k = k + 1;
    }
    k
}

fn number_end_at(s: &str, n: usize, p: usize) -> (r: Option<usize>)
    requires
        n == s@.len(),
        p <= n,
    ensures
        r is Some <==> number_end(s@, p as int) is Some,
        r matches Some(e) ==> number_end(s@, p as int) == Some(e as int) && p < e <= n,
{
    let q = if p < n && s.get_char(p) == '-' { p + 1 } else { p };
    let d = digits_from(s, n, q);
    if d == q {
        None
    } else if d < n && s.get_char(d) == '.' {
        let f = digits_from(s, n, d + 1);
        if f > d + 1 {
            Some(f)
        } else {
            Some(d)
        }
    } else {
        Some(d)
    }
}

fn operator_for(c: char) -> (r: Option<Token>)
    ensures
        r == operator_of(c),
{
    match c {
        '+' => Some(Token::Plus),
        '-' => Some(Token::Minus),
        '*' => Some(Token::Multiply),
        '/' => Some(Token::Divide),
        '%' => Some(Token::Modulo),
        '!' => Some(Token::Factorial),
        '^' => Some(Token::Exponentiation),
        '(' => Some(Token::LeftParen),
        ')' => Some(Token::RightParen),
        _ => None,
    }
}

/// The token that starts exactly at `q`, and where it ends.
fn token_from(s: &str, n: usize, q: usize) -> (r: Option<(Result<Token, CalcError>, usize)>)
    requires
        n == s@.len(),
        q <= n,
    ensures
        r is None <==> token_at(s@, q as int) is None,
        r matches Some((res, e)) ==> token_at(s@, q as int) == Some((res, e as int)) && q < e <= n,
        r matches Some((Ok(t), _)) ==> t.wf(),
{
    if n - q >= 4 && s.get_char(q) == 's' && s.get_char(q + 1) == 'q' && s.get_char(q + 2) == 'r'
        && s.get_char(q + 3) == 't' {
        return Some((Ok(Token::Sqrt), q + 4));
    }
    if n - q >= 3 && s.get_char(q) == 'a' && s.get_char(q + 1) == 'b' && s.get_char(q + 2) == 's' {
        return Some((Ok(Token::Abs), q + 3));
    }
    match number_end_at(s, n, q) {
        Some(e) => {
            let text = s.substring_char(q, e);
            match parse_literal(text) {
                Some(d) => Some((Ok(Token::Number(d)), e)),
                None => Some((Err(CalcError::InvalidNumber), e)),
            }
        },
        None => {
            if q < n {
                match operator_for(s.get_char(q)) {
                    Some(t) => Some((Ok(t), q + 1)),
                    None => None,
                }
            } else {
                None
            }
        },
    }
}

fn white_after(s: &str, n: usize, p: usize) -> (r: bool)
    requires
        n == s@.len(),
        p <= n,
    ensures
        r == white_from(s@, p as int),
{
    let mut k = p;
    while k < n
        invariant
            n == s@.len(),
            p <= k <= n,
            forall|j: int| p <= j < k ==> is_white(#[trigger] s@[j]),
        decreases n - k,
    {
        if !is_white_char(s.get_char(k)) {
            return false;
        }
        k = k + 1;
    }
    true
}

/// The raw tokens of `s`, before minus signs and factorials are resolved.
fn lex(s: &str) -> (r: Result<Vec<Token>, CalcError>)
    ensures
        match lex_from(s@, 0) {
            Ok(ts) => r is Ok && r->Ok_0@ == ts,
            Err(e) => r == Err::<Vec<Token>, CalcError>(e),
        },
        r matches Ok(v) ==> tokens_wf(v@),
{
    let n = s.unicode_len();
    let mut out: Vec<Token> = Vec::new();
    let mut p: usize = 0;
    assert(out@ + Seq::<Token>::empty() =~= out@);
    loop
        invariant
            n == s@.len(),
            p <= n,
            tokens_wf(out@),
            lex_from(s@, 0) == after(out@, lex_from(s@, p as int)),
        decreases n - p,
    {
        let q = skip_blanks_from(s, n, p);
        match token_from(s, n, q) {
            None => {
                if white_after(s, n, p) {
                    assert(out@ + Seq::<Token>::empty() =~= out@);
                    return Ok(out);
                } else {
                    return Err(CalcError::UnparsedInput);
                }
            },
            Some((Err(e), _)) => {
                return Err(e);
            },
            Some((Ok(t), e)) => {
                let ghost before = out@;
                out.push(t);
                proof {
                    match lex_from(s@, e as int) {
                        Ok(rest) => {
                            assert(before + (seq![t] + rest) =~= out@ + rest);
                        },
                        Err(_) => {},
                    }
                    assert forall|j: int| 0 <= j < out@.len() implies (#[trigger] out@[j]).wf() by {
                        if j < before.len() {
                            assert(out@[j] == before[j]);
                        }
                    }
                }
                p = e;
            },
        }
    }
}

fn leaves_operand_open(t: &Token) -> (r: bool)
    ensures
        r == awaits_operand(*t),
{
    matches!(
        t,
        Token::Plus | Token::Minus | Token::Multiply | Token::Divide | Token::Modulo
            | Token::Exponentiation | Token::LeftParen
    )
}

proof fn lemma_tokens_wf_push(ts: Seq<Token>, t: Token)
    requires
        tokens_wf(ts),
        t.wf(),
    ensures
        tokens_wf(ts.push(t)),
{
    assert forall|j: int| 0 <= j < ts.push(t).len() implies (#[trigger] ts.push(t)[j]).wf() by {
        if j < ts.len() {
            assert(ts.push(t)[j] == ts[j]);
        }
    }
}

/// Splits `input` into tokens. Blanks between tokens are skipped; at each
/// place the keywords `sqrt` and `abs` are tried first, then a literal
/// `-?digits(.digits)?`, then one of `+ - * / % ! ^ ( )`; only white space may
/// remain where no token starts. A second pass then reads a minus after
/// nothing, an operator or `(` as a sign: it negates a following literal, or
/// becomes `( -1 *` before a `(`. Another minus stays a subtraction before a
/// literal and becomes `+ -1 *` elsewhere. A factorial after a literal is
/// computed at once, after `)` it is kept, anywhere else it is an error.
pub fn tokenize(input: &str) -> (r: Result<Vec<Token>, CalcError>)
    ensures
        match tokenization(input@) {
            Ok(ts) => r is Ok && r->Ok_0@ == ts,
            Err(e) => r == Err::<Vec<Token>, CalcError>(e),
        },
        r matches Ok(v) ==> tokens_wf(v@),
{
    let raw = match lex(input) {
        Ok(v) => v,
        Err(e) => {
            return Err(e);
        },
    };
    let n = raw.len();
    let mut out: Vec<Token> = Vec::new();
    let mut i: usize = 0;
    while i < n
        invariant
            n == raw@.len(),
            i <= n,
            tokens_wf(raw@),
            tokens_wf(out@),
            lex_from(input@, 0) == Ok::<Seq<Token>, CalcError>(raw@),
            resolve(raw@, i as int, out@) == resolve(raw@, 0, Seq::empty()),
        decreases n - i,
    {
        let t = raw[i];
        let ghost before = out@;
        let next_number: Option<Dec> = if i + 1 < n {
            match raw[i + 1] {
                Token::Number(d) => Some(d),
                _ => None,
            }
        } else {
            None
        };
        let next_paren = i + 1 < n && matches!(raw[i + 1], Token::LeftParen);
        match t {
            Token::Minus => {
                let len = out.len();
                let unary = len == 0 || leaves_operand_open(&out[len - 1]);
                if unary {
                    match next_number {
                        Some(d) => {
                            assert(raw@[i + 1].wf());
                            let v = Token::Number(d.neg());
                            out.push(v);
                            proof {
                                lemma_tokens_wf_push(before, v);
                            }
                            i = i + 2;
                        },
                        None => {
                            if next_paren {
                                out.push(Token::LeftParen);
                                out.push(Token::Number(Dec::integer(-1)));
                                out.push(Token::Multiply);
                                proof {
                                    assert(out@ =~= before + times_minus_one(Token::LeftParen));
                                    lemma_tokens_wf_push(before, Token::LeftParen);
                                    lemma_tokens_wf_push(
                                        before.push(Token::LeftParen),
                                        Token::Number(Dec::from_int(-1)),
                                    );
                                    lemma_tokens_wf_push(
                                        before.push(Token::LeftParen).push(
                                            Token::Number(Dec::from_int(-1)),
                                        ),
                                        Token::Multiply,
                                    );
                                }
                                i = i + 1;
                            } else {
                                return Err(CalcError::InvalidUnaryMinus);
                            }
                        },
                    }
                } else if next_number.is_some() {
                    out.push(t);
                    proof {
                        lemma_tokens_wf_push(before, t);
                    }
                    i = i + 1;
                } else {
                    out.push(Token::Plus);
                    out.push(Token::Number(Dec::integer(-1)));
                    out.push(Token::Multiply);
                    proof {
                        assert(out@ =~= before + times_minus_one(Token::Plus));
                        lemma_tokens_wf_push(before, Token::Plus);
                        lemma_tokens_wf_push(
                            before.push(Token::Plus),
                            Token::Number(Dec::from_int(-1)),
                        );
                        lemma_tokens_wf_push(
                            before.push(Token::Plus).push(Token::Number(Dec::from_int(-1))),
                            Token::Multiply,
                        );
                    }
                    i = i + 1;
                }
            },
            Token::Factorial => {
                let len = out.len();
                if len == 0 {
                    return Err(CalcError::InvalidFactorial);
                }
                match out[len - 1] {
                    Token::Number(d) => {
                        assert(before[len - 1].wf());
                        match factorial(&d) {
                            Ok(v) => {
                                out.pop();
                                out.push(Token::Number(v));
                                proof {
                                    assert(tokens_wf(before.drop_last()));
                                    lemma_tokens_wf_push(before.drop_last(), Token::Number(v));
                                }
                            },
                            Err(e) => {
                                return Err(e);
                            },
                        }
                    },
                    Token::RightParen => {
                        out.push(t);
                        proof {
                            lemma_tokens_wf_push(before, t);
                        }
                    },
                    _ => {
                        return Err(CalcError::InvalidFactorial);
                    },
                }
                i = i + 1;
            },
            _ => {
                assert(raw@[i as int].wf());
                out.push(t);
                proof {
                    lemma_tokens_wf_push(before, t);
                }
                i = i + 1;
            },
        }
    }
    Ok(out)
}

} // verus!
