//! Tokens of an expression and the errors that tokenizing or evaluating can
//! report.

use crate::decimal::Dec;
use vstd::prelude::*;
use vstd::string::*;

verus! {

/// One lexical unit of an expression.
#[derive(Clone, Copy, Debug, PartialEq, Eq, Structural)]
pub enum Token {
    /// A numerical value.
    Number(Dec),
    /// The '+' operator.
    Plus,
    /// The '-' operator.
    Minus,
    /// The '*' operator.
    Multiply,
    /// The '/' operator.
    Divide,
    /// The '%' operator (remainder).
    Modulo,
    /// The 'sqrt' function.
    Sqrt,
    /// The 'abs' function.
    Abs,
    /// The postfix '!' operator (factorial).
    Factorial,
    /// A left parenthesis '('.
    LeftParen,
    /// A right parenthesis ')'.
    RightParen,
    /// The '^' operator (exponentiation).
    Exponentiation,
}

impl Token {
    /// A number token carries a well-formed decimal.
    pub open spec fn wf(self) -> bool {
        self matches Token::Number(n) ==> n.wf()
    }
}

/// Every token of the sequence is well formed.
pub open spec fn tokens_wf(ts: Seq<Token>) -> bool {
    forall|i: int| 0 <= i < ts.len() ==> (#[trigger] ts[i]).wf()
}

/// The three families of failure.
#[derive(Clone, Copy, Debug, PartialEq, Eq, Structural)]
pub enum ErrorKind {
    /// The text could not be split into tokens.
    Lex,
    /// The tokens do not form an expression.
    Syntax,
    /// An operation has no result for its operands.
    Arithmetic,
}

/// Why an expression has no value.
#[derive(Clone, Copy, Debug, PartialEq, Eq, Structural)]
pub enum CalcError {
    UnparsedInput,
    InvalidNumber,
    InvalidUnaryMinus,
    InvalidFactorial,
    MismatchedParentheses,
    ExpectedParenAfterFunction,
    InvalidExpression,
    MissingOperand,
    InvalidOperator,
    Overflow,
    DivisionByZero,
    ModuloByZero,
    NegativeSqrt,
    SqrtUnrepresentable,
    NegativeFactorial,
    FactorialTooLarge,
    PowerTooLarge,
    NegativePowerOfZero,
    PowerOverflow,
    IntermediatePowerOverflow,
    InvalidPowerResult,
}

impl CalcError {
    pub open spec fn kind_of(self) -> ErrorKind {
        match self {
            CalcError::UnparsedInput | CalcError::InvalidNumber | CalcError::InvalidUnaryMinus
            | CalcError::InvalidFactorial => ErrorKind::Lex,
            CalcError::MismatchedParentheses | CalcError::ExpectedParenAfterFunction
            | CalcError::InvalidExpression | CalcError::MissingOperand
            | CalcError::InvalidOperator => ErrorKind::Syntax,
            _ => ErrorKind::Arithmetic,
        }
    }

    pub fn kind(&self) -> (r: ErrorKind)
        ensures
            r == self.kind_of(),
    {
        match self {
            CalcError::UnparsedInput | CalcError::InvalidNumber | CalcError::InvalidUnaryMinus
            | CalcError::InvalidFactorial => ErrorKind::Lex,
            CalcError::MismatchedParentheses | CalcError::ExpectedParenAfterFunction
            | CalcError::InvalidExpression | CalcError::MissingOperand
            | CalcError::InvalidOperator => ErrorKind::Syntax,
            _ => ErrorKind::Arithmetic,
        }
    }

    /// The text shown to a user for this error.
    pub open spec fn text(self) -> Seq<char> {
        match self {
            CalcError::UnparsedInput => "Unable to parse remaining input"@,
            CalcError::InvalidNumber => "Invalid number literal"@,
            CalcError::InvalidUnaryMinus => "Invalid unary minus"@,
            CalcError::InvalidFactorial => "Invalid factorial operation"@,
            CalcError::MismatchedParentheses => "Mismatched parentheses"@,
            CalcError::ExpectedParenAfterFunction => "Expected '(' after function"@,
            CalcError::InvalidExpression => "Invalid expression"@,
            CalcError::MissingOperand => "Not enough operands"@,
            CalcError::InvalidOperator => "Invalid operator"@,
            CalcError::Overflow => "Arithmetic overflow"@,
            CalcError::DivisionByZero => "division by zero"@,
            CalcError::ModuloByZero => "modulo by zero"@,
            CalcError::NegativeSqrt => "Cannot compute square root of negative number"@,
            CalcError::SqrtUnrepresentable => "Cannot convert result to Decimal"@,
            CalcError::NegativeFactorial => "Cannot compute factorial of negative number"@,
            CalcError::FactorialTooLarge => "Factorial result too large"@,
            CalcError::PowerTooLarge => "Result would be too large"@,
            CalcError::NegativePowerOfZero => "Division by zero in negative exponent"@,
            CalcError::PowerOverflow => "Result too large"@,
            CalcError::IntermediatePowerOverflow => "Intermediate result too large"@,
            CalcError::InvalidPowerResult => "Invalid exponentiation result"@,
        }
    }

    /// The text shown to a user for this error.
    pub fn message(&self) -> (r: String)
        ensures
            r@ == self.text(),
    {
        let s: &str = match self {
            CalcError::UnparsedInput => "Unable to parse remaining input",
            CalcError::InvalidNumber => "Invalid number literal",
            CalcError::InvalidUnaryMinus => "Invalid unary minus",
            CalcError::InvalidFactorial => "Invalid factorial operation",
            CalcError::MismatchedParentheses => "Mismatched parentheses",
            CalcError::ExpectedParenAfterFunction => "Expected '(' after function",
            CalcError::InvalidExpression => "Invalid expression",
            CalcError::MissingOperand => "Not enough operands",
            CalcError::InvalidOperator => "Invalid operator",
            CalcError::Overflow => "Arithmetic overflow",
            CalcError::DivisionByZero => "division by zero",
            CalcError::ModuloByZero => "modulo by zero",
            CalcError::NegativeSqrt => "Cannot compute square root of negative number",
            CalcError::SqrtUnrepresentable => "Cannot convert result to Decimal",
            CalcError::NegativeFactorial => "Cannot compute factorial of negative number",
            CalcError::FactorialTooLarge => "Factorial result too large",
            CalcError::PowerTooLarge => "Result would be too large",
            CalcError::NegativePowerOfZero => "Division by zero in negative exponent",
            CalcError::PowerOverflow => "Result too large",
            CalcError::IntermediatePowerOverflow => "Intermediate result too large",
            CalcError::InvalidPowerResult => "Invalid exponentiation result",
        };
        String::from_str(s)
    }
}

} // verus!
