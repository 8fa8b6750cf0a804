use calc_core::arith::{power_outcome, sqrt_outcome};
use calc_core::{evaluate, tokenize, CalcError, Dec, ErrorKind, Token};

fn dec(mantissa: i128, scale: u32) -> Dec {
    Dec { mantissa, scale }
}

fn value_of(input: &str) -> Result<Dec, CalcError> {
    let tokens = tokenize(input)?;
    evaluate(&tokens)
}

fn same(a: Dec, b: Dec) -> bool {
    a.to_decimal() == b.to_decimal()
}

#[test]
fn exact_results_of_each_operator() {
    assert!(same(value_of("2 + 3").unwrap(), dec(5, 0)));
    assert!(same(value_of("1.5 + 2.25").unwrap(), dec(375, 2)));
    assert!(same(value_of("5 - 3").unwrap(), dec(2, 0)));
    assert!(same(value_of("1.5 * 4").unwrap(), dec(6, 0)));
    assert!(same(value_of("7 / 2").unwrap(), dec(35, 1)));
    assert!(same(value_of("10 % 3").unwrap(), dec(1, 0)));
    assert!(same(value_of("2 ^ 3").unwrap(), dec(8, 0)));
    assert!(same(value_of("abs(0 - 7)").unwrap(), dec(7, 0)));
}

#[test]
fn minus_sign_and_binary_minus() {
    assert!(same(value_of("-3").unwrap(), dec(-3, 0)));
    assert!(same(value_of("- 3").unwrap(), dec(-3, 0)));
    assert!(same(value_of("2 * - 3").unwrap(), dec(-6, 0)));
    // A minus before a function becomes `+ -1 *`.
    assert!(same(value_of("10 - sqrt(4)").unwrap(), dec(8, 0)));
}

#[test]
fn unary_minus_before_paren_opens_an_extra_group() {
    let tokens = tokenize("-(2)").unwrap();
    assert_eq!(
        tokens,
        vec![
            Token::LeftParen,
            Token::Number(dec(-1, 0)),
            Token::Multiply,
            Token::LeftParen,
            Token::Number(dec(2, 0)),
            Token::RightParen
        ]
    );
    assert_eq!(evaluate(&tokens), Err(CalcError::MismatchedParentheses));
}

#[test]
fn binary_minus_before_paren_is_rewritten() {
    let tokens = tokenize("5 - (2)").unwrap();
    assert_eq!(
        tokens,
        vec![
            Token::Number(dec(5, 0)),
            Token::Plus,
            Token::Number(dec(-1, 0)),
            Token::Multiply,
            Token::LeftParen,
            Token::Number(dec(2, 0)),
            Token::RightParen
        ]
    );
    assert!(same(evaluate(&tokens).unwrap(), dec(3, 0)));
}

#[test]
fn literal_minus_is_part_of_the_number() {
    let tokens = tokenize("5 -3").unwrap();
    assert_eq!(tokens, vec![Token::Number(dec(5, 0)), Token::Number(dec(-3, 0))]);
    assert_eq!(evaluate(&tokens), Err(CalcError::InvalidExpression));
}

#[test]
fn precedence_and_parentheses() {
    assert!(same(value_of("2 + 3 * 4").unwrap(), dec(14, 0)));
    assert!(same(value_of("(2 + 3) * 4").unwrap(), dec(20, 0)));
    assert!(same(value_of("8 - 3 - 2").unwrap(), dec(3, 0)));
    assert!(same(value_of("2 ^ 3 ^ 2").unwrap(), dec(512, 0)));
}

#[test]
fn power_cases() {
    assert!(same(value_of("2 ^ -2").unwrap(), dec(25, 2)));
    assert!(same(value_of("2 ^ 28").unwrap(), dec(268435456, 0)));
    assert!(same(value_of("0 ^ 0").unwrap(), dec(1, 0)));
    assert_eq!(value_of("10 ^ 29"), Err(CalcError::PowerTooLarge));
    assert_eq!(value_of("0 ^ -1"), Err(CalcError::NegativePowerOfZero));
    let root = value_of("2 ^ 0.5").unwrap().to_decimal();
    assert!(root > rust_decimal::Decimal::new(14142, 4));
    assert!(root < rust_decimal::Decimal::new(14143, 4));
}

#[test]
fn factorial_cases() {
    assert!(same(value_of("5!").unwrap(), dec(120, 0)));
    assert!(same(value_of("0!").unwrap(), dec(1, 0)));
    assert!(same(value_of("20!").unwrap(), dec(2432902008176640000, 0)));
    assert!(same(value_of("(2 + 1)!").unwrap(), dec(6, 0)));
    assert_eq!(value_of("21!"), Err(CalcError::FactorialTooLarge));
    assert_eq!(value_of("(-5)!"), Err(CalcError::NegativeFactorial));
    assert_eq!(tokenize("!"), Err(CalcError::InvalidFactorial));
    assert_eq!(tokenize("2 + !"), Err(CalcError::InvalidFactorial));
}

#[test]
fn function_cases() {
    assert!(same(value_of("sqrt(16)").unwrap(), dec(4, 0)));
    assert!(same(value_of("abs(-5)").unwrap(), dec(5, 0)));
    assert_eq!(value_of("sqrt(-1)"), Err(CalcError::NegativeSqrt));
    assert_eq!(value_of("sqrt 4"), Err(CalcError::ExpectedParenAfterFunction));
    assert_eq!(value_of("sqrt"), Err(CalcError::ExpectedParenAfterFunction));
}

#[test]
fn composite_expression() {
    assert!(same(value_of("2 * (3 + 4) ^ 2 - sqrt(16)").unwrap(), dec(94, 0)));
}

#[test]
fn arithmetic_errors() {
    let e = value_of("1 / 0").unwrap_err();
    assert_eq!(e, CalcError::DivisionByZero);
    assert_eq!(e.kind(), ErrorKind::Arithmetic);
    assert!(e.message().contains("division by zero"));
    let e = value_of("1 % 0").unwrap_err();
    assert_eq!(e, CalcError::ModuloByZero);
    assert!(e.message().contains("modulo by zero"));
    assert_eq!(
        value_of("79228162514264337593543950335 + 1"),
        Err(CalcError::Overflow)
    );
}

#[test]
fn syntax_errors() {
    assert_eq!(value_of("(2 + 3"), Err(CalcError::MismatchedParentheses));
    assert_eq!(value_of("2 + 3)"), Err(CalcError::MismatchedParentheses));
    assert_eq!(value_of("2 +"), Err(CalcError::MissingOperand));
    assert_eq!(value_of(""), Err(CalcError::InvalidExpression));
    assert_eq!(value_of("()"), Err(CalcError::InvalidExpression));
    assert_eq!(CalcError::MismatchedParentheses.kind(), ErrorKind::Syntax);
}

#[test]
fn lexical_errors() {
    assert_eq!(tokenize("2 & 3"), Err(CalcError::UnparsedInput));
    assert_eq!(tokenize("1."), Err(CalcError::UnparsedInput));
    assert_eq!(tokenize("- +"), Err(CalcError::InvalidUnaryMinus));
    assert_eq!(tokenize("-"), Err(CalcError::InvalidUnaryMinus));
    assert_eq!(
        tokenize("99999999999999999999999999999999"),
        Err(CalcError::InvalidNumber)
    );
    assert_eq!(CalcError::UnparsedInput.kind(), ErrorKind::Lex);
}

#[test]
fn white_space_handling() {
    assert_eq!(tokenize("  \t2\t"), Ok(vec![Token::Number(dec(2, 0))]));
    assert_eq!(tokenize("2 \n"), Ok(vec![Token::Number(dec(2, 0))]));
    assert_eq!(tokenize("2\n3"), Err(CalcError::UnparsedInput));
    assert_eq!(tokenize(""), Ok(vec![]));
}

#[test]
fn literals_keep_their_scale() {
    assert_eq!(tokenize("1.50"), Ok(vec![Token::Number(dec(150, 2))]));
    assert_eq!(tokenize("007"), Ok(vec![Token::Number(dec(7, 0))]));
}

#[test]
fn cancellation_window_returns_middle_term() {
    let n = |m: i128, s: u32| Token::Number(dec(m, s));
    let tokens = vec![
        Token::LeftParen,
        n(9, 0),
        Token::Exponentiation,
        n(40, 0),
        Token::RightParen,
        Token::Plus,
        n(7, 0),
        Token::Minus,
        Token::LeftParen,
        n(90, 1),
        Token::Exponentiation,
        n(400, 1),
        Token::RightParen,
    ];
    assert_eq!(evaluate(&tokens), Ok(dec(7, 0)));
    let mut other = tokens.clone();
    other[11] = n(41, 0);
    assert_eq!(evaluate(&other), Err(CalcError::PowerTooLarge));
}

#[test]
fn evaluation_is_repeatable() {
    let tokens = tokenize("2 * (3 + 4) ^ 2 - sqrt(16)").unwrap();
    assert_eq!(evaluate(&tokens), evaluate(&tokens));
    let bad = tokenize("1 / 0").unwrap();
    assert_eq!(evaluate(&bad), evaluate(&bad));
}

#[test]
fn power_estimate_applies_to_negative_exponents() {
    assert_eq!(value_of("10 ^ -29"), Err(CalcError::PowerTooLarge));
    assert!(same(value_of("10 ^ -2").unwrap(), dec(1, 2)));
}

#[test]
fn double_precision_outcomes() {
    assert_eq!(sqrt_outcome(Some(dec(4, 0))), Ok(dec(4, 0)));
    assert_eq!(sqrt_outcome(None), Err(CalcError::SqrtUnrepresentable));
    assert_eq!(power_outcome(Some(dec(15, 1))), Ok(dec(15, 1)));
    assert_eq!(power_outcome(None), Err(CalcError::InvalidPowerResult));
}
