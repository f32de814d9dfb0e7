use calculator_core::bigint::BigInteger;
use calculator_core::eval::{Environment, EvalError};
use calculator_core::expr::{BinaryOp, Expr, Precedence};
use calculator_core::parse::{parse_from_str, ParseError};
use calculator_core::token::{tokens, Token, TokenStream};

fn run(env: &mut Environment, text: &str) -> Result<String, EvalError> {
    let expr = parse_from_str(text).expect("the text parses");
    expr.eval(env).map(|v| v.to_decimal())
}

fn run_fresh(text: &str) -> Result<String, EvalError> {
    let mut env = Environment::default();
    run(&mut env, text)
}

#[test]
fn precedence_of_multiplication_over_addition() {
    assert_eq!(run_fresh("2 + 3 * 4"), Ok("14".to_string()));
    assert_eq!(run_fresh("(2 + 3) * 4"), Ok("20".to_string()));
}

#[test]
fn exponent_groups_to_the_right() {
    assert_eq!(run_fresh("2 ** 3 ** 2"), Ok("512".to_string()));
    assert_eq!(run_fresh("(2 ** 3) ** 2"), Ok("64".to_string()));
}

#[test]
fn assignment_binds_loosest_and_persists() {
    let mut env = Environment::default();
    assert_eq!(run(&mut env, "a = 1 + 2"), Ok("3".to_string()));
    assert_eq!(run(&mut env, "a"), Ok("3".to_string()));
    assert_eq!(env.get_variable("a").unwrap().to_decimal(), "3");
    assert_eq!(run(&mut env, "b = a = 7"), Ok("7".to_string()));
    assert_eq!(run(&mut env, "a * b"), Ok("49".to_string()));
    assert_eq!(run(&mut env, "a = a + 1"), Ok("8".to_string()));
    assert_eq!(run(&mut env, "a"), Ok("8".to_string()));
}

#[test]
fn division_and_remainder_by_zero() {
    let mut env = Environment::default();
    assert_eq!(run(&mut env, "a = 5"), Ok("5".to_string()));
    assert_eq!(run(&mut env, "1 / 0"), Err(EvalError::DevideByZero));
    assert_eq!(run(&mut env, "1 % 0"), Err(EvalError::DevideByZero));
    assert_eq!(run(&mut env, "b = a / (a - a)"), Err(EvalError::DevideByZero));
    assert_eq!(run(&mut env, "a"), Ok("5".to_string()));
    assert_eq!(env.get_variable("b").err(), Some(EvalError::UndefinedVariable));
}

#[test]
fn negative_exponent_is_refused() {
    assert_eq!(run_fresh("2 ** -1"), Err(EvalError::NegativePower));
    assert_eq!(run_fresh("pow(2, -1)"), Err(EvalError::NegativePower));
}

#[test]
fn unary_operators_chain() {
    assert_eq!(run_fresh("--5"), Ok("5".to_string()));
    assert_eq!(run_fresh("-+5"), Ok("-5".to_string()));
    assert_eq!(run_fresh("2 - -3"), Ok("5".to_string()));
}

#[test]
fn call_arity() {
    assert_eq!(run_fresh("pow(2, 3, 4)"), Err(EvalError::InvalidArgumentLength));
    assert_eq!(run_fresh("pow(2, 3)"), Ok("8".to_string()));
    assert_eq!(run_fresh("pow()"), Err(EvalError::InvalidArgumentLength));
    assert_eq!(run_fresh("pow(0, 0)"), Ok("1".to_string()));
}

#[test]
fn unknown_names() {
    assert_eq!(run_fresh("x"), Err(EvalError::UndefinedVariable));
    assert_eq!(run_fresh("foo(1)"), Err(EvalError::UndefinedFunction));
    assert_eq!(run_fresh("f()"), Err(EvalError::UndefinedFunction));
}

#[test]
fn assignment_target_must_be_a_variable() {
    assert_eq!(run_fresh("(a) = 1"), Err(EvalError::UnableToAssign));
    assert_eq!(run_fresh("1 = 2"), Err(EvalError::UnableToAssign));
}

#[test]
fn grouping_is_transparent() {
    for text in ["1 + 2 * 3", "-7 / 2", "2 ** 10 - 1", "x", "1 % 0", "pow(3, 4)"] {
        let grouped = format!("({})", text);
        assert_eq!(run_fresh(text), run_fresh(&grouped));
    }
    let parsed = parse_from_str("(4)").unwrap();
    assert!(matches!(parsed, Expr::Paren(_)));
}

#[test]
fn large_literal_round_trip() {
    let digits = "123456789012345678901234567890123456789012345678901234567890";
    assert_eq!(run_fresh(digits), Ok(digits.to_string()));
    let product = format!("{} * 10", digits);
    assert_eq!(run_fresh(&product), Ok(format!("{}0", digits)));
}

#[test]
fn malformed_input() {
    assert_eq!(parse_from_str("@").err(), Some(ParseError::UnexpectedToken));
    assert_eq!(parse_from_str("(1 + 2").err(), Some(ParseError::UnexpectedEndOfInput));
    assert_eq!(parse_from_str("(1 + 2 3").err(), Some(ParseError::ExpectedRParen));
    assert_eq!(parse_from_str("1 2").err(), Some(ParseError::UnexpectedToken));
    assert_eq!(parse_from_str("1 +").err(), Some(ParseError::UnexpectedEndOfInput));
    assert_eq!(parse_from_str(")").err(), Some(ParseError::ExpectedUnary));
    assert_eq!(parse_from_str("").err(), Some(ParseError::UnexpectedEndOfInput));
}

#[test]
fn truncating_division() {
    assert_eq!(run_fresh("-7 / 2"), Ok("-3".to_string()));
    assert_eq!(run_fresh("-7 % 2"), Ok("-1".to_string()));
    assert_eq!(run_fresh("7 % -2"), Ok("1".to_string()));
    assert_eq!(run_fresh("7 / -2"), Ok("-3".to_string()));
    assert_eq!(run_fresh("2 - 5"), Ok("-3".to_string()));
    assert_eq!(run_fresh("10 - 2 - 3"), Ok("5".to_string()));
    assert_eq!(run_fresh("100 / 10 / 5"), Ok("2".to_string()));
}

#[test]
fn scanner_tokens() {
    let ts = tokens("a1 ** 2*3 ,( )=%/-+").unwrap();
    assert_eq!(ts.len(), 13);
    assert!(matches!(&ts[0], Token::VarLit(s) if s == "a1"));
    assert!(matches!(ts[1], Token::AstAst));
    assert!(matches!(&ts[2], Token::NumLit(s) if s == "2"));
    assert!(matches!(ts[3], Token::Ast));
    assert!(matches!(&ts[4], Token::NumLit(s) if s == "3"));
    assert!(matches!(ts[5], Token::Comma));
    assert!(matches!(ts[6], Token::LParen));
    assert!(matches!(ts[7], Token::RParen));
    assert!(matches!(ts[8], Token::Equal));
    assert!(matches!(ts[9], Token::Percent));
    assert!(matches!(ts[10], Token::Slash));
    assert!(matches!(ts[11], Token::Minus));
    assert!(matches!(ts[12], Token::Plus));
    assert_eq!(tokens("1 $ 2").err(), Some(ParseError::UnexpectedToken));
}

#[test]
fn unicode_identifiers() {
    let ts = tokens("größe_2").unwrap();
    assert_eq!(ts.len(), 1);
    assert!(matches!(&ts[0], Token::VarLit(s) if s == "größe_2"));
    let mut env = Environment::default();
    assert_eq!(run(&mut env, "é = 2 ** 4"), Ok("16".to_string()));
    assert_eq!(run(&mut env, "é + 1"), Ok("17".to_string()));
}

#[test]
fn operator_tables() {
    assert_eq!(BinaryOp::Add.precedence(), Precedence::Additive);
    assert_eq!(BinaryOp::Rem.precedence(), Precedence::Multiplicative);
    assert_eq!(BinaryOp::Pow.precedence(), Precedence::Exponent);
    assert_eq!(BinaryOp::Assign.precedence(), Precedence::Assign);
    assert!(BinaryOp::Pow.is_right());
    assert!(BinaryOp::Assign.is_right());
    assert!(!BinaryOp::Sub.is_right());
    assert_eq!(Precedence::Exponent.level(), 4);
    assert_eq!(Precedence::Any.level(), 0);
}

#[test]
fn token_stream_cursor() {
    let ts = tokens("1 * x").unwrap();
    let mut stream = TokenStream::new(&ts);
    assert_eq!(BinaryOp::peek_precedence(&stream), None);
    assert!(matches!(stream.consume(), Ok(Token::NumLit(_))));
    assert_eq!(BinaryOp::peek_precedence(&stream), Some(Precedence::Multiplicative));
    assert_eq!(stream.eof().err(), Some(ParseError::UnexpectedToken));
    assert!(matches!(stream.consume(), Ok(Token::Ast)));
    assert!(matches!(stream.peek(), Ok(Token::VarLit(_))));
    assert!(stream.consume().is_ok());
    assert_eq!(stream.eof(), Ok(()));
    assert_eq!(stream.consume().err(), Some(ParseError::UnexpectedEndOfInput));
}

#[test]
fn big_integer_text() {
    let v = BigInteger::from_digits("000120").unwrap();
    assert_eq!(v.to_decimal(), "120");
    assert!(BigInteger::from_digits("12a").is_none());
    assert!(BigInteger::from_digits("").is_none());
    assert_eq!(run_fresh("0 - 340282366920938463463374607431768211456").unwrap(), "-340282366920938463463374607431768211456");
    assert_eq!(run_fresh("2 ** 100"), Ok("1267650600228229401496703205376".to_string()));
    assert_eq!(run_fresh("-(2 ** 64) * (2 ** 64)"), Ok("-340282366920938463463374607431768211456".to_string()));
}

#[test]
fn function_table_starts_empty() {
    let env = Environment::default();
    assert_eq!(env.call("f", Vec::new()).err(), Some(EvalError::UndefinedFunction));
}
