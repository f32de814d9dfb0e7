use crate::expr::{expr_spec, outcome, Ast, Expr};
use crate::token::{lex, tokens, TokenStream};
use vstd::prelude::*;

verus! {

/// Why a line of text could not be scanned or parsed.
#[derive(Debug, Clone, Copy, PartialEq, Eq, Structural)]
pub enum ParseError {
    ExpectedUnary,
    ExpectedBinary,
    ExpectedNum,
    ExpectedRParen,
    UnexpectedEndOfInput,
    UnexpectedToken,
    ParseBigIntError,
}

impl ParseError {
    /// A short description for the user.
    pub fn message(&self) -> (r: &'static str) {
        match self {
            ParseError::ExpectedUnary => "expected one of `+-`",
            ParseError::ExpectedBinary => "expected one of `+-*/%`",
            ParseError::ExpectedNum => "expected digits",
            ParseError::ExpectedRParen => "expected `)`",
            ParseError::UnexpectedEndOfInput => "unexpected end of input",
            ParseError::UnexpectedToken => "unexpected token",
            ParseError::ParseBigIntError => "unexpected integer literal",
        }
    }
}

pub type ParseResult<T> = Result<T, ParseError>;

/// What a line of text parses to: its tokens, one whole expression over them,
/// and nothing after it.
pub open spec fn parse_text(s: Seq<char>) -> Result<Ast, ParseError> {
    match lex(s, 0) {
        None => Err(ParseError::UnexpectedToken),
        Some(t) => {
            let (r, q) = expr_spec(t, 0);
            match r {
                Err(e) => Err(e),
                Ok(e) => if q == t.len() {
                    Ok(e)
                } else {
                    Err(ParseError::UnexpectedToken)
                },
            }
        },
    }
}

/// Scans and parses one line of text into an expression tree.
pub fn parse_from_str(input: &str) -> (r: ParseResult<Expr>)
    ensures
        outcome(r) == parse_text(input@),
{
    let tokens = tokens(input)?;
    let mut stream = TokenStream::new(tokens.as_slice());
    let t = stream.parse()?;
    stream.eof()?;
    Ok(t)
}

} // verus!
