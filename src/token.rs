use crate::bigint::is_digit;
use crate::parse::{ParseError, ParseResult};
use vstd::prelude::*;
use vstd::string::*;

verus! {

/// One lexical unit; literals carry their text.
#[derive(Debug, Clone)]
pub enum Token {
    NumLit(String),
    VarLit(String),
    Plus,
    Minus,
    Ast,
    AstAst,
    Slash,
    Percent,
    LParen,
    RParen,
    Comma,
    Equal,
}

impl Token {
    /// An equal copy.
    pub fn duplicate(&self) -> (r: Token)
        ensures
            r@ == self@,
    {
        match self {
            Token::NumLit(s) => Token::NumLit(s.clone()),
            Token::VarLit(s) => Token::VarLit(s.clone()),
            Token::Plus => Token::Plus,
            Token::Minus => Token::Minus,
            Token::Ast => Token::Ast,
            Token::AstAst => Token::AstAst,
            Token::Slash => Token::Slash,
            Token::Percent => Token::Percent,
            Token::LParen => Token::LParen,
            Token::RParen => Token::RParen,
            Token::Comma => Token::Comma,
            Token::Equal => Token::Equal,
        }
    }
}

/// The mathematical value of a token.
pub enum Lexeme {
    NumLit(Seq<char>),
    VarLit(Seq<char>),
    Plus,
    Minus,
    Ast,
    AstAst,
    Slash,
    Percent,
    LParen,
    RParen,
    Comma,
    Equal,
}

impl View for Token {
    type V = Lexeme;

    open spec fn view(&self) -> Lexeme {
        match self {
            Token::NumLit(s) => Lexeme::NumLit(s@),
            Token::VarLit(s) => Lexeme::VarLit(s@),
            Token::Plus => Lexeme::Plus,
            Token::Minus => Lexeme::Minus,
            Token::Ast => Lexeme::Ast,
            Token::AstAst => Lexeme::AstAst,
            Token::Slash => Lexeme::Slash,
            Token::Percent => Lexeme::Percent,
            Token::LParen => Lexeme::LParen,
            Token::RParen => Lexeme::RParen,
            Token::Comma => Lexeme::Comma,
            Token::Equal => Lexeme::Equal,
        }
    }
}

pub open spec fn lexemes_of(ts: Seq<Token>) -> Seq<Lexeme> {
    ts.map_values(|t: Token| t@)
}

/// Unicode XID_Start.
pub uninterp spec fn xid_start(c: char) -> bool;

/// Unicode XID_Continue.
pub uninterp spec fn xid_continue(c: char) -> bool;

/// Relies on unicode_ident::is_xid_start.
#[verifier::external_body]
fn ident_start(c: char) -> (r: bool)
    ensures
        r == xid_start(c),
{
    unicode_ident::is_xid_start(c)
}

/// Relies on unicode_ident::is_xid_continue; a closing parenthesis is
/// punctuation, never part of an identifier.
#[verifier::external_body]
fn ident_continue(c: char) -> (r: bool)
    ensures
        r == xid_continue(c),
        c == ')' ==> !r,
{
    unicode_ident::is_xid_continue(c)
}

/// ASCII whitespace: space, tab, line feed, form feed, carriage return.
pub open spec fn is_space(c: char) -> bool {
    c == ' ' || c == '\t' || c == '\n' || c == '\x0C' || c == '\r'
}

/// The token of a one-character symbol other than `*`.
pub open spec fn symbol(c: char) -> Option<Lexeme> {
    if c == '+' {
        Some(Lexeme::Plus)
    } else if c == '-' {
        Some(Lexeme::Minus)
    } else if c == '/' {
        Some(Lexeme::Slash)
    } else if c == '%' {
        Some(Lexeme::Percent)
    } else if c == '(' {
        Some(Lexeme::LParen)
    } else if c == ')' {
        Some(Lexeme::RParen)
    } else if c == ',' {
        Some(Lexeme::Comma)
    } else if c == '=' {
        Some(Lexeme::Equal)
    } else {
        None
    }
}

/// End of the run of digits that starts at `i`.
pub open spec fn digit_run(s: Seq<char>, i: int) -> int
    decreases s.len() - i,
{
    if 0 <= i < s.len() && is_digit(s[i]) {
        digit_run(s, i + 1)
    } else {
        i
    }
}

/// End of the run of identifier-continuing characters that starts at `i` (a
/// closing parenthesis, which Unicode does not count among them, ends it).
pub open spec fn ident_run(s: Seq<char>, i: int) -> int
    decreases s.len() - i,
{
    if 0 <= i < s.len() && xid_continue(s[i]) && s[i] != ')' {
        ident_run(s, i + 1)
    } else {
        i
    }
}

pub proof fn lemma_runs_advance(s: Seq<char>, i: int)
    ensures
        digit_run(s, i) >= i,
        ident_run(s, i) >= i,
        i <= s.len() ==> digit_run(s, i) <= s.len(),
        i <= s.len() ==> ident_run(s, i) <= s.len(),
    decreases s.len() - i,
{
    if 0 <= i < s.len() {
        lemma_runs_advance(s, i + 1);
    }
}

/// In a string of digits, the run from `i` reaches the end.
pub proof fn lemma_digit_run_to_end(s: Seq<char>, i: int)
    requires
        0 <= i <= s.len(),
        forall|k: int| 0 <= k < s.len() ==> is_digit(#[trigger] s[k]),
    ensures
        digit_run(s, i) == s.len(),
    decreases s.len() - i,
{
    if i < s.len() {
        lemma_digit_run_to_end(s, i + 1);
    }
}

/// `t` in front of the tokens `r`, if scanning did not fail.
pub open spec fn prefixed(t: Seq<Lexeme>, r: Option<Seq<Lexeme>>) -> Option<Seq<Lexeme>> {
    match r {
        Some(rest) => Some(t + rest),
        None => None,
    }
}

/// The tokens of `s` from position `i` on, or `None` where a character fits no token.
pub open spec fn lex(s: Seq<char>, i: int) -> Option<Seq<Lexeme>>
    decreases s.len() - i,
    via lex_decreases
{
    if i < 0 || i >= s.len() {
        Some(seq![])
    } else if is_digit(s[i]) {
        let j = digit_run(s, i + 1);
        prefixed(seq![Lexeme::NumLit(s.subrange(i, j))], lex(s, j))
    } else if s[i] == '*' && i + 1 < s.len() && s[i + 1] == '*' {
        prefixed(seq![Lexeme::AstAst], lex(s, i + 2))
    } else if s[i] == '*' {
        prefixed(seq![Lexeme::Ast], lex(s, i + 1))
    } else if symbol(s[i]) is Some {
        prefixed(seq![symbol(s[i])->0], lex(s, i + 1))
    } else if is_space(s[i]) {
        lex(s, i + 1)
    } else if xid_start(s[i]) {
        let j = ident_run(s, i + 1);
        prefixed(seq![Lexeme::VarLit(s.subrange(i, j))], lex(s, j))
    } else {
        None
    }
}

#[via_fn]
proof fn lex_decreases(s: Seq<char>, i: int) {
    lemma_runs_advance(s, i + 1);
}

fn ascii_digit(c: char) -> (r: bool)
    ensures
        r == is_digit(c),
{
    '0' <= c && c <= '9'
}

/// The characters of `s` from `from` up to `to`.
fn text_of(s: &str, from: usize, to: usize) -> (r: String)
    requires
        from <= to <= s@.len(),
    ensures
        r@ == s@.subrange(from as int, to as int),
{
    String::from_str(s.substring_char(from, to))
}

/// Splits `s` into tokens; fails with `UnexpectedToken` at a character that
/// begins no token.
pub fn tokens(s: &str) -> (r: ParseResult<Vec<Token>>)
    ensures
        lex(s@, 0) is Some <==> r is Ok,
        r matches Ok(ts) ==> lex(s@, 0) == Some(lexemes_of(ts@)),
        r matches Err(e) ==> e == ParseError::UnexpectedToken,
{
    let n = s.unicode_len();
    let mut buffer: Vec<Token> = Vec::new();
    let mut i: usize = 0;
    while i < n
        invariant
            n == s@.len(),
            i <= n,
            lex(s@, 0) == prefixed(lexemes_of(buffer@), lex(s@, i as int)),
        decreases n - i,
    {
        let c = s.get_char(i);
        let ghost rest = lex(s@, i as int);
        let ghost before = lexemes_of(buffer@);
        proof {
            lemma_runs_advance(s@, i + 1);
        }
        if ascii_digit(c) {
            let mut j: usize = i + 1;
            while j < n && ascii_digit(s.get_char(j))
                invariant
                    n == s@.len(),
                    i < j <= n,
                    digit_run(s@, i + 1) == digit_run(s@, j as int),
                decreases n - j,
            {
                j += 1;
            }
            buffer.push(Token::NumLit(text_of(s, i, j)));
            i = j;
        } else if c == '*' && i + 1 < n && s.get_char(i + 1) == '*' {
            buffer.push(Token::AstAst);
            i += 2;
        } else if c == '*' {
            buffer.push(Token::Ast);
            i += 1;
        } else if c == '+' {
            buffer.push(Token::Plus);
            i += 1;
        } else if c == '-' {
            buffer.push(Token::Minus);
            i += 1;
        } else if c == '/' {
            buffer.push(Token::Slash);
            i += 1;
        } else if c == '%' {
            buffer.push(Token::Percent);
            i += 1;
        } else if c == '(' {
            buffer.push(Token::LParen);
            i += 1;
        } else if c == ')' {
            buffer.push(Token::RParen);
            i += 1;
        } else if c == ',' {
            buffer.push(Token::Comma);
            i += 1;
        } else if c == '=' {
            buffer.push(Token::Equal);
            i += 1;
        } else if c == ' ' || c == '\t' || c == '\n' || c == '\x0C' || c == '\r' {
            i += 1;
        } else if ident_start(c) {
            let mut j: usize = i + 1;
            while j < n && ident_continue(s.get_char(j))
                invariant
                    n == s@.len(),
                    i < j <= n,
                    ident_run(s@, i + 1) == ident_run(s@, j as int),
                decreases n - j,
            {
                j += 1;
            }
            buffer.push(Token::VarLit(text_of(s, i, j)));
            i = j;
        } else {
            return Err(ParseError::UnexpectedToken);
        }
        proof {
            let after = lexemes_of(buffer@);
            assert(prefixed(before, rest) == prefixed(after, lex(s@, i as int))) by {
                if lex(s@, i as int) is Some {
                    assert(before + (after.subrange(before.len() as int, after.len() as int)
                        + lex(s@, i as int)->0) =~= after + lex(s@, i as int)->0);
                }
            }
        }
    }
    Ok(buffer)
}

/// A forward cursor over a sequence of tokens.
#[derive(Debug)]
pub struct TokenStream<'a> {
    tokens: &'a [Token],
    pos: usize,
}

impl<'a> TokenStream<'a> {
    /// All the tokens, read or not.
    pub closed spec fn lexemes(&self) -> Seq<Lexeme> {
        lexemes_of(self.tokens@)
    }

    /// How many tokens have been read.
    pub closed spec fn position(&self) -> int {
        self.pos as int
    }

    pub open spec fn wf(&self) -> bool {
        0 <= self.position() <= self.lexemes().len()
    }

    pub fn new(tokens: &'a [Token]) -> (r: Self)
        ensures
            r.wf(),
            r.lexemes() == lexemes_of(tokens@),
            r.position() == 0,
    {
        TokenStream { tokens, pos: 0 }
    }

    /// The next token, without reading it.
    pub fn peek(&self) -> (r: ParseResult<&Token>)
        requires
            self.wf(),
        ensures
            self.position() < self.lexemes().len() <==> r is Ok,
            r matches Ok(t) ==> t@ == self.lexemes()[self.position()],
            r matches Err(e) ==> e == ParseError::UnexpectedEndOfInput,
    {
        if self.pos < self.tokens.len() {
            Ok(&self.tokens[self.pos])
        } else {
            Err(ParseError::UnexpectedEndOfInput)
        }
    }

    /// Reads the next token.
    pub fn consume(&mut self) -> (r: ParseResult<Token>)
        requires
            old(self).wf(),
        ensures
            final(self).wf(),
            final(self).lexemes() == old(self).lexemes(),
            old(self).position() < old(self).lexemes().len() <==> r is Ok,
            r matches Ok(t) ==> t@ == old(self).lexemes()[old(self).position()]
                && final(self).position() == old(self).position() + 1,
            r matches Err(e) ==> e == ParseError::UnexpectedEndOfInput
                && final(self).position() == old(self).position(),
    {
        if self.pos < self.tokens.len() {
            let t = self.tokens[self.pos].duplicate();
            self.pos = self.pos + 1;
            Ok(t)
        } else {
            Err(ParseError::UnexpectedEndOfInput)
        }
    }

    /// Succeeds only when every token has been read.
    pub fn eof(&self) -> (r: ParseResult<()>)
        requires
            self.wf(),
        ensures
            r is Ok <==> self.position() == self.lexemes().len(),
            r matches Err(e) ==> e == ParseError::UnexpectedToken,
    {
        if self.pos < self.tokens.len() {
            Err(ParseError::UnexpectedToken)
        } else {
            Ok(())
        }
    }
}

} // verus!
