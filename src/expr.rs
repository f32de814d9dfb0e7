use crate::bigint::{digits_value, is_digit_run, BigInteger};
use crate::parse::{ParseError, ParseResult};
use crate::token::{Lexeme, Token, TokenStream};
use vstd::prelude::*;

verus! {

broadcast use vstd::std_specs::vec::axiom_vec_index_decreases, vstd::std_specs::vec::axiom_vec_decreases_to_view, vstd::seq::axiom_seq_index_decreases;

/// An expression tree; each node owns its children.
#[derive(Debug)]
pub enum Expr {
    Int(BigInteger),
    Binary(Box<Expr>, BinaryOp, Box<Expr>),
    Unary(UnaryOp, Box<Expr>),
    Paren(Box<Expr>),
    Variable(String),
    Call(String, Vec<Expr>),
}

/// The mathematical value of an expression tree.
pub enum Ast {
    Int(int),
    Binary(Box<Ast>, BinaryOp, Box<Ast>),
    Unary(UnaryOp, Box<Ast>),
    Paren(Box<Ast>),
    Variable(Seq<char>),
    Call(Seq<char>, Seq<Ast>),
}

/// The tree of an expression, node by node.
pub open spec fn model(e: &Expr) -> Ast
    decreases e,
{
    match e {
        Expr::Int(n) => Ast::Int(n@),
        Expr::Binary(l, op, r) => Ast::Binary(Box::new(model(l)), *op, Box::new(model(r))),
        Expr::Unary(op, x) => Ast::Unary(*op, Box::new(model(x))),
        Expr::Paren(x) => Ast::Paren(Box::new(model(x))),
        Expr::Variable(s) => Ast::Variable(s@),
        Expr::Call(s, args) => Ast::Call(
            s@,
            Seq::new(
                args.len() as nat,
                |i: int|
                    if 0 <= i < args.len() {
                        model(&args[i])
                    } else {
                        Ast::Int(0)
                    },
            ),
        ),
    }
}

impl View for Expr {
    type V = Ast;

    open spec fn view(&self) -> Ast {
        model(self)
    }
}

#[derive(Debug, Clone, Copy, PartialEq, Eq, Structural)]
pub enum BinaryOp {
    Add,
    Sub,
    Mul,
    Div,
    Rem,
    Pow,
    Assign,
}

/// Binding strength of binary operators, weakest first.
#[derive(Debug, Clone, Copy, PartialEq, Eq, Structural, PartialOrd, Ord)]
pub enum Precedence {
    Any,
    Assign,
    Additive,
    Multiplicative,
    Exponent,
}

#[derive(Debug, Clone, Copy, PartialEq, Eq, Structural)]
pub enum UnaryOp {
    Plus,
    Minus,
}

pub open spec fn level(p: Precedence) -> int {
    match p {
        Precedence::Any => 0,
        Precedence::Assign => 1,
        Precedence::Additive => 2,
        Precedence::Multiplicative => 3,
        Precedence::Exponent => 4,
    }
}

pub open spec fn precedence_of(op: BinaryOp) -> Precedence {
    match op {
        BinaryOp::Add | BinaryOp::Sub => Precedence::Additive,
        BinaryOp::Mul | BinaryOp::Div | BinaryOp::Rem => Precedence::Multiplicative,
        BinaryOp::Pow => Precedence::Exponent,
        BinaryOp::Assign => Precedence::Assign,
    }
}

pub open spec fn right_assoc(op: BinaryOp) -> bool {
    op == BinaryOp::Pow || op == BinaryOp::Assign
}

/// The binary operator that a token stands for.
pub open spec fn binop_of(l: Lexeme) -> Option<BinaryOp> {
    match l {
        Lexeme::Plus => Some(BinaryOp::Add),
        Lexeme::Minus => Some(BinaryOp::Sub),
        Lexeme::Ast => Some(BinaryOp::Mul),
        Lexeme::Slash => Some(BinaryOp::Div),
        Lexeme::Percent => Some(BinaryOp::Rem),
        Lexeme::AstAst => Some(BinaryOp::Pow),
        Lexeme::Equal => Some(BinaryOp::Assign),
        _ => None,
    }
}

/// The binary operator at position `p`, if there is one.
pub open spec fn op_at(t: Seq<Lexeme>, p: int) -> Option<BinaryOp> {
    if 0 <= p < t.len() {
        binop_of(t[p])
    } else {
        None
    }
}

pub open spec fn outcome(r: ParseResult<Expr>) -> Result<Ast, ParseError> {
    match r {
        Ok(e) => Ok(e@),
        Err(e) => Err(e),
    }
}

/// What a numeric literal token denotes.
pub open spec fn literal(s: Seq<char>) -> Result<Ast, ParseError> {
    if is_digit_run(s) {
        Ok(Ast::Int(digits_value(s)))
    } else {
        Err(ParseError::ParseBigIntError)
    }
}

/// A call of `name` on the parsed arguments, if they parsed.
pub open spec fn call_outcome(name: Seq<char>, args: (Result<Seq<Ast>, ParseError>, int)) -> (
    Result<Ast, ParseError>,
    int,
) {
    match args.0 {
        Ok(a) => (Ok(Ast::Call(name, a)), args.1),
        Err(e) => (Err(e), args.1),
    }
}

/// Parse of a unary or primary term at `p`: the tree or the error, and the
/// position reached.
pub open spec fn unary_spec(t: Seq<Lexeme>, p: int) -> (Result<Ast, ParseError>, int)
    decreases t.len() - p, 0int,
{
    if p < 0 || p >= t.len() {
        (Err(ParseError::UnexpectedEndOfInput), p)
    } else {
        match t[p] {
            Lexeme::Plus | Lexeme::Minus => {
                let op = if t[p] is Plus {
                    UnaryOp::Plus
                } else {
                    UnaryOp::Minus
                };
                let (r, q) = unary_spec(t, p + 1);
                match r {
                    Ok(e) => (Ok(Ast::Unary(op, Box::new(e))), q),
                    Err(e) => (Err(e), q),
                }
            },
            Lexeme::NumLit(s) => (literal(s), p + 1),
            Lexeme::LParen => {
                let (r, q) = expr_spec(t, p + 1);
                match r {
                    Err(e) => (Err(e), q),
                    Ok(e) => if q < 0 || q >= t.len() {
                        (Err(ParseError::UnexpectedEndOfInput), q)
                    } else if t[q] is RParen {
                        (Ok(Ast::Paren(Box::new(e))), q + 1)
                    } else {
                        (Err(ParseError::ExpectedRParen), q + 1)
                    },
                }
            },
            Lexeme::VarLit(name) => {
                if p + 1 < t.len() && t[p + 1] is LParen {
                    call_outcome(name, args_spec(t, p + 2, seq![]))
                } else {
                    (Ok(Ast::Variable(name)), p + 1)
                }
            },
            _ => (Err(ParseError::ExpectedUnary), p),
        }
    }
}

/// Parse of a whole expression at `p`.
pub open spec fn expr_spec(t: Seq<Lexeme>, p: int) -> (Result<Ast, ParseError>, int)
    decreases t.len() - p, 3int,
{
    let (r, q) = unary_spec(t, p);
    match r {
        Err(e) => (Err(e), q),
        Ok(lhs) => if p < q <= t.len() {
            climb_spec(t, q, lhs, Precedence::Any)
        } else {
            (Ok(lhs), q)
        },
    }
}

/// Whether the token at `p` is a binary operator of precedence at least `base`.
pub open spec fn climbs(t: Seq<Lexeme>, p: int, base: Precedence) -> bool {
    op_at(t, p) is Some && level(precedence_of(op_at(t, p)->0)) >= level(base)
}

/// Precedence climbing from `p`: absorbs into `lhs` the operators whose
/// precedence is at least `base`.
pub open spec fn climb_spec(t: Seq<Lexeme>, p: int, lhs: Ast, base: Precedence) -> (
    Result<Ast, ParseError>,
    int,
)
    decreases t.len() - p, 1int,
{
    if climbs(t, p, base) {
        step_spec(t, p, lhs, base)
    } else {
        (Ok(lhs), p)
    }
}

/// One round of climbing: the operator at `p`, its right operand, and what follows.
pub open spec fn step_spec(t: Seq<Lexeme>, p: int, lhs: Ast, base: Precedence) -> (
    Result<Ast, ParseError>,
    int,
)
    decreases t.len() - p, 0int,
{
    if op_at(t, p) is None {
        (Ok(lhs), p)
    } else {
        let op = op_at(t, p)->0;
        let (r, q) = unary_spec(t, p + 1);
        match r {
            Err(e) => (Err(e), q),
            Ok(rhs) => if p < q <= t.len() {
                absorb_spec(t, q, lhs, op, rhs, base)
            } else {
                (Ok(rhs), q)
            },
        }
    }
}

/// Grows the right operand `rhs` of `op` while the next operator binds tighter
/// (or as tight, for a right-associative `op`), then goes on climbing.
pub open spec fn absorb_spec(
    t: Seq<Lexeme>,
    p: int,
    lhs: Ast,
    op: BinaryOp,
    rhs: Ast,
    base: Precedence,
) -> (Result<Ast, ParseError>, int)
    decreases t.len() - p, 2int,
{
    if op_at(t, p) is Some && (level(precedence_of(op_at(t, p)->0)) > level(precedence_of(op)) || (
    level(precedence_of(op_at(t, p)->0)) == level(precedence_of(op)) && right_assoc(op))) {
        let (r, q) = step_spec(t, p, rhs, precedence_of(op_at(t, p)->0));
        match r {
            Err(e) => (Err(e), q),
            Ok(r2) => if p < q <= t.len() {
                absorb_spec(t, q, lhs, op, r2, base)
            } else {
                (Ok(r2), q)
            },
        }
    } else {
        climb_spec(t, p, Ast::Binary(Box::new(lhs), op, Box::new(rhs)), base)
    }
}

/// Parse of call arguments from `p`, after those in `acc`, through the closing `)`.
pub open spec fn args_spec(t: Seq<Lexeme>, p: int, acc: Seq<Ast>) -> (
    Result<Seq<Ast>, ParseError>,
    int,
)
    decreases t.len() - p, 4int,
{
    let (r, q) = expr_spec(t, p);
    if q < 0 || q >= t.len() {
        (Err(ParseError::UnexpectedEndOfInput), q)
    } else {
        match r {
            Ok(e) => if t[q] is Comma {
                if p <= q {
                    args_spec(t, q + 1, acc.push(e))
                } else {
                    (Ok(acc), q)
                }
            } else if t[q] is RParen {
                (Ok(acc.push(e)), q + 1)
            } else {
                (Err(ParseError::ExpectedRParen), q + 1)
            },
            Err(_) => if t[q] is RParen {
                (Ok(acc), q + 1)
            } else {
                (Err(ParseError::ExpectedRParen), q + 1)
            },
        }
    }
}

impl Precedence {
    /// Rank of the precedence, weakest first.
    pub fn level(&self) -> (r: u8)
        ensures
            r as int == level(*self),
    {
        match self {
            Precedence::Any => 0,
            Precedence::Assign => 1,
            Precedence::Additive => 2,
            Precedence::Multiplicative => 3,
            Precedence::Exponent => 4,
        }
    }
}

impl BinaryOp {
    /// The binary operator that the next token stands for, without reading it.
    pub fn peek(input: &TokenStream) -> (r: ParseResult<BinaryOp>)
        requires
            input.wf(),
        ensures
            r is Ok <==> op_at(input.lexemes(), input.position()) is Some,
            r matches Ok(op) ==> op_at(input.lexemes(), input.position()) == Some(op),
            r matches Err(e) ==> e == if input.position() < input.lexemes().len() {
                ParseError::ExpectedBinary
            } else {
                ParseError::UnexpectedEndOfInput
            },
    {
        match input.peek() {
            Ok(Token::Plus) => Ok(BinaryOp::Add),
            Ok(Token::Minus) => Ok(BinaryOp::Sub),
            Ok(Token::Ast) => Ok(BinaryOp::Mul),
            Ok(Token::Slash) => Ok(BinaryOp::Div),
            Ok(Token::Percent) => Ok(BinaryOp::Rem),
            Ok(Token::AstAst) => Ok(BinaryOp::Pow),
            Ok(Token::Equal) => Ok(BinaryOp::Assign),
            Ok(_) => Err(ParseError::ExpectedBinary),
            Err(e) => Err(e),
        }
    }

    /// Reads the next token as a binary operator.
    pub fn parse(input: &mut TokenStream) -> (r: ParseResult<BinaryOp>)
        requires
            old(input).wf(),
        ensures
            final(input).wf(),
            final(input).lexemes() == old(input).lexemes(),
            r is Ok <==> op_at(old(input).lexemes(), old(input).position()) is Some,
            r matches Ok(op) ==> op_at(old(input).lexemes(), old(input).position()) == Some(op)
                && final(input).position() == old(input).position() + 1,
            r is Err ==> final(input).position() == old(input).position(),
    {
        let op = BinaryOp::peek(input)?;
        let _ = input.consume();
        Ok(op)
    }

    pub fn precedence(&self) -> (r: Precedence)
        ensures
            r == precedence_of(*self),
    {
        match self {
            BinaryOp::Add | BinaryOp::Sub => Precedence::Additive,
            BinaryOp::Mul | BinaryOp::Div | BinaryOp::Rem => Precedence::Multiplicative,
            BinaryOp::Pow => Precedence::Exponent,
            BinaryOp::Assign => Precedence::Assign,
        }
    }

    /// The precedence of the next token if it is a binary operator.
    pub fn peek_precedence(input: &TokenStream) -> (r: Option<Precedence>)
        requires
            input.wf(),
        ensures
            r is Some <==> op_at(input.lexemes(), input.position()) is Some,
            r matches Some(p) ==> p == precedence_of(
                op_at(input.lexemes(), input.position())->0,
            ),
    {
        match BinaryOp::peek(input) {
            Ok(op) => Some(op.precedence()),
            Err(_) => None,
        }
    }

    /// Whether the operator groups to the right.
    pub fn is_right(&self) -> (r: bool)
        ensures
            r == right_assoc(*self),
    {
        matches!(self, BinaryOp::Pow | BinaryOp::Assign)
    }
}

impl UnaryOp {
    /// Reads a leading `+` or `-`.
    pub fn parse(input: &mut TokenStream) -> (r: ParseResult<UnaryOp>)
        requires
            old(input).wf(),
        ensures
            final(input).wf(),
            final(input).lexemes() == old(input).lexemes(),
            old(input).position() >= old(input).lexemes().len() ==> r == Err::<UnaryOp, ParseError>(
                ParseError::UnexpectedEndOfInput,
            ),
            old(input).position() < old(input).lexemes().len() ==> r == match old(
                input,
            ).lexemes()[old(input).position()] {
                Lexeme::Plus => Ok(UnaryOp::Plus),
                Lexeme::Minus => Ok(UnaryOp::Minus),
                _ => Err(ParseError::ExpectedUnary),
            },
            r is Ok ==> final(input).position() == old(input).position() + 1,
            r is Err ==> final(input).position() == old(input).position(),
    {
        let op = match input.peek()? {
            Token::Plus => UnaryOp::Plus,
            Token::Minus => UnaryOp::Minus,
            _ => return Err(ParseError::ExpectedUnary),
        };
        let _ = input.consume();
        Ok(op)
    }
}

impl BigInteger {
    /// Reads a numeric literal token and the number it spells.
    pub fn parse(input: &mut TokenStream) -> (r: ParseResult<BigInteger>)
        requires
            old(input).wf(),
        ensures
            final(input).wf(),
            final(input).lexemes() == old(input).lexemes(),
            ({
                let t = old(input).lexemes();
                let p = old(input).position();
                if p >= t.len() {
                    r == Err::<BigInteger, ParseError>(ParseError::UnexpectedEndOfInput)
                        && final(input).position() == p
                } else if t[p] is NumLit {
                    final(input).position() == p + 1 && match r {
                        Ok(v) => literal(t[p]->NumLit_0) == Ok::<Ast, ParseError>(Ast::Int(v@)),
                        Err(e) => literal(t[p]->NumLit_0) == Err::<Ast, ParseError>(e),
                    }
                } else {
                    r == Err::<BigInteger, ParseError>(ParseError::ExpectedNum)
                        && final(input).position() == p
                }
            }),
    {
        match input.peek()? {
            Token::NumLit(_) => {},
            _ => return Err(ParseError::ExpectedNum),
        }
        match input.consume() {
            Ok(Token::NumLit(s)) => match BigInteger::from_digits(s.as_str()) {
                Some(v) => Ok(v),
                None => Err(ParseError::ParseBigIntError),
            },
            _ => Err(ParseError::ExpectedNum),
        }
    }
}

proof fn lemma_call_model(name: String, args: Vec<Expr>)
    ensures
        model(&Expr::Call(name, args)) == Ast::Call(name@, args@.map_values(|a: Expr| a@)),
{
    assert(model(&Expr::Call(name, args))->Call_1 =~= args@.map_values(|a: Expr| a@));
}

/// Parses a unary or primary term.
pub fn parse_unary(input: &mut TokenStream) -> (r: ParseResult<Expr>)
    requires
        old(input).wf(),
    ensures
        final(input).wf(),
        final(input).lexemes() == old(input).lexemes(),
        (outcome(r), final(input).position()) == unary_spec(
            old(input).lexemes(),
            old(input).position(),
        ),
        old(input).position() <= final(input).position(),
        r is Ok ==> old(input).position() < final(input).position(),
    decreases old(input).lexemes().len() - old(input).position(), 0int,
{
    let ghost t = input.lexemes();
    let ghost p = input.position();
    let token = input.peek()?;
    match token {
        Token::Plus | Token::Minus => {
            let op = UnaryOp::parse(input)?;
            let e = parse_unary(input)?;
            Ok(Expr::Unary(op, Box::new(e)))
        },
        Token::NumLit(_) => {
            let v = BigInteger::parse(input)?;
            Ok(Expr::Int(v))
        },
        Token::LParen => {
            let _ = input.consume();
            let e = parse_expr(input)?;
            match input.consume()? {
                Token::RParen => Ok(Expr::Paren(Box::new(e))),
                _ => Err(ParseError::ExpectedRParen),
            }
        },
        Token::VarLit(_) => {
            let ident = match input.consume() {
                Ok(Token::VarLit(lit)) => lit,
                _ => return Err(ParseError::ExpectedUnary),
            };
            let call = match input.peek() {
                Ok(Token::LParen) => true,
                _ => false,
            };
            if !call {
                return Ok(Expr::Variable(ident));
            }
            let _ = input.consume();
            let mut args: Vec<Expr> = Vec::new();
            assert(args@.map_values(|a: Expr| a@) =~= seq![]);
            assert(unary_spec(t, p) == call_outcome(ident@, args_spec(t, p + 2, seq![])));
            loop
                invariant
                    input.wf(),
                    input.lexemes() == t,
                    t == old(input).lexemes(),
                    p == old(input).position(),
                    unary_spec(t, p) == call_outcome(
                        ident@,
                        args_spec(t, input.position(), args@.map_values(|a: Expr| a@)),
                    ),
                    p + 2 <= input.position() <= t.len(),
                decreases t.len() - input.position(),
            {
                let ghost acc = args@.map_values(|a: Expr| a@);
                match parse_expr(input) {
                    Ok(e) => {
                        let ghost ev = e@;
                        args.push(e);
                        assert(args@.map_values(|a: Expr| a@) =~= acc.push(ev));
                        match input.consume()? {
                            Token::Comma => {},
                            Token::RParen => {
                                proof {
                                    lemma_call_model(ident, args);
                                }
                                return Ok(Expr::Call(ident, args));
                            },
                            _ => return Err(ParseError::ExpectedRParen),
                        }
                    },
                    Err(_) => match input.consume()? {
                        Token::RParen => {
                            proof {
                                lemma_call_model(ident, args);
                            }
                            return Ok(Expr::Call(ident, args));
                        },
                        _ => return Err(ParseError::ExpectedRParen),
                    },
                }
            }
        },
        _ => Err(ParseError::ExpectedUnary),
    }
}

impl<'a> TokenStream<'a> {
    /// Parses one whole expression from the cursor.
    pub fn parse(&mut self) -> (r: ParseResult<Expr>)
        requires
            old(self).wf(),
        ensures
            final(self).wf(),
            final(self).lexemes() == old(self).lexemes(),
            (outcome(r), final(self).position()) == expr_spec(
                old(self).lexemes(),
                old(self).position(),
            ),
    {
        parse_expr(self)
    }
}

/// Parses a whole expression: a term, then the binary operators that follow.
pub fn parse_expr(input: &mut TokenStream) -> (r: ParseResult<Expr>)
    requires
        old(input).wf(),
    ensures
        final(input).wf(),
        final(input).lexemes() == old(input).lexemes(),
        (outcome(r), final(input).position()) == expr_spec(
            old(input).lexemes(),
            old(input).position(),
        ),
        old(input).position() <= final(input).position(),
        r is Ok ==> old(input).position() < final(input).position(),
    decreases old(input).lexemes().len() - old(input).position(), 1int,
{
    let lhs = parse_unary(input)?;
    parse_rexpr(input, lhs, Precedence::Any)
}

/// Precedence climbing: extends `lhs` with every following binary operator
/// whose precedence is at least `base`.
pub fn parse_rexpr(input: &mut TokenStream, lhs: Expr, base: Precedence) -> (r: ParseResult<Expr>)
    requires
        old(input).wf(),
    ensures
        final(input).wf(),
        final(input).lexemes() == old(input).lexemes(),
        (outcome(r), final(input).position()) == climb_spec(
            old(input).lexemes(),
            old(input).position(),
            lhs@,
            base,
        ),
        old(input).position() <= final(input).position(),
        climbs(old(input).lexemes(), old(input).position(), base) ==> old(input).position()
            < final(input).position(),
    decreases old(input).lexemes().len() - old(input).position(), 2int,
{
    let ghost t = input.lexemes();
    let ghost p0 = input.position();
    let ghost lhs0 = lhs@;
    let mut cur = lhs;
    let mut failure: Option<ParseError> = None;
    loop
        invariant_except_break
            failure is None,
            climb_spec(t, p0, lhs0, base) == climb_spec(t, input.position(), cur@, base),
        invariant
            input.wf(),
            input.lexemes() == t,
            t == old(input).lexemes(),
            p0 == old(input).position(),
            p0 <= input.position() <= t.len(),
        ensures
            failure is None ==> climb_spec(t, p0, lhs0, base) == (
                Ok::<Ast, ParseError>(cur@),
                input.position(),
            ) && !climbs(t, input.position(), base),
            failure matches Some(e) ==> climb_spec(t, p0, lhs0, base) == (
                Err::<Ast, ParseError>(e),
                input.position(),
            ) && p0 < input.position(),
        decreases t.len() - input.position(),
    {
        let ghost q = input.position();
        let precedence = match BinaryOp::peek_precedence(input) {
            Some(p) => p,
            None => break,
        };
        if precedence.level() < base.level() {
            break;
        }
        let op = BinaryOp::parse(input)?;
        let precedence = op.precedence();
        proof {
            assert(climb_spec(t, q, cur@, base) == step_spec(t, q, cur@, base));
        }
        let mut rhs = match parse_unary(input) {
            Ok(e) => e,
            Err(e) => {
                assert(step_spec(t, q, cur@, base) == (Err::<Ast, ParseError>(e), input.position()));
                failure = Some(e);
                break;
            },
        };
        loop
            invariant_except_break
                failure is None,
                climb_spec(t, p0, lhs0, base) == absorb_spec(
                    t,
                    input.position(),
                    cur@,
                    op,
                    rhs@,
                    base,
                ),
            invariant
                input.wf(),
                input.lexemes() == t,
                t == old(input).lexemes(),
                p0 == old(input).position(),
                p0 <= q,
                q < input.position() <= t.len(),
                precedence == precedence_of(op),
            ensures
                failure is None ==> climb_spec(t, p0, lhs0, base) == climb_spec(
                    t,
                    input.position(),
                    Ast::Binary(Box::new(cur@), op, Box::new(rhs@)),
                    base,
                ),
                failure matches Some(e) ==> climb_spec(t, p0, lhs0, base) == (
                    Err::<Ast, ParseError>(e),
                    input.position(),
                ),
            decreases t.len() - input.position(),
        {
            let next = match BinaryOp::peek_precedence(input) {
                Some(n) => n,
                None => break,
            };
            if next.level() > precedence.level() || (next.level() == precedence.level()
                && op.is_right()) {
                let ghost q1 = input.position();
                proof {
                    assert(climb_spec(t, q1, rhs@, next) == step_spec(t, q1, rhs@, next));
                }
                rhs = match parse_rexpr(input, rhs, next) {
                    Ok(e) => e,
                    Err(e) => {
                        assert(absorb_spec(t, q1, cur@, op, rhs@, base) == (
                            Err::<Ast, ParseError>(e),
                            input.position(),
                        ));
                        failure = Some(e);
                        // the operand went into the failed call; nothing reads it now
                        rhs = Expr::Variable(String::new());
                        break;
                    },
                };
            } else {
                break;
            }
        }
        if failure.is_some() {
            break;
        }
        cur = Expr::Binary(Box::new(cur), op, Box::new(rhs));
    }
    match failure {
        Some(e) => Err(e),
        None => Ok(cur),
    }
}

} // verus!
