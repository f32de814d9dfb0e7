use crate::expr::{
    absorb_spec, args_spec, climb_spec, climbs, expr_spec, op_at, precedence_of, right_assoc,
    level, step_spec, unary_spec, Ast, BinaryOp, Precedence,
};
use crate::bigint::is_digit;
use crate::eval::{eval_spec, lemma_grouping_transparent};
use crate::parse::{parse_text, ParseError};
use crate::token::{digit_run, ident_run, is_space, lemma_runs_advance, lex, symbol, xid_start, Lexeme};
use vstd::prelude::*;

verus! {

/// The tokens `t` between a pair of parentheses.
pub open spec fn wrapped(t: Seq<Lexeme>) -> Seq<Lexeme> {
    seq![Lexeme::LParen] + t + seq![Lexeme::RParen]
}

/// The parse `b` over `wrapped(t)` one position on agrees with the parse `a`
/// over `t`, wherever `a` succeeded or failed before the end of `t`.
pub open spec fn shifted<A>(a: (Result<A, ParseError>, int), b: (Result<A, ParseError>, int), len: int) -> bool {
    (a.0 is Ok || a.1 < len) ==> b.0 == a.0 && b.1 == a.1 + 1
}

pub open spec fn within<A>(a: (Result<A, ParseError>, int), p: int, len: int) -> bool {
    p <= a.1 <= len
}

proof fn lemma_wrapped_index(t: Seq<Lexeme>)
    ensures
        wrapped(t).len() == t.len() + 2,
        wrapped(t)[t.len() + 1int] == Lexeme::RParen,
        forall|i: int| 0 <= i < t.len() ==> wrapped(t)[i + 1] == #[trigger] t[i],
        forall|i: int| 0 <= i < t.len() ==> op_at(wrapped(t), i + 1) == #[trigger] op_at(t, i),
        op_at(wrapped(t), t.len() + 1int) is None,
        op_at(t, t.len() as int) is None,
{
    assert forall|i: int| 0 <= i < t.len() implies wrapped(t)[i + 1] == #[trigger] t[i] by {}
    assert forall|i: int| 0 <= i < t.len() implies op_at(wrapped(t), i + 1) == #[trigger] op_at(t, i) by {
        assert(wrapped(t)[i + 1] == t[i]);
    }
}

proof fn lemma_unary_shift(t: Seq<Lexeme>, p: int)
    requires
        0 <= p <= t.len(),
    ensures
        within(unary_spec(t, p), p, t.len() as int),
        unary_spec(t, p).0 is Ok ==> unary_spec(t, p).1 > p,
        shifted(unary_spec(t, p), unary_spec(wrapped(t), p + 1), t.len() as int),
    decreases t.len() - p, 0int,
{
    lemma_wrapped_index(t);
    if p < t.len() {
        match t[p] {
            Lexeme::Plus | Lexeme::Minus => lemma_unary_shift(t, p + 1),
            Lexeme::LParen => lemma_expr_shift(t, p + 1),
            Lexeme::VarLit(_) => if p + 1 < t.len() && t[p + 1] is LParen {
                lemma_args_shift(t, p + 2, seq![]);
            },
            _ => {},
        }
    }
}

proof fn lemma_expr_shift(t: Seq<Lexeme>, p: int)
    requires
        0 <= p <= t.len(),
    ensures
        within(expr_spec(t, p), p, t.len() as int),
        expr_spec(t, p).0 is Ok ==> expr_spec(t, p).1 > p,
        shifted(expr_spec(t, p), expr_spec(wrapped(t), p + 1), t.len() as int),
    decreases t.len() - p, 3int,
{
    lemma_unary_shift(t, p);
    let (r, q) = unary_spec(t, p);
    if r is Ok {
        lemma_climb_shift(t, q, r->Ok_0, Precedence::Any);
    }
}

proof fn lemma_climb_shift(t: Seq<Lexeme>, p: int, lhs: Ast, base: Precedence)
    requires
        0 <= p <= t.len(),
    ensures
        within(climb_spec(t, p, lhs, base), p, t.len() as int),
        climbs(t, p, base) ==> climb_spec(t, p, lhs, base).1 > p,
        shifted(climb_spec(t, p, lhs, base), climb_spec(wrapped(t), p + 1, lhs, base), t.len() as int),
    decreases t.len() - p, 1int,
{
    lemma_wrapped_index(t);
    if climbs(t, p, base) {
        lemma_step_shift(t, p, lhs, base);
    }
}

proof fn lemma_step_shift(t: Seq<Lexeme>, p: int, lhs: Ast, base: Precedence)
    requires
        0 <= p < t.len(),
        op_at(t, p) is Some,
    ensures
        within(step_spec(t, p, lhs, base), p + 1, t.len() as int),
        shifted(step_spec(t, p, lhs, base), step_spec(wrapped(t), p + 1, lhs, base), t.len() as int),
    decreases t.len() - p, 0int,
{
    lemma_wrapped_index(t);
    lemma_unary_shift(t, p + 1);
    let op = op_at(t, p)->0;
    let (r, q) = unary_spec(t, p + 1);
    if r is Ok {
        lemma_absorb_shift(t, q, lhs, op, r->Ok_0, base);
    }
}

proof fn lemma_absorb_shift(
    t: Seq<Lexeme>,
    p: int,
    lhs: Ast,
    op: BinaryOp,
    rhs: Ast,
    base: Precedence,
)
    requires
        0 <= p <= t.len(),
    ensures
        within(absorb_spec(t, p, lhs, op, rhs, base), p, t.len() as int),
        shifted(
            absorb_spec(t, p, lhs, op, rhs, base),
            absorb_spec(wrapped(t), p + 1, lhs, op, rhs, base),
            t.len() as int,
        ),
    decreases t.len() - p, 2int,
{
    lemma_wrapped_index(t);
    if op_at(t, p) is Some && (level(precedence_of(op_at(t, p)->0)) > level(precedence_of(op)) || (
    level(precedence_of(op_at(t, p)->0)) == level(precedence_of(op)) && right_assoc(op))) {
        let next = precedence_of(op_at(t, p)->0);
        lemma_step_shift(t, p, rhs, next);
        let (r, q) = step_spec(t, p, rhs, next);
        if r is Ok {
            lemma_absorb_shift(t, q, lhs, op, r->Ok_0, base);
        }
    } else {
        lemma_climb_shift(t, p, Ast::Binary(Box::new(lhs), op, Box::new(rhs)), base);
    }
}

proof fn lemma_args_shift(t: Seq<Lexeme>, p: int, acc: Seq<Ast>)
    requires
        0 <= p <= t.len(),
    ensures
        within(args_spec(t, p, acc), p, t.len() as int),
        shifted(args_spec(t, p, acc), args_spec(wrapped(t), p + 1, acc), t.len() as int),
    decreases t.len() - p, 4int,
{
    lemma_wrapped_index(t);
    lemma_expr_shift(t, p);
    let (r, q) = expr_spec(t, p);
    if r is Ok && q < t.len() && t[q] is Comma {
        lemma_args_shift(t, q + 1, acc.push(r->Ok_0));
    }
}

/// An expression that spans the whole of `t` parses, between parentheses, to
/// the same tree under a grouping node.
pub proof fn lemma_grouping_tokens(t: Seq<Lexeme>)
    requires
        expr_spec(t, 0).0 is Ok,
        expr_spec(t, 0).1 == t.len(),
    ensures
        expr_spec(wrapped(t), 0) == (
            Ok::<Ast, ParseError>(Ast::Paren(Box::new(expr_spec(t, 0).0->Ok_0))),
            t.len() + 2int,
        ),
{
    lemma_wrapped_index(t);
    lemma_expr_shift(t, 0);
    let u = wrapped(t);
    assert(u[0] == Lexeme::LParen);
    assert(unary_spec(u, 0) == (
        Ok::<Ast, ParseError>(Ast::Paren(Box::new(expr_spec(t, 0).0->Ok_0))),
        t.len() + 2int,
    ));
    assert(climb_spec(u, t.len() + 2int, Ast::Paren(Box::new(expr_spec(t, 0).0->Ok_0)), Precedence::Any).1
        == t.len() + 2);
}

/// The text `s` between a pair of parentheses.
pub open spec fn parenthesized(s: Seq<char>) -> Seq<char> {
    seq!['('] + s + seq![')']
}

proof fn lemma_runs_shift(s: Seq<char>, k: int)
    requires
        0 <= k <= s.len(),
    ensures
        digit_run(parenthesized(s), k + 1) == digit_run(s, k) + 1,
        ident_run(parenthesized(s), k + 1) == ident_run(s, k) + 1,
    decreases s.len() - k,
{
    let w = parenthesized(s);
    if k < s.len() {
        assert(w[k + 1] == s[k]);
        lemma_runs_shift(s, k + 1);
    } else {
        assert(w[k + 1] == ')');
    }
}

proof fn lemma_lex_shift(s: Seq<char>, i: int)
    requires
        0 <= i <= s.len(),
    ensures
        lex(parenthesized(s), i + 1) == match lex(s, i) {
            Some(ts) => Some(ts + seq![Lexeme::RParen]),
            None => None,
        },
    decreases s.len() - i,
{
    let w = parenthesized(s);
    lemma_runs_advance(s, i + 1);
    if i == s.len() {
        assert(w[i + 1] == ')');
        assert(lex(w, i + 2) == Some(Seq::<Lexeme>::empty()));
        assert(seq![Lexeme::RParen] + Seq::<Lexeme>::empty() =~= Seq::<Lexeme>::empty() + seq![Lexeme::RParen]);
    } else {
        assert(w[i + 1] == s[i]);
        if i + 1 < s.len() {
            assert(w[i + 2] == s[i + 1]);
        } else {
            assert(w[i + 2] == ')');
        }
        let c = s[i];
        if is_digit(c) {
            let j = digit_run(s, i + 1);
            lemma_runs_shift(s, i + 1);
            lemma_lex_shift(s, j);
            assert(w.subrange(i + 1, j + 1) =~= s.subrange(i, j));
        } else if c == '*' && i + 1 < s.len() && s[i + 1] == '*' {
            lemma_lex_shift(s, i + 2);
        } else if c == '*' || symbol(c) is Some || is_space(c) {
            lemma_lex_shift(s, i + 1);
        } else if xid_start(c) {
            let j = ident_run(s, i + 1);
            lemma_runs_shift(s, i + 1);
            lemma_lex_shift(s, j);
            assert(w.subrange(i + 1, j + 1) =~= s.subrange(i, j));
        }
    }
}

/// Grouping is transparent in text: where `s` parses to a tree, `(s)` parses to
/// that tree under a grouping node, and evaluating it gives what evaluating `s`
/// gives, value, error and variables alike.
pub proof fn lemma_grouping_text(s: Seq<char>, vars: Map<Seq<char>, int>, funcs: Map<Seq<char>, ()>)
    requires
        parse_text(s) is Ok,
    ensures
        parse_text(parenthesized(s)) == Ok::<Ast, ParseError>(
            Ast::Paren(Box::new(parse_text(s)->Ok_0)),
        ),
        eval_spec(parse_text(parenthesized(s))->Ok_0, vars, funcs) == eval_spec(
            parse_text(s)->Ok_0,
            vars,
            funcs,
        ),
{
    let t = lex(s, 0)->0;
    lemma_lex_shift(s, 0);
    let w = parenthesized(s);
    assert(w[0] == '(');
    assert(lex(w, 0) == Some(wrapped(t))) by {
        assert(seq![Lexeme::LParen] + (t + seq![Lexeme::RParen]) =~= wrapped(t));
    }
    lemma_grouping_tokens(t);
    lemma_grouping_transparent(parse_text(s)->Ok_0, vars, funcs);
}

} // verus!
