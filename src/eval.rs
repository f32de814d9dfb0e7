use crate::bigint::{trunc_div, trunc_rem, BigInteger, big_add, big_sub, big_mul, big_div, big_rem, big_neg, big_pow, big_is_zero, big_is_negative};
use crate::bigint::{digits_value, is_digit_run};
use crate::expr::{climb_spec, literal, model, unary_spec, Ast, BinaryOp, Expr, Precedence, UnaryOp};
use crate::parse::{parse_text, ParseError};
use crate::token::{lemma_digit_run_to_end, lex, Lexeme};
use vstd::arithmetic::power::pow;
use vstd::prelude::*;
use vstd::string::*;

verus! {

broadcast use vstd::std_specs::vec::axiom_vec_index_decreases, vstd::std_specs::vec::axiom_vec_decreases_to_view, vstd::seq::axiom_seq_index_decreases;

/// Why an expression could not be evaluated.
#[derive(Debug, Clone, Copy, PartialEq, Eq, Structural)]
pub enum EvalError {
    DevideByZero,
    NegativePower,
    Unimplemented,
    InvalidArgumentLength,
    UndefinedVariable,
    UndefinedFunction,
    UnableToAssign,
}

impl EvalError {
    /// A short description for the user.
    pub fn message(&self) -> (r: &'static str) {
        match self {
            EvalError::DevideByZero => "devide by zero",
            EvalError::NegativePower => "negative power",
            EvalError::Unimplemented => "unimplemented",
            EvalError::InvalidArgumentLength => "invalid argument length",
            EvalError::UndefinedVariable => "undefined variable",
            EvalError::UndefinedFunction => "undefined function",
            EvalError::UnableToAssign => "unable to assign",
        }
    }
}

pub type EvalResult<T> = Result<T, EvalError>;

/// A user function; no syntax defines one yet.
pub type Function = ();

/// Bindings from name to value, where a later entry of a name overrides an earlier one.
pub open spec fn bindings<V: View>(s: Seq<(String, V)>) -> Map<Seq<char>, V::V>
    decreases s.len(),
{
    if s.len() == 0 {
        Map::empty()
    } else {
        bindings(s.drop_last()).insert(s.last().0@, s.last().1@)
    }
}

proof fn lemma_bindings_absent<V: View>(s: Seq<(String, V)>, k: Seq<char>)
    requires
        forall|j: int| 0 <= j < s.len() ==> #[trigger] s[j].0@ != k,
    ensures
        !bindings(s).contains_key(k),
    decreases s.len(),
{
    if s.len() > 0 {
        lemma_bindings_absent(s.drop_last(), k);
    }
}

proof fn lemma_bindings_last<V: View>(s: Seq<(String, V)>, i: int)
    requires
        0 <= i < s.len(),
        forall|j: int| i < j < s.len() ==> #[trigger] s[j].0@ != s[i].0@,
    ensures
        bindings(s).contains_key(s[i].0@),
        bindings(s)[s[i].0@] == s[i].1@,
    decreases s.len(),
{
    if i < s.len() - 1 {
        lemma_bindings_last(s.drop_last(), i);
    }
}

proof fn lemma_bindings_update<V: View>(s: Seq<(String, V)>, i: int, e: (String, V))
    requires
        0 <= i < s.len(),
        e.0@ == s[i].0@,
        forall|j: int| i < j < s.len() ==> #[trigger] s[j].0@ != s[i].0@,
    ensures
        bindings(s.update(i, e)) == bindings(s).insert(e.0@, e.1@),
    decreases s.len(),
{
    if i == s.len() - 1 {
        assert(s.update(i, e).drop_last() =~= s.drop_last());
        assert(bindings(s.update(i, e)) =~= bindings(s).insert(e.0@, e.1@));
    } else {
        assert(s.update(i, e).drop_last() =~= s.drop_last().update(i, e));
        lemma_bindings_update(s.drop_last(), i, e);
        assert(bindings(s.update(i, e)) =~= bindings(s).insert(e.0@, e.1@));
    }
}

/// The variables and functions of one session.
#[derive(Debug)]
pub struct Environment {
    variables: Vec<(String, BigInteger)>,
    functions: Vec<(String, Function)>,
}

impl Default for Environment {
    fn default() -> (r: Self)
        ensures
            r.vars() == Map::<Seq<char>, int>::empty(),
            r.funcs() == Map::<Seq<char>, ()>::empty(),
    {
        Environment { variables: Vec::new(), functions: Vec::new() }
    }
}

impl Environment {
    /// The value of each variable.
    pub closed spec fn vars(&self) -> Map<Seq<char>, int> {
        bindings(self.variables@)
    }

    /// The function bound to each name.
    pub closed spec fn funcs(&self) -> Map<Seq<char>, ()> {
        bindings(self.functions@)
    }

    /// Where the last binding of `key` stands, if there is one.
    fn find_variable(&self, key: &String) -> (r: Option<usize>)
        ensures
            r is None ==> forall|j: int|
                0 <= j < self.variables@.len() ==> #[trigger] self.variables@[j].0@ != key@,
            r matches Some(i) ==> i < self.variables@.len() && self.variables@[i as int].0@
                == key@ && forall|j: int|
                i < j < self.variables@.len() ==> #[trigger] self.variables@[j].0@ != key@,
    {
        let mut i: usize = self.variables.len();
        while i > 0
            invariant
                i <= self.variables@.len(),
                forall|j: int|
                    i <= j < self.variables@.len() ==> #[trigger] self.variables@[j].0@ != key@,
            decreases i,
        {
            if self.variables[i - 1].0 == *key {
                return Some(i - 1);
            }
            i -= 1;
        }
        None
    }

    /// The value of the variable `ident`.
    pub fn get_variable(&self, ident: &str) -> (r: EvalResult<&BigInteger>)
        ensures
            r is Ok <==> self.vars().contains_key(ident@),
            r matches Ok(v) ==> v@ == self.vars()[ident@],
            r matches Err(e) ==> e == EvalError::UndefinedVariable,
    {
        let key = ident.to_owned();
        match self.find_variable(&key) {
            Some(i) => {
                proof {
                    lemma_bindings_last(self.variables@, i as int);
                }
                Ok(&self.variables[i].1)
            },
            None => {
                proof {
                    lemma_bindings_absent(self.variables@, ident@);
                }
                Err(EvalError::UndefinedVariable)
            },
        }
    }

    /// Binds `ident` to `expr`, replacing any earlier value.
    pub fn set_variable(&mut self, ident: String, expr: BigInteger)
        ensures
            final(self).vars() == old(self).vars().insert(ident@, expr@),
            final(self).funcs() == old(self).funcs(),
    {
        match self.find_variable(&ident) {
            Some(i) => {
                proof {
                    lemma_bindings_update(self.variables@, i as int, (ident, expr));
                }
                self.variables.set(i, (ident, expr));
            },
            None => {
                let ghost before = self.variables@;
                self.variables.push((ident, expr));
                assert(self.variables@.drop_last() =~= before);
            },
        }
    }

    /// The user function named `ident`.
    pub fn call(&self, ident: &str, _args: Vec<Expr>) -> (r: EvalResult<&Function>)
        ensures
            r is Ok <==> self.funcs().contains_key(ident@),
            r matches Err(e) ==> e == EvalError::UndefinedFunction,
    {
        let key = ident.to_owned();
        let mut i: usize = self.functions.len();
        while i > 0
            invariant
                i <= self.functions@.len(),
                key@ == ident@,
                forall|j: int|
                    i <= j < self.functions@.len() ==> #[trigger] self.functions@[j].0@ != key@,
            decreases i,
        {
            if self.functions[i - 1].0 == key {
                proof {
                    lemma_bindings_last(self.functions@, i - 1);
                }
                return Ok(&self.functions[i - 1].1);
            }
            i -= 1;
        }
        proof {
            lemma_bindings_absent(self.functions@, ident@);
        }
        Err(EvalError::UndefinedFunction)
    }
}

/// The name of the built-in power function.
pub open spec fn pow_name() -> Seq<char> {
    seq!['p', 'o', 'w']
}

/// `a` to the power `b`; a negative exponent is refused.
pub open spec fn power(a: int, b: int) -> EvalResult<int> {
    if b < 0 {
        Err(EvalError::NegativePower)
    } else {
        Ok(pow(a, b as nat))
    }
}

/// The value of `a op b` for an arithmetic operator.
pub open spec fn arith(op: BinaryOp, a: int, b: int) -> EvalResult<int> {
    match op {
        BinaryOp::Add => Ok(a + b),
        BinaryOp::Sub => Ok(a - b),
        BinaryOp::Mul => Ok(a * b),
        BinaryOp::Div => if b == 0 {
            Err(EvalError::DevideByZero)
        } else {
            Ok(trunc_div(a, b))
        },
        BinaryOp::Rem => if b == 0 {
            Err(EvalError::DevideByZero)
        } else {
            Ok(trunc_rem(a, b))
        },
        BinaryOp::Pow => power(a, b),
        BinaryOp::Assign => Err(EvalError::Unimplemented),
    }
}

/// Evaluation of a tree against the variables `vars` and the functions `funcs`:
/// the value or the error, and the variables afterwards.
pub open spec fn eval_spec(e: Ast, vars: Map<Seq<char>, int>, funcs: Map<Seq<char>, ()>) -> (
    EvalResult<int>,
    Map<Seq<char>, int>,
)
    decreases e,
{
    match e {
        Ast::Int(n) => (Ok(n), vars),
        Ast::Binary(l, op, r) => if op == BinaryOp::Assign {
            let (rv, vars1) = eval_spec(*r, vars, funcs);
            match rv {
                Err(x) => (Err(x), vars1),
                Ok(v) => match *l {
                    Ast::Variable(name) => (Ok(v), vars1.insert(name, v)),
                    _ => (Err(EvalError::UnableToAssign), vars1),
                },
            }
        } else {
            let (lv, vars1) = eval_spec(*l, vars, funcs);
            match lv {
                Err(x) => (Err(x), vars1),
                Ok(a) => {
                    let (rv, vars2) = eval_spec(*r, vars1, funcs);
                    match rv {
                        Err(x) => (Err(x), vars2),
                        Ok(b) => (arith(op, a, b), vars2),
                    }
                },
            }
        },
        Ast::Unary(op, x) => {
            let (v, vars1) = eval_spec(*x, vars, funcs);
            match v {
                Ok(a) => (Ok(if op == UnaryOp::Minus { -a } else { a }), vars1),
                Err(x) => (Err(x), vars1),
            }
        },
        Ast::Paren(x) => eval_spec(*x, vars, funcs),
        Ast::Variable(name) => if vars.contains_key(name) {
            (Ok(vars[name]), vars)
        } else {
            (Err(EvalError::UndefinedVariable), vars)
        },
        Ast::Call(name, args) => if name == pow_name() {
            if args.len() == 2 {
                let (av, vars1) = eval_spec(args[0], vars, funcs);
                match av {
                    Err(x) => (Err(x), vars1),
                    Ok(a) => {
                        let (bv, vars2) = eval_spec(args[1], vars1, funcs);
                        match bv {
                            Err(x) => (Err(x), vars2),
                            Ok(b) => (power(a, b), vars2),
                        }
                    },
                }
            } else {
                (Err(EvalError::InvalidArgumentLength), vars)
            }
        } else if funcs.contains_key(name) {
            (Err(EvalError::Unimplemented), vars)
        } else {
            (Err(EvalError::UndefinedFunction), vars)
        },
    }
}

pub open spec fn value_of(r: EvalResult<BigInteger>) -> EvalResult<int> {
    match r {
        Ok(v) => Ok(v@),
        Err(e) => Err(e),
    }
}

/// `a` to the power `b`, or `NegativePower` for a negative `b`.
fn checked_pow(a: &BigInteger, b: &BigInteger) -> (r: EvalResult<BigInteger>)
    ensures
        value_of(r) == power(a@, b@),
{
    if big_is_negative(b) {
        Err(EvalError::NegativePower)
    } else {
        Ok(big_pow(a, b))
    }
}

/// Applies an arithmetic operator to two values.
fn apply(op: BinaryOp, a: &BigInteger, b: &BigInteger) -> (r: EvalResult<BigInteger>)
    ensures
        value_of(r) == arith(op, a@, b@),
{
    match op {
        BinaryOp::Add => Ok(big_add(a, b)),
        BinaryOp::Sub => Ok(big_sub(a, b)),
        BinaryOp::Mul => Ok(big_mul(a, b)),
        BinaryOp::Div => if big_is_zero(b) {
            Err(EvalError::DevideByZero)
        } else {
            Ok(big_div(a, b))
        },
        BinaryOp::Rem => if big_is_zero(b) {
            Err(EvalError::DevideByZero)
        } else {
            Ok(big_rem(a, b))
        },
        BinaryOp::Pow => checked_pow(a, b),
        BinaryOp::Assign => Err(EvalError::Unimplemented),
    }
}

impl Expr {
    /// Evaluates the tree, binding variables in `env` on assignment.
    pub fn eval(self, env: &mut Environment) -> (r: EvalResult<BigInteger>)
        ensures
            (value_of(r), final(env).vars()) == eval_spec(self@, old(env).vars(), old(env).funcs()),
            final(env).funcs() == old(env).funcs(),
        decreases self,
    {
        let ghost e = self@;
        match self {
            Expr::Int(n) => Ok(n),
            Expr::Binary(lhs, BinaryOp::Assign, rhs) => {
                let r = (*rhs).eval(env)?;
                proof {
                    reveal_with_fuel(model, 2);
                }
                match *lhs {
                    Expr::Variable(ident) => {
                        env.set_variable(ident, r.duplicate());
                        Ok(r)
                    },
                    _ => Err(EvalError::UnableToAssign),
                }
            },
            Expr::Binary(lhs, op, rhs) => {
                let l = (*lhs).eval(env)?;
                let r = (*rhs).eval(env)?;
                apply(op, &l, &r)
            },
            Expr::Unary(op, x) => {
                let v = (*x).eval(env)?;
                match op {
                    UnaryOp::Plus => Ok(v),
                    UnaryOp::Minus => Ok(big_neg(&v)),
                }
            },
            Expr::Paren(x) => (*x).eval(env),
            Expr::Variable(ident) => {
                let v = env.get_variable(ident.as_str())?;
                Ok(v.duplicate())
            },
            Expr::Call(s, mut args) => {
                let pow_text = String::from_str("pow");
                proof {
                    reveal_strlit("pow");
                    assert(pow_text@ =~= pow_name());
                }
                if s == pow_text {
                    if args.len() == 2 {
                        let ghost whole = args@;
                        let first = args.remove(0);
                        let second = args.remove(0);
                        assert(first == whole[0] && second == whole[1]);
                        assert(e->Call_1[0] == first@);
                        assert(e->Call_1[1] == second@);
                        let a = first.eval(env)?;
                        let b = second.eval(env)?;
                        checked_pow(&a, &b)
                    } else {
                        Err(EvalError::InvalidArgumentLength)
                    }
                } else {
                    let _ = env.call(s.as_str(), args)?;
                    Err(EvalError::Unimplemented)
                }
            },
        }
    }
}

/// Grouping is transparent: evaluating `(e)` gives what evaluating `e` gives,
/// value, error and variables alike.
pub proof fn lemma_grouping_transparent(
    e: Ast,
    vars: Map<Seq<char>, int>,
    funcs: Map<Seq<char>, ()>,
)
    ensures
        eval_spec(Ast::Paren(Box::new(e)), vars, funcs) == eval_spec(e, vars, funcs),
{
}

/// A run of decimal digits, however long, parses to the literal of exactly the
/// number it spells, and evaluates to that number without touching the variables.
pub proof fn lemma_literal_round_trip(
    s: Seq<char>,
    vars: Map<Seq<char>, int>,
    funcs: Map<Seq<char>, ()>,
)
    requires
        is_digit_run(s),
    ensures
        parse_text(s) == Ok::<Ast, ParseError>(Ast::Int(digits_value(s))),
        eval_spec(Ast::Int(digits_value(s)), vars, funcs) == (
            Ok::<int, EvalError>(digits_value(s)),
            vars,
        ),
{
    lemma_digit_run_to_end(s, 1);
    assert(s.subrange(0, s.len() as int) =~= s);
    let t = seq![Lexeme::NumLit(s)];
    assert(lex(s, 0) == Some(t)) by {
        assert(lex(s, s.len() as int) == Some(Seq::<Lexeme>::empty()));
        assert(t + Seq::<Lexeme>::empty() =~= t);
    }
    assert(unary_spec(t, 0) == (literal(s), 1int));
    assert(climb_spec(t, 1, Ast::Int(digits_value(s)), Precedence::Any) == (
        Ok::<Ast, ParseError>(Ast::Int(digits_value(s))),
        1int,
    ));
}

} // verus!
