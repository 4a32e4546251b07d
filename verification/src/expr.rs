//! Expressions of the scenario language and their parser.
//!
//! Precedence, loosest first: `or`, `and`, `not`, one comparison, `+ -`, `* /`.
//! The parser never fails: a missing operand reads as `false`, a missing `)` is
//! tolerated, and tokens left over after the expression are ignored.
use vstd::prelude::*;
use crate::lexer::{Op, Token, TokenV, tokens_view};
use crate::state::{Value, ValueV};

verus! {

/// A binary operator.
#[derive(Debug, Clone, Copy, PartialEq, Eq, Structural)]
pub enum BinOp {
    Eq,
    Ne,
    Lt,
    Gt,
    Le,
    Ge,
    And,
    Or,
    Add,
    Sub,
    Mul,
    Div,
}

/// An expression.
#[derive(Debug)]
pub enum Expr {
    /// A number literal, by its text.
    Num(String),
    Lit(Value),
    Var(String),
    ResultVar,
    Bin(Box<Expr>, BinOp, Box<Expr>),
    Not(Box<Expr>),
}

/// The model of an expression.
pub enum ExprV {
    Num(Seq<char>),
    Lit(ValueV),
    Var(Seq<char>),
    ResultVar,
    Bin(Box<ExprV>, BinOp, Box<ExprV>),
    Not(Box<ExprV>),
}

/// The model of an expression.
pub open spec fn ev(e: Expr) -> ExprV
    decreases e,
{
    match e {
        Expr::Num(s) => ExprV::Num(s@),
        Expr::Lit(v) => ExprV::Lit(v@),
        Expr::Var(s) => ExprV::Var(s@),
        Expr::ResultVar => ExprV::ResultVar,
        Expr::Bin(l, op, r) => ExprV::Bin(Box::new(ev(*l)), op, Box::new(ev(*r))),
        Expr::Not(x) => ExprV::Not(Box::new(ev(*x))),
    }
}

/// The token at `p`, if any.
pub open spec fn tok_at(t: Seq<TokenV>, p: int) -> Option<TokenV> {
    if 0 <= p < t.len() {
        Some(t[p])
    } else {
        None
    }
}

/// The comparison operator that a token is, if any.
pub open spec fn comparison_op(t: Option<TokenV>) -> Option<BinOp> {
    match t {
        Some(TokenV::Op(Op::Eq)) => Some(BinOp::Eq),
        Some(TokenV::Op(Op::Ne)) => Some(BinOp::Ne),
        Some(TokenV::Op(Op::Lt)) => Some(BinOp::Lt),
        Some(TokenV::Op(Op::Gt)) => Some(BinOp::Gt),
        Some(TokenV::Op(Op::Le)) => Some(BinOp::Le),
        Some(TokenV::Op(Op::Ge)) => Some(BinOp::Ge),
        _ => None,
    }
}

/// The additive operator that a token is, if any.
pub open spec fn additive_op(t: Option<TokenV>) -> Option<BinOp> {
    match t {
        Some(TokenV::Op(Op::Add)) => Some(BinOp::Add),
        Some(TokenV::Op(Op::Sub)) => Some(BinOp::Sub),
        _ => None,
    }
}

/// The multiplicative operator that a token is, if any.
pub open spec fn multiplicative_op(t: Option<TokenV>) -> Option<BinOp> {
    match t {
        Some(TokenV::Op(Op::Mul)) => Some(BinOp::Mul),
        Some(TokenV::Op(Op::Div)) => Some(BinOp::Div),
        _ => None,
    }
}

/// A position that a parse may go on from.
pub open spec fn in_range(t: Seq<TokenV>, q: int) -> bool {
    q <= t.len() + 1
}

/// A primary expression at `p`: a literal, a name, `$result`, or a parenthesised
/// expression; any other token, or the end, reads as `false`. Gives the expression
/// and the position after it.
pub open spec fn parse_primary(t: Seq<TokenV>, p: int) -> (ExprV, int)
    decreases t.len() + 2 - p, 0int,
{
    match tok_at(t, p) {
        Some(TokenV::Number(s)) => (ExprV::Num(s), p + 1),
        Some(TokenV::StringLit(s)) => (ExprV::Lit(ValueV::Str(s)), p + 1),
        Some(TokenV::Bool(b)) => (ExprV::Lit(ValueV::Bool(b)), p + 1),
        Some(TokenV::Ident(n)) => (ExprV::Var(n), p + 1),
        Some(TokenV::ResultVar) => (ExprV::ResultVar, p + 1),
        Some(TokenV::LParen) => {
            let (e, q) = parse_expr(t, p + 1);
            if tok_at(t, q) == Some(TokenV::RParen) {
                (e, q + 1)
            } else {
                (e, q)
            }
        },
        _ => (ExprV::Lit(ValueV::Bool(false)), p + 1),
    }
}

/// Further `*` and `/` operands after `left`, which ends at `q`.
pub open spec fn parse_mul_rest(t: Seq<TokenV>, left: ExprV, q: int) -> (ExprV, int)
    decreases t.len() + 2 - q, 0int,
{
    match multiplicative_op(tok_at(t, q)) {
        Some(op) => {
            let (r, q2) = parse_primary(t, q + 1);
            let e = ExprV::Bin(Box::new(left), op, Box::new(r));
            if q < q2 && in_range(t, q2) {
                parse_mul_rest(t, e, q2)
            } else {
                (e, q2)
            }
        },
        None => (left, q),
    }
}

/// A product at `p`.
pub open spec fn parse_mul(t: Seq<TokenV>, p: int) -> (ExprV, int)
    decreases t.len() + 2 - p, 1int,
{
    let (l, q) = parse_primary(t, p);
    if p <= q && in_range(t, q) {
        parse_mul_rest(t, l, q)
    } else {
        (l, q)
    }
}

/// Further `+` and `-` operands after `left`, which ends at `q`.
pub open spec fn parse_add_rest(t: Seq<TokenV>, left: ExprV, q: int) -> (ExprV, int)
    decreases t.len() + 2 - q, 0int,
{
    match additive_op(tok_at(t, q)) {
        Some(op) => {
            let (r, q2) = parse_mul(t, q + 1);
            let e = ExprV::Bin(Box::new(left), op, Box::new(r));
            if q < q2 && in_range(t, q2) {
                parse_add_rest(t, e, q2)
            } else {
                (e, q2)
            }
        },
        None => (left, q),
    }
}

/// A sum at `p`.
pub open spec fn parse_add(t: Seq<TokenV>, p: int) -> (ExprV, int)
    decreases t.len() + 2 - p, 2int,
{
    let (l, q) = parse_mul(t, p);
    if p <= q && in_range(t, q) {
        parse_add_rest(t, l, q)
    } else {
        (l, q)
    }
}

/// A sum, optionally compared with one more sum.
pub open spec fn parse_comparison(t: Seq<TokenV>, p: int) -> (ExprV, int)
    decreases t.len() + 2 - p, 3int,
{
    let (l, q) = parse_add(t, p);
    match comparison_op(tok_at(t, q)) {
        Some(op) => if p <= q {
            let (r, q2) = parse_add(t, q + 1);
            (ExprV::Bin(Box::new(l), op, Box::new(r)), q2)
        } else {
            (l, q)
        },
        None => (l, q),
    }
}

/// An optional `not` before a comparison.
pub open spec fn parse_not(t: Seq<TokenV>, p: int) -> (ExprV, int)
    decreases t.len() + 2 - p, 4int,
{
    if tok_at(t, p) == Some(TokenV::Op(Op::Not)) {
        let (e, q) = parse_comparison(t, p + 1);
        (ExprV::Not(Box::new(e)), q)
    } else {
        parse_comparison(t, p)
    }
}

/// Further `and` operands after `left`, which ends at `q`.
pub open spec fn parse_and_rest(t: Seq<TokenV>, left: ExprV, q: int) -> (ExprV, int)
    decreases t.len() + 2 - q, 0int,
{
    if tok_at(t, q) == Some(TokenV::Op(Op::And)) {
        let (r, q2) = parse_not(t, q + 1);
        let e = ExprV::Bin(Box::new(left), BinOp::And, Box::new(r));
        if q < q2 && in_range(t, q2) {
            parse_and_rest(t, e, q2)
        } else {
            (e, q2)
        }
    } else {
        (left, q)
    }
}

/// A conjunction at `p`.
pub open spec fn parse_and(t: Seq<TokenV>, p: int) -> (ExprV, int)
    decreases t.len() + 2 - p, 5int,
{
    let (l, q) = parse_not(t, p);
    if p <= q && in_range(t, q) {
        parse_and_rest(t, l, q)
    } else {
        (l, q)
    }
}

/// Further `or` operands after `left`, which ends at `q`.
pub open spec fn parse_or_rest(t: Seq<TokenV>, left: ExprV, q: int) -> (ExprV, int)
    decreases t.len() + 2 - q, 0int,
{
    if tok_at(t, q) == Some(TokenV::Op(Op::Or)) {
        let (r, q2) = parse_and(t, q + 1);
        let e = ExprV::Bin(Box::new(left), BinOp::Or, Box::new(r));
        if q < q2 && in_range(t, q2) {
            parse_or_rest(t, e, q2)
        } else {
            (e, q2)
        }
    } else {
        (left, q)
    }
}

/// A disjunction at `p`.
pub open spec fn parse_or(t: Seq<TokenV>, p: int) -> (ExprV, int)
    decreases t.len() + 2 - p, 6int,
{
    let (l, q) = parse_and(t, p);
    if p <= q && in_range(t, q) {
        parse_or_rest(t, l, q)
    } else {
        (l, q)
    }
}

/// An expression at `p`.
pub open spec fn parse_expr(t: Seq<TokenV>, p: int) -> (ExprV, int)
    decreases t.len() + 2 - p, 7int,
{
    parse_or(t, p)
}

/// The expression that a token list reads as.
pub open spec fn parse_tokens(t: Seq<TokenV>) -> ExprV {
    parse_expr(t, 0).0
}

} // verus!

verus! {

/// The token at `p`, if any.
fn token_at(t: &Vec<Token>, p: usize) -> (r: Option<&Token>)
    ensures
        match r {
            Some(tok) => tok_at(tokens_view(t@), p as int) == Some(tok@),
            None => tok_at(tokens_view(t@), p as int).is_none(),
        },
{
    if p < t.len() {
        Some(&t[p])
    } else {
        None
    }
}

/// Whether the token at `p` is the operator `o`.
fn op_at(t: &Vec<Token>, p: usize, o: Op) -> (b: bool)
    ensures
        b == (tok_at(tokens_view(t@), p as int) == Some(TokenV::Op(o))),
{
    match token_at(t, p) {
        Some(Token::Op(x)) => *x == o,
        _ => false,
    }
}

/// Whether a position is within one past the end.
fn position_in_range(t: &Vec<Token>, q: usize) -> (b: bool)
    ensures
        b == in_range(tokens_view(t@), q as int),
{
    let n = t.len();
    q <= n || q - n == 1
}

fn exec_primary(t: &Vec<Token>, p: usize) -> (r: (Expr, usize))
    requires
        p <= t@.len(),
        t@.len() < usize::MAX,
    ensures
        (ev(r.0), r.1 as int) == parse_primary(tokens_view(t@), p as int),
    decreases t@.len() + 2 - p, 0int,
{
    let ghost tv = tokens_view(t@);
    match token_at(t, p) {
        Some(Token::Number(s)) => (Expr::Num(s.clone()), p + 1),
        Some(Token::StringLit(s)) => (Expr::Lit(Value::Str(s.clone())), p + 1),
        Some(Token::Bool(b)) => (Expr::Lit(Value::Bool(*b)), p + 1),
        Some(Token::Ident(n)) => (Expr::Var(n.clone()), p + 1),
        Some(Token::ResultVar) => (Expr::ResultVar, p + 1),
        Some(Token::LParen) => {
            let (e, q) = exec_expr(t, p + 1);
            match token_at(t, q) {
                Some(Token::RParen) => (e, q + 1),
                _ => (e, q),
            }
        },
        _ => (Expr::Lit(Value::Bool(false)), p + 1),
    }
}

fn exec_mul_rest(t: &Vec<Token>, left: Expr, q: usize) -> (r: (Expr, usize))
    requires
        in_range(tokens_view(t@), q as int),
        t@.len() < usize::MAX,
    ensures
        (ev(r.0), r.1 as int) == parse_mul_rest(tokens_view(t@), ev(left), q as int),
    decreases t@.len() + 2 - q, 0int,
{
    let op = match token_at(t, q) {
        Some(Token::Op(Op::Mul)) => BinOp::Mul,
        Some(Token::Op(Op::Div)) => BinOp::Div,
        _ => {
            return (left, q);
        },
    };
    let (r, q2) = exec_primary(t, q + 1);
    let e = Expr::Bin(Box::new(left), op, Box::new(r));
    if q < q2 && position_in_range(t, q2) {
        exec_mul_rest(t, e, q2)
    } else {
        (e, q2)
    }
}

fn exec_mul(t: &Vec<Token>, p: usize) -> (r: (Expr, usize))
    requires
        p <= t@.len(),
        t@.len() < usize::MAX,
    ensures
        (ev(r.0), r.1 as int) == parse_mul(tokens_view(t@), p as int),
    decreases t@.len() + 2 - p, 1int,
{
    let (l, q) = exec_primary(t, p);
    if p <= q && position_in_range(t, q) {
        exec_mul_rest(t, l, q)
    } else {
        (l, q)
    }
}

fn exec_add_rest(t: &Vec<Token>, left: Expr, q: usize) -> (r: (Expr, usize))
    requires
        in_range(tokens_view(t@), q as int),
        t@.len() < usize::MAX,
    ensures
        (ev(r.0), r.1 as int) == parse_add_rest(tokens_view(t@), ev(left), q as int),
    decreases t@.len() + 2 - q, 0int,
{
    let op = match token_at(t, q) {
        Some(Token::Op(Op::Add)) => BinOp::Add,
        Some(Token::Op(Op::Sub)) => BinOp::Sub,
        _ => {
            return (left, q);
        },
    };
    let (r, q2) = exec_mul(t, q + 1);
    let e = Expr::Bin(Box::new(left), op, Box::new(r));
    if q < q2 && position_in_range(t, q2) {
        exec_add_rest(t, e, q2)
    } else {
        (e, q2)
    }
}

fn exec_add(t: &Vec<Token>, p: usize) -> (r: (Expr, usize))
    requires
        p <= t@.len(),
        t@.len() < usize::MAX,
    ensures
        (ev(r.0), r.1 as int) == parse_add(tokens_view(t@), p as int),
    decreases t@.len() + 2 - p, 2int,
{
    let (l, q) = exec_mul(t, p);
    if p <= q && position_in_range(t, q) {
        exec_add_rest(t, l, q)
    } else {
        (l, q)
    }
}

fn exec_comparison(t: &Vec<Token>, p: usize) -> (r: (Expr, usize))
    requires
        p <= t@.len(),
        t@.len() < usize::MAX,
    ensures
        (ev(r.0), r.1 as int) == parse_comparison(tokens_view(t@), p as int),
    decreases t@.len() + 2 - p, 3int,
{
    let (l, q) = exec_add(t, p);
    let op = match token_at(t, q) {
        Some(Token::Op(Op::Eq)) => BinOp::Eq,
        Some(Token::Op(Op::Ne)) => BinOp::Ne,
        Some(Token::Op(Op::Lt)) => BinOp::Lt,
        Some(Token::Op(Op::Gt)) => BinOp::Gt,
        Some(Token::Op(Op::Le)) => BinOp::Le,
        Some(Token::Op(Op::Ge)) => BinOp::Ge,
        _ => {
            return (l, q);
        },
    };
    if p <= q {
        let (r, q2) = exec_add(t, q + 1);
        (Expr::Bin(Box::new(l), op, Box::new(r)), q2)
    } else {
        (l, q)
    }
}

fn exec_not(t: &Vec<Token>, p: usize) -> (r: (Expr, usize))
    requires
        p <= t@.len(),
        t@.len() < usize::MAX,
    ensures
        (ev(r.0), r.1 as int) == parse_not(tokens_view(t@), p as int),
    decreases t@.len() + 2 - p, 4int,
{
    if op_at(t, p, Op::Not) {
        let (e, q) = exec_comparison(t, p + 1);
        (Expr::Not(Box::new(e)), q)
    } else {
        exec_comparison(t, p)
    }
}

fn exec_and_rest(t: &Vec<Token>, left: Expr, q: usize) -> (r: (Expr, usize))
    requires
        in_range(tokens_view(t@), q as int),
        t@.len() < usize::MAX,
    ensures
        (ev(r.0), r.1 as int) == parse_and_rest(tokens_view(t@), ev(left), q as int),
    decreases t@.len() + 2 - q, 0int,
{
    if op_at(t, q, Op::And) {
        let (r, q2) = exec_not(t, q + 1);
        let e = Expr::Bin(Box::new(left), BinOp::And, Box::new(r));
        if q < q2 && position_in_range(t, q2) {
            exec_and_rest(t, e, q2)
        } else {
            (e, q2)
        }
    } else {
        (left, q)
    }
}

fn exec_and(t: &Vec<Token>, p: usize) -> (r: (Expr, usize))
    requires
        p <= t@.len(),
        t@.len() < usize::MAX,
    ensures
        (ev(r.0), r.1 as int) == parse_and(tokens_view(t@), p as int),
    decreases t@.len() + 2 - p, 5int,
{
    let (l, q) = exec_not(t, p);
    if p <= q && position_in_range(t, q) {
        exec_and_rest(t, l, q)
    } else {
        (l, q)
    }
}

fn exec_or_rest(t: &Vec<Token>, left: Expr, q: usize) -> (r: (Expr, usize))
    requires
        in_range(tokens_view(t@), q as int),
        t@.len() < usize::MAX,
    ensures
        (ev(r.0), r.1 as int) == parse_or_rest(tokens_view(t@), ev(left), q as int),
    decreases t@.len() + 2 - q, 0int,
{
    if op_at(t, q, Op::Or) {
        let (r, q2) = exec_and(t, q + 1);
        let e = Expr::Bin(Box::new(left), BinOp::Or, Box::new(r));
        if q < q2 && position_in_range(t, q2) {
            exec_or_rest(t, e, q2)
        } else {
            (e, q2)
        }
    } else {
        (left, q)
    }
}

fn exec_or(t: &Vec<Token>, p: usize) -> (r: (Expr, usize))
    requires
        p <= t@.len(),
        t@.len() < usize::MAX,
    ensures
        (ev(r.0), r.1 as int) == parse_or(tokens_view(t@), p as int),
    decreases t@.len() + 2 - p, 6int,
{
    let (l, q) = exec_and(t, p);
    if p <= q && position_in_range(t, q) {
        exec_or_rest(t, l, q)
    } else {
        (l, q)
    }
}

fn exec_expr(t: &Vec<Token>, p: usize) -> (r: (Expr, usize))
    requires
        p <= t@.len(),
        t@.len() < usize::MAX,
    ensures
        (ev(r.0), r.1 as int) == parse_expr(tokens_view(t@), p as int),
    decreases t@.len() + 2 - p, 7int,
{
    exec_or(t, p)
}

/// The expression that a token list reads as.
pub fn parse(t: &Vec<Token>) -> (e: Expr)
    requires
        t@.len() < usize::MAX,
    ensures
        ev(e) == parse_tokens(tokens_view(t@)),
{
    exec_expr(t, 0).0
}

} // verus!
