//! Evaluation of expressions against the scenario variables.
//!
//! `and` and `or` look at both operands. A floating-point result that the library
//! does not compute (see `number`) is taken from the state's facts (see `facts`);
//! where no fact answers it, the result is `None`, and the `_noting` functions report
//! the query.
use vstd::prelude::*;
use crate::expr::{BinOp, Expr, ExprV, ev, parse, parse_tokens};
use crate::json::{Json, JsonV, jv, json_text, to_json_string};
use crate::lexer::{tokenize, tokenize_spec};
use crate::number::{
    ArithOp, Comparison, arith_value, compare_values, equal_values, literal_value, magnitude, within,
};
use crate::state::{State, StateV, Value, ValueV, has_var, read_var, result_name, truthy};
use crate::facts::{
    FloatAnswerV, FloatFact, FloatOp, FloatQuery, FloatQueryV, arith_facts, arith_query_op,
    arith_with, compare_facts, fact_answer, literal_query,
    compare_with, equal_facts, equal_with, facts_view, gaps_grow, lemma_gaps_chain, literal_exec,
    literal_with,
};

verus! {

/// The value of a binary operator other than `and`/`or` on two values.
pub open spec fn binary_value(
    op: BinOp,
    a: ValueV,
    b: ValueV,
    facts: Seq<(FloatQueryV, FloatAnswerV)>,
) -> Option<ValueV> {
    match op {
        BinOp::Eq => match equal_with(a, b, facts) {
            Some(x) => Some(ValueV::Bool(x)),
            None => None,
        },
        BinOp::Ne => match equal_with(a, b, facts) {
            Some(x) => Some(ValueV::Bool(!x)),
            None => None,
        },
        BinOp::Lt => match compare_with(a, b, facts) {
            Some(c) => Some(ValueV::Bool(c == Comparison::Less)),
            None => None,
        },
        BinOp::Gt => match compare_with(a, b, facts) {
            Some(c) => Some(ValueV::Bool(c == Comparison::Greater)),
            None => None,
        },
        BinOp::Le => match compare_with(a, b, facts) {
            Some(c) => Some(ValueV::Bool(c == Comparison::Less || c == Comparison::Equal)),
            None => None,
        },
        BinOp::Ge => match compare_with(a, b, facts) {
            Some(c) => Some(ValueV::Bool(c == Comparison::Greater || c == Comparison::Equal)),
            None => None,
        },
        BinOp::Add => arith_with(ArithOp::Add, a, b, facts),
        BinOp::Sub => arith_with(ArithOp::Sub, a, b, facts),
        BinOp::Mul => arith_with(ArithOp::Mul, a, b, facts),
        BinOp::Div => arith_with(ArithOp::Div, a, b, facts),
        _ => None,
    }
}

/// Combines the operands' results. `and` is true when both operands are true, `or`
/// when either is; an operand that cannot be computed leaves the result unknown
/// unless the other operand already decides it.
pub open spec fn combine(
    op: BinOp,
    l: Option<ValueV>,
    r: Option<ValueV>,
    facts: Seq<(FloatQueryV, FloatAnswerV)>,
) -> Option<ValueV> {
    match op {
        BinOp::And => match (l, r) {
            (Some(a), Some(b)) => Some(ValueV::Bool(truthy(a) && truthy(b))),
            (Some(a), None) => if !truthy(a) {
                Some(ValueV::Bool(false))
            } else {
                None
            },
            (None, Some(b)) => if !truthy(b) {
                Some(ValueV::Bool(false))
            } else {
                None
            },
            (None, None) => None,
        },
        BinOp::Or => match (l, r) {
            (Some(a), Some(b)) => Some(ValueV::Bool(truthy(a) || truthy(b))),
            (Some(a), None) => if truthy(a) {
                Some(ValueV::Bool(true))
            } else {
                None
            },
            (None, Some(b)) => if truthy(b) {
                Some(ValueV::Bool(true))
            } else {
                None
            },
            (None, None) => None,
        },
        _ => match (l, r) {
            (Some(a), Some(b)) => binary_value(op, a, b, facts),
            _ => None,
        },
    }
}

/// The value of an expression. An unknown name reads as `false`; `$result` without a
/// result reads as the empty string.
pub open spec fn eval(e: ExprV, st: StateV) -> Option<ValueV>
    decreases e,
{
    match e {
        ExprV::Num(t) => literal_with(t, st.facts),
        ExprV::Lit(v) => Some(v),
        ExprV::Var(n) => Some(
            match read_var(st, n) {
                Some(v) => v,
                None => ValueV::Bool(false),
            },
        ),
        ExprV::ResultVar => Some(
            match read_var(st, result_name()) {
                Some(v) => v,
                None => ValueV::Str(Seq::empty()),
            },
        ),
        ExprV::Not(x) => match eval(*x, st) {
            Some(v) => Some(ValueV::Bool(!truthy(v))),
            None => None,
        },
        ExprV::Bin(l, op, r) => combine(op, eval(*l, st), eval(*r, st), st.facts),
    }
}

/// The value of an expression text.
pub open spec fn eval_text(s: Seq<char>, st: StateV) -> Option<ValueV> {
    eval(parse_tokens(tokenize_spec(s)), st)
}

/// The model of an optional value.
pub open spec fn opt_view(o: Option<Value>) -> Option<ValueV> {
    match o {
        Some(v) => Some(v@),
        None => None,
    }
}

fn binary_exec(
    op: BinOp,
    a: &Value,
    b: &Value,
    facts: &Vec<FloatFact>,
    gaps: &mut Vec<FloatQuery>,
) -> (r: Option<Value>)
    ensures
        opt_view(r) == binary_value(op, a@, b@, facts_view(facts@)),
        gaps_grow(old(gaps)@, final(gaps)@, facts_view(facts@)),
{
    assert(old(gaps)@.subrange(0, old(gaps)@.len() as int) =~= old(gaps)@);
    match op {
        BinOp::Eq => match equal_facts(a, b, facts, gaps) {
            Some(x) => Some(Value::Bool(x)),
            None => None,
        },
        BinOp::Ne => match equal_facts(a, b, facts, gaps) {
            Some(x) => Some(Value::Bool(!x)),
            None => None,
        },
        BinOp::Lt => match compare_facts(a, b, facts, gaps) {
            Some(c) => Some(Value::Bool(c == Comparison::Less)),
            None => None,
        },
        BinOp::Gt => match compare_facts(a, b, facts, gaps) {
            Some(c) => Some(Value::Bool(c == Comparison::Greater)),
            None => None,
        },
        BinOp::Le => match compare_facts(a, b, facts, gaps) {
            Some(c) => Some(Value::Bool(c == Comparison::Less || c == Comparison::Equal)),
            None => None,
        },
        BinOp::Ge => match compare_facts(a, b, facts, gaps) {
            Some(c) => Some(Value::Bool(c == Comparison::Greater || c == Comparison::Equal)),
            None => None,
        },
        BinOp::Add => arith_facts(ArithOp::Add, a, b, facts, gaps),
        BinOp::Sub => arith_facts(ArithOp::Sub, a, b, facts, gaps),
        BinOp::Mul => arith_facts(ArithOp::Mul, a, b, facts, gaps),
        BinOp::Div => arith_facts(ArithOp::Div, a, b, facts, gaps),
        _ => None,
    }
}

fn combine_exec(
    op: BinOp,
    l: Option<Value>,
    r: Option<Value>,
    facts: &Vec<FloatFact>,
    gaps: &mut Vec<FloatQuery>,
) -> (out: Option<Value>)
    ensures
        opt_view(out) == combine(op, opt_view(l), opt_view(r), facts_view(facts@)),
        gaps_grow(old(gaps)@, final(gaps)@, facts_view(facts@)),
{
    assert(old(gaps)@.subrange(0, old(gaps)@.len() as int) =~= old(gaps)@);
    match op {
        BinOp::And => match (l, r) {
            (Some(a), Some(b)) => Some(Value::Bool(a.is_truthy() && b.is_truthy())),
            (Some(a), None) => if !a.is_truthy() {
                Some(Value::Bool(false))
            } else {
                None
            },
            (None, Some(b)) => if !b.is_truthy() {
                Some(Value::Bool(false))
            } else {
                None
            },
            (None, None) => None,
        },
        BinOp::Or => match (l, r) {
            (Some(a), Some(b)) => Some(Value::Bool(a.is_truthy() || b.is_truthy())),
            (Some(a), None) => if a.is_truthy() {
                Some(Value::Bool(true))
            } else {
                None
            },
            (None, Some(b)) => if b.is_truthy() {
                Some(Value::Bool(true))
            } else {
                None
            },
            (None, None) => None,
        },
        _ => match (l, r) {
            (Some(a), Some(b)) => binary_exec(op, &a, &b, facts, gaps),
            _ => None,
        },
    }
}

/// The value of an expression.
pub fn eval_expr(e: &Expr, state: &State) -> (r: Option<Value>)
    ensures
        opt_view(r) == eval(ev(*e), state@),
{
    let mut gaps: Vec<FloatQuery> = Vec::new();
    eval_noting(e, state, &mut gaps)
}

/// The value of an expression; each floating-point query that evaluation needed and
/// that no fact answers is added to `gaps`.
pub fn eval_noting(e: &Expr, state: &State, gaps: &mut Vec<FloatQuery>) -> (r: Option<Value>)
    ensures
        opt_view(r) == eval(ev(*e), state@),
        gaps_grow(old(gaps)@, final(gaps)@, state@.facts),
    decreases e,
{
    assert(old(gaps)@.subrange(0, old(gaps)@.len() as int) =~= old(gaps)@);
    let facts = state.float_facts();
    match e {
        Expr::Num(t) => literal_exec(t.as_str(), facts, gaps),
        Expr::Lit(v) => Some(v.copy()),
        Expr::Var(n) => match state.get_value(n.as_str()) {
            Some(v) => Some(v),
            None => Some(Value::Bool(false)),
        },
        Expr::ResultVar => {
            proof {
                reveal_strlit("$result");
                assert("$result"@ =~= result_name());
            }
            match state.get_value("$result") {
                Some(v) => Some(v),
                None => {
                    let s = String::new();
                    assert(s@ =~= Seq::<char>::empty());
                    Some(Value::Str(s))
                },
            }
        },
        Expr::Not(x) => match eval_noting(x, state, gaps) {
            Some(v) => Some(Value::Bool(!v.is_truthy())),
            None => None,
        },
        Expr::Bin(l, op, r) => {
            let ghost g0 = gaps@;
            let lv = eval_noting(l, state, gaps);
            let ghost g1 = gaps@;
            let rv = eval_noting(r, state, gaps);
            let ghost g2 = gaps@;
            let out = combine_exec(*op, lv, rv, facts, gaps);
            proof {
                lemma_gaps_chain(g0, g1, g2, state@.facts);
                lemma_gaps_chain(g0, g2, gaps@, state@.facts);
            }
            out
        },
    }
}

/// A text short enough that its token positions fit in memory indices (every text
/// that fits in memory is).
pub open spec fn addressable(s: Seq<char>) -> bool {
    tokenize_spec(s).len() < usize::MAX
}

/// The value of an expression text (of addressable size).
pub open spec fn eval_str(s: Seq<char>, st: StateV) -> Option<ValueV> {
    if addressable(s) {
        eval_text(s, st)
    } else {
        None
    }
}

/// The value of an expression text; `None` where it needs a floating-point result
/// that no fact of the state answers.
pub fn evaluate_expr(expr_str: &str, state: &State) -> (r: Option<Value>)
    ensures
        opt_view(r) == eval_str(expr_str@, state@),
{
    let mut gaps: Vec<FloatQuery> = Vec::new();
    evaluate_expr_noting(expr_str, state, &mut gaps)
}

/// The value of an expression text; each floating-point query that it needed and
/// that no fact answers is added to `gaps`.
pub fn evaluate_expr_noting(expr_str: &str, state: &State, gaps: &mut Vec<FloatQuery>) -> (r:
    Option<Value>)
    ensures
        opt_view(r) == eval_str(expr_str@, state@),
        gaps_grow(old(gaps)@, final(gaps)@, state@.facts),
{
    assert(old(gaps)@.subrange(0, old(gaps)@.len() as int) =~= old(gaps)@);
    let tokens = tokenize(expr_str);
    if tokens.len() == usize::MAX {
        return None;
    }
    let ast = parse(&tokens);
    eval_noting(&ast, state, gaps)
}

/// Whether a condition holds; `None` where that needs a floating-point number that
/// the library does not compute.
#[verifier::opaque]
pub open spec fn when_result(s: Seq<char>, st: StateV) -> Option<bool> {
    match eval_str(s, st) {
        Some(v) => Some(truthy(v)),
        None => None,
    }
}

/// Whether an expression text holds; `None` where that needs a floating-point result
/// that no fact of the state answers.
pub fn evaluate_when(expr_str: &str, state: &State) -> (r: Option<bool>)
    ensures
        r == when_result(expr_str@, state@),
{
    let mut gaps: Vec<FloatQuery> = Vec::new();
    evaluate_when_noting(expr_str, state, &mut gaps)
}

/// Whether an expression text holds; each floating-point query that it needed and
/// that no fact answers is added to `gaps`.
pub fn evaluate_when_noting(expr_str: &str, state: &State, gaps: &mut Vec<FloatQuery>) -> (r:
    Option<bool>)
    ensures
        r == when_result(expr_str@, state@),
        gaps_grow(old(gaps)@, final(gaps)@, state@.facts),
{
    reveal(when_result);
    match evaluate_expr_noting(expr_str, state, gaps) {
        Some(v) => Some(v.is_truthy()),
        None => None,
    }
}

} // verus!

verus! {

/// `sub` occurs in `s`.
pub open spec fn contains_sub(s: Seq<char>, sub: Seq<char>) -> bool {
    exists|i: int| 0 <= i && i + sub.len() <= s.len() && #[trigger] s.subrange(i, i + sub.len()) == sub
}

/// The operator spellings whose presence makes a `do` value an expression.
pub open spec fn expression_markers() -> Seq<Seq<char>> {
    seq![
        seq!['+'],
        seq!['-'],
        seq!['*'],
        seq!['/'],
        seq!['=', '='],
        seq!['!', '='],
        seq!['<'],
        seq!['>'],
        seq!['<', '='],
        seq!['>', '='],
        seq!['a', 'n', 'd'],
        seq!['o', 'r'],
        seq!['n', 'o', 't'],
    ]
}

/// Whether a `do` value is read as an expression: it contains an operator spelling
/// (anywhere, even inside a word), or it is a single name that has a value.
pub open spec fn looks_like_expression(s: Seq<char>, st: StateV) -> bool {
    (exists|k: int| 0 <= k < expression_markers().len() && contains_sub(s, #[trigger] expression_markers()[k]))
        || {
        let t = tokenize_spec(s);
        t.len() == 1 && t[0] is Ident && has_var(st, t[0]->Ident_0)
    }
}

/// The value a `do` entry sets: booleans and numbers as they are, strings evaluated
/// when they read as expressions and kept as text otherwise, anything else as its
/// JSON text.
pub open spec fn do_value(raw: JsonV, st: StateV) -> Option<ValueV> {
    match raw {
        JsonV::Bool(b) => Some(ValueV::Bool(b)),
        JsonV::Int(n) => Some(ValueV::Int(n)),
        JsonV::Float(r) => Some(ValueV::Float(r)),
        JsonV::Str(s) => if looks_like_expression(s, st) {
            eval_str(s, st)
        } else {
            Some(ValueV::Str(s))
        },
        _ => Some(ValueV::Str(json_text(raw))),
    }
}

/// Whether `needle` occurs in `hay`.
fn contains_exec(hay: &Vec<char>, needle: &str) -> (b: bool)
    ensures
        b == contains_sub(hay@, needle@),
{
    let nd = crate::text::chars_of(needle);
    let n = hay.len();
    let m = nd.len();
    if m > n {
        assert forall|i: int| 0 <= i && i + m <= n implies #[trigger] hay@.subrange(i, i + m)
            != needle@ by {}
        return false;
    }
    let mut i: usize = 0;
    while i <= n - m
        invariant
            n == hay@.len(),
            m == nd@.len(),
            nd@ == needle@,
            m <= n,
            i <= n - m + 1,
            forall|j: int| 0 <= j < i ==> #[trigger] hay@.subrange(j, j + m) != needle@,
        decreases n - i,
    {
        let mut k: usize = 0;
        while k < m && hay[i + k] == nd[k]
            invariant
                k <= m,
                i + m <= n,
                n == hay@.len(),
                m == nd@.len(),
                forall|q: int| 0 <= q < k ==> hay@[i + q] == nd@[q],
            decreases m - k,
        {
            k = k + 1;
        }
        if k == m {
            assert(hay@.subrange(i as int, i + m) =~= needle@);
            return true;
        }
        assert(hay@.subrange(i as int, i + m)[k as int] != needle@[k as int]);
        i = i + 1;
    }
    false
}

/// Whether a `do` value is read as an expression.
pub fn is_expression_like(s: &str, state: &State) -> (b: bool)
    ensures
        b == looks_like_expression(s@, state@),
{
    let cs = crate::text::chars_of(s);
    let ghost ms = expression_markers();
    proof {
        reveal_strlit("+");
        reveal_strlit("-");
        reveal_strlit("*");
        reveal_strlit("/");
        reveal_strlit("==");
        reveal_strlit("!=");
        reveal_strlit("<");
        reveal_strlit(">");
        reveal_strlit("<=");
        reveal_strlit(">=");
        reveal_strlit("and");
        reveal_strlit("or");
        reveal_strlit("not");
        assert("+"@ =~= ms[0]);
        assert("-"@ =~= ms[1]);
        assert("*"@ =~= ms[2]);
        assert("/"@ =~= ms[3]);
        assert("=="@ =~= ms[4]);
        assert("!="@ =~= ms[5]);
        assert("<"@ =~= ms[6]);
        assert(">"@ =~= ms[7]);
        assert("<="@ =~= ms[8]);
        assert(">="@ =~= ms[9]);
        assert("and"@ =~= ms[10]);
        assert("or"@ =~= ms[11]);
        assert("not"@ =~= ms[12]);
    }
    let marked = contains_exec(&cs, "+") || contains_exec(&cs, "-") || contains_exec(&cs, "*")
        || contains_exec(&cs, "/") || contains_exec(&cs, "==") || contains_exec(&cs, "!=")
        || contains_exec(&cs, "<") || contains_exec(&cs, ">") || contains_exec(&cs, "<=")
        || contains_exec(&cs, ">=") || contains_exec(&cs, "and") || contains_exec(&cs, "or")
        || contains_exec(&cs, "not");
    proof {
        if marked {
            assert(exists|k: int|
                0 <= k < ms.len() && contains_sub(s@, #[trigger] ms[k]));
        } else {
            assert forall|k: int| 0 <= k < ms.len() implies !contains_sub(s@, #[trigger] ms[k]) by {
                assert(k == 0 || k == 1 || k == 2 || k == 3 || k == 4 || k == 5 || k == 6 || k == 7
                    || k == 8 || k == 9 || k == 10 || k == 11 || k == 12);
            }
        }
    }
    if marked {
        return true;
    }
    let tokens = tokenize(s);
    if tokens.len() == 1 {
        match &tokens[0] {
            crate::lexer::Token::Ident(name) => state.has_var(name.as_str()),
            _ => false,
        }
    } else {
        false
    }
}

/// The value that a `do` entry sets for its key; `None` where it needs a
/// floating-point result that no fact of the state answers.
pub fn evaluate_do_value(_key: &str, raw_value: &Json, state: &State) -> (r: Option<Value>)
    ensures
        opt_view(r) == do_value(jv(*raw_value), state@),
{
    let mut gaps: Vec<FloatQuery> = Vec::new();
    evaluate_do_value_noting(raw_value, state, &mut gaps)
}

/// The value that a `do` entry sets; each floating-point query that it needed and
/// that no fact answers is added to `gaps`.
pub fn evaluate_do_value_noting(raw_value: &Json, state: &State, gaps: &mut Vec<FloatQuery>) -> (r:
    Option<Value>)
    ensures
        opt_view(r) == do_value(jv(*raw_value), state@),
        gaps_grow(old(gaps)@, final(gaps)@, state@.facts),
{
    assert(old(gaps)@.subrange(0, old(gaps)@.len() as int) =~= old(gaps)@);
    match raw_value {
        Json::Bool(b) => Some(Value::Bool(*b)),
        Json::Int(n) => Some(Value::Int(*n)),
        Json::Float(f) => Some(Value::Float(f.copy())),
        Json::Str(s) => {
            if is_expression_like(s.as_str(), state) {
                evaluate_expr_noting(s.as_str(), state, gaps)
            } else {
                Some(Value::Str(s.clone()))
            }
        },
        _ => Some(Value::Str(to_json_string(raw_value))),
    }
}

} // verus!

verus! {

/// The facts with one more, about a query that none of them answers, answer every
/// other query as before.
proof fn lemma_fact_added(
    facts: Seq<(FloatQueryV, FloatAnswerV)>,
    f: (FloatQueryV, FloatAnswerV),
    q: FloatQueryV,
)
    requires
        fact_answer(facts, f.0) is None,
        fact_answer(facts, q) is Some,
    ensures
        fact_answer(facts.push(f), q) == fact_answer(facts, q),
{
    assert(facts.push(f).drop_last() =~= facts);
}

/// A binary operation whose result is known keeps it when a fact about an
/// unanswered query is added.
proof fn lemma_binary_kept(
    op: BinOp,
    a: ValueV,
    b: ValueV,
    facts: Seq<(FloatQueryV, FloatAnswerV)>,
    f: (FloatQueryV, FloatAnswerV),
)
    requires
        fact_answer(facts, f.0) is None,
        binary_value(op, a, b, facts) is Some,
    ensures
        binary_value(op, a, b, facts.push(f)) == binary_value(op, a, b, facts),
{
    let fs = facts.push(f);
    let eq_q = FloatQueryV { op: FloatOp::Equal, left: a, right: b };
    let cmp_q = FloatQueryV { op: FloatOp::Compare, left: a, right: b };
    match op {
        BinOp::Eq | BinOp::Ne => {
            if equal_values(a, b) is None {
                lemma_fact_added(facts, f, eq_q);
            }
        },
        BinOp::Lt | BinOp::Gt | BinOp::Le | BinOp::Ge => {
            if compare_values(a, b) is None {
                lemma_fact_added(facts, f, cmp_q);
            }
        },
        BinOp::Add | BinOp::Sub | BinOp::Mul | BinOp::Div => {
            let aop = match op {
                BinOp::Add => ArithOp::Add,
                BinOp::Sub => ArithOp::Sub,
                BinOp::Mul => ArithOp::Mul,
                _ => ArithOp::Div,
            };
            if arith_value(aop, a, b) is None {
                lemma_fact_added(
                    facts,
                    f,
                    FloatQueryV { op: arith_query_op(aop), left: a, right: b },
                );
            }
        },
        _ => {},
    }
}

/// An expression whose value is known keeps it when a fact about an unanswered
/// query is added.
proof fn lemma_eval_kept(e: ExprV, st: StateV, f: (FloatQueryV, FloatAnswerV))
    requires
        fact_answer(st.facts, f.0) is None,
        eval(e, st) is Some,
    ensures
        eval(e, StateV { facts: st.facts.push(f), ..st }) == eval(e, st),
    decreases e,
{
    let st2 = StateV { facts: st.facts.push(f), ..st };
    assert(read_var(st2, result_name()) == read_var(st, result_name()));
    match e {
        ExprV::Num(t) => {
            if literal_value(t) is None {
                lemma_fact_added(st.facts, f, literal_query(t));
            }
        },
        ExprV::Var(n) => {
            assert(read_var(st2, n) == read_var(st, n));
        },
        ExprV::Not(x) => {
            lemma_eval_kept(*x, st, f);
        },
        ExprV::Bin(l, op, r) => {
            if eval(*l, st) is Some {
                lemma_eval_kept(*l, st, f);
            }
            if eval(*r, st) is Some {
                lemma_eval_kept(*r, st, f);
            }
            if eval(*l, st) is Some && eval(*r, st) is Some && op != BinOp::And && op
                != BinOp::Or {
                lemma_binary_kept(op, eval(*l, st)->0, eval(*r, st)->0, st.facts, f);
            }
        },
        _ => {},
    }
}

/// Handing in the answer to a query that no fact answers never changes the value of
/// an expression that was already known: answers only fill in what could not be
/// evaluated.
pub proof fn law_new_answer_keeps_values(s: Seq<char>, st: StateV, f: (FloatQueryV, FloatAnswerV))
    requires
        fact_answer(st.facts, f.0) is None,
        eval_str(s, st) is Some,
    ensures
        eval_str(s, StateV { facts: st.facts.push(f), ..st }) == eval_str(s, st),
{
    lemma_eval_kept(parse_tokens(tokenize_spec(s)), st, f);
}

/// A handed-in answer is what evaluation gives for the operation it answers, where
/// the library does not compute that operation itself.
pub proof fn law_answer_is_used(
    op: ArithOp,
    a: ValueV,
    b: ValueV,
    facts: Seq<(FloatQueryV, FloatAnswerV)>,
    v: ValueV,
)
    requires
        arith_value(op, a, b) is None,
    ensures
        arith_with(
            op,
            a,
            b,
            facts.push(
                (FloatQueryV { op: arith_query_op(op), left: a, right: b }, FloatAnswerV::Number(v)),
            ),
        ) == Some(v),
{
}

} // verus!

verus! {

/// The expression that applies `op` to the variables `a` and `b`.
pub open spec fn var_op(a: Seq<char>, op: BinOp, b: Seq<char>) -> ExprV {
    ExprV::Bin(Box::new(ExprV::Var(a)), op, Box::new(ExprV::Var(b)))
}

/// Evaluating an operation on two variables combines their values.
proof fn lemma_var_op(a: Seq<char>, op: BinOp, b: Seq<char>, st: StateV, x: ValueV, y: ValueV)
    requires
        read_var(st, a) == Some(x),
        read_var(st, b) == Some(y),
    ensures
        eval(var_op(a, op, b), st) == combine(op, Some(x), Some(y), st.facts),
{
    assert(eval(ExprV::Var(a), st) == Some(x));
    assert(eval(ExprV::Var(b), st) == Some(y));
}

/// Comparing two integer variables gives the integers' order: `<`, `>`, `<=`, `>=`,
/// `==` and `!=` hold exactly when they hold of the integers (so `n < n` is false
/// and `n <= n` true).
pub proof fn law_integer_comparisons(a: Seq<char>, b: Seq<char>, st: StateV, x: i64, y: i64)
    requires
        read_var(st, a) == Some(ValueV::Int(x)),
        read_var(st, b) == Some(ValueV::Int(y)),
    ensures
        eval(var_op(a, BinOp::Lt, b), st) == Some(ValueV::Bool(x < y)),
        eval(var_op(a, BinOp::Gt, b), st) == Some(ValueV::Bool(x > y)),
        eval(var_op(a, BinOp::Le, b), st) == Some(ValueV::Bool(x <= y)),
        eval(var_op(a, BinOp::Ge, b), st) == Some(ValueV::Bool(x >= y)),
        eval(var_op(a, BinOp::Eq, b), st) == Some(ValueV::Bool(x == y)),
        eval(var_op(a, BinOp::Ne, b), st) == Some(ValueV::Bool(x != y)),
{
    let (vx, vy) = (ValueV::Int(x), ValueV::Int(y));
    lemma_var_op(a, BinOp::Lt, b, st, vx, vy);
    lemma_var_op(a, BinOp::Gt, b, st, vx, vy);
    lemma_var_op(a, BinOp::Le, b, st, vx, vy);
    lemma_var_op(a, BinOp::Ge, b, st, vx, vy);
    lemma_var_op(a, BinOp::Eq, b, st, vx, vy);
    lemma_var_op(a, BinOp::Ne, b, st, vx, vy);
}

/// On values that compare (of one kind, numbers or strings), `<` and `>=` are
/// complementary, and so are `>` and `<=`.
pub proof fn law_comparisons_complementary(
    a: ValueV,
    b: ValueV,
    facts: Seq<(FloatQueryV, FloatAnswerV)>,
)
    requires
        compare_with(a, b, facts) matches Some(c) && c != Comparison::Unordered,
    ensures
        binary_value(BinOp::Lt, a, b, facts) matches Some(ValueV::Bool(p)) && binary_value(
            BinOp::Ge,
            a,
            b,
            facts,
        ) == Some(ValueV::Bool(!p)),
        binary_value(BinOp::Gt, a, b, facts) matches Some(ValueV::Bool(p)) && binary_value(
            BinOp::Le,
            a,
            b,
            facts,
        ) == Some(ValueV::Bool(!p)),
{
}

/// An exact quotient: `y` divides `x`, and the quotient with its sign times `y` is
/// `x`, with magnitude at most that of `x`.
proof fn lemma_exact_quotient(x: int, y: int)
    requires
        y != 0,
        x % y == 0,
    ensures
        magnitude(x) % magnitude(y) == 0,
        ({
            let q = (magnitude(x) / magnitude(y)) as int;
            let s = if (x < 0) != (y < 0) {
                -q
            } else {
                q
            };
            s * y == x && q <= magnitude(x)
        }),
{
    let k = x / y;
    vstd::arithmetic::div_mod::lemma_fundamental_div_mod(x, y);
    assert(x == y * k);
    let mk = magnitude(k) as int;
    let my = magnitude(y) as int;
    let mx = magnitude(x) as int;
    assert(mx == mk * my) by (nonlinear_arith)
        requires
            x == y * k,
            mk == (if k < 0 {
                -k
            } else {
                k
            }),
            my == (if y < 0 {
                -y
            } else {
                y
            }),
            mx == (if x < 0 {
                -x
            } else {
                x
            }),
    ;
    vstd::arithmetic::div_mod::lemma_mod_multiples_basic(mk, my);
    vstd::arithmetic::div_mod::lemma_div_multiples_vanish(mk, my);
    assert(my * mk == mk * my) by (nonlinear_arith);
    let q = (magnitude(x) / magnitude(y)) as int;
    assert(q == mk);
    assert(mk <= mx) by (nonlinear_arith)
        requires
            mx == mk * my,
            my >= 1,
            mk >= 0,
    ;
    let s = if (x < 0) != (y < 0) {
        -q
    } else {
        q
    };
    assert(s * y == x) by (nonlinear_arith)
        requires
            x == y * k,
            s == (if (x < 0) != (y < 0) {
                -mk
            } else {
                mk
            }),
            mk == (if k < 0 {
                -k
            } else {
                k
            }),
            y != 0,
    ;
}

/// Arithmetic on two integer variables within `EXACT_LIMIT` is integer arithmetic:
/// sums, differences and products (where they stay within the limit) are the
/// integers' own, a quotient by a divisor of the dividend is the integer that
/// multiplied by the divisor gives the dividend back, and division by zero gives 0.
pub proof fn law_integer_arithmetic(a: Seq<char>, b: Seq<char>, st: StateV, x: i64, y: i64)
    requires
        read_var(st, a) == Some(ValueV::Int(x)),
        read_var(st, b) == Some(ValueV::Int(y)),
        within(x as int),
        within(y as int),
    ensures
        within(x + y) ==> eval(var_op(a, BinOp::Add, b), st) == Some(
            ValueV::Int((x + y) as i64),
        ),
        within(x - y) ==> eval(var_op(a, BinOp::Sub, b), st) == Some(
            ValueV::Int((x - y) as i64),
        ),
        within(x * y) ==> eval(var_op(a, BinOp::Mul, b), st) == Some(
            ValueV::Int((x * y) as i64),
        ),
        y != 0 && x % y == 0 ==> (eval(var_op(a, BinOp::Div, b), st) matches Some(
            ValueV::Int(q),
        ) && q * y == x),
        y == 0 ==> eval(var_op(a, BinOp::Div, b), st) == Some(ValueV::Int(0)),
{
    let (vx, vy) = (ValueV::Int(x), ValueV::Int(y));
    lemma_var_op(a, BinOp::Add, b, st, vx, vy);
    lemma_var_op(a, BinOp::Sub, b, st, vx, vy);
    lemma_var_op(a, BinOp::Mul, b, st, vx, vy);
    lemma_var_op(a, BinOp::Div, b, st, vx, vy);
    if y != 0 && x % y == 0 {
        lemma_exact_quotient(x as int, y as int);
    }
}

} // verus!
