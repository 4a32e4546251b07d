//! Floating-point results that are handed in from outside.
//!
//! The expression language computes with 64-bit floating-point numbers. The library
//! computes every result that is exact (see `number`) itself. Any other result is a
//! fact given to the state from outside: a query (a number literal, or an operation
//! on two values) with its answer. Evaluation reads such answers from the state's
//! facts, and reports each query that no fact answers.
use vstd::prelude::*;
use crate::number::{
    ArithOp, Comparison, arith_exec, arith_value, compare_exec, compare_values, equal_exec,
    equal_values, literal_to_value, literal_value,
};
use crate::state::{Value, ValueV};
use crate::text::str_equal;

verus! {

/// What a query asks for.
#[derive(Debug, Clone, Copy, PartialEq, Eq, Structural)]
pub enum FloatOp {
    /// The value of the number literal whose text is the left value.
    Literal,
    /// The floating-point number that the left value, a text, reads as.
    Number,
    Add,
    Sub,
    Mul,
    Div,
    /// How the two values compare.
    Compare,
    /// Whether the two values are equal.
    Equal,
}

/// An operation whose result is a floating-point computation.
#[derive(Debug, Clone)]
pub struct FloatQuery {
    pub op: FloatOp,
    pub left: Value,
    pub right: Value,
}

/// The model of a query.
pub struct FloatQueryV {
    pub op: FloatOp,
    pub left: ValueV,
    pub right: ValueV,
}

impl View for FloatQuery {
    type V = FloatQueryV;

    open spec fn view(&self) -> FloatQueryV {
        FloatQueryV { op: self.op, left: self.left@, right: self.right@ }
    }
}

/// The answer to a query: a value for a literal or an arithmetic operation, an
/// order for a comparison, a truth value for an equality.
#[derive(Debug, Clone)]
pub enum FloatAnswer {
    Number(Value),
    Order(Comparison),
    Same(bool),
}

/// The model of an answer.
pub enum FloatAnswerV {
    Number(ValueV),
    Order(Comparison),
    Same(bool),
}

impl View for FloatAnswer {
    type V = FloatAnswerV;

    open spec fn view(&self) -> FloatAnswerV {
        match self {
            FloatAnswer::Number(v) => FloatAnswerV::Number(v@),
            FloatAnswer::Order(c) => FloatAnswerV::Order(*c),
            FloatAnswer::Same(b) => FloatAnswerV::Same(*b),
        }
    }
}

/// A query with its answer.
#[derive(Debug, Clone)]
pub struct FloatFact {
    pub query: FloatQuery,
    pub answer: FloatAnswer,
}

impl View for FloatFact {
    type V = (FloatQueryV, FloatAnswerV);

    open spec fn view(&self) -> (FloatQueryV, FloatAnswerV) {
        (self.query@, self.answer@)
    }
}

/// The models of facts.
pub open spec fn facts_view(v: Seq<FloatFact>) -> Seq<(FloatQueryV, FloatAnswerV)> {
    v.map_values(|f: FloatFact| f@)
}

/// The answer of the last fact about `q`.
pub open spec fn fact_answer(facts: Seq<(FloatQueryV, FloatAnswerV)>, q: FloatQueryV) -> Option<
    FloatAnswerV,
>
    decreases facts.len(),
{
    if facts.len() == 0 {
        None
    } else if facts.last().0 == q {
        Some(facts.last().1)
    } else {
        fact_answer(facts.drop_last(), q)
    }
}

/// The query for the value of a number literal.
pub open spec fn literal_query(t: Seq<char>) -> FloatQueryV {
    FloatQueryV { op: FloatOp::Literal, left: ValueV::Str(t), right: ValueV::Bool(false) }
}

/// The query for the floating-point number that a text reads as.
pub open spec fn number_query(t: Seq<char>) -> FloatQueryV {
    FloatQueryV { op: FloatOp::Number, left: ValueV::Str(t), right: ValueV::Bool(false) }
}

/// The value that the facts give for the number that a text reads as.
pub open spec fn number_answer(t: Seq<char>, facts: Seq<(FloatQueryV, FloatAnswerV)>) -> Option<
    ValueV,
> {
    match fact_answer(facts, number_query(t)) {
        Some(FloatAnswerV::Number(v)) => Some(v),
        _ => None,
    }
}

/// The query kind of an arithmetic operation.
pub open spec fn arith_query_op(op: ArithOp) -> FloatOp {
    match op {
        ArithOp::Add => FloatOp::Add,
        ArithOp::Sub => FloatOp::Sub,
        ArithOp::Mul => FloatOp::Mul,
        ArithOp::Div => FloatOp::Div,
    }
}

/// The value of a number literal: computed where it is exact, otherwise the answer
/// of the facts.
pub open spec fn literal_with(t: Seq<char>, facts: Seq<(FloatQueryV, FloatAnswerV)>) -> Option<
    ValueV,
> {
    match literal_value(t) {
        Some(v) => Some(v),
        None => match fact_answer(facts, literal_query(t)) {
            Some(FloatAnswerV::Number(v)) => Some(v),
            _ => None,
        },
    }
}

/// The value of an arithmetic operation: computed where it is exact, otherwise the
/// answer of the facts.
pub open spec fn arith_with(
    op: ArithOp,
    a: ValueV,
    b: ValueV,
    facts: Seq<(FloatQueryV, FloatAnswerV)>,
) -> Option<ValueV> {
    match arith_value(op, a, b) {
        Some(v) => Some(v),
        None => match fact_answer(
            facts,
            FloatQueryV { op: arith_query_op(op), left: a, right: b },
        ) {
            Some(FloatAnswerV::Number(v)) => Some(v),
            _ => None,
        },
    }
}

/// How two values compare: computed where it is exact, otherwise the answer of the
/// facts.
pub open spec fn compare_with(
    a: ValueV,
    b: ValueV,
    facts: Seq<(FloatQueryV, FloatAnswerV)>,
) -> Option<Comparison> {
    match compare_values(a, b) {
        Some(c) => Some(c),
        None => match fact_answer(facts, FloatQueryV { op: FloatOp::Compare, left: a, right: b }) {
            Some(FloatAnswerV::Order(c)) => Some(c),
            _ => None,
        },
    }
}

/// Whether two values are equal: computed where it is exact, otherwise the answer of
/// the facts.
pub open spec fn equal_with(a: ValueV, b: ValueV, facts: Seq<(FloatQueryV, FloatAnswerV)>) -> Option<
    bool,
> {
    match equal_values(a, b) {
        Some(x) => Some(x),
        None => match fact_answer(facts, FloatQueryV { op: FloatOp::Equal, left: a, right: b }) {
            Some(FloatAnswerV::Same(x)) => Some(x),
            _ => None,
        },
    }
}

/// `now` is `before` with queries added at its end that no fact answers.
pub open spec fn gaps_grow(
    before: Seq<FloatQuery>,
    now: Seq<FloatQuery>,
    facts: Seq<(FloatQueryV, FloatAnswerV)>,
) -> bool {
    &&& before.len() <= now.len()
    &&& now.subrange(0, before.len() as int) == before
    &&& forall|i: int|
        before.len() <= i < now.len() ==> fact_answer(facts, #[trigger] now[i]@) is None
}

/// Growing twice is growing.
pub proof fn lemma_gaps_chain(
    a: Seq<FloatQuery>,
    b: Seq<FloatQuery>,
    c: Seq<FloatQuery>,
    facts: Seq<(FloatQueryV, FloatAnswerV)>,
)
    requires
        gaps_grow(a, b, facts),
        gaps_grow(b, c, facts),
    ensures
        gaps_grow(a, c, facts),
{
    assert(c.subrange(0, a.len() as int) =~= b.subrange(0, a.len() as int)) by {
        assert forall|i: int| 0 <= i < a.len() implies c[i] == b[i] by {
            assert(c.subrange(0, b.len() as int)[i] == c[i]);
        }
    }
    assert forall|i: int| a.len() <= i < c.len() implies fact_answer(facts, #[trigger] c[i]@) is None by {
        if i < b.len() {
            assert(c.subrange(0, b.len() as int)[i] == c[i]);
            assert(fact_answer(facts, b[i]@) is None);
        }
    }
}

/// Whether two values are the same value.
pub fn same_value(a: &Value, b: &Value) -> (r: bool)
    ensures
        r == (a@ == b@),
{
    match (a, b) {
        (Value::Bool(x), Value::Bool(y)) => *x == *y,
        (Value::Int(x), Value::Int(y)) => *x == *y,
        (Value::Str(x), Value::Str(y)) => str_equal(x.as_str(), y.as_str()),
        (Value::Float(x), Value::Float(y)) => {
            str_equal(x.text.as_str(), y.text.as_str()) && x.whole == y.whole && x.neg_zero
                == y.neg_zero
        },
        _ => false,
    }
}

/// Whether two queries are the same query.
fn same_query(a: &FloatQuery, b: &FloatQuery) -> (r: bool)
    ensures
        r == (a@ == b@),
{
    a.op == b.op && same_value(&a.left, &b.left) && same_value(&a.right, &b.right)
}

/// The answer of the last fact about `q`.
pub fn answer_of<'a>(facts: &'a Vec<FloatFact>, q: &FloatQuery) -> (r: Option<&'a FloatAnswer>)
    ensures
        match r {
            Some(a) => fact_answer(facts_view(facts@), q@) == Some(a@),
            None => fact_answer(facts_view(facts@), q@) is None,
        },
{
    let mut i = facts.len();
    assert(facts@.subrange(0, i as int) =~= facts@);
    while i > 0
        invariant
            i <= facts@.len(),
            fact_answer(facts_view(facts@), q@) == fact_answer(
                facts_view(facts@.subrange(0, i as int)),
                q@,
            ),
        decreases i,
    {
        let ghost s = facts_view(facts@.subrange(0, i as int));
        assert(s.drop_last() =~= facts_view(facts@.subrange(0, i - 1)));
        assert(s.last() == facts@[i - 1]@);
        if same_query(&facts[i - 1].query, q) {
            return Some(&facts[i - 1].answer);
        }
        i = i - 1;
    }
    assert(facts_view(facts@.subrange(0, 0)) =~= Seq::<(FloatQueryV, FloatAnswerV)>::empty());
    None
}

/// Adds `q` at the end of `gaps` where no fact answers it.
fn note_gap(gaps: &mut Vec<FloatQuery>, q: FloatQuery, facts: &Vec<FloatFact>)
    requires
        fact_answer(facts_view(facts@), q@) is None,
    ensures
        gaps_grow(old(gaps)@, final(gaps)@, facts_view(facts@)),
{
    let ghost before = gaps@;
    gaps.push(q);
    assert(gaps@.subrange(0, before.len() as int) =~= before);
}

/// The value of a number literal (see `literal_with`); a literal that is not exact and
/// that no fact answers is reported in `gaps`.
pub fn literal_exec(t: &str, facts: &Vec<FloatFact>, gaps: &mut Vec<FloatQuery>) -> (r: Option<
    Value,
>)
    ensures
        match r {
            Some(v) => literal_with(t@, facts_view(facts@)) == Some(v@),
            None => literal_with(t@, facts_view(facts@)) is None,
        },
        gaps_grow(old(gaps)@, final(gaps)@, facts_view(facts@)),
{
    assert(old(gaps)@.subrange(0, old(gaps)@.len() as int) =~= old(gaps)@);
    match literal_to_value(t) {
        Some(v) => Some(v),
        None => {
            let q = FloatQuery {
                op: FloatOp::Literal,
                left: Value::Str(t.to_string()),
                right: Value::Bool(false),
            };
            assert(q@ == literal_query(t@));
            match answer_of(facts, &q) {
                Some(FloatAnswer::Number(v)) => Some(v.copy()),
                Some(_) => None,
                None => {
                    note_gap(gaps, q, facts);
                    None
                },
            }
        },
    }
}

/// The value that the facts give for the number that a text reads as (see
/// `number_answer`); where none does, the query is reported in `gaps`.
pub fn number_answer_exec(t: &str, facts: &Vec<FloatFact>, gaps: &mut Vec<FloatQuery>) -> (r:
    Option<Value>)
    ensures
        opt_value(r) == number_answer(t@, facts_view(facts@)),
        gaps_grow(old(gaps)@, final(gaps)@, facts_view(facts@)),
{
    assert(old(gaps)@.subrange(0, old(gaps)@.len() as int) =~= old(gaps)@);
    let q = FloatQuery { op: FloatOp::Number, left: Value::Str(t.to_string()), right: Value::Bool(false) };
    assert(q@ == number_query(t@));
    match answer_of(facts, &q) {
        Some(FloatAnswer::Number(v)) => Some(v.copy()),
        Some(_) => None,
        None => {
            note_gap(gaps, q, facts);
            None
        },
    }
}

/// The model of an optional value.
pub open spec fn opt_value(o: Option<Value>) -> Option<ValueV> {
    match o {
        Some(v) => Some(v@),
        None => None,
    }
}

/// The value of an arithmetic operation (see `arith_with`); one that is not exact
/// and that no fact answers is reported in `gaps`.
pub fn arith_facts(
    op: ArithOp,
    a: &Value,
    b: &Value,
    facts: &Vec<FloatFact>,
    gaps: &mut Vec<FloatQuery>,
) -> (r: Option<Value>)
    ensures
        match r {
            Some(v) => arith_with(op, a@, b@, facts_view(facts@)) == Some(v@),
            None => arith_with(op, a@, b@, facts_view(facts@)) is None,
        },
        gaps_grow(old(gaps)@, final(gaps)@, facts_view(facts@)),
{
    assert(old(gaps)@.subrange(0, old(gaps)@.len() as int) =~= old(gaps)@);
    match arith_exec(op, a, b) {
        Some(v) => Some(v),
        None => {
            let fop = match op {
                ArithOp::Add => FloatOp::Add,
                ArithOp::Sub => FloatOp::Sub,
                ArithOp::Mul => FloatOp::Mul,
                ArithOp::Div => FloatOp::Div,
            };
            let q = FloatQuery { op: fop, left: a.copy(), right: b.copy() };
            match answer_of(facts, &q) {
                Some(FloatAnswer::Number(v)) => Some(v.copy()),
                Some(_) => None,
                None => {
                    note_gap(gaps, q, facts);
                    None
                },
            }
        },
    }
}

/// How two values compare (see `compare_with`); a comparison that is not exact and
/// that no fact answers is reported in `gaps`.
pub fn compare_facts(
    a: &Value,
    b: &Value,
    facts: &Vec<FloatFact>,
    gaps: &mut Vec<FloatQuery>,
) -> (r: Option<Comparison>)
    ensures
        r == compare_with(a@, b@, facts_view(facts@)),
        gaps_grow(old(gaps)@, final(gaps)@, facts_view(facts@)),
{
    assert(old(gaps)@.subrange(0, old(gaps)@.len() as int) =~= old(gaps)@);
    match compare_exec(a, b) {
        Some(c) => Some(c),
        None => {
            let q = FloatQuery { op: FloatOp::Compare, left: a.copy(), right: b.copy() };
            match answer_of(facts, &q) {
                Some(FloatAnswer::Order(c)) => Some(*c),
                Some(_) => None,
                None => {
                    note_gap(gaps, q, facts);
                    None
                },
            }
        },
    }
}

/// Whether two values are equal (see `equal_with`); an equality that is not exact
/// and that no fact answers is reported in `gaps`.
pub fn equal_facts(
    a: &Value,
    b: &Value,
    facts: &Vec<FloatFact>,
    gaps: &mut Vec<FloatQuery>,
) -> (r: Option<bool>)
    ensures
        r == equal_with(a@, b@, facts_view(facts@)),
        gaps_grow(old(gaps)@, final(gaps)@, facts_view(facts@)),
{
    assert(old(gaps)@.subrange(0, old(gaps)@.len() as int) =~= old(gaps)@);
    match equal_exec(a, b) {
        Some(x) => Some(x),
        None => {
            let q = FloatQuery { op: FloatOp::Equal, left: a.copy(), right: b.copy() };
            match answer_of(facts, &q) {
                Some(FloatAnswer::Same(x)) => Some(*x),
                Some(_) => None,
                None => {
                    note_gap(gaps, q, facts);
                    None
                },
            }
        },
    }
}

} // verus!
