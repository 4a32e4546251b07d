use yamamva::engine::{Engine, ExecArgs};
use yamamva::evaluator::{evaluate_expr, evaluate_expr_noting, evaluate_when};
use yamamva::facts::{FloatAnswer, FloatFact, FloatOp, FloatQuery};
use yamamva::json::Real;
use yamamva::number::Comparison;
use yamamva::parser::parse;
use yamamva::registry::{Registry, YAMAMVA_END, YAMAMVA_PASS};
use yamamva::state::{State, Value};
use yamamva::strmap::StrMap;

fn real_of(f: f64) -> Real {
    if f.is_nan() {
        Real::from_text("NaN".to_string())
    } else if f.is_infinite() {
        Real::from_text(if f > 0.0 { "inf" } else { "-inf" }.to_string())
    } else if f.fract() == 0.0 && f.abs() <= 9007199254740992.0 {
        Real::from_whole(f as i64, f == 0.0 && f.is_sign_negative())
    } else {
        Real::from_text(serde_json::Number::from_f64(f).unwrap().to_string())
    }
}

fn number_of(v: &Value) -> f64 {
    match v {
        Value::Int(n) => *n as f64,
        Value::Float(r) => r.text.parse().unwrap(),
        Value::Bool(b) => if *b { 1.0 } else { 0.0 },
        Value::Str(s) => s.parse().unwrap_or(0.0),
    }
}

fn value_of(f: f64, ints: bool) -> Value {
    if ints && f == (f as i64) as f64 { Value::Int(f as i64) } else { Value::Float(real_of(f)) }
}

fn answer(q: &FloatQuery) -> FloatAnswer {
    let ints = matches!((&q.left, &q.right), (Value::Int(_), Value::Int(_)));
    let (a, b) = (number_of(&q.left), number_of(&q.right));
    match q.op {
        FloatOp::Literal => match &q.left {
            Value::Str(t) => FloatAnswer::Number(value_of(t.parse().unwrap_or(0.0), true)),
            _ => panic!("literal query without text"),
        },
        FloatOp::Number => match &q.left {
            Value::Str(t) => FloatAnswer::Number(Value::Float(real_of(t.parse().unwrap()))),
            _ => panic!("number query without text"),
        },
        FloatOp::Add => FloatAnswer::Number(value_of(a + b, ints)),
        FloatOp::Sub => FloatAnswer::Number(value_of(a - b, ints)),
        FloatOp::Mul => FloatAnswer::Number(value_of(a * b, ints)),
        FloatOp::Div => FloatAnswer::Number(value_of(if b != 0.0 { a / b } else { 0.0 }, ints)),
        FloatOp::Compare => FloatAnswer::Order(match a.partial_cmp(&b) {
            Some(std::cmp::Ordering::Less) => Comparison::Less,
            Some(std::cmp::Ordering::Equal) => Comparison::Equal,
            Some(std::cmp::Ordering::Greater) => Comparison::Greater,
            None => Comparison::Unordered,
        }),
        FloatOp::Equal => FloatAnswer::Same(a == b),
    }
}

fn hand_in(state: &mut State, gaps: Vec<FloatQuery>) -> bool {
    let any = !gaps.is_empty();
    for q in gaps {
        let a = answer(&q);
        state.add_float_fact(FloatFact { query: q, answer: a });
    }
    any
}

fn evaluate_with_floats(expr: &str, state: &State) -> Option<Value> {
    let mut st = state.clone();
    loop {
        let mut gaps = Vec::new();
        let v = evaluate_expr_noting(expr, &st, &mut gaps);
        if !hand_in(&mut st, gaps) {
            return v;
        }
    }
}

fn exec_with_floats(engine: &mut Engine, args: &mut ExecArgs) -> i32 {
    loop {
        let mut probe = engine.clone();
        let mut probe_args = ExecArgs { result: args.result.clone(), built: None };
        probe.exec(&mut probe_args);
        let gaps = probe.float_gaps().clone();
        if !hand_in(engine.state_mut(), gaps) {
            break;
        }
    }
    engine.exec(args)
}

fn float(text: &str) -> Value {
    Value::Float(Real::from_text(text.to_string()))
}

#[test]
fn division_gives_floats_and_zero_for_zero_divisor() {
    let st = State::new(StrMap::new());
    assert_eq!(evaluate_expr("5 / 0", &st), Some(Value::Int(0)));
    assert_eq!(evaluate_expr("7 / 2", &st), None);
    assert_eq!(evaluate_with_floats("7 / 2", &st), Some(float("3.5")));
    assert_eq!(evaluate_with_floats("5.5 / 0", &st), Some(Value::Float(Real::from_whole(0, false))));
    assert_eq!(evaluate_with_floats("3.14", &st), Some(float("3.14")));
    assert_eq!(evaluate_with_floats("0.1 + 0.2", &st), Some(float("0.30000000000000004")));
    assert_eq!(evaluate_with_floats("0.5 + 0.5", &st), Some(Value::Float(Real::from_whole(1, false))));
}

#[test]
fn the_query_is_reported_and_its_answer_used() {
    let mut st = State::new(StrMap::new());
    let mut gaps = Vec::new();
    assert_eq!(evaluate_expr_noting("7 / 2", &st, &mut gaps), None);
    assert_eq!(gaps.len(), 1);
    assert_eq!(gaps[0].op, FloatOp::Div);
    assert_eq!(gaps[0].left, Value::Int(7));
    assert_eq!(gaps[0].right, Value::Int(2));
    let q = gaps.pop().unwrap();
    st.add_float_fact(FloatFact { query: q, answer: FloatAnswer::Number(float("3.5")) });
    assert_eq!(evaluate_expr("7 / 2", &st), Some(float("3.5")));
    assert_eq!(evaluate_when("7 / 2", &st), Some(true));
    let mut none = Vec::new();
    evaluate_expr_noting("7 / 2", &st, &mut none);
    assert!(none.is_empty());
}

#[test]
fn float_comparisons_through_answers() {
    let mut vars = StrMap::new();
    vars.insert("x".to_string(), float("2.5"));
    let st = State::new(vars);
    assert_eq!(evaluate_when("x > 2", &st), None);
    assert_eq!(evaluate_with_floats("x > 2", &st), Some(Value::Bool(true)));
    assert_eq!(evaluate_with_floats("x == 2.5", &st), Some(Value::Bool(true)));
    assert_eq!(evaluate_with_floats("x * 2", &st), Some(Value::Float(Real::from_whole(5, false))));
}

#[test]
fn engine_runs_float_conditions_once_answered() {
    let yaml = "id: t\ntitle: t\nentry: s\nstate:\n  hp: 7\nscenes:\n  s:\n    - do:\n        ratio: \"hp / 2\"\n    - when: \"ratio > 3.4\"\n      text: high\n    - text: after\n    - end: true\n";
    let mut registry = Registry::new();
    registry.register("text", 2, YAMAMVA_PASS);
    let mut plain = Engine::new(parse(yaml).unwrap(), registry.clone());
    let mut args = ExecArgs::new();
    assert_eq!(plain.exec(&mut args), 2);
    assert!(!plain.float_gaps().is_empty());

    let mut engine = Engine::new(parse(yaml).unwrap(), registry);
    let mut args = ExecArgs::new();
    assert_eq!(exec_with_floats(&mut engine, &mut args), 2);
    assert_eq!(engine.state().get_value("ratio"), Some(float("3.5")));
    assert!(args.built.as_ref().unwrap().node_json.contains("high"));
    assert!(engine.warnings().is_empty());
    assert_eq!(exec_with_floats(&mut engine, &mut args), 2);
    assert!(args.built.as_ref().unwrap().node_json.contains("after"));
    assert_eq!(exec_with_floats(&mut engine, &mut args), YAMAMVA_END);
}

#[test]
fn branch_update_with_a_float() {
    let yaml = "id: t\ntitle: t\nentry: s\nscenes:\n  s:\n    - incase:\n        - do: { ratio: 2.5, big: \"1e3\" }\n          next: s2\n  s2:\n    - end: true\n";
    let mut plain = Engine::new(parse(yaml).unwrap(), Registry::new());
    assert_eq!(plain.exec(&mut ExecArgs::new()), YAMAMVA_END);
    assert_eq!(plain.state().get_value("ratio"), None);
    assert_eq!(plain.warnings().len(), 2);
    let mut engine = Engine::new(parse(yaml).unwrap(), Registry::new());
    assert_eq!(exec_with_floats(&mut engine, &mut ExecArgs::new()), YAMAMVA_END);
    assert_eq!(engine.state().get_value("ratio"), Some(float("2.5")));
    assert_eq!(engine.state().get_value("big"), Some(Value::Float(Real::from_whole(1000, false))));
    assert!(engine.warnings().is_empty());
}

#[test]
fn overflow_stays_infinite() {
    let mut vars = StrMap::new();
    vars.insert("x".to_string(), float("1e308"));
    let st = State::new(vars);
    assert_eq!(evaluate_with_floats("x * 10", &st), Some(float("inf")));
    assert_eq!(evaluate_with_floats("x * 10 > 0", &st), Some(Value::Bool(true)));
    assert_eq!(evaluate_with_floats("0 - x * 10 < 0", &st), Some(Value::Bool(true)));
}
