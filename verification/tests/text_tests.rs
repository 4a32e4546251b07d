use yamamva::engine::Engine;
use yamamva::error::YamamvaError;
use yamamva::evaluator::evaluate_expr;
use yamamva::host::set_state_text;
use yamamva::json::{Json, Real, to_json_string};
use yamamva::number::str_to_exact;
use yamamva::parser::parse;
use yamamva::registry::Registry;
use yamamva::save::{restore, save};
use yamamva::state::{State, Value};
use yamamva::strmap::StrMap;
use yamamva::world::World;

const DOC: &str = "id: t\ntitle: t\nentry: s\nscenes:\n  s:\n    - end: true\n";

#[test]
fn yaml_syntax_error_is_reported() {
    let e = parse("id: [unclosed").err().unwrap();
    assert!(e.message.starts_with("YAML syntax error: "));
    assert!(e.message.len() > "YAML syntax error: ".len());
}

#[test]
fn yaml_floats_become_json_numbers() {
    let s = parse("id: t\ntitle: t\nentry: s\nstate:\n  a: 2.0\n  b: 2.5\n  c: .nan\n  d: -0.0\nscenes:\n  s:\n    - end: true\n").unwrap();
    assert_eq!(to_json_string(s.initial_state.get("a").unwrap()), "2.0");
    assert!(matches!(s.initial_state.get("a").unwrap(), Json::Float(r) if r.whole == Some(2)));
    assert!(matches!(s.initial_state.get("b").unwrap(), Json::Float(r) if r.whole.is_none() && r.text == "2.5"));
    assert!(matches!(s.initial_state.get("c").unwrap(), Json::Null));
    assert!(matches!(s.initial_state.get("d").unwrap(), Json::Float(r) if r.neg_zero && r.whole == Some(0)));
}

#[test]
fn real_of_text_reads_whole_numbers() {
    assert_eq!(Real::of_text("12.0".to_string()).whole, Some(12));
    assert_eq!(Real::of_text("-3.0".to_string()).whole, Some(-3));
    assert!(Real::of_text("-0.0".to_string()).neg_zero);
    assert_eq!(Real::of_text("1.5".to_string()).whole, None);
    assert_eq!(Real::of_text("1e16".to_string()).whole, None);
    assert_eq!(Real::of_text("9007199254740993.0".to_string()).whole, None);
}

#[test]
fn world_text_errors() {
    let e = World::from_text("id: [x").err().unwrap();
    assert!(matches!(&e, YamamvaError::Parse(m) if !m.starts_with("YAML syntax error")));
    let mut w = World::from_text("id: w\nentry: s\n").unwrap();
    let e = w.add_scene_text("a", "s: [").err().unwrap();
    assert!(matches!(&e, YamamvaError::Parse(m) if m.starts_with("YAML syntax error: ")));
    w.add_scene_text("a", "s:\n  - end: true\n").unwrap();
    let s = w.finish().unwrap();
    assert_eq!(s.scene_file.get("s").unwrap(), "a");
}

#[test]
fn restore_rejects_text_that_is_not_json() {
    let r = restore(parse(DOC).unwrap(), Registry::new(), "{not json");
    assert!(r.err().unwrap().starts_with("invalid save JSON: "));
}

#[test]
fn restore_accepts_node_index_beyond_i64() {
    let text = r#"{"scene_id":"s","node_index":18446744073709551615}"#;
    let e: Engine = restore(parse(DOC).unwrap(), Registry::new(), text).unwrap();
    assert_eq!(e.cursor().node_index as u64, u64::MAX);
    let again = save(&e);
    assert!(again.contains(r#""node_index":18446744073709551615"#));
    let back = restore(parse(DOC).unwrap(), Registry::new(), &again).unwrap();
    assert_eq!(back.cursor().node_index as u64, u64::MAX);
    let r = restore(parse(DOC).unwrap(), Registry::new(), r#"{"scene_id":"s","node_index":1.5}"#);
    assert_eq!(r.err(), Some("missing node_index in save".to_string()));
}

#[test]
fn restore_reads_whole_floats_exactly() {
    let text = r#"{"scene_id":"s","node_index":0,"state":{"f":4.0}}"#;
    let e = restore(parse(DOC).unwrap(), Registry::new(), text).unwrap();
    assert_eq!(e.state().get_value("f"), Some(Value::Float(Real::from_whole(4, false))));
}

#[test]
fn text_that_is_not_a_number_reads_as_zero() {
    assert_eq!(str_to_exact("12abc"), Some((0, false)));
    assert_eq!(str_to_exact("1e"), Some((0, false)));
    assert_eq!(str_to_exact("-12.000"), Some((-12, false)));
    assert_eq!(str_to_exact("+7"), Some((7, false)));
    assert_eq!(str_to_exact("-0"), Some((0, true)));
    assert_eq!(str_to_exact("1.5"), None);
    assert_eq!(str_to_exact("NaN"), None);
    let mut vars = StrMap::new();
    vars.insert("s".to_string(), Value::Str("12abc".to_string()));
    let st = State::new(vars);
    assert_eq!(evaluate_expr("s + 1", &st), Some(Value::Float(Real::from_whole(1, false))));
}

#[test]
fn state_from_json_text() {
    let mut st = State::new(StrMap::new());
    set_state_text(&mut st, "a", "3");
    set_state_text(&mut st, "b", "2.0");
    set_state_text(&mut st, "c", "{oops");
    set_state_text(&mut st, "d", "[1]");
    assert_eq!(st.get_value("a"), Some(Value::Int(3)));
    assert_eq!(st.get_value("b"), Some(Value::Float(Real::from_whole(2, false))));
    assert_eq!(st.get_value("c"), None);
    assert_eq!(st.get_value("d"), None);
}

#[test]
fn integer_beyond_i64_is_a_float_value() {
    let mut st = State::new(StrMap::new());
    set_state_text(&mut st, "big", "18446744073709551615");
    let text = serde_json::to_string(&(u64::MAX as f64)).unwrap();
    assert_eq!(st.get_value("big"), Some(Value::Float(Real::from_text(text.clone()))));
    assert_eq!(to_json_string(&st.dump()), format!("{{\"big\":{}}}", text));
}
