use yamamva::evaluator::{evaluate_do_value, evaluate_expr, evaluate_when};
use yamamva::json::Json;
use yamamva::state::{State, Value};
use yamamva::strmap::StrMap;

fn make_state() -> State {
    let mut vars = StrMap::new();
    vars.insert("heard_elmar".to_string(), Value::Bool(false));
    vars.insert("heard_veri".to_string(), Value::Bool(true));
    vars.insert("hearing_count".to_string(), Value::Int(2));
    vars.insert("accused".to_string(), Value::Str("".to_string()));
    State::new(vars)
}

#[test]
fn test_not_bool() {
    let state = make_state();
    assert_eq!(evaluate_when("not heard_elmar", &state), Some(true));
    assert_eq!(evaluate_when("not heard_veri", &state), Some(false));
}

#[test]
fn test_compare_int() {
    let state = make_state();
    assert_eq!(evaluate_when("hearing_count >= 1", &state), Some(true));
    assert_eq!(evaluate_when("hearing_count >= 2", &state), Some(true));
    assert_eq!(evaluate_when("hearing_count >= 3", &state), Some(false));
}

#[test]
fn test_compare_string() {
    let mut state = make_state();
    state.set("accused", Value::Str("til".to_string()));
    assert_eq!(evaluate_when("accused == 'til'", &state), Some(true));
    assert_eq!(evaluate_when("accused == 'elmar'", &state), Some(false));
}

#[test]
fn test_logical_and_or() {
    let mut state = make_state();
    state.set("heard_elmar", Value::Bool(true));
    assert_eq!(evaluate_when("heard_elmar and heard_veri", &state), Some(true));
    assert_eq!(evaluate_when("heard_elmar or heard_veri", &state), Some(true));
    state.set("heard_elmar", Value::Bool(false));
    assert_eq!(evaluate_when("heard_elmar and heard_veri", &state), Some(false));
    assert_eq!(evaluate_when("heard_elmar or heard_veri", &state), Some(true));
}

#[test]
fn test_arithmetic() {
    let state = make_state();
    let result = evaluate_expr("hearing_count + 1", &state);
    assert_eq!(result, Some(Value::Int(3)));
}

#[test]
fn test_result_variable() {
    let mut state = make_state();
    state.set_result(Some("elmar".to_string()));
    assert_eq!(evaluate_when("$result == 'elmar'", &state), Some(true));
    assert_eq!(evaluate_when("$result == 'til'", &state), Some(false));
}

#[test]
fn test_do_expression() {
    let state = make_state();
    let val = evaluate_do_value("hearing_count", &Json::Str("hearing_count + 1".to_string()), &state);
    assert_eq!(val, Some(Value::Int(3)));

    let val = evaluate_do_value("heard_elmar", &Json::Bool(true), &state);
    assert_eq!(val, Some(Value::Bool(true)));

    let val = evaluate_do_value("accused", &Json::Str("til".to_string()), &state);
    assert_eq!(val, Some(Value::Str("til".to_string())));
}

#[test]
fn test_compound_expression() {
    let mut state = make_state();
    assert_eq!(evaluate_when("hearing_count >= 1 and not accused == ''", &state), Some(false));
    state.set("accused", Value::Str("til".to_string()));
    assert_eq!(evaluate_when("hearing_count >= 1 and not accused == ''", &state), Some(true));
}
