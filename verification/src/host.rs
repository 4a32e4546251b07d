//! The answers that a host game reads from a running scenario as JSON text, and the
//! variable updates it makes from JSON values.
use vstd::prelude::*;
use crate::engine::Engine;
use crate::json::{Json, JsonV, json_norm, json_text, jv, to_json_string};
use crate::sources::{json_doc_of_text, parse_json_text};
use crate::state::{State, StateV, Value, json_value, read_var, value_json, vars_record};
use crate::strmap::StrMap;

verus! {

/// The JSON text of what reading `key` gives: the value, or `null`.
pub fn state_value_text(state: &State, key: &str) -> (s: String)
    ensures
        s@ == match read_var(state@, key@) {
            Some(v) => json_text(value_json(v)),
            None => "null"@,
        },
{
    match state.get_value(key) {
        Some(v) => to_json_string(&v.to_json()),
        None => String::from_str("null"),
    }
}

/// The JSON text of a metadata section of a running scenario: for `state`, the
/// current variables (keys in ascending order); otherwise the scenario's section of
/// that name, or `{}` where it has none.
pub fn meta_text(engine: &Engine, section: &str) -> (s: String)
    ensures
        section@ == "state"@ ==> s@ == json_text(vars_record(engine@.flow.state.vars)),
        section@ != "state"@ ==> s@ == if engine@.scenario.meta.contains_key(section@) {
            json_text(engine@.scenario.meta[section@])
        } else {
            "{}"@
        },
{
    if crate::text::str_equal(section, "state") {
        let d = engine.state().dump();
        return to_json_string(&d);
    }
    let meta: &StrMap<Json> = &engine.scenario().meta;
    match meta.get(section) {
        Some(j) => to_json_string(j),
        None => String::from_str("{}"),
    }
}

/// Sets `key` to the value that a JSON text stands for (see `set_state_json`); text
/// that is not JSON changes nothing.
pub fn set_state_text(state: &mut State, key: &str, value_json: &str)
    ensures
        final(state)@ == match json_doc_of_text(value_json@) {
            Ok(j) => match json_value(json_norm(j)) {
                Some(v) => StateV { vars: old(state)@.vars.insert(key@, v), ..old(state)@ },
                None => old(state)@,
            },
            Err(_) => old(state)@,
        },
{
    match parse_json_text(value_json) {
        Ok(j) => set_state_json(state, key, &j.normalized()),
        Err(_) => {},
    }
}

/// Sets `key` to the value that a JSON value stands for (a boolean, number or
/// string); any other JSON value changes nothing.
pub fn set_state_json(state: &mut State, key: &str, value: &Json)
    ensures
        final(state)@ == match json_value(jv(*value)) {
            Some(v) => StateV { vars: old(state)@.vars.insert(key@, v), ..old(state)@ },
            None => old(state)@,
        },
{
    match Value::from_json(value) {
        Some(v) => state.set(key, v),
        None => {},
    }
}

} // verus!
