//! Saving an engine's position and variables as JSON, and restoring an engine from
//! such a record.
use vstd::prelude::*;
use crate::engine::{Cursor, Engine, EngineV, FlowV, file_of};
use crate::json::{
    Json, JsonV, Real, RealV, json_norm, json_text, jv, jv_members, members_get, object_get, to_json_string,
};
use crate::registry::{CommandEntry, Registry};
use crate::scenario::{Scenario, ScenarioV, scenario_view};
use crate::state::{
    State, StateV, apply_json_entries, initial_vars, no_integer_text, records_vars, vars_record,
};
use crate::text::{chars_of, concat2, nat_decimal, owned, u64_decimal};
use crate::sources::{json_doc_of_text, parse_json_text};
use crate::number::{all_digits, digits_value};
use crate::lexer::is_digit;

verus! {

/// The JSON number of a node index: an integer, written by its digits (one beyond
/// the 64-bit signed range is held as a number given by its text alone).
pub open spec fn index_json(n: int) -> JsonV {
    if n <= i64::MAX {
        JsonV::Int(n as i64)
    } else {
        JsonV::Float(RealV { text: nat_decimal(n as nat), whole: None, neg_zero: false })
    }
}

/// The JSON value of the last result: its text, or null.
pub open spec fn result_json(r: Option<Seq<char>>) -> JsonV {
    match r {
        Some(s) => JsonV::Str(s),
        None => JsonV::Null,
    }
}

/// `j` is the save record of `e`: the object `{"current_file", "node_index",
/// "result", "scene_id", "state", "version": 1}` with its members in that (ascending)
/// order.
pub open spec fn is_save_record(j: JsonV, e: EngineV) -> bool {
    match j {
        JsonV::Object(ms) => {
            &&& ms.len() == 6
            &&& ms[0] == ("current_file"@, JsonV::Str(e.flow.current_file))
            &&& ms[1] == ("node_index"@, index_json(e.flow.node_index))
            &&& ms[2] == ("result"@, result_json(e.flow.state.result))
            &&& ms[3] == ("scene_id"@, JsonV::Str(e.flow.scene_id))
            &&& ms[4].0 == "state"@
            &&& records_vars(ms[4].1, e.flow.state.vars)
            &&& ms[5] == ("version"@, JsonV::Int(1))
        },
        _ => false,
    }
}

/// The save record of `e`, written out: the object of `is_save_record` with the
/// variables' record.
pub open spec fn save_record(e: EngineV) -> JsonV {
    JsonV::Object(
        seq![
            ("current_file"@, JsonV::Str(e.flow.current_file)),
            ("node_index"@, index_json(e.flow.node_index)),
            ("result"@, result_json(e.flow.state.result)),
            ("scene_id"@, JsonV::Str(e.flow.scene_id)),
            ("state"@, vars_record(e.flow.state.vars)),
            ("version"@, JsonV::Int(1)),
        ],
    )
}

/// The save record of an engine.
pub fn save_json(engine: &Engine) -> (j: Json)
    ensures
        is_save_record(jv(j), engine@),
        jv(j) == save_record(engine@),
{
    let st = engine.state();
    let cursor = engine.cursor();
    let idx = cursor.node_index;
    let index = if (idx as u64) <= (i64::MAX as u64) {
        Json::Int(idx as i64)
    } else {
        let t = u64_decimal(idx as u64);
        proof {
            lemma_decimal_digits(idx as nat);
            assert(!is_digit('.'));
            if t@.len() >= 3 {
                assert(t@[t@.len() - 2] != '.');
            }
        }
        Json::Float(Real::from_text(t))
    };
    let result = match st.get_result() {
        Some(r) => Json::Str(r.clone()),
        None => Json::Null,
    };
    let mut ms: Vec<(String, Json)> = Vec::new();
    ms.push((String::from_str("current_file"), Json::Str(owned(engine.current_file()))));
    ms.push((String::from_str("node_index"), index));
    ms.push((String::from_str("result"), result));
    ms.push((String::from_str("scene_id"), Json::Str(cursor.scene_id.clone())));
    ms.push((String::from_str("state"), st.dump()));
    ms.push((String::from_str("version"), Json::Int(1)));
    let j = Json::Object(ms);
    proof {
        let m = jv_members(ms@);
        crate::json::lemma_jv_members(ms@);
        assert(m[0] == ("current_file"@, JsonV::Str(engine@.flow.current_file)));
        assert(m[1] == ("node_index"@, index_json(engine@.flow.node_index)));
        assert(m[2] == ("result"@, result_json(engine@.flow.state.result)));
        assert(m[3] == ("scene_id"@, JsonV::Str(engine@.flow.scene_id)));
        assert(m[5] == ("version"@, JsonV::Int(1)));
        assert(m[4].1 == vars_record(engine@.flow.state.vars));
        assert(m =~= save_record(engine@)->Object_0);
    }
    j
}

/// The save record of an engine as compact JSON text, members in ascending key
/// order.
pub fn save(engine: &Engine) -> (s: String)
    ensures
        s@ == json_text(save_record(engine@)),
        is_save_record(save_record(engine@), engine@),
{
    let j = save_json(engine);
    to_json_string(&j)
}

/// The non-negative whole number, up to `u64::MAX`, that a JSON value is: a
/// non-negative integer, or a number held by its text that is all digits.
pub open spec fn index_value(j: JsonV) -> Option<nat> {
    match j {
        JsonV::Int(n) => if n >= 0 {
            Some(n as nat)
        } else {
            None
        },
        JsonV::Float(r) => if r.whole.is_none() && r.text.len() > 0 && all_digits(r.text)
            && digits_value(r.text) <= u64::MAX {
            Some(digits_value(r.text))
        } else {
            None
        },
        _ => None,
    }
}

/// The member `k` of a JSON object (nothing for other values).
pub open spec fn field(j: JsonV, k: Seq<char>) -> Option<JsonV> {
    match j {
        JsonV::Object(ms) => members_get(ms, k),
        _ => None,
    }
}

/// The engine that a save record restores on a scenario: at the saved scene and
/// node index, in the saved file (or the scene's own file where none is saved),
/// with the scenario's initial variables overwritten by the saved ones, the saved
/// result, no warnings, not waiting. Without a string `scene_id` or a non-negative
/// whole number `node_index` (see `index_value`, of machine size) there is nothing
/// to restore.
pub open spec fn restored(sc: ScenarioV, registry: Map<Seq<char>, CommandEntry>, save: JsonV) -> Result<
    EngineV,
    Seq<char>,
> {
    match field(save, "scene_id"@) {
        Some(JsonV::Str(sid)) => match index_value(
            field(save, "node_index"@).unwrap_or(JsonV::Null),
        ) {
            Some(n) => if n <= usize::MAX {
                Ok(
                    EngineV {
                        scenario: sc,
                        registry,
                        flow: FlowV {
                            state: StateV {
                                vars: match field(save, "state"@) {
                                    Some(JsonV::Object(ms)) => apply_json_entries(
                                        initial_vars(sc.initial_state),
                                        ms,
                                    ),
                                    _ => initial_vars(sc.initial_state),
                                },
                                result: match field(save, "result"@) {
                                    Some(JsonV::Str(r)) => Some(r),
                                    _ => None,
                                },
                                facts: Seq::empty(),
                            },
                            scene_id: sid,
                            node_index: n as int,
                            current_file: match field(save, "current_file"@) {
                                Some(JsonV::Str(f)) => f,
                                _ => file_of(sc, sid),
                            },
                            warnings: Seq::empty(),
                        },
                        waiting: false,
                    },
                )
            } else {
                Err("missing node_index in save"@)
            },
            _ => Err("missing node_index in save"@),
        },
        _ => Err("missing scene_id in save"@),
    }
}

/// The member `k` of a JSON object.
fn field_exec<'a>(j: &'a Json, k: &str) -> (r: Option<&'a Json>)
    ensures
        match r {
            Some(x) => field(jv(*j), k@) == Some(jv(*x)),
            None => field(jv(*j), k@).is_none(),
        },
{
    match j {
        Json::Object(ms) => object_get(ms, k),
        _ => None,
    }
}

/// The value of the decimal digits `cs`, capped at one past `u64::MAX`.
fn digits_u64(cs: &Vec<char>) -> (v: u128)
    requires
        all_digits(cs@),
    ensures
        v as int == if digits_value(cs@) <= u64::MAX {
            digits_value(cs@) as int
        } else {
            u64::MAX + 1
        },
{
    let cap: u128 = 0x1_0000_0000_0000_0000u128;
    let mut v: u128 = 0;
    let mut i: usize = 0;
    while i < cs.len()
        invariant
            i <= cs@.len(),
            all_digits(cs@),
            cap == u64::MAX + 1,
            v as int == if digits_value(cs@.subrange(0, i as int)) <= u64::MAX {
                digits_value(cs@.subrange(0, i as int)) as int
            } else {
                u64::MAX + 1
            },
        decreases cs@.len() - i,
    {
        let ghost s0 = cs@.subrange(0, i as int);
        let ghost s1 = cs@.subrange(0, i + 1);
        assert(s1.drop_last() =~= s0);
        assert(s1.last() == cs@[i as int]);
        assert(is_digit(cs@[i as int]));
        let d = (cs[i] as u32 - '0' as u32) as u128;
        assert(digits_value(s1) == digits_value(s0) * 10 + d);
        assert(digits_value(s0) > u64::MAX ==> digits_value(s1) > u64::MAX) by (nonlinear_arith)
            requires
                digits_value(s1) == digits_value(s0) * 10 + d,
        ;
        v = if v >= cap {
            cap
        } else {
            let w: u128 = v * 10 + d;
            if w > cap {
                cap
            } else {
                w
            }
        };
        i = i + 1;
    }
    assert(cs@.subrange(0, cs@.len() as int) =~= cs@);
    v
}

/// The node index that a JSON value is (see `index_value`).
fn index_exec(j: &Json) -> (r: Option<u64>)
    ensures
        match r {
            Some(n) => index_value(jv(*j)) == Some(n as nat),
            None => index_value(jv(*j)).is_none(),
        },
{
    match j {
        Json::Int(n) => {
            if *n >= 0 {
                Some(*n as u64)
            } else {
                None
            }
        },
        Json::Float(r) => {
            if r.whole.is_some() {
                return None;
            }
            let cs = chars_of(r.text.as_str());
            if cs.len() == 0 || !all_digits_exec(&cs) {
                return None;
            }
            let v = digits_u64(&cs);
            if v > u64::MAX as u128 {
                None
            } else {
                Some(v as u64)
            }
        },
        _ => None,
    }
}

/// Whether every character of `cs` is an ASCII digit.
pub(crate) fn all_digits_exec(cs: &Vec<char>) -> (b: bool)
    ensures
        b == all_digits(cs@),
{
    let mut i: usize = 0;
    while i < cs.len()
        invariant
            i <= cs@.len(),
            forall|k: int| 0 <= k < i ==> is_digit(#[trigger] cs@[k]),
        decreases cs@.len() - i,
    {
        if !('0' <= cs[i] && cs[i] <= '9') {
            return false;
        }
        i = i + 1;
    }
    true
}

/// Restores an engine on `scenario` from save text: the record that the JSON text
/// holds, its numbers read by `real_of_text`; text that is not JSON is an error with
/// the JSON parser's message after `invalid save JSON: `.
pub fn restore(scenario: Scenario, registry: Registry, save_json: &str) -> (r: Result<
    Engine,
    String,
>)
    ensures
        match json_doc_of_text(save_json@) {
            Err(m) => (r matches Err(e) && e@ == "invalid save JSON: "@ + m),
            Ok(j) => match r {
                Ok(e) => restored(scenario_view(scenario), registry@, json_norm(j)) == Ok::<
                    EngineV,
                    Seq<char>,
                >(e@),
                Err(m) => restored(scenario_view(scenario), registry@, json_norm(j)) == Err::<
                    EngineV,
                    Seq<char>,
                >(m@),
            },
        },
{
    match parse_json_text(save_json) {
        Ok(j) => restore_json(scenario, registry, &j.normalized()),
        Err(m) => Err(concat2("invalid save JSON: ", m.as_str())),
    }
}

/// Restores an engine on `scenario` from a save record.
pub fn restore_json(scenario: Scenario, registry: Registry, save: &Json) -> (r: Result<Engine, String>)
    ensures
        match r {
            Ok(e) => restored(scenario_view(scenario), registry@, jv(*save)) == Ok::<
                EngineV,
                Seq<char>,
            >(e@),
            Err(m) => restored(scenario_view(scenario), registry@, jv(*save)) == Err::<
                EngineV,
                Seq<char>,
            >(m@),
        },
{
    proof {
        reveal_strlit("missing scene_id in save");
        reveal_strlit("missing node_index in save");
    }
    let scene_id = match field_exec(save, "scene_id") {
        Some(Json::Str(s)) => s.clone(),
        _ => {
            return Err(String::from_str("missing scene_id in save"));
        },
    };
    let node_index: usize = match field_exec(save, "node_index") {
        Some(j) => match index_exec(j) {
            Some(n) => {
                if n <= usize::MAX as u64 {
                    n as usize
                } else {
                    return Err(String::from_str("missing node_index in save"));
                }
            },
            None => {
                return Err(String::from_str("missing node_index in save"));
            },
        },
        None => {
            return Err(String::from_str("missing node_index in save"));
        },
    };
    let mut state = State::from_json_map(&scenario.initial_state);
    match field_exec(save, "state") {
        Some(sj) => state.restore(sj),
        None => {},
    }
    match field_exec(save, "result") {
        Some(Json::Str(r)) => state.set_result(Some(r.clone())),
        _ => {},
    }
    let current_file = match field_exec(save, "current_file") {
        Some(Json::Str(f)) => f.clone(),
        _ => {
            proof {
                reveal_strlit("__root__");
                assert("__root__"@ =~= crate::engine::root_file_name());
            }
            match scenario.scene_file.get(scene_id.as_str()) {
                Some(f) => f.clone(),
                None => String::from_str("__root__"),
            }
        },
    };
    let cursor = Cursor { scene_id, node_index };
    Ok(Engine::at(scenario, registry, state, cursor, current_file))
}

/// The member found for `k` is the last one with that key.
proof fn lemma_members_get_last(s: Seq<(Seq<char>, JsonV)>, i: int, k: Seq<char>)
    requires
        0 <= i < s.len(),
        s[i].0 == k,
        forall|j: int| i < j < s.len() ==> #[trigger] s[j].0 != k,
    ensures
        members_get(s, k) == Some(s[i].1),
    decreases s.len(),
{
    if i < s.len() - 1 {
        let t = s.drop_last();
        assert(s[s.len() - 1].0 != k);
        assert forall|j: int| i < j < t.len() implies #[trigger] t[j].0 != k by {
            assert(t[j] == s[j]);
        }
        lemma_members_get_last(t, i, k);
    }
}

/// The decimal rendering of `n` is a non-empty string of digits whose value is `n`.
proof fn lemma_decimal_digits(n: nat)
    ensures
        nat_decimal(n).len() > 0,
        all_digits(nat_decimal(n)),
        digits_value(nat_decimal(n)) == n,
    decreases n,
{
    if n < 10 {
        let s = nat_decimal(n);
        assert(s.drop_last() =~= Seq::<char>::empty());
        assert(crate::text::digit_char(n as int) as int == n + '0' as int);
        assert(digits_value(s.drop_last()) == 0);
        assert(digits_value(s) == digits_value(s.drop_last()) * 10 + ((s.last() as int) - ('0' as int)) as nat);
    } else {
        lemma_decimal_digits(n / 10);
        let s = nat_decimal(n);
        assert(s.drop_last() =~= nat_decimal(n / 10));
        assert(crate::text::digit_char((n % 10) as int) as int == (n % 10) + '0' as int);
        assert(n == (n / 10) * 10 + n % 10);
        assert(digits_value(s) == digits_value(s.drop_last()) * 10 + ((s.last() as int) - ('0' as int)) as nat);
        assert forall|i: int| 0 <= i < s.len() implies is_digit(#[trigger] s[i]) by {
            if i < s.len() - 1 {
                assert(s[i] == nat_decimal(n / 10)[i]);
            }
        }
    }
}

/// Restoring an engine's save record on the engine's own scenario and registry
/// gives the engine back: the same position, file, variables and result, with no
/// warnings and not waiting (so a blocking command whose result was awaited is
/// dispatched again); floating-point results handed in are not part of the record.
/// This holds where the engine still has every initial variable, and no variable
/// holds a floating-point number written as integer digits alone.
pub proof fn law_save_restore(e: EngineV, j: JsonV)
    requires
        is_save_record(j, e),
        0 <= e.flow.node_index <= usize::MAX,
        initial_vars(e.scenario.initial_state).dom().subset_of(e.flow.state.vars.dom()),
        no_integer_text(e.flow.state.vars),
    ensures
        restored(e.scenario, e.registry, j) == Ok::<EngineV, Seq<char>>(
            EngineV {
                flow: FlowV {
                    warnings: Seq::empty(),
                    state: StateV { facts: Seq::empty(), ..e.flow.state },
                    ..e.flow
                },
                waiting: false,
                ..e
            },
        ),
{
    reveal_strlit("current_file");
    reveal_strlit("node_index");
    reveal_strlit("result");
    reveal_strlit("scene_id");
    reveal_strlit("state");
    reveal_strlit("version");
    let ms = j->Object_0;
    assert("current_file"@.len() == 12);
    assert("node_index"@.len() == 10);
    assert("result"@.len() == 6);
    assert("scene_id"@.len() == 8);
    assert("state"@.len() == 5);
    assert("version"@.len() == 7);
    assert(ms[1].0 != "current_file"@);
    assert(ms[2].0 != "current_file"@);
    assert(ms[3].0 != "current_file"@);
    assert(ms[4].0 != "current_file"@);
    assert(ms[5].0 != "current_file"@);
    lemma_members_get_last(ms, 0, "current_file"@);
    assert(ms[2].0 != "node_index"@);
    assert(ms[3].0 != "node_index"@);
    assert(ms[4].0 != "node_index"@);
    assert(ms[5].0 != "node_index"@);
    lemma_members_get_last(ms, 1, "node_index"@);
    assert(ms[3].0 != "result"@);
    assert(ms[4].0 != "result"@);
    assert(ms[5].0 != "result"@);
    lemma_members_get_last(ms, 2, "result"@);
    assert(ms[4].0 != "scene_id"@);
    assert(ms[5].0 != "scene_id"@);
    lemma_members_get_last(ms, 3, "scene_id"@);
    assert(ms[5].0 != "state"@);
    lemma_members_get_last(ms, 4, "state"@);
    assert(field(j, "scene_id"@) == Some(JsonV::Str(e.flow.scene_id)));
    assert(field(j, "node_index"@) == Some(index_json(e.flow.node_index)));
    if e.flow.node_index > i64::MAX {
        lemma_decimal_digits(e.flow.node_index as nat);
    }
    assert(index_value(index_json(e.flow.node_index)) == Some(e.flow.node_index as nat));
    assert(field(j, "state"@) == Some(ms[4].1));
    assert(field(j, "result"@) == Some(result_json(e.flow.state.result)));
    assert(field(j, "current_file"@) == Some(JsonV::Str(e.flow.current_file)));
    let init = initial_vars(e.scenario.initial_state);
    crate::state::law_restore_record(init, ms[4].1, e.flow.state.vars);
    assert(init.union_prefer_right(e.flow.state.vars) =~= e.flow.state.vars);
}

} // verus!
