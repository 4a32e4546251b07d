//! Scenario variables and the values they hold.
use vstd::prelude::*;
use crate::json::{
    Json, JsonV, Real, RealV, jv, jv_members, lemma_jv_members, lemma_members_get,
    lemma_members_unique,
    lemma_seq_lt_irrefl, members_ascending, members_get, members_keys, lemma_members_put_props,
    object_insert, seq_lt,
};
use crate::strmap::{StrMap, keys_distinct};
use crate::facts::{FloatAnswerV, FloatFact, FloatQueryV, facts_view};
use crate::text::{chars_of, owned, str_equal};
use crate::number::all_digits;
use crate::save::all_digits_exec;
use crate::sources::{float_text_of_integer, integer_float_text};

verus! {

/// A value of the expression language.
#[derive(Debug, Clone, PartialEq)]
pub enum Value {
    Bool(bool),
    Int(i64),
    Float(Real),
    Str(String),
}

/// The model of a value: strings as character sequences.
pub enum ValueV {
    Bool(bool),
    Int(i64),
    Float(RealV),
    Str(Seq<char>),
}

impl View for Value {
    type V = ValueV;

    open spec fn view(&self) -> ValueV {
        match self {
            Value::Bool(b) => ValueV::Bool(*b),
            Value::Int(n) => ValueV::Int(*n),
            Value::Float(r) => ValueV::Float(r@),
            Value::Str(s) => ValueV::Str(s@),
        }
    }
}

/// Whether a value counts as true: `true`, a non-zero number, a non-empty string.
pub open spec fn truthy(v: ValueV) -> bool {
    match v {
        ValueV::Bool(b) => b,
        ValueV::Int(n) => n != 0,
        ValueV::Float(r) => r.whole != Some(0i64),
        ValueV::Str(s) => s.len() > 0,
    }
}

/// The value that a JSON value stands for, if any: booleans, numbers and strings.
pub open spec fn json_value(j: JsonV) -> Option<ValueV> {
    match j {
        JsonV::Bool(b) => Some(ValueV::Bool(b)),
        JsonV::Int(n) => Some(ValueV::Int(n)),
        JsonV::Float(r) => Some(
            ValueV::Float(
                if integer_real(r) {
                    RealV { text: float_text_of_integer(r.text), whole: None, neg_zero: false }
                } else {
                    r
                },
            ),
        ),
        JsonV::Str(s) => Some(ValueV::Str(s)),
        _ => None,
    }
}

/// A JSON number held by its text that is an integer (one beyond the 64-bit signed
/// range): as a value it is the floating-point number nearest to that integer.
pub open spec fn integer_real(r: RealV) -> bool {
    r.whole is None && r.text.len() > 0 && all_digits(r.text)
}

/// The variables that JSON entries give: those with a boolean, number or string value.
pub open spec fn initial_vars(m: Map<Seq<char>, JsonV>) -> Map<Seq<char>, ValueV> {
    Map::new(
        |k: Seq<char>| m.contains_key(k) && json_value(m[k]).is_some(),
        |k: Seq<char>| json_value(m[k]).unwrap(),
    )
}

/// `j` records the variables `vars`: an object with one member per variable, in
/// ascending key order, each holding the variable's JSON value.
pub open spec fn records_vars(j: JsonV, vars: Map<Seq<char>, ValueV>) -> bool {
    &&& j is Object
    &&& members_ascending(j->Object_0)
    &&& members_keys(j->Object_0) == vars.dom()
    &&& forall|k: Seq<char>| #[trigger]
        vars.contains_key(k) ==> members_get(j->Object_0, k) == Some(value_json(vars[k]))
}

/// The record of the variables `vars`, the one JSON value that records them (see
/// `law_record_unique`).
pub open spec fn vars_record(vars: Map<Seq<char>, ValueV>) -> JsonV {
    choose|j: JsonV| records_vars(j, vars)
}

/// The JSON value of a value.
pub open spec fn value_json(v: ValueV) -> JsonV {
    match v {
        ValueV::Bool(b) => JsonV::Bool(b),
        ValueV::Int(n) => JsonV::Int(n),
        ValueV::Float(r) => JsonV::Float(r),
        ValueV::Str(s) => JsonV::Str(s),
    }
}

impl Value {
    /// A copy of this value.
    pub fn copy(&self) -> (r: Value)
        ensures
            r == *self,
            r@ == self@,
    {
        match self {
            Value::Bool(b) => Value::Bool(*b),
            Value::Int(n) => Value::Int(*n),
            Value::Float(f) => Value::Float(f.copy()),
            Value::Str(s) => Value::Str(s.clone()),
        }
    }

    /// Whether the value counts as true: `true`, a non-zero number, a non-empty string.
    pub fn is_truthy(&self) -> (b: bool)
        ensures
            b == truthy(self@),
    {
        match self {
            Value::Bool(b) => *b,
            Value::Int(n) => *n != 0,
            Value::Float(f) => !matches!(f.whole, Some(0)),
            Value::Str(s) => {
                let n = crate::text::chars_of(s.as_str()).len();
                n != 0
            },
        }
    }

    /// The JSON value of this value.
    pub fn to_json(&self) -> (j: Json)
        ensures
            jv(j) == value_json(self@),
    {
        match self {
            Value::Bool(b) => Json::Bool(*b),
            Value::Int(n) => Json::Int(*n),
            Value::Float(f) => Json::Float(f.copy()),
            Value::Str(s) => Json::Str(s.clone()),
        }
    }

    /// The value that a JSON value stands for: booleans, numbers and strings have one;
    /// null, arrays and objects have none.
    pub fn from_json(j: &Json) -> (r: Option<Value>)
        ensures
            match r {
                Some(v) => json_value(jv(*j)) == Some(v@),
                None => json_value(jv(*j)).is_none(),
            },
    {
        match j {
            Json::Bool(b) => Some(Value::Bool(*b)),
            Json::Int(n) => Some(Value::Int(*n)),
            Json::Float(f) => {
                let cs = chars_of(f.text.as_str());
                if f.whole.is_none() && cs.len() > 0 && all_digits_exec(&cs) {
                    let t = integer_float_text(f.text.as_str());
                    Some(Value::Float(Real { text: t, whole: None, neg_zero: false }))
                } else {
                    Some(Value::Float(f.copy()))
                }
            },
            Json::Str(s) => Some(Value::Str(s.clone())),
            _ => None,
        }
    }
}

/// The model of the variables: their values and the result that the game last gave.
pub struct StateV {
    pub vars: Map<Seq<char>, ValueV>,
    pub result: Option<Seq<char>>,
    /// The floating-point results handed in so far (see `facts`).
    pub facts: Seq<(FloatQueryV, FloatAnswerV)>,
}

/// The name by which expressions read the game's last result.
pub open spec fn result_name() -> Seq<char> {
    seq!['$', 'r', 'e', 's', 'u', 'l', 't']
}

/// What reading `key` gives: the game's last result as a string for `$result`,
/// otherwise the variable's value.
pub open spec fn read_var(st: StateV, key: Seq<char>) -> Option<ValueV> {
    if key == result_name() {
        match st.result {
            Some(r) => Some(ValueV::Str(r)),
            None => None,
        }
    } else if st.vars.contains_key(key) {
        Some(st.vars[key])
    } else {
        None
    }
}

/// Whether `key` has a value to read.
pub open spec fn has_var(st: StateV, key: Seq<char>) -> bool {
    read_var(st, key).is_some()
}

/// The variables of a running scenario, the result that the game last gave, and the
/// floating-point results handed in for evaluation.
#[derive(Debug, Clone)]
pub struct State {
    vars: StrMap<Value>,
    result: Option<String>,
    facts: Vec<FloatFact>,
}

impl View for State {
    type V = StateV;

    closed spec fn view(&self) -> StateV {
        StateV {
            vars: self.vars@.map_values(|v: Value| v@),
            result: self.result_opt_view(),
            facts: facts_view(self.facts@),
        }
    }
}

/// Whether `s` is `$result`.
fn is_result_name(s: &str) -> (b: bool)
    ensures
        b == (s@ == result_name()),
{
    proof {
        reveal_strlit("$result");
        assert("$result"@ =~= result_name());
    }
    str_equal(s, "$result")
}

impl State {
    closed spec fn result_opt_view(&self) -> Option<Seq<char>> {
        match self.result {
            Some(r) => Some(r@),
            None => None,
        }
    }

    /// The variables with their values.
    pub closed spec fn var_values(&self) -> Map<Seq<char>, Value> {
        self.vars@
    }

    /// A state with the given variables and no result.
    pub fn new(initial: StrMap<Value>) -> (s: State)
        ensures
            s.var_values() == initial@,
            s@.vars == initial@.map_values(|v: Value| v@),
            s@.result.is_none(),
            s@.facts == Seq::<(FloatQueryV, FloatAnswerV)>::empty(),
    {
        let s = State { vars: initial, result: None, facts: Vec::new() };
        assert(s@.facts =~= Seq::<(FloatQueryV, FloatAnswerV)>::empty());
        s
    }

    /// The floating-point results handed in so far.
    pub fn float_facts(&self) -> (f: &Vec<FloatFact>)
        ensures
            facts_view(f@) == self@.facts,
    {
        &self.facts
    }

    /// Hands in a floating-point result for evaluation to use.
    pub fn add_float_fact(&mut self, fact: FloatFact)
        ensures
            final(self).var_values() == old(self).var_values(),
            final(self)@ == (StateV { facts: old(self)@.facts.push(fact@), ..old(self)@ }),
    {
        self.facts.push(fact);
        assert(self@.facts =~= old(self)@.facts.push(fact@));
    }

    /// A state whose variables are the boolean, number and string entries of `map`,
    /// with no result.
    pub fn from_json_map(map: &StrMap<Json>) -> (s: State)
        ensures
            s@.result.is_none(),
            s@.facts == Seq::<(FloatQueryV, FloatAnswerV)>::empty(),
            forall|k: Seq<char>|
                #![trigger s@.vars.contains_key(k)]
                s@.vars.contains_key(k) <==> (map@.contains_key(k) && json_value(
                    jv(map@[k]),
                ).is_some()),
            forall|k: Seq<char>|
                #![trigger s@.vars.contains_key(k)]
                s@.vars.contains_key(k) ==> Some(s@.vars[k]) == json_value(jv(map@[k])),
            s@.vars == initial_vars(map@.map_values(|j: Json| jv(j))),
    {
        let es = map.entries();
        proof {
            map.lemma_entries();
        }
        let mut vars: StrMap<Value> = StrMap::new();
        let mut i: usize = 0;
        while i < es.len()
            invariant
                i <= es@.len(),
                es@ == map.entry_seq(),
                keys_distinct(es@),
                forall|j: int|
                    0 <= j < es@.len() ==> map@.contains_key(#[trigger] es@[j].0@) && map@[es@[j].0@]
                        == es@[j].1,
                forall|k: Seq<char>|
                    #![trigger vars@.contains_key(k)]
                    vars@.contains_key(k) <==> exists|j: int|
                        0 <= j < i && #[trigger] es@[j].0@ == k && json_value(jv(es@[j].1)).is_some(),
                forall|k: Seq<char>|
                    #![trigger vars@.contains_key(k)]
                    vars@.contains_key(k) ==> Some(vars@[k]@) == json_value(jv(map@[k])),
            decreases es@.len() - i,
        {
            let ghost k = es@[i as int].0@;
            match Value::from_json(&es[i].1) {
                Some(v) => {
                    vars.insert(es[i].0.clone(), v);
                    proof {
                        assert forall|q: Seq<char>| #![trigger vars@.contains_key(q)]
                            vars@.contains_key(q) implies exists|j: int|
                            0 <= j < i + 1 && #[trigger] es@[j].0@ == q && json_value(
                                jv(es@[j].1),
                            ).is_some() by {
                            if q == k {
                                assert(es@[i as int].0@ == q);
                            }
                        }
                    }
                },
                None => {
                    proof {
                        assert forall|q: Seq<char>| #![trigger vars@.contains_key(q)]
                            exists|j: int|
                                0 <= j < i + 1 && #[trigger] es@[j].0@ == q && json_value(
                                    jv(es@[j].1),
                                ).is_some() implies vars@.contains_key(q) by {
                            let j = choose|j: int|
                                0 <= j < i + 1 && #[trigger] es@[j].0@ == q && json_value(
                                    jv(es@[j].1),
                                ).is_some();
                            if j == i {
                                assert(false);
                            }
                        }
                    }
                },
            }
            i = i + 1;
        }
        let s = State { vars, result: None, facts: Vec::new() };
        assert(s@.facts =~= Seq::<(FloatQueryV, FloatAnswerV)>::empty());
        proof {
            assert forall|k: Seq<char>| #![trigger s@.vars.contains_key(k)] s@.vars.contains_key(k)
                <==> (map@.contains_key(k) && json_value(jv(map@[k])).is_some()) by {
                if map@.contains_key(k) {
                    let j = choose|j: int| 0 <= j < es@.len() && #[trigger] es@[j].0@ == k;
                    if json_value(jv(map@[k])).is_some() {
                        assert(vars@.contains_key(k));
                    }
                }
                if vars@.contains_key(k) {
                    let j = choose|j: int|
                        0 <= j < i && #[trigger] es@[j].0@ == k && json_value(jv(es@[j].1)).is_some();
                }
            }
            assert(s@.vars =~= initial_vars(map@.map_values(|j: Json| jv(j))));
        }
        s
    }

    /// The value of `key`. Not to be used for `$result` while a result is held.
    pub fn get(&self, key: &str) -> (r: Option<&Value>)
        requires
            !(key@ == result_name() && self@.result.is_some()),
        ensures
            match r {
                Some(v) => read_var(self@, key@) == Some(v@) && key@ != result_name(),
                None => read_var(self@, key@).is_none(),
            },
    {
        if is_result_name(key) {
            return None;
        }
        self.vars.get(key)
    }

    /// What reading `key` gives: the last result, as a string, for `$result`;
    /// otherwise a copy of the variable's value.
    pub fn get_value(&self, key: &str) -> (r: Option<Value>)
        ensures
            match r {
                Some(v) => read_var(self@, key@) == Some(v@),
                None => read_var(self@, key@).is_none(),
            },
    {
        if is_result_name(key) {
            return match &self.result {
                Some(s) => Some(Value::Str(s.clone())),
                None => None,
            };
        }
        match self.vars.get(key) {
            Some(v) => Some(v.copy()),
            None => None,
        }
    }

    /// Whether reading `key` gives a value.
    pub fn has_var(&self, key: &str) -> (b: bool)
        ensures
            b == has_var(self@, key@),
    {
        if is_result_name(key) {
            return self.result.is_some();
        }
        self.vars.contains_key(key)
    }

    /// Sets the variable `key` to `value`.
    pub fn set(&mut self, key: &str, value: Value)
        ensures
            final(self).var_values() == old(self).var_values().insert(key@, value),
            final(self)@.vars == old(self)@.vars.insert(key@, value@),
            final(self)@.result == old(self)@.result,
            final(self)@.facts == old(self)@.facts,
    {
        self.vars.insert(owned(key), value);
        assert(self@.vars =~= old(self)@.vars.insert(key@, value@));
    }

    /// The game's last result.
    pub fn get_result(&self) -> (r: Option<&String>)
        ensures
            match r {
                Some(s) => self@.result == Some(s@),
                None => self@.result.is_none(),
            },
    {
        self.result.as_ref()
    }

    /// Sets the game's last result.
    pub fn set_result(&mut self, result: Option<String>)
        ensures
            final(self).var_values() == old(self).var_values(),
            final(self)@.vars == old(self)@.vars,
            final(self)@.result == match result {
                Some(s) => Some(s@),
                None => None::<Seq<char>>,
            },
            final(self)@.facts == old(self)@.facts,
    {
        self.result = result;
    }

    /// The variables as a JSON object, keys in ascending order.
    pub fn dump(&self) -> (j: Json)
        ensures
            records_vars(jv(j), self@.vars),
            jv(j) == vars_record(self@.vars),
    {
        let es = self.vars.entries();
        proof {
            self.vars.lemma_entries();
        }
        let mut out: Vec<(String, Json)> = Vec::new();
        let mut i: usize = 0;
        assert(members_keys(jv_members(out@)) =~= Set::<Seq<char>>::empty());
        while i < es.len()
            invariant
                i <= es@.len(),
                es@ == self.vars.entry_seq(),
                keys_distinct(es@),
                forall|j: int|
                    0 <= j < es@.len() ==> self.vars@.contains_key(#[trigger] es@[j].0@)
                        && self.vars@[es@[j].0@] == es@[j].1,
                forall|k: Seq<char>|
                    #[trigger] self.vars@.contains_key(k) ==> exists|j: int|
                        0 <= j < es@.len() && #[trigger] es@[j].0@ == k,
                members_ascending(jv_members(out@)),
                members_keys(jv_members(out@)) == Set::new(
                    |k: Seq<char>| exists|j: int| 0 <= j < i && #[trigger] es@[j].0@ == k,
                ),
                forall|j: int|
                    0 <= j < i ==> members_get(jv_members(out@), #[trigger] es@[j].0@) == Some(
                        value_json(es@[j].1@),
                    ),
            decreases es@.len() - i,
        {
            let ghost m0 = jv_members(out@);
            let ghost k = es@[i as int].0@;
            let jval = es[i].1.to_json();
            object_insert(&mut out, es[i].0.clone(), jval);
            proof {
                lemma_members_put_props(m0, k, value_json(es@[i as int].1@));
                assert forall|j: int| 0 <= j < i + 1 implies members_get(
                    jv_members(out@),
                    #[trigger] es@[j].0@,
                ) == Some(value_json(es@[j].1@)) by {
                    if j < i {
                        assert(es@[j].0@ != k);
                    }
                }
                assert(members_keys(jv_members(out@)) =~= Set::new(
                    |q: Seq<char>| exists|j: int| 0 <= j < i + 1 && #[trigger] es@[j].0@ == q,
                )) by {
                    assert forall|q: Seq<char>| #[trigger] members_keys(jv_members(out@)).contains(
                        q,
                    ) implies exists|j: int| 0 <= j < i + 1 && #[trigger] es@[j].0@ == q by {
                        if q != k {
                            assert(members_keys(m0).contains(q));
                        } else {
                            assert(es@[i as int].0@ == q);
                        }
                    }
                }
            }
            i = i + 1;
        }
        proof {
            assert(members_keys(jv_members(out@)) =~= self@.vars.dom()) by {
                assert forall|q: Seq<char>| #[trigger] self.vars@.dom().contains(q) implies members_keys(
                    jv_members(out@),
                ).contains(q) by {
                    let j = choose|j: int| 0 <= j < es@.len() && #[trigger] es@[j].0@ == q;
                }
            }
            assert forall|k: Seq<char>| #[trigger] self@.vars.contains_key(k) implies members_get(
                jv_members(out@),
                k,
            ) == Some(value_json(self@.vars[k])) by {
                let j = choose|j: int| 0 <= j < es@.len() && #[trigger] es@[j].0@ == k;
            }
        }
        let j = Json::Object(out);
        proof {
            assert(records_vars(jv(j), self@.vars));
            assert(exists|x: JsonV| records_vars(x, self@.vars));
            law_record_unique(jv(j), vars_record(self@.vars), self@.vars);
        }
        j
    }

    /// Sets each variable named by a boolean, number or string entry of the JSON
    /// object `json`, entry by entry; anything else leaves the state as it is.
    pub fn restore(&mut self, json: &Json)
        ensures
            final(self)@.result == old(self)@.result,
            final(self)@.facts == old(self)@.facts,
            final(self)@.vars == match jv(*json) {
                JsonV::Object(es) => apply_json_entries(old(self)@.vars, es),
                _ => old(self)@.vars,
            },
    {
        match json {
            Json::Object(es) => {
                let mut i: usize = 0;
                while i < es.len()
                    invariant
                        i <= es@.len(),
                        self@.result == old(self)@.result,
                        self@.facts == old(self)@.facts,
                        self@.vars == apply_json_entries(
                            old(self)@.vars,
                            jv_members(es@).take(i as int),
                        ),
                    decreases es@.len() - i,
                {
                    proof {
                        lemma_jv_members(es@);
                        assert(jv_members(es@).take(i + 1).drop_last() =~= jv_members(es@).take(
                            i as int,
                        ));
                    }
                    match Value::from_json(&es[i].1) {
                        Some(v) => {
                            self.set(es[i].0.as_str(), v);
                        },
                        None => {},
                    }
                    i = i + 1;
                }
                proof {
                    lemma_jv_members(es@);
                }
                assert(jv_members(es@).take(es@.len() as int) =~= jv_members(es@));
            },
            _ => {},
        }
    }

    /// The variables' values.
    pub fn vars(&self) -> (m: &StrMap<Value>)
        ensures
            m@ == self.var_values(),
            m@.map_values(|v: Value| v@) == self@.vars,
    {
        &self.vars
    }
}

/// The variables after setting, entry by entry, those that a JSON entry gives a value.
pub open spec fn apply_json_entries(
    vars: Map<Seq<char>, ValueV>,
    s: Seq<(Seq<char>, JsonV)>,
) -> Map<Seq<char>, ValueV>
    decreases s.len(),
{
    if s.len() == 0 {
        vars
    } else {
        let m = apply_json_entries(vars, s.drop_last());
        match json_value(s.last().1) {
            Some(v) => m.insert(s.last().0, v),
            None => m,
        }
    }
}

/// Applying ascending members: a key among them whose value stands for a variable
/// value gets that value; every other key keeps what it had.
proof fn lemma_apply_entries(m: Map<Seq<char>, ValueV>, s: Seq<(Seq<char>, JsonV)>)
    requires
        members_ascending(s),
    ensures
        forall|k: Seq<char>|
            #![trigger apply_json_entries(m, s).contains_key(k)]
            apply_json_entries(m, s).contains_key(k) <==> (m.contains_key(k) || (members_get(
                s,
                k,
            ) is Some && json_value(members_get(s, k).unwrap()) is Some)),
        forall|k: Seq<char>|
            #![trigger apply_json_entries(m, s)[k]]
            apply_json_entries(m, s).contains_key(k) ==> apply_json_entries(m, s)[k] == match members_get(
                s,
                k,
            ) {
                Some(j) => match json_value(j) {
                    Some(v) => v,
                    None => m[k],
                },
                None => m[k],
            },
    decreases s.len(),
{
    if s.len() > 0 {
        let t = s.drop_last();
        let lk = s.last().0;
        assert(members_ascending(t)) by {
            assert forall|i: int, j: int| 0 <= i < j < t.len() implies seq_lt(
                #[trigger] t[i].0,
                #[trigger] t[j].0,
            ) by {
                assert(t[i] == s[i]);
                assert(t[j] == s[j]);
            }
        }
        lemma_apply_entries(m, t);
        assert(!members_keys(t).contains(lk)) by {
            if members_keys(t).contains(lk) {
                let i = choose|i: int| 0 <= i < t.len() && #[trigger] t[i].0 == lk;
                assert(t[i] == s[i]);
                assert(seq_lt(s[i].0, s[s.len() - 1].0));
                lemma_seq_lt_irrefl(lk);
            }
        }
        lemma_members_get(t);
        assert(members_get(t, lk).is_none());
    }
}

/// Restoring variables from a JSON object (as `State::restore` does, each key once)
/// sets each key whose value stands for a variable value to that value, and leaves
/// every other variable as it was.
pub proof fn law_restore_sets_each_key(
    m: Map<Seq<char>, ValueV>,
    s: Seq<(Seq<char>, JsonV)>,
    k: Seq<char>,
)
    requires
        members_ascending(s),
    ensures
        (members_get(s, k) is Some && json_value(members_get(s, k).unwrap()) is Some) ==> (
        apply_json_entries(m, s).contains_key(k) && apply_json_entries(m, s)[k] == json_value(
            members_get(s, k).unwrap(),
        ).unwrap()),
        !(members_get(s, k) is Some && json_value(members_get(s, k).unwrap()) is Some) ==> (
        apply_json_entries(
            m,
            s,
        ).contains_key(k) == m.contains_key(k) && (m.contains_key(k) ==> apply_json_entries(
            m,
            s,
        )[k] == m[k])),
{
    lemma_apply_entries(m, s);
    assert(apply_json_entries(m, s).contains_key(k) <==> (m.contains_key(k) || (members_get(
        s,
        k,
    ) is Some && json_value(members_get(s, k).unwrap()) is Some)));
    if apply_json_entries(m, s).contains_key(k) {
        assert(apply_json_entries(m, s)[k] == match members_get(s, k) {
            Some(j) => match json_value(j) {
                Some(v) => v,
                None => m[k],
            },
            None => m[k],
        });
    }
}

/// No variable holds a floating-point number written as integer digits alone (which
/// reading JSON takes for an integer beyond the 64-bit signed range).
pub open spec fn no_integer_text(vars: Map<Seq<char>, ValueV>) -> bool {
    forall|k: Seq<char>|
        #![trigger vars[k]]
        vars.contains_key(k) ==> !(vars[k] is Float && integer_real(vars[k]->Float_0))
}

/// Restoring a record of the variables `vars` (as `dump` makes it) over any
/// variables `m` overwrites exactly the recorded ones: `m` updated with `vars`.
pub proof fn law_restore_record(m: Map<Seq<char>, ValueV>, j: JsonV, vars: Map<Seq<char>, ValueV>)
    requires
        records_vars(j, vars),
        no_integer_text(vars),
    ensures
        apply_json_entries(m, j->Object_0) == m.union_prefer_right(vars),
{
    let s = j->Object_0;
    lemma_apply_entries(m, s);
    lemma_members_get(s);
    let a = apply_json_entries(m, s);
    assert forall|k: Seq<char>| #[trigger] a.contains_key(k) <==> m.union_prefer_right(
        vars,
    ).contains_key(k) by {
        if vars.contains_key(k) {
            assert(members_get(s, k) == Some(value_json(vars[k])));
            assert(json_value(value_json(vars[k])) == Some(vars[k]));
            assert(a.contains_key(k));
        } else {
            assert(!members_keys(s).contains(k));
            assert(members_get(s, k).is_none());
            assert(a.contains_key(k) <==> m.contains_key(k));
        }
    }
    assert forall|k: Seq<char>| #[trigger] a.contains_key(k) implies a[k] == m.union_prefer_right(
        vars,
    )[k] by {
        if vars.contains_key(k) {
            assert(members_get(s, k) == Some(value_json(vars[k])));
            assert(json_value(value_json(vars[k])) == Some(vars[k]));
            assert(a[k] == vars[k]);
        } else {
            assert(!members_keys(s).contains(k));
            assert(members_get(s, k).is_none());
            assert(a[k] == m[k]);
        }
    }
    assert(a =~= m.union_prefer_right(vars));
}

/// A variable reads back the value it was last set to (`$result` is not a
/// variable: it reads the game's last result).
pub proof fn law_set_then_read(st: StateV, k: Seq<char>, v: ValueV)
    requires
        k != result_name(),
    ensures
        read_var(StateV { vars: st.vars.insert(k, v), ..st }, k) == Some(v),
{
}

/// `$result` reads the result that was last stored, as a string, and nothing when
/// none is stored.
pub proof fn law_result_then_read(st: StateV, r: Option<Seq<char>>)
    ensures
        read_var(StateV { result: r, ..st }, result_name()) == match r {
            Some(s) => Some(ValueV::Str(s)),
            None => None,
        },
{
}

/// A record of variables is unique: two JSON values that record the same
/// variables are the same value, so `dump` (and the save record) writes one text.
pub proof fn law_record_unique(j1: JsonV, j2: JsonV, vars: Map<Seq<char>, ValueV>)
    requires
        records_vars(j1, vars),
        records_vars(j2, vars),
    ensures
        j1 == j2,
{
    let a = j1->Object_0;
    let b = j2->Object_0;
    lemma_members_get(a);
    lemma_members_get(b);
    assert forall|k: Seq<char>| #[trigger] members_get(a, k) == members_get(b, k) by {
        if vars.contains_key(k) {
        } else {
            assert(!members_keys(a).contains(k));
            assert(!members_keys(b).contains(k));
        }
    }
    lemma_members_unique(a, b);
}

} // verus!
