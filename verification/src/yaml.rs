//! YAML documents as the library reads them.
//!
//! A document is the tree that a YAML parser produces: scalars, sequences, mappings
//! with their entries in document order, and tagged values. Lookups follow the
//! YAML value model: accessors look through tags, a mapping lookup by name matches
//! keys that are exactly that string.
use vstd::prelude::*;
use crate::json::{
    Json, JsonV, Real, jv, real_of_text, jv_items, jv_members, members_ascending, members_put,
    object_insert,
};
use crate::text::str_equal;

verus! {

/// A YAML number that is not a 64-bit signed integer.
#[derive(Debug, Clone)]
pub struct YamlFloat {
    /// The number as the YAML library displays it.
    pub text: String,
    /// The number as JSON text: `null` where it is not finite (JSON has no such
    /// number).
    pub json_text: String,
}

/// A YAML value.
#[derive(Debug)]
pub enum Yaml {
    Null,
    Bool(bool),
    Int(i64),
    Float(YamlFloat),
    Str(String),
    List(Vec<Yaml>),
    Mapping(Vec<(Yaml, Yaml)>),
    /// A value with a tag (the tag itself plays no part).
    Tagged(Box<Yaml>),
}

/// The model of a YAML value.
pub enum YamlV {
    Null,
    Bool(bool),
    Int(i64),
    Float(Seq<char>, Seq<char>),
    Str(Seq<char>),
    List(Seq<YamlV>),
    Mapping(Seq<(YamlV, YamlV)>),
    Tagged(Box<YamlV>),
}

/// The model of a YAML value.
pub open spec fn yv(y: Yaml) -> YamlV
    decreases y,
{
    match y {
        Yaml::Null => YamlV::Null,
        Yaml::Bool(b) => YamlV::Bool(b),
        Yaml::Int(n) => YamlV::Int(n),
        Yaml::Float(f) => YamlV::Float(f.text@, f.json_text@),
        Yaml::Str(s) => YamlV::Str(s@),
        Yaml::List(v) => YamlV::List(yv_items(v@)),
        Yaml::Mapping(e) => YamlV::Mapping(yv_entries(e@)),
        Yaml::Tagged(t) => YamlV::Tagged(Box::new(yv(*t))),
    }
}

/// The models of sequence items.
pub open spec fn yv_items(s: Seq<Yaml>) -> Seq<YamlV>
    decreases s,
{
    if s.len() == 0 {
        Seq::empty()
    } else {
        yv_items(s.drop_last()).push(yv(s.last()))
    }
}

/// The models of mapping entries.
pub open spec fn yv_entries(s: Seq<(Yaml, Yaml)>) -> Seq<(YamlV, YamlV)>
    decreases s,
{
    if s.len() == 0 {
        Seq::empty()
    } else {
        yv_entries(s.drop_last()).push((yv(s.last().0), yv(s.last().1)))
    }
}

/// Item `i` of the models is the model of item `i`.
pub proof fn lemma_yv_items(s: Seq<Yaml>)
    ensures
        yv_items(s).len() == s.len(),
        forall|i: int| 0 <= i < s.len() ==> #[trigger] yv_items(s)[i] == yv(s[i]),
    decreases s.len(),
{
    if s.len() > 0 {
        lemma_yv_items(s.drop_last());
    }
}

/// Entry `i` of the models is the model of entry `i`.
pub proof fn lemma_yv_entries(s: Seq<(Yaml, Yaml)>)
    ensures
        yv_entries(s).len() == s.len(),
        forall|i: int|
            0 <= i < s.len() ==> #[trigger] yv_entries(s)[i] == (yv(s[i].0), yv(s[i].1)),
    decreases s.len(),
{
    if s.len() > 0 {
        lemma_yv_entries(s.drop_last());
    }
}

/// The value under any tags.
pub open spec fn untag(y: YamlV) -> YamlV
    decreases y,
{
    match y {
        YamlV::Tagged(t) => untag(*t),
        _ => y,
    }
}

/// The string a value is, looking through tags.
pub open spec fn as_str(y: YamlV) -> Option<Seq<char>> {
    match untag(y) {
        YamlV::Str(s) => Some(s),
        _ => None,
    }
}

/// The entries of a mapping, looking through tags.
pub open spec fn as_mapping(y: YamlV) -> Option<Seq<(YamlV, YamlV)>> {
    match untag(y) {
        YamlV::Mapping(e) => Some(e),
        _ => None,
    }
}

/// The items of a sequence, looking through tags.
pub open spec fn as_sequence(y: YamlV) -> Option<Seq<YamlV>> {
    match untag(y) {
        YamlV::List(v) => Some(v),
        _ => None,
    }
}

/// The position of the first entry whose key is exactly the string `k`.
pub open spec fn entry_index(e: Seq<(YamlV, YamlV)>, k: Seq<char>) -> Option<int> {
    if exists|i: int| 0 <= i < e.len() && e[i].0 == YamlV::Str(k) {
        Some(
            choose|i: int|
                0 <= i < e.len() && e[i].0 == YamlV::Str(k) && forall|j: int|
                    0 <= j < i ==> e[j].0 != YamlV::Str(k),
        )
    } else {
        None
    }
}

/// The value of the string key `k` in mapping entries.
pub open spec fn entries_lookup(e: Seq<(YamlV, YamlV)>, k: Seq<char>) -> Option<YamlV> {
    match entry_index(e, k) {
        Some(i) => Some(e[i].1),
        None => None,
    }
}

/// The value of the string key `k` when `y` is a mapping.
pub open spec fn get(y: YamlV, k: Seq<char>) -> Option<YamlV> {
    match as_mapping(y) {
        Some(e) => entries_lookup(e, k),
        None => None,
    }
}

/// The JSON value of a YAML value: numbers as integers or floating-point numbers
/// (not-finite ones as null), mappings as objects of their string keys (a later key
/// of the same name wins; other keys are dropped), tags looked through.
pub open spec fn yaml_json(y: YamlV) -> JsonV
    decreases y,
{
    match y {
        YamlV::Null => JsonV::Null,
        YamlV::Bool(b) => JsonV::Bool(b),
        YamlV::Int(n) => JsonV::Int(n),
        YamlV::Float(_, t) => if t == "null"@ {
            JsonV::Null
        } else {
            JsonV::Float(real_of_text(t))
        },
        YamlV::Str(s) => JsonV::Str(s),
        YamlV::List(v) => JsonV::Array(yaml_json_items(v)),
        YamlV::Mapping(e) => JsonV::Object(yaml_json_members(e)),
        YamlV::Tagged(t) => yaml_json(*t),
    }
}

/// The JSON values of sequence items.
pub open spec fn yaml_json_items(s: Seq<YamlV>) -> Seq<JsonV>
    decreases s,
{
    if s.len() == 0 {
        Seq::empty()
    } else {
        yaml_json_items(s.drop_last()).push(yaml_json(s.last()))
    }
}

/// The JSON object members of mapping entries.
pub open spec fn yaml_json_members(s: Seq<(YamlV, YamlV)>) -> Seq<(Seq<char>, JsonV)>
    decreases s,
{
    if s.len() == 0 {
        Seq::empty()
    } else {
        let m = yaml_json_members(s.drop_last());
        match as_str(s.last().0) {
            Some(k) => members_put(m, k, yaml_json(s.last().1)),
            None => m,
        }
    }
}

/// `yaml_json_members` gives ascending members.
pub proof fn lemma_yaml_json_members(s: Seq<(YamlV, YamlV)>)
    ensures
        members_ascending(yaml_json_members(s)),
    decreases s.len(),
{
    if s.len() > 0 {
        lemma_yaml_json_members(s.drop_last());
        match as_str(s.last().0) {
            Some(k) => crate::json::lemma_members_put_props(
                yaml_json_members(s.drop_last()),
                k,
                yaml_json(s.last().1),
            ),
            None => {},
        }
    }
}

impl Yaml {
    /// The value under any tags.
    pub fn untagged(&self) -> (r: &Yaml)
        ensures
            yv(*r) == untag(yv(*self)),
            !(r is Tagged),
        decreases self,
    {
        match self {
            Yaml::Tagged(t) => t.untagged(),
            _ => self,
        }
    }

    /// The string this value is, looking through tags.
    pub fn as_str(&self) -> (r: Option<&String>)
        ensures
            match r {
                Some(s) => as_str(yv(*self)) == Some(s@),
                None => as_str(yv(*self)).is_none(),
            },
    {
        match self.untagged() {
            Yaml::Str(s) => Some(s),
            _ => None,
        }
    }

    /// The entries of this mapping, looking through tags.
    pub fn as_mapping(&self) -> (r: Option<&Vec<(Yaml, Yaml)>>)
        ensures
            match r {
                Some(e) => as_mapping(yv(*self)) == Some(yv_entries(e@)),
                None => as_mapping(yv(*self)).is_none(),
            },
    {
        match self.untagged() {
            Yaml::Mapping(e) => Some(e),
            _ => None,
        }
    }

    /// The items of this sequence, looking through tags.
    pub fn as_sequence(&self) -> (r: Option<&Vec<Yaml>>)
        ensures
            match r {
                Some(v) => as_sequence(yv(*self)) == Some(yv_items(v@)),
                None => as_sequence(yv(*self)).is_none(),
            },
    {
        match self.untagged() {
            Yaml::List(v) => Some(v),
            _ => None,
        }
    }

    /// Whether this value is exactly the string `k` (no tag).
    pub fn is_str(&self, k: &str) -> (b: bool)
        ensures
            b == (yv(*self) == YamlV::Str(k@)),
    {
        match self {
            Yaml::Str(s) => str_equal(s.as_str(), k),
            _ => false,
        }
    }

    /// The value of the string key `k` when this value is a mapping.
    pub fn get(&self, k: &str) -> (r: Option<&Yaml>)
        ensures
            match r {
                Some(v) => get(yv(*self), k@) == Some(yv(*v)),
                None => get(yv(*self), k@).is_none(),
            },
    {
        match self.as_mapping() {
            Some(e) => mapping_get(e, k),
            None => None,
        }
    }
}

/// The value of the string key `k` among mapping entries.
pub fn mapping_get<'a>(e: &'a Vec<(Yaml, Yaml)>, k: &str) -> (r: Option<&'a Yaml>)
    ensures
        match r {
            Some(v) => entries_lookup(yv_entries(e@), k@) == Some(yv(*v)),
            None => entries_lookup(yv_entries(e@), k@).is_none(),
        },
{
    let ghost m = yv_entries(e@);
    proof {
        lemma_yv_entries(e@);
    }
    let mut i: usize = 0;
    while i < e.len()
        invariant
            i <= e@.len(),
            m == yv_entries(e@),
            m.len() == e@.len(),
            forall|j: int| 0 <= j < e@.len() ==> #[trigger] m[j] == (yv(e@[j].0), yv(e@[j].1)),
            forall|j: int| 0 <= j < i ==> m[j].0 != YamlV::Str(k@),
        decreases e@.len() - i,
    {
        if e[i].0.is_str(k) {
            proof {
                assert(m[i as int].0 == YamlV::Str(k@));
                let c = choose|c: int|
                    0 <= c < m.len() && m[c].0 == YamlV::Str(k@) && forall|j: int|
                        0 <= j < c ==> m[j].0 != YamlV::Str(k@);
                if c < i {
                } else if c > i {
                    assert(m[i as int].0 != YamlV::Str(k@));
                }
                assert(c == i);
            }
            return Some(&e[i].1);
        }
        i = i + 1;
    }
    None
}

/// Whether the string key `k` is present among mapping entries.
pub fn mapping_contains(e: &Vec<(Yaml, Yaml)>, k: &str) -> (b: bool)
    ensures
        b == entries_lookup(yv_entries(e@), k@).is_some(),
{
    mapping_get(e, k).is_some()
}

/// The JSON value of a YAML value.
pub fn yaml_to_json(y: &Yaml) -> (j: Json)
    ensures
        jv(j) == yaml_json(yv(*y)),
        j is Object ==> members_ascending(jv(j)->Object_0),
    decreases y,
{
    match y {
        Yaml::Null => Json::Null,
        Yaml::Bool(b) => Json::Bool(*b),
        Yaml::Int(n) => Json::Int(*n),
        Yaml::Float(f) => {
            if str_equal(f.json_text.as_str(), "null") {
                Json::Null
            } else {
                Json::Float(Real::of_text(f.json_text.clone()))
            }
        },
        Yaml::Str(s) => Json::Str(s.clone()),
        Yaml::List(v) => {
            let mut out: Vec<Json> = Vec::new();
            let mut i: usize = 0;
            while i < v.len()
                invariant
                    i <= v@.len(),
                    *y == Yaml::List(*v),
                    jv_items(out@) == yaml_json_items(yv_items(v@.take(i as int))),
                decreases v@.len() - i,
            {
                let ghost a = v@.take(i as int);
                let ghost b = v@.take(i + 1);
                assert(decreases_to!(*y => (*y)->List_0));
                assert(decreases_to!(*v => v@));
                assert(decreases_to!(v@ => v@[i as int]));
                let x = yaml_to_json(&v[i]);
                let ghost o = out@;
                out.push(x);
                proof {
                    assert(b.drop_last() =~= a);
                    assert(b.last() == v@[i as int]);
                    assert(out@.drop_last() =~= o);
                    assert(yv_items(b) == yv_items(a).push(yv(v@[i as int])));
                    assert(yv_items(b).drop_last() =~= yv_items(a));
                }
                i = i + 1;
            }
            assert(v@.take(v@.len() as int) =~= v@);
            Json::Array(out)
        },
        Yaml::Mapping(e) => {
            let mut out: Vec<(String, Json)> = Vec::new();
            let mut i: usize = 0;
            while i < e.len()
                invariant
                    i <= e@.len(),
                    *y == Yaml::Mapping(*e),
                    jv_members(out@) == yaml_json_members(yv_entries(e@.take(i as int))),
                    members_ascending(jv_members(out@)),
                decreases e@.len() - i,
            {
                let ghost a = e@.take(i as int);
                let ghost b = e@.take(i + 1);
                proof {
                    assert(b.drop_last() =~= a);
                    assert(b.last() == e@[i as int]);
                    assert(yv_entries(b) == yv_entries(a).push(
                        (yv(e@[i as int].0), yv(e@[i as int].1)),
                    ));
                    assert(yv_entries(b).drop_last() =~= yv_entries(a));
                }
                match e[i].0.as_str() {
                    Some(k) => {
                        assert(decreases_to!(*y => (*y)->Mapping_0));
                        assert(decreases_to!(*e => e@));
                        assert(decreases_to!(e@ => e@[i as int]));
                        assert(decreases_to!(e@[i as int] => e@[i as int].1));
                        let x = yaml_to_json(&e[i].1);
                        object_insert(&mut out, k.clone(), x);
                    },
                    None => {},
                }
                i = i + 1;
            }
            assert(e@.take(e@.len() as int) =~= e@);
            Json::Object(out)
        },
        Yaml::Tagged(t) => yaml_to_json(t),
    }
}

} // verus!
