//! Reading scenario documents into scenarios.
use vstd::prelude::*;
use crate::document::{
    branch_spec, branches_spec, do_pairs, do_text, element_fields, element_spec, elements_list,
    elements_spec, elements_word, find_elements, first_other_key, has_key, header_field,
    inner_elements, json_entries_map, members_without, meta_from, meta_keys, node_spec,
    node_type_spec, nodes_spec, opt_as_str, scalar_text, scenes_block_spec, scenes_entries,
    state_spec, when_word, parse_spec, root_file, all_from,
};
pub use crate::error::ParseError;
use crate::json::{Json, JsonV, jv, jv_members, members_ascending, object_insert, to_json_string};
use crate::scenario::{
    Branch, Element, Node, NodeV, Scenario, ScenarioV, element_view, json_map_view, opt_str,
    str_pairs, branch_view, node_view, nodes_view, scenes_view, scenario_view, files_view,
};
use crate::strmap::StrMap;
use crate::text::{concat2, concat3, i64_decimal, owned, str_equal, u64_decimal};
use crate::sources::{parse_yaml_text, yaml_doc_of_text};
use crate::yaml::{
    Yaml, YamlV, as_mapping, as_sequence, as_str, get, lemma_yv_entries, lemma_yv_items,
    mapping_contains, mapping_get, yaml_to_json, yv, yv_entries, yv_items,
};

verus! {

/// `"true"` or `"false"`.
fn bool_text(b: bool) -> (s: String)
    ensures
        s@ == if b {
            seq!['t', 'r', 'u', 'e']
        } else {
            seq!['f', 'a', 'l', 's', 'e']
        },
{
    proof {
        reveal_strlit("true");
        reveal_strlit("false");
    }
    if b {
        String::from_str("true")
    } else {
        String::from_str("false")
    }
}

/// The text of a scalar as a header field reads it.
fn scalar_text_exec(v: &Yaml) -> (r: Option<String>)
    ensures
        opt_str(r) == scalar_text(yv(*v)),
{
    match v {
        Yaml::Str(s) => Some(s.clone()),
        Yaml::Int(n) => Some(i64_decimal(*n)),
        Yaml::Float(f) => Some(f.text.clone()),
        Yaml::Bool(b) => Some(bool_text(*b)),
        _ => None,
    }
}

/// The header field `key` of a document.
pub fn get_string(doc: &Yaml, key: &str) -> (r: Option<String>)
    ensures
        opt_str(r) == header_field(yv(*doc), key@),
{
    match doc.get(key) {
        Some(v) => scalar_text_exec(v),
        None => None,
    }
}

/// The string value of an optional YAML value.
fn opt_string(o: Option<&Yaml>) -> (r: Option<String>)
    ensures
        opt_str(r) == opt_as_str(
            match o {
                Some(v) => Some(yv(*v)),
                None => None,
            },
        ),
{
    match o {
        Some(v) => match v.as_str() {
            Some(s) => Some(s.clone()),
            None => None,
        },
        None => None,
    }
}

/// The JSON values of the string-keyed entries of a mapping.
fn json_entries(e: &Vec<(Yaml, Yaml)>) -> (m: StrMap<Json>)
    ensures
        json_map_view(m) == json_entries_map(yv_entries(e@)),
{
    let mut m: StrMap<Json> = StrMap::new();
    let mut i: usize = 0;
    assert(json_map_view(m) =~= Map::<Seq<char>, JsonV>::empty());
    while i < e.len()
        invariant
            i <= e@.len(),
            json_map_view(m) == json_entries_map(yv_entries(e@.take(i as int))),
        decreases e@.len() - i,
    {
        proof {
            assert(e@.take(i + 1).drop_last() =~= e@.take(i as int));
            assert(yv_entries(e@.take(i + 1)).drop_last() =~= yv_entries(e@.take(i as int)));
        }
        match e[i].0.as_str() {
            Some(k) => {
                let j = yaml_to_json(&e[i].1);
                let ghost before = m@;
                m.insert(k.clone(), j);
                assert(json_map_view(m) =~= json_map_view_of(before).insert(k@, jv(j)));
            },
            None => {},
        }
        i = i + 1;
    }
    assert(e@.take(e@.len() as int) =~= e@);
    m
}

spec fn json_map_view_of(m: Map<Seq<char>, Json>) -> Map<Seq<char>, JsonV> {
    m.map_values(|j: Json| jv(j))
}

/// The initial variables of a document.
pub fn parse_state(doc: &Yaml) -> (m: StrMap<Json>)
    ensures
        json_map_view(m) == state_spec(yv(*doc)),
{
    proof {
        reveal_strlit("state");
        assert("state"@ =~= seq!['s', 't', 'a', 't', 'e']);
    }
    match doc.get("state") {
        Some(sv) => match sv.as_mapping() {
            Some(e) => json_entries(e),
            None => {
                let m = StrMap::new();
                assert(json_map_view(m) =~= Map::<Seq<char>, JsonV>::empty());
                m
            },
        },
        None => {
            let m = StrMap::new();
            assert(json_map_view(m) =~= Map::<Seq<char>, JsonV>::empty());
            m
        },
    }
}

/// Adds the metadata section `key`, the `n`th one, when the top-level entries have it.
fn add_meta(e: &Vec<(Yaml, Yaml)>, m: &mut StrMap<Json>, key: &str, n: usize)
    requires
        n < meta_keys().len(),
        key@ == meta_keys()[n as int],
        json_map_view(*old(m)) == meta_from(yv_entries(e@), meta_keys().take(n as int)),
    ensures
        json_map_view(*final(m)) == meta_from(yv_entries(e@), meta_keys().take(n + 1)),
{
    let ghost ks = meta_keys();
    assert(ks.take(n + 1).drop_last() =~= ks.take(n as int));
    assert(ks.take(n + 1).last() == key@);
    match mapping_get(e, key) {
        Some(v) => {
            let j = yaml_to_json(v);
            let ghost before = m@;
            m.insert(owned(key), j);
            assert(json_map_view(*m) =~= json_map_view_of(before).insert(key@, jv(j)));
        },
        None => {},
    }
}

/// The metadata sections of the top-level entries.
pub fn collect_meta(e: &Vec<(Yaml, Yaml)>) -> (m: StrMap<Json>)
    ensures
        json_map_view(m) == meta_from(yv_entries(e@), meta_keys()),
{
    let ghost ks = meta_keys();
    proof {
        reveal_strlit("characters");
        reveal_strlit("backgrounds");
        reveal_strlit("bgm");
        reveal_strlit("format");
        reveal_strlit("audio");
        assert("characters"@ =~= ks[0]);
        assert("backgrounds"@ =~= ks[1]);
        assert("bgm"@ =~= ks[2]);
        assert("format"@ =~= ks[3]);
        assert("audio"@ =~= ks[4]);
    }
    let mut m: StrMap<Json> = StrMap::new();
    assert(json_map_view(m) =~= meta_from(yv_entries(e@), ks.take(0)));
    add_meta(e, &mut m, "characters", 0);
    add_meta(e, &mut m, "backgrounds", 1);
    add_meta(e, &mut m, "bgm", 2);
    add_meta(e, &mut m, "format", 3);
    add_meta(e, &mut m, "audio", 4);
    assert(ks.take(5) =~= ks);
    m
}

/// The first string key from position `i` on that is not `when`.
fn first_other_key_exec(e: &Vec<(Yaml, Yaml)>) -> (r: Option<String>)
    ensures
        opt_str(r) == first_other_key(yv_entries(e@), 0),
{
    let ghost m = yv_entries(e@);
    proof {
        lemma_yv_entries(e@);
        reveal_strlit("when");
        assert("when"@ =~= when_word());
    }
    let mut i: usize = 0;
    while i < e.len()
        invariant
            i <= e@.len(),
            m == yv_entries(e@),
            m.len() == e@.len(),
            forall|j: int| 0 <= j < e@.len() ==> #[trigger] m[j] == (yv(e@[j].0), yv(e@[j].1)),
            first_other_key(m, 0) == first_other_key(m, i as int),
            "when"@ == when_word(),
        decreases e@.len() - i,
    {
        assert(m[i as int] == (yv(e@[i as int].0), yv(e@[i as int].1)));
        match e[i].0.as_str() {
            Some(k) => {
                if !str_equal(k.as_str(), "when") {
                    return Some(k.clone());
                }
            },
            None => {},
        }
        i = i + 1;
    }
    None
}

/// Whether the top-level entries have the string key `k`.
fn has(e: &Vec<(Yaml, Yaml)>, k: &str) -> (b: bool)
    ensures
        b == has_key(yv_entries(e@), k@),
{
    mapping_contains(e, k)
}

/// The type of a node with the given entries.
pub fn determine_node_type(e: &Vec<(Yaml, Yaml)>) -> (t: String)
    ensures
        t@ == node_type_spec(yv_entries(e@)),
{
    proof {
        reveal_strlit("end");
        reveal_strlit("do");
        reveal_strlit("jump");
        reveal_strlit("incase");
        reveal_strlit("choice");
        reveal_strlit("speaker");
        reveal_strlit("text");
        reveal_strlit("bg");
        reveal_strlit("bgm");
        reveal_strlit("unknown");
        assert("end"@ =~= seq!['e', 'n', 'd']);
        assert("do"@ =~= seq!['d', 'o']);
        assert("jump"@ =~= seq!['j', 'u', 'm', 'p']);
        assert("incase"@ =~= seq!['i', 'n', 'c', 'a', 's', 'e']);
        assert("choice"@ =~= seq!['c', 'h', 'o', 'i', 'c', 'e']);
        assert("speaker"@ =~= seq!['s', 'p', 'e', 'a', 'k', 'e', 'r']);
        assert("text"@ =~= seq!['t', 'e', 'x', 't']);
        assert("bg"@ =~= seq!['b', 'g']);
        assert("bgm"@ =~= seq!['b', 'g', 'm']);
        assert("unknown"@ =~= seq!['u', 'n', 'k', 'n', 'o', 'w', 'n']);
    }
    if has(e, "end") {
        String::from_str("end")
    } else if has(e, "do") {
        String::from_str("do")
    } else if has(e, "jump") {
        String::from_str("jump")
    } else if has(e, "incase") {
        String::from_str("incase")
    } else if has(e, "choice") {
        String::from_str("choice")
    } else if has(e, "speaker") && has(e, "text") {
        String::from_str("speaker")
    } else if has(e, "text") {
        String::from_str("text")
    } else if has(e, "bg") {
        String::from_str("bg")
    } else if has(e, "bgm") {
        String::from_str("bgm")
    } else {
        match first_other_key_exec(e) {
            Some(k) => k,
            None => String::from_str("unknown"),
        }
    }
}

/// The JSON object of the string-keyed entries, leaving out `when` (and, for an
/// element, `key` and `label`).
fn object_without(e: &Vec<(Yaml, Yaml)>, element: bool) -> (j: Json)
    ensures
        jv(j) == JsonV::Object(
            members_without(
                yv_entries(e@),
                if element {
                    element_fields()
                } else {
                    set![when_word()]
                },
            ),
        ),
        members_ascending(jv(j)->Object_0),
{
    let ghost skip = if element {
        element_fields()
    } else {
        set![when_word()]
    };
    proof {
        reveal_strlit("when");
        reveal_strlit("key");
        reveal_strlit("label");
        assert("when"@ =~= when_word());
        assert("key"@ =~= seq!['k', 'e', 'y']);
        assert("label"@ =~= seq!['l', 'a', 'b', 'e', 'l']);
    }
    let mut out: Vec<(String, Json)> = Vec::new();
    let mut i: usize = 0;
    assert(jv_members(out@) =~= Seq::<(Seq<char>, JsonV)>::empty());
    while i < e.len()
        invariant
            i <= e@.len(),
            skip == if element {
                element_fields()
            } else {
                set![when_word()]
            },
            jv_members(out@) == members_without(yv_entries(e@.take(i as int)), skip),
            members_ascending(jv_members(out@)),
            "when"@ == when_word(),
            "key"@ == seq!['k', 'e', 'y'],
            "label"@ == seq!['l', 'a', 'b', 'e', 'l'],
        decreases e@.len() - i,
    {
        proof {
            assert(e@.take(i + 1).drop_last() =~= e@.take(i as int));
            assert(yv_entries(e@.take(i + 1)).drop_last() =~= yv_entries(e@.take(i as int)));
        }
        match e[i].0.as_str() {
            Some(k) => {
                let skipped = str_equal(k.as_str(), "when") || (element && (str_equal(
                    k.as_str(),
                    "key",
                ) || str_equal(k.as_str(), "label")));
                assert(skipped == skip.contains(k@));
                if !skipped {
                    let j = yaml_to_json(&e[i].1);
                    object_insert(&mut out, k.clone(), j);
                }
            },
            None => {},
        }
        i = i + 1;
    }
    assert(e@.take(e@.len() as int) =~= e@);
    Json::Object(out)
}

} // verus!

verus! {

/// Where a node's elements are.
fn find_elements_exec(val: &Yaml) -> (r: Option<&Yaml>)
    ensures
        match r {
            Some(x) => find_elements(yv(*val)) == Some(yv(*x)),
            None => find_elements(yv(*val)).is_none(),
        },
{
    proof {
        reveal_strlit("elements");
        reveal_strlit("when");
        reveal_strlit("choice");
        reveal_strlit("options");
        assert("elements"@ =~= elements_word());
        assert("when"@ =~= when_word());
        assert("choice"@ =~= seq!['c', 'h', 'o', 'i', 'c', 'e']);
        assert("options"@ =~= seq!['o', 'p', 't', 'i', 'o', 'n', 's']);
    }
    if let Some(el) = val.get("elements") {
        return Some(el);
    }
    if let Some(e) = val.as_mapping() {
        let ghost m = yv_entries(e@);
        proof {
            lemma_yv_entries(e@);
        }
        let mut i: usize = 0;
        while i < e.len()
            invariant
                i <= e@.len(),
                m == yv_entries(e@),
                m.len() == e@.len(),
                forall|j: int| 0 <= j < e@.len() ==> #[trigger] m[j] == (yv(e@[j].0), yv(e@[j].1)),
                inner_elements(m, 0) == inner_elements(m, i as int),
                "when"@ == when_word(),
                "elements"@ == elements_word(),
                get(yv(*val), elements_word()).is_none(),
                as_mapping(yv(*val)) == Some(m),
            decreases e@.len() - i,
        {
            assert(m[i as int] == (yv(e@[i as int].0), yv(e@[i as int].1)));
            if let Some(k) = e[i].0.as_str() {
                if !str_equal(k.as_str(), "when") {
                    if let Some(inner) = e[i].1.as_mapping() {
                        if let Some(el) = mapping_get(inner, "elements") {
                            return Some(el);
                        }
                    }
                }
            }
            i = i + 1;
        }
    }
    match val.get("choice") {
        Some(c) => c.get("options"),
        None => None,
    }
}

/// An element, when the item is a mapping.
fn parse_element(item: &Yaml) -> (r: Option<Element>)
    ensures
        match r {
            Some(el) => element_spec(yv(*item)) == Some(element_view(el)),
            None => element_spec(yv(*item)).is_none(),
        },
{
    proof {
        reveal_strlit("key");
        reveal_strlit("label");
        reveal_strlit("text");
        reveal_strlit("when");
        assert("key"@ =~= seq!['k', 'e', 'y']);
        assert("label"@ =~= seq!['l', 'a', 'b', 'e', 'l']);
        assert("text"@ =~= seq!['t', 'e', 'x', 't']);
        assert("when"@ =~= when_word());
    }
    match item.as_mapping() {
        Some(e) => {
            let key = match opt_string(item.get("key")) {
                Some(k) => k,
                None => String::new(),
            };
            let label = match opt_string(item.get("label")) {
                Some(l) => Some(l),
                None => opt_string(item.get("text")),
            };
            let when = opt_string(item.get("when"));
            let extra = object_without(e, true);
            let el = Element { key, label, when, extra };
            proof {
                if opt_as_str(get(yv(*item), seq!['k', 'e', 'y'])).is_none() {
                    assert(el.key@ =~= Seq::<char>::empty());
                }
            }
            Some(el)
        },
        None => None,
    }
}

/// A node's elements; none when there are no element items.
pub fn parse_elements(val: &Yaml) -> (r: Option<Vec<Element>>)
    ensures
        match r {
            Some(v) => elements_spec(yv(*val)) == Some(v@.map_values(|e: Element| element_view(e))),
            None => elements_spec(yv(*val)).is_none(),
        },
{
    let found = match find_elements_exec(val) {
        Some(x) => x,
        None => {
            return None;
        },
    };
    let items = match found.as_sequence() {
        Some(v) => v,
        None => {
            return None;
        },
    };
    let mut out: Vec<Element> = Vec::new();
    let mut i: usize = 0;
    while i < items.len()
        invariant
            i <= items@.len(),
            out@.map_values(|e: Element| element_view(e)) == elements_list(
                yv_items(items@.take(i as int)),
            ),
        decreases items@.len() - i,
    {
        proof {
            assert(items@.take(i + 1).drop_last() =~= items@.take(i as int));
            assert(yv_items(items@.take(i + 1)).drop_last() =~= yv_items(items@.take(i as int)));
        }
        let ghost o = out@;
        match parse_element(&items[i]) {
            Some(el) => {
                out.push(el);
                assert(out@.map_values(|e: Element| element_view(e)) =~= o.map_values(
                    |e: Element| element_view(e),
                ).push(element_view(el)));
            },
            None => {},
        }
        i = i + 1;
    }
    assert(items@.take(items@.len() as int) =~= items@);
    if out.len() == 0 {
        None
    } else {
        Some(out)
    }
}

/// The text of a branch update value.
fn do_text_exec(v: &Yaml) -> (s: String)
    ensures
        s@ == do_text(yv(*v)),
{
    match v {
        Yaml::Str(s) => s.clone(),
        Yaml::Bool(b) => bool_text(*b),
        Yaml::Int(n) => i64_decimal(*n),
        Yaml::Float(f) => f.text.clone(),
        _ => {
            let j = yaml_to_json(v);
            to_json_string(&j)
        },
    }
}

/// The updates of a branch's `do` mapping.
fn parse_do_updates(e: &Vec<(Yaml, Yaml)>) -> (m: StrMap<String>)
    ensures
        str_pairs(m.entry_seq()) == do_pairs(yv_entries(e@)),
{
    let mut m: StrMap<String> = StrMap::new();
    let mut i: usize = 0;
    assert(str_pairs(m.entry_seq()) =~= Seq::<(Seq<char>, Seq<char>)>::empty());
    while i < e.len()
        invariant
            i <= e@.len(),
            str_pairs(m.entry_seq()) == do_pairs(yv_entries(e@.take(i as int))),
        decreases e@.len() - i,
    {
        proof {
            assert(e@.take(i + 1).drop_last() =~= e@.take(i as int));
            assert(yv_entries(e@.take(i + 1)).drop_last() =~= yv_entries(e@.take(i as int)));
        }
        match e[i].0.as_str() {
            Some(k) => {
                let t = do_text_exec(&e[i].1);
                let _ = m.len();
                let ghost s0 = m.entry_seq();
                let ghost p0 = str_pairs(s0);
                let ghost kk = k@;
                let ghost tt = t@;
                let ghost present = m@.contains_key(kk);
                proof {
                    m.lemma_entries();
                }
                let kc = k.clone();
                let ghost kg = kc;
                let ghost tg = t;
                m.insert(kc, t);
                proof {
                    let s1 = m.entry_seq();
                    if present {
                        let i0 = choose|i0: int|
                            0 <= i0 < s0.len() && #[trigger] s0[i0].0@ == kk && s1 == s0.update(
                                i0,
                                (kg, tg),
                            );
                        assert(exists|j: int| 0 <= j < p0.len() && p0[j].0 == kk) by {
                            assert(p0[i0].0 == kk);
                        }
                        let c = choose|j: int| 0 <= j < p0.len() && p0[j].0 == kk;
                        assert(c == i0);
                        assert(str_pairs(s1) =~= p0.update(i0, (kk, tt)));
                    } else {
                        assert(!exists|j: int| 0 <= j < p0.len() && p0[j].0 == kk);
                        assert(str_pairs(s1) =~= p0.push((kk, tt)));
                    }
                }
            },
            None => {},
        }
        i = i + 1;
    }
    assert(e@.take(e@.len() as int) =~= e@);
    m
}

} // verus!

verus! {

/// A branch item.
fn parse_branch(item: &Yaml) -> (b: Branch)
    ensures
        branch_view(b) == branch_spec(yv(*item)),
{
    proof {
        reveal_strlit("when");
        reveal_strlit("next");
        reveal_strlit("do");
        assert("when"@ =~= when_word());
        assert("next"@ =~= seq!['n', 'e', 'x', 't']);
        assert("do"@ =~= seq!['d', 'o']);
    }
    let when = opt_string(item.get("when"));
    let next = opt_string(item.get("next"));
    let do_updates = match item.get("do") {
        Some(d) => match d.as_mapping() {
            Some(e) => Some(parse_do_updates(e)),
            None => None,
        },
        None => None,
    };
    Branch { when, do_updates, next }
}

/// The branches of a `jump` or `incase` node; none for other nodes or an empty list.
pub fn parse_branches(val: &Yaml, node_type: &str) -> (r: Option<Vec<Branch>>)
    ensures
        match r {
            Some(v) => branches_spec(yv(*val), node_type@) == Some(
                v@.map_values(|b: Branch| branch_view(b)),
            ),
            None => branches_spec(yv(*val), node_type@).is_none(),
        },
{
    proof {
        reveal_strlit("jump");
        reveal_strlit("incase");
        assert("jump"@ =~= seq!['j', 'u', 'm', 'p']);
        assert("incase"@ =~= seq!['i', 'n', 'c', 'a', 's', 'e']);
    }
    let bv = if str_equal(node_type, "jump") {
        val.get("jump")
    } else if str_equal(node_type, "incase") {
        val.get("incase")
    } else {
        None
    };
    let bv = match bv {
        Some(b) => b,
        None => {
            return None;
        },
    };
    let items = match bv.as_sequence() {
        Some(v) => v,
        None => {
            return None;
        },
    };
    let ghost yi = yv_items(items@);
    proof {
        lemma_yv_items(items@);
    }
    let mut out: Vec<Branch> = Vec::new();
    let mut i: usize = 0;
    while i < items.len()
        invariant
            i <= items@.len(),
            yi == yv_items(items@),
            yi.len() == items@.len(),
            forall|j: int| 0 <= j < items@.len() ==> #[trigger] yi[j] == yv(items@[j]),
            out@.len() == i,
            forall|j: int|
                0 <= j < i ==> branch_view(#[trigger] out@[j]) == branch_spec(yi[j]),
        decreases items@.len() - i,
    {
        let b = parse_branch(&items[i]);
        out.push(b);
        i = i + 1;
    }
    if out.len() == 0 {
        None
    } else {
        assert(out@.map_values(|b: Branch| branch_view(b)) =~= yi.map_values(
            |it: YamlV| branch_spec(it),
        ));
        Some(out)
    }
}

/// A node of scene `scene_id` at position `idx`.
pub fn parse_node(val: &Yaml, scene_id: &str, idx: usize) -> (r: Result<Node, ParseError>)
    ensures
        match r {
            Ok(n) => node_spec(yv(*val), scene_id@, idx as nat) == Ok::<NodeV, Seq<char>>(
                node_view(n),
            ),
            Err(e) => node_spec(yv(*val), scene_id@, idx as nat) == Err::<NodeV, Seq<char>>(
                e.message@,
            ),
        },
{
    proof {
        reveal_strlit("when");
        reveal_strlit("node at ");
        reveal_strlit("[");
        reveal_strlit("] must be a mapping");
        assert("when"@ =~= when_word());
    }
    let e = match val.as_mapping() {
        Some(e) => e,
        None => {
            let n = u64_decimal(idx as u64);
            let mut msg = concat3("node at ", scene_id, "[");
            msg.append(n.as_str());
            msg.append("] must be a mapping");
            assert(msg@ =~= "node at "@ + scene_id@ + seq!['['] + crate::text::nat_decimal(
                idx as nat,
            ) + "] must be a mapping"@);
            return Err(ParseError { message: msg });
        },
    };
    let when = opt_string(val.get("when"));
    let node_type = determine_node_type(e);
    let raw = object_without(e, false);
    let elements = parse_elements(val);
    let branches = parse_branches(val, node_type.as_str());
    let n = Node { node_type, when, raw, elements, branches };
    Ok(n)
}

/// The models of nodes.
spec fn nodes_models(v: Seq<Node>) -> Seq<NodeV> {
    v.map_values(|n: Node| node_view(n))
}

proof fn lemma_nodes_step(items: Seq<YamlV>, sid: Seq<char>, i: int, prev: Seq<NodeV>, n: NodeV)
    requires
        0 <= i < items.len(),
        nodes_spec(items.take(i), sid) == Ok::<Seq<NodeV>, Seq<char>>(prev),
        node_spec(items[i], sid, i as nat) == Ok::<NodeV, Seq<char>>(n),
    ensures
        nodes_spec(items.take(i + 1), sid) == Ok::<Seq<NodeV>, Seq<char>>(prev.push(n)),
{
    let t = items.take(i + 1);
    assert(t.drop_last() =~= items.take(i));
    assert(t.last() == items[i]);
}

proof fn lemma_nodes_step_err(items: Seq<YamlV>, sid: Seq<char>, i: int, prev: Seq<NodeV>, m: Seq<char>)
    requires
        0 <= i < items.len(),
        nodes_spec(items.take(i), sid) == Ok::<Seq<NodeV>, Seq<char>>(prev),
        node_spec(items[i], sid, i as nat) == Err::<NodeV, Seq<char>>(m),
    ensures
        nodes_spec(items, sid) == Err::<Seq<NodeV>, Seq<char>>(m),
{
    let t = items.take(i + 1);
    assert(t.drop_last() =~= items.take(i));
    assert(t.last() == items[i]);
    lemma_nodes_err_prefix(items, sid, i);
}

/// The nodes of scene `scene_id`.
fn parse_nodes(items: &Vec<Yaml>, scene_id: &str) -> (r: Result<Vec<Node>, ParseError>)
    ensures
        match r {
            Ok(v) => nodes_spec(yv_items(items@), scene_id@) == Ok::<Seq<NodeV>, Seq<char>>(
                nodes_models(v@),
            ),
            Err(e) => nodes_spec(yv_items(items@), scene_id@) == Err::<Seq<NodeV>, Seq<char>>(
                e.message@,
            ),
        },
{
    let ghost yi = yv_items(items@);
    proof {
        lemma_yv_items(items@);
        assert(yi.take(0) =~= Seq::<YamlV>::empty());
        assert(nodes_models(Seq::<Node>::empty()) =~= Seq::<NodeV>::empty());
    }
    let mut out: Vec<Node> = Vec::new();
    let mut i: usize = 0;
    while i < items.len()
        invariant
            i <= items@.len(),
            yi == yv_items(items@),
            yi.len() == items@.len(),
            forall|j: int| 0 <= j < items@.len() ==> #[trigger] yi[j] == yv(items@[j]),
            nodes_spec(yi.take(i as int), scene_id@) == Ok::<Seq<NodeV>, Seq<char>>(
                nodes_models(out@),
            ),
        decreases items@.len() - i,
    {
        match parse_node(&items[i], scene_id, i) {
            Ok(n) => {
                let ghost o = out@;
                proof {
                    lemma_nodes_step(yi, scene_id@, i as int, nodes_models(o), node_view(n));
                }
                out.push(n);
                assert(nodes_models(out@) =~= nodes_models(o).push(node_view(n)));
            },
            Err(e) => {
                proof {
                    lemma_nodes_step_err(yi, scene_id@, i as int, nodes_models(out@), e.message@);
                }
                return Err(e);
            },
        }
        i = i + 1;
    }
    assert(yi.take(items@.len() as int) =~= yi);
    Ok(out)
}

/// An error in a prefix of the items is the error of all of them.
proof fn lemma_nodes_err_prefix(items: Seq<YamlV>, sid: Seq<char>, i: int)
    requires
        0 <= i < items.len(),
        nodes_spec(items.take(i + 1), sid) is Err,
    ensures
        nodes_spec(items, sid) == nodes_spec(items.take(i + 1), sid),
    decreases items.len(),
{
    if i + 1 < items.len() {
        assert(items.drop_last().take(i + 1) =~= items.take(i + 1));
        lemma_nodes_err_prefix(items.drop_last(), sid, i);
    } else {
        assert(items.take(i + 1) =~= items);
    }
}

} // verus!

verus! {

proof fn lemma_scenes_err_prefix(e: Seq<(YamlV, YamlV)>, i: int)
    requires
        0 <= i < e.len(),
        scenes_entries(e.take(i + 1)) is Err,
    ensures
        scenes_entries(e) == scenes_entries(e.take(i + 1)),
    decreases e.len(),
{
    if i + 1 < e.len() {
        assert(e.drop_last().take(i + 1) =~= e.take(i + 1));
        lemma_scenes_err_prefix(e.drop_last(), i);
    } else {
        assert(e.take(i + 1) =~= e);
    }
}

/// The scenes of a scenes block.
pub fn parse_scenes_block(val: &Yaml) -> (r: Result<StrMap<Vec<Node>>, ParseError>)
    ensures
        match r {
            Ok(m) => scenes_block_spec(yv(*val)) == Ok::<Map<Seq<char>, Seq<NodeV>>, Seq<char>>(
                scenes_view(m),
            ),
            Err(e) => scenes_block_spec(yv(*val)) == Err::<Map<Seq<char>, Seq<NodeV>>, Seq<char>>(
                e.message@,
            ),
        },
{
    proof {
        reveal_strlit("scenes block must be a mapping");
        reveal_strlit("scene key must be a string");
        reveal_strlit("scene '");
        reveal_strlit("' must be a list of nodes");
    }
    let e = match val.as_mapping() {
        Some(e) => e,
        None => {
            return Err(ParseError { message: String::from_str("scenes block must be a mapping") });
        },
    };
    let ghost ye = yv_entries(e@);
    proof {
        lemma_yv_entries(e@);
    }
    let mut m: StrMap<Vec<Node>> = StrMap::new();
    let mut i: usize = 0;
    assert(ye.take(0) =~= Seq::<(YamlV, YamlV)>::empty());
    assert(scenes_view(m) =~= Map::<Seq<char>, Seq<NodeV>>::empty());
    while i < e.len()
        invariant
            i <= e@.len(),
            ye == yv_entries(e@),
            ye.len() == e@.len(),
            forall|j: int| 0 <= j < e@.len() ==> #[trigger] ye[j] == (yv(e@[j].0), yv(e@[j].1)),
            as_mapping(yv(*val)) == Some(ye),
            scenes_entries(ye.take(i as int)) == Ok::<Map<Seq<char>, Seq<NodeV>>, Seq<char>>(
                scenes_view(m),
            ),
        decreases e@.len() - i,
    {
        let ghost t = ye.take(i + 1);
        proof {
            assert(t.drop_last() =~= ye.take(i as int));
            assert(t.last() == ye[i as int]);
        }
        let sid = match e[i].0.as_str() {
            Some(s) => s,
            None => {
                proof {
                    lemma_scenes_err_prefix(ye, i as int);
                }
                return Err(ParseError { message: String::from_str("scene key must be a string") });
            },
        };
        let items = match e[i].1.as_sequence() {
            Some(v) => v,
            None => {
                let msg = concat3("scene '", sid.as_str(), "' must be a list of nodes");
                proof {
                    lemma_scenes_err_prefix(ye, i as int);
                }
                return Err(ParseError { message: msg });
            },
        };
        match parse_nodes(items, sid.as_str()) {
            Ok(nodes) => {
                let ghost before = m@;
                proof {
                    assert(nodes_models(nodes@) == nodes_view(nodes));
                }
                m.insert(sid.clone(), nodes);
                assert(scenes_view(m) =~= scenes_view_of(before).insert(sid@, nodes_view(nodes)));
            },
            Err(err) => {
                proof {
                    lemma_scenes_err_prefix(ye, i as int);
                }
                return Err(err);
            },
        }
        i = i + 1;
    }
    assert(ye.take(e@.len() as int) =~= ye);
    Ok(m)
}

spec fn scenes_view_of(m: Map<Seq<char>, Vec<Node>>) -> Map<Seq<char>, Seq<NodeV>> {
    m.map_values(|v: Vec<Node>| nodes_view(v))
}

/// A file record with every scene of `scenes` coming from `file`.
pub fn files_for(scenes: &StrMap<Vec<Node>>, file: &str) -> (f: StrMap<String>)
    ensures
        files_view(f) == all_from(scenes_view(*scenes), file@),
{
    let es = scenes.entries();
    proof {
        scenes.lemma_entries();
    }
    let mut f: StrMap<String> = StrMap::new();
    let mut i: usize = 0;
    while i < es.len()
        invariant
            i <= es@.len(),
            es@ == scenes.entry_seq(),
            forall|j: int|
                0 <= j < es@.len() ==> scenes@.contains_key(#[trigger] es@[j].0@),
            forall|k: Seq<char>|
                #[trigger] scenes@.contains_key(k) ==> exists|j: int|
                    0 <= j < es@.len() && #[trigger] es@[j].0@ == k,
            files_view(f) == Map::new(
                |k: Seq<char>| exists|j: int| 0 <= j < i && #[trigger] es@[j].0@ == k,
                |k: Seq<char>| file@,
            ),
        decreases es@.len() - i,
    {
        let ghost before = f@;
        let ghost fv0 = files_view(f);
        let ghost ki = es@[i as int].0@;
        f.insert(es[i].0.clone(), owned(file));
        proof {
            assert(files_view(f) =~= fv0.insert(ki, file@));
            let target = Map::new(
                |k: Seq<char>| exists|j: int| 0 <= j < i + 1 && #[trigger] es@[j].0@ == k,
                |k: Seq<char>| file@,
            );
            assert forall|k: Seq<char>| fv0.insert(ki, file@).contains_key(k) <==> target.contains_key(k) by {
                if k == ki {
                    assert(es@[i as int].0@ == k);
                } else if fv0.contains_key(k) {
                    let j = choose|j: int| 0 <= j < i && #[trigger] es@[j].0@ == k;
                    assert(0 <= j < i + 1 && es@[j].0@ == k);
                } else if target.contains_key(k) {
                    let j = choose|j: int| 0 <= j < i + 1 && #[trigger] es@[j].0@ == k;
                    if j < i {
                        assert(fv0.contains_key(k));
                    }
                }
            }
            assert(files_view(f) =~= target);
        }
        i = i + 1;
    }
    assert(files_view(f) =~= all_from(scenes_view(*scenes), file@));
    f
}

/// The header fields of a document: `id`, `title`, `version` and `entry`.
fn parse_head(doc: &Yaml) -> (r: Result<(String, String, Option<String>, String), ParseError>)
    ensures
        match r {
            Ok((id, title, version, entry)) => {
                &&& header_field(yv(*doc), seq!['i', 'd']) == Some(id@)
                &&& header_field(yv(*doc), seq!['t', 'i', 't', 'l', 'e']) == Some(title@)
                &&& header_field(yv(*doc), seq!['v', 'e', 'r', 's', 'i', 'o', 'n']) == opt_str(version)
                &&& header_field(yv(*doc), seq!['e', 'n', 't', 'r', 'y']) == Some(entry@)
            },
            Err(e) => {
                ||| (header_field(yv(*doc), seq!['i', 'd']).is_none() && e.message@
                    == "missing required field: id"@)
                ||| (header_field(yv(*doc), seq!['i', 'd']).is_some() && header_field(
                    yv(*doc),
                    seq!['t', 'i', 't', 'l', 'e'],
                ).is_none() && e.message@ == "missing required field: title"@)
                ||| (header_field(yv(*doc), seq!['i', 'd']).is_some() && header_field(
                    yv(*doc),
                    seq!['t', 'i', 't', 'l', 'e'],
                ).is_some() && header_field(yv(*doc), seq!['e', 'n', 't', 'r', 'y']).is_none()
                    && e.message@ == "missing required field: entry"@)
            },
        },
{
    proof {
        reveal_strlit("id");
        reveal_strlit("title");
        reveal_strlit("entry");
        reveal_strlit("version");
        assert("id"@ =~= seq!['i', 'd']);
        assert("title"@ =~= seq!['t', 'i', 't', 'l', 'e']);
        assert("entry"@ =~= seq!['e', 'n', 't', 'r', 'y']);
        assert("version"@ =~= seq!['v', 'e', 'r', 's', 'i', 'o', 'n']);
    }
    let id = match get_string(doc, "id") {
        Some(s) => s,
        None => {
            return Err(ParseError { message: String::from_str("missing required field: id") });
        },
    };
    let title = match get_string(doc, "title") {
        Some(s) => s,
        None => {
            return Err(
                ParseError { message: String::from_str("missing required field: title") },
            );
        },
    };
    let version = get_string(doc, "version");
    let entry = match get_string(doc, "entry") {
        Some(s) => s,
        None => {
            return Err(
                ParseError { message: String::from_str("missing required field: entry") },
            );
        },
    };
    Ok((id, title, version, entry))
}

/// Reads a single scenario document from YAML text; text that is not YAML is an
/// error with the YAML parser's message after `YAML syntax error: `.
pub fn parse(yaml_str: &str) -> (r: Result<Scenario, ParseError>)
    ensures
        match yaml_doc_of_text(yaml_str@) {
            Err(m) => (r matches Err(e) && e.message@ == "YAML syntax error: "@ + m),
            Ok(d) => match r {
                Ok(s) => parse_spec(d) == Ok::<ScenarioV, Seq<char>>(scenario_view(s)),
                Err(e) => parse_spec(d) == Err::<ScenarioV, Seq<char>>(e.message@),
            },
        },
{
    match parse_yaml_text(yaml_str) {
        Ok(doc) => parse_document(&doc),
        Err(m) => Err(ParseError { message: concat2("YAML syntax error: ", m.as_str()) }),
    }
}

/// Reads a single scenario document.
#[verifier::rlimit(40)]
pub fn parse_document(doc: &Yaml) -> (r: Result<Scenario, ParseError>)
    ensures
        match r {
            Ok(s) => parse_spec(yv(*doc)) == Ok::<ScenarioV, Seq<char>>(scenario_view(s)),
            Err(e) => parse_spec(yv(*doc)) == Err::<ScenarioV, Seq<char>>(e.message@),
        },
{
    proof {
        reveal_strlit("top-level must be a mapping");
        reveal_strlit("missing required field: scenes");
        reveal_strlit("scenes");
        reveal_strlit("__root__");
        assert("scenes"@ =~= seq!['s', 'c', 'e', 'n', 'e', 's']);
        assert("__root__"@ =~= root_file());
    }
    let e = match doc.as_mapping() {
        Some(e) => e,
        None => {
            return Err(ParseError { message: String::from_str("top-level must be a mapping") });
        },
    };
    let (id, title, version, entry) = parse_head(doc)?;
    let initial_state = parse_state(doc);
    let meta = collect_meta(e);
    let sv = match doc.get("scenes") {
        Some(v) => v,
        None => {
            return Err(
                ParseError { message: String::from_str("missing required field: scenes") },
            );
        },
    };
    let scenes = match parse_scenes_block(sv) {
        Ok(m) => m,
        Err(err) => {
            return Err(err);
        },
    };
    let scene_file = files_for(&scenes, "__root__");
    let s = Scenario {
        id,
        title,
        version,
        entry,
        initial_state,
        meta,
        scenes,
        scene_file,
        scene_path: None,
    };
    Ok(s)
}

} // verus!
