//! How a YAML scenario document reads as a scenario: the meaning of each part, as
//! specifications. `parser` holds the functions that compute it.
use vstd::prelude::*;
use crate::json::{JsonV, json_text, members_put};
use crate::scenario::{BranchV, ElementV, NodeV, ScenarioV};
use crate::text::{int_decimal, nat_decimal};
use crate::yaml::{
    YamlV, as_mapping, as_sequence, as_str, entries_lookup, get, yaml_json,
};

verus! {

/// The text of a scalar as a header field reads it: strings as they are, numbers
/// and booleans as they display; other values (and tagged ones) have none.
pub open spec fn scalar_text(v: YamlV) -> Option<Seq<char>> {
    match v {
        YamlV::Str(s) => Some(s),
        YamlV::Int(n) => Some(int_decimal(n as int)),
        YamlV::Float(t, _) => Some(t),
        YamlV::Bool(b) => Some(
            if b {
                seq!['t', 'r', 'u', 'e']
            } else {
                seq!['f', 'a', 'l', 's', 'e']
            },
        ),
        _ => None,
    }
}

/// The header field `key` of a document.
pub open spec fn header_field(doc: YamlV, key: Seq<char>) -> Option<Seq<char>> {
    match get(doc, key) {
        Some(v) => scalar_text(v),
        None => None,
    }
}

/// The string value of an optional YAML value.
pub open spec fn opt_as_str(o: Option<YamlV>) -> Option<Seq<char>> {
    match o {
        Some(v) => as_str(v),
        None => None,
    }
}

/// The JSON values of the string-keyed entries of a mapping (a later key wins).
pub open spec fn json_entries_map(e: Seq<(YamlV, YamlV)>) -> Map<Seq<char>, JsonV>
    decreases e.len(),
{
    if e.len() == 0 {
        Map::empty()
    } else {
        let m = json_entries_map(e.drop_last());
        match as_str(e.last().0) {
            Some(k) => m.insert(k, yaml_json(e.last().1)),
            None => m,
        }
    }
}

/// The initial variables: the entries of the `state` mapping, if there is one.
pub open spec fn state_spec(doc: YamlV) -> Map<Seq<char>, JsonV> {
    match get(doc, seq!['s', 't', 'a', 't', 'e']) {
        Some(sv) => match as_mapping(sv) {
            Some(e) => json_entries_map(e),
            None => Map::empty(),
        },
        None => Map::empty(),
    }
}

/// The metadata sections that a scenario carries for the game.
pub open spec fn meta_keys() -> Seq<Seq<char>> {
    seq![
        seq!['c', 'h', 'a', 'r', 'a', 'c', 't', 'e', 'r', 's'],
        seq!['b', 'a', 'c', 'k', 'g', 'r', 'o', 'u', 'n', 'd', 's'],
        seq!['b', 'g', 'm'],
        seq!['f', 'o', 'r', 'm', 'a', 't'],
        seq!['a', 'u', 'd', 'i', 'o'],
    ]
}

/// The metadata sections among `keys` that the top-level entries have.
pub open spec fn meta_from(e: Seq<(YamlV, YamlV)>, keys: Seq<Seq<char>>) -> Map<
    Seq<char>,
    JsonV,
>
    decreases keys.len(),
{
    if keys.len() == 0 {
        Map::empty()
    } else {
        let m = meta_from(e, keys.drop_last());
        match entries_lookup(e, keys.last()) {
            Some(v) => m.insert(keys.last(), yaml_json(v)),
            None => m,
        }
    }
}

/// Whether mapping entries have the string key `k`.
pub open spec fn has_key(e: Seq<(YamlV, YamlV)>, k: Seq<char>) -> bool {
    entries_lookup(e, k).is_some()
}

/// The first string key from position `i` on that is not `when`.
pub open spec fn first_other_key(e: Seq<(YamlV, YamlV)>, i: int) -> Option<Seq<char>>
    decreases e.len() - i,
{
    if 0 <= i < e.len() {
        match as_str(e[i].0) {
            Some(k) => if k != seq!['w', 'h', 'e', 'n'] {
                Some(k)
            } else {
                first_other_key(e, i + 1)
            },
            None => first_other_key(e, i + 1),
        }
    } else {
        None
    }
}

/// The type of a node: the first built-in key it has (`end`, `do`, `jump`,
/// `incase`, `choice`), then `speaker` (with `text`), `text`, `bg`, `bgm`, then its
/// first string key other than `when`, and `unknown` when there is none.
pub open spec fn node_type_spec(e: Seq<(YamlV, YamlV)>) -> Seq<char> {
    if has_key(e, seq!['e', 'n', 'd']) {
        seq!['e', 'n', 'd']
    } else if has_key(e, seq!['d', 'o']) {
        seq!['d', 'o']
    } else if has_key(e, seq!['j', 'u', 'm', 'p']) {
        seq!['j', 'u', 'm', 'p']
    } else if has_key(e, seq!['i', 'n', 'c', 'a', 's', 'e']) {
        seq!['i', 'n', 'c', 'a', 's', 'e']
    } else if has_key(e, seq!['c', 'h', 'o', 'i', 'c', 'e']) {
        seq!['c', 'h', 'o', 'i', 'c', 'e']
    } else if has_key(e, seq!['s', 'p', 'e', 'a', 'k', 'e', 'r']) && has_key(
        e,
        seq!['t', 'e', 'x', 't'],
    ) {
        seq!['s', 'p', 'e', 'a', 'k', 'e', 'r']
    } else if has_key(e, seq!['t', 'e', 'x', 't']) {
        seq!['t', 'e', 'x', 't']
    } else if has_key(e, seq!['b', 'g']) {
        seq!['b', 'g']
    } else if has_key(e, seq!['b', 'g', 'm']) {
        seq!['b', 'g', 'm']
    } else {
        match first_other_key(e, 0) {
            Some(k) => k,
            None => seq!['u', 'n', 'k', 'n', 'o', 'w', 'n'],
        }
    }
}

/// The JSON object members of the string-keyed entries, leaving out keys in `skip`.
pub open spec fn members_without(e: Seq<(YamlV, YamlV)>, skip: Set<Seq<char>>) -> Seq<
    (Seq<char>, JsonV),
>
    decreases e.len(),
{
    if e.len() == 0 {
        Seq::empty()
    } else {
        let m = members_without(e.drop_last(), skip);
        match as_str(e.last().0) {
            Some(k) => if skip.contains(k) {
                m
            } else {
                members_put(m, k, yaml_json(e.last().1))
            },
            None => m,
        }
    }
}

/// The word `when`.
pub open spec fn when_word() -> Seq<char> {
    seq!['w', 'h', 'e', 'n']
}

/// The word `elements`.
pub open spec fn elements_word() -> Seq<char> {
    seq!['e', 'l', 'e', 'm', 'e', 'n', 't', 's']
}

/// The `elements` of the first mapping value (under a string key other than
/// `when`) that has them, from position `i` on.
pub open spec fn inner_elements(e: Seq<(YamlV, YamlV)>, i: int) -> Option<YamlV>
    decreases e.len() - i,
{
    if 0 <= i < e.len() {
        let found = match as_str(e[i].0) {
            Some(k) => if k != when_word() {
                match as_mapping(e[i].1) {
                    Some(inner) => entries_lookup(inner, elements_word()),
                    None => None,
                }
            } else {
                None
            },
            None => None,
        };
        match found {
            Some(x) => Some(x),
            None => inner_elements(e, i + 1),
        }
    } else {
        None
    }
}

/// The options of a `choice` node.
pub open spec fn choice_options(val: YamlV) -> Option<YamlV> {
    match get(val, seq!['c', 'h', 'o', 'i', 'c', 'e']) {
        Some(c) => get(c, seq!['o', 'p', 't', 'i', 'o', 'n', 's']),
        None => None,
    }
}

/// Where a node's elements are: its own `elements`, the `elements` inside its
/// primary value, or a `choice`'s `options`.
pub open spec fn find_elements(val: YamlV) -> Option<YamlV> {
    match get(val, elements_word()) {
        Some(x) => Some(x),
        None => match as_mapping(val) {
            Some(e) => match inner_elements(e, 0) {
                Some(x) => Some(x),
                None => choice_options(val),
            },
            None => choice_options(val),
        },
    }
}

/// The keys that are not an element's extra fields.
pub open spec fn element_fields() -> Set<Seq<char>> {
    set![seq!['k', 'e', 'y'], seq!['l', 'a', 'b', 'e', 'l'], when_word()]
}

/// An element, when the item is a mapping: its `key` (empty when missing), its
/// `label` (or else its `text`), its `when`, and its other fields.
pub open spec fn element_spec(item: YamlV) -> Option<ElementV> {
    match as_mapping(item) {
        Some(e) => Some(
            ElementV {
                key: match opt_as_str(get(item, seq!['k', 'e', 'y'])) {
                    Some(k) => k,
                    None => Seq::empty(),
                },
                label: match opt_as_str(get(item, seq!['l', 'a', 'b', 'e', 'l'])) {
                    Some(l) => Some(l),
                    None => opt_as_str(get(item, seq!['t', 'e', 'x', 't'])),
                },
                when: opt_as_str(get(item, when_word())),
                extra: JsonV::Object(members_without(e, element_fields())),
            },
        ),
        None => None,
    }
}

/// The elements of the mapping items among `items`.
pub open spec fn elements_list(items: Seq<YamlV>) -> Seq<ElementV>
    decreases items.len(),
{
    if items.len() == 0 {
        Seq::empty()
    } else {
        let l = elements_list(items.drop_last());
        match element_spec(items.last()) {
            Some(x) => l.push(x),
            None => l,
        }
    }
}

/// A node's elements; none when there are no element items.
pub open spec fn elements_spec(val: YamlV) -> Option<Seq<ElementV>> {
    match find_elements(val) {
        Some(x) => match as_sequence(x) {
            Some(items) => {
                let l = elements_list(items);
                if l.len() == 0 {
                    None
                } else {
                    Some(l)
                }
            },
            None => None,
        },
        None => None,
    }
}

/// The text of a branch update value: strings as they are, booleans and numbers as
/// they display, anything else as its JSON text.
pub open spec fn do_text(v: YamlV) -> Seq<char> {
    match v {
        YamlV::Str(s) => s,
        YamlV::Bool(b) => if b {
            seq!['t', 'r', 'u', 'e']
        } else {
            seq!['f', 'a', 'l', 's', 'e']
        },
        YamlV::Int(n) => int_decimal(n as int),
        YamlV::Float(t, _) => t,
        _ => json_text(yaml_json(v)),
    }
}

/// Ordered pairs with `k` set to `v`: in place when present, else at the end.
pub open spec fn pairs_put(m: Seq<(Seq<char>, Seq<char>)>, k: Seq<char>, v: Seq<char>) -> Seq<
    (Seq<char>, Seq<char>),
> {
    if exists|i: int| 0 <= i < m.len() && m[i].0 == k {
        let i = choose|i: int| 0 <= i < m.len() && m[i].0 == k;
        m.update(i, (k, v))
    } else {
        m.push((k, v))
    }
}

/// The updates of a branch's `do` mapping, in order.
pub open spec fn do_pairs(e: Seq<(YamlV, YamlV)>) -> Seq<(Seq<char>, Seq<char>)>
    decreases e.len(),
{
    if e.len() == 0 {
        Seq::empty()
    } else {
        let m = do_pairs(e.drop_last());
        match as_str(e.last().0) {
            Some(k) => pairs_put(m, k, do_text(e.last().1)),
            None => m,
        }
    }
}

/// A branch item: its `when`, `next`, and `do` updates.
pub open spec fn branch_spec(item: YamlV) -> BranchV {
    BranchV {
        when: opt_as_str(get(item, when_word())),
        do_updates: match get(item, seq!['d', 'o']) {
            Some(d) => match as_mapping(d) {
                Some(e) => Some(do_pairs(e)),
                None => None,
            },
            None => None,
        },
        next: opt_as_str(get(item, seq!['n', 'e', 'x', 't'])),
    }
}

/// The branches of a `jump` or `incase` node; none for other nodes or an empty list.
pub open spec fn branches_spec(val: YamlV, node_type: Seq<char>) -> Option<Seq<BranchV>> {
    let b = if node_type == seq!['j', 'u', 'm', 'p'] {
        get(val, seq!['j', 'u', 'm', 'p'])
    } else if node_type == seq!['i', 'n', 'c', 'a', 's', 'e'] {
        get(val, seq!['i', 'n', 'c', 'a', 's', 'e'])
    } else {
        None
    };
    match b {
        Some(bv) => match as_sequence(bv) {
            Some(items) => if items.len() == 0 {
                None
            } else {
                Some(items.map_values(|it: YamlV| branch_spec(it)))
            },
            None => None,
        },
        None => None,
    }
}

/// A node of scene `sid` at position `idx`: it must be a mapping.
pub open spec fn node_spec(val: YamlV, sid: Seq<char>, idx: nat) -> Result<NodeV, Seq<char>> {
    match as_mapping(val) {
        None => Err(
            "node at "@ + sid + seq!['['] + nat_decimal(idx) + "] must be a mapping"@,
        ),
        Some(e) => {
            let nt = node_type_spec(e);
            Ok(
                NodeV {
                    node_type: nt,
                    when: opt_as_str(get(val, when_word())),
                    raw: JsonV::Object(members_without(e, set![when_word()])),
                    elements: elements_spec(val),
                    branches: branches_spec(val, nt),
                },
            )
        },
    }
}

/// The nodes of scene `sid`: the first node that is not a mapping is an error.
pub open spec fn nodes_spec(items: Seq<YamlV>, sid: Seq<char>) -> Result<Seq<NodeV>, Seq<char>>
    decreases items.len(),
{
    if items.len() == 0 {
        Ok(Seq::empty())
    } else {
        match nodes_spec(items.drop_last(), sid) {
            Err(m) => Err(m),
            Ok(ns) => match node_spec(items.last(), sid, (items.len() - 1) as nat) {
                Err(m) => Err(m),
                Ok(n) => Ok(ns.push(n)),
            },
        }
    }
}

/// The scenes of the entries of a scenes block, in order; a key that is not a string,
/// a scene that is not a list, or a node that is not a mapping is an error.
pub open spec fn scenes_entries(e: Seq<(YamlV, YamlV)>) -> Result<
    Map<Seq<char>, Seq<NodeV>>,
    Seq<char>,
>
    decreases e.len(),
{
    if e.len() == 0 {
        Ok(Map::empty())
    } else {
        match scenes_entries(e.drop_last()) {
            Err(m) => Err(m),
            Ok(m) => match as_str(e.last().0) {
                None => Err("scene key must be a string"@),
                Some(sid) => match as_sequence(e.last().1) {
                    None => Err("scene '"@ + sid + "' must be a list of nodes"@),
                    Some(items) => match nodes_spec(items, sid) {
                        Err(x) => Err(x),
                        Ok(ns) => Ok(m.insert(sid, ns)),
                    },
                },
            },
        }
    }
}

/// The scenes of a scenes block, which must be a mapping.
pub open spec fn scenes_block_spec(val: YamlV) -> Result<Map<Seq<char>, Seq<NodeV>>, Seq<char>> {
    match as_mapping(val) {
        None => Err("scenes block must be a mapping"@),
        Some(e) => scenes_entries(e),
    }
}

/// The file name recorded for scenes of a single-document scenario.
pub open spec fn root_file() -> Seq<char> {
    seq!['_', '_', 'r', 'o', 'o', 't', '_', '_']
}

/// Every scene of `scenes` recorded as coming from `file`.
pub open spec fn all_from(scenes: Map<Seq<char>, Seq<NodeV>>, file: Seq<char>) -> Map<
    Seq<char>,
    Seq<char>,
> {
    Map::new(|k: Seq<char>| scenes.dom().contains(k), |k: Seq<char>| file)
}

/// A single scenario document: a mapping with `id`, `title`, `entry` and `scenes`
/// (errors in that order), an optional `version`, the `state` entries as initial
/// variables, and the metadata sections.
pub open spec fn parse_spec(doc: YamlV) -> Result<ScenarioV, Seq<char>> {
    match as_mapping(doc) {
        None => Err("top-level must be a mapping"@),
        Some(e) => match header_field(doc, seq!['i', 'd']) {
            None => Err("missing required field: id"@),
            Some(id) => match header_field(doc, seq!['t', 'i', 't', 'l', 'e']) {
                None => Err("missing required field: title"@),
                Some(title) => match header_field(doc, seq!['e', 'n', 't', 'r', 'y']) {
                    None => Err("missing required field: entry"@),
                    Some(entry) => match get(doc, seq!['s', 'c', 'e', 'n', 'e', 's']) {
                        None => Err("missing required field: scenes"@),
                        Some(sv) => match scenes_block_spec(sv) {
                            Err(m) => Err(m),
                            Ok(scenes) => Ok(
                                ScenarioV {
                                    id,
                                    title,
                                    version: header_field(
                                        doc,
                                        seq!['v', 'e', 'r', 's', 'i', 'o', 'n'],
                                    ),
                                    entry,
                                    initial_state: state_spec(doc),
                                    meta: meta_from(e, meta_keys()),
                                    scenes,
                                    scene_file: all_from(scenes, root_file()),
                                    scene_path: None,
                                },
                            ),
                        },
                    },
                },
            },
        },
    }
}

} // verus!

verus! {

/// A node mapping with a `text` key and none of the keys `end`, `do`, `jump`,
/// `incase`, `choice` and `speaker` is a `text` node, whatever other keys (`bg`,
/// `bgm`, ...) it has.
pub proof fn law_text_node_type(e: Seq<(YamlV, YamlV)>)
    requires
        has_key(e, seq!['t', 'e', 'x', 't']),
        !has_key(e, seq!['e', 'n', 'd']),
        !has_key(e, seq!['d', 'o']),
        !has_key(e, seq!['j', 'u', 'm', 'p']),
        !has_key(e, seq!['i', 'n', 'c', 'a', 's', 'e']),
        !has_key(e, seq!['c', 'h', 'o', 'i', 'c', 'e']),
        !has_key(e, seq!['s', 'p', 'e', 'a', 'k', 'e', 'r']),
    ensures
        node_type_spec(e) == seq!['t', 'e', 'x', 't'],
{
}

/// A node mapping with an `end` key is an `end` node, whatever other keys it has.
pub proof fn law_end_node_type(e: Seq<(YamlV, YamlV)>)
    requires
        has_key(e, seq!['e', 'n', 'd']),
    ensures
        node_type_spec(e) == seq!['e', 'n', 'd'],
{
}

/// A node mapping with both `speaker` and `text`, and none of `end`, `do`, `jump`,
/// `incase` and `choice`, is a `speaker` node.
#[verifier::rlimit(40)]
pub proof fn law_speaker_node_type(e: Seq<(YamlV, YamlV)>)
    requires
        has_key(e, seq!['s', 'p', 'e', 'a', 'k', 'e', 'r']),
        has_key(e, seq!['t', 'e', 'x', 't']),
        !has_key(e, seq!['e', 'n', 'd']),
        !has_key(e, seq!['d', 'o']),
        !has_key(e, seq!['j', 'u', 'm', 'p']),
        !has_key(e, seq!['i', 'n', 'c', 'a', 's', 'e']),
        !has_key(e, seq!['c', 'h', 'o', 'i', 'c', 'e']),
    ensures
        node_type_spec(e) == seq!['s', 'p', 'e', 'a', 'k', 'e', 'r'],
{
}

/// A node mapping with `bg` and none of the keys `end`, `do`, `jump`, `incase`,
/// `choice` and `text` is a `bg` node.
pub proof fn law_bg_node_type(e: Seq<(YamlV, YamlV)>)
    requires
        has_key(e, seq!['b', 'g']),
        !has_key(e, seq!['e', 'n', 'd']),
        !has_key(e, seq!['d', 'o']),
        !has_key(e, seq!['j', 'u', 'm', 'p']),
        !has_key(e, seq!['i', 'n', 'c', 'a', 's', 'e']),
        !has_key(e, seq!['c', 'h', 'o', 'i', 'c', 'e']),
        !has_key(e, seq!['t', 'e', 'x', 't']),
    ensures
        node_type_spec(e) == seq!['b', 'g'],
{
}

} // verus!
