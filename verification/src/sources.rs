//! Reading YAML and JSON text into the library's document trees, and writing JSON
//! text, through `serde_yaml` and `serde_json`.
//!
//! What a text parses to is named, not stated: the names below stand for the
//! parsers' results, converted value for value into `Yaml` and `Json` (a number
//! that is not a 64-bit signed integer is held by its text).
use vstd::prelude::*;
use serde_json::Value as JsonTree;
use serde_yaml::Number as YamlNumber;
use serde_yaml::Value as YamlTree;
use crate::json::{Json, JsonV, Real, json_text, jv};
use crate::yaml::{Yaml, YamlFloat, YamlV, yv};

verus! {

#[verifier::external_type_specification]
#[verifier::external_body]
pub struct ExYamlTree(YamlTree);

#[verifier::external_type_specification]
#[verifier::external_body]
pub struct ExYamlNumber(YamlNumber);

#[verifier::external_type_specification]
#[verifier::external_body]
pub struct ExJsonTree(JsonTree);

/// The document that `serde_yaml::from_str` reads from `text`, or its error message.
pub uninterp spec fn yaml_doc_of_text(text: Seq<char>) -> Result<YamlV, Seq<char>>;

/// The value that `serde_json::from_str` reads from `text`, or its error message.
pub uninterp spec fn json_doc_of_text(text: Seq<char>) -> Result<JsonV, Seq<char>>;

/// Calls `serde_yaml::from_str` for a `serde_yaml::Value` and converts the result.
/// Claimed: the document, or the error's message, is the one named by
/// `yaml_doc_of_text` for this text.
#[verifier::external_body]
pub(crate) fn parse_yaml_text(text: &str) -> (r: Result<Yaml, String>)
    ensures
        match r {
            Ok(y) => yaml_doc_of_text(text@) == Ok::<YamlV, Seq<char>>(yv(y)),
            Err(m) => yaml_doc_of_text(text@) == Err::<YamlV, Seq<char>>(m@),
        },
{
    match serde_yaml::from_str::<YamlTree>(text) {
        Ok(v) => Ok(yaml_of_tree(&v)),
        Err(e) => Err(e.to_string()),
    }
}

/// Converts a `serde_yaml::Number`: the integer that `as_i64` gives, or else the
/// number's display text together with the JSON text that `serde_json::to_string`
/// writes for its `as_f64` value.
#[verifier::external_body]
fn yaml_of_number(n: &YamlNumber) -> Yaml {
    match n.as_i64() {
        Some(i) => Yaml::Int(i),
        None => Yaml::Float(
            YamlFloat {
                text: n.to_string(),
                json_text: serde_json::to_string(&n.as_f64()).unwrap_or_default(),
            },
        ),
    }
}

/// Converts a `serde_yaml::Value` node for node (numbers by `yaml_of_number`).
#[verifier::external_body]
fn yaml_of_tree(v: &YamlTree) -> Yaml {
    match v {
        YamlTree::Bool(b) => Yaml::Bool(*b),
        YamlTree::Number(n) => yaml_of_number(n),
        YamlTree::String(s) => Yaml::Str(s.clone()),
        YamlTree::Sequence(items) => Yaml::List(items.iter().map(yaml_of_tree).collect()),
        YamlTree::Mapping(m) => Yaml::Mapping(m.iter().map(|(k, x)| (yaml_of_tree(k), yaml_of_tree(x))).collect()),
        YamlTree::Tagged(t) => Yaml::Tagged(Box::new(yaml_of_tree(&t.value))),
        _ => Yaml::Null,
    }
}

/// Calls `serde_json::from_str` for a `serde_json::Value` and converts the result.
/// Claimed: the value, or the error's message, is the one named by
/// `json_doc_of_text` for this text.
#[verifier::external_body]
pub(crate) fn parse_json_text(text: &str) -> (r: Result<Json, String>)
    ensures
        match r {
            Ok(j) => json_doc_of_text(text@) == Ok::<JsonV, Seq<char>>(jv(j)),
            Err(m) => json_doc_of_text(text@) == Err::<JsonV, Seq<char>>(m@),
        },
{
    match serde_json::from_str::<JsonTree>(text) {
        Ok(v) => Ok(json_of_tree(&v)),
        Err(e) => Err(e.to_string()),
    }
}

/// Converts a `serde_json::Value` node for node: a number that `as_i64` does not give
/// is held by its display text alone.
#[verifier::external_body]
fn json_of_tree(v: &JsonTree) -> Json {
    match v {
        JsonTree::Null => Json::Null,
        JsonTree::Bool(b) => Json::Bool(*b),
        JsonTree::Number(n) => match n.as_i64() {
            Some(i) => Json::Int(i),
            None => Json::Float(Real { text: n.to_string(), whole: None, neg_zero: false }),
        },
        JsonTree::String(s) => Json::Str(s.clone()),
        JsonTree::Array(items) => Json::Array(items.iter().map(json_of_tree).collect()),
        JsonTree::Object(m) => Json::Object(m.iter().map(|(k, x)| (k.clone(), json_of_tree(x))).collect()),
    }
}

/// The text that `serde_json::to_string` writes for the `f64` value (`as_f64`) of the
/// number that `serde_json::Number::from_str` reads from `digits`.
pub uninterp spec fn float_text_of_integer(digits: Seq<char>) -> Seq<char>;

/// Reads `digits` with `serde_json::Number::from_str`, takes its `as_f64` value and
/// writes it with `serde_json::to_string`. Claimed: the text is the one named by
/// `float_text_of_integer`.
#[verifier::external_body]
pub(crate) fn integer_float_text(digits: &str) -> (t: String)
    ensures
        t@ == float_text_of_integer(digits@),
{
    let n = digits.parse::<serde_json::Number>().ok().and_then(|n| n.as_f64());
    serde_json::to_string(&n).unwrap_or_default()
}

/// Calls `serde_json::to_string` on the `serde_json::Value` that `j` stands for.
/// Claimed: the text is the one named by `json_text` for this value.
#[verifier::external_body]
pub(crate) fn json_to_text(j: &Json) -> (s: String)
    ensures
        s@ == json_text(jv(*j)),
{
    serde_json::to_string(&tree_of_json(j)).unwrap_or_default()
}

/// Converts a `Json` node for node into a `serde_json::Value`: a number held by its
/// text is the number that `serde_json::from_str` reads from that text (`null`
/// stays null).
#[verifier::external_body]
fn tree_of_json(j: &Json) -> JsonTree {
    match j {
        Json::Null => JsonTree::Null,
        Json::Bool(b) => JsonTree::Bool(*b),
        Json::Int(n) => JsonTree::from(*n),
        Json::Float(r) => serde_json::from_str(&r.text).unwrap_or(JsonTree::Null),
        Json::Str(s) => JsonTree::String(s.clone()),
        Json::Array(items) => JsonTree::Array(items.iter().map(tree_of_json).collect()),
        Json::Object(m) => JsonTree::Object(m.iter().map(|(k, x)| (k.clone(), tree_of_json(x))).collect()),
    }
}

} // verus!
