//! The scenario model: scenes of nodes, with their elements and branches.
use vstd::prelude::*;
use crate::json::{Json, JsonV, jv};
use crate::strmap::StrMap;

verus! {

/// One way out of a `jump` or `incase` node.
#[derive(Debug, Clone)]
pub struct Branch {
    /// The condition under which the branch is taken; none means always.
    pub when: Option<String>,
    /// Variable updates made when the branch is taken, each value as text.
    pub do_updates: Option<StrMap<String>>,
    /// The scene to go to (`scene` or `file:scene`).
    pub next: Option<String>,
}

/// One choice of a menu node.
#[derive(Debug, Clone)]
pub struct Element {
    pub key: String,
    pub label: Option<String>,
    /// The condition under which the element is offered.
    pub when: Option<String>,
    /// The element's other fields, as a JSON object.
    pub extra: Json,
}

/// One step of a scene.
#[derive(Debug, Clone)]
pub struct Node {
    pub node_type: String,
    /// The condition under which the node runs; otherwise it is skipped.
    pub when: Option<String>,
    /// The node's fields other than `when`, as a JSON object.
    pub raw: Json,
    pub elements: Option<Vec<Element>>,
    pub branches: Option<Vec<Branch>>,
}

/// A scenario: its header, initial variables, metadata and scenes.
#[derive(Debug, Clone)]
pub struct Scenario {
    pub id: String,
    pub title: String,
    pub version: Option<String>,
    /// The first scene (`scene` or `file:scene`).
    pub entry: String,
    pub initial_state: StrMap<Json>,
    pub meta: StrMap<Json>,
    pub scenes: StrMap<Vec<Node>>,
    /// The file each scene comes from.
    pub scene_file: StrMap<String>,
    pub scene_path: Option<String>,
}

/// The model of an optional string.
pub open spec fn opt_str(o: Option<String>) -> Option<Seq<char>> {
    match o {
        Some(s) => Some(s@),
        None => None,
    }
}

/// The model of a branch.
pub struct BranchV {
    pub when: Option<Seq<char>>,
    /// The updates in order, each key once.
    pub do_updates: Option<Seq<(Seq<char>, Seq<char>)>>,
    pub next: Option<Seq<char>>,
}

/// The model of an element.
pub struct ElementV {
    pub key: Seq<char>,
    pub label: Option<Seq<char>>,
    pub when: Option<Seq<char>>,
    pub extra: JsonV,
}

/// The model of a node.
pub struct NodeV {
    pub node_type: Seq<char>,
    pub when: Option<Seq<char>>,
    pub raw: JsonV,
    pub elements: Option<Seq<ElementV>>,
    pub branches: Option<Seq<BranchV>>,
}

/// Pairs of strings by their models.
pub open spec fn str_pairs(s: Seq<(String, String)>) -> Seq<(Seq<char>, Seq<char>)> {
    s.map_values(|p: (String, String)| (p.0@, p.1@))
}

/// The model of a branch.
pub open spec fn branch_view(b: Branch) -> BranchV {
    BranchV {
        when: opt_str(b.when),
        do_updates: match b.do_updates {
            Some(m) => Some(str_pairs(m.entry_seq())),
            None => None,
        },
        next: opt_str(b.next),
    }
}

/// The model of an element.
pub open spec fn element_view(e: Element) -> ElementV {
    ElementV { key: e.key@, label: opt_str(e.label), when: opt_str(e.when), extra: jv(e.extra) }
}

/// The model of a node.
pub open spec fn node_view(n: Node) -> NodeV {
    NodeV {
        node_type: n.node_type@,
        when: opt_str(n.when),
        raw: jv(n.raw),
        elements: match n.elements {
            Some(v) => Some(v@.map_values(|e: Element| element_view(e))),
            None => None,
        },
        branches: match n.branches {
            Some(v) => Some(v@.map_values(|b: Branch| branch_view(b))),
            None => None,
        },
    }
}

/// The models of a scene's nodes.
pub open spec fn nodes_view(v: Vec<Node>) -> Seq<NodeV> {
    v@.map_values(|n: Node| node_view(n))
}

/// The scenes by their models.
pub open spec fn scenes_view(m: StrMap<Vec<Node>>) -> Map<Seq<char>, Seq<NodeV>> {
    m@.map_values(|v: Vec<Node>| nodes_view(v))
}

/// The file of each scene, by models.
pub open spec fn files_view(m: StrMap<String>) -> Map<Seq<char>, Seq<char>> {
    m@.map_values(|s: String| s@)
}

/// JSON entries by their models.
pub open spec fn json_map_view(m: StrMap<Json>) -> Map<Seq<char>, JsonV> {
    m@.map_values(|j: Json| jv(j))
}

/// The model of a scenario.
pub struct ScenarioV {
    pub id: Seq<char>,
    pub title: Seq<char>,
    pub version: Option<Seq<char>>,
    pub entry: Seq<char>,
    pub initial_state: Map<Seq<char>, JsonV>,
    pub meta: Map<Seq<char>, JsonV>,
    pub scenes: Map<Seq<char>, Seq<NodeV>>,
    pub scene_file: Map<Seq<char>, Seq<char>>,
    pub scene_path: Option<Seq<char>>,
}

/// The model of a scenario.
pub open spec fn scenario_view(s: Scenario) -> ScenarioV {
    ScenarioV {
        id: s.id@,
        title: s.title@,
        version: opt_str(s.version),
        entry: s.entry@,
        initial_state: json_map_view(s.initial_state),
        meta: json_map_view(s.meta),
        scenes: scenes_view(s.scenes),
        scene_file: files_view(s.scene_file),
        scene_path: opt_str(s.scene_path),
    }
}

} // verus!
