use yamamva::error::ParseError;
use yamamva::scenario::Scenario;

fn parse(yaml: &str) -> Result<Scenario, ParseError> {
    yamamva::parser::parse(yaml)
}

#[test]
fn test_parse_minimal() {
    let yaml = r#"
id: test
title: "Test Scenario"
entry: scene_start
scenes:
  scene_start:
    - text: "Hello"
    - end: true
"#;
    let scenario = parse(yaml).unwrap();
    assert_eq!(scenario.id, "test");
    assert_eq!(scenario.entry, "scene_start");
    let scene = scenario.scenes.get("scene_start").unwrap();
    assert_eq!(scene.len(), 2);
    assert_eq!(scene[0].node_type, "text");
    assert_eq!(scene[1].node_type, "end");
}

#[test]
fn test_parse_elements() {
    let yaml = r#"
id: test
title: test
entry: scene_start
scenes:
  scene_start:
    - hearingmenu:
        style: vertical
        elements:
          - { key: elmar, label: "エルマーのラボへ", when: "not heard_elmar" }
          - { key: leave, label: "帰る" }
    - end: true
"#;
    let scenario = parse(yaml).unwrap();
    let scene = scenario.scenes.get("scene_start").unwrap();
    let menu_node = &scene[0];
    assert_eq!(menu_node.node_type, "hearingmenu");
    let elements = menu_node.elements.as_ref().unwrap();
    assert_eq!(elements.len(), 2);
    assert_eq!(elements[0].key, "elmar");
    assert_eq!(elements[0].when.as_deref(), Some("not heard_elmar"));
    assert_eq!(elements[1].key, "leave");
    assert!(elements[1].when.is_none());
}

#[test]
fn test_parse_jump_branches() {
    let yaml = r#"
id: test
title: test
entry: scene_start
scenes:
  scene_start:
    - jump:
        - when: "score >= 80"
          next: scene_good
        - next: scene_bad
"#;
    let scenario = parse(yaml).unwrap();
    let scene = scenario.scenes.get("scene_start").unwrap();
    let jump = &scene[0];
    assert_eq!(jump.node_type, "jump");
    let branches = jump.branches.as_ref().unwrap();
    assert_eq!(branches.len(), 2);
    assert_eq!(branches[0].when.as_deref(), Some("score >= 80"));
    assert_eq!(branches[0].next.as_deref(), Some("scene_good"));
    assert!(branches[1].when.is_none());
    assert_eq!(branches[1].next.as_deref(), Some("scene_bad"));
}

#[test]
fn test_parse_incase() {
    let yaml = r#"
id: test
title: test
entry: scene_start
scenes:
  scene_start:
    - incase:
        - when: "$result == 'elmar'"
          do: { heard_elmar: true }
          next: scene_hear_elmar
        - next: scene_ending
"#;
    let scenario = parse(yaml).unwrap();
    let scene = scenario.scenes.get("scene_start").unwrap();
    let incase = &scene[0];
    assert_eq!(incase.node_type, "incase");
    let branches = incase.branches.as_ref().unwrap();
    assert_eq!(branches.len(), 2);
    assert_eq!(branches[0].when.as_deref(), Some("$result == 'elmar'"));
    let do_updates = branches[0].do_updates.as_ref().unwrap();
    assert_eq!(do_updates.get("heard_elmar").unwrap(), "true");
    assert_eq!(branches[0].next.as_deref(), Some("scene_hear_elmar"));
}

fn first_scene(yaml_nodes: &str) -> Vec<yamamva::scenario::Node> {
    let doc = format!("id: t\ntitle: t\nentry: s\nscenes:\n  s:\n{}", yaml_nodes);
    let mut scenario = parse(&doc).unwrap();
    let nodes = scenario.scenes.get("s").unwrap();
    let mut out = Vec::new();
    for n in nodes {
        out.push(n.clone());
    }
    scenario.scenes = yamamva::strmap::StrMap::new();
    out
}

#[test]
fn node_type_priorities() {
    let nodes = first_scene(
        "    - { text: a, end: true }\n    - { speaker: x }\n    - { when: c, bgm: y, foo: 1 }\n    - { foo: 1, bar: 2 }\n    - { when: c }\n    - { text: a, speaker: b, bg: c }\n    - { choice: { options: [] }, do: {} }\n",
    );
    let types: Vec<&str> = nodes.iter().map(|n| n.node_type.as_str()).collect();
    assert_eq!(types, vec!["end", "speaker", "bgm", "foo", "unknown", "speaker", "do"]);
    assert_eq!(nodes[2].when.as_deref(), Some("c"));
}

#[test]
fn node_json_leaves_out_when() {
    let nodes = first_scene("    - { when: c, b: 2, a: [1, x, null], 7: seven }\n");
    assert_eq!(yamamva::json::to_json_string(&nodes[0].raw), r#"{"a":[1,"x",null],"b":2}"#);
}

#[test]
fn elements_are_found_where_they_stand() {
    let nodes = first_scene(
        "    - { menu: m, elements: [ { key: a } ] }\n    - menu: { elements: [ { key: b, text: T, x: 1 }, 5 ] }\n    - choice: { options: [ { key: c, label: L } ] }\n    - menu: { elements: [ 1, 2 ] }\n    - menu: { items: [ { key: d } ] }\n",
    );
    assert_eq!(nodes[0].elements.as_ref().unwrap()[0].key, "a");
    let b = &nodes[1].elements.as_ref().unwrap();
    assert_eq!(b.len(), 1);
    assert_eq!(b[0].key, "b");
    assert_eq!(b[0].label.as_deref(), Some("T"));
    assert_eq!(yamamva::json::to_json_string(&b[0].extra), r#"{"text":"T","x":1}"#);
    let c = &nodes[2].elements.as_ref().unwrap()[0];
    assert_eq!((c.key.as_str(), c.label.as_deref()), ("c", Some("L")));
    assert!(nodes[3].elements.is_none());
    assert!(nodes[4].elements.is_none());
}

#[test]
fn element_without_key() {
    let nodes = first_scene("    - menu: { elements: [ { label: only } ] }\n");
    let e = &nodes[0].elements.as_ref().unwrap()[0];
    assert_eq!(e.key, "");
    assert_eq!(e.label.as_deref(), Some("only"));
}

#[test]
fn branch_fields_and_update_texts() {
    let nodes = first_scene(
        "    - jump:\n        - { when: w, next: n, do: { a: 5, b: true, c: 1.5, d: [1], e: x, f: ~ } }\n        - {}\n    - incase: not-a-list\n    - text: { jump: [ { next: n } ] }\n",
    );
    let bs = nodes[0].branches.as_ref().unwrap();
    assert_eq!(bs.len(), 2);
    let u = bs[0].do_updates.as_ref().unwrap();
    assert_eq!(u.get("a").unwrap(), "5");
    assert_eq!(u.get("b").unwrap(), "true");
    assert_eq!(u.get("c").unwrap(), "1.5");
    assert_eq!(u.get("d").unwrap(), "[1]");
    assert_eq!(u.get("e").unwrap(), "x");
    assert_eq!(u.get("f").unwrap(), "null");
    assert!(bs[1].when.is_none() && bs[1].next.is_none() && bs[1].do_updates.is_none());
    assert!(nodes[1].branches.is_none());
    assert!(nodes[2].branches.is_none());
}

#[test]
fn header_fields_and_metadata() {
    let yaml = r#"
id: 42
title: true
version: 1.5
entry: s
state:
  n: 1
  f: 2.5
  l: [1]
characters: { a: 1 }
audio: [x]
other: 3
scenes:
  s: []
"#;
    let scenario = parse(yaml).unwrap();
    assert_eq!(scenario.id, "42");
    assert_eq!(scenario.title, "true");
    assert_eq!(scenario.version.as_deref(), Some("1.5"));
    assert_eq!(scenario.meta.len(), 2);
    assert_eq!(yamamva::json::to_json_string(scenario.meta.get("characters").unwrap()), r#"{"a":1}"#);
    assert_eq!(yamamva::json::to_json_string(scenario.meta.get("audio").unwrap()), r#"["x"]"#);
    assert!(scenario.meta.get("other").is_none());
    assert_eq!(scenario.initial_state.len(), 3);
    assert_eq!(yamamva::json::to_json_string(scenario.initial_state.get("f").unwrap()), "2.5");
    assert!(scenario.scenes.get("s").unwrap().is_empty());
    assert!(scenario.scene_path.is_none());
}
