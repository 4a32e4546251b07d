use yamamva::engine::{Engine, ExecArgs};
use yamamva::error::{ParseError, YamamvaError};
use yamamva::json::{Json, Real};
use yamamva::parse_file_scene_ref;
use yamamva::registry::{Registry, YAMAMVA_BLOCKING, YAMAMVA_END, YAMAMVA_PASS};
use yamamva::save::{restore, save};
use yamamva::scenario::Scenario;
use yamamva::state::Value;
use yamamva::world::{World, scene_file_plan};

const CMD_BG: i32 = 1;
const CMD_TEXT: i32 = 2;
const CMD_SPEAKER: i32 = 3;
const CMD_MENU: i32 = 4;
const CMD_MXBS: i32 = 5;
const CMD_MINIGAME: i32 = 6;
const CMD_LLM_CHAT: i32 = 7;

fn parse(yaml: &str) -> Result<Scenario, ParseError> {
    yamamva::parser::parse(yaml)
}

fn load_world(world_yaml: &str, files: &[(&str, &str)]) -> Result<Scenario, YamamvaError> {
    let mut world = World::from_text(world_yaml)?;
    let names: Vec<String> = files.iter().map(|(n, _)| n.to_string()).collect();
    for (name, stem) in scene_file_plan(&names) {
        let content = files.iter().find(|(n, _)| *n == name).unwrap().1;
        world.add_scene_text(&stem, content)?;
    }
    world.finish()
}

fn make_engine(yaml: &str) -> Engine {
    let scenario = parse(yaml).unwrap();
    let mut registry = Registry::new();
    registry.register("bg", CMD_BG, YAMAMVA_PASS);
    registry.register("text", CMD_TEXT, YAMAMVA_PASS);
    registry.register("speaker", CMD_SPEAKER, YAMAMVA_PASS);
    registry.register("hearingmenu", CMD_MENU, YAMAMVA_BLOCKING);
    registry.register("mxbs_push", CMD_MXBS, YAMAMVA_PASS);
    registry.register("minigame", CMD_MINIGAME, YAMAMVA_BLOCKING);
    registry.register("llm_chat", CMD_LLM_CHAT, YAMAMVA_BLOCKING);
    Engine::new(scenario, registry)
}

fn make_registry() -> Registry {
    let mut r = Registry::new();
    r.register("bg", CMD_BG, YAMAMVA_PASS);
    r.register("text", CMD_TEXT, YAMAMVA_PASS);
    r.register("speaker", CMD_SPEAKER, YAMAMVA_PASS);
    r.register("hearingmenu", CMD_MENU, YAMAMVA_BLOCKING);
    r
}

#[test]
fn test_linear_flow() {
    let yaml = r#"
id: test
title: test
entry: scene_start
scenes:
  scene_start:
    - bg: lobby
    - text: "Hello"
    - speaker: elmar
      text: "Hi!"
    - end: true
"#;
    let mut engine = make_engine(yaml);
    let mut args = ExecArgs::new();

    assert_eq!(engine.exec(&mut args), CMD_BG);
    assert_eq!(args.built.as_ref().unwrap().node_type, "bg");

    assert_eq!(engine.exec(&mut args), CMD_TEXT);
    assert_eq!(args.built.as_ref().unwrap().node_type, "text");

    assert_eq!(engine.exec(&mut args), CMD_SPEAKER);
    assert_eq!(args.built.as_ref().unwrap().node_type, "speaker");

    assert_eq!(engine.exec(&mut args), YAMAMVA_END);
}

#[test]
fn test_do_and_jump() {
    let yaml = r#"
id: test
title: test
entry: scene_a
state:
  score: 0
scenes:
  scene_a:
    - text: "Start"
    - do:
        score: 100
    - jump:
        - when: "score >= 80"
          next: scene_good
        - next: scene_bad
  scene_good:
    - text: "Good!"
    - end: true
  scene_bad:
    - text: "Bad"
    - end: true
"#;
    let mut engine = make_engine(yaml);
    let mut args = ExecArgs::new();

    assert_eq!(engine.exec(&mut args), CMD_TEXT);
    assert_eq!(engine.exec(&mut args), CMD_TEXT);
    let built = args.built.as_ref().unwrap();
    assert!(built.node_json.contains("Good!"));
    assert_eq!(engine.exec(&mut args), YAMAMVA_END);
}

#[test]
fn test_blocking_and_incase() {
    let yaml = r#"
id: test
title: test
entry: scene_start
state:
  heard_elmar: false
scenes:
  scene_start:
    - hearingmenu:
        style: vertical
        elements:
          - { key: elmar, label: "Go to Elmar" }
          - { key: leave, label: "Leave" }
    - incase:
        - when: "$result == 'elmar'"
          do: { heard_elmar: true }
          next: scene_elmar
        - next: scene_end
  scene_elmar:
    - text: "Elmar's lab"
    - end: true
  scene_end:
    - text: "Goodbye"
    - end: true
"#;
    let mut engine = make_engine(yaml);
    let mut args = ExecArgs::new();

    let id = engine.exec(&mut args);
    assert_eq!(id, CMD_MENU);
    assert!(engine.is_waiting_result());

    let elements = &args.built.as_ref().unwrap().elements;
    assert_eq!(elements.len(), 2);

    args.result = Some("elmar".to_string());
    let id = engine.exec(&mut args);
    assert_eq!(id, CMD_TEXT);
    let built = args.built.as_ref().unwrap();
    assert!(built.node_json.contains("Elmar's lab"));

    assert_eq!(engine.state().get_value("heard_elmar"), Some(Value::Bool(true)));
}

#[test]
fn test_when_filter_elements() {
    let yaml = r#"
id: test
title: test
entry: scene_start
state:
  heard_elmar: true
  hearing_count: 1
scenes:
  scene_start:
    - hearingmenu:
        style: vertical
        elements:
          - { key: elmar, label: "Go to Elmar", when: "not heard_elmar" }
          - { key: accuse, label: "Accuse", when: "hearing_count >= 1" }
          - { key: leave, label: "Leave" }
    - end: true
"#;
    let mut engine = make_engine(yaml);
    let mut args = ExecArgs::new();

    engine.exec(&mut args);
    let elements = &args.built.as_ref().unwrap().elements;
    assert_eq!(elements.len(), 2);
    assert_eq!(elements[0].key, "accuse");
    assert_eq!(elements[1].key, "leave");
}

#[test]
fn test_when_skip_node() {
    let yaml = r#"
id: test
title: test
entry: scene_start
state:
  heard_elmar: false
scenes:
  scene_start:
    - speaker: sumire
      text: "You heard Elmar"
      when: "heard_elmar"
    - text: "Next"
    - end: true
"#;
    let mut engine = make_engine(yaml);
    let mut args = ExecArgs::new();

    let id = engine.exec(&mut args);
    assert_eq!(id, CMD_TEXT);
    assert!(args.built.as_ref().unwrap().node_json.contains("Next"));
}

#[test]
fn test_unregistered_skip() {
    let yaml = r#"
id: test
title: test
entry: scene_start
scenes:
  scene_start:
    - bg: lobby
    - unknown_node:
        foo: bar
    - text: "After unknown"
    - end: true
"#;
    let mut engine = make_engine(yaml);
    let mut args = ExecArgs::new();

    assert_eq!(engine.exec(&mut args), CMD_BG);
    assert_eq!(engine.exec(&mut args), CMD_TEXT);
    assert!(args.built.as_ref().unwrap().node_json.contains("After unknown"));
    assert!(engine.warnings().iter().any(|w| w.contains("unknown_node")));
}

#[test]
fn test_hub_and_spoke() {
    let yaml = r#"
id: test
title: test
entry: scene_menu
state:
  heard_elmar: false
  hearing_count: 0
scenes:
  scene_menu:
    - bg: lobby
    - text: "Choose"
    - hearingmenu:
        style: vertical
        elements:
          - { key: elmar, label: "Elmar", when: "not heard_elmar" }
          - { key: accuse, label: "Accuse", when: "hearing_count >= 1" }
          - { key: leave, label: "Leave" }
    - incase:
        - when: "$result == 'elmar'"
          next: scene_hear_elmar
        - when: "$result == 'accuse'"
          next: scene_accuse
        - next: scene_ending
  scene_hear_elmar:
    - bg: lab
    - speaker: elmar
      text: "Hi!"
    - do:
        heard_elmar: true
        hearing_count: "hearing_count + 1"
    - jump:
        - next: scene_menu
  scene_accuse:
    - text: "Accuse!"
    - end: true
  scene_ending:
    - text: "Bye"
    - end: true
"#;
    let mut engine = make_engine(yaml);
    let mut args = ExecArgs::new();

    assert_eq!(engine.exec(&mut args), CMD_BG);
    assert_eq!(engine.exec(&mut args), CMD_TEXT);

    let id = engine.exec(&mut args);
    assert_eq!(id, CMD_MENU);
    let elements = &args.built.as_ref().unwrap().elements;
    assert_eq!(elements.len(), 2);
    assert_eq!(elements[0].key, "elmar");
    assert_eq!(elements[1].key, "leave");

    args.result = Some("elmar".to_string());

    assert_eq!(engine.exec(&mut args), CMD_BG);
    assert_eq!(engine.exec(&mut args), CMD_SPEAKER);

    assert_eq!(engine.exec(&mut args), CMD_BG);
    assert_eq!(engine.exec(&mut args), CMD_TEXT);

    let id = engine.exec(&mut args);
    assert_eq!(id, CMD_MENU);
    let elements = &args.built.as_ref().unwrap().elements;
    assert_eq!(elements.len(), 2);
    assert_eq!(elements[0].key, "accuse");
    assert_eq!(elements[1].key, "leave");

    args.result = Some("accuse".to_string());
    assert_eq!(engine.exec(&mut args), CMD_TEXT);
    assert_eq!(engine.exec(&mut args), YAMAMVA_END);
}

#[test]
fn test_save_and_restore() {
    let yaml = r#"
id: test
title: test
entry: scene_a
state:
  heard_elmar: false
  hearing_count: 0
scenes:
  scene_a:
    - bg: lobby
    - text: "Part 1"
    - do:
        heard_elmar: true
        hearing_count: "hearing_count + 1"
    - text: "Part 2"
    - end: true
"#;
    let mut engine = make_engine(yaml);
    let mut args = ExecArgs::new();

    assert_eq!(engine.exec(&mut args), CMD_BG);
    assert_eq!(engine.exec(&mut args), CMD_TEXT);
    assert_eq!(engine.exec(&mut args), CMD_TEXT);

    let save_json = save(&engine);

    let saved: serde_json::Value = serde_json::from_str(&save_json).unwrap();
    assert_eq!(saved["scene_id"], "scene_a");
    assert_eq!(saved["state"]["heard_elmar"], true);
    assert_eq!(saved["state"]["hearing_count"], 1);

    let scenario2 = parse(yaml).unwrap();
    let mut registry2 = Registry::new();
    registry2.register("bg", CMD_BG, YAMAMVA_PASS);
    registry2.register("text", CMD_TEXT, YAMAMVA_PASS);
    registry2.register("speaker", CMD_SPEAKER, YAMAMVA_PASS);
    registry2.register("hearingmenu", CMD_MENU, YAMAMVA_BLOCKING);

    let mut engine2 = restore(scenario2, registry2, &save_json).unwrap();
    let mut args2 = ExecArgs::new();

    assert_eq!(engine2.exec(&mut args2), YAMAMVA_END);

    assert_eq!(engine2.state().get_value("heard_elmar"), Some(Value::Bool(true)));
    assert_eq!(engine2.state().get_value("hearing_count"), Some(Value::Int(1)));
}

#[test]
fn test_parse_file_scene_ref_with_colon() {
    let (file, scene) = parse_file_scene_ref("intro:scene_intro").unwrap();
    assert_eq!(file, Some("intro".to_string()));
    assert_eq!(scene, "scene_intro");
}

#[test]
fn test_parse_file_scene_ref_without_colon() {
    let (file, scene) = parse_file_scene_ref("scene_intro").unwrap();
    assert_eq!(file, None);
    assert_eq!(scene, "scene_intro");
}

#[test]
fn test_parse_file_scene_ref_empty_scene_error() {
    assert!(parse_file_scene_ref("intro:").is_err());
}

#[test]
fn test_load_world_basic() {
    let scenario = load_world(
        r#"
id: test_world
title: Test World
entry: intro:scene_intro
scene_path: scenes/
state:
  count: 0
characters:
  npc_a: { name: "NPC-A" }
"#,
        &[
            ("intro.yaml", r#"
scene_intro:
  - text: "Welcome"
  - jump:
      - next: main:scene_main
"#),
            ("main.yaml", r#"
scene_main:
  - text: "Hello"
  - end: true
"#),
        ],
    )
    .unwrap();
    assert_eq!(scenario.id, "test_world");
    assert_eq!(scenario.entry, "intro:scene_intro");
    assert!(scenario.scenes.contains_key("scene_intro"));
    assert!(scenario.scenes.contains_key("scene_main"));
    assert_eq!(scenario.scene_file.get("scene_intro").unwrap(), "intro");
    assert_eq!(scenario.scene_file.get("scene_main").unwrap(), "main");
    assert_eq!(scenario.scene_path, Some("scenes/".to_string()));

    let mut engine = Engine::new(scenario, make_registry());
    let mut args = ExecArgs::new();

    assert_eq!(engine.exec(&mut args), CMD_TEXT);
    assert_eq!(engine.exec(&mut args), CMD_TEXT);
    assert_eq!(engine.exec(&mut args), YAMAMVA_END);
}

#[test]
fn test_file_scene_jump() {
    let scenario = load_world(
        r#"
id: test
title: test
entry: a:scene_a
scene_path: scenes/
state: {}
"#,
        &[
            ("a.yaml", r#"
scene_a:
  - text: "in A"
  - jump:
      - next: b:scene_b
"#),
            ("b.yaml", r#"
scene_b:
  - text: "in B"
  - end: true
"#),
        ],
    )
    .unwrap();
    let mut engine = Engine::new(scenario, make_registry());
    let mut args = ExecArgs::new();

    assert_eq!(engine.exec(&mut args), CMD_TEXT);
    assert_eq!(engine.current_file(), "a");
    assert_eq!(engine.exec(&mut args), CMD_TEXT);
    assert_eq!(engine.current_file(), "b");
    assert_eq!(engine.exec(&mut args), YAMAMVA_END);
}

#[test]
fn test_same_file_jump() {
    let scenario = load_world(
        r#"
id: test
title: test
entry: multi:scene_first
scene_path: scenes/
state: {}
"#,
        &[("multi.yaml", r#"
scene_first:
  - text: "first"
  - jump:
      - next: scene_second
scene_second:
  - text: "second"
  - end: true
"#)],
    )
    .unwrap();
    let mut engine = Engine::new(scenario, make_registry());
    let mut args = ExecArgs::new();

    assert_eq!(engine.exec(&mut args), CMD_TEXT);
    assert_eq!(engine.exec(&mut args), CMD_TEXT);
    assert_eq!(engine.current_file(), "multi");
    assert_eq!(engine.exec(&mut args), YAMAMVA_END);
}

#[test]
fn test_cross_file_without_colon_error() {
    let scenario = load_world(
        r#"
id: test
title: test
entry: a:scene_a
scene_path: scenes/
state: {}
"#,
        &[
            ("a.yaml", r#"
scene_a:
  - text: "in A"
  - jump:
      - next: scene_b
"#),
            ("b.yaml", r#"
scene_b:
  - text: "in B"
  - end: true
"#),
        ],
    )
    .unwrap();
    let mut engine = Engine::new(scenario, make_registry());
    let mut args = ExecArgs::new();

    assert_eq!(engine.exec(&mut args), CMD_TEXT);
    assert_eq!(engine.exec(&mut args), YAMAMVA_END);
}

#[test]
fn test_invalid_entry_error() {
    let result = load_world(
        r#"
id: test
title: test
entry: intro:scene_nonexistent
scene_path: scenes/
state: {}
"#,
        &[("intro.yaml", r#"
scene_intro:
  - end: true
"#)],
    );
    assert!(result.is_err());
    let err = result.unwrap_err().to_display_string();
    assert!(err.contains("scene_nonexistent"), "error should mention the missing scene: {}", err);
}

#[test]
fn test_v10_compat() {
    let yaml = r#"
id: test_v10
title: v10 test
entry: scene_start
scenes:
  scene_start:
    - text: "Hello"
    - jump:
        - next: scene_end
  scene_end:
    - text: "Bye"
    - end: true
"#;
    let scenario = parse(yaml).unwrap();
    assert_eq!(scenario.scene_file.get("scene_start").unwrap(), "__root__");
    assert_eq!(scenario.scene_file.get("scene_end").unwrap(), "__root__");
    assert!(scenario.scene_path.is_none());

    let mut engine = Engine::new(scenario, make_registry());
    let mut args = ExecArgs::new();
    assert_eq!(engine.current_file(), "__root__");
    assert_eq!(engine.exec(&mut args), CMD_TEXT);
    assert_eq!(engine.exec(&mut args), CMD_TEXT);
    assert_eq!(engine.exec(&mut args), YAMAMVA_END);
}

#[test]
fn test_save_restore_with_world() {
    let scenario = load_world(
        r#"
id: test
title: test
entry: a:scene_a
scene_path: scenes/
state:
  x: 0
"#,
        &[
            ("a.yaml", r#"
scene_a:
  - text: "A"
  - jump:
      - next: b:scene_b
"#),
            ("b.yaml", r#"
scene_b:
  - do:
      x: "x + 1"
  - text: "B1"
  - text: "B2"
  - end: true
"#),
        ],
    )
    .unwrap();
    let mut engine = Engine::new(scenario.clone(), make_registry());
    let mut args = ExecArgs::new();

    engine.exec(&mut args);
    engine.exec(&mut args);

    assert_eq!(engine.current_file(), "b");

    let save_json = save(&engine);
    let saved: serde_json::Value = serde_json::from_str(&save_json).unwrap();
    assert_eq!(saved["current_file"], "b");

    let mut engine2 = restore(scenario, make_registry(), &save_json).unwrap();
    assert_eq!(engine2.current_file(), "b");

    let mut args2 = ExecArgs::new();
    assert_eq!(engine2.exec(&mut args2), CMD_TEXT);
    assert_eq!(engine2.exec(&mut args2), YAMAMVA_END);
}

#[test]
fn test_world_inline_scenes() {
    let scenario = load_world(
        r#"
id: test_inline
title: test
entry: scene_hello
state: {}
scenes:
  scene_hello:
    - text: "inline hello"
    - end: true
"#,
        &[],
    )
    .unwrap();
    assert_eq!(scenario.scene_file.get("scene_hello").unwrap(), "__world__");

    let mut engine = Engine::new(scenario, make_registry());
    let mut args = ExecArgs::new();
    assert_eq!(engine.exec(&mut args), CMD_TEXT);
    assert_eq!(engine.exec(&mut args), YAMAMVA_END);
}

#[test]
fn test_incase_file_scene() {
    let scenario = load_world(
        r#"
id: test
title: test
entry: hub:scene_hub
scene_path: scenes/
state: {}
"#,
        &[
            ("hub.yaml", r#"
scene_hub:
  - hearingmenu:
      elements:
        - { key: go, label: "Go" }
  - incase:
      - when: "$result == 'go'"
        next: dest:scene_dest
      - next: hub:scene_hub
"#),
            ("dest.yaml", r#"
scene_dest:
  - text: "arrived"
  - end: true
"#),
        ],
    )
    .unwrap();
    let mut engine = Engine::new(scenario, make_registry());
    let mut args = ExecArgs::new();

    assert_eq!(engine.exec(&mut args), CMD_MENU);
    args.result = Some("go".to_string());
    assert_eq!(engine.exec(&mut args), CMD_TEXT);
    assert_eq!(engine.current_file(), "dest");
    assert_eq!(engine.exec(&mut args), YAMAMVA_END);
}

#[test]
fn test_duplicate_scene_error() {
    let result = load_world(
        r#"
id: test
title: test
entry: a:scene_dup
scene_path: scenes/
state: {}
"#,
        &[
            ("a.yaml", r#"
scene_dup:
  - end: true
"#),
            ("b.yaml", r#"
scene_dup:
  - end: true
"#),
        ],
    );
    assert!(result.is_err());
    let err = result.unwrap_err().to_display_string();
    assert!(err.contains("scene_dup"), "error should mention the duplicate scene: {}", err);
}

// ---- further scenarios ----

#[test]
fn end_stays_end() {
    let yaml = r#"
id: t
title: t
entry: s
scenes:
  s:
    - text: "one"
    - end: true
    - text: "never"
"#;
    let mut engine = make_engine(yaml);
    let mut args = ExecArgs::new();
    assert_eq!(engine.exec(&mut args), CMD_TEXT);
    assert_eq!(engine.exec(&mut args), YAMAMVA_END);
    let index = engine.cursor().node_index;
    args.result = Some("ignored".to_string());
    assert_eq!(engine.exec(&mut args), YAMAMVA_END);
    assert_eq!(engine.exec(&mut args), YAMAMVA_END);
    assert_eq!(engine.cursor().node_index, index);
    assert_eq!(engine.cursor().scene_id, "s");
    assert_eq!(args.result, Some("ignored".to_string()));
    assert!(engine.warnings().is_empty());
}

#[test]
fn end_past_last_node_and_missing_scene() {
    let yaml = r#"
id: t
title: t
entry: nowhere
scenes:
  s:
    - text: "one"
"#;
    let mut engine = make_engine(yaml);
    let mut args = ExecArgs::new();
    assert_eq!(engine.exec(&mut args), YAMAMVA_END);
    assert!(args.built.is_none());
}

#[test]
fn blocking_command_waits_then_moves_on() {
    let yaml = r#"
id: t
title: t
entry: s
scenes:
  s:
    - hearingmenu:
        elements:
          - { key: a, label: "A" }
    - text: "picked a"
      when: "$result == 'a'"
    - text: "after"
    - end: true
"#;
    let mut engine = make_engine(yaml);
    let mut args = ExecArgs::new();
    assert_eq!(engine.exec(&mut args), CMD_MENU);
    assert!(engine.is_waiting_result());
    assert_eq!(engine.cursor().node_index, 0);
    args.result = Some("a".to_string());
    assert_eq!(engine.exec(&mut args), CMD_TEXT);
    assert!(args.result.is_none());
    assert!(!engine.is_waiting_result());
    assert!(args.built.as_ref().unwrap().node_json.contains("picked a"));
    assert_eq!(engine.state().get_value("$result"), Some(Value::Str("a".to_string())));
}

#[test]
fn blocking_command_without_result() {
    let yaml = r#"
id: t
title: t
entry: s
scenes:
  s:
    - hearingmenu: {}
    - text: "picked"
      when: "$result == ''"
    - end: true
"#;
    let mut engine = make_engine(yaml);
    let mut args = ExecArgs::new();
    assert_eq!(engine.exec(&mut args), CMD_MENU);
    assert_eq!(engine.exec(&mut args), CMD_TEXT);
    assert_eq!(engine.state().get_value("$result"), None);
}

#[test]
fn incase_forgets_result() {
    let yaml = r#"
id: t
title: t
entry: s
scenes:
  s:
    - hearingmenu: {}
    - incase:
        - when: "$result == 'x'"
          do: { picked: "yes", count: "5" }
    - text: "after"
    - end: true
"#;
    let mut engine = make_engine(yaml);
    let mut args = ExecArgs::new();
    assert_eq!(engine.exec(&mut args), CMD_MENU);
    args.result = Some("x".to_string());
    assert_eq!(engine.exec(&mut args), CMD_TEXT);
    assert_eq!(engine.state().get_value("$result"), None);
    assert_eq!(engine.state().get_value("picked"), Some(Value::Str("yes".to_string())));
    assert_eq!(engine.state().get_value("count"), Some(Value::Int(5)));
}

#[test]
fn unregistered_warning_text() {
    let yaml = r#"
id: t
title: t
entry: s
scenes:
  s:
    - mystery: 1
    - end: true
"#;
    let mut engine = make_engine(yaml);
    let mut args = ExecArgs::new();
    assert_eq!(engine.exec(&mut args), YAMAMVA_END);
    assert_eq!(engine.warnings().to_vec(), vec!["unregistered: mystery".to_string()]);
    engine.clear_warnings();
    assert!(engine.warnings().is_empty());
}

#[test]
fn jump_errors_become_warnings() {
    let yaml = r#"
id: t
title: t
entry: s
scenes:
  s:
    - jump:
        - next: missing
    - jump:
        - next: "f:"
    - jump:
        - next: "f:gone"
    - text: "still here"
    - end: true
"#;
    let mut engine = make_engine(yaml);
    let mut args = ExecArgs::new();
    assert_eq!(engine.exec(&mut args), CMD_TEXT);
    assert_eq!(
        engine.warnings().to_vec(),
        vec![
            "runtime error: scene 'missing' not found in current file '__root__'".to_string(),
            "parse error: empty scene_id in reference 'f:'".to_string(),
            "runtime error: scene 'gone' not found (referenced as 'f:gone')".to_string(),
        ]
    );
}

#[test]
fn cross_file_warning_text() {
    let scenario = load_world(
        "id: t\nentry: a:s1\n",
        &[("a.yaml", "s1:\n  - jump:\n      - next: s2\n"), ("b.yml", "s2:\n  - end: true\n")],
    )
    .unwrap();
    let mut engine = Engine::new(scenario, make_registry());
    let mut args = ExecArgs::new();
    assert_eq!(engine.exec(&mut args), YAMAMVA_END);
    assert_eq!(
        engine.warnings().to_vec(),
        vec!["runtime error: scene 's2' exists in file 'b' but current file is 'a'. Use 'b:s2' for cross-file reference.".to_string()]
    );
}

#[test]
fn unsupported_condition_is_skipped_with_warning() {
    let yaml = r#"
id: t
title: t
entry: s
state:
  x: 1
scenes:
  s:
    - text: "fraction"
      when: "x > 0.5"
    - text: "plain"
    - end: true
"#;
    let mut engine = make_engine(yaml);
    let mut args = ExecArgs::new();
    assert_eq!(engine.exec(&mut args), CMD_TEXT);
    assert!(args.built.as_ref().unwrap().node_json.contains("plain"));
    assert_eq!(engine.warnings().to_vec(), vec!["unsupported condition: x > 0.5".to_string()]);
}

#[test]
fn do_updates_in_key_order_and_expressions() {
    let yaml = r#"
id: t
title: t
entry: s
state:
  a: 1
scenes:
  s:
    - do:
        b: "a + 1"
        c: "b * 10"
        d: "hello"
        e: [1, 2]
        f: 2.0
    - end: true
"#;
    let mut engine = make_engine(yaml);
    let mut args = ExecArgs::new();
    assert_eq!(engine.exec(&mut args), YAMAMVA_END);
    let st = engine.state();
    assert_eq!(st.get_value("b"), Some(Value::Int(2)));
    assert_eq!(st.get_value("c"), Some(Value::Int(20)));
    assert_eq!(st.get_value("d"), Some(Value::Str("hello".to_string())));
    assert_eq!(st.get_value("e"), Some(Value::Str("[1,2]".to_string())));
    assert_eq!(st.get_value("f"), Some(Value::Float(Real::from_whole(2, false))));
}

#[test]
fn node_json_and_elements_text() {
    let yaml = r#"
id: t
title: t
entry: s
scenes:
  s:
    - speaker: elmar
      text: "Hi \"you\""
      when: "true"
    - hearingmenu:
        elements:
          - { key: k, text: "T", price: 5, when: "1 == 1" }
    - end: true
"#;
    let mut engine = make_engine(yaml);
    let mut args = ExecArgs::new();
    assert_eq!(engine.exec(&mut args), CMD_SPEAKER);
    assert_eq!(args.built.as_ref().unwrap().node_json, r#"{"speaker":"elmar","text":"Hi \"you\""}"#);
    assert_eq!(engine.exec(&mut args), CMD_MENU);
    let el = &args.built.as_ref().unwrap().elements[0];
    assert_eq!(el.key, "k");
    assert_eq!(el.label, Some("T".to_string()));
    assert_eq!(el.extra_json, r#"{"price":5,"text":"T"}"#);
}

#[test]
fn save_record_text_and_round_trip() {
    let yaml = r#"
id: t
title: t
entry: s
state:
  n: 0
scenes:
  s:
    - do: { n: 7, name: "x" }
    - hearingmenu: {}
    - end: true
"#;
    let mut engine = make_engine(yaml);
    let mut args = ExecArgs::new();
    assert_eq!(engine.exec(&mut args), CMD_MENU);
    args.result = Some("r".to_string());
    assert_eq!(engine.exec(&mut args), YAMAMVA_END);
    let text = save(&engine);
    assert_eq!(
        text,
        r#"{"current_file":"__root__","node_index":2,"result":"r","scene_id":"s","state":{"n":7,"name":"x"},"version":1}"#
    );
    let saved: serde_json::Value = serde_json::from_str(&text).unwrap();
    let back = restore(parse(yaml).unwrap(), make_registry(), &text).unwrap();
    assert_eq!(back.cursor().scene_id, "s");
    assert_eq!(back.cursor().node_index, 2);
    assert_eq!(back.current_file(), "__root__");
    assert_eq!(back.state().get_value("n"), Some(Value::Int(7)));
    assert_eq!(back.state().get_value("name"), Some(Value::Str("x".to_string())));
    assert_eq!(back.state().get_value("$result"), Some(Value::Str("r".to_string())));
    assert!(!back.is_waiting_result());
}

#[test]
fn restore_errors() {
    let yaml = "id: t\ntitle: t\nentry: s\nscenes:\n  s:\n    - end: true\n";
    let r = restore(parse(yaml).unwrap(), make_registry(), r#"{"node_index":0}"#);
    assert_eq!(r.err(), Some("missing scene_id in save".to_string()));
    let r = restore(parse(yaml).unwrap(), make_registry(), r#"{"scene_id":"s","node_index":-1}"#);
    assert_eq!(r.err(), Some("missing node_index in save".to_string()));
    let e = restore(parse(yaml).unwrap(), make_registry(), r#"{"scene_id":"s","node_index":0}"#).unwrap();
    assert_eq!(e.current_file(), "__root__");
}

#[test]
fn host_answers() {
    let yaml = r#"
id: t
title: t
entry: s
state:
  b: true
  s: "q"
characters:
  elmar: { name: "Elmar" }
scenes:
  s:
    - end: true
"#;
    let mut engine = make_engine(yaml);
    assert_eq!(yamamva::host::state_value_text(engine.state(), "b"), "true");
    assert_eq!(yamamva::host::state_value_text(engine.state(), "s"), "\"q\"");
    assert_eq!(yamamva::host::state_value_text(engine.state(), "zz"), "null");
    assert_eq!(yamamva::host::meta_text(&engine, "characters"), r#"{"elmar":{"name":"Elmar"}}"#);
    assert_eq!(yamamva::host::meta_text(&engine, "bgm"), "{}");
    assert_eq!(yamamva::host::meta_text(&engine, "state"), r#"{"b":true,"s":"q"}"#);
    yamamva::host::set_state_json(engine.state_mut(), "n", &Json::Int(3));
    yamamva::host::set_state_json(engine.state_mut(), "m", &Json::Array(vec![]));
    assert_eq!(engine.state().get_value("n"), Some(Value::Int(3)));
    assert_eq!(engine.state().get_value("m"), None);
}

#[test]
fn world_errors() {
    let dup = load_world("id: t\nentry: a:s\n", &[("a.yaml", "s:\n  - end: true\n"), ("b.yaml", "s:\n  - end: true\n")]);
    assert_eq!(dup.err().map(|e| e.to_display_string()), Some("parse error: scene 's' defined in both 'a' and 'b'".to_string()));
    let clash = load_world("id: t\nentry: s\nscenes:\n  s:\n    - end: true\n", &[("a.yaml", "s:\n  - end: true\n")]);
    assert_eq!(clash.err().map(|e| e.to_display_string()), Some("parse error: scene 's' in world.yaml conflicts with scene file".to_string()));
    let no_id = load_world("title: t\nentry: s\n", &[]);
    assert_eq!(no_id.err().map(|e| e.to_display_string()), Some("parse error: missing required field: id".to_string()));
    let no_entry = load_world("id: t\n", &[]);
    assert_eq!(no_entry.err().map(|e| e.to_display_string()), Some("parse error: missing required field: entry".to_string()));
    let empty_ref = load_world("id: t\nentry: 'a:'\n", &[]);
    assert_eq!(empty_ref.err().map(|e| e.to_display_string()), Some("parse error: empty scene_id in reference 'a:'".to_string()));
    let missing = load_world("id: t\nentry: a:nope\n", &[("a.yaml", "s:\n  - end: true\n")]);
    assert_eq!(missing.err().map(|e| e.to_display_string()), Some("parse error: entry scene 'nope' not found".to_string()));
    let not_map = load_world("- 1\n", &[]);
    assert_eq!(not_map.err().map(|e| e.to_display_string()), Some("parse error: top-level must be a mapping".to_string()));
}

#[test]
fn world_defaults_and_file_names() {
    let scenario = load_world(
        "id: t\nentry: b:s2\nversion: 2\n",
        &[
            ("b.yml", "s2:\n  - end: true\n"),
            ("a.yaml", "s1:\n  - end: true\n"),
            ("notes.txt", "not yaml: ["),
            (".yaml", "hidden: ["),
            ("x.y.yaml", "s3:\n  - end: true\n"),
        ],
    )
    .unwrap();
    assert_eq!(scenario.title, "");
    assert_eq!(scenario.version, Some("2".to_string()));
    assert_eq!(scenario.scene_path, Some("scenes/".to_string()));
    assert_eq!(scenario.scene_file.get("s1").unwrap(), "a");
    assert_eq!(scenario.scene_file.get("s2").unwrap(), "b");
    assert_eq!(scenario.scene_file.get("s3").unwrap(), "x.y");
    assert_eq!(scenario.scenes.len(), 3);
}

#[test]
fn scene_file_plan_orders_and_filters() {
    let names: Vec<String> = ["z.yaml", "a.yml", "m.YAML", "b", ".yml", "c.d.yaml", "é.yaml", "Z.yaml"]
        .iter()
        .map(|s| s.to_string())
        .collect();
    let plan = scene_file_plan(&names);
    let expected: Vec<(String, String)> = [("Z.yaml", "Z"), ("a.yml", "a"), ("c.d.yaml", "c.d"), ("z.yaml", "z"), ("é.yaml", "é")]
        .iter()
        .map(|(a, b)| (a.to_string(), b.to_string()))
        .collect();
    assert_eq!(plan, expected);
}

#[test]
fn step_limit_is_far_away() {
    assert_eq!(yamamva::engine::STEP_LIMIT, u64::MAX);
}

#[test]
fn quick_start_scenario() {
    let yaml = r#"
id: hello
title: "Hello YamAMVA"
version: "1.0"
entry: scene_start

state:
  greeted: false

scenes:
  scene_start:
    - speak:
        character: elmar
        text: "Hello! Pick a place."
        emotion: joy

    - menu:
        style: vertical
        elements:
          - { key: park, label: "Go to the park" }
          - { key: home, label: "Stay home" }

    - incase:
        - when: "$result == 'park'"
          next: scene_park
        - next: scene_home

  scene_park:
    - speak:
        character: elmar
        text: "The park is nice today!"
    - do:
        greeted: true
    - end: true

  scene_home:
    - speak:
        character: elmar
        text: "Home sweet home."
    - end: true
"#;
    let scenario = parse(yaml).unwrap();
    assert_eq!(scenario.version, Some("1.0".to_string()));
    let mut registry = Registry::new();
    registry.register("speak", 1, YAMAMVA_PASS);
    registry.register("menu", 2, YAMAMVA_BLOCKING);
    let mut engine = Engine::new(scenario, registry);
    let mut args = ExecArgs::new();
    assert_eq!(engine.exec(&mut args), 1);
    assert_eq!(
        args.built.as_ref().unwrap().node_json,
        r#"{"speak":{"character":"elmar","emotion":"joy","text":"Hello! Pick a place."}}"#
    );
    assert_eq!(engine.exec(&mut args), 2);
    assert_eq!(args.built.as_ref().unwrap().elements.len(), 2);
    args.result = Some("park".to_string());
    assert_eq!(engine.exec(&mut args), 1);
    assert!(args.built.as_ref().unwrap().node_json.contains("The park is nice today!"));
    assert_eq!(engine.exec(&mut args), YAMAMVA_END);
    assert_eq!(engine.state().get_value("greeted"), Some(Value::Bool(true)));
}
