use yamamva::branch_value::parse_branch_do_value;
use yamamva::error::{ParseError, YamamvaError};
use yamamva::evaluator::{evaluate_do_value, evaluate_expr, evaluate_when};
use yamamva::json::{Json, Real, to_json_string};
use yamamva::lexer::{Op, Token, tokenize};
use yamamva::parse_file_scene_ref;
use yamamva::registry::{Registry, YAMAMVA_BLOCKING, YAMAMVA_PASS};
use yamamva::state::{State, Value};
use yamamva::strmap::StrMap;
use yamamva::yaml::Yaml;

fn state_with(vars: &[(&str, Value)]) -> State {
    let mut m = StrMap::new();
    for (k, v) in vars {
        m.insert(k.to_string(), v.clone());
    }
    State::new(m)
}

fn whole(n: i64) -> Value {
    Value::Float(Real::from_whole(n, false))
}

#[test]
fn register_then_lookup() {
    let mut r = Registry::default();
    assert!(r.lookup("text").is_none());
    r.register("text", 2, YAMAMVA_PASS);
    r.register("menu", 4, YAMAMVA_BLOCKING);
    r.register("odd", 9, 7);
    assert_eq!(r.lookup("text").unwrap().command_id, 2);
    assert!(!r.lookup("text").unwrap().blocking);
    assert!(r.lookup("menu").unwrap().blocking);
    assert!(!r.lookup("odd").unwrap().blocking);
    r.register("text", 5, YAMAMVA_BLOCKING);
    assert_eq!(r.lookup("text").unwrap().command_id, 5);
    assert!(r.lookup("text").unwrap().blocking);
    assert_eq!(r.lookup("menu").unwrap().command_id, 4);
    assert!(r.lookup("Text").is_none());
}

#[test]
fn set_then_read() {
    let mut st = state_with(&[("a", Value::Int(1))]);
    st.set("a", Value::Str("x".to_string()));
    assert_eq!(st.get_value("a"), Some(Value::Str("x".to_string())));
    assert_eq!(st.get("a"), Some(&Value::Str("x".to_string())));
    assert!(st.has_var("a"));
    assert!(!st.has_var("b"));
    assert!(!st.has_var("$result"));
    st.set_result(Some("r".to_string()));
    assert!(st.has_var("$result"));
    assert_eq!(st.get_value("$result"), Some(Value::Str("r".to_string())));
    assert_eq!(st.get_result(), Some(&"r".to_string()));
    st.set_result(None);
    assert_eq!(st.get_value("$result"), None);
    assert_eq!(st.vars().len(), 1);
}

#[test]
fn from_json_map_keeps_scalars() {
    let mut m = StrMap::new();
    m.insert("b".to_string(), Json::Bool(true));
    m.insert("n".to_string(), Json::Null);
    m.insert("l".to_string(), Json::Array(vec![Json::Int(1)]));
    m.insert("s".to_string(), Json::Str("t".to_string()));
    let st = State::from_json_map(&m);
    assert_eq!(st.get_value("b"), Some(Value::Bool(true)));
    assert_eq!(st.get_value("n"), None);
    assert_eq!(st.get_value("l"), None);
    assert_eq!(st.get_value("s"), Some(Value::Str("t".to_string())));
    assert!(st.get_result().is_none());
}

#[test]
fn dump_then_restore() {
    let src = state_with(&[("z", Value::Int(-3)), ("a", Value::Bool(false)), ("m", whole(4))]);
    let dump = src.dump();
    assert_eq!(to_json_string(&dump), r#"{"a":false,"m":4.0,"z":-3}"#);
    let mut other = state_with(&[("a", Value::Bool(true)), ("keep", Value::Int(9))]);
    other.restore(&dump);
    assert_eq!(other.get_value("a"), Some(Value::Bool(false)));
    assert_eq!(other.get_value("z"), Some(Value::Int(-3)));
    assert_eq!(other.get_value("m"), Some(whole(4)));
    assert_eq!(other.get_value("keep"), Some(Value::Int(9)));
    other.restore(&Json::Int(1));
    assert_eq!(other.vars().len(), 4);
}

#[test]
fn json_text_matches_serde_json() {
    let j = Json::Object(vec![
        ("a\"b".to_string(), Json::Str("line\nbreak\ttab\u{1}\u{7f}é\\/".to_string())),
        ("n".to_string(), Json::Array(vec![Json::Null, Json::Bool(true), Json::Int(i64::MIN)])),
        ("z".to_string(), Json::Float(Real::from_whole(0, true))),
    ]);
    let mut m = serde_json::Map::new();
    m.insert(
        "a\"b".to_string(),
        serde_json::Value::String("line\nbreak\ttab\u{1}\u{7f}é\\/".to_string()),
    );
    m.insert(
        "n".to_string(),
        serde_json::Value::Array(vec![
            serde_json::Value::Null,
            serde_json::Value::Bool(true),
            serde_json::Value::from(i64::MIN),
        ]),
    );
    m.insert("z".to_string(), serde_json::Value::from(-0.0f64));
    let expected = serde_json::to_string(&serde_json::Value::Object(m)).unwrap();
    assert_eq!(to_json_string(&j), expected);
}

#[test]
fn whole_floats_read_as_serde_json_writes_them() {
    for n in [0i64, 1, -1, 42, -9007199254740992, 9007199254740992, 1000000000000000] {
        let expected = serde_json::to_string(&serde_json::Value::from(n as f64)).unwrap();
        assert_eq!(to_json_string(&Json::Float(Real::from_whole(n, false))), expected);
    }
}

#[test]
fn scene_reference_split() {
    assert_eq!(parse_file_scene_ref("a:b:c").unwrap(), (Some("a".to_string()), "b:c".to_string()));
    assert_eq!(parse_file_scene_ref(":x").unwrap(), (Some("".to_string()), "x".to_string()));
    assert_eq!(parse_file_scene_ref("").unwrap(), (None, "".to_string()));
    let e = parse_file_scene_ref("intro:").unwrap_err();
    assert_eq!(e.to_display_string(), "parse error: empty scene_id in reference 'intro:'");
    let (f, s) = parse_file_scene_ref("ä:ö").unwrap();
    assert_eq!(format!("{}:{}", f.unwrap(), s), "ä:ö");
}

#[test]
fn error_texts() {
    assert_eq!(YamamvaError::Parse("p".to_string()).to_display_string(), "parse error: p");
    assert_eq!(YamamvaError::Runtime("r".to_string()).to_display_string(), "runtime error: r");
    assert_eq!(YamamvaError::Io("i".to_string()).to_display_string(), "io error: i");
    let pe = ParseError { message: "m".to_string() };
    assert_eq!(pe.to_display_string(), "YamAMVA parse error: m");
    assert!(matches!(YamamvaError::from(pe), YamamvaError::Parse(m) if m == "m"));
}

#[test]
fn branch_update_values() {
    let text = |s: &str| parse_branch_do_value(s).map(|j| to_json_string(&j));
    assert_eq!(text("true"), Some("true".to_string()));
    assert_eq!(text("false"), Some("false".to_string()));
    assert_eq!(text("42"), Some("42".to_string()));
    assert_eq!(text("+7"), Some("7".to_string()));
    assert_eq!(text("-0"), Some("0".to_string()));
    assert_eq!(text("-9223372036854775808"), Some("-9223372036854775808".to_string()));
    assert_eq!(text("1.0"), Some("1.0".to_string()));
    assert_eq!(text("-0.0"), Some("-0.0".to_string()));
    assert_eq!(text("3."), Some("3.0".to_string()));
    assert_eq!(text("inf"), Some("null".to_string()));
    assert_eq!(text("-NaN"), Some("null".to_string()));
    assert_eq!(text("yes"), Some("\"yes\"".to_string()));
    assert_eq!(text("True"), Some("\"True\"".to_string()));
    assert_eq!(text("1.5"), None);
    assert_eq!(text("1e3"), None);
    assert_eq!(text("99999999999999999999"), None);
    assert_eq!(text("1e"), Some("\"1e\"".to_string()));
    assert_eq!(text("."), Some("\".\"".to_string()));
}

#[test]
fn expression_values() {
    let st = state_with(&[
        ("n", Value::Int(7)),
        ("t", Value::Bool(true)),
        ("s", Value::Str("12".to_string())),
        ("w", Value::Str("abc".to_string())),
        ("変数", Value::Int(1)),
        ("x²", Value::Int(5)),
    ]);
    assert_eq!(evaluate_expr("6 / 3", &st), Some(Value::Int(2)));
    assert_eq!(evaluate_expr("n / 0", &st), Some(Value::Int(0)));
    assert_eq!(evaluate_expr("n / 2", &st), None);
    assert_eq!(evaluate_expr("n - 10 * 2", &st), Some(Value::Int(-13)));
    assert_eq!(evaluate_expr("(n - 10) * 2", &st), Some(Value::Int(-6)));
    assert_eq!(evaluate_expr("n + t", &st), Some(whole(8)));
    assert_eq!(evaluate_expr("s + 1", &st), Some(whole(13)));
    assert_eq!(evaluate_expr("w + 1", &st), Some(whole(1)));
    assert_eq!(evaluate_expr("2.0 * 3", &st), Some(Value::Int(6)));
    assert_eq!(evaluate_expr("missing", &st), Some(Value::Bool(false)));
    assert_eq!(evaluate_expr("$result", &st), Some(Value::Str("".to_string())));
    assert_eq!(evaluate_expr("'a' < 'b'", &st), Some(Value::Bool(true)));
    assert_eq!(evaluate_expr("n < t", &st), Some(Value::Bool(false)));
    assert_eq!(evaluate_expr("n == 7.0", &st), Some(Value::Bool(true)));
    assert_eq!(evaluate_expr("変数 + 1", &st), Some(Value::Int(2)));
    assert_eq!(evaluate_expr("x² * 2", &st), Some(Value::Int(10)));
    assert_eq!(evaluate_when("not not t", &st), Some(true));
    assert_eq!(evaluate_when("n >= 7 and n <= 7 and n != 8", &st), Some(true));
    assert_eq!(evaluate_when("0.5 > 0", &st), None);
}

#[test]
fn do_values() {
    let st = state_with(&[("n", Value::Int(7)), ("name", Value::Str("q".to_string()))]);
    assert_eq!(evaluate_do_value("k", &Json::Str("n".to_string()), &st), Some(Value::Int(7)));
    assert_eq!(evaluate_do_value("k", &Json::Str("other".to_string()), &st), Some(Value::Str("other".to_string())));
    assert_eq!(evaluate_do_value("k", &Json::Str("stand-up".to_string()), &st), Some(whole(0)));
    assert_eq!(evaluate_do_value("k", &Json::Int(3), &st), Some(Value::Int(3)));
    assert_eq!(evaluate_do_value("k", &Json::Null, &st), Some(Value::Str("null".to_string())));
    assert_eq!(
        evaluate_do_value("k", &Json::Object(vec![("a".to_string(), Json::Int(1))]), &st),
        Some(Value::Str("{\"a\":1}".to_string()))
    );
}

#[test]
fn tokens() {
    let ts = tokenize("a >= 1.5 and $result != 'x y' or (not b)");
    assert_eq!(ts.len(), 12);
    assert!(matches!(&ts[0], Token::Ident(s) if s == "a"));
    assert!(matches!(&ts[1], Token::Op(Op::Ge)));
    assert!(matches!(&ts[2], Token::Number(s) if s == "1.5"));
    assert!(matches!(&ts[3], Token::Op(Op::And)));
    assert!(matches!(&ts[4], Token::ResultVar));
    assert!(matches!(&ts[5], Token::Op(Op::Ne)));
    assert!(matches!(&ts[6], Token::StringLit(s) if s == "x y"));
    assert!(matches!(&ts[7], Token::Op(Op::Or)));
    assert!(matches!(&ts[8], Token::LParen));
    assert!(matches!(&ts[9], Token::Op(Op::Not)));
    assert!(matches!(&ts[10], Token::Ident(s) if s == "b"));
    assert!(matches!(&ts[11], Token::RParen));
}

#[test]
fn parse_errors() {
    let p = |doc: &Yaml| yamamva::parser::parse_document(doc).err().map(|e| e.message);
    assert_eq!(p(&Yaml::Int(1)), Some("top-level must be a mapping".to_string()));
    let s = |t: &str| Yaml::Str(t.to_string());
    let fields = |keys: &[&str]| -> Vec<(Yaml, Yaml)> {
        keys.iter().map(|k| (s(k), s("v"))).collect()
    };
    assert_eq!(p(&Yaml::Mapping(fields(&["title", "entry"]))), Some("missing required field: id".to_string()));
    assert_eq!(p(&Yaml::Mapping(fields(&["id", "entry"]))), Some("missing required field: title".to_string()));
    assert_eq!(p(&Yaml::Mapping(fields(&["id", "title"]))), Some("missing required field: entry".to_string()));
    assert_eq!(p(&Yaml::Mapping(fields(&["id", "title", "entry"]))), Some("missing required field: scenes".to_string()));
    let with = |scenes: Yaml| {
        let mut m = fields(&["id", "title", "entry"]);
        m.push((s("scenes"), scenes));
        Yaml::Mapping(m)
    };
    assert_eq!(p(&with(Yaml::List(vec![]))), Some("scenes block must be a mapping".to_string()));
    assert_eq!(p(&with(Yaml::Mapping(vec![(Yaml::Int(1), Yaml::List(vec![]))]))), Some("scene key must be a string".to_string()));
    assert_eq!(p(&with(Yaml::Mapping(vec![(s("sc"), s("x"))]))), Some("scene 'sc' must be a list of nodes".to_string()));
    assert_eq!(
        p(&with(Yaml::Mapping(vec![(s("sc"), Yaml::List(vec![Yaml::Mapping(vec![]), s("bad")]))]))),
        Some("node at sc[1] must be a mapping".to_string())
    );
    let ok = yamamva::parser::parse_document(&with(Yaml::Mapping(vec![(s("sc"), Yaml::List(vec![Yaml::Mapping(vec![])]))]))).unwrap();
    assert_eq!(ok.scenes.get("sc").unwrap()[0].node_type, "unknown");
}
