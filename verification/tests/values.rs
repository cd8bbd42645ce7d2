use worksmith::ids::{fresh, is_canonical, is_id, reads_as_itself};
use worksmith::json::{same_json, Json, Number};
use worksmith::llm::{
    context_mismatch, dialect_for, is_transient, missing_key_warning, served_window, Cause,
    DialectSource, Effort, Message, ThinkingDialect,
};
use worksmith::paths::{display_rel, ext, extension, stem};
use worksmith::tally::{Tally, TextSet};
use worksmith::toml_value::{same_toml, Toml};

#[test]
fn json_is_read_and_written() {
    let j = Json::parse(r#"{"b": [1, -2, 0.5, null, true], "a": "x\n"}"#).unwrap();
    assert_eq!(j.written(), r#"{"a":"x\n","b":[1,-2,0.5,null,true]}"#);
    assert!(j.pretty().starts_with("{\n  \"a\": \"x\\n\""));
    assert!(same_json(&j, &j.copy()));
    assert!(Json::parse("{").is_err());
    assert_eq!(Json::parse_number("12"), Some(Number::Pos(12)));
    assert_eq!(Json::parse_number("-3"), Some(Number::Neg(-3)));
    assert_eq!(Json::parse_number("x"), None);
    let b = j.get("b").unwrap().as_array().unwrap();
    assert_eq!(b[0].as_u64(), Some(1));
    assert_eq!(b[1].as_i64(), Some(-2));
    assert_eq!(b[1].as_u64(), None);
    assert_eq!(b[4].as_bool(), Some(true));
}

#[test]
fn a_number_that_was_read_is_written_as_it_is() {
    let mut bits: u64 = 0x3ff0_0000_0000_0001;
    for _ in 0..5000 {
        bits = bits.wrapping_mul(6_364_136_223_846_793_005).wrapping_add(1_442_695_040_888_963_407);
        let x = f64::from_bits(bits);
        if !x.is_finite() {
            continue;
        }
        let text = serde_json::Value::from(x).to_string();
        let held: serde_json::Value = serde_json::from_str(&text).unwrap();
        assert_eq!(Json::parse(&text).unwrap().written(), held.to_string(), "{text}");
    }
    assert_eq!(Json::Number(Number::Real("1.0".to_string())).written(), "1.0");
    assert_eq!(Json::Number(Number::Real("none".to_string())).written(), "null");
}

#[test]
fn toml_is_read_and_written() {
    let t = Toml::parse("a = 1\n[b]\nc = 'x'\nd = 0.5\n").unwrap();
    assert_eq!(t.get("a"), Some(&Toml::Integer(1)));
    assert_eq!(t.get("b").unwrap().get("d"), Some(&Toml::Real("0.5".to_string())));
    assert!(same_toml(&t, &t.copy()));
    assert!(Toml::parse("a = ").is_none());
    assert_eq!(Toml::Text("x".to_string()).written(), "\"x\"");
    assert!(Toml::List(vec![Toml::Boolean(true)]).debugged().contains("true"));
}

#[test]
fn ids_have_one_canonical_spelling() {
    let id = "67e55044-10b1-426f-9247-bb680e5fe0c8";
    assert!(is_id(id) && is_canonical(id));
    assert!(is_id(&id.to_uppercase()) && !is_canonical(&id.to_uppercase()));
    assert!(!is_id("../escape"));
    assert!(is_canonical(&fresh()));
    assert_ne!(fresh(), fresh());
    assert!(reads_as_itself("a", &Some("a".to_string())));
    assert!(!reads_as_itself("A", &Some("a".to_string())));
    assert!(!reads_as_itself("a", &None));
}

#[test]
fn paths_are_taken_apart_as_the_system_does() {
    assert_eq!(display_rel("/w", "/w/a/b"), "a/b");
    assert_eq!(display_rel("/w", "/v/a"), "/v/a");
    assert_eq!(extension("a.tar.gz").as_deref(), Some("gz"));
    assert_eq!(extension(".bashrc"), None);
    assert_eq!(extension(".."), None);
    assert_eq!(stem("a.tar.gz"), "a.tar");
    assert_eq!(stem(".bashrc"), ".bashrc");
    assert_eq!(ext("/a/B.PDF"), "pdf");
    assert_eq!(ext("/a/b"), "");
}

#[test]
fn counts_and_sets_keep_texts_apart() {
    let mut t = Tally::new();
    assert_eq!((t.bump("a"), t.bump("b"), t.bump("a")), (1, 1, 2));
    assert_eq!((t.get("a"), t.get("c")), (2, 0));
    let mut s = TextSet::new();
    s.insert("a");
    s.insert("a");
    assert!(s.contains("a"));
    s.remove("a");
    assert!(!s.contains("a"));
}

#[test]
fn a_provider_is_told_apart_by_what_it_says_of_itself() {
    let (d, from) = dialect_for("http://x/v1", &Some("reasoning".to_string()));
    assert_eq!((d, from), (ThinkingDialect::Reasoning, DialectSource::Explicit));
    let (d, from) = dialect_for("https://openrouter.ai/api/v1", &None);
    assert_eq!((d, from), (ThinkingDialect::Reasoning, DialectSource::Guessed));
    for e in [Effort::Minimal, Effort::Low, Effort::Medium, Effort::High] {
        assert_eq!(Effort::parse(e.as_str()), Some(e));
    }
    assert_eq!(Effort::parse("extreme"), None);
    let quiet = Cause { marked: false, connect: false, timeout: false, request: false };
    assert!(!is_transient(&vec![quiet]));
    assert!(is_transient(&vec![quiet, Cause { timeout: true, ..quiet }]));
    let mut warned = TextSet::new();
    let var = Some("KEY".to_string());
    assert!(missing_key_warning(&mut warned, &var, "http://x").unwrap().contains("KEY"));
    assert!(missing_key_warning(&mut warned, &var, "http://x").is_none(), "said once");
    assert!(missing_key_warning(&mut warned, &None, "http://y").is_none());
    let body = Json::parse(r#"{"data": [{"id": "m", "max_model_len": 4096}]}"#).unwrap();
    assert_eq!(served_window(&body, "m"), Some(4096));
    assert_eq!(served_window(&body, "n"), None);
    assert!(context_mismatch("m", 4096, 32_000).is_some());
    assert!(context_mismatch("m", 4096, 4096).is_none());
    assert_ne!(Message::user("a"), Message::system("a"));
}
