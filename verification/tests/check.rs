use worksmith::check::{
    check_json, collect_writers, display_key, file_state, fill_defaults, lookup_path, render, render_json,
    Check, FileStatus, Source,
};
use worksmith::toml_value::Toml;

type Writers = Vec<(String, (String, Toml))>;

fn parse(source: &str) -> Toml {
    Toml::parse(source).unwrap()
}

fn text(s: &str) -> Toml {
    Toml::Text(s.to_string())
}

fn float(s: &str) -> Toml {
    Toml::Real(s.to_string())
}

fn entry<'a, T>(v: &'a [(String, T)], key: &str) -> &'a T {
    &v.iter().find(|(k, _)| k == key).unwrap_or_else(|| panic!("no {key}")).1
}

fn check_with(writers: Writers) -> Check {
    Check { sources: Vec::new(), writers, files: Vec::new(), flags: Vec::new() }
}

#[test]
fn collect_writers_flattens_with_the_path_separator() {
    let v = parse(
        r#"
            model = "p/m"
            [providers.omlx]
            base-url = "http://x/v1"
            [models."openrouter/qwen/qwen3.8-27b"]
            temperature = 0.6
            "#,
    );
    let mut writers: Writers = Vec::new();
    collect_writers(&v, "/global", &mut writers);

    assert_eq!(entry(&writers, "model").0, "/global");
    assert_eq!(entry(&writers, "providers>omlx>base-url").1, text("http://x/v1"));
    // A dot in the model name is part of the key, not a separator.
    assert_eq!(
        entry(&writers, "models>openrouter/qwen/qwen3.8-27b>temperature").1,
        float("0.6")
    );
}

#[test]
fn lookup_path_unflattens_the_same_way() {
    let v = parse("[providers.omlx]\nbase-url = \"http://x/v1\"\n");
    assert_eq!(lookup_path(&v, "providers>omlx>base-url"), Some(text("http://x/v1")));
    assert_eq!(lookup_path(&v, "providers>omlx>nope"), None);
    // A path that walks past a scalar into nothing is not a table.
    assert_eq!(lookup_path(&v, "providers>omlx>base-url>deep"), None);
}

#[test]
fn flag_merge_flags_a_dropped_value() {
    let config = parse("model = \"p/m\"\ntemperature = 0.7\n");
    let mut check = check_with(vec![
        ("temperature".to_string(), ("/g".to_string(), float("0.5"))),
        ("model".to_string(), ("/g".to_string(), text("p/m"))),
    ]);
    check.flag_merge(&config);

    assert_eq!(check.flags.len(), 1, "only the dropped key is flagged: {:?}", check.flags);
    assert!(check.flags[0].contains("temperature"));
    assert!(!check.flags[0].contains("model"));
}

#[test]
fn fill_defaults_records_the_default_for_unset_keys_only() {
    let merged = parse("model = \"p/m\"\ntemperature = 0.7\n");
    let writers: Writers =
        vec![("model".to_string(), ("/g".to_string(), text("p/m")))];
    let mut sources = vec![(
        "model".to_string(),
        Source { from: "/g".into(), value: Some("p/m".into()) },
    )];
    fill_defaults(&merged, &writers, &mut sources);

    // `temperature` no file set: it is the default's value.
    let t = entry(&sources, "temperature");
    assert_eq!(t.from, "default");
    assert_eq!(t.value.as_deref(), Some("0.7"));
    // `model` a file set: `fill_defaults` did not clobber the source.
    assert_eq!(entry(&sources, "model").from, "/g");
}

#[test]
fn flag_merge_flags_a_key_absent_from_the_effective_config() {
    let config = parse(""); // no `model` set
    let mut check =
        check_with(vec![("model".to_string(), ("/g".to_string(), text("p/m")))]);
    check.flag_merge(&config);

    assert_eq!(check.flags.len(), 1, "{:?}", check.flags);
    assert!(check.flags[0].contains("absent from the effective config"));
}

#[test]
fn display_key_uses_dots_for_the_report() {
    assert_eq!(display_key("providers>omlx>base-url"), "providers.omlx.base-url");
    // A dot already in a model name is left alone.
    assert_eq!(
        display_key("models>openrouter/qwen/qwen3.8-27b>temperature"),
        "models.openrouter/qwen/qwen3.8-27b.temperature"
    );
}

#[test]
fn a_path_of_a_nested_key_leads_back_to_its_value() {
    let v = parse("[a.b]\nc = 1\nd = true\n");
    let mut writers: Writers = Vec::new();
    collect_writers(&v, "/f", &mut writers);
    assert_eq!(writers.len(), 2);
    for (key, (_, value)) in &writers {
        assert_eq!(lookup_path(&v, key).as_ref(), Some(value));
    }
}

#[test]
fn a_file_that_lost_nothing_is_not_flagged() {
    let v = parse("model = \"p/m\"\n[agent]\nmax-steps = 3\n");
    let applied = vec![("/g".to_string(), parse("model = \"p/m\"\n[agent]\nmax-steps = 3\n"))];
    let mut check = Check::assemble(&applied, &v, Vec::new());
    check.flag_merge(&v);
    assert!(check.flags.is_empty(), "{:?}", check.flags);
    assert_eq!(entry(&check.sources, "agent>max-steps").value.as_deref(), Some("3"));
}

#[test]
fn a_report_says_what_is_wrong_in_text_and_in_json() {
    assert_eq!(file_state(false, None), "missing");
    assert_eq!(file_state(true, None), "ok");
    assert_eq!(file_state(true, Some("line 3".to_string())), "error: line 3");
    let mut check = check_with(Vec::new());
    check.files.push(FileStatus {
        path: "/g".to_string(),
        state: "ok".to_string(),
        trusted: None,
        changed_since_trusted: false,
    });
    check.flag_decisions_dir("docs/decisions", true);
    check.flag_decisions_dir("kept", false);
    check.flag_context(Some("too wide".to_string()));
    assert_eq!(check.flags.len(), 2);
    let shown = render(&check);
    assert!(shown.contains("/g"), "{shown}");
    assert!(shown.contains("which git ignores"), "{shown}");
    let json = check_json(&check);
    let written = json.written();
    assert!(written.contains("too wide"), "{written}");
    let back = worksmith::json::Json::parse(&written).unwrap();
    assert_eq!(back.get("flags"), json.get("flags"));
    assert_eq!(back.get("files"), json.get("files"));
    let pretty = render_json(&check);
    assert!(pretty.starts_with("{\n  \"files\": ["), "{pretty}");
    assert_eq!(worksmith::json::Json::parse(&pretty).unwrap().get("flags"), json.get("flags"));
}
