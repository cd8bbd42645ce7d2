use worksmith::json::Json;
use worksmith::llm::ToolDef;
use worksmith::mcp::catalog::{
    advertised_name, identifier, CatalogReader, Entry, Progress, RemoteTool, ServerConfig,
};
use worksmith::mcp::manager::{
    authorize, command_args, failure, must_store, record, refuse_request, replay, store_result,
    Discovery, Ended, Link, Manager, Reply,
};
use worksmith::mcp::schema::{redact, validate_schema};
use worksmith::tools::approval::{Approval, RememberingApprover};

fn config() -> ServerConfig {
    ServerConfig { enabled: true, command: "/bin/srv".to_string(), ..ServerConfig::default() }
}

fn tool(name: &str) -> RemoteTool {
    RemoteTool {
        name: name.to_string(),
        description: Some("does it".to_string()),
        schema: Json::parse(r#"{"type": "object"}"#).unwrap(),
    }
}

fn read(tools: Vec<RemoteTool>, c: &ServerConfig) -> Result<Vec<Entry>, String> {
    let r = CatalogReader::new("files", "scope", c);
    let (r, p) = r.page(tools, 10, None)?;
    assert_eq!(p, Progress::Complete);
    Ok(r.into_entries())
}

fn ready() -> (Manager, String) {
    let mut m = Manager::new(vec![("files".to_string(), config())]).unwrap();
    m.enter("session", replay(&vec![]));
    m.install(read(vec![tool("list")], &config()).unwrap());
    (m, advertised_name("files", "list"))
}

fn parse(s: &str) -> Json {
    Json::parse(s).unwrap()
}

#[test]
fn a_catalog_is_read_within_its_bounds() {
    let entries = read(vec![tool("list"), tool("get")], &config()).unwrap();
    assert_eq!(entries.len(), 2);
    assert_ne!(entries[0].revision, entries[1].revision);
    assert!(read(vec![tool("a b")], &config()).unwrap_err().contains("unsupported tool name"));
    assert!(read(vec![tool("a"), tool("a")], &config()).unwrap_err().contains("duplicated"));
    let tight = ServerConfig { catalog_bytes: 9, ..config() };
    assert_eq!(read(vec![tool("a")], &tight).unwrap_err(), "catalog byte limit exceeded");
    let r = CatalogReader::new("files", "scope", &config());
    let (r, p) = r.page(vec![tool("a")], 1, Some("c".to_string())).unwrap();
    assert_eq!(p, Progress::More("c".to_string()));
    let e = r.page(vec![], 1, Some("c".to_string())).err().unwrap();
    assert_eq!(e, "catalog pagination loop");
    let one = ServerConfig { max_pages: 1, ..config() };
    let r = CatalogReader::new("files", "scope", &one);
    assert_eq!(
        r.page(vec![], 1, Some("c".to_string())).err().unwrap(),
        "catalog page limit exceeded"
    );
    assert!(identifier("a_b1"));
    assert!(!identifier("a__b"));
    assert!(!identifier(""));
}

#[test]
fn a_tool_is_called_only_while_it_is_active_and_as_it_was_shown() {
    let (mut m, name) = ready();
    let shown = ToolDef {
        name: name.clone(),
        description: "does it".to_string(),
        parameters: parse(r#"{"type": "object"}"#),
    };
    let args = parse(r#"{"path": "/"}"#);
    let e = m.begin_call(&name, &args, Some(&shown), Link::Live, "/w").unwrap_err();
    assert!(e.starts_with("inactive tool"), "{e}");
    assert!(m.activate("nope", Link::Live).unwrap_err().contains("unknown tool"));
    assert!(m.activate(&name, Link::Stale).unwrap_err().contains("stale catalog"));
    m.activate(&name, Link::Live).unwrap();
    assert!(m.begin_call(&name, &args, None, Link::Live, "/w").is_err());
    let changed = ToolDef { description: "other".to_string(), ..ToolDef {
        name: name.clone(),
        description: String::new(),
        parameters: parse(r#"{"type": "object"}"#),
    } };
    assert!(m.begin_call(&name, &args, Some(&changed), Link::Live, "/w").is_err());
    assert!(m.begin_call(&name, &parse("[]"), Some(&shown), Link::Live, "/w").is_err());
    let big = parse(&format!(r#"{{"a": "{}"}}"#, "x".repeat(20_000)));
    assert!(m.begin_call(&name, &big, Some(&shown), Link::Live, "/w").is_err());
    assert!(m.begin_call(&name, &args, Some(&shown), Link::Absent, "/w").is_err());
    let op = m.begin_call(&name, &args, Some(&shown), Link::Live, "/w").unwrap();
    assert_eq!(op.remote, "list");

    assert_eq!(op.awaiting().phase, "awaiting_operation_approval");
    let (rec, denied) = m.dispatch(&op, false, false, false);
    assert_eq!(rec.unwrap().phase, "denied");
    assert!(denied.unwrap_err().contains("denied"));
    let (rec, cancelled) = m.dispatch(&op, true, true, false);
    assert!(rec.is_none());
    assert!(cancelled.unwrap_err().contains("cancelled"));
    let (rec, changed) = m.dispatch(&op, true, false, true);
    assert!(rec.is_none());
    assert!(changed.unwrap_err().contains("catalog changed"));
    let (rec, sent) = m.dispatch(&op, true, false, false);
    sent.unwrap();
    let rec = rec.unwrap();
    assert_eq!((rec.phase.as_str(), rec.tool.as_deref()), ("dispatched", Some("list")));
    assert!(replay(&vec![rec]).contains(&name));
    // It is open now: the same call is not made again.
    let e = m.begin_call(&name, &args, Some(&shown), Link::Live, "/w").unwrap_err();
    assert!(e.starts_with("uncertain prior outcome"), "{e}");
    let (rec, end) = m.settle(
        &op,
        Reply::Result { parts: vec![Some("ok".to_string())], structured: None, is_error: false },
        5,
    );
    assert_eq!(rec.phase, "completed");
    match end {
        Ended::Text { content, is_error } => {
            assert_eq!(content, format!("MCP {name} (5 ms)\nok\n"));
            assert!(!is_error);
        }
        other => panic!("{other:?}"),
    }
    assert!(m.begin_call(&name, &args, Some(&shown), Link::Live, "/w").is_ok());
    m.dispatch(&op, true, false, false).1.unwrap();
    let (rec, end) = m.settle(&op, Reply::Lost, 5);
    assert_eq!(rec.phase, "uncertain");
    assert!(matches!(end, Ended::Lost(_)));
    let left = m.definitions(false, "session");
    assert!(left.iter().all(|d| d.name != name), "a lost server has no tools");
}

#[test]
fn what_was_open_when_a_session_ended_is_open_when_it_is_resumed() {
    let open = replay(&vec![record("files", Some("list"), "dispatched", Some("r"))]);
    let done = replay(&vec![
        record("files", Some("list"), "dispatched", Some("r")),
        record("files", Some("list"), "completed", Some("r")),
    ]);
    assert!(open.contains(&advertised_name("files", "list")));
    assert!(!done.contains(&advertised_name("files", "list")));
}

#[test]
fn discovery_answers_or_says_what_is_to_be_done() {
    let (mut m, name) = ready();
    let ask = |m: &mut Manager, s: &str| m.discover(&parse(s), &vec![Link::Live], Link::Live);
    match ask(&mut m, "{}") {
        Discovery::Text(t) => assert!(t.contains("1 matches"), "{t}"),
        other => panic!("{other:?}"),
    }
    match ask(&mut m, &format!(r#"{{"action": "activate", "tool": "{name}"}}"#)) {
        Discovery::Reply(o) => assert!(o.content.contains("active from the next request")),
        other => panic!("{other:?}"),
    }
    assert_eq!(m.definitions(false, "session").len(), 2);
    assert!(matches!(ask(&mut m, r#"{"action": "activate"}"#), Discovery::Fail(_)));
    assert!(matches!(
        ask(&mut m, r#"{"action": "read", "handle": "h", "offset": 3}"#),
        Discovery::Read { offset: 3, .. }
    ));
    assert!(matches!(ask(&mut m, r#"{"action": "refresh", "server": "files"}"#), Discovery::Refresh(_)));
    match ask(&mut m, r#"{"action": "disconnect"}"#) {
        Discovery::Disconnect { forget, reply } => {
            assert_eq!(forget.len(), 1);
            assert_eq!(reply.content, "MCP servers stopped; tools deactivated");
        }
        other => panic!("{other:?}"),
    }
    assert!(m.server_of(&name).is_none());
    let launch = m.begin_refresh("files", "session", "/w").unwrap();
    assert_eq!(launch.awaiting().phase, "awaiting_launch_approval");
    assert_eq!(launch.approval_scope(), format!("launch:{}", launch.scope));
    let (rec, denied) = launch.decided(false);
    assert_eq!(rec.phase, "launch_denied");
    assert_eq!(denied.unwrap_err(), "launch denied; no process started");
    let (rec, started) = launch.decided(true);
    assert_eq!(rec.phase, "starting");
    started.unwrap();
    let (rec, failed) = m.finish_refresh(&launch, Err("discovery timed out".to_string()));
    assert_eq!((rec.phase.as_str(), failed.unwrap_err().as_str()), ("failed", "discovery timed out"));
    assert!(m.server_of(&name).is_none());
    let (rec, done) = m.finish_refresh(&launch, read(vec![tool("list")], &config()));
    assert_eq!((rec.phase.as_str(), rec.revision.as_deref()), ("ready", Some(launch.scope.as_str())));
    assert_eq!(
        done.unwrap().content,
        "files: connected; catalog refreshed. Tools require explicit activation and approval."
    );
    assert_eq!(m.server_of(&name), Some("files"));
    assert!(launch.preview.contains("srv"), "{}", launch.preview);
    let odd = ServerConfig { args: vec!["a\"b".to_string()], ..config() };
    let mut quoting = Manager::new(vec![("files".to_string(), odd)]).unwrap();
    let shown = quoting.begin_refresh("files", "session", "/w").unwrap().preview;
    assert!(shown.contains("a\\\"b"), "what is launched is quoted: {shown}");
    assert_eq!(m.begin_refresh("other", "session", "/w").unwrap_err(), "unknown server");
    let off = Manager::new(vec![("files".to_string(), ServerConfig::default())]);
    assert!(off.unwrap().begin_refresh("files", "s", "/w").unwrap_err().contains("disabled"));
    assert!(Manager::new(vec![("a b".to_string(), config())]).is_err());
}

#[test]
fn secrets_are_never_shown() {
    let j = parse(r#"{"token": "abc", "nested": [{"Password": "x", "ok": 1}], "list": ["y"]}"#);
    let shown = redact(&j).written();
    assert!(!shown.contains("abc") && !shown.contains("\"x\""), "{shown}");
    assert!(shown.contains("[redacted]") && shown.contains("\"y\""), "{shown}");
    assert_eq!(redact(&redact(&j)), redact(&j));
    assert!(validate_schema(&parse(r#"{"type": "object"}"#)).is_none());
    assert!(validate_schema(&parse(r#"{"type": "array"}"#)).is_some());
    assert!(validate_schema(&parse(r#"{"type": "object", "a": {"$ref": "http://x"}}"#)).is_some());
    assert!(validate_schema(&parse(r##"{"type": "object", "a": {"$ref": "#/x"}}"##)).is_none());
}

#[test]
fn requests_and_results_are_refused_stored_and_browsed() {
    assert!(refuse_request(true, "s").is_some());
    assert!(refuse_request(false, "").is_some());
    assert!(refuse_request(false, "s").is_none());
    assert!(failure("broken").is_error);
    assert!(!must_store("short"));
    assert!(must_store(&"x".repeat(100_000)));
    let kept = store_result("short".to_string(), false, Err("disk".to_string()));
    assert_eq!(kept.content, "short");
    let (m, _) = ready();
    let mut items = m.browser_items(&vec![Link::Live]);
    assert_eq!(items.len(), 2);
    let before = items[0].detail.clone();
    authorize(&mut items[0], true, "/w");
    assert!(items[0].detail.starts_with(&before) || items[0].detail != before);
    let words = |s: &str| s.split_whitespace().map(String::from).collect::<Vec<_>>();
    assert!(command_args(&words("refresh files")).unwrap().written().contains("\"files\""));
    for bad in ["x", "1x", "+", "-1", "99999999999999999999", "99999999999999999999x", "+9z"] {
        let e = command_args(&words(&format!("read h {bad}"))).unwrap_err();
        assert_eq!(e, bad.parse::<usize>().unwrap_err().to_string(), "{bad}");
    }
    let empty: Vec<String> = ["read", "h", ""].iter().map(|w| w.to_string()).collect();
    assert_eq!(command_args(&empty).unwrap_err(), "".parse::<usize>().unwrap_err().to_string());
    assert!(command_args(&words("dance")).is_err());
}

#[test]
fn a_worker_browses_nothing_and_another_session_only_the_servers() {
    let (m, name) = ready();
    let mut approver = RememberingApprover::new();
    let links = vec![Link::Live];
    assert!(m.browser(true, "session", &links, &approver, "/w").is_empty());
    let rows = m.browser(false, "session", &links, &approver, "/w");
    assert_eq!(rows.len(), 2);
    assert_eq!(rows[1].name, name);
    assert!(rows[1].detail.contains("Authorization: approval required."), "{}", rows[1].detail);
    approver.settle(rows[1].scope.as_deref().unwrap(), Approval::AlwaysThisSession);
    let rows = m.browser(false, "session", &links, &approver, "/w");
    assert!(rows[1].detail.contains("allowed this session"), "{}", rows[1].detail);
    assert!(rows[1].detail.ends_with("\nWorkspace: /w\nWorkers: disabled"));
    let other = m.browser(false, "other", &links, &approver, "/w");
    assert_eq!(other.len(), 1);
    assert_eq!(other[0].description, "stopped");
}
