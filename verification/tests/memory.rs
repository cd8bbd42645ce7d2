use worksmith::json::Json;
use worksmith::llm::{Message, ToolCall};
use worksmith::memory::{
    approve, approve_superseding, best_hits, compact_text, find_duplicate, fts_query, memory_section,
    normalize, parse_candidates, project_dir_from_memory_path, project_terms_from_dir, propose,
    remember, remember_deduped, resolve_id, review, row_exact_term_count, short_id, supersede,
    superseded, turn_context, turn_context_with_caps, turn_fts_query, turn_query_terms, Hit, IdMatch,
    MemoryCaps, MemoryRow, Scope, TURN_MEMORY_MIN_SCORE,
};
use worksmith::mining::{
    proposals, render_for_mining, render_recent, sessions_for_project, Filed, Found, MineInput,
    MinePlan,
};
use worksmith::tools::recall::{memory_call, show_hits, show_write, MemoryCall};

fn row(id: &str, subject: &str, content: &str) -> MemoryRow {
    remember(Scope::Project, true, "fact", subject, content, 60, id, 7).unwrap()
}

fn bits(x: f64) -> u64 {
    x.to_bits()
}

#[test]
fn a_memory_needs_a_durable_kind_and_an_open_database() {
    let r = row("i", "s", "c");
    assert_eq!((r.scope.as_str(), r.status.as_str(), r.created_at), ("project", "active", 7));
    let e = remember(Scope::Global, false, "rumour", "s", "c", 1, "i", 7).unwrap_err();
    assert!(e.starts_with("invalid kind `rumour`; expected one of [\"decision\""), "{e}");
    let e = remember(Scope::Project, false, "fact", "s", "c", 1, "i", 7).unwrap_err();
    assert_eq!(e, "no project memory database open (not in a project directory)");
    let s = supersede(Scope::Global, false, "old", "fact", "s", "c", 1, "i", 7).unwrap();
    assert_eq!(s.supersedes_id.as_deref(), Some("old"));
    assert_eq!(Scope::parse("global"), Some(Scope::Global));
    assert_eq!(Scope::parse("Global"), None);
    assert_eq!(Scope::Project.as_str(), "project");
}

#[test]
fn a_proposal_is_active_only_once_it_is_approved() {
    let p = propose(Scope::Project, true, "fact", "s", "c", 60, "i", 7).unwrap();
    assert_eq!(p.status, "proposed");
    let a = approve(p, 9).unwrap();
    assert_eq!((a.status.as_str(), a.updated_at), ("active", 9));
    assert!(approve(a, 10).is_none(), "only a proposal is approved");
}

#[test]
fn superseding_keeps_the_old_memory_and_stays_on_the_subject() {
    let p = || propose(Scope::Project, true, "fact", "s", "new", 60, "new-id", 7).unwrap();
    let (old, new) =
        approve_superseding(p(), Some(row("old-id", "s", "old")), "new-id", "old-id", 9).unwrap();
    assert_eq!((old.status.as_str(), old.content.as_str()), ("superseded", "old"));
    assert_eq!((new.status.as_str(), new.supersedes_id.as_deref()), ("active", Some("old-id")));

    let e = approve_superseding(row("a", "s", "c"), None, "a", "b", 9).unwrap_err();
    assert_eq!(e, "a is active, not proposed");
    let e = approve_superseding(p(), None, "new-id", "0123456789", 9).unwrap_err();
    assert_eq!(e, "no active memory 01234567 in the same scope");
    let gone = superseded(row("old-id", "s", "old"), 8);
    let e = approve_superseding(p(), Some(gone), "new-id", "old-id", 9).unwrap_err();
    assert_eq!(e, "old-id is superseded, not active");
    let e = approve_superseding(p(), Some(row("o", "t", "c")), "new-id", "o", 9).unwrap_err();
    assert!(e.starts_with("supersede requires the same scope, kind, and subject"), "{e}");
    assert!(e.ends_with("existing is [project/fact] t"), "{e}");
}

#[test]
fn restatements_do_not_grow_the_store() {
    let stored = vec![row("a", "s", "Use  WAL\nmode"), row("b", "s", "other")];
    assert_eq!(normalize("  Use  WAL\nmode "), "use wal mode");
    assert_eq!(find_duplicate(&stored, "fact", "s", "use wal MODE"), Some(0));
    assert_eq!(find_duplicate(&stored, "lesson", "s", "use wal mode"), None);
    assert_eq!(find_duplicate(&stored, "fact", "t", "use wal mode"), None);
    let some = Some(stored);
    let (known, new) =
        remember_deduped(Scope::Project, &some, false, "fact", "s", "USE wal mode", 1, "x", 9)
            .unwrap();
    assert_eq!((known.id.as_str(), new), ("a", false));
    let (made, new) =
        remember_deduped(Scope::Project, &some, true, "fact", "s", "third", 1, "x", 9).unwrap();
    assert_eq!((made.status.as_str(), new), ("proposed", true));
    assert!(remember_deduped(Scope::Project, &None, false, "fact", "s", "c", 1, "x", 9).is_err());
}

#[test]
fn a_review_shows_what_a_proposal_may_replace() {
    let p = || propose(Scope::Project, true, "fact", "s", "new", 60, "p", 7).unwrap();
    let project = Some(vec![row("a", "s", "old"), row("b", "t", "other")]);
    let r = review(p(), &vec![], &project).unwrap();
    assert_eq!(r.existing.len(), 1);
    assert_eq!(r.existing[0].id, "a");
    assert!(review(p(), &vec![], &None).is_err());
    let mut odd = p();
    odd.scope = "nowhere".to_string();
    assert_eq!(review(odd, &vec![], &project).unwrap_err(), "invalid memory scope `nowhere`");
}

#[test]
fn a_short_id_resolves_where_it_is_unambiguous() {
    assert_eq!(short_id("0123456789"), "01234567");
    assert_eq!(short_id("abc"), "abc");
    let hits = |v: &[&str]| v.iter().map(|s| s.to_string()).collect::<Vec<_>>();
    assert!(matches!(resolve_id("  ", hits(&["a"])), IdMatch::Unknown));
    assert!(matches!(resolve_id("a", hits(&[])), IdMatch::Unknown));
    match resolve_id("a", hits(&["a1", "a1"])) {
        IdMatch::Unique(id) => assert_eq!(id, "a1"),
        other => panic!("{other:?}"),
    }
    match resolve_id("a", hits(&["a2", "a1", "a2"])) {
        IdMatch::Ambiguous(ids) => assert_eq!(ids, vec!["a1", "a2"]),
        other => panic!("{other:?}"),
    }
}

#[test]
fn a_turns_search_leaves_out_what_tells_nothing_apart() {
    assert_eq!(fts_query("What does the WAL-mode do?"), "\"what\" OR \"does\" OR \"the\" OR \"wal\" OR \"mode\" OR \"do\"");
    let project = vec!["worksmith".to_string()];
    assert_eq!(turn_query_terms("Does Worksmith run the WAL mode", &project), vec!["wal", "mode"]);
    assert_eq!(turn_fts_query("the WAL", &project), "\"wal\"");
    assert_eq!(fts_query("  ?!"), "");
    let r = row("a", "WAL", "use wal; not rollback");
    let terms = |v: &[&str]| v.iter().map(|s| s.to_string()).collect::<Vec<_>>();
    assert_eq!(row_exact_term_count(&r, &terms(&["wal", "roll", "fact", "rollback"])), 3);
    assert_eq!(
        project_dir_from_memory_path("/p/repo/.worksmith/memory.db").as_deref(),
        Some("/p/repo")
    );
    assert_eq!(project_dir_from_memory_path("/p/repo/memory.db"), None);
    assert_eq!(project_terms_from_dir("/p/My-Repo"), Some(vec!["my".into(), "repo".into()]));
    assert_eq!(project_terms_from_dir("/p/--"), None);
}

fn hit(id: &str, subject: &str, content: &str, score: f64) -> Hit {
    Hit { row: row(id, subject, content), score: bits(score) }
}

#[test]
fn a_turn_is_told_the_best_of_what_is_relevant_within_its_budget() {
    assert_eq!(TURN_MEMORY_MIN_SCORE, bits(0.20));
    let hits = || {
        vec![
            hit("b", "WAL", "second", 0.5),
            hit("a", "WAL", "first", 0.5),
            hit("c", "WAL", "best", 0.9),
            hit("d", "WAL", "too weak", 0.1),
            hit("e", "other", "no term of the turn", 0.9),
        ]
    };
    let none: Vec<String> = vec![];
    let caps = MemoryCaps { max_items: 8, max_chars: 600, max_item_chars: 320 };
    let c = turn_context_with_caps(hits(), "about WAL", &none, caps).unwrap();
    assert_eq!(c.ids, vec!["c", "a", "b"]);
    assert!(c.text.starts_with("Relevant memory for this turn:\n- [project/fact/c] WAL: best\n"));
    let tight = MemoryCaps { max_items: 8, max_chars: 62, max_item_chars: 320 };
    let t = turn_context_with_caps(hits(), "about WAL", &none, tight).unwrap();
    assert_eq!(t.ids, vec!["c"]);
    assert!(t.text.len() <= 62);
    let one = MemoryCaps { max_items: 1, max_chars: 600, max_item_chars: 320 };
    assert_eq!(turn_context_with_caps(hits(), "about WAL", &none, one).unwrap().ids.len(), 1);
    assert!(turn_context(hits(), "the", &none, 128_000).is_none());
    let caps = MemoryCaps::for_context(64_000);
    assert_eq!((caps.max_items, caps.max_chars), (4, 2_000));
    assert_eq!(MemoryCaps::for_context(0).max_items, 2);
    assert_eq!(best_hits(hits(), 2).len(), 2);
    assert_eq!(compact_text(" a  b\nc ", 9), "a b c");
    assert_eq!(compact_text("abcdef", 3), "ab…");
}

#[test]
fn the_section_for_the_prompt_puts_the_important_first() {
    let mut low = row("a", "low", "x");
    low.importance = 10;
    let mut global = remember(Scope::Global, false, "fact", "g", "y", 90, "b", 7).unwrap();
    global.importance = 90;
    let s = memory_section(vec![low, global, row("c", "mid", "z")], 3);
    assert_eq!(
        s,
        "<MEMORY>\nRelevant global memories:\n- [fact] g: y\nRelevant project memories:\n\
         - [fact] mid: z\n- [fact] low: x\n</MEMORY>\n"
    );
    assert_eq!(memory_section(vec![], 3), "");
    assert_eq!(memory_section(vec![row("c", "mid", "z")], 0), "");
}

#[test]
fn junk_does_not_cost_the_well_formed_candidates() {
    let text = "Here is what I found:\nproject|Lesson|wal mode| keep it on |250\nNONE\n\
                project|rumour|x|y|1\nmars|fact|x|y|1\nglobal|fact|editor|likes vim\n\
                project|fact| |y|3\nproject|fact|a|b|c|d\nproject|fact|neg|c|-5\n";
    let got = parse_candidates(text);
    assert_eq!(got.len(), 4);
    assert_eq!(got[0].kind, "lesson");
    assert_eq!(got[0].content, "keep it on");
    assert_eq!(got[0].importance, 100);
    assert_eq!((got[1].scope, got[1].importance), (Scope::Global, 60));
    assert_eq!(got[2].content, "b");
    assert_eq!(got[2].importance, 60);
    assert_eq!(got[3].importance, 0);
}

#[test]
fn the_tool_writes_proposals_for_workers_only() {
    let call = |s: &str| memory_call(&Json::parse(s).unwrap());
    match call(r#"{"action": "remember", "subject": "s", "content": "c", "importance": 400}"#) {
        MemoryCall::Remember { scope, kind, importance, .. } => {
            assert_eq!((scope, kind.as_str(), importance), (Scope::Project, "fact", 100));
        }
        other => panic!("{other:?}"),
    }
    match call(r#"{"action": "remember", "kind": "rumour"}"#) {
        MemoryCall::Refused(o) => assert!(o.content.starts_with("invalid kind `rumour`")),
        other => panic!("{other:?}"),
    }
    match call(r#"{"action": "remember", "subject": "s"}"#) {
        MemoryCall::Refused(o) => {
            assert_eq!(o.content, "remember needs both `subject` and `content`");
        }
        other => panic!("{other:?}"),
    }
    match call(r#"{"query": "wal"}"#) {
        MemoryCall::Search { query, limit } => assert_eq!((query.as_str(), limit), ("wal", 5)),
        other => panic!("{other:?}"),
    }
    let r = row("i", "s", "c");
    assert_eq!(show_write(&r, true, false).content, "remembered i [project/fact] s");
    assert_eq!(
        show_write(&r, true, true).content,
        "proposed i [project/fact] s — pending approval by the main session"
    );
    assert_eq!(show_write(&r, false, true).content, "already known (i): s: c — nothing written");
    assert_eq!(show_hits(&vec![hit("i", "s", "c", 0.5)]).content, "[project/fact] s: c\n");
    assert!(show_hits(&vec![]).content.starts_with("(no memories matched"));
}

fn long_session() -> Vec<Message> {
    let mut ms = vec![Message::user("fix it"), Message::tool_result("1", "ls", "secret output")];
    for i in 0..11 {
        ms.push(Message::assistant(
            Some(format!("step {i}")),
            vec![ToolCall { id: "1".into(), name: "ls".into(), arguments: "{}".into() }],
        ));
    }
    ms
}

#[test]
fn mining_reads_what_is_worth_it_and_never_tool_output() {
    let shown = render_for_mining(&long_session());
    assert!(shown.starts_with("[user] fix it\n[assistant] step 0\n[assistant called ls]\n"));
    assert!(!shown.contains("secret output"));
    assert_eq!(render_recent(&long_session(), 1), "[assistant] step 10\n[assistant called ls]\n");

    let mut plan = MinePlan::new(4);
    assert!(!plan.consider("a", MineInput::Mined));
    assert!(!plan.consider("b", MineInput::Unreadable("denied".to_string())));
    assert!(plan.consider("c", MineInput::Messages(vec![Message::user("hi")])), "marked as read");
    assert!(!plan.consider("d", MineInput::Messages(long_session())));
    assert!(plan.is_full(1));
    assert_eq!(plan.items.len(), 1);
    assert_eq!(plan.items[0].id, "d");

    let mut report = plan.report;
    assert_eq!(report.record("d", Ok(vec![Filed::New, Filed::Known, Filed::New])), Some(2));
    assert_eq!(report.record("e", Err("no model".to_string())), None);
    assert_eq!(report.failed, vec!["b: denied", "e: no model"]);
    assert_eq!(
        report.summary(),
        "mined 1 of 4 sessions — 2 proposals, 1 already known, 1 previously mined, 1 too short, \
         2 failed — review with /memory pending"
    );
    assert_eq!(
        MinePlan::new(0).report.summary(),
        "no past sessions recorded for this project"
    );
    let all = proposals("global|fact|s|c|5\n");
    assert_eq!(all[0].scope, Scope::Project, "what a session taught is its project's");
}

#[test]
fn a_projects_sessions_are_read_newest_first() {
    let found = |path: &str, cwd: Option<&str>, mtime: u128| Found {
        path: path.to_string(),
        cwd: cwd.map(String::from),
        mtime,
    };
    let got = sessions_for_project(
        vec![
            found("a", Some("/w"), 1),
            found("b", Some("/v"), 9),
            found("c", Some("/w"), 5),
            found("d", None, 7),
        ],
        "/w",
    );
    let paths: Vec<&str> = got.iter().map(|f| f.path.as_str()).collect();
    assert_eq!(paths, vec!["c", "a"]);
}
