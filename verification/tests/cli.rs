use worksmith::cli::activity::{expand_file_mentions, file_mentions, render_activity};
use worksmith::cli::memory::{
    chunk_line, distilled_line, hit_line, index_line, knowledge_order, memory_detail, memory_line,
    memory_order, proposal_line, resolved_id, KnowledgeOrder, MemoryOrder,
};
use worksmith::cli::spawn::{file_tasks, list_tasks, spawn_end, worker_tokens, SpawnEnd};
use worksmith::cli::startup::{
    check_command, resolve_thinking, session_choice, thousands, SessionChoice,
};
use worksmith::cli::workers::{agent_detail, agent_line, agents_order, AgentsOrder};
use worksmith::cli::{
    answerer, command_head, is_one_shot, output_mode, set_check, typed, Answerer, Head, OutputMode,
    Typed, HELP,
};
use worksmith::event::Event;
use worksmith::knowledge::{Chunk, IndexStats};
use worksmith::llm::{Effort, Thinking};
use worksmith::memory::{remember, IdMatch, Scope};
use worksmith::prompt::{
    build_system_prompt, build_worker_prompt, BASE_SYSTEM_PROMPT, WORKER_PREAMBLE,
};
use worksmith::worker::{WorkerStatus, WorkerSummary};

fn words(s: &str) -> Vec<String> {
    s.split_whitespace().map(String::from).collect()
}

#[test]
fn a_run_shows_itself_as_it_was_asked_to() {
    let json = Some("json".to_string());
    assert_eq!(output_mode(&json, true, true, true), OutputMode::Json);
    assert_eq!(output_mode(&None, true, true, true), OutputMode::Print);
    assert_eq!(output_mode(&None, false, false, false), OutputMode::Repl);
    assert_eq!(output_mode(&Some("odd".into()), false, false, true), OutputMode::Tui);
    assert!(is_one_shot(true, OutputMode::Print));
    assert!(!is_one_shot(true, OutputMode::Repl));
    assert_eq!(answerer(true, OutputMode::Print), Answerer::Everything);
    assert_eq!(answerer(false, OutputMode::Tui), Answerer::User);
    assert_eq!(answerer(false, OutputMode::Json), Answerer::Nobody);
}

#[test]
fn what_is_typed_is_taken_for_what_it_is() {
    assert!(matches!(typed("  \n"), Typed::Nothing));
    assert!(matches!(typed(" quit "), Typed::Leave));
    assert!(matches!(typed("/compact"), Typed::Compact));
    match typed(" /validate  cargo test ") {
        Typed::Validate(c) => assert_eq!(c, "cargo test"),
        other => panic!("{other:?}"),
    }
    match typed("/memory list") {
        Typed::Command(c) => assert_eq!(c, "memory list"),
        other => panic!("{other:?}"),
    }
    match typed(" fix the parser ") {
        Typed::Message(m) => assert_eq!(m, "fix the parser"),
        other => panic!("{other:?}"),
    }
    let (head, rest) = command_head("mem search wal mode");
    assert_eq!((head, rest), (Head::Memory, words("search wal mode")));
    assert_eq!(command_head("").0, Head::Unknown);
    assert_eq!(command_head("q").0, Head::Quit);
    assert_eq!(command_head("burn").0, Head::Unknown);
    assert!(HELP.contains("/memory approve <id>"));
}

#[test]
fn a_check_stays_until_it_is_cleared() {
    let mut c = None;
    assert_eq!(set_check(&mut c, ""), "validation: (none) — use `/validate <command>`");
    assert_eq!(set_check(&mut c, "make"), "validation: `make` must pass before a task is done");
    assert_eq!(set_check(&mut c, ""), "validation: `make`");
    assert_eq!(c.as_deref(), Some("make"));
    assert_eq!(set_check(&mut c, "off"), "validation cleared");
    assert_eq!(c, None);
}

#[test]
fn memory_orders_are_read_word_by_word() {
    let order = |s: &str| memory_order(&words(s));
    assert!(matches!(order("mine"), MemoryOrder::Mine(10)));
    assert!(matches!(order("mine 3"), MemoryOrder::Mine(3)));
    assert!(matches!(order("mine many"), MemoryOrder::Mine(10)));
    assert!(matches!(order(""), MemoryOrder::List(None)));
    assert!(matches!(order("global"), MemoryOrder::List(Some(Scope::Global))));
    assert!(matches!(order("approve all"), MemoryOrder::ApproveAll));
    assert!(matches!(order("approve ab"), MemoryOrder::Approve(_)));
    match order("search wal  mode") {
        MemoryOrder::Search(q) => assert_eq!(q, "wal mode"),
        other => panic!("{other:?}"),
    }
    match order("add project fact wal keep it on") {
        MemoryOrder::Add { scope, kind, subject, content } => {
            assert_eq!((scope, kind.as_str()), (Scope::Project, "fact"));
            assert_eq!((subject.as_str(), content.as_str()), ("wal", "keep it on"));
        }
        other => panic!("{other:?}"),
    }
    for (given, said, err) in [
        ("search", "usage: /memory search <query>", false),
        ("approve", "usage: /memory approve <id|all>", false),
        ("show", "usage: /memory show <id>", true),
        ("forget", "usage: /memory forget <id>", true),
        ("burn", "unknown /memory subcommand: burn", true),
    ] {
        match order(given) {
            MemoryOrder::Say(l) => assert_eq!((l.text.as_str(), l.err), (said, err)),
            other => panic!("{other:?}"),
        }
    }
    assert!(matches!(order("add mars fact s c"), MemoryOrder::Say(_)));
    assert!(matches!(knowledge_order(&words("")), KnowledgeOrder::Status));
    assert!(matches!(knowledge_order(&words("reindex")), KnowledgeOrder::Index));
    assert!(matches!(knowledge_order(&words("find wal")), KnowledgeOrder::Search(_)));
    assert!(matches!(knowledge_order(&words("search")), KnowledgeOrder::Say(_)));
}

#[test]
fn memories_read_the_same_everywhere() {
    let r = remember(Scope::Project, true, "fact", "wal", "keep it on", 60, "0123456789", 7).unwrap();
    assert_eq!(hit_line(&r, "0.50"), "0.50  0123456789  [project/fact] wal: keep it on");
    assert_eq!(memory_line(&r), "01234567  [project/fact] wal  (imp 60)\n    keep it on");
    assert_eq!(
        memory_detail(&r),
        "[project] wal (fact) importance=60 status=active\nkeep it on"
    );
    assert!(proposal_line(&r).ends_with("(/memory approve 0123456789 | /memory forget 0123456789)"));
    assert_eq!(distilled_line(&r, false), "already known: wal: keep it on");
    assert_eq!(resolved_id("01", IdMatch::Unique("0123".into())), Ok("0123".to_string()));
    assert_eq!(resolved_id("x", IdMatch::Unknown), Err("(no memory matching `x`)".to_string()));
    assert_eq!(
        resolved_id("0", IdMatch::Ambiguous(vec!["0123456789".into(), "0a".into()])),
        Err("`0` matches 2: 01234567, 0a".to_string())
    );
    let stats = IndexStats { files: 1, chunks: 2, skipped_unchanged: 3 };
    assert_eq!(index_line(stats, 4), "indexed 1 file(s) → 2 chunk(s) · 3 unchanged · 4 stale removed");
    let c = Chunk { source: "a.md".into(), ord: 2, text: "t".into() };
    assert_eq!(chunk_line(&c), "--- a.md (chunk 2)\nt\n");
}

fn worker(id: &str, status: WorkerStatus) -> WorkerSummary {
    WorkerSummary {
        id: id.into(),
        task: "fix it".into(),
        status,
        last: "first line\nsecond".into(),
        tool_calls: 3,
        changed: vec!["a.rs".into(), "b.rs".into()],
        result: String::new(),
        session_id: "s".into(),
        tokens: u64::MAX,
        nudges: 2,
        escalation: None,
        group: None,
        model: Some("p/m".into()),
        started: 0,
        finished: None,
        prompt_tokens: 0,
        check_passed: None,
    }
}

#[test]
fn workers_are_listed_and_shown() {
    let w = worker("w1", WorkerStatus::Running);
    assert_eq!(
        agent_line(&w),
        "w1 [running] 3 tools · 2 changed · 2 nudges · on p/m — fix it"
    );
    assert_eq!(
        agent_detail(&w),
        vec!["w1 [running]", "changed: a.rs, b.rs", "first line\nsecond"]
    );
    assert!(matches!(agents_order(&words("")), AgentsOrder::List));
    assert!(matches!(agents_order(&words("kill w1")), AgentsOrder::Kill(_)));
    assert!(matches!(agents_order(&words("kill")), AgentsOrder::Say(_)));
    assert!(matches!(agents_order(&words("clear-queue")), AgentsOrder::DropQueued));
    match agents_order(&words("nudge w1 look again")) {
        AgentsOrder::Nudge { id, message } => {
            assert_eq!((id.as_str(), message.as_str()), ("w1", "look again"));
        }
        other => panic!("{other:?}"),
    }
    match agents_order(&words("burn")) {
        AgentsOrder::Say(l) => assert_eq!(l.text, "unknown /agents subcommand: burn"),
        other => panic!("{other:?}"),
    }
}

#[test]
fn a_fan_out_is_combined_only_where_there_is_something_to_combine() {
    let done = || worker("w", WorkerStatus::Done);
    let failed = || {
        let mut w = worker("w", WorkerStatus::Failed);
        w.escalation = Some("token budget".to_string());
        w
    };
    match spawn_end(&vec![failed(), worker("v", WorkerStatus::Failed)], "r", false, true) {
        SpawnEnd::Failed(e) => assert_eq!(
            e,
            "all 2 workers failed; nothing to synthesize:\n  w [failed] token budget\n  v [failed] first line"
        ),
        other => panic!("{other:?}"),
    }
    assert!(matches!(spawn_end(&vec![done(), failed()], "r", false, true), SpawnEnd::Print));
    assert!(matches!(spawn_end(&vec![done(), done()], "r", true, true), SpawnEnd::Print));
    assert!(matches!(spawn_end(&vec![done(), done()], "r", false, false), SpawnEnd::Print));
    match spawn_end(&vec![done(), done()], "three articles", false, true) {
        SpawnEnd::Combine(q) => assert!(q.starts_with("Your 2 background workers") && q.contains("three articles")),
        other => panic!("{other:?}"),
    }
    assert_eq!(worker_tokens(&vec![done(), done()]), 2 * u64::MAX as u128);
    let tasks = file_tasks("proofread", &vec!["a.md".into(), "b.md".into()]);
    assert_eq!(tasks[1], "proofread\n\nYour assignment: b.md");
    assert_eq!(list_tasks(&tasks, false), vec!["  1. proofread", "  2. proofread"]);
    assert_eq!(list_tasks(&tasks, true)[0], "  1. proofread\n\nYour assignment: a.md");
    assert!(list_tasks(&vec!["one".into()], true).is_empty());
}

#[test]
fn events_are_shown_where_they_belong() {
    let e = Event::ToolResult {
        id: "1".into(),
        name: "ls".into(),
        ok: false,
        output: "one\ntwo\nthree".into(),
    };
    let a = render_activity(&e, true).unwrap();
    assert_eq!(a.text, "\x1b[2m  → error: one (+2 more lines)\x1b[0m");
    assert!(a.err && a.ends_line);
    assert!(!render_activity(&e, false).unwrap().err);
    assert!(render_activity(&Event::MessageDelta { text: "x".into() }, true).is_none());
    let d = render_activity(&Event::MessageDelta { text: "x".into() }, false).unwrap();
    assert_eq!((d.text.as_str(), d.ends_line), ("x", false));
    assert!(render_activity(&Event::ModelCallStarted, false).is_none());
    let v = Event::Validation { ok: true, detail: "a\nb".into() };
    assert_eq!(render_activity(&v, false).unwrap().text, "\x1b[32m✓ validation passed: a b\x1b[0m");
}

#[test]
fn mentioned_files_come_along() {
    assert_eq!(file_mentions("look at @src/a.rs and b@c @"), vec!["src/a.rs", ""]);
    let files = vec![("a".to_string(), Some("text".to_string())), ("b".to_string(), None)];
    assert_eq!(
        expand_file_mentions("see @a @b", &files),
        "see @a @b\n\n<file path=\"a\">\ntext\n</file>"
    );
    assert_eq!(expand_file_mentions("plain", &vec![]), "plain");
}

#[test]
fn what_the_caller_says_outranks_what_is_configured() {
    let some = |s: &str| Some(s.to_string());
    let on = Some(Thinking::On);
    let read = |s: &str, scaled| resolve_thinking(false, &some(s), on, scaled);
    assert_eq!(resolve_thinking(true, &some("on"), on, None), Ok(Some(Thinking::Off)));
    assert_eq!(resolve_thinking(false, &None, on, None), Ok(on));
    assert_eq!(read(" OFF ", None), Ok(Some(Thinking::Off)));
    assert_eq!(read("medium", None), Ok(Some(Thinking::Effort(Effort::Medium))));
    assert_eq!(read("2000", None), Ok(Some(Thinking::Budget(2000))));
    assert_eq!(thousands("1.5k").as_deref(), Some("1.5"));
    assert_eq!(thousands("1500"), None);
    assert_eq!(read("1.5k", Some(1500)), Ok(Some(Thinking::Budget(1500))));
    assert!(read("0", None).unwrap_err().contains("(got `0`)"));
    assert!(read("xk", None).is_err());
    assert!(matches!(session_choice(&some("s"), true), SessionChoice::Resume(_)));
    assert!(matches!(session_choice(&None, true), SessionChoice::Continue));
    assert!(matches!(session_choice(&None, false), SessionChoice::Create));
    assert_eq!(check_command(&some("a"), &some("b")).as_deref(), Some("a"));
    assert_eq!(check_command(&None, &some("b")).as_deref(), Some("b"));
}

#[test]
fn a_prompt_is_put_together_from_what_there_is() {
    assert_eq!(build_system_prompt(" \n", ""), BASE_SYSTEM_PROMPT);
    assert_eq!(
        build_system_prompt("be brief", "<SKILLS>"),
        format!("{BASE_SYSTEM_PROMPT}\n\nbe brief\n\n<SKILLS>")
    );
    assert_eq!(
        build_worker_prompt("", ""),
        format!("{BASE_SYSTEM_PROMPT}\n\n{WORKER_PREAMBLE}")
    );
    assert!(WORKER_PREAMBLE.ends_with("only what outlives this \
task."));
}

#[test]
fn an_empty_word_asks_for_the_default() {
    let empty = vec![String::new()];
    assert!(matches!(memory_order(&empty), MemoryOrder::List(None)));
    assert!(matches!(agents_order(&empty), AgentsOrder::List));
    assert!(matches!(knowledge_order(&empty), KnowledgeOrder::Status));
}
