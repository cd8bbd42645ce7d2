use worksmith::json::Json;
use worksmith::tools::approval::Approval;
use worksmith::tools::bash::{apply_decision, BashStep, BashTool};
use worksmith::tools::builtin::advert;
use worksmith::tools::doc::{
    parse_pages, plan_conversion, plan_extraction, plan_info, plan_office, plan_text,
    report_conversion, report_extraction, show_info, show_text, slice_lines, Conversion, DocAction,
    DocTool, EngineResult, EngineRuns, TextSource,
};
use worksmith::tools::edit::{collect_ops, EditTool};
use worksmith::tools::policy::Decision;
use worksmith::tools::read::ReadTool;
use worksmith::tools::search::{
    matching_files, pattern_problem, skipped_dir, FindTool, LsTool, Search,
};
use worksmith::tools::write::{count_changes, show_diff, unified_diff, Change, WriteTool};
use worksmith::tools::{resolve_path, unknown_tool, ToolContext, ToolRegistry};

fn args(s: &str) -> Json {
    Json::parse(s).unwrap()
}

fn ctx() -> ToolContext {
    ToolContext {
        cwd: "/w".to_string(),
        session_id: "s".to_string(),
        bash_timeout: 120,
        is_worker: false,
    }
}

#[test]
fn the_built_in_tools_are_advertised_in_order() {
    let r = ToolRegistry::with_builtins();
    assert_eq!(
        r.names(),
        vec!["read", "write", "edit", "bash", "grep", "find", "ls", "doc", "memory", "knowledge", "web"]
    );
    for name in r.names() {
        let a = advert(&name).unwrap();
        assert_eq!(a.name, name);
        let p = Json::parse(a.parameters).expect("the schema is JSON");
        assert_eq!(p.get("type").and_then(|t| t.as_str()), Some("object"));
        assert!(!a.description.is_empty());
    }
    assert!(advert("skill").is_some() && advert("checkpoint").is_some());
    assert!(advert("deploy").is_none());
    let mut again = ToolRegistry::with_builtins();
    again.register("read");
    again.register("extra");
    assert_eq!(again.names().len(), 12);
    assert!(again.has_tool("extra"));
    assert_eq!(unknown_tool("deploy").content, "unknown tool: deploy");
    assert_eq!(resolve_path(&ctx(), "a/b"), "/w/a/b");
    assert_eq!(resolve_path(&ctx(), "/a"), "/a");
}

#[test]
fn a_command_runs_only_where_the_policy_and_the_user_allow_it() {
    match BashTool::request(&args(r#"{"command": "cargo test"}"#)) {
        BashStep::Run(c) => assert_eq!(c, "cargo test"),
        other => panic!("{other:?}"),
    }
    match BashTool::request(&args(r#"{"command": "rm -rf /"}"#)) {
        BashStep::Reply(o) => assert!(o.fatal && o.is_error),
        other => panic!("{other:?}"),
    }
    assert!(matches!(BashTool::request(&args("{}")), BashStep::Reply(_)));
    let (command, reason) = match BashTool::request(&args(r#"{"command": "git push"}"#)) {
        BashStep::Ask { command, reason } => (command, reason),
        other => panic!("{other:?}"),
    };
    assert!(matches!(BashTool::answered(&command, &reason, Approval::Once), BashStep::Run(_)));
    assert!(matches!(BashTool::answered(&command, &reason, Approval::Deny), BashStep::Reply(_)));
    assert!(matches!(apply_decision("x", Decision::Allow), BashStep::Run(_)));
    assert_eq!(BashTool::timeout(&args("{}"), &ctx()), 120);
    assert_eq!(BashTool::timeout(&args(r#"{"timeout_secs": 5}"#), &ctx()), 5);
    assert!(BashTool::timed_out(5).is_error);
    assert!(BashTool::cancelled().is_error);
    let ok = BashTool::report(Some(0), "out", "err");
    assert!(!ok.is_error && ok.content.contains("out") && ok.content.contains("err"));
    assert!(BashTool::report(Some(3), "", "").is_error);
    assert!(BashTool::report(None, "", "").is_error);
}

#[test]
fn a_slice_of_a_file_keeps_its_line_numbers() {
    let text = "one\ntwo\nthree\n";
    assert_eq!(
        ReadTool::show(text, &args(r#"{"offset": 2, "limit": 1}"#)).content,
        "     2\ttwo\n"
    );
    assert_eq!(ReadTool::show(text, &args("{}")).content.lines().count(), 3);
    assert_eq!(
        ReadTool::show(text, &args(r#"{"offset": 9}"#)).content,
        "(no lines in range or empty file)"
    );
}

#[test]
fn a_write_shows_what_it_changed() {
    let d = unified_diff("x", "a\nb\n", "a\nc\n");
    assert!(d.starts_with("x (+1 -1)\n--- before\n+++ after\n"), "{d}");
    assert!(d.contains("-b\n+c\n"), "{d}");
    assert_eq!(unified_diff("x", "a\n", "a\n"), "x (+0 -0) — no changes");
    let cs = vec![Change::Equal, Change::Insert, Change::Insert, Change::Delete];
    assert_eq!(count_changes(&cs, Change::Insert), 2);
    assert_eq!(show_diff("l", &cs, "body"), "l (+2 -1)\nbody");
    assert!(!WriteTool::report(false, "a.txt", "", "new\n").is_error);
}

#[test]
fn edits_are_unique_and_all_or_nothing() {
    let ops = |s: &str| collect_ops(&args(s)).unwrap();
    let one = ops(r#"{"old_string": "b", "new_string": "x"}"#);
    assert_eq!(EditTool::apply("a b c", &one, "f"), Ok(("a x c".to_string(), 1)));
    assert!(EditTool::apply("b b", &one, "f").is_err(), "ambiguous");
    assert!(EditTool::apply("c", &one, "f").is_err(), "not there");
    let all = ops(r#"{"old_string": "b", "new_string": "x", "replace_all": true}"#);
    assert_eq!(EditTool::apply("b b", &all, "f"), Ok(("x x".to_string(), 2)));
    let two = ops(
        r#"{"edits": [{"old_string": "a", "new_string": "1"}, {"old_string": "z", "new_string": "2"}]}"#,
    );
    assert!(EditTool::apply("a b", &two, "f").is_err(), "the second fails, so nothing is written");
    let refused = |s: &str| EditTool::request(&args(s)).unwrap_err().content;
    assert_eq!(refused("{}"), "missing required argument: path");
    assert!(refused(r#"{"path": "f"}"#).starts_with("no edits provided"));
    assert_eq!(
        refused(r#"{"path": "f", "edits": [{"new_string": "a"}]}"#),
        "edits[0]: missing old_string"
    );
    let (path, got) =
        EditTool::request(&args(r#"{"path": "f", "old_string": "a", "new_string": "b"}"#)).unwrap();
    assert_eq!((path.as_str(), got.len()), ("f", 1));
    assert!(EditTool::report(1, 2, "f").content.contains('2'));
}

#[test]
fn documents_are_read_by_the_engine_that_can() {
    assert_eq!(parse_pages(Some("1-5")), Some((1, 5)));
    assert_eq!(parse_pages(Some("3")), Some((3, 3)));
    assert_eq!(parse_pages(Some("x")), None);
    assert_eq!(parse_pages(None), None);
    match plan_text("/a.pdf", "pdf", Some((2, 3)), "markdown") {
        TextSource::Engines(jobs) => {
            assert_eq!(jobs[0].engine, "pdftotext");
            assert_eq!(jobs[0].args, vec!["-layout", "-f", "2", "-l", "3", "/a.pdf", "-"]);
            assert_eq!(jobs[1].args, vec!["draw", "-F", "text", "/a.pdf", "2-3"]);
        }
        other => panic!("{other:?}"),
    }
    assert!(matches!(plan_text("/a.md", "md", None, "text"), TextSource::Plain));
    match plan_conversion("pdf", "txt", "/a.pdf", "/a.txt") {
        Conversion::Engine(j) => assert_eq!(j.args, vec!["-layout", "/a.pdf", "/a.txt"]),
        other => panic!("{other:?}"),
    }
    assert!(matches!(plan_conversion("pdf", "docx", "/a", "/b"), Conversion::Refused(_)));
    assert!(matches!(plan_conversion("md", "pdf", "/a", "/b"), Conversion::Office(_)));
    let (job, made) = plan_office("/in/a.docx", "/out/b.pdf");
    assert_eq!(job.args[3..], ["--outdir", "/out", "/in/a.docx"]);
    assert_eq!(made, "/out/a.pdf");
    assert_eq!(plan_info("pdf", "/a.pdf").unwrap().len(), 2);
    assert!(plan_info("md", "/a.md").is_none());
    assert_eq!(show_info("/a.md", 9, "md").content, "/a.md\nsize: 9 bytes\ntype: .md");
    let jobs = plan_extraction("pdf", "/a.pdf", "/img", None).unwrap();
    assert_eq!(jobs[1].args, vec!["-png", "/a.pdf", "/img/page"]);
    let jobs = plan_extraction("pdf", "/a.pdf", "/img", Some((2, 3))).unwrap();
    assert_eq!(jobs[0].args, vec!["-all", "-f", "2", "-l", "3", "/a.pdf", "/img/img"]);
    assert_eq!(
        plan_extraction("md", "/a", "/b", None).unwrap_err(),
        "extract currently supports PDF input only"
    );
    let mut runs = EngineRuns::new();
    assert!(runs.ran("pandoc", EngineResult::Missing).is_none());
    let broken =
        EngineResult::Exited { code: 2, stdout: String::new(), stderr: " bad \n".to_string() };
    assert!(runs.ran("pdftotext", broken).is_none());
    assert!(runs.ran("mutool", EngineResult::Failed("timed out".to_string())).is_none());
    let said = runs.failed();
    assert!(said.contains("`pandoc` not found — install: brew install pandoc"), "{said}");
    assert!(said.contains("`pdftotext` exited 2: bad"), "{said}");
    let fine = EngineResult::Exited { code: 0, stdout: "text".to_string(), stderr: String::new() };
    assert_eq!(runs.ran("pdftotext", fine).as_deref(), Some("text"));
    assert!(report_conversion(Ok(String::new()), false, "/a", "/b").is_error);
    assert_eq!(report_conversion(Ok(String::new()), true, "/a", "/b").content, "converted /a → /b");
    assert!(report_extraction("/a", "/d", &vec![]).content.starts_with("no images found"));
    assert!(matches!(DocTool::action(&args(r#"{"action": "create"}"#)), Ok(DocAction::Convert)));
    assert!(DocTool::action(&args(r#"{"action": "burn"}"#)).is_err());
    assert!(DocTool::action(&args("{}")).is_err());
    let first = slice_lines("a\nb\nc", 1, Some(2));
    let rest = slice_lines("a\nb\nc", 3, Some(2));
    assert_eq!(first, "[lines 1-2 of 3 — pass offset/limit to read more]\na\nb");
    assert_eq!(rest, "[lines 3-3 of 3 — pass offset/limit to read more]\nc");
    assert!(show_text("a\nb\nc", &args(r#"{"limit": 1}"#)).content.ends_with("\na"));
}

#[test]
fn searches_are_bounded_and_say_what_is_wrong() {
    let mut s = Search::new();
    s.grep("b+", "f.txt", "abc\nxyz\nbb\n").unwrap();
    assert_eq!(s.report().content, "f.txt:1:abc\nf.txt:3:bb\n");
    assert!(s.grep("(", "f.txt", "x").is_err());
    assert!(pattern_problem("(").unwrap().starts_with("invalid regex: "));
    assert!(pattern_problem("b+").is_none());
    assert!(!s.is_full());
    let many = "hit\n".repeat(10_000);
    s.grep("hit", "g.txt", &many).unwrap();
    assert!(s.is_full());
    let names = vec!["a.md".to_string(), "b.rs".to_string()];
    let shown = vec!["docs/a.md".to_string(), "src/b.rs".to_string()];
    assert_eq!(FindTool::find(r"\.md$", &names, &shown).content.trim_end(), "docs/a.md");
    assert!(FindTool::find("(", &names, &shown).is_error);
    assert_eq!(matching_files(r"\.rs$", &names, &shown), Ok(vec!["src/b.rs".to_string()]));
    assert!(matching_files("(", &names, &shown).is_err());
    assert!(skipped_dir(".git") && skipped_dir("node_modules") && !skipped_dir("src"));
    let listed = LsTool::list(&vec![("b".to_string(), false), ("a".to_string(), true)]);
    assert!(listed.content.contains("a/") && listed.content.contains('b'));
}
