use worksmith::fanout::{
    assign, fallback_tasks, fanout_notice, parse_spawn, parse_subtasks, plan_fanout, spawn_notice,
    variant_task, FanOut,
};
use worksmith::worker::{FanOutReport, SpawnOutcome};

#[test]
fn until_takes_a_whole_shell_command() {
    // The bug: a single-token value made the check the literal `"cd` and
    // swallowed the rest of the command into the task, so the fan-out ran
    // unchecked and said nothing about it.
    let r = parse_spawn(
        r#"-n 3 --until "cd docs && zola check --skip-external-links" Write the docs"#,
        true,
    )
    .unwrap();
    assert_eq!(r.validate.as_deref(), Some("cd docs && zola check --skip-external-links"));
    assert_eq!(r.task, "Write the docs", "the task is not eaten by the flag");
    assert!(matches!(r.fanout, FanOut::Count(3)));
}

#[test]
fn quoting_is_optional_and_both_quotes_work() {
    let bare = parse_spawn("--until cargo do the thing", false).unwrap();
    assert_eq!(bare.validate.as_deref(), Some("cargo"));
    assert_eq!(bare.task, "do the thing");

    let single = parse_spawn("--until 'cargo test --all' do the thing", false).unwrap();
    assert_eq!(single.validate.as_deref(), Some("cargo test --all"));

    // Both flags quoted, in either order, with the task intact after.
    let both = parse_spawn(
        r#"--model "openrouter/qwen/qwen3.8-27b" --until "cargo test" fix it"#,
        false,
    )
    .unwrap();
    assert_eq!(both.model.as_deref(), Some("openrouter/qwen/qwen3.8-27b"));
    assert_eq!(both.validate.as_deref(), Some("cargo test"));
    assert_eq!(both.task, "fix it");
}

#[test]
fn an_unterminated_quote_is_a_parse_error_not_a_broken_command() {
    // Loudly and now, rather than as `bash: unexpected EOF` fifteen steps
    // deep in a worker, wearing the costume of a failing task.
    let Err(e) = parse_spawn(r#"--until "cargo test do the thing"#, false) else {
        panic!("an unterminated quote must not parse")
    };
    assert!(e.contains("unterminated"), "{e}");
    assert!(e.contains("--until"), "says which flag: {e}");
}

#[test]
fn a_check_that_bash_would_refuse_is_refused_here_too() {
    // A validation command runs unattended after every turn and every
    // retry, and cannot stop to ask — so parse time is the only moment a
    // refusal reaches the person who typed it.
    let Err(e) = parse_spawn(r#"--until "rm -rf /" do the thing"#, false) else {
        panic!("a refused command must not parse")
    };
    assert!(e.contains("refused"), "{e}");

    // And an ordinary check is untouched.
    assert!(parse_spawn(r#"--until "cargo test" go"#, false).is_ok());
}

#[test]
fn spawn_parses_flags_then_takes_the_rest_verbatim() {
    

    let r = parse_spawn("write 3 articles about sqlite", true).unwrap();
    assert!(matches!(r.fanout, FanOut::Auto));
    assert_eq!(r.task, "write 3 articles about sqlite");

    // fanout = "off" makes a bare /spawn a single worker.
    let r = parse_spawn("refactor the parser", false).unwrap();
    assert!(matches!(r.fanout, FanOut::Count(1)));

    let r = parse_spawn("-n 3 draft an intro", true).unwrap();
    assert!(matches!(r.fanout, FanOut::Count(3)));
    assert_eq!(r.task, "draft an intro");

    let r = parse_spawn("--each-files .*\\.md proofread this file", true).unwrap();
    match r.fanout {
        FanOut::Files(p) => assert_eq!(p, ".*\\.md"),
        _ => panic!("expected a file fan-out"),
    }
    assert_eq!(r.task, "proofread this file");

    // `--` ends the flags, so a task may start with a dash.
    let r = parse_spawn("-n 2 -- --write the changelog", true).unwrap();
    assert!(matches!(r.fanout, FanOut::Count(2)));
    assert_eq!(r.task, "--write the changelog");
}

#[test]
fn spawn_rejects_bad_input() {
    
    assert!(parse_spawn("", true).is_err(), "no task");
    assert!(parse_spawn("-n 3", true).is_err(), "flags but no task");
    assert!(parse_spawn("-n zero do it", true).is_err(), "non-numeric count");
    assert!(parse_spawn("-n 0 do it", true).is_err(), "count below 1");
    assert!(parse_spawn("--wat do it", true).is_err(), "unknown flag");
    assert!(
        parse_spawn("-n 2 --each-files x do it", true).is_err(),
        "-n and --each-files conflict"
    );
}

#[test]
fn assignment_is_appended_not_interpolated() {
    
    let t = assign("proofread this file", "docs/indexing.md");
    assert!(t.starts_with("proofread this file"), "original prose is preserved");
    assert!(t.ends_with("Your assignment: docs/indexing.md"));
    assert!(variant_task("draft an intro", 2, 3).contains("draft 2 of 3"));
}

#[test]
fn elided_and_degenerate_subtasks_are_refused() {
    // A planner answered with placeholders and three workers dutifully ran
    // them. The checks are about form only — nothing here may assume the
    // task is about newsletters, code, or anything else.
    let elided = "TASK: Read ... and write draft-1.md ...\n\
                  TASK: Read ... and write draft-2.md ...\n\
                  TASK: Read ... and write draft-3.md ...";
    assert!(
        parse_subtasks(elided, Some(3), 4).is_err(),
        "elided tasks must fall back, not spawn"
    );

    // Too short to be an instruction.
    assert!(parse_subtasks("TASK: do it\nTASK: go\nTASK: x", Some(3), 4).is_err());

    // N copies of one line is a planner that divided nothing.
    let dupes = "TASK: Summarize the quarterly figures\n\
                 TASK: Summarize the quarterly figures\n\
                 TASK: Summarize the quarterly figures";
    assert!(parse_subtasks(dupes, Some(3), 4).is_err(), "duplicates aren't a fan-out");

    // A mix keeps the good ones but can't satisfy an explicit -n 3.
    let mixed = "TASK: Audit the retry policy in the payments client\n\
                 TASK: ...\n\
                 TASK: Document the queue's backpressure behaviour";
    assert!(parse_subtasks(mixed, Some(3), 4).is_err());
    let kept = parse_subtasks(mixed, None, 4).unwrap();
    assert_eq!(kept.len(), 2, "auto mode uses what survived: {kept:?}");

    // And nothing above rejects an ordinary terse task.
    let fine = "TASK: Fix the failing test in parser.rs";
    assert_eq!(parse_subtasks(fine, Some(1), 4).unwrap().len(), 1);
}

#[test]
fn planner_reasoning_is_never_spawned_as_work() {
    // A local 27B answered the planner with its own deliberation, and every
    // line of it became a worker's task. Unmarked prose must be discarded.
    let text = "We need decide how to split. The request has: read the skill, write three \
                drafts, review and pick one.\n\
                Based on your description, here's the likely 3-task split:\n\
                TASK: Write a newsletter draft about logging\n\
                TASK: Write a newsletter draft about CI pipelines\n\
                TASK: Write a newsletter draft about caching\n\
                Let me know if you'd like me to adjust these.";
    let got = parse_subtasks(text, Some(3), 4).unwrap();
    assert_eq!(got.len(), 3, "only the marked lines: {got:?}");
    assert!(got[0].starts_with("Write a newsletter draft about logging"));
    assert!(
        !got.iter().any(|t| t.contains("We need decide")),
        "reasoning must not become a task: {got:?}"
    );

    // Nothing marked at all is a failure, not an excuse to invent tasks.
    let err = parse_subtasks("Here are three ideas:\n1. logging\n2. CI\n3. caching", Some(3), 4);
    assert!(err.is_err(), "unmarked prose is unusable, got {err:?}");
}

#[test]
fn task_markers_survive_the_formatting_models_add() {
    let want = "run the whole test suite";
    for line in [
        "TASK: run the whole test suite",
        "task: run the whole test suite",
        "- TASK: run the whole test suite",
        "2. TASK: run the whole test suite",
        "**TASK:** run the whole test suite",
        "**TASK**: run the whole test suite",
        "3. **TASK**: run the whole test suite",
        "`TASK:` run the whole test suite",
    ] {
        let got = parse_subtasks(line, Some(1), 4).unwrap();
        assert_eq!(got, vec![want.to_string()], "failed on {line:?}");
    }
}

#[test]
fn subtasks_parse_out_of_list_formatting() {
    
    let text = "1. TASK: write about WAL\n2) TASK: write about FTS5\n- TASK: write about JSON1\n\n";
    let got = parse_subtasks(text, Some(3), 4).unwrap();
    assert_eq!(got, vec!["write about WAL", "write about FTS5", "write about JSON1"]);

    // Auto mode clamps to the worker cap.
    let many =
        (1..=9).map(|i| format!("TASK: investigate subsystem {i}")).collect::<Vec<_>>().join("\n");
    assert_eq!(parse_subtasks(&many, None, 4).unwrap().len(), 4);

    // One line back from auto mode is a normal single spawn.
    assert_eq!(parse_subtasks("TASK: just run the linter", None, 4).unwrap().len(), 1);

    // Explicit -n that the planner under-delivered on is unusable.
    assert!(parse_subtasks("TASK: only one instruction here", Some(3), 4).is_err());
    assert!(parse_subtasks("   \n\n", None, 4).is_err(), "nothing usable");
}

#[test]
fn fallback_honours_an_explicit_count() {
    
    // Planner unreachable + `-n 3` → three variants, not a dropped request.
    let tasks = fallback_tasks("draft an intro", 3, true);
    assert_eq!(tasks.len(), 3);
    assert!(tasks[0].contains("draft 1 of 3"));
    // Auto mode falls back to a single worker with the original text.
    assert_eq!(fallback_tasks("refactor the parser", 4, false), vec!["refactor the parser"]);
}

#[test]
fn a_planner_that_answers_nothing_usable_costs_no_request() {
    let plan = plan_fanout("draft an intro", Some(3), 4, Err("no route to host".to_string()));
    assert_eq!(plan.tasks.len(), 3);
    assert!(plan.note.contains("no route to host"), "{}", plan.note);
    let plan = plan_fanout("draft an intro", None, 4, Ok("I would rather not.".to_string()));
    assert_eq!(plan.tasks, vec!["draft an intro".to_string()]);
    let plan = plan_fanout(
        "two things",
        None,
        4,
        Ok("TASK: look into the first thing\nTASK: look into the second thing".to_string()),
    );
    assert_eq!(plan.tasks.len(), 2);
    assert_eq!(plan.note, "planner chose to split this into 2 task(s)");
}

#[test]
fn notices_say_what_was_started_and_what_waits() {
    let s = spawn_notice(&SpawnOutcome::Started("w1".to_string()), "fix it");
    assert!(s.contains("w1"), "{s}");
    let q = spawn_notice(&SpawnOutcome::Queued(2), "fix it");
    assert!(q.contains('2'), "{q}");
    let n = fanout_notice(&FanOutReport { started: vec!["w1".into(), "w2".into()], queued: 1 });
    assert!(n.contains("w1") && n.contains("w2") && n.contains('1'), "{n}");
}
