use worksmith::report::{
    common_opening, group_report, record_in_group, single_report, truncate, truncate_chars,
    worker_block, worker_headline, GroupAcc, WORKER_REPORT_LIMIT,
};
use worksmith::worker::{WorkerStatus, WorkerSummary};

// ---- fan-out task display ----

#[test]
fn a_shared_opening_is_said_once_instead_of_truncating_every_task() {
    // The real case: two genuinely different tasks that looked identical on
    // screen because the first 55 characters matched and the line was cut
    // at 100. The split was fine; the display made it look broken.
    let tasks = vec![
        "Read CONVENTIONS.md and DOCS_PLAN.md, then draft an outline for a \"Getting Started\" section".to_string(),
        "Read CONVENTIONS.md and DOCS_PLAN.md, then draft an outline for a \"Why This Harness\" section".to_string(),
    ];
    let (shared, tails) = common_opening(&tasks).expect("a long shared opening");
    assert_eq!(shared, "Read CONVENTIONS.md and DOCS_PLAN.md, then draft an outline for a");
    assert_eq!(tails[0], "\"Getting Started\" section");
    assert_eq!(tails[1], "\"Why This Harness\" section");
}

#[test]
fn nothing_is_hoisted_when_there_is_little_or_nothing_in_common() {
    let distinct = vec!["Update the README".to_string(), "Refactor the parser".to_string()];
    assert!(common_opening(&distinct).is_none(), "no shared opening");

    // Shared but too short to be what is crowding the line out.
    let short = vec!["Fix the parser bug".to_string(), "Fix the render bug".to_string()];
    assert!(common_opening(&short).is_none());

    let one = vec!["Only one task here, nothing to compare it against".to_string()];
    assert!(common_opening(&one).is_none());
}

#[test]
fn the_shared_part_is_cut_on_a_word_boundary() {
    // "Draft the intro" / "Draft the index" share "Draft the in" — hoisting
    // mid-word would leave "tro" and "dex".
    let tasks = vec![
        "Read the plan and then draft the introduction section".to_string(),
        "Read the plan and then draft the index section".to_string(),
    ];
    let (shared, tails) = common_opening(&tasks).unwrap();
    assert!(shared.ends_with("draft the"), "cut mid-word: {shared}");
    assert_eq!(tails[0], "introduction section");
    assert_eq!(tails[1], "index section");
}

#[test]
fn multibyte_openings_do_not_split_a_character() {
    let tasks = vec![
        "文档を読んでから、序章の概要を作成する".to_string(),
        "文档を読んでから、目次の概要を作成する".to_string(),
    ];
    // No panic, and whatever comes back reassembles.
    if let Some((shared, tails)) = common_opening(&tasks) {
        assert!(tasks[0].starts_with(&shared) || shared.is_empty());
        assert!(!tails[0].is_empty());
    }
}

// ---- group accumulation ----

#[test]
fn a_group_whose_queued_members_were_dropped_still_completes() {
    // The hang: fan out 5 with a cap of 3, the first worker finishes (so
    // the group is created expecting 5), then `/agents drop-queued`
    // removes the two still waiting. The remaining two finish, and the
    // group sat at 3-of-5 forever — no report, no synthesis, no error.
    let mut groups: Vec<GroupAcc> = Vec::new();

    assert!(record_in_group(&mut groups, 1, "req", 5, summary("w1", "t", "r")).is_none());
    assert!(record_in_group(&mut groups, 1, "req", 3, summary("w2", "t", "r")).is_none());

    let done = record_in_group(&mut groups, 1, "req", 3, summary("w3", "t", "r"))
        .expect("the lowered count must complete the group");
    assert_eq!(done.done.len(), 3);
    assert!(groups.is_empty(), "a completed group is removed");
}

#[test]
fn a_count_that_drops_below_what_already_reported_still_completes() {
    // `>=` rather than `==`: if the count falls under the number already
    // in hand, an equality check would sail straight past it.
    let mut groups: Vec<GroupAcc> = Vec::new();
    record_in_group(&mut groups, 1, "req", 4, summary("w1", "t", "r"));
    record_in_group(&mut groups, 1, "req", 4, summary("w2", "t", "r"));
    assert!(
        record_in_group(&mut groups, 1, "req", 2, summary("w3", "t", "r")).is_some(),
        "3 reported against a lowered total of 2 must still finish"
    );
}

#[test]
fn groups_accumulate_independently() {
    let mut groups: Vec<GroupAcc> = Vec::new();
    assert!(record_in_group(&mut groups, 1, "a", 2, summary("w1", "t", "r")).is_none());
    assert!(record_in_group(&mut groups, 2, "b", 1, summary("w2", "t", "r")).is_some());
    assert_eq!(groups.len(), 1, "group 1 is untouched by group 2 completing");
    assert!(record_in_group(&mut groups, 1, "a", 2, summary("w3", "t", "r")).is_some());
}

// ---- worker results reaching the parent ----

fn summary(id: &str, task: &str, result: &str) -> WorkerSummary {
    WorkerSummary {
        id: id.into(),
        task: task.into(),
        status: WorkerStatus::Done,
        last: "done".into(),
        tool_calls: 3,
        changed: vec!["notes.md".into()],
        result: result.into(),
        session_id: "s".into(),
        tokens: 0,
        nudges: 0,
        escalation: None,
        group: Some(1),
        model: None,
        started: 0,
        finished: None,
        prompt_tokens: 0,
        check_passed: None,
    }
}

#[test]
fn a_group_report_carries_every_worker_to_the_parent() {
    
    let acc = GroupAcc {
        group: 1,
        request: "3 articles on sqlite".into(),
        total: 3,
        done: vec![
            summary("w1", "write about WAL", "WAL article done"),
            summary("w2", "write about FTS5", "FTS5 article done"),
            summary("w3", "write about JSON1", "JSON1 article done"),
        ],
    };
    let report = group_report(&acc);
    assert!(report.contains("3 articles on sqlite"), "the original ask is restated");
    for needle in ["w1", "w2", "w3", "WAL article done", "FTS5 article done", "JSON1 article done"] {
        assert!(report.contains(needle), "missing {needle} in:\n{report}");
    }
    assert!(report.contains("notes.md"), "changed files are reported");
}

#[test]
fn a_verbose_worker_cannot_blow_the_parent_context() {
    
    let huge = "x".repeat(WORKER_REPORT_LIMIT * 3);
    let block = worker_block(&summary("w1", "dump everything", &huge));
    assert!(block.chars().count() < WORKER_REPORT_LIMIT + 200, "result must be capped");
    assert!(block.contains("truncated"));
}

#[test]
fn an_empty_result_is_flagged_but_honest_work_is_not() {
    // Only the combination counts. Nothing here may assume what the work
    // was — a research worker that changes no files is doing its job.
    let mut w = summary("w1", "write draft-1.md", "");
    w.changed.clear();
    w.tool_calls = 1;
    assert!(w.did_nothing(), "no files, no text");

    // The case the first version missed: plenty of reading, nothing to
    // show for it. Effort is not output.
    let mut busy = summary("w5", "write draft-2.md", "");
    busy.changed.clear();
    busy.tool_calls = 6;
    assert!(busy.did_nothing(), "read six files, wrote nothing, said nothing");
    assert!(single_report(&w).contains("WARNING"), "the parent must be told");
    assert!(worker_headline(&w).contains("produced nothing"));

    // Answering a question changes no files and is perfectly good work.
    let mut research = summary("w2", "where is retry configured?", &"x".repeat(400));
    research.changed.clear();
    research.tool_calls = 6;
    assert!(!research.did_nothing(), "investigation is work");
    assert!(!single_report(&research).contains("WARNING"));

    // A one-line answer after real searching is still work. Only
    // near-silence counts as nothing.
    let mut terse =
    summary("w3", "does the parser handle CRLF?", "Yes — parser.rs:88 handles CRLF explicitly.");
    terse.changed.clear();
    terse.tool_calls = 5;
    assert!(!terse.did_nothing(), "few words, but it looked");

    // And a worker that wrote a file is never flagged, however quiet.
    let mut wrote = summary("w4", "create the changelog", "");
    wrote.tool_calls = 1;
    assert!(!wrote.did_nothing(), "it changed a file");
}

#[test]
fn a_stopped_worker_reports_why() {
    
    let mut w = summary("w1", "spin", "");
    w.status = WorkerStatus::Stopped;
    w.escalation = Some("token budget exceeded".into());
    let report = single_report(&w);
    assert!(report.contains("stopped by supervisor: token budget exceeded"));
    // With no result text, the last-known line stands in.
    assert!(report.contains("done"));
}

fn worker() -> WorkerSummary {
    WorkerSummary {
        id: "w1".into(),
        task: "fix /pair".into(),
        status: WorkerStatus::Stopped,
        last: "✓ validated".into(),
        tool_calls: 7,
        changed: vec!["src/tui.rs".into()],
        result: "Modified the /pair command handler.".into(),
        session_id: "s".into(),
        tokens: 100,
        prompt_tokens: 900,
        nudges: 2,
        escalation: Some("still off track after 2 nudges".into()),
        group: None,
        model: None,
        check_passed: Some(true),
        started: 1_000_000_000,
        finished: Some(493_000_000_000),
    }
}

/// The exact line that prompted this: a worker that passed its check,
/// announced as "stopped · supervisor stopped it", with the pass nowhere on
/// screen and nothing saying what to do next.
#[test]
fn a_finished_worker_leads_with_whether_its_check_passed() {
    let h = worker_headline(&worker());
    assert!(h.contains("check passed"), "the deciding fact is present: {h}");
    assert!(h.starts_with('✓'), "and the glyph follows the check, not the status: {h}");
    assert!(h.contains("8m12s"), "how long ago it ran: {h}");
    assert!(h.contains("git diff src/tui.rs"), "what to do about it: {h}");
    assert!(h.contains("/agents show w1"), "where the full result is: {h}");
    // The supervisor's own account survives — it is still true, just no
    // longer the headline.
    assert!(h.contains("still off track"), "{h}");
}

#[test]
fn a_failing_check_says_so_loudly_and_offers_the_tail() {
    let mut w = worker();
    w.check_passed = Some(false);
    w.escalation = None;
    let h = worker_headline(&w);
    assert!(h.contains("CHECK FAILED"), "{h}");
    assert!(h.starts_with('✗'), "{h}");
    assert!(h.contains("/agents tail w1"), "a failure wants the transcript: {h}");
}

/// No `--until` means no verdict to report, and the line must not invent
/// one — "done" without a check is a much weaker claim.
#[test]
fn a_worker_with_no_check_claims_nothing_about_one() {
    let mut w = worker();
    w.check_passed = None;
    w.status = WorkerStatus::Done;
    w.escalation = None;
    let h = worker_headline(&w);
    assert!(!h.contains("check"), "{h}");
    assert!(h.starts_with('✓'), "{h}");
}

#[test]
fn a_cut_is_always_visible() {
    assert_eq!(truncate("one\ntwo", 20), "one two");
    assert_eq!(truncate("abcdef", 3), "abc…");
    assert_eq!(truncate_chars("abcdef", 6), "abcdef");
    assert_eq!(truncate_chars("abcdef", 3), "abc\n[…truncated]");
}
