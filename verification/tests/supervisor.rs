use worksmith::event::Event;
use worksmith::supervisor::{Action, Mode, Supervisor, SupervisorConfig};

fn call(args: &str) -> Event {
    Event::ToolCall {
        id: "c".into(),
        name: "grep".into(),
        arguments: args.into(),
    }
}

fn sup(cfg: SupervisorConfig) -> Supervisor {
    Supervisor::new(cfg)
}

#[test]
fn a_long_running_tool_is_not_mistaken_for_a_stuck_worker() {
    // Measured on this repo: `cargo test` after an edit takes 6m42s, while
    // the supervisor's patience is idle_timeout x (max_nudges + 1) = 360s.
    // It stopped a worker forty seconds before that worker's own check
    // would have proved it succeeded — and well inside the 600s
    // bash-timeout-secs that was already bounding the command.
    //
    // The same reasoning the model path already carries: a nudge lands at
    // the top of the *next* step, so one aimed at a running tool arrives
    // after the tool finishes. All it can do is spend the budget.
    let mut s = sup(SupervisorConfig {
        idle_timeout: 120,
        request_timeout: 600,
        max_nudges: 2,
        ..Default::default()
    });
    assert_eq!(
        s.observe(&Event::ToolCall {
            id: "c".into(),
            name: "bash".into(),
            arguments: r#"{"command":"cargo test"}"#.into(),
        }),
        None
    );

    // Four idle ticks — past what used to be the whole budget — and it has
    // neither nudged nor stopped, because a tool is running.
    for tick in 1..=4 {
        assert_eq!(s.on_idle(), None, "intervened on tick {tick} while a tool was running");
    }
    assert_eq!(s.nudges(), 0, "a running tool must not cost a nudge");

    // The result arrives and ordinary supervision resumes.
    s.observe(&Event::ToolResult {
        id: "c".into(),
        name: "bash".into(),
        ok: true,
        output: "test result: ok".into(),
    });
    assert!(matches!(s.on_idle(), Some(Action::Nudge(_))), "silence after a tool is still idle");
}

#[test]
fn a_tool_with_no_timeout_of_its_own_is_still_caught() {
    // Deferring to the tool layer is right for a slow tool and wrong for a
    // hung one, so the escape hatch stays — just far enough out that it
    // cannot fire on anything legitimate.
    let mut s = sup(SupervisorConfig {
        idle_timeout: 120,
        request_timeout: 600,
        ..Default::default()
    });
    s.observe(&Event::ToolCall {
        id: "c".into(),
        name: "bash".into(),
        arguments: "{}".into(),
    });
    for _ in 1..5 {
        assert_eq!(s.on_idle(), None);
    }
    match s.on_idle() {
        Some(Action::Escalate(why)) => assert!(why.contains("bash"), "{why}"),
        other => panic!("a tool running past the request timeout must escalate: {other:?}"),
    }
}

#[test]
fn repeated_identical_calls_nudge_once() {
    let mut s = sup(SupervisorConfig { repeat_threshold: 3, ..Default::default() });
    assert_eq!(s.observe(&call("{}")), None);
    assert_eq!(s.observe(&call("{}")), None);
    assert!(matches!(s.observe(&call("{}")), Some(Action::Nudge(_))));
    // Same signature again: already flagged, no second nudge.
    assert_eq!(s.observe(&call("{}")), None);
    assert_eq!(s.nudges(), 1);
    // A different signature is tracked separately.
    assert_eq!(s.observe(&call(r#"{"q":"x"}"#)), None);
}

#[test]
fn nudges_are_bounded_then_escalate() {
    let mut s = sup(SupervisorConfig { max_nudges: 2, ..Default::default() });
    assert!(matches!(s.on_idle(), Some(Action::Nudge(_))));
    assert!(matches!(s.on_idle(), Some(Action::Nudge(_))));
    assert!(matches!(s.on_idle(), Some(Action::Escalate(_))));
    assert_eq!(s.nudges(), 2, "escalation is not a nudge");
}

#[test]
fn token_budget_escalates() {
    let mut s = sup(SupervisorConfig { token_budget: Some(100), ..Default::default() });
    let usage = |n| Event::Usage {
        reasoning_tokens: 0,
        finish_reason: None,
        prompt_tokens: 0,
        completion_tokens: n,
        total_tokens: n,
    };
    assert_eq!(s.observe(&usage(60)), None);
    match s.observe(&usage(60)) {
        Some(Action::Escalate(r)) => assert!(r.contains("120"), "reason should show spend: {r}"),
        other => panic!("expected escalation, got {other:?}"),
    }
}

#[test]
fn explicit_block_nudges_once() {
    let mut s = sup(SupervisorConfig::default());
    let msg = |t: &str| Event::AssistantMessage { text: t.into() };
    assert_eq!(s.observe(&msg("working on it")), None);
    assert!(matches!(s.observe(&msg("I'm blocked: which file?")), Some(Action::Nudge(_))));
    assert_eq!(s.observe(&msg("I am blocked again")), None, "flagged only once");
}

#[test]
fn off_mode_never_acts() {
    let mut s = sup(SupervisorConfig { mode: Mode::Off, ..Default::default() });
    for _ in 0..10 {
        assert_eq!(s.observe(&call("{}")), None);
    }
    assert_eq!(s.on_idle(), None);
}

#[test]
fn mode_parsing() {
    assert_eq!(Mode::parse("off"), Mode::Off);
    assert_eq!(Mode::parse("Rules"), Mode::Rules);
    // The model observer isn't built yet — it degrades to rules.
    assert_eq!(Mode::parse("model"), Mode::Rules);
}

#[test]
fn waiting_for_a_model_is_not_being_stuck() {
    let mut s = sup(SupervisorConfig {
        idle_timeout: 120,
        request_timeout: 600,
        max_nudges: 2,
        ..Default::default()
    });
    assert_eq!(s.observe(&Event::ModelCallStarted), None);
    for _ in 1..5 {
        assert_eq!(s.on_idle(), None);
    }
    assert_eq!(s.nudges(), 0);
    assert_eq!(s.observe(&Event::ModelCallFinished), None);
    assert!(matches!(s.on_idle(), Some(Action::Nudge(_))));
}

#[test]
fn a_check_that_keeps_failing_is_stepped_in_about() {
    let check = |ok| Event::Validation { ok, detail: "cargo test".to_string() };
    let mut s = sup(SupervisorConfig { stuck_check_threshold: Some(2), ..Default::default() });
    assert_eq!(s.observe(&check(false)), None);
    assert_eq!(s.observe(&check(true)), None, "a pass starts over");
    assert_eq!(s.observe(&check(false)), None);
    match s.observe(&check(false)) {
        Some(Action::Nudge(m)) => assert!(m.contains("failed 2 times in a row"), "{m}"),
        other => panic!("{other:?}"),
    }
    assert_eq!(s.observe(&check(false)), None, "the count starts over");
    // Unless it is asked for, failing checks are the turn's own business.
    let mut quiet = sup(SupervisorConfig::default());
    for _ in 0..20 {
        assert_eq!(quiet.observe(&check(false)), None);
    }
}
