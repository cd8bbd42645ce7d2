use worksmith::command::{Command, TurnOutcome, TurnResult};
use worksmith::llm::{Completion, ToolCall};
use worksmith::turn::{Phase, Turn, TurnSettings};

fn settings(validated: bool) -> TurnSettings {
    TurnSettings {
        model: "m".to_string(),
        max_steps: 3,
        max_retries: 1,
        stuck_threshold: 10,
        context_limit: 1_000_000,
        validated,
    }
}

fn said(text: &str) -> Completion {
    Completion { content: Some(text.to_string()), ..Completion::default() }
}

fn calling(name: &str) -> Completion {
    Completion {
        tool_calls: vec![ToolCall {
            id: "1".to_string(),
            name: name.to_string(),
            arguments: "{}".to_string(),
        }],
        ..Completion::default()
    }
}

fn finished(commands: &[Command]) -> Option<&TurnResult> {
    commands.iter().find_map(|c| match c {
        Command::Finish(r) => Some(r),
        _ => None,
    })
}

/// Bring a turn to its next model call.
fn to_call(t: &mut Turn) {
    assert_eq!(t.phase(), Phase::Polling);
    t.polled(false, vec![]);
    if t.phase() == Phase::Measuring {
        t.measured(10);
    }
    assert_eq!(t.phase(), Phase::Calling);
}

#[test]
fn a_turn_without_a_check_ends_with_the_models_answer() {
    let (mut t, first) = Turn::begin(settings(false), "do it");
    assert!(first.iter().any(|c| matches!(c, Command::Append(_))));
    to_call(&mut t);
    let out = t.answered(said("all done"));
    let r = finished(&out).expect("the turn is over");
    assert_eq!(r.text, "all done");
    assert_eq!(r.outcome, TurnOutcome::Done);
    assert!(r.outcome.is_success());
    assert_eq!(t.phase(), Phase::Over);
}

#[test]
fn a_turn_ends_on_a_passing_check_not_on_a_claim() {
    let (mut t, _) = Turn::begin(settings(true), "do it");
    to_call(&mut t);
    let out = t.answered(said("all done"));
    assert!(finished(&out).is_none(), "a claim is not enough");
    assert_eq!(t.phase(), Phase::Validating);
    let out = t.validated("make test", Some("two failures".to_string()));
    assert!(finished(&out).is_none(), "there is a retry left");
    to_call(&mut t);
    t.answered(said("now it is"));
    let out = t.validated("make test", Some("one failure".to_string()));
    let r = finished(&out).expect("retries are bounded");
    assert!(matches!(r.outcome, TurnOutcome::ValidationFailed(_)));
    assert!(r.outcome.label().starts_with("validation failed: "));

    let (mut t, _) = Turn::begin(settings(true), "do it");
    to_call(&mut t);
    t.answered(said("all done"));
    let out = t.validated("make test", None);
    assert_eq!(finished(&out).unwrap().outcome, TurnOutcome::Done);
}

#[test]
fn tools_run_until_the_steps_are_spent() {
    let (mut t, _) = Turn::begin(settings(false), "do it");
    let mut last = Vec::new();
    for step in 0..3 {
        to_call(&mut t);
        let out = t.answered(calling(&format!("tool{step}")));
        assert!(out.iter().any(|c| matches!(c, Command::RunTool { .. })));
        last = t.tool_done(true, false, "output".to_string());
    }
    if finished(&last).is_none() {
        last = t.polled(false, vec![]);
    }
    assert_eq!(finished(&last).unwrap().outcome, TurnOutcome::MaxSteps);
}

#[test]
fn a_fatal_refusal_a_cancellation_and_a_failure_end_a_turn() {
    let (mut t, _) = Turn::begin(settings(false), "do it");
    to_call(&mut t);
    t.answered(calling("bash"));
    let out = t.tool_done(false, true, "refused: rm -rf /".to_string());
    assert!(matches!(finished(&out).unwrap().outcome, TurnOutcome::Blocked(_)));

    let (mut t, _) = Turn::begin(settings(false), "do it");
    let out = t.polled(true, vec![]);
    assert_eq!(finished(&out).unwrap().outcome, TurnOutcome::Aborted);

    let (mut t, _) = Turn::begin(settings(false), "do it");
    to_call(&mut t);
    let out = t.failed("connection refused".to_string());
    assert!(out.iter().any(|c| matches!(c, Command::Fail(e) if e.contains("connection refused"))));
}

#[test]
fn what_was_posted_to_a_running_turn_reaches_the_model() {
    let (mut t, _) = Turn::begin(settings(false), "do it");
    let out = t.polled(false, vec!["look at b.rs".to_string()]);
    assert!(out.iter().any(|c| match c {
        Command::Append(m) => m.content.as_deref().unwrap_or("").contains("look at b.rs"),
        _ => false,
    }));
}

#[test]
fn a_long_history_is_summed_up_before_the_model_is_asked() {
    let (mut t, _) = Turn::begin(
        TurnSettings { context_limit: 100, ..settings(false) },
        "do it",
    );
    t.polled(false, vec![]);
    assert_eq!(t.phase(), Phase::Measuring);
    let out = t.measured(90);
    assert!(out.iter().any(|c| matches!(c, Command::Compact)));
    assert_eq!(t.phase(), Phase::Compacting);
    let out = t.compacted(Some("no summary".to_string()));
    assert!(!out.is_empty(), "a failed summary is said, and the turn goes on");
    assert_eq!(t.phase(), Phase::Calling);
}
