use worksmith::json::Json;
use worksmith::tools::checkpoint::{
    decision_body, decision_file, filed_note, next_number, CheckpointStep, CheckpointTool,
    CHECKPOINTS_PER_TURN,
};

fn args(kind: &str) -> Json {
    Json::parse(&format!(
        r#"{{"kind": "{kind}", "subject": "Pin the worker model", "detail": "pin or retarget?"}}"#
    ))
    .unwrap()
}

fn is_error(step: CheckpointStep) -> bool {
    match step {
        CheckpointStep::Reply(o) => o.is_error,
        CheckpointStep::Show(o) => o.is_error,
        CheckpointStep::Ask { .. } => false,
    }
}

#[test]
fn an_answer_becomes_a_decision_record_in_the_users_own_words() {
    let mut left = CHECKPOINTS_PER_TURN;
    let (subject, question) = match CheckpointTool::request(&args("ask"), &mut left) {
        CheckpointStep::Ask { subject, question } => (subject, question),
        other => panic!("{other:?}"),
    };
    let answer = Some("Pin it. A running worker must not move.".to_string());
    let words = CheckpointTool::to_file(&answer).unwrap();
    assert_eq!(
        decision_file(next_number(&vec![]), &subject),
        "0001-pin-the-worker-model.md"
    );
    let body = decision_body(&subject, &question, &words);
    assert!(body.contains("# Pin the worker model"));
    assert!(body.contains("pin or retarget?"), "the question is half the record");
    assert!(body.contains("A running worker must not move."));
    // The model is told the answer, so it can act on it.
    let note = filed_note("decisions/0001-pin-the-worker-model.md", false);
    let out = CheckpointTool::answered(&answer, &note);
    assert!(!out.is_error, "{}", out.content);
    assert!(out.content.contains("A running worker must not move."));
}

#[test]
fn records_are_numbered_in_the_order_they_were_taken() {
    let mut names: Vec<String> = Vec::new();
    for _ in 0..2 {
        names.push(decision_file(next_number(&names), "Pin the worker model"));
    }
    assert_eq!(names, vec!["0001-pin-the-worker-model.md", "0002-pin-the-worker-model.md"]);
}

#[test]
fn nobody_watching_skips_the_checkpoint_rather_than_failing_the_turn() {
    let out = CheckpointTool::answered(&None, "");
    assert!(!out.is_error, "a skipped checkpoint is not an error");
    assert!(out.content.contains("Decide it yourself"));
    assert!(CheckpointTool::to_file(&None).is_none(), "nothing was decided, so nothing is filed");
    assert!(CheckpointTool::to_file(&Some("  ".to_string())).is_none());
}

#[test]
fn the_cap_is_enforced_in_code_not_in_prose() {
    let mut left = CHECKPOINTS_PER_TURN;
    for i in 0..CHECKPOINTS_PER_TURN {
        assert!(!is_error(CheckpointTool::request(&args("note"), &mut left)), "call {i}");
    }
    match CheckpointTool::request(&args("note"), &mut left) {
        CheckpointStep::Reply(out) => {
            assert!(out.is_error, "the budget is spent");
            assert!(out.content.contains("carry on with the work"));
        }
        other => panic!("{other:?}"),
    }
}

#[test]
fn every_kind_spends_the_budget() {
    // Three notes in a turn is the same chattiness as three questions.
    let mut left = CHECKPOINTS_PER_TURN;
    CheckpointTool::request(&args("note"), &mut left);
    CheckpointTool::request(&args("yours"), &mut left);
    CheckpointTool::request(&args("ask"), &mut left);
    assert!(is_error(CheckpointTool::request(&args("note"), &mut left)));
}
