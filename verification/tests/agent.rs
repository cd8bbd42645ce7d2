use worksmith::agent::{
    cap_tool_output, compaction_plan, compaction_split, conversation, estimate_tokens,
    helper_request, render_transcript, should_compact, working_tokens, Steering, ThinkingMode, MAX_TOOL_RESULT_BYTES,
};
use worksmith::json::Number;
use worksmith::llm::{Effort, Message, Role, Thinking, ToolCall};

#[test]
fn split_keeps_recent_turns_on_user_boundaries() {
    // 3 turns: user/assistant pairs.
    let msgs = vec![
        Message::user("t1"),
        Message::assistant(Some("a1".into()), vec![]),
        Message::user("t2"),
        Message::assistant(Some("a2".into()), vec![]),
        Message::user("t3"),
        Message::assistant(Some("a3".into()), vec![]),
    ];
    // Keep last 1 turn → split at index of the 3rd user message (index 4).
    assert_eq!(compaction_split(&msgs, 1), 4);
    // Keep 2 turns → split at 2nd user message (index 2).
    assert_eq!(compaction_split(&msgs, 2), 2);
    // Keep >= number of turns → nothing to compact.
    assert_eq!(compaction_split(&msgs, 3), 0);
    assert_eq!(compaction_split(&msgs, 9), 0);
}

#[test]
fn a_mailbox_is_emptied_by_taking() {
    let mut s = Steering::new();
    s.push("one");
    s.push("two");
    assert_eq!(s.take(), vec!["one".to_string(), "two".to_string()]);
    assert!(s.take().is_empty());
}

#[test]
fn a_thinking_switch_has_a_label_for_every_setting() {
    let label = |t| ThinkingMode::new(t).label();
    assert_eq!(label(None), None);
    assert_eq!(label(Some(Thinking::Off)).as_deref(), Some("off"));
    assert_eq!(label(Some(Thinking::Budget(2000))).as_deref(), Some("2k"));
    assert_eq!(label(Some(Thinking::Budget(500))).as_deref(), Some("500"));
    assert_eq!(label(Some(Thinking::Effort(Effort::Low))).as_deref(), Some("low"));
    let mut m = ThinkingMode::new(None);
    assert!(m.toggle_fast());
    assert!(m.is_fast());
    assert!(!m.toggle_fast());
}

#[test]
fn a_tool_result_is_capped_on_a_character_boundary() {
    let short = "é".repeat(10);
    assert_eq!(cap_tool_output(short.clone()), short);
    let long = "é".repeat(MAX_TOOL_RESULT_BYTES);
    let capped = cap_tool_output(long);
    assert!(capped.len() < MAX_TOOL_RESULT_BYTES + 200, "{}", capped.len());
    assert!(capped.starts_with("éé"));
}

#[test]
fn history_is_summed_up_only_when_it_is_worth_it() {
    let msgs = vec![
        Message::user("first"),
        Message::assistant(
            Some("done".into()),
            vec![ToolCall { id: "1".into(), name: "ls".into(), arguments: "{}".into() }],
        ),
        Message::user("second"),
    ];
    assert!(estimate_tokens(&msgs) > 0);
    assert_eq!(working_tokens(0, 7), 7);
    assert!(!should_compact(10, 1_000));
    assert!(should_compact(1_000, 1_000));
    let (split, transcript) = compaction_plan(&msgs, 1).expect("the first turn can go");
    assert_eq!(split, 2);
    assert_eq!(transcript, render_transcript(&msgs[..2]));
    assert!(transcript.contains("first"));
    assert!(!transcript.contains("second"));
    assert!(compaction_plan(&msgs, 5).is_none());
}

#[test]
fn the_stable_prompt_comes_first_and_the_history_last() {
    let history = vec![Message::user("hi"), Message::assistant(Some("yes?".into()), vec![])];
    let all = conversation("be brief", &vec!["remember".to_string()], &history);
    let texts: Vec<&str> = all.iter().map(|m| m.content.as_deref().unwrap()).collect();
    assert_eq!(texts, vec!["be brief", "remember", "hi", "yes?"]);
    assert_eq!(all[0].role, Role::System);
    assert_eq!(all[1].role, Role::System);
    assert_eq!(all[2].role, Role::User);
}

#[test]
fn a_side_question_is_asked_without_deliberation() {
    let r = helper_request("m", "sum up", "this", 512);
    assert_eq!(r.thinking, Some(Thinking::Off));
    assert_eq!(r.max_tokens, Some(512));
    assert_eq!(r.temperature, Some(Number::Real("0.2".to_string())));
    assert!(r.tools.is_empty());
    assert_eq!(r.messages.len(), 2);
    assert_eq!(r.messages[1].content.as_deref(), Some("this"));
}
