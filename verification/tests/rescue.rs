use worksmith::json::Json;
use worksmith::llm::rescue::rescue_text_tool_calls;
use worksmith::llm::{Completion, ToolCall, ToolDef, Usage};

/// The tools the parser is allowed to promote to, shaped like the real
/// ones — `read` has a typed `limit`, which is what forces the coercion.
fn tools() -> Vec<ToolDef> {
    vec![
        ToolDef {
            name: "bash".into(),
            description: String::new(),
            parameters: Json::parse(
                r#"{
                "type": "object",
                "properties": { "command": { "type": "string" } }
            }"#,
            )
            .unwrap(),
        },
        ToolDef {
            name: "read".into(),
            description: String::new(),
            parameters: Json::parse(
                r#"{
                "type": "object",
                "properties": {
                    "path": { "type": "string" },
                    "limit": { "type": "integer" }
                }
            }"#,
            )
            .unwrap(),
        },
    ]
}

fn from_content(text: &str) -> Completion {
    Completion { content: Some(text.into()), ..Completion::default() }
}

fn from_reasoning(text: &str) -> Completion {
    Completion { reasoning: Some(text.into()), ..Completion::default() }
}

#[test]
fn the_live_sighting_in_reasoning_is_promoted_and_the_prose_survives() {
    // Copied from the 2026-08-30 transcript, hosted qwen3.5-9b: the call
    // went into `reasoning`, `content` was empty, and a sentence followed
    // the block. Worksmith called the whole turn empty.
    let mut c = from_reasoning(
        "<tool_call>\n<function=bash>\n<parameter=command>\n\
         pip3 install pytest -q 2>&1 | tail -5\n\
         </parameter>\n</function>\n</tool_call>\
         The background worker task ran but I need to verify it.",
    );
    let note = rescue_text_tool_calls(&mut c, &tools()).expect("promoted");

    assert_eq!(c.tool_calls.len(), 1);
    assert_eq!(c.tool_calls[0].name, "bash");
    assert_eq!(
        c.tool_calls[0].arguments,
        r#"{"command":"pip3 install pytest -q 2>&1 | tail -5"}"#
    );
    assert!(note.contains("reasoning"), "the note says where it came from: {note}");

    let left = c.reasoning.unwrap();
    assert!(left.contains("verify it."), "the sentence after the block is kept");
    assert!(!left.contains("<function="), "the block itself is gone: {left}");
}

#[test]
fn content_works_even_though_the_wrapper_was_stripped_upstream() {
    // `strip_toolcall_noise` removes `<tool_call>` from content before it
    // ever reaches here, so this is what a content-channel call looks like.
    // Anchoring on the wrapper would have found nothing.
    let mut c = from_content(
        "Let me check.\n<function=read>\n<parameter=path>src/tui.rs</parameter>\n\
         <parameter=limit>40</parameter>\n</function>",
    );
    assert!(rescue_text_tool_calls(&mut c, &tools()).is_some());
    assert_eq!(c.tool_calls[0].name, "read");
    // `limit` is an integer in the schema, so it must not arrive as "40".
    assert_eq!(c.tool_calls[0].arguments, r#"{"limit":40,"path":"src/tui.rs"}"#);
    assert_eq!(c.content.as_deref(), Some("Let me check.\n"));
}

#[test]
fn a_fenced_json_object_is_promoted() {
    let mut c = from_content(
        "Running it:\n```json\n{\"name\": \"bash\", \"arguments\": {\"command\": \"ls\"}}\n```\ndone",
    );
    assert!(rescue_text_tool_calls(&mut c, &tools()).is_some());
    assert_eq!(c.tool_calls[0].name, "bash");
    assert_eq!(c.tool_calls[0].arguments, r#"{"command":"ls"}"#);
    assert_eq!(c.content.as_deref(), Some("Running it:\n\ndone"));
}

#[test]
fn a_bare_hermes_object_alone_in_the_field_is_promoted() {
    // What `<tool_call>{…}</tool_call>` becomes once the wrapper is
    // stripped. Only accepted as the whole field.
    let mut c = from_content("{\"name\": \"bash\", \"arguments\": {\"command\": \"ls\"}}");
    assert!(rescue_text_tool_calls(&mut c, &tools()).is_some());
    assert_eq!(c.tool_calls[0].name, "bash");
    assert_eq!(c.content, None, "nothing was left to also say out loud");
}

#[test]
fn the_same_object_inside_prose_is_left_alone() {
    // The model explaining a tool call is not making one.
    let mut c = from_content(
        "You would call it like {\"name\": \"bash\", \"arguments\": {\"command\": \"ls\"}} \
         to list the directory.",
    );
    assert!(rescue_text_tool_calls(&mut c, &tools()).is_none());
    assert!(c.tool_calls.is_empty());
}

#[test]
fn a_name_that_is_not_an_advertised_tool_is_left_alone() {
    // A promoted call to a tool that does not exist is a hallucination
    // given hands.
    let mut c = from_content("<function=deploy>\n<parameter=env>prod</parameter>\n</function>");
    assert!(rescue_text_tool_calls(&mut c, &tools()).is_none());
    assert!(c.tool_calls.is_empty());
    assert!(c.content.unwrap().contains("<function=deploy>"), "kept verbatim as text");
}

#[test]
fn a_truncated_block_stays_text() {
    // No `</parameter>`: the reply was cut off mid-call. Half a command is
    // worse than none.
    let mut c = from_content("<function=bash>\n<parameter=command>\nrm -rf /tm");
    assert!(rescue_text_tool_calls(&mut c, &tools()).is_none());
    assert!(c.tool_calls.is_empty());
}

#[test]
fn malformed_json_stays_text() {
    let mut c = from_content("```json\n{\"name\": \"bash\", \"arguments\": {oops}}\n```");
    assert!(rescue_text_tool_calls(&mut c, &tools()).is_none());
    assert!(c.tool_calls.is_empty());
}

#[test]
fn structured_calls_present_means_the_prose_is_never_reinterpreted() {
    // The one rule that makes the whole thing safe. A model that produced a
    // real call *and* wrote about another one is already understood, and
    // inventing the second would be acting on something it did not ask for.
    let mut c = Completion {
        content: Some(
            "<function=bash>\n<parameter=command>rm -rf /</parameter>\n</function>".into(),
        ),
        tool_calls: vec![ToolCall {
            id: "c1".into(),
            name: "read".into(),
            arguments: r#"{"path":"a.txt"}"#.into(),
        }],
        usage: Usage::default(),
        ..Completion::default()
    };
    assert!(rescue_text_tool_calls(&mut c, &tools()).is_none());
    assert_eq!(c.tool_calls.len(), 1);
    assert_eq!(c.tool_calls[0].name, "read");
}

#[test]
fn two_blocks_in_one_reply_both_come_through() {
    let mut c = from_content(
        "<function=read>\n<parameter=path>a.txt</parameter>\n</function>\nand\n\
         <function=read>\n<parameter=path>b.txt</parameter>\n</function>",
    );
    assert!(rescue_text_tool_calls(&mut c, &tools()).is_some());
    assert_eq!(c.tool_calls.len(), 2);
    assert_eq!(c.tool_calls[0].arguments, r#"{"path":"a.txt"}"#);
    assert_eq!(c.tool_calls[1].arguments, r#"{"path":"b.txt"}"#);
    assert_ne!(c.tool_calls[0].id, c.tool_calls[1].id, "ids are distinct");
}

#[test]
fn a_multiline_value_keeps_its_inner_newlines() {
    // Only the newline the convention puts either side of the value is
    // dropped. Trimming further would silently edit file content.
    let mut c = from_content(
        "<function=bash>\n<parameter=command>\nline one\nline two\n</parameter>\n</function>",
    );
    assert!(rescue_text_tool_calls(&mut c, &tools()).is_some());
    assert_eq!(c.tool_calls[0].arguments, r#"{"command":"line one\nline two"}"#);
}

#[test]
fn ordinary_prose_and_ordinary_code_fences_are_untouched() {
    let mut c = from_content(
        "I read the file. Here is the fix:\n```rust\nfn main() {}\n```\nThat should do it.",
    );
    let before = c.content.clone();
    assert!(rescue_text_tool_calls(&mut c, &tools()).is_none());
    assert_eq!(c.content, before, "not one byte moved");
}

#[test]
fn an_empty_completion_is_still_empty() {
    let mut c = Completion::default();
    assert!(rescue_text_tool_calls(&mut c, &tools()).is_none());
}
