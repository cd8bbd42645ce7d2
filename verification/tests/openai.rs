use worksmith::json::{Json, Number};
use worksmith::llm::openai::{
    build_request_body, endpoint, message_to_json, setting_warning, sse_line, strip_toolcall_noise, with_budget, Accumulator, ChunkChoice, ChunkResp,
    Delta, DeltaFunction, DeltaToolCall, LineBuffer, SseLine,
};
use worksmith::llm::{ChatRequest, DialectSource, Effort, Message, Thinking, ThinkingDialect};

fn req(thinking: Option<Thinking>) -> ChatRequest {
    ChatRequest {
        model: "m".into(),
        messages: vec![],
        tools: vec![],
        temperature: None,
        top_p: None,
        top_k: None,
        max_tokens: None,
        thinking,
        sort: None,
    }
}

#[test]
fn silence_by_default() {
    // Sending nothing is what keeps every provider working; only opt-in.
    let b = build_request_body(&req(None), ThinkingDialect::Reasoning);
    assert!(b.get("reasoning").is_none());
    assert!(b.get("chat_template_kwargs").is_none());
}

#[test]
fn each_provider_gets_its_own_spelling() {
    let b = build_request_body(&req(Some(Thinking::Off)), ThinkingDialect::Reasoning);
    assert_eq!(b.get("reasoning"), Some(&Json::parse(r#"{"enabled": false}"#).unwrap()));
    assert!(b.get("chat_template_kwargs").is_none(), "OpenRouter rejects this field");

    let b = build_request_body(&req(Some(Thinking::Off)), ThinkingDialect::ChatTemplate);
    assert_eq!(
        b.get("chat_template_kwargs"),
        Some(&Json::parse(r#"{"enable_thinking": false}"#).unwrap())
    );
    assert!(b.get("reasoning").is_none());
}

#[test]
fn dialect_is_guessed_from_the_endpoint() {
    assert_eq!(
        ThinkingDialect::guess_from_url("https://openrouter.ai/api/v1"),
        ThinkingDialect::Reasoning
    );
    assert_eq!(
        ThinkingDialect::guess_from_url("http://127.0.0.1:8000/v1"),
        ThinkingDialect::ChatTemplate
    );
    assert_eq!(ThinkingDialect::parse("chat-template"), Some(ThinkingDialect::ChatTemplate));
    assert_eq!(ThinkingDialect::parse("nonsense"), None);
}

#[test]
fn a_request_mentions_only_what_was_asked_for() {
    let mut r = req(Some(Thinking::Effort(Effort::High)));
    r.sort = Some("latency".to_string());
    r.max_tokens = Some(5);
    r.temperature = Some(Number::Real("0.7".to_string()));
    let b = build_request_body(&r, ThinkingDialect::Reasoning);
    assert_eq!(b.get("provider"), Some(&Json::parse(r#"{"sort": "latency"}"#).unwrap()));
    assert_eq!(b.get("max_tokens").and_then(|v| v.as_u64()), Some(5));
    assert!(b.written().contains("\"temperature\":0.7"), "{}", b.written());
    assert!(b.get("top_p").is_none());
    assert!(b.get("tools").is_none());
    let plain = build_request_body(&req(None), ThinkingDialect::Reasoning);
    assert!(plain.get("provider").is_none());
    assert_eq!(endpoint("http://x/v1/"), "http://x/v1/chat/completions");
}

#[test]
fn a_stream_is_put_together_however_it_is_cut() {
    let bytes = "data: {\"é\": 1}\n\ndata: [DONE]\n".as_bytes();
    for cut in 0..=bytes.len() {
        let mut b = LineBuffer::new();
        let mut got = b.feed(&bytes[..cut]);
        got.append(&mut b.feed(&bytes[cut..]));
        assert_eq!(got.len(), 3, "cut at {cut}");
        assert_eq!(got.concat(), bytes.to_vec(), "cut at {cut}");
    }
    assert!(matches!(sse_line("data: [DONE]"), SseLine::Done));
    assert!(matches!(sse_line(": a comment"), SseLine::Skip));
    match sse_line("data: {}") {
        SseLine::Data(d) => assert_eq!(d, "{}"),
        other => panic!("{other:?}"),
    }
}

fn piece(index: usize, id: Option<&str>, name: Option<&str>, args: Option<&str>) -> ChunkResp {
    ChunkResp {
        choices: vec![ChunkChoice {
            delta: Delta {
                content: None,
                reasoning: None,
                reasoning_content: None,
                tool_calls: vec![DeltaToolCall {
                    index,
                    id: id.map(String::from),
                    function: Some(DeltaFunction {
                        name: name.map(String::from),
                        arguments: args.map(String::from),
                    }),
                }],
            },
            finish_reason: None,
        }],
        usage: None,
    }
}

#[test]
fn a_call_that_comes_in_pieces_is_one_call() {
    let mut acc = Accumulator::new();
    acc.apply(&piece(0, Some("c1"), Some("bash"), Some("{\"a\"")));
    acc.apply(&piece(0, None, None, Some(":1}")));
    acc.apply(&piece(1, Some("c2"), Some("ls"), None));
    let c = acc.into_completion();
    assert_eq!(c.tool_calls.len(), 2);
    assert_eq!(c.tool_calls[0].arguments, "{\"a\":1}");
    assert_eq!(c.tool_calls[1].name, "ls");
    assert_eq!(strip_toolcall_noise("hi <tool_call>there</tool_call>"), "hi there");
}

#[test]
fn only_one_spelling_can_express_a_budget() {
    assert!(ThinkingDialect::Reasoning.supports_budget());
    assert!(!ThinkingDialect::ChatTemplate.supports_budget());
    let warned = |t, d| setting_warning(t, d, DialectSource::Guessed, false);
    assert_eq!(
        warned(Some(Thinking::Budget(4000)), ThinkingDialect::ChatTemplate).unwrap(),
        "a thinking budget of 4000 tokens cannot be expressed through `chat_template_kwargs` \
         (guessed from the provider's base-url); thinking is just on"
    );
    assert!(warned(Some(Thinking::Effort(Effort::High)), ThinkingDialect::ChatTemplate).is_some());
    assert!(warned(Some(Thinking::Budget(4000)), ThinkingDialect::Reasoning).is_none());
    assert!(warned(Some(Thinking::Off), ThinkingDialect::ChatTemplate).is_none());
    assert!(warned(None, ThinkingDialect::ChatTemplate).is_none());
    // A provider with a field of its own is told the budget there.
    let budget = Some(Thinking::Budget(4000));
    let told = setting_warning(budget, ThinkingDialect::ChatTemplate, DialectSource::Guessed, true);
    assert!(told.is_none());
    let param = Some("thinking_token_budget".to_string());
    let body = build_request_body(&req(budget), ThinkingDialect::ChatTemplate);
    let sent = with_budget(body, budget, &param);
    assert_eq!(sent.get("thinking_token_budget"), Some(&Json::Number(Number::Pos(4000))));
    let body = build_request_body(&req(Some(Thinking::On)), ThinkingDialect::ChatTemplate);
    assert!(with_budget(body, Some(Thinking::On), &param).get("thinking_token_budget").is_none());
    let body = build_request_body(&req(budget), ThinkingDialect::ChatTemplate);
    assert!(with_budget(body, budget, &None).get("thinking_token_budget").is_none());
}

#[test]
fn how_a_message_came_about_is_not_sent_back() {
    let bare = Message::assistant(Some("hi".to_string()), Vec::new());
    let mut traced = Message::assistant(Some("hi".to_string()), Vec::new());
    traced.reasoning = Some("let me see".to_string());
    traced.finish_reason = Some("stop".to_string());
    traced.model = Some("m".to_string());
    assert_eq!(message_to_json(&traced), message_to_json(&bare));
    assert_eq!(message_to_json(&bare).written(), r#"{"content":"hi","role":"assistant"}"#);
}
