use worksmith::config::{ResolvedWeb, WebProvider};
use worksmith::json::Json;
use worksmith::tools::web::{
    cap, check_url, html_to_text, page_text, parse_results, request_for, show_results, web_call,
    SearchResult, WebCall, MAX_PAGE_CHARS,
};

#[test]
fn html_becomes_readable_text() {
    let html = "<html><head><title>x</title><style>p{color:red}</style></head>\
                <body><h1>Title</h1><p>First &amp; best.</p>\
                <script>alert('no')</script><p>Second.</p></body></html>";
    let text = html_to_text(html);
    assert!(text.contains("Title"));
    assert!(text.contains("First & best."), "entities unescaped: {text}");
    assert!(text.contains("Second."));
    assert!(!text.contains("alert"), "script bodies are dropped: {text}");
    assert!(!text.contains("color:red"), "style bodies are dropped: {text}");
    assert!(!text.contains('<'), "no markup survives: {text}");
}

#[test]
fn page_text_is_capped() {
    let long = "word ".repeat(MAX_PAGE_CHARS);
    let out = cap(&long, MAX_PAGE_CHARS);
    assert!(out.chars().count() < MAX_PAGE_CHARS + 100);
    assert!(out.contains("truncated"));
}

#[test]
fn provider_shapes_parse() {
    let brave = Json::parse(r#"{"web": {"results": [
        {"title": "A", "url": "https://a", "description": "<b>snip</b>"},
        {"title": "B", "url": "https://b", "description": "two"}
    ]}}"#).unwrap();
    let got = parse_results(WebProvider::Brave, &brave, 5);
    assert_eq!(got.len(), 2);
    assert_eq!(got[0].url, "https://a");
    assert_eq!(got[0].snippet, "snip", "markup stripped from snippets");

    let tavily = Json::parse(r#"{"results": [
        {"title": "T", "url": "https://t", "content": "body"}
    ]}"#).unwrap();
    let got = parse_results(WebProvider::Tavily, &tavily, 5);
    assert_eq!(got[0].snippet, "body");

    // A result with no URL is useless to the model.
    let junk = Json::parse(r#"{"results": [{"title": "no url"}]}"#).unwrap();
    assert!(parse_results(WebProvider::Searxng, &junk, 5).is_empty());
    // An unexpected shape must not panic.
    assert!(parse_results(WebProvider::Brave, &Json::parse("{}").unwrap(), 5).is_empty());
}

#[test]
fn text_behind_a_script_is_kept() {
    assert_eq!(html_to_text("<script>x</script>kept <b>bold</b>"), "kept bold");
    assert_eq!(html_to_text("a<STYLE>p{}</STYLE>b"), "a\nb");
    assert_eq!(html_to_text("one<br>two<i>three</i>"), "one\ntwo three");
    assert_eq!(html_to_text("never <closed"), "never");
    assert_eq!(html_to_text("<svg>everything"), "");
    assert_eq!(html_to_text("&lt;b&gt; &amp;lt; &quot;&#39;&apos;&nbsp;."), "<b> < \"'' .");
    assert_eq!(html_to_text("<p>a</p><p></p><p></p><p>b"), "a\n\nb");
}

#[test]
fn a_page_is_read_as_markup_only_where_it_is_markup() {
    assert_eq!(page_text("text/plain", "a <b> c"), "a <b> c");
    assert_eq!(page_text("text/html", "a <b> c"), "a c");
    assert_eq!(page_text("", "  <p>x"), "x");
    assert_eq!(cap("abc", 3), "abc");
    assert_eq!(cap("abcd", 3), "abc\n\n[page truncated at 3 characters]");
    assert!(check_url("https://a").is_ok());
    assert_eq!(check_url("ftp://a").unwrap_err(), "`ftp://a` is not an http(s) URL");
}

fn web(provider: Option<WebProvider>, base_url: Option<&str>) -> ResolvedWeb {
    ResolvedWeb { provider, api_key_env: None, base_url: base_url.map(String::from) }
}

#[test]
fn every_provider_is_asked_in_its_own_way() {
    let key = Some("k".to_string());
    let e = request_for(&web(None, None), &key, "q", 5).unwrap_err();
    assert!(e.contains("no web search provider configured"), "{e}");
    assert!(request_for(&web(Some(WebProvider::Brave), None), &None, "q", 5)
        .unwrap_err()
        .contains("brave search needs an API key"));
    assert!(request_for(&web(Some(WebProvider::Tavily), None), &None, "q", 5)
        .unwrap_err()
        .contains("tavily needs an API key"));
    assert!(request_for(&web(Some(WebProvider::Searxng), None), &key, "q", 5)
        .unwrap_err()
        .contains("searxng needs `base-url`"));

    let r = request_for(&web(Some(WebProvider::Brave), None), &key, "q", 5).unwrap();
    assert_eq!(r.url, "https://api.search.brave.com/res/v1/web/search");
    assert_eq!(r.headers[0], ("X-Subscription-Token".to_string(), "k".to_string()));
    assert_eq!(r.params[1], ("count".to_string(), "5".to_string()));
    assert!(r.body.is_none());
    let r = request_for(&web(Some(WebProvider::Tavily), Some("http://t")), &key, "q", 5).unwrap();
    assert_eq!(r.url, "http://t");
    assert_eq!(
        r.body.unwrap().written(),
        r#"{"api_key":"k","max_results":5,"query":"q"}"#
    );
    let r = request_for(&web(Some(WebProvider::Searxng), Some("http://s//")), &None, "q", 5);
    assert_eq!(r.unwrap().url, "http://s/search");
}

#[test]
fn a_web_call_is_a_search_unless_it_says_otherwise() {
    let call = |s: &str| web_call(&Json::parse(s).unwrap());
    match call(r#"{"query": "rust", "limit": 0}"#) {
        WebCall::Search { query, limit } => assert_eq!((query.as_str(), limit), ("rust", 1)),
        other => panic!("{other:?}"),
    }
    match call(r#"{"query": "rust"}"#) {
        WebCall::Search { limit, .. } => assert_eq!(limit, 5),
        other => panic!("{other:?}"),
    }
    assert!(matches!(call(r#"{"action": "fetch", "url": "http://a"}"#), WebCall::Fetch { .. }));
    match call(r#"{"action": "fetch"}"#) {
        WebCall::Refused(o) => assert_eq!(o.content, "missing required argument: url"),
        other => panic!("{other:?}"),
    }
    match call(r#"{"action": "post"}"#) {
        WebCall::Refused(o) => assert_eq!(o.content, "unknown action `post` (search|fetch)"),
        other => panic!("{other:?}"),
    }
    assert_eq!(show_results(&vec![]).content, "(no results)");
    let one = SearchResult { title: "T".into(), url: "U".into(), snippet: "S".into() };
    assert_eq!(show_results(&vec![one]).content, "T\nU\nS\n\n");
}

#[test]
fn a_search_answers_with_no_more_than_was_asked_for() {
    let body = Json::parse(
        r#"{"results": [{"url": "https://1"}, {"url": ""}, {"url": "https://3"}]}"#,
    )
    .unwrap();
    let got = parse_results(WebProvider::Searxng, &body, 2);
    assert_eq!(got.len(), 1);
    assert_eq!(got[0].title, "(untitled)");
}

#[test]
fn an_element_is_told_by_its_whole_name() {
    let page = "<body><header>Top</header><p>Text</p><styled-box>more</styled-box></body>";
    let text = html_to_text(page);
    assert!(text.contains("Top") && text.contains("Text") && text.contains("more"), "{text}");
    let page = "<head lang=\"en\"><title>T</title></head><style\n>p {}</style><svg/>x</svg>y";
    assert_eq!(html_to_text(page), "y");
}
