use worksmith::config::{Config, ModelSettings, ProviderConfig, ThinkingSetting};
use worksmith::json::Number;
use worksmith::llm::{Effort, Thinking};
use worksmith::toml_value::Toml;

fn table(t: &Toml) -> &Vec<(String, Toml)> {
    match t {
        Toml::Table(v) => v,
        other => panic!("not a table: {other:?}"),
    }
}

fn text(t: Option<&Toml>) -> Option<String> {
    match t {
        Some(Toml::Text(s)) => Some(s.clone()),
        None => None,
        Some(other) => panic!("not a text: {other:?}"),
    }
}

fn whole(t: Option<&Toml>) -> Option<i64> {
    match t {
        Some(Toml::Integer(n)) => Some(*n),
        None => None,
        Some(other) => panic!("not an integer: {other:?}"),
    }
}

fn truth(t: Option<&Toml>) -> Option<bool> {
    match t {
        Some(Toml::Boolean(b)) => Some(*b),
        None => None,
        Some(other) => panic!("not a boolean: {other:?}"),
    }
}

fn float(t: Option<&Toml>) -> Option<Number> {
    match t {
        Some(Toml::Real(s)) => Some(Number::Real(s.clone())),
        None => None,
        Some(other) => panic!("not a float: {other:?}"),
    }
}

fn provider(t: &Toml) -> ProviderConfig {
    ProviderConfig {
        kind: text(t.get("type")).unwrap_or_else(worksmith::config::default_provider_kind),
        base_url: text(t.get("base-url")).unwrap_or_default(),
        api_key_env: text(t.get("api-key-env")),
        thinking_param: text(t.get("thinking-param")),
        reasoning_budget_param: text(t.get("reasoning-budget-param")),
        stream_idle_timeout: whole(t.get("stream-idle-timeout")).map(|n| n as u64),
        sort: text(t.get("sort")),
    }
}

fn model(t: &Toml) -> ModelSettings {
    ModelSettings {
        input: float(t.get("input")),
        output: float(t.get("output")),
        temperature: float(t.get("temperature")),
        top_p: float(t.get("top-p")),
        top_k: whole(t.get("top-k")).map(|n| n as u32),
        context: whole(t.get("context")).map(|n| n as usize),
    }
}

fn config(source: &str) -> Config {
    let t = Toml::parse(source).expect("the fixture itself must parse");
    let mut c = Config::default();
    c.model = text(t.get("model"));
    c.temperature = float(t.get("temperature"));
    c.max_tokens = whole(t.get("max-tokens")).map(|n| n as u32);
    c.decisions_dir = text(t.get("decisions-dir"));
    if let Some(ps) = t.get("providers") {
        for (name, p) in table(ps) {
            c.providers.push((name.clone(), provider(p)));
        }
    }
    if let Some(ms) = t.get("models") {
        for (name, m) in table(ms) {
            c.models.push((name.clone(), model(m)));
        }
    }
    if let Some(a) = t.get("agent") {
        c.agent.max_steps = whole(a.get("max-steps")).map(|n| n as usize);
        c.agent.max_retries = whole(a.get("max-retries")).map(|n| n as usize);
        c.agent.stuck_threshold = whole(a.get("stuck-threshold")).map(|n| n as u32);
        c.agent.validate = text(a.get("validate"));
        c.agent.context_limit = whole(a.get("context-limit")).map(|n| n as usize);
        c.agent.keep_recent_turns = whole(a.get("keep-recent-turns")).map(|n| n as usize);
        c.agent.thinking = match a.get("thinking") {
            Some(Toml::Integer(n)) => Some(ThinkingSetting::Budget(*n as u32)),
            Some(Toml::Text(s)) => Some(ThinkingSetting::Mode(s.clone())),
            _ => None,
        };
        c.agent.pair = truth(a.get("pair"));
    }
    if let Some(a) = t.get("agents") {
        c.agents.max = whole(a.get("max")).map(|n| n as usize);
        c.agents.supervisor = text(a.get("supervisor"));
        c.agents.stuck_timeout = whole(a.get("stuck-timeout")).map(|n| n as u64);
        c.agents.max_nudges = whole(a.get("max-nudges")).map(|n| n as usize);
        c.agents.repeat_threshold = whole(a.get("repeat-threshold")).map(|n| n as u32);
        c.agents.token_budget = whole(a.get("token-budget")).map(|n| n as u32);
        c.agents.request_timeout = whole(a.get("request-timeout")).map(|n| n as u64);
        c.agents.fanout = text(a.get("fanout"));
        c.agents.synthesize = truth(a.get("synthesize"));
        c.agents.validate = text(a.get("validate"));
        c.agents.model = text(a.get("model"));
    }
    if let Some(a) = t.get("tools") {
        c.tools.bash_timeout_secs = whole(a.get("bash-timeout-secs")).map(|n| n as u64);
    }
    if let Some(w) = t.get("web") {
        c.web.provider = text(w.get("provider"));
        c.web.api_key_env = text(w.get("api-key-env"));
        c.web.base_url = text(w.get("base-url"));
    }
    if let Some(u) = t.get("tui") {
        c.tui.insert_escape = text(u.get("insert-escape"));
        c.tui.insert_escape_ms = whole(u.get("insert-escape-ms")).map(|n| n as u64);
    }
    c
}

fn provider_of<'a>(c: &'a Config, name: &str) -> &'a ProviderConfig {
    &c.providers.iter().find(|(n, _)| n == name).expect("the provider is there").1
}

fn model_of<'a>(c: &'a Config, name: &str) -> &'a ModelSettings {
    &c.models.iter().find(|(n, _)| n == name).expect("the model is there").1
}

fn num(s: &str) -> Option<Number> {
    Some(Number::Real(s.to_string()))
}

#[test]
fn every_config_field_survives_the_merge() {
    let source = r#"
            model = "p/m"
            temperature = 0.11
            max-tokens = 111
            decisions-dir = "docs/decisions"

            [providers.p]
            base-url = "http://p/v1"
            api-key-env = "P_KEY"
            thinking-param = "reasoning"
            reasoning-budget-param = "thinking_budget"
            stream-idle-timeout = 111
            sort = "latency"

            [agent]
            max-steps = 11
            max-retries = 11
            stuck-threshold = 11
            validate = "check me"
            context-limit = 11111
            keep-recent-turns = 11
            thinking = 111
            pair = true

            [agents]
            max = 11
            supervisor = "off"
            stuck-timeout = 11
            max-nudges = 11
            repeat-threshold = 11
            token-budget = 11111
            request-timeout = 11
            fanout = "off"
            synthesize = false
            validate = "worker check"
            model = "p/worker"

            [tools]
            bash-timeout-secs = 11

            [web]
            provider = "tavily"
            api-key-env = "W_KEY"
            base-url = "http://w"

            [tui]
            insert-escape = "jj"
            insert-escape-ms = 11

            [models."p/m"]
            input = 0.11
            output = 0.11
            temperature = 0.11
            top-p = 0.11
            top-k = 11
            context = 11111
            "#;
    let project = config(source);
    let wanted = format!("{project:?}");
    // Nothing of the fixture is left at what an empty configuration has.
    assert_ne!(wanted, format!("{:?}", Config::default()));

    let mut merged = Config::default();
    merged.merge(project);
    assert_eq!(format!("{merged:?}"), wanted, "some key did not survive `merge`");
}

#[test]
fn a_project_provider_block_does_not_delete_the_globals_fields() {
    let mut global = config(
        r#"
            [providers.omlx]
            base-url = "http://127.0.0.1:8000/v1"
            api-key-env = "OMLX_API_KEY"
            thinking-param = "chat-template"
            reasoning-budget-param = "thinking_budget"
            sort = "latency"
            "#,
    );
    let project = config(
        r#"
            [providers.omlx]
            base-url = "http://127.0.0.1:8100/v1"
            "#,
    );
    global.merge(project);

    let p = provider_of(&global, "omlx");
    assert_eq!(p.base_url, "http://127.0.0.1:8100/v1", "the project's URL wins");
    assert_eq!(
        p.reasoning_budget_param.as_deref(),
        Some("thinking_budget"),
        "the budget field survives a block that did not mention it"
    );
    assert_eq!(p.thinking_param.as_deref(), Some("chat-template"));
    assert_eq!(p.api_key_env.as_deref(), Some("OMLX_API_KEY"));
    assert_eq!(p.sort.as_deref(), Some("latency"));
}

#[test]
fn a_project_provider_still_overrides_what_it_does_set() {
    let mut global = config(
        r#"
            [providers.p]
            base-url = "http://a/v1"
            thinking-param = "chat-template"
            "#,
    );
    let project = config(
        r#"
            [providers.p]
            base-url = "http://b/v1"
            thinking-param = "reasoning"
            "#,
    );
    global.merge(project);
    let p = provider_of(&global, "p");
    assert_eq!(p.base_url, "http://b/v1");
    assert_eq!(p.thinking_param.as_deref(), Some("reasoning"));
}

#[test]
fn the_project_wins_and_unset_keys_leave_the_global_alone() {
    let mut global = config("model = \"g/m\"\n[agent]\nmax-steps = 99\npair = false\n");
    let project = config("[agent]\npair = true\n");
    global.merge(project);

    assert!(global.pair(), "the project's `pair` must win");
    assert_eq!(global.max_steps(), 99, "a key the project omits keeps the global value");
    assert_eq!(global.model.as_deref(), Some("g/m"));
}

#[test]
fn a_project_model_block_does_not_delete_the_globals_fields() {
    let mut global = config(
        r#"
            [models."p/m"]
            input = 0.5
            output = 1.5
            temperature = 0.6
            top-p = 0.95
            top-k = 20
            context = 32000
            "#,
    );
    let project = config(
        r#"
            [models."p/m"]
            input = 0.3
            output = 1.2
            "#,
    );
    global.merge(project);

    let m = model_of(&global, "p/m");
    assert_eq!(m.input, num("0.3"), "the project's price wins");
    assert_eq!(m.output, num("1.2"), "the project's price wins");
    assert_eq!(m.temperature, num("0.6"), "a field the block omits keeps the global value");
    assert_eq!(m.top_p, num("0.95"));
    assert_eq!(m.top_k, Some(20));
    assert_eq!(m.context, Some(32000));
}

#[test]
fn a_project_only_model_block_applies() {
    let mut global = Config::default();
    let project =
        config("[models.\"p/m\"]\ninput = 0.3\noutput = 1.2\ntemperature = 0.6\n");
    global.merge(project);

    let m = model_of(&global, "p/m");
    assert_eq!(m.input, num("0.3"));
    assert_eq!(m.output, num("1.2"));
    assert_eq!(m.temperature, num("0.6"));
}

#[test]
fn an_empty_configuration_changes_nothing() {
    let mut global = config("model = \"g/m\"\n[agent]\nmax-steps = 99\n");
    let before = format!("{global:?}");
    global.merge(Config::default());
    assert_eq!(format!("{global:?}"), before);
}

#[test]
fn a_thinking_setting_is_read_in_every_spelling() {
    let read = |s: &str| config(&format!("[agent]\nthinking = {s}\n")).thinking();
    assert_eq!(read("2000"), Some(Thinking::Budget(2000)));
    assert_eq!(read("0"), Some(Thinking::Off));
    assert_eq!(read("\"off\""), Some(Thinking::Off));
    assert_eq!(read("\" On \""), Some(Thinking::On));
    assert_eq!(read("\"high\""), Some(Thinking::Effort(Effort::High)));
    assert_eq!(read("\"1500\""), Some(Thinking::Budget(1500)));
    assert_eq!(read("\"sometimes\""), None);
    assert_eq!(Config::default().thinking(), None);
}
