//! Configuration: a project's settings over the global ones, field by field, and what
//! follows from them.
//!
//! Numbers with a fraction are kept as they are written.
use vstd::prelude::*;
use vstd::string::*;

use crate::json::Number;
use crate::list::{concat, group_lists, join, views};
use crate::llm::{effort_named, Effort, Thinking};
use crate::paths::{join_path, joined_path};
use crate::supervisor::{mode_named, Mode, SupervisorConfig};
use crate::text::{
    ascii_lowered, chars_of, copy_opt, cut_once, dec, decimal, joined, lower_ascii, opt_view,
    parse_nat, parse_number, same, split_once, trim, trimmed,
};
use crate::trust::Decision;

verus! {

broadcast use group_lists;

/// Web search provider. Fetching a URL needs none.
#[derive(Debug, Clone, Copy, PartialEq, Eq, Structural)]
pub enum WebProvider {
    Brave,
    Tavily,
    Searxng,
}

/// The provider that a word names, whatever its case and the space around it.
pub open spec fn provider_named(s: Seq<char>) -> Option<WebProvider> {
    let t = ascii_lowered(trim(s));
    if t == "brave"@ {
        Some(WebProvider::Brave)
    } else if t == "tavily"@ {
        Some(WebProvider::Tavily)
    } else if t == "searxng"@ || t == "searx"@ {
        Some(WebProvider::Searxng)
    } else {
        None
    }
}

impl WebProvider {
    /// Parse a provider.
    pub fn parse(s: &str) -> (r: Option<WebProvider>)
        ensures
            r == provider_named(s@),
    {
        let t = trimmed(s);
        let t = lower_ascii(t.as_str());
        let t = t.as_str();
        if same(t, "brave") {
            Some(WebProvider::Brave)
        } else if same(t, "tavily") {
            Some(WebProvider::Tavily)
        } else if same(t, "searxng") || same(t, "searx") {
            Some(WebProvider::Searxng)
        } else {
            None
        }
    }
}

/// The web section.
#[derive(Debug, Clone, Default)]
pub struct WebConfig {
    /// `brave` | `tavily` | `searxng`. Unset = web search is unavailable.
    pub provider: Option<String>,
    /// Variable that holds the provider's API key.
    pub api_key_env: Option<String>,
    /// Another endpoint.
    pub base_url: Option<String>,
}

/// A resolved web-search setup.
#[derive(Debug)]
pub struct ResolvedWeb {
    pub provider: Option<WebProvider>,
    pub api_key_env: Option<String>,
    pub base_url: Option<String>,
}

/// The section on spawned workers. Times are in seconds.
#[derive(Debug, Clone, Default)]
pub struct AgentsConfig {
    /// Workers that run at the same time.
    pub max: Option<usize>,
    /// `off` | `rules` | `model`: how closely workers are watched.
    pub supervisor: Option<String>,
    /// Silence before the supervisor nudges.
    pub stuck_timeout: Option<u64>,
    /// Nudges before the supervisor stops the worker.
    pub max_nudges: Option<usize>,
    /// Identical tool calls before the supervisor nudges.
    pub repeat_threshold: Option<u32>,
    /// Failures of the same check before the supervisor steps in.
    pub stuck_check_threshold: Option<u32>,
    /// Completion tokens that a worker may spend.
    pub token_budget: Option<u32>,
    /// How long one model call may take.
    pub request_timeout: Option<u64>,
    /// `auto` | `off`: may a bare spawn fan out?
    pub fanout: Option<String>,
    /// Run a turn that combines the results of a fan-out.
    pub synthesize: Option<bool>,
    /// A check that every worker must pass.
    pub validate: Option<String>,
    /// Model that workers run on.
    pub model: Option<String>,
}

/// A provider's section.
#[derive(Debug, Clone)]
pub struct ProviderConfig {
    /// `openai-compat`.
    pub kind: String,
    pub base_url: String,
    /// Variable that holds the API key.
    pub api_key_env: Option<String>,
    /// How this provider spells "don't think".
    pub thinking_param: Option<String>,
    /// The request field for a reasoning budget.
    pub reasoning_budget_param: Option<String>,
    /// Seconds of silence between chunks before a request is given up.
    pub stream_idle_timeout: Option<u64>,
    /// Routing: `throughput`, `latency` or `price`.
    pub sort: Option<String>,
}

/// The kind of a provider that does not name one.
pub fn default_provider_kind() -> (r: String)
    ensures
        r@ == "openai-compat"@,
{
    "openai-compat".to_owned()
}

/// The section on the agent.
#[derive(Debug, Clone, Default)]
pub struct AgentConfig {
    pub max_steps: Option<usize>,
    /// Attempts after a failed check.
    pub max_retries: Option<usize>,
    /// Identical calls that count as stuck.
    pub stuck_threshold: Option<u32>,
    /// The check that a turn must pass.
    pub validate: Option<String>,
    /// The context window, in tokens.
    pub context_limit: Option<usize>,
    /// User turns that are kept when history is summarized.
    pub keep_recent_turns: Option<usize>,
    /// How much the model reasons.
    pub thinking: Option<ThinkingSetting>,
    /// Offer pairing checkpoints.
    pub pair: Option<bool>,
}

/// `thinking = "off"`, `thinking = "on"`, or `thinking = 2000`.
#[derive(Debug, Clone)]
pub enum ThinkingSetting {
    Budget(u32),
    Mode(String),
}

/// The section on tools.
#[derive(Debug, Clone, Default)]
pub struct ToolsConfig {
    pub bash_timeout_secs: Option<u64>,
}

/// What one model costs and how it wants to be sampled.
#[derive(Debug, PartialEq, Eq, Clone)]
pub struct ModelSettings {
    /// Price per million prompt tokens.
    pub input: Option<Number>,
    /// Price per million completion tokens.
    pub output: Option<Number>,
    pub temperature: Option<Number>,
    pub top_p: Option<Number>,
    pub top_k: Option<u32>,
    /// The model's context window, in tokens.
    pub context: Option<usize>,
}

/// The section on the terminal.
#[derive(Debug, Clone, Default)]
pub struct TuiConfig {
    /// Two keys that leave the composer. Empty disables it.
    pub insert_escape: Option<String>,
    /// How quickly they must follow each other, in milliseconds.
    pub insert_escape_ms: Option<u64>,
}

/// Merged configuration.
#[derive(Debug, Clone)]
pub struct Config {
    /// Default model as `provider/model`, or a bare model if there is one provider.
    pub model: Option<String>,
    pub temperature: Option<Number>,
    pub max_tokens: Option<u32>,
    pub providers: Vec<(String, ProviderConfig)>,
    pub agent: AgentConfig,
    pub tools: ToolsConfig,
    pub agents: AgentsConfig,
    pub web: WebConfig,
    pub tui: TuiConfig,
    /// Per-model settings, by `provider/model`.
    pub models: Vec<(String, ModelSettings)>,
    /// Where pairing checkpoints file decisions.
    pub decisions_dir: Option<String>,
}

/// What a `Config` says.
pub struct Settings {
    pub model: Option<String>,
    pub temperature: Option<Number>,
    pub max_tokens: Option<u32>,
    pub providers: Seq<(String, ProviderConfig)>,
    pub agent: AgentConfig,
    pub tools: ToolsConfig,
    pub agents: AgentsConfig,
    pub web: WebConfig,
    pub tui: TuiConfig,
    pub models: Seq<(String, ModelSettings)>,
    pub decisions_dir: Option<String>,
}

impl View for Config {
    type V = Settings;

    open spec fn view(&self) -> Settings {
        Settings {
            model: self.model,
            temperature: self.temperature,
            max_tokens: self.max_tokens,
            providers: self.providers@,
            agent: self.agent,
            tools: self.tools,
            agents: self.agents,
            web: self.web,
            tui: self.tui,
            models: self.models@,
            decisions_dir: self.decisions_dir,
        }
    }
}

// ---- merging ----------------------------------------------------------------

/// What a setting is once a higher one is laid over it: the higher one, where it says
/// something.
pub open spec fn over<T>(mine: Option<T>, theirs: Option<T>) -> Option<T> {
    match theirs {
        Some(t) => Some(t),
        None => mine,
    }
}

fn lay<T>(mine: &mut Option<T>, theirs: Option<T>)
    ensures
        *final(mine) == over(*old(mine), theirs),
{
    if theirs.is_some() {
        *mine = theirs;
    }
}

/// A provider once another block for it is laid over. The address and the kind are
/// always said, so they always win.
pub open spec fn provider_over(a: ProviderConfig, b: ProviderConfig) -> ProviderConfig {
    ProviderConfig {
        kind: b.kind,
        base_url: b.base_url,
        api_key_env: over(a.api_key_env, b.api_key_env),
        thinking_param: over(a.thinking_param, b.thinking_param),
        reasoning_budget_param: over(a.reasoning_budget_param, b.reasoning_budget_param),
        stream_idle_timeout: over(a.stream_idle_timeout, b.stream_idle_timeout),
        sort: over(a.sort, b.sort),
    }
}

/// A model's settings once another block for it is laid over.
pub open spec fn model_over(a: ModelSettings, b: ModelSettings) -> ModelSettings {
    ModelSettings {
        input: over(a.input, b.input),
        output: over(a.output, b.output),
        temperature: over(a.temperature, b.temperature),
        top_p: over(a.top_p, b.top_p),
        top_k: over(a.top_k, b.top_k),
        context: over(a.context, b.context),
    }
}

/// The index of the first entry for `key`, or the length.
pub open spec fn key_index<T>(s: Seq<(String, T)>, key: Seq<char>) -> nat
    decreases s.len(),
{
    if s.len() == 0 || s[0].0@ == key {
        0
    } else {
        1 + key_index(s.drop_first(), key)
    }
}

/// The entry for `key`.
pub open spec fn entry_of<T>(s: Seq<(String, T)>, key: Seq<char>) -> Option<T> {
    if key_index(s, key) < s.len() {
        Some(s[key_index(s, key) as int].1)
    } else {
        None
    }
}

pub proof fn lemma_key_index<T>(s: Seq<(String, T)>, key: Seq<char>)
    ensures
        key_index(s, key) <= s.len(),
        key_index(s, key) < s.len() ==> s[key_index(s, key) as int].0@ == key,
        forall|i: int| 0 <= i < key_index(s, key) ==> (#[trigger] s[i]).0@ != key,
    decreases s.len(),
{
    if s.len() > 0 && s[0].0@ != key {
        lemma_key_index(s.drop_first(), key);
        assert forall|i: int| 0 <= i < key_index(s, key) implies (#[trigger] s[i]).0@ != key by {
            if i > 0 {
                assert(s[i] == s.drop_first()[i - 1]);
            }
        }
    }
}

proof fn lemma_key_index_is<T>(s: Seq<(String, T)>, key: Seq<char>, n: nat)
    requires
        n <= s.len(),
        n < s.len() ==> s[n as int].0@ == key,
        forall|i: int| 0 <= i < n ==> (#[trigger] s[i]).0@ != key,
    ensures
        key_index(s, key) == n,
{
    lemma_key_index(s, key);
    let m = key_index(s, key);
    if m < n {
        assert(s[m as int].0@ != key);
    } else if n < m {
        assert(s[n as int].0@ != key);
    }
}

fn find_key<T>(v: &Vec<(String, T)>, key: &str) -> (r: usize)
    ensures
        r == key_index(v@, key@),
        r <= v@.len(),
        r < v@.len() ==> v@[r as int].0@ == key@,
{
    let mut i: usize = 0;
    while i < v.len() && !same(v[i].0.as_str(), key)
        invariant
            i <= v@.len(),
            forall|j: int| 0 <= j < i ==> (#[trigger] v@[j]).0@ != key@,
        decreases v.len() - i,
    {
        i = i + 1;
    }
    proof {
        lemma_key_index_is(v@, key@, i as nat);
    }
    i
}

/// The providers once one block is laid over them.
pub open spec fn provider_put(
    s: Seq<(String, ProviderConfig)>,
    e: (String, ProviderConfig),
) -> Seq<(String, ProviderConfig)> {
    let i = key_index(s, e.0@) as int;
    if i < s.len() {
        s.update(i, (s[i].0, provider_over(s[i].1, e.1)))
    } else {
        s.push(e)
    }
}

/// The providers once the first `n` blocks of `other` are laid over them.
pub open spec fn providers_over(
    s: Seq<(String, ProviderConfig)>,
    other: Seq<(String, ProviderConfig)>,
    n: nat,
) -> Seq<(String, ProviderConfig)>
    decreases n,
{
    if n == 0 {
        s
    } else {
        provider_put(providers_over(s, other, (n - 1) as nat), other[n - 1])
    }
}

/// The models once one block is laid over them.
pub open spec fn model_put(
    s: Seq<(String, ModelSettings)>,
    e: (String, ModelSettings),
) -> Seq<(String, ModelSettings)> {
    let i = key_index(s, e.0@) as int;
    if i < s.len() {
        s.update(i, (s[i].0, model_over(s[i].1, e.1)))
    } else {
        s.push(e)
    }
}

/// The models once the first `n` blocks of `other` are laid over them.
pub open spec fn models_over(
    s: Seq<(String, ModelSettings)>,
    other: Seq<(String, ModelSettings)>,
    n: nat,
) -> Seq<(String, ModelSettings)>
    decreases n,
{
    if n == 0 {
        s
    } else {
        model_put(models_over(s, other, (n - 1) as nat), other[n - 1])
    }
}

/// The agent's section once another is laid over it.
pub open spec fn agent_over(a: AgentConfig, b: AgentConfig) -> AgentConfig {
    AgentConfig {
        max_steps: over(a.max_steps, b.max_steps),
        max_retries: over(a.max_retries, b.max_retries),
        stuck_threshold: over(a.stuck_threshold, b.stuck_threshold),
        validate: over(a.validate, b.validate),
        context_limit: over(a.context_limit, b.context_limit),
        keep_recent_turns: over(a.keep_recent_turns, b.keep_recent_turns),
        thinking: over(a.thinking, b.thinking),
        pair: over(a.pair, b.pair),
    }
}

/// The workers' section once another is laid over it.
pub open spec fn agents_over(a: AgentsConfig, b: AgentsConfig) -> AgentsConfig {
    AgentsConfig {
        max: over(a.max, b.max),
        supervisor: over(a.supervisor, b.supervisor),
        stuck_timeout: over(a.stuck_timeout, b.stuck_timeout),
        max_nudges: over(a.max_nudges, b.max_nudges),
        repeat_threshold: over(a.repeat_threshold, b.repeat_threshold),
        stuck_check_threshold: over(a.stuck_check_threshold, b.stuck_check_threshold),
        token_budget: over(a.token_budget, b.token_budget),
        request_timeout: over(a.request_timeout, b.request_timeout),
        fanout: over(a.fanout, b.fanout),
        synthesize: over(a.synthesize, b.synthesize),
        validate: over(a.validate, b.validate),
        model: over(a.model, b.model),
    }
}

/// A configuration once another is laid over it: every setting, field by field.
pub open spec fn settings_over(a: Settings, b: Settings) -> Settings {
    Settings {
        model: over(a.model, b.model),
        temperature: over(a.temperature, b.temperature),
        max_tokens: over(a.max_tokens, b.max_tokens),
        providers: providers_over(a.providers, b.providers, b.providers.len()),
        agent: agent_over(a.agent, b.agent),
        tools: ToolsConfig {
            bash_timeout_secs: over(a.tools.bash_timeout_secs, b.tools.bash_timeout_secs),
        },
        agents: agents_over(a.agents, b.agents),
        web: WebConfig {
            provider: over(a.web.provider, b.web.provider),
            api_key_env: over(a.web.api_key_env, b.web.api_key_env),
            base_url: over(a.web.base_url, b.web.base_url),
        },
        tui: TuiConfig {
            insert_escape: over(a.tui.insert_escape, b.tui.insert_escape),
            insert_escape_ms: over(a.tui.insert_escape_ms, b.tui.insert_escape_ms),
        },
        models: models_over(a.models, b.models, b.models.len()),
        decisions_dir: over(a.decisions_dir, b.decisions_dir),
    }
}

/// A configuration that says nothing.
pub open spec fn unset(s: Settings) -> bool {
    &&& s.model is None
    &&& s.temperature is None
    &&& s.max_tokens is None
    &&& s.providers.len() == 0
    &&& s.agent == no_agent()
    &&& s.tools.bash_timeout_secs is None
    &&& s.agents == no_agents()
    &&& s.web.provider is None
    &&& s.web.api_key_env is None
    &&& s.web.base_url is None
    &&& s.tui.insert_escape is None
    &&& s.tui.insert_escape_ms is None
    &&& s.models.len() == 0
    &&& s.decisions_dir is None
}

/// An agent's section that says nothing.
pub open spec fn no_agent() -> AgentConfig {
    AgentConfig {
        max_steps: None,
        max_retries: None,
        stuck_threshold: None,
        validate: None,
        context_limit: None,
        keep_recent_turns: None,
        thinking: None,
        pair: None,
    }
}

/// A workers' section that says nothing.
pub open spec fn no_agents() -> AgentsConfig {
    AgentsConfig {
        max: None,
        supervisor: None,
        stuck_timeout: None,
        max_nudges: None,
        repeat_threshold: None,
        stuck_check_threshold: None,
        token_budget: None,
        request_timeout: None,
        fanout: None,
        synthesize: None,
        validate: None,
        model: None,
    }
}

impl Default for Config {
    fn default() -> (r: Config)
        ensures
            unset(r@),
    {
        Config {
            model: None,
            temperature: None,
            max_tokens: None,
            providers: Vec::new(),
            agent: AgentConfig {
                max_steps: None,
                max_retries: None,
                stuck_threshold: None,
                validate: None,
                context_limit: None,
                keep_recent_turns: None,
                thinking: None,
                pair: None,
            },
            tools: ToolsConfig { bash_timeout_secs: None },
            agents: AgentsConfig {
                max: None,
                supervisor: None,
                stuck_timeout: None,
                max_nudges: None,
                repeat_threshold: None,
                stuck_check_threshold: None,
                token_budget: None,
                request_timeout: None,
                fanout: None,
                synthesize: None,
                validate: None,
                model: None,
            },
            web: WebConfig { provider: None, api_key_env: None, base_url: None },
            tui: TuiConfig { insert_escape: None, insert_escape_ms: None },
            models: Vec::new(),
            decisions_dir: None,
        }
    }
}

impl Default for ModelSettings {
    fn default() -> (r: ModelSettings)
        ensures
            r == no_settings(),
    {
        ModelSettings {
            input: None,
            output: None,
            temperature: None,
            top_p: None,
            top_k: None,
            context: None,
        }
    }
}

/// Settings of a model that say nothing.
pub open spec fn no_settings() -> ModelSettings {
    ModelSettings {
        input: None,
        output: None,
        temperature: None,
        top_p: None,
        top_k: None,
        context: None,
    }
}

impl ModelSettings {
    /// Lay another block for the same model over this one.
    pub fn merge(&mut self, other: ModelSettings)
        ensures
            *final(self) == model_over(*old(self), other),
    {
        lay(&mut self.input, other.input);
        lay(&mut self.output, other.output);
        lay(&mut self.temperature, other.temperature);
        lay(&mut self.top_p, other.top_p);
        lay(&mut self.top_k, other.top_k);
        lay(&mut self.context, other.context);
    }
}

impl ProviderConfig {
    /// Lay another block for the same provider over this one.
    pub fn merge(&mut self, other: ProviderConfig)
        ensures
            *final(self) == provider_over(*old(self), other),
    {
        self.kind = other.kind;
        self.base_url = other.base_url;
        lay(&mut self.api_key_env, other.api_key_env);
        lay(&mut self.thinking_param, other.thinking_param);
        lay(&mut self.reasoning_budget_param, other.reasoning_budget_param);
        lay(&mut self.stream_idle_timeout, other.stream_idle_timeout);
        lay(&mut self.sort, other.sort);
    }
}

fn merge_providers(mine: &mut Vec<(String, ProviderConfig)>, other: Vec<(String, ProviderConfig)>)
    ensures
        final(mine)@ == providers_over(old(mine)@, other@, other@.len()),
{
    let ghost before = mine@;
    let ghost all = other@;
    let mut rest = other;
    let ghost mut done: nat = 0;
    while rest.len() > 0
        invariant
            done <= all.len(),
            rest@ == all.skip(done as int),
            mine@ == providers_over(before, all, done),
        decreases rest.len(),
    {
        let e = rest.remove(0);
        assert(e == all[done as int]);
        let i = find_key(mine, e.0.as_str());
        if i < mine.len() {
            mine[i].1.merge(e.1);
            assert(mine@ =~= providers_over(before, all, done + 1));
        } else {
            mine.push(e);
        }
        proof {
            done = done + 1;
            assert(rest@ =~= all.skip(done as int));
        }
    }
}

fn merge_models(mine: &mut Vec<(String, ModelSettings)>, other: Vec<(String, ModelSettings)>)
    ensures
        final(mine)@ == models_over(old(mine)@, other@, other@.len()),
{
    let ghost before = mine@;
    let ghost all = other@;
    let mut rest = other;
    let ghost mut done: nat = 0;
    while rest.len() > 0
        invariant
            done <= all.len(),
            rest@ == all.skip(done as int),
            mine@ == models_over(before, all, done),
        decreases rest.len(),
    {
        let e = rest.remove(0);
        assert(e == all[done as int]);
        let i = find_key(mine, e.0.as_str());
        if i < mine.len() {
            mine[i].1.merge(e.1);
            assert(mine@ =~= models_over(before, all, done + 1));
        } else {
            mine.push(e);
        }
        proof {
            done = done + 1;
            assert(rest@ =~= all.skip(done as int));
        }
    }
}

/// What to do about a project's configuration.
#[derive(Debug, Clone, Copy, PartialEq, Eq, Structural)]
pub enum Gate {
    /// Lay it over the global one.
    Apply,
    /// Leave it alone.
    Skip,
    /// Leave it alone, and ask about it.
    Ask,
}

/// What to do about a project's configuration, given what was decided about exactly
/// this content. Undecided is "not yet", never "yes".
pub open spec fn gate_for(decision: Option<Decision>) -> Gate {
    match decision {
        Some(Decision::Trust) => Gate::Apply,
        Some(Decision::Ignore) => Gate::Skip,
        None => Gate::Ask,
    }
}

/// What to do about a project's configuration, given what was decided about exactly
/// this content.
pub fn project_gate(decision: Option<Decision>) -> (r: Gate)
    ensures
        r == gate_for(decision),
{
    match decision {
        Some(Decision::Trust) => Gate::Apply,
        Some(Decision::Ignore) => Gate::Skip,
        None => Gate::Ask,
    }
}

// ---- resolving --------------------------------------------------------------

/// The annotated example beside the global configuration.
pub const EXAMPLE_CONFIG: &'static str = "config.example.toml";

/// The file of the global configuration, in the global directory.
pub open spec fn config_file(global_dir: Option<Seq<char>>) -> Option<Seq<char>> {
    match global_dir {
        Some(d) => Some(joined_path(d, "config.toml"@)),
        None => None,
    }
}

/// The file of the global configuration, in the global directory.
pub fn global_config_path(global_dir: &Option<String>) -> (r: Option<String>)
    ensures
        opt_view(r) == config_file(opt_view(*global_dir)),
{
    match global_dir {
        Some(d) => Some(join_path(d.as_str(), "config.toml")),
        None => None,
    }
}

/// The global directory: the one that the environment names, else the one in the home
/// directory.
pub fn global_dir(named: Option<String>, home: Option<String>) -> (r: Option<String>)
    ensures
        opt_view(r) == match named {
            Some(d) => Some(d@),
            None => match home {
                Some(h) => Some(joined_path(h@, ".worksmith"@)),
                None => None,
            },
        },
{
    match named {
        Some(d) => Some(d),
        None => match home {
            Some(h) => Some(join_path(h.as_str(), ".worksmith")),
            None => None,
        },
    }
}

/// How the file of the global configuration is named to the user.
pub open spec fn shown_config(dir: Option<Seq<char>>) -> Seq<char> {
    match config_file(dir) {
        Some(p) => p,
        None => "~/.worksmith/config.toml"@,
    }
}

/// How the annotated example is named to the user.
pub open spec fn shown_example(dir: Option<Seq<char>>) -> Seq<char> {
    match dir {
        Some(d) => joined_path(d, EXAMPLE_CONFIG@),
        None => seq![],
    }
}

fn show_config(dir: &Option<String>) -> (r: String)
    ensures
        r@ == shown_config(opt_view(*dir)),
{
    match global_config_path(dir) {
        Some(p) => p,
        None => "~/.worksmith/config.toml".to_owned(),
    }
}

fn show_example(dir: &Option<String>) -> (r: String)
    ensures
        r@ == shown_example(opt_view(*dir)),
{
    match dir {
        Some(d) => join_path(d.as_str(), EXAMPLE_CONFIG),
        None => {
            let none = String::new();
            assert(none@ =~= seq![]);
            none
        },
    }
}

/// A provider and a model, chosen.
#[derive(Debug)]
pub struct Resolution {
    pub provider_name: String,
    /// The provider's place in the configuration.
    pub provider: usize,
    pub model: String,
    /// The place of the model's settings, where it has any.
    pub settings: Option<usize>,
    /// The variable that holds the API key.
    pub api_key_env: Option<String>,
}

/// What a choice of provider and model says.
pub struct Chosen {
    pub provider_name: Seq<char>,
    pub provider: ProviderConfig,
    pub model: Seq<char>,
    pub settings: ModelSettings,
}

/// The names of the entries.
pub open spec fn keys<T>(s: Seq<(String, T)>) -> Seq<Seq<char>> {
    Seq::new(s.len(), |i: int| s[i].0@)
}

/// The error when there is no model to use.
pub open spec fn no_model(dir: Option<Seq<char>>) -> Seq<char> {
    "no model configured — set `model` in "@ + shown_config(dir)
        + ", or pass --model\nan annotated starter config is at "@ + shown_example(dir)
        + ": copy it to config.toml and set `model` plus the matching [providers.*] section"@
}

/// The error when the provider is not configured.
pub open spec fn no_provider(
    name: Seq<char>,
    known: Seq<Seq<char>>,
    dir: Option<Seq<char>>,
) -> Seq<char> {
    if known.len() == 0 {
        "provider `"@ + name
            + "` not found — no providers are configured. Add a [providers."@ + name
            + "] section to "@ + shown_config(dir) + " (see "@ + shown_example(dir)
            + " for a worked example)"@
    } else {
        "provider `"@ + name + "` not found in "@ + shown_config(dir) + " (configured: "@ + join(
            known,
            ", "@,
        ) + ")"@
    }
}

/// Is this a way of routing?
pub open spec fn routing(sort: Seq<char>) -> bool {
    sort == "throughput"@ || sort == "latency"@ || sort == "price"@
}

/// The provider and the model that a name stands for: `provider/model`, or a bare
/// model where there is one provider. Or the error.
pub open spec fn name_split(s: Settings, spec_: Seq<char>) -> Result<(Seq<char>, Seq<char>), Seq<char>> {
    match split_once(spec_, '/') {
        Some((p, m)) => Ok((p, m)),
        None => if s.providers.len() == 1 {
            Ok((s.providers[0].0@, spec_))
        } else {
            Err(
                "model `"@ + spec_ + "` has no provider prefix and "@ + dec(s.providers.len())
                    + " providers are configured; use `provider/model`"@,
            )
        },
    }
}

/// The choice that a name, or the configured default, comes to. Or the error.
pub open spec fn resolved(s: Settings, named: Option<Seq<char>>, dir: Option<Seq<char>>) -> Result<
    Chosen,
    Seq<char>,
> {
    match over(opt_view(s.model), named) {
        None => Err(no_model(dir)),
        Some(spec_) => match name_split(s, spec_) {
            Err(e) => Err(e),
            Ok((name, model)) => match entry_of(s.providers, name) {
                None => Err(no_provider(name, keys(s.providers), dir)),
                Some(p) => if p.sort is Some && !routing(p.sort->0@) {
                    Err(
                        "provider `"@ + name + "`: sort = \""@ + p.sort->0@
                            + "\" is not one of throughput, latency, price"@,
                    )
                } else {
                    Ok(
                        Chosen {
                            provider_name: name,
                            provider: p,
                            model,
                            settings: match entry_of(s.models, name + "/"@ + model) {
                                Some(m) => m,
                                None => no_settings(),
                            },
                        },
                    )
                },
            },
        },
    }
}

fn key_names<T>(v: &Vec<(String, T)>) -> (r: Vec<String>)
    ensures
        views(r@) == keys(v@),
{
    let mut r: Vec<String> = Vec::new();
    let mut i: usize = 0;
    while i < v.len()
        invariant
            i <= v@.len(),
            views(r@) == keys(v@).take(i as int),
        decreases v.len() - i,
    {
        r.push(v[i].0.clone());
        i = i + 1;
        assert(views(r@) =~= keys(v@).take(i as int));
    }
    assert(views(r@) =~= keys(v@));
    r
}

impl Config {
    /// What a resolution says of this configuration.
    pub open spec fn chosen(&self, r: Resolution) -> Chosen {
        Chosen {
            provider_name: r.provider_name@,
            provider: self.providers@[r.provider as int].1,
            model: r.model@,
            settings: match r.settings {
                Some(i) => self.models@[i as int].1,
                None => no_settings(),
            },
        }
    }

    /// Is there a provider of that name?
    pub fn has_provider(&self, name: &str) -> (r: bool)
        ensures
            r == (entry_of(self@.providers, name@) is Some),
    {
        find_key(&self.providers, name) < self.providers.len()
    }

    /// The names of the providers.
    pub fn provider_names(&self) -> (r: Vec<String>)
        ensures
            views(r@) == keys(self@.providers),
    {
        key_names(&self.providers)
    }

    /// Lay another configuration over this one, field by field.
    pub fn merge(&mut self, other: Config)
        ensures
            final(self)@ == settings_over(old(self)@, other@),
    {
        lay(&mut self.model, other.model);
        lay(&mut self.temperature, other.temperature);
        lay(&mut self.max_tokens, other.max_tokens);
        merge_providers(&mut self.providers, other.providers);
        lay(&mut self.agents.max, other.agents.max);
        lay(&mut self.agents.supervisor, other.agents.supervisor);
        lay(&mut self.agents.stuck_timeout, other.agents.stuck_timeout);
        lay(&mut self.agents.max_nudges, other.agents.max_nudges);
        lay(&mut self.agents.repeat_threshold, other.agents.repeat_threshold);
        lay(&mut self.agents.stuck_check_threshold, other.agents.stuck_check_threshold);
        lay(&mut self.agents.token_budget, other.agents.token_budget);
        lay(&mut self.agents.request_timeout, other.agents.request_timeout);
        lay(&mut self.agents.fanout, other.agents.fanout);
        lay(&mut self.agents.synthesize, other.agents.synthesize);
        lay(&mut self.agents.validate, other.agents.validate);
        lay(&mut self.agents.model, other.agents.model);
        lay(&mut self.agent.max_steps, other.agent.max_steps);
        lay(&mut self.agent.max_retries, other.agent.max_retries);
        lay(&mut self.agent.stuck_threshold, other.agent.stuck_threshold);
        lay(&mut self.agent.validate, other.agent.validate);
        lay(&mut self.agent.context_limit, other.agent.context_limit);
        lay(&mut self.agent.keep_recent_turns, other.agent.keep_recent_turns);
        lay(&mut self.agent.thinking, other.agent.thinking);
        lay(&mut self.agent.pair, other.agent.pair);
        lay(&mut self.decisions_dir, other.decisions_dir);
        lay(&mut self.tools.bash_timeout_secs, other.tools.bash_timeout_secs);
        lay(&mut self.web.provider, other.web.provider);
        lay(&mut self.web.api_key_env, other.web.api_key_env);
        lay(&mut self.web.base_url, other.web.base_url);
        merge_models(&mut self.models, other.models);
        lay(&mut self.tui.insert_escape, other.tui.insert_escape);
        lay(&mut self.tui.insert_escape_ms, other.tui.insert_escape_ms);
    }

    /// Model calls per attempt.
    pub fn max_steps(&self) -> (r: usize)
        ensures
            r == default_to(self.agent.max_steps, 50),
    {
        match self.agent.max_steps {
            Some(n) => n,
            None => 50,
        }
    }

    /// Attempts after a failed check.
    pub fn max_retries(&self) -> (r: usize)
        ensures
            r == default_to(self.agent.max_retries, 3),
    {
        match self.agent.max_retries {
            Some(n) => n,
            None => 3,
        }
    }

    /// Identical calls that count as stuck.
    pub fn stuck_threshold(&self) -> (r: u32)
        ensures
            r == default_to(self.agent.stuck_threshold, 3),
    {
        match self.agent.stuck_threshold {
            Some(n) => n,
            None => 3,
        }
    }

    /// The two keys that leave the composer, and how fast they must be typed, in
    /// milliseconds. `None` when disabled: only two keys are supported.
    pub fn insert_escape(&self) -> (r: Option<(char, char, u64)>)
        ensures
            r == ({
                let keys = match self.tui.insert_escape {
                    Some(s) => s@,
                    None => "jj"@,
                };
                if keys.len() == 2 {
                    Some((keys[0], keys[1], default_to(self.tui.insert_escape_ms, 300)))
                } else {
                    None
                }
            }),
    {
        let keys = match &self.tui.insert_escape {
            Some(s) => chars_of(s.as_str()),
            None => chars_of("jj"),
        };
        if keys.len() != 2 {
            return None;
        }
        let ms: u64 = match self.tui.insert_escape_ms {
            Some(n) => n,
            None => 300,
        };
        Some((keys[0], keys[1], ms))
    }

    /// The check that workers must pass.
    pub fn agents_validate(&self) -> (r: Option<String>)
        ensures
            opt_view(r) == opt_view(self.agents.validate),
    {
        copy_opt(&self.agents.validate)
    }

    /// The check that a turn must pass.
    pub fn validate_command(&self) -> (r: Option<String>)
        ensures
            opt_view(r) == opt_view(self.agent.validate),
    {
        copy_opt(&self.agent.validate)
    }

    /// The context window, in tokens.
    pub fn context_limit(&self) -> (r: usize)
        ensures
            r == default_to(self.agent.context_limit, 128_000),
    {
        match self.agent.context_limit {
            Some(n) => n,
            None => 128_000,
        }
    }

    /// Where decisions are filed.
    pub fn decisions_dir(&self) -> (r: String)
        ensures
            r@ == match self.decisions_dir {
                Some(d) => d@,
                None => ".worksmith/decisions"@,
            },
    {
        match &self.decisions_dir {
            Some(d) => d.clone(),
            None => ".worksmith/decisions".to_owned(),
        }
    }

    /// Do pairing checkpoints start switched on?
    pub fn pair(&self) -> (r: bool)
        ensures
            r == default_to(self.agent.pair, false),
    {
        match self.agent.pair {
            Some(b) => b,
            None => false,
        }
    }

    /// User turns that are kept when history is summarized.
    pub fn keep_recent_turns(&self) -> (r: usize)
        ensures
            r == default_to(self.agent.keep_recent_turns, 6),
    {
        match self.agent.keep_recent_turns {
            Some(n) => n,
            None => 6,
        }
    }

    /// How much the model reasons. `None` leaves the provider alone.
    pub fn thinking(&self) -> (r: Option<Thinking>)
        ensures
            r == match self.agent.thinking {
                Some(t) => thinking_set(t),
                None => None,
            },
    {
        match &self.agent.thinking {
            None => None,
            Some(t) => match t {
                ThinkingSetting::Budget(n) => if *n > 0 {
                    Some(Thinking::Budget(*n))
                } else {
                    Some(Thinking::Off)
                },
                ThinkingSetting::Mode(v) => {
                    let v = trimmed(v.as_str());
                    let low = lower_ascii(v.as_str());
                    let low = low.as_str();
                    if same(low, "off") || same(low, "false") {
                        Some(Thinking::Off)
                    } else if same(low, "on") || same(low, "true") {
                        Some(Thinking::On)
                    } else if let Some(e) = Effort::parse(v.as_str()) {
                        Some(Thinking::Effort(e))
                    } else {
                        match parse_number(v.as_str(), u32::MAX as u64) {
                            Some(n) => if n > 0 {
                                Some(Thinking::Budget(n as u32))
                            } else {
                                None
                            },
                            None => None,
                        }
                    }
                },
            },
        }
    }

    /// Workers that run at the same time.
    pub fn agents_max(&self) -> (r: usize)
        ensures
            r == default_to(self.agents.max, 4),
    {
        match self.agents.max {
            Some(n) => n,
            None => 4,
        }
    }

    /// How workers are watched.
    pub fn supervisor(&self) -> (r: SupervisorConfig)
        ensures
            r.mode == match self.agents.supervisor {
                Some(s) => mode_named(s@),
                None => Mode::Rules,
            },
            r.idle_timeout == default_to(self.agents.stuck_timeout, 120),
            r.max_nudges == default_to(self.agents.max_nudges, 3),
            r.repeat_threshold == default_to(self.agents.repeat_threshold, 4),
            r.stuck_check_threshold == self.agents.stuck_check_threshold,
            r.token_budget == self.agents.token_budget,
            r.request_timeout == default_to(self.agents.request_timeout, 600),
    {
        let d = SupervisorConfig::default();
        SupervisorConfig {
            mode: match &self.agents.supervisor {
                Some(s) => Mode::parse(s.as_str()),
                None => d.mode,
            },
            idle_timeout: match self.agents.stuck_timeout {
                Some(n) => n,
                None => d.idle_timeout,
            },
            max_nudges: match self.agents.max_nudges {
                Some(n) => n,
                None => d.max_nudges,
            },
            repeat_threshold: match self.agents.repeat_threshold {
                Some(n) => n,
                None => d.repeat_threshold,
            },
            stuck_check_threshold: self.agents.stuck_check_threshold,
            token_budget: self.agents.token_budget,
            request_timeout: match self.agents.request_timeout {
                Some(n) => n,
                None => 600,
            },
        }
    }

    /// May a bare spawn be split across workers by the planner?
    pub fn fanout_auto(&self) -> (r: bool)
        ensures
            r == match self.agents.fanout {
                Some(f) => {
                    let t = ascii_lowered(trim(f@));
                    t != "off"@ && t != "none"@ && t != "false"@
                },
                None => true,
            },
    {
        match &self.agents.fanout {
            Some(f) => {
                let t = trimmed(f.as_str());
                let t = lower_ascii(t.as_str());
                let t = t.as_str();
                !same(t, "off") && !same(t, "none") && !same(t, "false")
            },
            None => true,
        }
    }

    /// The model that workers run on, if it differs from the session's.
    pub fn agents_model(&self) -> (r: Option<String>)
        ensures
            opt_view(r) == opt_view(self.agents.model),
    {
        copy_opt(&self.agents.model)
    }

    /// Does a finished fan-out trigger a turn that combines its results?
    pub fn synthesize(&self) -> (r: bool)
        ensures
            r == default_to(self.agents.synthesize, true),
    {
        match self.agents.synthesize {
            Some(b) => b,
            None => true,
        }
    }

    /// The web-search setup.
    pub fn web(&self) -> (r: ResolvedWeb)
        ensures
            r.provider == match self.web.provider {
                Some(p) => provider_named(p@),
                None => None,
            },
            opt_view(r.api_key_env) == opt_view(self.web.api_key_env),
            opt_view(r.base_url) == opt_view(self.web.base_url),
    {
        ResolvedWeb {
            provider: match &self.web.provider {
                Some(p) => WebProvider::parse(p.as_str()),
                None => None,
            },
            api_key_env: copy_opt(&self.web.api_key_env),
            base_url: copy_opt(&self.web.base_url),
        }
    }

    /// How long a command may run, in seconds.
    pub fn bash_timeout_secs(&self) -> (r: u64)
        ensures
            r == default_to(self.tools.bash_timeout_secs, 120),
    {
        match self.tools.bash_timeout_secs {
            Some(n) => n,
            None => 120,
        }
    }

    /// Resolve a name, or the configured default, into a provider and a model. The
    /// global directory is only named.
    pub fn resolve_model(&self, named: Option<&str>, dir: &Option<String>) -> (r: Result<
        Resolution,
        String,
    >)
        ensures
            match resolved(
                self@,
                crate::session::store::opt_str(named),
                opt_view(*dir),
            ) {
                Ok(c) => r matches Ok(x) && {
                    &&& x.provider < self.providers@.len()
                    &&& x.settings matches Some(i) ==> i < self.models@.len()
                    &&& self.chosen(x) == c
                    &&& self.providers@[x.provider as int].0@ == x.provider_name@
                    &&& x.settings matches Some(i) ==> self.models@[i as int].0@
                        == x.provider_name@ + "/"@ + x.model@
                    &&& opt_view(x.api_key_env) == opt_view(c.provider.api_key_env)
                },
                Err(e) => r matches Err(t) && t@ == e,
            },
    {
        let spec_: String = match named {
            Some(n) => n.to_owned(),
            None => match &self.model {
                Some(m) => m.clone(),
                None => {
                    let mut e = "no model configured — set `model` in ".to_owned();
                    let p = show_config(dir);
                    e.append(p.as_str());
                    e.append(", or pass --model\nan annotated starter config is at ");
                    let x = show_example(dir);
                    e.append(x.as_str());
                    e.append(
                        ": copy it to config.toml and set `model` plus the matching [providers.*] section",
                    );
                    return Err(e);
                },
            },
        };
        let (name, model): (String, String) = match cut_once(spec_.as_str(), '/') {
            Some((p, m)) => (p, m),
            None => {
                if self.providers.len() == 1 {
                    (self.providers[0].0.clone(), spec_)
                } else {
                    let mut e = "model `".to_owned();
                    e.append(spec_.as_str());
                    e.append("` has no provider prefix and ");
                    let n = decimal(self.providers.len() as u128);
                    e.append(n.as_str());
                    e.append(" providers are configured; use `provider/model`");
                    return Err(e);
                }
            },
        };
        let at = find_key(&self.providers, name.as_str());
        if at >= self.providers.len() {
            let known = key_names(&self.providers);
            let path = show_config(dir);
            let mut e = "provider `".to_owned();
            e.append(name.as_str());
            if known.len() == 0 {
                e.append("` not found — no providers are configured. Add a [providers.");
                e.append(name.as_str());
                e.append("] section to ");
                e.append(path.as_str());
                e.append(" (see ");
                let x = show_example(dir);
                e.append(x.as_str());
                e.append(" for a worked example)");
            } else {
                e.append("` not found in ");
                e.append(path.as_str());
                e.append(" (configured: ");
                let list = joined(&known, ", ");
                e.append(list.as_str());
                e.append(")");
            }
            return Err(e);
        }
        if let Some(sort) = &self.providers[at].1.sort {
            let s = sort.as_str();
            if !(same(s, "throughput") || same(s, "latency") || same(s, "price")) {
                let mut e = "provider `".to_owned();
                e.append(name.as_str());
                e.append("`: sort = \"");
                e.append(s);
                e.append("\" is not one of throughput, latency, price");
                return Err(e);
            }
        }
        let mut key = name.clone();
        key.append("/");
        key.append(model.as_str());
        let m = find_key(&self.models, key.as_str());
        let settings: Option<usize> = if m < self.models.len() {
            Some(m)
        } else {
            None
        };
        Ok(
            Resolution {
                provider_name: name,
                provider: at,
                model,
                settings,
                api_key_env: copy_opt(&self.providers[at].1.api_key_env),
            },
        )
    }
}

/// A setting, or what stands in for it.
pub open spec fn default_to<T>(o: Option<T>, d: T) -> T {
    match o {
        Some(v) => v,
        None => d,
    }
}

/// What a thinking setting means. A number in quotes is still a budget.
pub open spec fn thinking_set(t: ThinkingSetting) -> Option<Thinking> {
    match t {
        ThinkingSetting::Budget(n) => if n > 0 {
            Some(Thinking::Budget(n))
        } else {
            Some(Thinking::Off)
        },
        ThinkingSetting::Mode(v) => {
            let low = ascii_lowered(trim(v@));
            if low == "off"@ || low == "false"@ {
                Some(Thinking::Off)
            } else if low == "on"@ || low == "true"@ {
                Some(Thinking::On)
            } else {
                match effort_named(trim(v@)) {
                    Some(e) => Some(Thinking::Effort(e)),
                    None => match parse_nat(trim(v@), u32::MAX as nat) {
                        Some(n) => if n > 0 {
                            Some(Thinking::Budget(n as u32))
                        } else {
                            None
                        },
                        None => None,
                    },
                }
            }
        },
    }
}

/// The API key of a chosen provider, given what its variable holds, and the variable
/// to warn about where it is named and holds nothing.
pub fn key_state(api_key_env: &Option<String>, value: Option<String>) -> (r: (
    Option<String>,
    Option<String>,
))
    ensures
        match opt_view(*api_key_env) {
            Some(var) => opt_view(r.0) == opt_view(value) && opt_view(r.1) == if value is None {
                Some(var)
            } else {
                None
            },
            None => r.0 is None && r.1 is None,
        },
{
    match api_key_env {
        Some(var) => match value {
            Some(v) => (Some(v), None),
            None => (None, Some(var.clone())),
        },
        None => (None, None),
    }
}

/// The window of a chosen model: its own, else the global one.
pub fn window_of(settings: &ModelSettings, config: &Config) -> (r: usize)
    ensures
        r == default_to(settings.context, default_to(config.agent.context_limit, 128_000)),
{
    match settings.context {
        Some(n) => n,
        None => config.context_limit(),
    }
}

/// The hint for a setting that is not known: it may be newer than the program.
pub fn unknown_field_hint(error: &str, version: &str) -> (r: String)
    ensures
        r@ == if crate::text::contains(error@, "unknown field"@) {
            "\n\nIf that setting is newer than this build, the config is ahead of the binary. This is worksmith "@
                + version@
                + "; check `which -a worksmith` for an older copy earlier on your PATH."@
        } else {
            seq![]
        },
{
    if crate::text::has_text(error, "unknown field") {
        let mut s =
            "\n\nIf that setting is newer than this build, the config is ahead of the binary. This is worksmith ".to_owned();
        s.append(version);
        s.append("; check `which -a worksmith` for an older copy earlier on your PATH.");
        s
    } else {
        let none = String::new();
        assert(none@ =~= seq![]);
        none
    }
}

/// The part of the prompt that a file of instructions makes.
pub open spec fn instruction_part(path: Seq<char>, text: Seq<char>) -> Seq<char> {
    "\n# Project instructions ("@ + path + ")\n\n"@ + trim(text) + "\n"@
}

/// The parts of the prompt that files of instructions make.
pub open spec fn instruction_parts(found: Seq<(String, String)>) -> Seq<Seq<char>> {
    Seq::new(found.len(), |i: int| instruction_part(found[i].0@, found[i].1@))
}

/// The instructions of a project: the files that were found, the nearest last, so that
/// the more specific ones come later.
pub fn load_project_instructions(found: &Vec<(String, String)>) -> (r: String)
    ensures
        r@ == concat(instruction_parts(found@)),
{
    let ghost all = instruction_parts(found@);
    let mut out = String::new();
    let mut i: usize = 0;
    assert(all.take(0) =~= seq![]);
    while i < found.len()
        invariant
            i <= found@.len(),
            all == instruction_parts(found@),
            out@ == concat(all.take(i as int)),
        decreases found.len() - i,
    {
        let mut part = "\n# Project instructions (".to_owned();
        part.append(found[i].0.as_str());
        part.append(")\n\n");
        let t = trimmed(found[i].1.as_str());
        part.append(t.as_str());
        part.append("\n");
        assert(part@ == all[i as int]);
        assert(all.take(i + 1) =~= all.take(i as int).push(all[i as int]));
        out.append(part.as_str());
        i = i + 1;
    }
    assert(all.take(i as int) =~= all);
    out
}

// ---- laws -------------------------------------------------------------------

/// No name stands twice.
pub open spec fn distinct<T>(s: Seq<(String, T)>) -> bool {
    forall|i: int, j: int| 0 <= i < j < s.len() ==> (#[trigger] s[i]).0@ != (#[trigger] s[j]).0@
}

/// Every setting survives a merge: laid over a configuration that says nothing, a
/// configuration comes out as it is, down to its last field.
pub proof fn every_field_survives_the_merge(a: Settings, b: Settings)
    requires
        unset(a),
        distinct(b.providers),
        distinct(b.models),
    ensures
        settings_over(a, b) == b,
{
    lemma_providers_into_none(a.providers, b.providers, b.providers.len());
    lemma_models_into_none(a.models, b.models, b.models.len());
    assert(b.providers.take(b.providers.len() as int) =~= b.providers);
    assert(b.models.take(b.models.len() as int) =~= b.models);
    let m = settings_over(a, b);
    assert(m.agent == b.agent);
    assert(m.agents == b.agents);
    assert(m.web == b.web);
    assert(m.tui == b.tui);
    assert(m.tools == b.tools);
}

proof fn lemma_providers_into_none(
    s: Seq<(String, ProviderConfig)>,
    b: Seq<(String, ProviderConfig)>,
    n: nat,
)
    requires
        s.len() == 0,
        distinct(b),
        n <= b.len(),
    ensures
        providers_over(s, b, n) == b.take(n as int),
    decreases n,
{
    if n == 0 {
        assert(b.take(0) =~= s);
    } else {
        lemma_providers_into_none(s, b, (n - 1) as nat);
        let t = b.take(n - 1);
        lemma_key_index_is(t, b[n - 1].0@, t.len());
        assert(b.take(n as int) =~= t.push(b[n - 1]));
    }
}

proof fn lemma_models_into_none(
    s: Seq<(String, ModelSettings)>,
    b: Seq<(String, ModelSettings)>,
    n: nat,
)
    requires
        s.len() == 0,
        distinct(b),
        n <= b.len(),
    ensures
        models_over(s, b, n) == b.take(n as int),
    decreases n,
{
    if n == 0 {
        assert(b.take(0) =~= s);
    } else {
        lemma_models_into_none(s, b, (n - 1) as nat);
        let t = b.take(n - 1);
        lemma_key_index_is(t, b[n - 1].0@, t.len());
        assert(b.take(n as int) =~= t.push(b[n - 1]));
    }
}

/// A configuration that says nothing changes nothing.
pub proof fn an_empty_merge_changes_nothing(a: Settings, b: Settings)
    requires
        unset(b),
    ensures
        settings_over(a, b) == a,
{
    let m = settings_over(a, b);
    assert(m.agent == a.agent);
    assert(m.agents == a.agents);
    assert(m.web == a.web);
    assert(m.tui == a.tui);
    assert(m.tools == a.tools);
}

/// Laying one block over the providers touches no other provider, and of this one only
/// what the block says.
pub proof fn a_block_keeps_what_it_does_not_say(
    s: Seq<(String, ProviderConfig)>,
    e: (String, ProviderConfig),
    name: Seq<char>,
)
    ensures
        name != e.0@ ==> entry_of(provider_put(s, e), name) == entry_of(s, name),
        entry_of(provider_put(s, e), e.0@) == Some(
            match entry_of(s, e.0@) {
                Some(p) => provider_over(p, e.1),
                None => e.1,
            },
        ),
{
    let i = key_index(s, e.0@);
    lemma_key_index(s, e.0@);
    lemma_key_index(s, name);
    let t = provider_put(s, e);
    let k = key_index(s, name);
    lemma_key_index_is(t, e.0@, i);
    if name != e.0@ {
        if k < s.len() {
            assert forall|j: int| 0 <= j < k implies (#[trigger] t[j]).0@ != name by {
                assert(s[j].0@ != name);
            }
            lemma_key_index_is(t, name, k);
        } else {
            assert forall|j: int| 0 <= j < t.len() implies (#[trigger] t[j]).0@ != name by {
                if j < s.len() {
                    assert(s[j].0@ != name);
                }
            }
            lemma_key_index_is(t, name, t.len());
        }
    }
}

/// An undecided or ignored project configuration is never applied, and one whose
/// content changed since it was trusted is asked about again.
pub proof fn only_trust_applies(
    answers: Map<Seq<char>, crate::trust::Remembered>,
    project: Seq<char>,
    print: Seq<char>,
)
    ensures
        gate_for(crate::trust::standing(answers, project, print)) == Gate::Apply
            <==> answers.dom().contains(project) && answers[project].fingerprint == print
            && answers[project].decision == Decision::Trust,
        answers.dom().contains(project) && answers[project].fingerprint != print ==> gate_for(
            crate::trust::standing(answers, project, print),
        ) == Gate::Ask,
{
}

// ---- what a name comes to ---------------------------------------------------

/// Is the entry at `i` the first of that name?
pub open spec fn stands_first<T>(s: Seq<(String, T)>, name: Seq<char>, i: int) -> bool {
    &&& 0 <= i < s.len()
    &&& s[i].0@ == name
    &&& forall|j: int| 0 <= j < i ==> (#[trigger] s[j]).0@ != name
}

/// Is there no entry of that name?
pub open spec fn absent<T>(s: Seq<(String, T)>, name: Seq<char>) -> bool {
    forall|j: int| 0 <= j < s.len() ==> (#[trigger] s[j]).0@ != name
}

/// Is a provider's routing one that is known, where it says any?
pub open spec fn sorted_well(p: ProviderConfig) -> bool {
    p.sort matches Some(t) ==> t@ == "throughput"@ || t@ == "latency"@ || t@ == "price"@
}

/// A lookup finds the first entry of the name, and nothing where there is none.
pub proof fn a_lookup_finds_the_first<T>(s: Seq<(String, T)>, name: Seq<char>, i: int)
    ensures
        stands_first(s, name, i) ==> entry_of(s, name) == Some(s[i].1),
        absent(s, name) ==> entry_of(s, name) is None,
{
    lemma_key_index(s, name);
    let k = key_index(s, name) as int;
    if stands_first(s, name, i) {
        if k < i {
            assert(s[k].0@ != name);
        }
        if i < k {
            assert(s[i].0@ != name);
        }
    }
    if absent(s, name) && k < s.len() {
        assert(s[k].0@ != name);
    }
}

/// A name that is given decides alone: what the configured default says does not matter.
pub proof fn a_given_name_decides_alone(
    s: Settings,
    t: Settings,
    name: Seq<char>,
    dir: Option<Seq<char>>,
)
    requires
        s.providers == t.providers,
        s.models == t.models,
    ensures
        resolved(s, Some(name), dir) == resolved(t, Some(name), dir),
{
}

/// The configured default stands in where no name is given, and only there: then it is as
/// if it had been given. Without one, nothing is chosen.
pub proof fn the_default_stands_in(s: Settings, dir: Option<Seq<char>>)
    ensures
        s.model matches Some(m) ==> resolved(s, None, dir) == resolved(s, Some(m@), dir),
        s.model is None ==> resolved(s, None, dir) is Err,
{
}

/// A full name chooses the provider before its first slash and the model after it, with
/// the sections that the configuration holds for exactly these, and is refused just where
/// that provider is not there or says a routing that is not known.
pub proof fn a_full_name_chooses_its_parts(
    s: Settings,
    provider: Seq<char>,
    model: Seq<char>,
    dir: Option<Seq<char>>,
    i: int,
    k: int,
)
    requires
        !provider.contains('/'),
    ensures
        absent(s.providers, provider) ==> resolved(
            s,
            Some(provider + seq!['/'] + model),
            dir,
        ) is Err,
        stands_first(s.providers, provider, i) && !sorted_well(s.providers[i].1) ==> resolved(
            s,
            Some(provider + seq!['/'] + model),
            dir,
        ) is Err,
        stands_first(s.providers, provider, i) && sorted_well(s.providers[i].1) ==> (resolved(
            s,
            Some(provider + seq!['/'] + model),
            dir,
        ) matches Ok(c) && {
            &&& c.provider_name == provider
            &&& c.model == model
            &&& c.provider == s.providers[i].1
            &&& stands_first(s.models, provider + seq!['/'] + model, k) ==> c.settings
                == s.models[k].1
            &&& absent(s.models, provider + seq!['/'] + model) ==> c.settings == no_settings()
        }),
{
    let name = provider + seq!['/'] + model;
    crate::wording::a_cut_gives_the_parts_back(provider, '/', model);
    a_lookup_finds_the_first(s.providers, provider, i);
    reveal_strlit("/");
    assert("/"@ =~= seq!['/']);
    assert(provider + "/"@ + model =~= name);
    a_lookup_finds_the_first(s.models, name, k);
}

/// A bare name is a model of the one provider that there is, just as if that provider had
/// been named before it. With none or with several, it is refused.
pub proof fn a_bare_name_is_a_model_of_the_only_provider(
    s: Settings,
    model: Seq<char>,
    dir: Option<Seq<char>>,
    k: int,
)
    requires
        !model.contains('/'),
    ensures
        s.providers.len() != 1 ==> resolved(s, Some(model), dir) is Err,
        s.providers.len() == 1 && !sorted_well(s.providers[0].1) ==> resolved(
            s,
            Some(model),
            dir,
        ) is Err,
        s.providers.len() == 1 && sorted_well(s.providers[0].1) ==> (resolved(
            s,
            Some(model),
            dir,
        ) matches Ok(c) && {
            &&& c.provider_name == s.providers[0].0@
            &&& c.model == model
            &&& c.provider == s.providers[0].1
            &&& stands_first(s.models, s.providers[0].0@ + seq!['/'] + model, k) ==> c.settings
                == s.models[k].1
            &&& absent(s.models, s.providers[0].0@ + seq!['/'] + model) ==> c.settings
                == no_settings()
        }),
{
    crate::wording::one_cut_is_at_the_first(model, '/');
    assert(split_once(model, '/') is None) by {
        if let Some((a, b)) = split_once(model, '/') {
            assert(model[a.len() as int] == '/');
        }
    }
    if s.providers.len() == 1 {
        let provider = s.providers[0].0@;
        a_lookup_finds_the_first(s.providers, provider, 0);
        reveal_strlit("/");
        assert("/"@ =~= seq!['/']);
        assert(provider + "/"@ + model =~= provider + seq!['/'] + model);
        a_lookup_finds_the_first(s.models, provider + seq!['/'] + model, k);
    }
}

/// A provider that is not configured is refused by name, with every name that is.
pub proof fn an_unknown_provider_is_told(
    s: Settings,
    provider: Seq<char>,
    model: Seq<char>,
    dir: Option<Seq<char>>,
)
    requires
        !provider.contains('/'),
        absent(s.providers, provider),
    ensures
        resolved(s, Some(provider + seq!['/'] + model), dir) matches Err(e) && crate::text::contains(
            e,
            provider,
        ) && (s.providers.len() > 0 ==> crate::text::contains(e, join(keys(s.providers), ", "@))),
{
    crate::wording::a_cut_gives_the_parts_back(provider, '/', model);
    a_lookup_finds_the_first(s.providers, provider, 0);
    let known = keys(s.providers);
    let e = no_provider(provider, known, dir);
    assert(resolved(s, Some(provider + seq!['/'] + model), dir) == Err::<Chosen, Seq<char>>(e));
    let at = "provider `"@.len() as int;
    assert(e.subrange(at, at + provider.len()) =~= provider);
    assert(crate::text::occurs_at(e, provider, at));
    if s.providers.len() > 0 {
        let list = join(known, ", "@);
        let to = ("provider `"@ + provider + "` not found in "@ + shown_config(dir)
            + " (configured: "@).len() as int;
        assert(e.subrange(to, to + list.len()) =~= list);
        assert(crate::text::occurs_at(e, list, to));
    }
}

// ---- which of two settings wins ---------------------------------------------

/// Is `m` what comes of `b` over `a`: all that `b` says, and what `a` says where `b` is
/// silent?
pub open spec fn laid<T>(a: Option<T>, b: Option<T>, m: Option<T>) -> bool {
    &&& b is Some ==> m == b
    &&& b is None ==> m == a
}

/// Does a provider's section say what two say, the second over the first?
pub open spec fn provider_laid(a: ProviderConfig, b: ProviderConfig, m: ProviderConfig) -> bool {
    &&& m.kind == b.kind
    &&& m.base_url == b.base_url
    &&& laid(a.api_key_env, b.api_key_env, m.api_key_env)
    &&& laid(a.thinking_param, b.thinking_param, m.thinking_param)
    &&& laid(a.reasoning_budget_param, b.reasoning_budget_param, m.reasoning_budget_param)
    &&& laid(a.stream_idle_timeout, b.stream_idle_timeout, m.stream_idle_timeout)
    &&& laid(a.sort, b.sort, m.sort)
}

/// Do a model's settings say what two say, the second over the first?
pub open spec fn model_laid(a: ModelSettings, b: ModelSettings, m: ModelSettings) -> bool {
    &&& laid(a.input, b.input, m.input)
    &&& laid(a.output, b.output, m.output)
    &&& laid(a.temperature, b.temperature, m.temperature)
    &&& laid(a.top_p, b.top_p, m.top_p)
    &&& laid(a.top_k, b.top_k, m.top_k)
    &&& laid(a.context, b.context, m.context)
}

/// The configuration that is laid over wins, field by field, and where it is silent the
/// other one stands.
pub proof fn the_upper_configuration_wins(a: Settings, b: Settings)
    ensures
        ({
            let m = settings_over(a, b);
            &&& laid(a.model, b.model, m.model)
            &&& laid(a.temperature, b.temperature, m.temperature)
            &&& laid(a.max_tokens, b.max_tokens, m.max_tokens)
            &&& laid(a.decisions_dir, b.decisions_dir, m.decisions_dir)
            &&& laid(a.agent.max_steps, b.agent.max_steps, m.agent.max_steps)
            &&& laid(a.agent.max_retries, b.agent.max_retries, m.agent.max_retries)
            &&& laid(a.agent.stuck_threshold, b.agent.stuck_threshold, m.agent.stuck_threshold)
            &&& laid(a.agent.validate, b.agent.validate, m.agent.validate)
            &&& laid(a.agent.context_limit, b.agent.context_limit, m.agent.context_limit)
            &&& laid(
                a.agent.keep_recent_turns,
                b.agent.keep_recent_turns,
                m.agent.keep_recent_turns,
            )
            &&& laid(a.agent.thinking, b.agent.thinking, m.agent.thinking)
            &&& laid(a.agent.pair, b.agent.pair, m.agent.pair)
            &&& laid(
                a.tools.bash_timeout_secs,
                b.tools.bash_timeout_secs,
                m.tools.bash_timeout_secs,
            )
            &&& laid(a.agents.max, b.agents.max, m.agents.max)
            &&& laid(a.agents.supervisor, b.agents.supervisor, m.agents.supervisor)
            &&& laid(a.agents.stuck_timeout, b.agents.stuck_timeout, m.agents.stuck_timeout)
            &&& laid(a.agents.max_nudges, b.agents.max_nudges, m.agents.max_nudges)
            &&& laid(
                a.agents.repeat_threshold,
                b.agents.repeat_threshold,
                m.agents.repeat_threshold,
            )
            &&& laid(
                a.agents.stuck_check_threshold,
                b.agents.stuck_check_threshold,
                m.agents.stuck_check_threshold,
            )
            &&& laid(a.agents.token_budget, b.agents.token_budget, m.agents.token_budget)
            &&& laid(
                a.agents.request_timeout,
                b.agents.request_timeout,
                m.agents.request_timeout,
            )
            &&& laid(a.agents.fanout, b.agents.fanout, m.agents.fanout)
            &&& laid(a.agents.synthesize, b.agents.synthesize, m.agents.synthesize)
            &&& laid(a.agents.validate, b.agents.validate, m.agents.validate)
            &&& laid(a.agents.model, b.agents.model, m.agents.model)
            &&& laid(a.web.provider, b.web.provider, m.web.provider)
            &&& laid(a.web.api_key_env, b.web.api_key_env, m.web.api_key_env)
            &&& laid(a.web.base_url, b.web.base_url, m.web.base_url)
            &&& laid(a.tui.insert_escape, b.tui.insert_escape, m.tui.insert_escape)
            &&& laid(a.tui.insert_escape_ms, b.tui.insert_escape_ms, m.tui.insert_escape_ms)
        }),
{
}

/// Every provider of either configuration is there after the merge, under its name: one
/// that both have with the upper section over the lower one, and no other.
pub proof fn providers_merge_by_name(a: Settings, b: Settings, name: Seq<char>)
    requires
        distinct(b.providers),
    ensures
        match (entry_of(a.providers, name), entry_of(b.providers, name)) {
            (Some(x), Some(y)) => entry_of(settings_over(a, b).providers, name) matches Some(m)
                && provider_laid(x, y, m),
            (x, None) => entry_of(settings_over(a, b).providers, name) == x,
            (None, y) => entry_of(settings_over(a, b).providers, name) == y,
        },
{
    lemma_providers_by_name(a.providers, b.providers, b.providers.len(), name);
    assert(b.providers.take(b.providers.len() as int) =~= b.providers);
}

proof fn lemma_providers_by_name(
    a: Seq<(String, ProviderConfig)>,
    b: Seq<(String, ProviderConfig)>,
    n: nat,
    name: Seq<char>,
)
    requires
        distinct(b),
        n <= b.len(),
    ensures
        match (entry_of(a, name), entry_of(b.take(n as int), name)) {
            (Some(x), Some(y)) => entry_of(providers_over(a, b, n), name) == Some(
                provider_over(x, y),
            ),
            (x, None) => entry_of(providers_over(a, b, n), name) == x,
            (None, y) => entry_of(providers_over(a, b, n), name) == y,
        },
    decreases n,
{
    if n > 0 {
        let m = (n - 1) as nat;
        lemma_providers_by_name(a, b, m, name);
        a_block_keeps_what_it_does_not_say(providers_over(a, b, m), b[n - 1], name);
        lemma_entry_of_one_more(b, m as int, name);
    }
}

proof fn lemma_entry_of_one_more<T>(b: Seq<(String, T)>, n: int, name: Seq<char>)
    requires
        distinct(b),
        0 <= n < b.len(),
    ensures
        b[n].0@ == name ==> entry_of(b.take(n), name) is None && entry_of(b.take(n + 1), name)
            == Some(b[n].1),
        b[n].0@ != name ==> entry_of(b.take(n + 1), name) == entry_of(b.take(n), name),
{
    let s = b.take(n);
    let t = b.take(n + 1);
    if b[n].0@ == name {
        assert(absent(s, name)) by {
            assert forall|j: int| 0 <= j < s.len() implies (#[trigger] s[j]).0@ != name by {
                assert(b[j].0@ != b[n].0@);
            }
        }
        a_lookup_finds_the_first(s, name, 0);
        assert(stands_first(t, name, n)) by {
            assert forall|j: int| 0 <= j < n implies (#[trigger] t[j]).0@ != name by {
                assert(s[j].0@ != name);
            }
        }
        a_lookup_finds_the_first(t, name, n);
    } else {
        lemma_key_index(s, name);
        let k = key_index(s, name);
        if k < s.len() {
            assert forall|j: int| 0 <= j < k implies (#[trigger] t[j]).0@ != name by {
                assert(s[j].0@ != name);
            }
            lemma_key_index_is(t, name, k);
        } else {
            assert forall|j: int| 0 <= j < t.len() implies (#[trigger] t[j]).0@ != name by {
                if j < n {
                    assert(s[j].0@ != name);
                }
            }
            lemma_key_index_is(t, name, t.len());
        }
    }
}

/// Every model's settings of either configuration are there after the merge, under its
/// name: those that both have with the upper ones over the lower ones, and no others.
pub proof fn models_merge_by_name(a: Settings, b: Settings, name: Seq<char>)
    requires
        distinct(b.models),
    ensures
        match (entry_of(a.models, name), entry_of(b.models, name)) {
            (Some(x), Some(y)) => entry_of(settings_over(a, b).models, name) matches Some(m)
                && model_laid(x, y, m),
            (x, None) => entry_of(settings_over(a, b).models, name) == x,
            (None, y) => entry_of(settings_over(a, b).models, name) == y,
        },
{
    lemma_models_by_name(a.models, b.models, b.models.len(), name);
    assert(b.models.take(b.models.len() as int) =~= b.models);
}

proof fn lemma_models_by_name(
    a: Seq<(String, ModelSettings)>,
    b: Seq<(String, ModelSettings)>,
    n: nat,
    name: Seq<char>,
)
    requires
        distinct(b),
        n <= b.len(),
    ensures
        match (entry_of(a, name), entry_of(b.take(n as int), name)) {
            (Some(x), Some(y)) => entry_of(models_over(a, b, n), name) == Some(model_over(x, y)),
            (x, None) => entry_of(models_over(a, b, n), name) == x,
            (None, y) => entry_of(models_over(a, b, n), name) == y,
        },
    decreases n,
{
    if n > 0 {
        let m = (n - 1) as nat;
        lemma_models_by_name(a, b, m, name);
        lemma_model_put(models_over(a, b, m), b[n - 1], name);
        lemma_entry_of_one_more(b, m as int, name);
    }
}

proof fn lemma_model_put(
    s: Seq<(String, ModelSettings)>,
    e: (String, ModelSettings),
    name: Seq<char>,
)
    ensures
        name != e.0@ ==> entry_of(model_put(s, e), name) == entry_of(s, name),
        entry_of(model_put(s, e), e.0@) == Some(
            match entry_of(s, e.0@) {
                Some(p) => model_over(p, e.1),
                None => e.1,
            },
        ),
{
    let i = key_index(s, e.0@);
    lemma_key_index(s, e.0@);
    lemma_key_index(s, name);
    let t = model_put(s, e);
    let k = key_index(s, name);
    lemma_key_index_is(t, e.0@, i);
    if name != e.0@ {
        if k < s.len() {
            assert forall|j: int| 0 <= j < k implies (#[trigger] t[j]).0@ != name by {
                assert(s[j].0@ != name);
            }
            lemma_key_index_is(t, name, k);
        } else {
            assert forall|j: int| 0 <= j < t.len() implies (#[trigger] t[j]).0@ != name by {
                if j < s.len() {
                    assert(s[j].0@ != name);
                }
            }
            lemma_key_index_is(t, name, t.len());
        }
    }
}

} // verus!
