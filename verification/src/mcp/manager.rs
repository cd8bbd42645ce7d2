//! The parent's backend for remote tools: what is known of each server, what is
//! active, and what happens to a call.
//!
//! Nothing is launched, asked or sent here. Each method takes in how things stand
//! and says what to do next.
use vstd::prelude::*;
use vstd::string::*;

use crate::digest::{fingerprint, print_of};
use crate::json::{
    fields, get_str, get_u64, group_json, json_pretty, json_read, json_written, member, same_json,
    str_arg, trees, u64_of, Json, Number, NumberView, Tree,
};
use crate::list::{concat, group_lists, join, views};
use crate::llm::ToolDef;
use crate::mcp::catalog::{
    advertised_name, copy_def, definition_text, drop_named, drop_server, find_entry, identifier,
    is_name, offer_named, offer_text, offers, put_all, put_entries, put_entry, put_offer, tool_name,
    without_named, without_server, Entry, Offer, ServerConfig,
};
use crate::mcp::schema::{redact, redacted, schema_problem, validate_schema};
use crate::paths::{absolute, is_absolute};
use crate::tally::TextSet;
use crate::text::{
    byte_len, chars_of, contains, copy_opt, dec, decimal, fit, fitting, has_text, is_ascii_alnum, joined,
    fault_of, lowercase, number_fault, opt_view, parse_nat, parse_number, same, string_of, utf8_len,
};
use crate::tools::approval::RememberingApprover;
use crate::tools::{fine, wrong, Output, ToolOutput};

verus! {

broadcast use {group_lists, group_json};

// ---- configuration ----------------------------------------------------------

/// Are a server's limits nonzero and bounded, and is its program named absolutely?
pub open spec fn sound(c: ServerConfig) -> bool {
    &&& absolute(c.command@)
    &&& c.timeout_ms > 0
    &&& 1024 <= c.frame_bytes <= 16_777_216
    &&& 0 < c.max_pages <= 128
    &&& 0 < c.catalog_bytes <= 4_194_304
    &&& 0 < c.schema_bytes <= 65_536
    &&& 0 < c.active_bytes <= 262_144
}

/// Why a server cannot be configured so, if it cannot.
pub open spec fn config_problem(name: Seq<char>, c: ServerConfig) -> Option<Seq<char>> {
    if !is_name(name) || byte_len(name) > 20 {
        Some("MCP server name must be 1–20 ASCII letters, digits or single underscores"@)
    } else if c.enabled && !sound(c) {
        Some(
            "MCP "@ + name + ": use an absolute installed executable and bounded nonzero limits"@,
        )
    } else {
        None
    }
}

/// The first problem among the servers from `i` on.
pub open spec fn first_problem(configs: Seq<(String, ServerConfig)>, i: int) -> Option<Seq<char>>
    decreases configs.len() - i,
{
    if i < 0 || i >= configs.len() {
        None
    } else {
        match config_problem(configs[i].0@, configs[i].1) {
            Some(e) => Some(e),
            None => first_problem(configs, i + 1),
        }
    }
}

fn check_config(name: &str, c: &ServerConfig) -> (r: Option<String>)
    ensures
        opt_view(r) == config_problem(name@, *c),
{
    if !identifier(name) || utf8_len(name) > 20 {
        return Some(
            "MCP server name must be 1–20 ASCII letters, digits or single underscores".to_owned(),
        );
    }
    if c.enabled && (!is_absolute(c.command.as_str()) || c.timeout_ms == 0 || c.frame_bytes < 1024
        || c.frame_bytes > 16_777_216 || c.max_pages == 0 || c.max_pages > 128 || c.catalog_bytes
        == 0 || c.catalog_bytes > 4_194_304 || c.schema_bytes == 0 || c.schema_bytes > 65_536
        || c.active_bytes == 0 || c.active_bytes > 262_144) {
        let mut e = "MCP ".to_owned();
        e.append(name);
        e.append(": use an absolute installed executable and bounded nonzero limits");
        return Some(e);
    }
    None
}

/// The configuration of the server of that name.
pub open spec fn config_named(configs: Seq<(String, ServerConfig)>, name: Seq<char>) -> Option<
    ServerConfig,
>
    decreases configs.len(),
{
    if configs.len() == 0 {
        None
    } else if configs[0].0@ == name {
        Some(configs[0].1)
    } else {
        config_named(configs.drop_first(), name)
    }
}

fn find_config(configs: &Vec<(String, ServerConfig)>, name: &str) -> (r: Option<usize>)
    ensures
        match r {
            Some(i) => i < configs@.len() && config_named(configs@, name@) == Some(
                configs@[i as int].1,
            ),
            None => config_named(configs@, name@) is None,
        },
{
    let ghost all = configs@;
    let mut i: usize = 0;
    assert(all.skip(0) =~= all);
    while i < configs.len()
        invariant
            i <= configs@.len(),
            all == configs@,
            config_named(all.skip(i as int), name@) == config_named(all, name@),
        decreases configs.len() - i,
    {
        assert(all.skip(i as int).drop_first() =~= all.skip(i + 1));
        if same(configs[i].0.as_str(), name) {
            return Some(i);
        }
        i = i + 1;
    }
    assert(all.skip(i as int).len() == 0);
    None
}

// ---- records ----------------------------------------------------------------

/// One step of an operation, as it is recorded in the session.
#[derive(Debug, PartialEq, Eq)]
pub struct McpOperation {
    pub server: String,
    pub tool: Option<String>,
    pub phase: String,
    pub revision: Option<String>,
    pub elapsed_ms: u64,
    pub result_bytes: u128,
}

/// What a record says.
pub struct Record {
    pub server: Seq<char>,
    pub tool: Option<Seq<char>>,
    pub phase: Seq<char>,
    pub revision: Option<Seq<char>>,
    pub elapsed_ms: u64,
    pub result_bytes: nat,
}

impl View for McpOperation {
    type V = Record;

    open spec fn view(&self) -> Record {
        Record {
            server: self.server@,
            tool: opt_view(self.tool),
            phase: self.phase@,
            revision: opt_view(self.revision),
            elapsed_ms: self.elapsed_ms,
            result_bytes: self.result_bytes as nat,
        }
    }
}

/// What an optional text says.
pub open spec fn str_view(o: Option<&str>) -> Option<Seq<char>> {
    match o {
        Some(t) => Some(t@),
        None => None,
    }
}

/// The record of a step that took no time and returned nothing.
pub fn record(server: &str, tool: Option<&str>, phase: &str, revision: Option<&str>) -> (r:
    McpOperation)
    ensures
        r@ == (Record {
            server: server@,
            tool: str_view(tool),
            phase: phase@,
            revision: str_view(revision),
            elapsed_ms: 0,
            result_bytes: 0,
        }),
{
    McpOperation {
        server: server.to_owned(),
        tool: match tool {
            Some(t) => Some(t.to_owned()),
            None => None,
        },
        phase: phase.to_owned(),
        revision: match revision {
            Some(t) => Some(t.to_owned()),
            None => None,
        },
        elapsed_ms: 0,
        result_bytes: 0,
    }
}

/// The operations whose outcome is not known once a record is read: one that was
/// dispatched is, until it is known to have ended.
pub open spec fn uncertain_after(u: Set<Seq<char>>, o: McpOperation) -> Set<Seq<char>> {
    match o.tool {
        Some(tool) => {
            let key = tool_name(o.server@, tool@);
            if o.phase@ == "dispatched"@ || o.phase@ == "uncertain"@ {
                u.insert(key)
            } else if o.phase@ == "completed"@ || o.phase@ == "execution_error"@ || o.phase@
                == "invalid_arguments"@ {
                u.remove(key)
            } else {
                u
            }
        },
        None => u,
    }
}

/// The operations whose outcome is not known once the first `n` records are read.
pub open spec fn replayed(os: Seq<McpOperation>, n: nat) -> Set<Seq<char>>
    decreases n,
{
    if n == 0 {
        Set::empty()
    } else {
        uncertain_after(replayed(os, (n - 1) as nat), os[n - 1])
    }
}

/// The operations whose outcome a session's records leave open.
pub fn replay(records: &Vec<McpOperation>) -> (r: TextSet)
    ensures
        r@ == replayed(records@, records@.len()),
{
    let mut u = TextSet::new();
    let mut i: usize = 0;
    while i < records.len()
        invariant
            i <= records@.len(),
            u@ == replayed(records@, i as nat),
        decreases records.len() - i,
    {
        let o = &records[i];
        if let Some(tool) = &o.tool {
            let key = advertised_name(o.server.as_str(), tool.as_str());
            let phase = o.phase.as_str();
            if same(phase, "dispatched") || same(phase, "uncertain") {
                u.insert(key.as_str());
            } else if same(phase, "completed") || same(phase, "execution_error") || same(
                phase,
                "invalid_arguments",
            ) {
                u.remove(key.as_str());
            }
        }
        i = i + 1;
    }
    u
}

// ---- results ----------------------------------------------------------------

/// The longest result that is handed over whole, in bytes.
pub const WHOLE_BYTES: usize = 7000;

/// How much of a longer result is shown, in bytes.
pub const EXCERPT_BYTES: usize = 6000;

/// The start of a result that is too long to hand over whole.
pub open spec fn excerpt(content: Seq<char>) -> Seq<char> {
    content.take(fitting(content, EXCERPT_BYTES as nat) as int)
}

/// What is handed over of a result, given where the rest was stored, or why it
/// could not be.
pub open spec fn held(
    content: Seq<char>,
    is_error: bool,
    stored: Result<Seq<char>, Seq<char>>,
) -> Output {
    if byte_len(content) <= WHOLE_BYTES {
        Output { content, is_error, fatal: false }
    } else {
        match stored {
            Ok(handle) => Output {
                content: excerpt(content) + "\n["@ + dec(byte_len(content))
                    + " total bytes; session handle "@ + handle + ". Use mcp action=read handle="@
                    + handle + " offset="@ + dec(byte_len(excerpt(content)))
                    + ", then follow next_offset until eof=true. Retrieval never repeats the operation; handles expire after seven days.]"@,
                is_error,
                fatal: false,
            },
            Err(e) => wrong(
                excerpt(content) + "\n[result "@ + dec(byte_len(content))
                    + " bytes; storage unavailable: "@ + e
                    + "; do not replay a mutation to recover omitted content]"@,
            ),
        }
    }
}

/// Does a result have to be stored, because it is too long to hand over whole?
pub fn must_store(content: &str) -> (r: bool)
    ensures
        r == (byte_len(content@) > WHOLE_BYTES),
{
    utf8_len(content) > WHOLE_BYTES as u128
}

/// What is handed over of a result, given where the rest was stored.
pub fn store_result(content: String, is_error: bool, stored: Result<String, String>) -> (r:
    ToolOutput)
    ensures
        r@ == held(
            content@,
            is_error,
            match stored {
                Ok(h) => Ok(h@),
                Err(e) => Err(e@),
            },
        ),
{
    let len = utf8_len(content.as_str());
    if len <= WHOLE_BYTES as u128 {
        return ToolOutput { content, is_error, fatal: false };
    }
    let v = chars_of(content.as_str());
    let (n, shown) = fit(&v, EXCERPT_BYTES);
    let mut s = string_of(&v, 0, n);
    assert(s@ =~= excerpt(content@));
    match stored {
        Ok(handle) => {
            s.append("\n[");
            let k = decimal(len);
            s.append(k.as_str());
            s.append(" total bytes; session handle ");
            s.append(handle.as_str());
            s.append(". Use mcp action=read handle=");
            s.append(handle.as_str());
            s.append(" offset=");
            let k = decimal(shown as u128);
            s.append(k.as_str());
            s.append(
                ", then follow next_offset until eof=true. Retrieval never repeats the operation; handles expire after seven days.]",
            );
            ToolOutput { content: s, is_error, fatal: false }
        },
        Err(e) => {
            s.append("\n[result ");
            let k = decimal(len);
            s.append(k.as_str());
            s.append(" bytes; storage unavailable: ");
            s.append(e.as_str());
            s.append("; do not replay a mutation to recover omitted content]");
            ToolOutput { content: s, is_error: true, fatal: false }
        },
    }
}

// ---- the manager ------------------------------------------------------------

/// How the connection to a server stands.
#[derive(Debug, Clone, Copy, PartialEq, Eq, Structural)]
pub enum Link {
    /// There is none.
    Absent,
    /// It was closed.
    Closed,
    /// The server said that its catalog changed.
    Stale,
    /// It can be used.
    Live,
}

/// Shared parent backend.
pub struct Manager {
    configs: Vec<(String, ServerConfig)>,
    session: String,
    catalog: Vec<Entry>,
    active: Vec<Entry>,
    /// A possibly dispatched call must not be repeated merely because no reply
    /// arrived.
    uncertain: TextSet,
}

/// What the backend knows.
pub struct Known {
    pub configs: Seq<(String, ServerConfig)>,
    pub session: Seq<char>,
    pub catalog: Seq<Offer>,
    pub active: Seq<Offer>,
    pub uncertain: Set<Seq<char>>,
}

impl View for Manager {
    type V = Known;

    closed spec fn view(&self) -> Known {
        Known {
            configs: self.configs@,
            session: self.session@,
            catalog: offers(self.catalog@),
            active: offers(self.active@),
            uncertain: self.uncertain@,
        }
    }
}

/// Why a request is turned away before anything else: a worker has no remote tools,
/// and a session has to be named plainly.
pub open spec fn turned_away(is_worker: bool, session_id: Seq<char>) -> Option<Seq<char>> {
    if is_worker {
        Some("MCP is disabled for workers"@)
    } else if session_id.len() == 0 || exists|i: int|
        0 <= i < session_id.len() && !session_char(#[trigger] session_id[i]) {
        Some("MCP requires a valid session identity"@)
    } else {
        None
    }
}

/// Is `c` allowed in a session's name?
pub open spec fn session_char(c: char) -> bool {
    is_ascii_alnum(c) || c == '-' || c == '_'
}

/// Why a request is turned away before anything else, if it is.
pub fn refuse_request(is_worker: bool, session_id: &str) -> (r: Option<String>)
    ensures
        opt_view(r) == turned_away(is_worker, session_id@),
{
    if is_worker {
        return Some("MCP is disabled for workers".to_owned());
    }
    let v = chars_of(session_id);
    if v.len() == 0 {
        return Some("MCP requires a valid session identity".to_owned());
    }
    let mut i: usize = 0;
    while i < v.len()
        invariant
            i <= v@.len(),
            v@ == session_id@,
            !is_worker,
            forall|j: int| 0 <= j < i ==> session_char(#[trigger] v@[j]),
        decreases v.len() - i,
    {
        let c = v[i];
        if !(('a' <= c && c <= 'z') || ('A' <= c && c <= 'Z') || ('0' <= c && c <= '9') || c == '-'
            || c == '_') {
            assert(!session_char(session_id@[i as int]));
            return Some("MCP requires a valid session identity".to_owned());
        }
        i = i + 1;
    }
    None
}

/// What a call into the backend failed with, as the model sees it.
pub fn failure(error: &str) -> (r: ToolOutput)
    ensures
        r@ == wrong("MCP: "@ + error@),
{
    let mut s = "MCP: ".to_owned();
    s.append(error);
    ToolOutput { content: s, is_error: true, fatal: false }
}

/// The text of an argument that has to be there.
pub open spec fn needed(args: Tree, key: Seq<char>) -> Result<Seq<char>, Seq<char>> {
    match str_arg(args, key) {
        Some(s) => Ok(s),
        None => Err("missing "@ + key),
    }
}

/// The text of an argument that has to be there.
pub fn field_arg<'a>(args: &'a Json, key: &str) -> (r: Result<&'a str, String>)
    ensures
        match r {
            Ok(s) => needed(args@, key@) == Ok::<Seq<char>, Seq<char>>(s@),
            Err(e) => needed(args@, key@) == Err::<Seq<char>, Seq<char>>(e@),
        },
{
    match get_str(args, key) {
        Some(s) => Ok(s),
        None => {
            let mut e = "missing ".to_owned();
            e.append(key);
            Err(e)
        },
    }
}

/// The bytes that the definitions of `s` take, leaving out the one of that name.
pub open spec fn active_size(s: Seq<Offer>, but: Seq<char>) -> nat
    decreases s.len(),
{
    if s.len() == 0 {
        0
    } else if s.last().name == but {
        active_size(s.drop_last(), but)
    } else {
        active_size(s.drop_last(), but) + byte_len(offer_text(s.last()))
    }
}

/// The names of the tools.
pub open spec fn offer_names(s: Seq<Offer>) -> Seq<Seq<char>> {
    Seq::new(s.len(), |i: int| s[i].name)
}

/// The backend once a tool is activated, or why it cannot be: it has to be known,
/// its server's connection usable, its schema acceptable and within the budgets.
pub open spec fn activated(k: Known, name: Seq<char>, link: Link) -> Result<Known, Seq<char>> {
    match offer_named(k.catalog, name) {
        None => Err("unknown tool; refresh its server first"@),
        Some(e) => match config_named(k.configs, e.server) {
            None => Err("unknown server"@),
            Some(config) => if link == Link::Absent {
                Err("server disconnected; refresh first"@)
            } else if link != Link::Live {
                Err("stale catalog; refresh and reactivate"@)
            } else {
                match schema_problem(e.parameters) {
                    Some(p) => Err(p),
                    None => {
                        let size = byte_len(offer_text(e));
                        if size > config.schema_bytes {
                            Err(
                                "tool schema/description exceeds "@ + dec(
                                    config.schema_bytes as nat,
                                ) + " bytes"@,
                            )
                        } else if active_size(k.active, name) + size > config.active_bytes {
                            Err(
                                "active schema budget "@ + dec(config.active_bytes as nat)
                                    + " bytes exceeded; deactivate tools: "@ + join(
                                    offer_names(k.active),
                                    ", "@,
                                ),
                            )
                        } else {
                            Ok(Known { active: put_offer(k.active, e), ..k })
                        }
                    },
                }
            },
        },
    }
}

/// How a server's line in the list reads.
pub open spec fn listed_status(enabled: bool, link: Link) -> Seq<char> {
    if !enabled {
        "disabled"@
    } else {
        match link {
            Link::Closed => "failed; refresh required"@,
            Link::Stale => "connected; catalog stale"@,
            Link::Live => "connected"@,
            Link::Absent => "stopped; refresh requires launch approval"@,
        }
    }
}

/// How a server's entry in the browser reads.
pub open spec fn browsed_status(enabled: bool, link: Link) -> Seq<char> {
    if !enabled {
        "disabled"@
    } else {
        match link {
            Link::Closed => "failed"@,
            Link::Stale => "connected; catalog stale — refresh required"@,
            Link::Live => "connected"@,
            Link::Absent => "stopped"@,
        }
    }
}

/// The link at that place, where there is one.
pub open spec fn link_at(links: Seq<Link>, i: int) -> Link {
    if 0 <= i < links.len() {
        links[i]
    } else {
        Link::Absent
    }
}

/// The lines for the servers.
pub open spec fn server_lines(
    configs: Seq<(String, ServerConfig)>,
    links: Seq<Link>,
) -> Seq<Seq<char>> {
    Seq::new(
        configs.len(),
        |i: int|
            configs[i].0@ + ": "@ + listed_status(configs[i].1.enabled, link_at(links, i)) + "\n"@,
    )
}

/// Does a tool match a query?
pub open spec fn matches_query(o: Offer, query: Seq<char>) -> bool {
    contains(lowercase(o.name), query) || contains(lowercase(o.description), query)
}

/// The tools among the first `n` that match a query.
pub open spec fn matching(s: Seq<Offer>, query: Seq<char>, n: nat) -> Seq<Offer>
    decreases n,
{
    if n == 0 {
        seq![]
    } else if matches_query(s[n - 1], query) {
        matching(s, query, (n - 1) as nat).push(s[n - 1])
    } else {
        matching(s, query, (n - 1) as nat)
    }
}

/// How many matches are shown.
pub const SHOWN_MATCHES: usize = 20;

/// The line for a tool.
pub open spec fn offer_line(o: Offer, active: Seq<Offer>) -> Seq<char> {
    let state = if offer_named(active, o.name) is Some {
        "active"@
    } else {
        "available"@
    };
    o.name + " ["@ + state + "; approval required]: "@ + o.description.take(
        fitting(o.description, 160) as int,
    ) + "\n"@
}

/// The lines for the first matches.
pub open spec fn match_lines(found: Seq<Offer>, active: Seq<Offer>) -> Seq<Seq<char>> {
    Seq::new(
        if found.len() <= SHOWN_MATCHES {
            found.len()
        } else {
            SHOWN_MATCHES as nat
        },
        |i: int| offer_line(found[i], active),
    )
}

/// The list of servers and of the tools that match a query.
pub open spec fn listing(k: Known, query: Seq<char>, links: Seq<Link>) -> Seq<char> {
    let found = matching(k.catalog, lowercase(query), k.catalog.len());
    "MCP is parent-only. Available ≠ active ≠ authorized.\n"@ + concat(
        server_lines(k.configs, links),
    ) + concat(match_lines(found, k.active)) + dec(found.len())
        + " matches; showing at most 20. Narrow query to find more.\n"@
}

/// What the discovery tool is asked to do.
#[derive(Debug)]
pub enum Discovery {
    /// Answer with this.
    Reply(ToolOutput),
    /// Answer with this text, storing it where it is too long.
    Text(String),
    /// Refresh this server.
    Refresh(String),
    /// Read a stored result.
    Read { handle: String, offset: u64 },
    /// Stop every server, with a record before and after; these approvals are void. Then
    /// answer with this.
    Disconnect { forget: Vec<String>, reply: ToolOutput },
    /// It cannot be done.
    Fail(String),
}

/// What a `Discovery` says.
pub enum Discovered {
    Reply(Output),
    Text(Seq<char>),
    Refresh(Seq<char>),
    Read(Seq<char>, u64),
    Disconnect(Seq<Seq<char>>, Output),
    Fail(Seq<char>),
}

impl View for Discovery {
    type V = Discovered;

    open spec fn view(&self) -> Discovered {
        match self {
            Discovery::Reply(o) => Discovered::Reply(o@),
            Discovery::Text(s) => Discovered::Text(s@),
            Discovery::Refresh(s) => Discovered::Refresh(s@),
            Discovery::Read { handle, offset } => Discovered::Read(handle@, *offset),
            Discovery::Disconnect { forget, reply } => Discovered::Disconnect(
                views(forget@),
                reply@,
            ),
            Discovery::Fail(e) => Discovered::Fail(e@),
        }
    }
}

/// The approvals that the tools of `s` may have been given.
pub open spec fn scopes(s: Seq<Offer>) -> Seq<Seq<char>> {
    Seq::new(s.len(), |i: int| "tool:"@ + s[i].revision)
}

/// The tools of `s` that are that server's.
pub open spec fn of_server(s: Seq<Offer>, server: Seq<char>) -> Seq<Offer>
    decreases s.len(),
{
    if s.len() == 0 {
        seq![]
    } else if s.last().server == server {
        of_server(s.drop_last(), server).push(s.last())
    } else {
        of_server(s.drop_last(), server)
    }
}

/// The backend once the discovery tool was called, and what is to be done. The link
/// is that of the server of the tool in question.
pub open spec fn discovered(k: Known, args: Tree, links: Seq<Link>, link: Link) -> (Known, Discovered) {
    let action = match str_arg(args, "action"@) {
        Some(a) => a,
        None => "list"@,
    };
    if action == "disconnect"@ {
        (
            Known { catalog: seq![], active: seq![], ..k },
            Discovered::Disconnect(
                scopes(k.catalog),
                fine("MCP servers stopped; tools deactivated"@),
            ),
        )
    } else if action == "refresh"@ {
        match needed(args, "server"@) {
            Ok(s) => (k, Discovered::Refresh(s)),
            Err(e) => (k, Discovered::Fail(e)),
        }
    } else if action == "activate"@ {
        match needed(args, "tool"@) {
            Err(e) => (k, Discovered::Fail(e)),
            Ok(name) => match activated(k, name, link) {
                Err(e) => (k, Discovered::Fail(e)),
                Ok(after) => (
                    after,
                    Discovered::Reply(
                        fine(
                            name
                                + ": active from the next request; approval still required"@,
                        ),
                    ),
                ),
            },
        }
    } else if action == "deactivate"@ {
        match needed(args, "tool"@) {
            Err(e) => (k, Discovered::Fail(e)),
            Ok(name) => (
                Known { active: drop_named(k.active, name), ..k },
                Discovered::Reply(fine("tool deactivated"@)),
            ),
        }
    } else if action == "read"@ {
        match needed(args, "handle"@) {
            Err(e) => (k, Discovered::Fail(e)),
            Ok(handle) => (
                k,
                Discovered::Read(
                    handle,
                    match u64_of(member(args, "offset"@)) {
                        Some(n) => n,
                        None => 0,
                    },
                ),
            ),
        }
    } else if action == "inspect"@ {
        match needed(args, "tool"@) {
            Err(e) => (k, Discovered::Fail(e)),
            Ok(name) => match offer_named(k.catalog, name) {
                None => (k, Discovered::Fail("unknown tool; refresh first"@)),
                Some(e) => (k, Discovered::Text(offer_text(e))),
            },
        }
    } else if action == "list"@ {
        (
            k,
            Discovered::Text(
                listing(
                    k,
                    match str_arg(args, "query"@) {
                        Some(q) => q,
                        None => seq![],
                    },
                    links,
                ),
            ),
        )
    } else {
        (
            k,
            Discovered::Fail(
                "actions: list, refresh, inspect, activate, deactivate, read"@,
            ),
        )
    }
}

// ---- launching --------------------------------------------------------------

/// How Rust's debug format writes a text: in quotes, with escapes.
pub uninterp spec fn debug_quoted(s: Seq<char>) -> Seq<char>;

/// The debug format of a `str` depends on the text alone.
#[verifier::external_body]
fn quote_debug(s: &str) -> (r: String)
    ensures
        r@ == debug_quoted(s@),
{
    format!("{:?}", s)
}

/// The entries of an environment, each as a debug map writes it.
pub open spec fn env_debug(env: Seq<(String, String)>) -> Seq<Seq<char>> {
    Seq::new(env.len(), |i: int| debug_quoted(env[i].0@) + ": "@ + debug_quoted(env[i].1@))
}

/// A list of texts, as JSON.
pub open spec fn texts_tree(v: Seq<Seq<char>>) -> Tree {
    Tree::List(Seq::new(v.len(), |i: int| Tree::Text(v[i])))
}

/// An environment, as JSON.
pub open spec fn env_tree(env: Seq<(String, String)>) -> Tree {
    Tree::Object(Seq::new(env.len(), |i: int| (env[i].0@, Tree::Text(env[i].1@))))
}

/// A flag, as JSON.
pub open spec fn flag_text(b: bool) -> Seq<char> {
    if b {
        "true"@
    } else {
        "false"@
    }
}

/// A server's configuration as JSON text, its fields in order.
pub open spec fn config_text(c: ServerConfig) -> Seq<char> {
    "{\"enabled\":"@ + flag_text(c.enabled) + ",\"command\":"@ + json_written(
        Tree::Text(c.command@),
    ) + ",\"args\":"@ + json_written(texts_tree(views(c.args@))) + ",\"env\":"@ + json_written(
        env_tree(c.env@),
    ) + ",\"timeout-ms\":"@ + dec(c.timeout_ms as nat) + ",\"frame-bytes\":"@ + dec(
        c.frame_bytes as nat,
    ) + ",\"catalog-bytes\":"@ + dec(c.catalog_bytes as nat) + ",\"max-pages\":"@ + dec(
        c.max_pages as nat,
    ) + ",\"schema-bytes\":"@ + dec(c.schema_bytes as nat) + ",\"active-bytes\":"@ + dec(
        c.active_bytes as nat,
    ) + "}"@
}

/// What approval of a launch is bound to: the session, the directory, the server
/// and its whole configuration.
pub open spec fn launch_scope(
    session: Seq<char>,
    cwd: Seq<char>,
    server: Seq<char>,
    c: ServerConfig,
) -> Seq<char> {
    print_of(
        vstd::utf8::encode_utf8(
            "["@ + json_written(Tree::Text(session)) + ","@ + json_written(Tree::Text(cwd)) + ","@
                + json_written(Tree::Text(server)) + ","@ + config_text(c) + "]"@,
        ),
    )
}

/// What the user is shown before a launch.
pub open spec fn launch_preview(cwd: Seq<char>, server: Seq<char>, c: ServerConfig) -> Seq<char> {
    "Start MCP server "@ + server + " in "@ + cwd + "\n"@ + c.command@ + " "@ + json_written(
        texts_tree(views(c.args@)),
    )
        + "\nThis program can act immediately on launch. Credential references: {"@ + join(
        env_debug(c.env@),
        ", "@,
    ) + "}"@
}

fn texts_json(v: &Vec<String>) -> (r: Json)
    ensures
        r@ == texts_tree(views(v@)),
{
    let mut out: Vec<Json> = Vec::new();
    let ghost all = texts_tree(views(v@))->List_0;
    let mut i: usize = 0;
    while i < v.len()
        invariant
            i <= v@.len(),
            all == texts_tree(views(v@))->List_0,
            trees(out@) == all.take(i as int),
        decreases v.len() - i,
    {
        let ghost before = trees(out@);
        out.push(Json::text(v[i].as_str()));
        assert(trees(out@) =~= before.push(all[i as int]));
        i = i + 1;
        assert(trees(out@) =~= all.take(i as int));
    }
    assert(trees(out@) =~= all);
    Json::List(out)
}

fn env_json(v: &Vec<(String, String)>) -> (r: Json)
    ensures
        r@ == env_tree(v@),
{
    let mut out: Vec<(String, Json)> = Vec::new();
    let ghost all = env_tree(v@)->Object_0;
    let mut i: usize = 0;
    while i < v.len()
        invariant
            i <= v@.len(),
            all == env_tree(v@)->Object_0,
            fields(out@) == all.take(i as int),
        decreases v.len() - i,
    {
        let ghost before = fields(out@);
        out.push((v[i].0.clone(), Json::text(v[i].1.as_str())));
        assert(fields(out@) =~= before.push(all[i as int]));
        i = i + 1;
        assert(fields(out@) =~= all.take(i as int));
    }
    assert(fields(out@) =~= all);
    Json::Object(out)
}

fn push_number(s: &mut String, key: &str, n: u128)
    ensures
        final(s)@ == old(s)@ + key@ + dec(n as nat),
{
    s.append(key);
    let k = decimal(n);
    s.append(k.as_str());
}

fn write_config(c: &ServerConfig) -> (r: String)
    ensures
        r@ == config_text(*c),
{
    let mut s = "{\"enabled\":".to_owned();
    s.append(
        if c.enabled {
            "true"
        } else {
            "false"
        },
    );
    s.append(",\"command\":");
    let t = Json::text(c.command.as_str()).written();
    s.append(t.as_str());
    s.append(",\"args\":");
    let t = texts_json(&c.args).written();
    s.append(t.as_str());
    s.append(",\"env\":");
    let t = env_json(&c.env).written();
    s.append(t.as_str());
    push_number(&mut s, ",\"timeout-ms\":", c.timeout_ms as u128);
    push_number(&mut s, ",\"frame-bytes\":", c.frame_bytes as u128);
    push_number(&mut s, ",\"catalog-bytes\":", c.catalog_bytes as u128);
    push_number(&mut s, ",\"max-pages\":", c.max_pages as u128);
    push_number(&mut s, ",\"schema-bytes\":", c.schema_bytes as u128);
    push_number(&mut s, ",\"active-bytes\":", c.active_bytes as u128);
    s.append("}");
    s
}

fn launch_print(session: &str, cwd: &str, server: &str, c: &ServerConfig) -> (r: String)
    ensures
        r@ == launch_scope(session@, cwd@, server@, *c),
{
    let mut s = "[".to_owned();
    let t = Json::text(session).written();
    s.append(t.as_str());
    s.append(",");
    let t = Json::text(cwd).written();
    s.append(t.as_str());
    s.append(",");
    let t = Json::text(server).written();
    s.append(t.as_str());
    s.append(",");
    let t = write_config(c);
    s.append(t.as_str());
    s.append("]");
    fingerprint(s.as_str().as_bytes())
}

fn preview_launch(cwd: &str, server: &str, c: &ServerConfig) -> (r: String)
    ensures
        r@ == launch_preview(cwd@, server@, *c),
{
    let mut s = "Start MCP server ".to_owned();
    s.append(server);
    s.append(" in ");
    s.append(cwd);
    s.append("\n");
    s.append(c.command.as_str());
    s.append(" ");
    let t = texts_json(&c.args).written();
    s.append(t.as_str());
    s.append("\nThis program can act immediately on launch. Credential references: {");
    let ghost all = env_debug(c.env@);
    let mut env: Vec<String> = Vec::new();
    let mut i: usize = 0;
    while i < c.env.len()
        invariant
            i <= c.env@.len(),
            all == env_debug(c.env@),
            views(env@) == all.take(i as int),
        decreases c.env.len() - i,
    {
        let mut e = quote_debug(c.env[i].0.as_str());
        e.append(": ");
        let v = quote_debug(c.env[i].1.as_str());
        e.append(v.as_str());
        env.push(e);
        i = i + 1;
        assert(views(env@) =~= all.take(i as int));
    }
    assert(views(env@) =~= all);
    let list = joined(&env, ", ");
    s.append(list.as_str());
    s.append("}");
    s
}

/// A launch that waits for approval.
#[derive(Debug)]
pub struct Launch {
    pub server: String,
    /// What approval is bound to.
    pub scope: String,
    pub preview: String,
    /// These approvals are void.
    pub forget: Vec<String>,
}

/// The record of a step of a launch.
pub open spec fn launch_record(l: Launch, phase: Seq<char>) -> Record {
    Record {
        server: l.server@,
        tool: None,
        phase,
        revision: Some(l.scope@),
        elapsed_ms: 0,
        result_bytes: 0,
    }
}

/// Why a launch needs approval, and what an approval for the session covers.
pub const LAUNCH_REASON: &'static str =
    "launches an MCP program; session approval covers this configuration";

impl Launch {
    fn step(&self, phase: &str) -> (r: McpOperation)
        ensures
            r@ == launch_record(*self, phase@),
    {
        record(self.server.as_str(), None, phase, Some(self.scope.as_str()))
    }

    /// The record of a launch that waits for approval.
    pub fn awaiting(&self) -> (r: McpOperation)
        ensures
            r@ == launch_record(*self, "awaiting_launch_approval"@),
    {
        self.step("awaiting_launch_approval")
    }

    /// What approval of this launch is remembered by.
    pub fn approval_scope(&self) -> (r: String)
        ensures
            r@ == "launch:"@ + self.scope@,
    {
        let mut s = "launch:".to_owned();
        s.append(self.scope.as_str());
        s
    }

    /// The record of the decision, and whether the program is started.
    pub fn decided(&self, approved: bool) -> (r: (McpOperation, Result<(), String>))
        ensures
            r.0@ == launch_record(
                *self,
                if approved {
                    "starting"@
                } else {
                    "launch_denied"@
                },
            ),
            match r.1 {
                Ok(_) => approved,
                Err(e) => !approved && e@ == "launch denied; no process started"@,
            },
    {
        if approved {
            (self.step("starting"), Ok(()))
        } else {
            (self.step("launch_denied"), Err("launch denied; no process started".to_owned()))
        }
    }
}

/// The backend once the catalog of a launched server was read, or could not be; the
/// record of it; and the answer, or why there is none.
pub open spec fn refreshed(k: Known, l: Launch, read: Result<Seq<Offer>, Seq<char>>) -> (
    Known,
    Record,
    Result<Output, Seq<char>>,
) {
    match read {
        Ok(found) => (
            Known { catalog: put_all(k.catalog, found, found.len()), ..k },
            launch_record(l, "ready"@),
            Ok(
                fine(
                    l.server@
                        + ": connected; catalog refreshed. Tools require explicit activation and approval."@,
                ),
            ),
        ),
        Err(e) => (k, launch_record(l, "failed"@), Err(e)),
    }
}

/// The backend once a server is to be refreshed: its tools are retired before
/// anything is launched. Or why it cannot be refreshed.
pub open spec fn retired(k: Known, server: Seq<char>) -> Result<Known, Seq<char>> {
    match config_named(k.configs, server) {
        None => Err("unknown server"@),
        Some(c) => if !c.enabled {
            Err("server is disabled in trusted configuration"@)
        } else {
            Ok(
                Known {
                    active: drop_server(k.active, server),
                    catalog: drop_server(k.catalog, server),
                    ..k
                },
            )
        },
    }
}

// ---- calling ----------------------------------------------------------------

/// The longest arguments that are sent, in bytes.
pub const MAX_ARGUMENT_BYTES: usize = 16_384;

/// A call that waits for approval.
#[derive(Debug)]
pub struct Operation {
    /// The name under which the tool is advertised.
    pub name: String,
    pub server: String,
    pub remote: String,
    pub revision: String,
    pub preview: String,
    /// What approval is bound to.
    pub scope: String,
    pub arguments: Json,
    pub timeout_ms: u64,
}

/// What a call that waits for approval says.
pub struct Pending {
    pub name: Seq<char>,
    pub server: Seq<char>,
    pub remote: Seq<char>,
    pub revision: Seq<char>,
    pub preview: Seq<char>,
    pub scope: Seq<char>,
    pub arguments: Tree,
    pub timeout_ms: u64,
}

impl View for Operation {
    type V = Pending;

    open spec fn view(&self) -> Pending {
        Pending {
            name: self.name@,
            server: self.server@,
            remote: self.remote@,
            revision: self.revision@,
            preview: self.preview@,
            scope: self.scope@,
            arguments: self.arguments@,
            timeout_ms: self.timeout_ms,
        }
    }
}

/// What the user is shown before a call.
pub open spec fn call_preview(e: Offer, cwd: Seq<char>, args: Tree) -> Seq<char> {
    "MCP "@ + e.server + " / "@ + e.remote + "\nWorkspace: "@ + cwd + "\nArguments: "@
        + json_written(redacted(args))
}

/// The call that is put to the user, or why it is refused before that. The tool has
/// to be active and unchanged since the model saw it, its arguments an object of
/// bounded size, no earlier call of it open, and its server's connection usable.
pub open spec fn call_checked(
    k: Known,
    name: Seq<char>,
    args: Tree,
    shown: Option<(Seq<char>, Seq<char>, Tree)>,
    link: Link,
    cwd: Seq<char>,
) -> Result<Pending, Seq<char>> {
    match offer_named(k.active, name) {
        None => Err("inactive tool; discover and activate it for the next request"@),
        Some(e) => if shown is None {
            Err("tool was not active in this request snapshot"@)
        } else if shown != Some((e.name, e.description, e.parameters)) {
            Err("tool definition changed since request; reactivate and request again"@)
        } else if !(args is Object) {
            Err("tool arguments must be an object"@)
        } else if byte_len(json_written(args)) > MAX_ARGUMENT_BYTES {
            Err("tool arguments exceed 16384 bytes"@)
        } else if k.uncertain.contains(name) {
            Err(
                "uncertain prior outcome: this call will not be replayed; inspect the external state before taking another action"@,
            )
        } else if link == Link::Absent {
            Err("server disconnected; refresh required"@)
        } else if link != Link::Live {
            Err("server unavailable or catalog stale; refresh and reactivate"@)
        } else {
            match config_named(k.configs, e.server) {
                None => Err("unknown server"@),
                Some(c) => Ok(
                    Pending {
                        name,
                        server: e.server,
                        remote: e.remote,
                        revision: e.revision,
                        preview: call_preview(e, cwd, args),
                        scope: "tool:"@ + e.revision,
                        arguments: args,
                        timeout_ms: c.timeout_ms,
                    },
                ),
            }
        },
    }
}

/// The record of a step of a call.
pub open spec fn call_record(p: Pending, phase: Seq<char>, ms: u64, bytes: nat) -> Record {
    Record {
        server: p.server,
        tool: Some(p.remote),
        phase,
        revision: Some(p.revision),
        elapsed_ms: ms,
        result_bytes: bytes,
    }
}

/// Why a call needs approval, and what an approval for the session covers.
pub const CALL_REASON: &'static str =
    "external MCP operation; session approval covers future arguments for this tool";

impl Operation {
    fn step(&self, phase: &str) -> (r: McpOperation)
        ensures
            r@ == call_record(self@, phase@, 0, 0),
    {
        record(
            self.server.as_str(),
            Some(self.remote.as_str()),
            phase,
            Some(self.revision.as_str()),
        )
    }

    /// The record of a call that waits for approval.
    pub fn awaiting(&self) -> (r: McpOperation)
        ensures
            r@ == call_record(self@, "awaiting_operation_approval"@, 0, 0),
    {
        self.step("awaiting_operation_approval")
    }
}

/// What is recorded once a call was decided on.
pub open spec fn decision_record(
    p: Pending,
    approved: bool,
    cancelled: bool,
    changed: bool,
) -> Option<Record> {
    if !approved {
        Some(call_record(p, "denied"@, 0, 0))
    } else if cancelled || changed {
        None
    } else {
        Some(call_record(p, "dispatched"@, 0, 0))
    }
}

/// What an optional record says.
pub open spec fn opt_record(o: Option<McpOperation>) -> Option<Record> {
    match o {
        Some(r) => Some(r@),
        None => None,
    }
}

/// The backend once a call was decided on, or why nothing is dispatched. A call is
/// noted as open before it is sent: nothing later can prove that it was not.
pub open spec fn dispatched(
    k: Known,
    p: Pending,
    approved: bool,
    cancelled: bool,
    changed: bool,
) -> Result<Known, Seq<char>> {
    if !approved {
        Err("operation denied; no call dispatched"@)
    } else if cancelled {
        Err("cancelled before dispatch"@)
    } else if changed {
        Err("catalog changed during approval; refresh and reactivate"@)
    } else {
        Ok(Known { uncertain: k.uncertain.insert(p.name), ..k })
    }
}

/// What came back for a call.
#[derive(Debug)]
pub enum Reply {
    /// The server refused the arguments or does not have the method.
    Rejected,
    /// A result: its parts, where `None` is one that cannot be shown, and what it
    /// has in structured form.
    Result { parts: Vec<Option<String>>, structured: Option<Json>, is_error: bool },
    /// Anything else: a failed connection, another kind of answer, a timeout, or a
    /// cancellation after dispatch.
    Lost,
}

/// What the parts of a result say.
pub open spec fn parts_text(parts: Seq<Option<String>>) -> Seq<Seq<char>> {
    Seq::new(
        parts.len(),
        |i: int|
            match parts[i] {
                Some(t) => t@ + "\n"@,
                None => "[unsupported MCP content; not fetched or rendered]\n"@,
            },
    )
}

/// Is there a part that cannot be shown?
pub open spec fn unsupported(parts: Seq<Option<String>>) -> bool {
    exists|i: int| 0 <= i < parts.len() && (#[trigger] parts[i]) is None
}

/// What a result says.
pub open spec fn result_text(
    name: Seq<char>,
    ms: u64,
    parts: Seq<Option<String>>,
    structured: Option<Json>,
) -> Seq<char> {
    let head = "MCP "@ + name + " ("@ + dec(ms as nat) + " ms)\n"@ + concat(parts_text(parts));
    match structured {
        Some(j) => head + json_written(j@),
        None => head,
    }
}

/// How a call ended.
#[derive(Debug)]
pub enum Ended {
    /// Answer with this.
    Reply(ToolOutput),
    /// Answer with this text, storing it where it is too long.
    Text { content: String, is_error: bool },
    /// The outcome is not known: stop the server's connection, and answer with this
    /// error.
    Lost(String),
}

/// What an `Ended` says.
pub enum Outcome {
    Reply(Output),
    Text(Seq<char>, bool),
    Lost(Seq<char>),
}

impl View for Ended {
    type V = Outcome;

    open spec fn view(&self) -> Outcome {
        match self {
            Ended::Reply(o) => Outcome::Reply(o@),
            Ended::Text { content, is_error } => Outcome::Text(content@, *is_error),
            Ended::Lost(e) => Outcome::Lost(e@),
        }
    }
}

/// The backend once a reply came, the record of it, and the answer. Only a reply
/// closes the call; a lost one stays open, and its server's tools are deactivated.
pub open spec fn settled(k: Known, p: Pending, reply: Reply, ms: u64) -> (Known, Record, Outcome) {
    match reply {
        Reply::Rejected => (
            Known { uncertain: k.uncertain.remove(p.name), ..k },
            call_record(p, "invalid_arguments"@, ms, 0),
            Outcome::Reply(
                wrong("MCP request rejected: invalid arguments or unsupported method"@),
            ),
        ),
        Reply::Result { parts, structured, is_error } => {
            let text = result_text(p.name, ms, parts@, structured);
            let failed = is_error || unsupported(parts@);
            (
                Known { uncertain: k.uncertain.remove(p.name), ..k },
                call_record(
                    p,
                    if failed {
                        "execution_error"@
                    } else {
                        "completed"@
                    },
                    ms,
                    byte_len(text),
                ),
                Outcome::Text(text, failed),
            )
        },
        Reply::Lost => (
            Known { active: drop_server(k.active, p.server), ..k },
            call_record(p, "uncertain"@, ms, 0),
            Outcome::Lost(
                "uncertain outcome for "@ + p.name
                    + ": connection failed, response unsupported, timeout or cancellation after dispatch; no automatic replay. Verify external state"@,
            ),
        ),
    }
}

// ---- browsing ---------------------------------------------------------------

/// One server or tool in the browser.
#[derive(Debug)]
pub struct BrowserItem {
    pub name: String,
    pub description: String,
    pub detail: String,
    pub active: bool,
    pub scope: Option<String>,
}

/// What a browser item says.
pub struct Row {
    pub name: Seq<char>,
    pub description: Seq<char>,
    pub detail: Seq<char>,
    pub active: bool,
    pub scope: Option<Seq<char>>,
}

impl View for BrowserItem {
    type V = Row;

    open spec fn view(&self) -> Row {
        Row {
            name: self.name@,
            description: self.description@,
            detail: self.detail@,
            active: self.active,
            scope: opt_view(self.scope),
        }
    }
}

/// What a list of browser items says.
pub open spec fn row_views(v: Seq<BrowserItem>) -> Seq<Row> {
    Seq::new(v.len(), |i: int| v[i]@)
}

/// The row of a server.
pub open spec fn server_row(
    server: Seq<char>,
    config: ServerConfig,
    link: Link,
    active_bytes: nat,
) -> Row {
    let status = browsed_status(config.enabled, link);
    Row {
        name: "server:"@ + server,
        description: status,
        detail: "Server: "@ + server + "\nConnection: "@ + status + "\nProgram: "@ + config.command@
            + "\nEnter or r refreshes after launch approval.\nTotal active schema bytes: "@ + dec(
            active_bytes,
        ),
        active: false,
        scope: None,
    }
}

/// The row of a tool.
pub open spec fn offer_row(o: Offer, active: Seq<Offer>, status: Seq<char>) -> Row {
    let on = offer_named(active, o.name) is Some;
    let state = if on {
        "active"@
    } else {
        "available"@
    };
    Row {
        name: o.name,
        description: o.description,
        detail: "Server: "@ + o.server + "\nConnection: "@ + status + "\nActivation: "@ + state
            + "\nSchema revision: "@ + o.revision + "\nArguments (JSON Schema):\n"@ + json_pretty(
            o.parameters,
        ),
        active: on,
        scope: Some("tool:"@ + o.revision),
    }
}

/// The rows of a server's tools, among the first `n`.
pub open spec fn offer_rows(
    s: Seq<Offer>,
    n: nat,
    server: Seq<char>,
    active: Seq<Offer>,
    status: Seq<char>,
) -> Seq<Row>
    decreases n,
{
    if n == 0 {
        seq![]
    } else {
        let before = offer_rows(s, (n - 1) as nat, server, active, status);
        if s[n - 1].server == server {
            before.push(offer_row(s[n - 1], active, status))
        } else {
            before
        }
    }
}

/// The bytes that the definitions of `s` take.
pub open spec fn whole_size(s: Seq<Offer>) -> nat
    decreases s.len(),
{
    if s.len() == 0 {
        0
    } else {
        whole_size(s.drop_last()) + byte_len(offer_text(s.last()))
    }
}

/// The rows of the first `n` servers and their tools.
pub open spec fn browsed(k: Known, links: Seq<Link>, n: nat) -> Seq<Row>
    decreases n,
{
    if n == 0 {
        seq![]
    } else {
        let server = k.configs[n - 1].0@;
        let config = k.configs[n - 1].1;
        let link = link_at(links, n - 1);
        browsed(k, links, (n - 1) as nat).push(
            server_row(server, config, link, whole_size(k.active)),
        ) + offer_rows(
            k.catalog,
            k.catalog.len(),
            server,
            k.active,
            browsed_status(config.enabled, link),
        )
    }
}

/// What is added to a row once it is known whether its tool is approved.
pub open spec fn authorized(r: Row, allowed: bool, cwd: Seq<char>) -> Row {
    Row {
        detail: r.detail + if allowed {
            "\nAuthorization: allowed this session for future arguments."@
        } else {
            "\nAuthorization: approval required."@
        } + ("\nWorkspace: "@ + cwd + "\nWorkers: disabled"@),
        ..r
    }
}

/// The rows that a session may browse.
pub open spec fn browsable(k: Known, is_worker: bool, session: Seq<char>, links: Seq<Link>) -> Seq<
    Row,
> {
    if is_worker {
        seq![]
    } else if session == k.session {
        browsed(k, links, k.configs.len())
    } else {
        browsed(Known { catalog: seq![], active: seq![], ..k }, seq![], k.configs.len())
    }
}

/// Is the tool of a row approved for the session?
pub open spec fn may_run(r: Row, approved: Set<Seq<char>>) -> bool {
    match r.scope {
        Some(scope) => approved.contains(scope),
        None => false,
    }
}

impl Clone for BrowserItem {
    fn clone(&self) -> (r: BrowserItem)
        ensures
            r@ == self@,
    {
        self.copy()
    }
}

impl BrowserItem {
    /// The same row.
    pub fn copy(&self) -> (r: BrowserItem)
        ensures
            r@ == self@,
    {
        BrowserItem {
            name: self.name.clone(),
            description: self.description.clone(),
            detail: self.detail.clone(),
            active: self.active,
            scope: copy_opt(&self.scope),
        }
    }
}

/// Add to a row whether its tool is approved, and where it would run.
pub fn authorize(row: &mut BrowserItem, allowed: bool, cwd: &str)
    ensures
        final(row)@ == authorized(old(row)@, allowed, cwd@),
{
    row.detail.append(
        if allowed {
            "\nAuthorization: allowed this session for future arguments."
        } else {
            "\nAuthorization: approval required."
        },
    );
    let mut place = "\nWorkspace: ".to_owned();
    place.append(cwd);
    place.append("\nWorkers: disabled");
    row.detail.append(place.as_str());
}

proof fn lemma_rows_push(v: Seq<BrowserItem>, x: BrowserItem)
    ensures
        row_views(v.push(x)) == row_views(v).push(x@),
{
    assert(row_views(v.push(x)) =~= row_views(v).push(x@));
}

/// The schema of the discovery tool's arguments.
pub const DISCOVERY_SCHEMA: &'static str =
    "{\"type\":\"object\",\"properties\":{\"action\":{\"type\":\"string\",\"enum\":[\"list\",\"refresh\",\"inspect\",\"activate\",\"deactivate\",\"read\",\"disconnect\"]},\"server\":{\"type\":\"string\"},\"tool\":{\"type\":\"string\"},\"query\":{\"type\":\"string\"},\"handle\":{\"type\":\"string\"},\"offset\":{\"type\":\"integer\",\"minimum\":0,\"description\":\"Byte offset; defaults to 0. Offsets inside UTF-8 characters round back safely. Follow next_offset; stop when eof=true.\"}},\"required\":[\"action\"],\"additionalProperties\":false}";

/// What the discovery tool says of itself.
pub const DISCOVERY_DESCRIPTION: &'static str =
    "Discover configured parent MCP tools. Refresh starts a server after launch approval. Activate selects a native schema for the next request, not permission. Read retrieves a stored result without replay.";

/// What a schema's text reads as; nothing, where it does not.
pub open spec fn schema_read(text: Seq<char>) -> Tree {
    match json_read(text) {
        Ok(t) => t,
        Err(_) => Tree::Null,
    }
}

/// What a schema's text reads as.
pub fn read_schema(text: &str) -> (r: Json)
    ensures
        r@ == schema_read(text@),
{
    match Json::parse(text) {
        Ok(j) => j,
        Err(_) => Json::Null,
    }
}

/// What a definition says.
pub open spec fn def_view(d: ToolDef) -> (Seq<char>, Seq<char>, Tree) {
    (d.name@, d.description@, d.parameters@)
}

/// What a list of definitions says.
pub open spec fn def_views(v: Seq<ToolDef>) -> Seq<(Seq<char>, Seq<char>, Tree)> {
    Seq::new(v.len(), |i: int| def_view(v[i]))
}

/// The definitions that go into a request: none for a worker or without servers,
/// else the discovery tool's, and the active ones of this session.
pub open spec fn advertised(k: Known, is_worker: bool, session: Seq<char>) -> Seq<
    (Seq<char>, Seq<char>, Tree),
> {
    if is_worker || k.configs.len() == 0 {
        seq![]
    } else {
        let own = seq![
            ("mcp"@, DISCOVERY_DESCRIPTION@, schema_read(DISCOVERY_SCHEMA@)),
        ];
        if session == k.session {
            own + Seq::new(
                k.active.len(),
                |i: int| (k.active[i].name, k.active[i].description, k.active[i].parameters),
            )
        } else {
            own
        }
    }
}

impl Manager {
    /// A backend for these servers, in order. Nothing is known of them yet.
    pub fn new(configs: Vec<(String, ServerConfig)>) -> (r: Result<Manager, String>)
        ensures
            match first_problem(configs@, 0) {
                Some(e) => r matches Err(t) && t@ == e,
                None => r matches Ok(m) && m@ == (Known {
                    configs: configs@,
                    session: seq![],
                    catalog: seq![],
                    active: seq![],
                    uncertain: Set::empty(),
                }),
            },
    {
        let mut i: usize = 0;
        while i < configs.len()
            invariant
                i <= configs@.len(),
                first_problem(configs@, i as int) == first_problem(configs@, 0),
            decreases configs.len() - i,
        {
            if let Some(e) = check_config(configs[i].0.as_str(), &configs[i].1) {
                return Err(e);
            }
            i = i + 1;
        }
        let m = Manager {
            configs,
            session: String::new(),
            catalog: Vec::new(),
            active: Vec::new(),
            uncertain: TextSet::new(),
        };
        assert(offers(m.catalog@) =~= seq![]);
        assert(offers(m.active@) =~= seq![]);
        assert(m.session@ =~= seq![]);
        Ok(m)
    }

    /// Does the backend hold this session?
    pub fn holds(&self, session: &str) -> (r: bool)
        ensures
            r == (self@.session == session@),
    {
        same(self.session.as_str(), session)
    }

    /// Turn to another session: nothing of the last one is kept.
    pub fn enter(&mut self, session: &str, uncertain: TextSet)
        ensures
            final(self)@ == (Known {
                configs: old(self)@.configs,
                session: session@,
                catalog: seq![],
                active: seq![],
                uncertain: uncertain@,
            }),
    {
        self.session = session.to_owned();
        self.catalog = Vec::new();
        self.active = Vec::new();
        self.uncertain = uncertain;
        assert(offers(self.catalog@) =~= seq![]);
        assert(offers(self.active@) =~= seq![]);
    }

    /// The definitions that go into a request.
    pub fn definitions(&self, is_worker: bool, session: &str) -> (r: Vec<ToolDef>)
        ensures
            def_views(r@) == advertised(self@, is_worker, session@),
    {
        let mut defs: Vec<ToolDef> = Vec::new();
        if is_worker || self.configs.len() == 0 {
            assert(def_views(defs@) =~= seq![]);
            return defs;
        }
        defs.push(
            ToolDef {
                name: "mcp".to_owned(),
                description: DISCOVERY_DESCRIPTION.to_owned(),
                parameters: read_schema(DISCOVERY_SCHEMA),
            },
        );
        let ghost own = def_views(defs@);
        assert(own =~= seq![("mcp"@, DISCOVERY_DESCRIPTION@, schema_read(DISCOVERY_SCHEMA@))]);
        if !self.holds(session) {
            return defs;
        }
        let ghost k = self@;
        let ghost rest = Seq::new(
            k.active.len(),
            |i: int| (k.active[i].name, k.active[i].description, k.active[i].parameters),
        );
        let mut i: usize = 0;
        assert(def_views(defs@) =~= own + rest.take(0));
        while i < self.active.len()
            invariant
                i <= self.active@.len(),
                k == self@,
                rest == Seq::new(
                    k.active.len(),
                    |i: int| (k.active[i].name, k.active[i].description, k.active[i].parameters),
                ),
                def_views(defs@) == own + rest.take(i as int),
            decreases self.active.len() - i,
        {
            let ghost before = def_views(defs@);
            let d = copy_def(&self.active[i].def);
            assert(k.active[i as int] == self.active@[i as int]@);
            defs.push(d);
            assert(def_views(defs@) =~= before.push(rest[i as int]));
            i = i + 1;
            assert(def_views(defs@) =~= own + rest.take(i as int));
        }
        assert(rest.take(i as int) =~= rest);
        defs
    }

    /// Which server a tool in the catalog belongs to.
    pub fn server_of(&self, tool: &str) -> (r: Option<&str>)
        ensures
            match r {
                Some(s) => offer_named(self@.catalog, tool@) matches Some(o) && o.server == s@,
                None => offer_named(self@.catalog, tool@) is None,
            },
    {
        match find_entry(&self.catalog, tool) {
            Some(i) => Some(self.catalog[i].server.as_str()),
            None => None,
        }
    }

    fn active_bytes(&self, but: &str) -> (r: u128)
        ensures
            r == if active_size(self@.active, but@) <= u128::MAX {
                active_size(self@.active, but@)
            } else {
                u128::MAX as nat
            },
    {
        let ghost all = offers(self.active@);
        let mut total: u128 = 0;
        let mut i: usize = 0;
        assert(all.take(0) =~= seq![]);
        while i < self.active.len()
            invariant
                i <= self.active@.len(),
                all == offers(self.active@),
                total == if active_size(all.take(i as int), but@) <= u128::MAX {
                    active_size(all.take(i as int), but@)
                } else {
                    u128::MAX as nat
                },
            decreases self.active.len() - i,
        {
            assert(all.take(i + 1).drop_last() =~= all.take(i as int));
            assert(all.take(i + 1).last() == self.active@[i as int]@);
            if !same(self.active[i].def.name.as_str(), but) {
                let t = definition_text(&self.active[i].def);
                total = total.saturating_add(utf8_len(t.as_str()));
            }
            i = i + 1;
        }
        assert(all.take(i as int) =~= all);
        total
    }

    fn active_names(&self) -> (r: Vec<String>)
        ensures
            views(r@) == offer_names(self@.active),
    {
        let ghost all = offer_names(self@.active);
        let mut r: Vec<String> = Vec::new();
        let mut i: usize = 0;
        while i < self.active.len()
            invariant
                i <= self.active@.len(),
                all == offer_names(self@.active),
                views(r@) == all.take(i as int),
            decreases self.active.len() - i,
        {
            assert(self@.active[i as int] == self.active@[i as int]@);
            r.push(self.active[i].def.name.clone());
            i = i + 1;
            assert(views(r@) =~= all.take(i as int));
        }
        assert(views(r@) =~= all);
        r
    }

    /// Select a tool's schema for the next request. That is no permission.
    pub fn activate(&mut self, name: &str, link: Link) -> (r: Result<(), String>)
        ensures
            match activated(old(self)@, name@, link) {
                Ok(after) => r is Ok && final(self)@ == after,
                Err(e) => final(self)@ == old(self)@ && (r matches Err(t) && t@ == e),
            },
    {
        let at = match find_entry(&self.catalog, name) {
            Some(i) => i,
            None => {
                return Err("unknown tool; refresh its server first".to_owned());
            },
        };
        let c = match find_config(&self.configs, self.catalog[at].server.as_str()) {
            Some(c) => c,
            None => {
                return Err("unknown server".to_owned());
            },
        };
        if link == Link::Absent {
            return Err("server disconnected; refresh first".to_owned());
        }
        if link != Link::Live {
            return Err("stale catalog; refresh and reactivate".to_owned());
        }
        if let Some(p) = validate_schema(&self.catalog[at].def.parameters) {
            return Err(p);
        }
        let text = definition_text(&self.catalog[at].def);
        let size = utf8_len(text.as_str());
        let schema_bytes = self.configs[c].1.schema_bytes;
        let active_bytes = self.configs[c].1.active_bytes;
        if size > schema_bytes as u128 {
            let mut e = "tool schema/description exceeds ".to_owned();
            let n = decimal(schema_bytes as u128);
            e.append(n.as_str());
            e.append(" bytes");
            return Err(e);
        }
        let total = self.active_bytes(name);
        if total > active_bytes as u128 || total + size > active_bytes as u128 {
            let mut e = "active schema budget ".to_owned();
            let n = decimal(active_bytes as u128);
            e.append(n.as_str());
            e.append(" bytes exceeded; deactivate tools: ");
            let names = self.active_names();
            let list = joined(&names, ", ");
            e.append(list.as_str());
            return Err(e);
        }
        let e = self.catalog[at].copy();
        put_entry(&mut self.active, e);
        Ok(())
    }

    fn list(&self, query: &str, links: &Vec<Link>) -> (r: String)
        ensures
            r@ == listing(self@, query@, links@),
    {
        let low = query.to_lowercase();
        let mut text = "MCP is parent-only. Available ≠ active ≠ authorized.\n".to_owned();
        let ghost top = text@;
        let ghost lines = server_lines(self.configs@, links@);
        let mut i: usize = 0;
        assert(lines.take(0) =~= seq![]);
        assert(text@ =~= top + concat(lines.take(0)));
        while i < self.configs.len()
            invariant
                i <= self.configs@.len(),
                lines == server_lines(self.configs@, links@),
                text@ == top + concat(lines.take(i as int)),
            decreases self.configs.len() - i,
        {
            let link = if i < links.len() {
                links[i]
            } else {
                Link::Absent
            };
            let mut line = self.configs[i].0.clone();
            line.append(": ");
            line.append(
                if !self.configs[i].1.enabled {
                    "disabled"
                } else {
                    match link {
                        Link::Closed => "failed; refresh required",
                        Link::Stale => "connected; catalog stale",
                        Link::Live => "connected",
                        Link::Absent => "stopped; refresh requires launch approval",
                    }
                },
            );
            line.append("\n");
            assert(line@ == lines[i as int]);
            assert(lines.take(i + 1) =~= lines.take(i as int).push(lines[i as int]));
            let ghost before = text@;
            text.append(line.as_str());
            assert(text@ =~= top + concat(lines.take(i + 1)));
            i = i + 1;
        }
        assert(lines.take(i as int) =~= lines);
        let ghost head = text@;
        let ghost all = self@.catalog;
        let ghost q = low@;
        let ghost found = matching(all, q, all.len());
        let mut shown = String::new();
        let mut count: usize = 0;
        let mut k: usize = 0;
        assert(match_lines(matching(all, q, 0), self@.active) =~= seq![]);
        while k < self.catalog.len()
            invariant
                k <= self.catalog@.len(),
                all == self@.catalog,
                q == low@,
                count == matching(all, q, k as nat).len(),
                count <= k,
                shown@ == concat(match_lines(matching(all, q, k as nat), self@.active)),
            decreases self.catalog.len() - k,
        {
            let e = &self.catalog[k];
            assert(all[k as int] == e@);
            let ghost sofar = matching(all, q, k as nat);
            let name = e.def.name.as_str().to_lowercase();
            let description = e.def.description.as_str().to_lowercase();
            if has_text(name.as_str(), low.as_str()) || has_text(description.as_str(), low.as_str()) {
                if count < SHOWN_MATCHES {
                    let mut line = e.def.name.clone();
                    line.append(" [");
                    line.append(
                        if find_entry(&self.active, e.def.name.as_str()).is_some() {
                            "active"
                        } else {
                            "available"
                        },
                    );
                    line.append("; approval required]: ");
                    let v = chars_of(e.def.description.as_str());
                    let (n, _) = fit(&v, 160);
                    let d = string_of(&v, 0, n);
                    assert(d@ =~= e@.description.take(fitting(e@.description, 160) as int));
                    line.append(d.as_str());
                    line.append("\n");
                    assert(line@ == offer_line(e@, self@.active));
                    assert(match_lines(sofar.push(e@), self@.active) =~= match_lines(
                        sofar,
                        self@.active,
                    ).push(line@));
                    shown.append(line.as_str());
                } else {
                    assert(match_lines(sofar.push(e@), self@.active) =~= match_lines(
                        sofar,
                        self@.active,
                    ));
                }
                count = count + 1;
            }
            k = k + 1;
        }
        text.append(shown.as_str());
        let n = decimal(count as u128);
        text.append(n.as_str());
        text.append(" matches; showing at most 20. Narrow query to find more.\n");
        text
    }

    fn scopes_of(&self, server: Option<&str>) -> (r: Vec<String>)
        ensures
            views(r@) == scopes(
                match server {
                    Some(s) => of_server(self@.catalog, s@),
                    None => self@.catalog,
                },
            ),
    {
        let ghost all = self@.catalog;
        let ghost picked = match server {
            Some(s) => of_server(all, s@),
            None => all,
        };
        let mut r: Vec<String> = Vec::new();
        let mut i: usize = 0;
        assert(all.take(0) =~= seq![]);
        assert(views(r@) =~= scopes(all.take(0)));
        while i < self.catalog.len()
            invariant
                i <= self.catalog@.len(),
                all == self@.catalog,
                views(r@) == scopes(
                    match server {
                        Some(s) => of_server(all.take(i as int), s@),
                        None => all.take(i as int),
                    },
                ),
            decreases self.catalog.len() - i,
        {
            let e = &self.catalog[i];
            assert(all[i as int] == e@);
            assert(all.take(i + 1).drop_last() =~= all.take(i as int));
            let ghost before = views(r@);
            let wanted = match server {
                Some(s) => same(e.server.as_str(), s),
                None => true,
            };
            if wanted {
                let mut s = "tool:".to_owned();
                s.append(e.revision.as_str());
                r.push(s);
            }
            i = i + 1;
            assert(views(r@) =~= scopes(
                match server {
                    Some(s) => of_server(all.take(i as int), s@),
                    None => all.take(i as int),
                },
            ));
        }
        assert(all.take(i as int) =~= all);
        r
    }

    /// Run the discovery tool. The links are those of the servers, in order; `link`
    /// is that of the server of the tool in question.
    pub fn discover(&mut self, args: &Json, links: &Vec<Link>, link: Link) -> (r: Discovery)
        ensures
            (final(self)@, r@) == discovered(old(self)@, args@, links@, link),
    {
        let action = match get_str(args, "action") {
            Some(a) => a,
            None => "list",
        };
        if same(action, "disconnect") {
            let forget = self.scopes_of(None);
            self.active = Vec::new();
            self.catalog = Vec::new();
            assert(offers(self.catalog@) =~= seq![]);
            assert(offers(self.active@) =~= seq![]);
            return Discovery::Disconnect {
                forget,
                reply: ToolOutput::ok("MCP servers stopped; tools deactivated"),
            };
        }
        if same(action, "refresh") {
            return match field_arg(args, "server") {
                Ok(s) => Discovery::Refresh(s.to_owned()),
                Err(e) => Discovery::Fail(e),
            };
        }
        if same(action, "activate") {
            return match field_arg(args, "tool") {
                Err(e) => Discovery::Fail(e),
                Ok(name) => match self.activate(name, link) {
                    Err(e) => Discovery::Fail(e),
                    Ok(()) => {
                        let mut s = name.to_owned();
                        s.append(": active from the next request; approval still required");
                        Discovery::Reply(
                            ToolOutput { content: s, is_error: false, fatal: false },
                        )
                    },
                },
            };
        }
        if same(action, "deactivate") {
            return match field_arg(args, "tool") {
                Err(e) => Discovery::Fail(e),
                Ok(name) => {
                    let left = without_named(&self.active, name);
                    self.active = left;
                    Discovery::Reply(ToolOutput::ok("tool deactivated"))
                },
            };
        }
        if same(action, "read") {
            return match field_arg(args, "handle") {
                Err(e) => Discovery::Fail(e),
                Ok(handle) => Discovery::Read {
                    handle: handle.to_owned(),
                    offset: match get_u64(args, "offset") {
                        Some(n) => n,
                        None => 0,
                    },
                },
            };
        }
        if same(action, "inspect") {
            return match field_arg(args, "tool") {
                Err(e) => Discovery::Fail(e),
                Ok(name) => match find_entry(&self.catalog, name) {
                    None => Discovery::Fail("unknown tool; refresh first".to_owned()),
                    Some(i) => Discovery::Text(definition_text(&self.catalog[i].def)),
                },
            };
        }
        if same(action, "list") {
            return match get_str(args, "query") {
                Some(q) => Discovery::Text(self.list(q, links)),
                None => {
                    let none = String::new();
                    assert(none@ =~= seq![]);
                    Discovery::Text(self.list(none.as_str(), links))
                },
            };
        }
        Discovery::Fail(
            "actions: list, refresh, inspect, activate, deactivate, read".to_owned(),
        )
    }

    /// Begin to refresh a server: retire its tools, and say what is to be approved
    /// before it is launched.
    pub fn begin_refresh(&mut self, server: &str, session: &str, cwd: &str) -> (r: Result<
        Launch,
        String,
    >)
        ensures
            match retired(old(self)@, server@) {
                Ok(after) => {
                    &&& final(self)@ == after
                    &&& r matches Ok(l) && {
                        let c = config_named(old(self)@.configs, server@)->0;
                        &&& l.server@ == server@
                        &&& l.scope@ == launch_scope(session@, cwd@, server@, c)
                        &&& l.preview@ == launch_preview(cwd@, server@, c)
                        &&& views(l.forget@) == scopes(of_server(old(self)@.catalog, server@))
                    }
                },
                Err(e) => final(self)@ == old(self)@ && (r matches Err(t) && t@ == e),
            },
    {
        let c = match find_config(&self.configs, server) {
            Some(c) => c,
            None => {
                return Err("unknown server".to_owned());
            },
        };
        if !self.configs[c].1.enabled {
            return Err("server is disabled in trusted configuration".to_owned());
        }
        let forget = self.scopes_of(Some(server));
        let active = without_server(&self.active, server);
        self.active = active;
        let catalog = without_server(&self.catalog, server);
        self.catalog = catalog;
        let scope = launch_print(session, cwd, server, &self.configs[c].1);
        let preview = preview_launch(cwd, server, &self.configs[c].1);
        Ok(Launch { server: server.to_owned(), scope, preview, forget })
    }

    /// Take in a catalog that was read.
    pub fn install(&mut self, entries: Vec<Entry>)
        ensures
            final(self)@ == (Known {
                catalog: put_all(old(self)@.catalog, offers(entries@), entries@.len()),
                ..old(self)@
            }),
    {
        put_entries(&mut self.catalog, entries);
    }

    /// End a refresh: take in the catalog that was read once the server was started, or
    /// why it could not be.
    pub fn finish_refresh(&mut self, launch: &Launch, read: Result<Vec<Entry>, String>) -> (r: (
        McpOperation,
        Result<ToolOutput, String>,
    ))
        ensures
            (
                final(self)@,
                r.0@,
                match r.1 {
                    Ok(o) => Ok(o@),
                    Err(e) => Err(e@),
                },
            ) == refreshed(
                old(self)@,
                *launch,
                match read {
                    Ok(es) => Ok(offers(es@)),
                    Err(e) => Err(e@),
                },
            ),
    {
        match read {
            Ok(entries) => {
                self.install(entries);
                let mut s = launch.server.clone();
                s.append(
                    ": connected; catalog refreshed. Tools require explicit activation and approval.",
                );
                (
                    launch.step("ready"),
                    Ok(ToolOutput { content: s, is_error: false, fatal: false }),
                )
            },
            Err(e) => (launch.step("failed"), Err(e)),
        }
    }

    /// Check a call, and say what is to be approved before it is made.
    pub fn begin_call(
        &self,
        name: &str,
        args: &Json,
        advertised: Option<&ToolDef>,
        link: Link,
        cwd: &str,
    ) -> (r: Result<Operation, String>)
        ensures
            match call_checked(
                self@,
                name@,
                args@,
                match advertised {
                    Some(d) => Some(def_view(*d)),
                    None => None,
                },
                link,
                cwd@,
            ) {
                Ok(p) => r matches Ok(o) && o@ == p,
                Err(e) => r matches Err(t) && t@ == e,
            },
    {
        let at = match find_entry(&self.active, name) {
            Some(i) => i,
            None => {
                return Err(
                    "inactive tool; discover and activate it for the next request".to_owned(),
                );
            },
        };
        let e = &self.active[at];
        match advertised {
            None => {
                return Err("tool was not active in this request snapshot".to_owned());
            },
            Some(d) => {
                if !same(d.name.as_str(), e.def.name.as_str()) || !same(
                    d.description.as_str(),
                    e.def.description.as_str(),
                ) || !same_json(&d.parameters, &e.def.parameters) {
                    return Err(
                        "tool definition changed since request; reactivate and request again".to_owned(),
                    );
                }
            },
        }
        if args.as_object().is_none() {
            return Err("tool arguments must be an object".to_owned());
        }
        let text = args.written();
        if utf8_len(text.as_str()) > MAX_ARGUMENT_BYTES as u128 {
            return Err("tool arguments exceed 16384 bytes".to_owned());
        }
        if self.uncertain.contains(name) {
            return Err(
                "uncertain prior outcome: this call will not be replayed; inspect the external state before taking another action".to_owned(),
            );
        }
        if link == Link::Absent {
            return Err("server disconnected; refresh required".to_owned());
        }
        if link != Link::Live {
            return Err(
                "server unavailable or catalog stale; refresh and reactivate".to_owned(),
            );
        }
        let c = match find_config(&self.configs, e.server.as_str()) {
            Some(c) => c,
            None => {
                return Err("unknown server".to_owned());
            },
        };
        let mut preview = "MCP ".to_owned();
        preview.append(e.server.as_str());
        preview.append(" / ");
        preview.append(e.remote.as_str());
        preview.append("\nWorkspace: ");
        preview.append(cwd);
        preview.append("\nArguments: ");
        let hidden = redact(args).written();
        preview.append(hidden.as_str());
        let mut scope = "tool:".to_owned();
        scope.append(e.revision.as_str());
        Ok(
            Operation {
                name: name.to_owned(),
                server: e.server.clone(),
                remote: e.remote.clone(),
                revision: e.revision.clone(),
                preview,
                scope,
                arguments: args.copy(),
                timeout_ms: self.configs[c].1.timeout_ms,
            },
        )
    }

    /// Decide whether a call is sent, and say what is recorded of it. From here on a call
    /// that is sent counts as open.
    pub fn dispatch(&mut self, op: &Operation, approved: bool, cancelled: bool, changed: bool) -> (r:
        (Option<McpOperation>, Result<(), String>))
        ensures
            opt_record(r.0) == decision_record(op@, approved, cancelled, changed),
            match dispatched(old(self)@, op@, approved, cancelled, changed) {
                Ok(after) => r.1 is Ok && final(self)@ == after,
                Err(e) => final(self)@ == old(self)@ && (r.1 matches Err(t) && t@ == e),
            },
    {
        if !approved {
            return (
                Some(op.step("denied")),
                Err("operation denied; no call dispatched".to_owned()),
            );
        }
        if cancelled {
            return (None, Err("cancelled before dispatch".to_owned()));
        }
        if changed {
            return (
                None,
                Err("catalog changed during approval; refresh and reactivate".to_owned()),
            );
        }
        self.uncertain.insert(op.name.as_str());
        (Some(op.step("dispatched")), Ok(()))
    }

    /// Take in what came back for a call.
    pub fn settle(&mut self, op: &Operation, reply: Reply, ms: u64) -> (r: (McpOperation, Ended))
        ensures
            (final(self)@, r.0@, r.1@) == settled(old(self)@, op@, reply, ms),
    {
        let mut rec = record(
            op.server.as_str(),
            Some(op.remote.as_str()),
            "uncertain",
            Some(op.revision.as_str()),
        );
        rec.elapsed_ms = ms;
        match &reply {
            Reply::Rejected => {
                self.uncertain.remove(op.name.as_str());
                rec.phase = "invalid_arguments".to_owned();
                (
                    rec,
                    Ended::Reply(
                        ToolOutput::error(
                            "MCP request rejected: invalid arguments or unsupported method",
                        ),
                    ),
                )
            },
            Reply::Result { parts, structured, is_error } => {
                self.uncertain.remove(op.name.as_str());
                let mut content = "MCP ".to_owned();
                content.append(op.name.as_str());
                content.append(" (");
                let n = decimal(ms as u128);
                content.append(n.as_str());
                content.append(" ms)\n");
                let ghost head = content@;
                let ghost all = parts_text(parts@);
                let mut odd = false;
                let mut i: usize = 0;
                assert(all.take(0) =~= seq![]);
                assert(content@ =~= head + concat(all.take(0)));
                while i < parts.len()
                    invariant
                        i <= parts@.len(),
                        all == parts_text(parts@),
                        content@ == head + concat(all.take(i as int)),
                        odd <==> exists|j: int| 0 <= j < i && (#[trigger] parts@[j]) is None,
                    decreases parts.len() - i,
                {
                    let ghost before = content@;
                    assert(all.take(i + 1) =~= all.take(i as int).push(all[i as int]));
                    match &parts[i] {
                        Some(t) => {
                            content.append(t.as_str());
                            content.append("\n");
                        },
                        None => {
                            assert(parts@[i as int] is None);
                            odd = true;
                            content.append(
                                "[unsupported MCP content; not fetched or rendered]\n",
                            );
                        },
                    }
                    assert(content@ =~= head + concat(all.take(i + 1)));
                    i = i + 1;
                }
                assert(all.take(i as int) =~= all);
                if let Some(j) = structured {
                    let t = j.written();
                    content.append(t.as_str());
                }
                let failed = *is_error || odd;
                rec.phase = if failed {
                    "execution_error".to_owned()
                } else {
                    "completed".to_owned()
                };
                rec.result_bytes = utf8_len(content.as_str());
                (rec, Ended::Text { content, is_error: failed })
            },
            Reply::Lost => {
                let left = without_server(&self.active, op.server.as_str());
                self.active = left;
                let mut e = "uncertain outcome for ".to_owned();
                e.append(op.name.as_str());
                e.append(
                    ": connection failed, response unsupported, timeout or cancellation after dispatch; no automatic replay. Verify external state",
                );
                (rec, Ended::Lost(e))
            },
        }
    }

    fn rows(
        configs: &Vec<(String, ServerConfig)>,
        catalog: &Vec<Entry>,
        active: &Vec<Entry>,
        links: &Vec<Link>,
        Ghost(k): Ghost<Known>,
    ) -> (r: Vec<BrowserItem>)
        requires
            k.configs == configs@,
            k.catalog == offers(catalog@),
            k.active == offers(active@),
        ensures
            row_views(r@) == browsed(k, links@, configs@.len()),
    {
        let mut total: u128 = 0;
        let mut i: usize = 0;
        assert(k.active.take(0) =~= seq![]);
        while i < active.len()
            invariant
                i <= active@.len(),
                k.configs == configs@,
                k.catalog == offers(catalog@),
                k.active == offers(active@),
                total == whole_size(k.active.take(i as int)),
                total <= i * usize::MAX,
            decreases active.len() - i,
        {
            assert(k.active.take(i + 1).drop_last() =~= k.active.take(i as int));
            assert(k.active.take(i + 1).last() == active@[i as int]@);
            let t = definition_text(&active[i].def);
            let n: u128 = utf8_len(t.as_str());
            assert(i * usize::MAX + n <= (i + 1) * usize::MAX <= usize::MAX * usize::MAX)
                by (nonlinear_arith)
                requires
                    i < usize::MAX,
                    n <= usize::MAX,
            ;
            total = total + n;
            i = i + 1;
        }
        assert(k.active.take(i as int) =~= k.active);
        let mut rows: Vec<BrowserItem> = Vec::new();
        let mut n: usize = 0;
        assert(row_views(rows@) =~= seq![]);
        while n < configs.len()
            invariant
                n <= configs@.len(),
                k.configs == configs@,
                k.catalog == offers(catalog@),
                k.active == offers(active@),
                total == whole_size(k.active),
                row_views(rows@) == browsed(k, links@, n as nat),
            decreases configs.len() - n,
        {
            let server = configs[n].0.as_str();
            let config = &configs[n].1;
            let link = if n < links.len() {
                links[n]
            } else {
                Link::Absent
            };
            let status = if !config.enabled {
                "disabled"
            } else {
                match link {
                    Link::Closed => "failed",
                    Link::Stale => "connected; catalog stale — refresh required",
                    Link::Live => "connected",
                    Link::Absent => "stopped",
                }
            };
            let mut name = "server:".to_owned();
            name.append(server);
            let mut detail = "Server: ".to_owned();
            detail.append(server);
            detail.append("\nConnection: ");
            detail.append(status);
            detail.append("\nProgram: ");
            detail.append(config.command.as_str());
            detail.append(
                "\nEnter or r refreshes after launch approval.\nTotal active schema bytes: ",
            );
            let t = decimal(total);
            detail.append(t.as_str());
            let row = BrowserItem {
                name,
                description: status.to_owned(),
                detail,
                active: false,
                scope: None,
            };
            proof {
                lemma_rows_push(rows@, row);
            }
            rows.push(row);
            let ghost top = row_views(rows@);
            let mut m: usize = 0;
            assert(row_views(rows@) =~= top + offer_rows(k.catalog, 0, server@, k.active, status@));
            while m < catalog.len()
                invariant
                    m <= catalog@.len(),
                    k.configs == configs@,
                k.catalog == offers(catalog@),
                k.active == offers(active@),
                    row_views(rows@) == top + offer_rows(
                        k.catalog,
                        m as nat,
                        server@,
                        k.active,
                        status@,
                    ),
                decreases catalog.len() - m,
            {
                let e = &catalog[m];
                assert(k.catalog[m as int] == e@);
                if same(e.server.as_str(), server) {
                    let on = find_entry(active, e.def.name.as_str()).is_some();
                    let mut detail = "Server: ".to_owned();
                    detail.append(server);
                    detail.append("\nConnection: ");
                    detail.append(status);
                    detail.append("\nActivation: ");
                    detail.append(
                        if on {
                            "active"
                        } else {
                            "available"
                        },
                    );
                    detail.append("\nSchema revision: ");
                    detail.append(e.revision.as_str());
                    detail.append("\nArguments (JSON Schema):\n");
                    let p = e.def.parameters.pretty();
                    detail.append(p.as_str());
                    let mut scope = "tool:".to_owned();
                    scope.append(e.revision.as_str());
                    let row = BrowserItem {
                        name: e.def.name.clone(),
                        description: e.def.description.clone(),
                        detail,
                        active: on,
                        scope: Some(scope),
                    };
                    assert(row@ == offer_row(e@, k.active, status@));
                    let ghost before = row_views(rows@);
                    proof {
                        lemma_rows_push(rows@, row);
                    }
                    rows.push(row);
                    assert(row_views(rows@) =~= top + offer_rows(
                        k.catalog,
                        (m + 1) as nat,
                        server@,
                        k.active,
                        status@,
                    ));
                }
                m = m + 1;
            }
            n = n + 1;
        }
        rows
    }

    /// The rows of the browser, before it is known what is approved. Browsing starts
    /// nothing.
    pub fn browser_items(&self, links: &Vec<Link>) -> (r: Vec<BrowserItem>)
        ensures
            row_views(r@) == browsed(self@, links@, self@.configs.len()),
    {
        Manager::rows(&self.configs, &self.catalog, &self.active, links, Ghost(self@))
    }

    /// The browser as a session sees it: nothing for a worker, and only the servers for a
    /// session that the backend does not hold.
    pub fn browser(
        &self,
        is_worker: bool,
        session: &str,
        links: &Vec<Link>,
        approver: &RememberingApprover,
        cwd: &str,
    ) -> (r: Vec<BrowserItem>)
        ensures
            row_views(r@) == browsable(self@, is_worker, session@, links@).map_values(
                |row: Row| authorized(row, may_run(row, approver@), cwd@),
            ),
    {
        let rows: Vec<BrowserItem> = if is_worker {
            Vec::new()
        } else if self.holds(session) {
            self.browser_items(links)
        } else {
            let none: Vec<Entry> = Vec::new();
            let unlinked: Vec<Link> = Vec::new();
            let ghost k = Known { catalog: seq![], active: seq![], ..self@ };
            assert(offers(none@) =~= seq![]);
            Manager::rows(&self.configs, &none, &none, &unlinked, Ghost(k))
        };
        let ghost shown = browsable(self@, is_worker, session@, links@);
        let ghost all = shown.map_values(
            |row: Row| authorized(row, may_run(row, approver@), cwd@),
        );
        assert(row_views(rows@) =~= shown);
        let mut r: Vec<BrowserItem> = Vec::new();
        let mut i: usize = 0;
        assert(row_views(r@) =~= all.take(0));
        while i < rows.len()
            invariant
                i <= rows@.len(),
                row_views(rows@) == shown,
                all == shown.map_values(
                    |row: Row| authorized(row, may_run(row, approver@), cwd@),
                ),
                row_views(r@) == all.take(i as int),
            decreases rows.len() - i,
        {
            assert(shown[i as int] == rows@[i as int]@);
            let allowed = match &rows[i].scope {
                Some(scope) => approver.has_scope(scope.as_str()),
                None => false,
            };
            let mut row = rows[i].copy();
            authorize(&mut row, allowed, cwd);
            assert(row@ == all[i as int]);
            proof {
                lemma_rows_push(r@, row);
            }
            r.push(row);
            assert(all.take(i + 1) =~= all.take(i as int).push(all[i as int]));
            i = i + 1;
        }
        assert(all.take(i as int) =~= all);
        r
    }
}

// ---- controls ---------------------------------------------------------------

/// The arguments that a line of words stands for: an action, and what it is about.
pub open spec fn control(words: Seq<Seq<char>>) -> Option<Seq<(Seq<char>, Tree)>> {
    if words.len() == 0 {
        Some(seq![("action"@, Tree::Text("list"@))])
    } else if words[0] == "list"@ {
        if words.len() == 1 {
            Some(seq![("action"@, Tree::Text("list"@))])
        } else {
            Some(
                seq![
                    ("action"@, Tree::Text("list"@)),
                    ("query"@, Tree::Text(join(words.skip(1), " "@))),
                ],
            )
        }
    } else if words.len() == 1 && words[0] == "disconnect"@ {
        Some(seq![("action"@, Tree::Text("disconnect"@))])
    } else if words.len() == 2 && words[0] == "refresh"@ {
        Some(seq![("action"@, Tree::Text("refresh"@)), ("server"@, Tree::Text(words[1]))])
    } else if words.len() == 2 && (words[0] == "inspect"@ || words[0] == "activate"@ || words[0]
        == "deactivate"@) {
        Some(seq![("action"@, Tree::Text(words[0])), ("tool"@, Tree::Text(words[1]))])
    } else if words.len() == 3 && words[0] == "read"@ {
        match parse_nat(words[2], usize::MAX as nat) {
            Some(n) => Some(
                seq![
                    ("action"@, Tree::Text("read"@)),
                    ("handle"@, Tree::Text(words[1])),
                    ("offset"@, Tree::Number(NumberView::Pos(n as u64))),
                ],
            ),
            None => None,
        }
    } else {
        None
    }
}

/// How the controls are used.
pub const CONTROL_USAGE: &'static str =
    "usage: /mcp [list [query] | refresh <server> | inspect <tool> | activate <tool> | deactivate <tool> | read <handle> <offset>]";

/// Parse the controls of a front end, without a model turn. An offset that is no
/// number is told apart from a line that is no control at all.
pub fn command_args(words: &Vec<String>) -> (r: Result<Json, String>)
    ensures
        match control(views(words@)) {
            Some(e) => r matches Ok(j) && j@ == Tree::Object(e),
            None => r matches Err(t) && t@ == if words@.len() == 3 && words@[0]@ == "read"@ {
                number_fault(words@[2]@, usize::MAX as nat)
            } else {
                CONTROL_USAGE@
            },
        },
{
    let ghost all = views(words@);
    let n = words.len();
    let mut o: Vec<(String, Json)> = Vec::new();
    assert(forall|i: int| 0 <= i < n ==> all[i] == words@[i]@);
    if n == 0 || same(words[0].as_str(), "list") {
        o.push(("action".to_owned(), Json::text("list")));
        if n > 1 {
            let query = crate::text::joined_range(words, 1, n, " ");
            assert(all.skip(1) =~= all.subrange(1, n as int));
            o.push(("query".to_owned(), Json::text(query.as_str())));
        }
        assert(fields(o@) =~= control(all)->0);
        return Ok(Json::Object(o));
    }
    let action = words[0].as_str();
    if n == 1 && same(action, "disconnect") {
        o.push(("action".to_owned(), Json::text("disconnect")));
        assert(fields(o@) =~= control(all)->0);
        return Ok(Json::Object(o));
    }
    if n == 2 && same(action, "refresh") {
        o.push(("action".to_owned(), Json::text("refresh")));
        o.push(("server".to_owned(), Json::text(words[1].as_str())));
        assert(fields(o@) =~= control(all)->0);
        return Ok(Json::Object(o));
    }
    if n == 2 && (same(action, "inspect") || same(action, "activate") || same(action, "deactivate")) {
        o.push(("action".to_owned(), Json::text(action)));
        o.push(("tool".to_owned(), Json::text(words[1].as_str())));
        assert(fields(o@) =~= control(all)->0);
        return Ok(Json::Object(o));
    }
    if n == 3 && same(action, "read") {
        return match parse_number(words[2].as_str(), usize::MAX as u64) {
            Some(offset) => {
                o.push(("action".to_owned(), Json::text("read")));
                o.push(("handle".to_owned(), Json::text(words[1].as_str())));
                o.push(("offset".to_owned(), Json::Number(Number::Pos(offset))));
                assert(fields(o@) =~= control(all)->0);
                Ok(Json::Object(o))
            },
            None => Err(fault_of(words[2].as_str(), usize::MAX as u64).to_owned()),
        };
    }
    Err(CONTROL_USAGE.to_owned())
}

// ---- laws -------------------------------------------------------------------

/// A call that may have been dispatched is never repeated: it counts as open from
/// before it is sent, a lost reply leaves it open, and while it is open every call
/// of the tool is refused. A reply closes it.
pub proof fn an_open_call_is_never_replayed(
    k: Known,
    p: Pending,
    ms: u64,
    args: Tree,
    shown: Option<(Seq<char>, Seq<char>, Tree)>,
    link: Link,
    cwd: Seq<char>,
    reply: Reply,
)
    ensures
        dispatched(k, p, true, false, false) matches Ok(after) && after.uncertain.contains(p.name),
        k.uncertain.contains(p.name) ==> call_checked(k, p.name, args, shown, link, cwd) is Err,
        settled(k, p, Reply::Lost, ms).0.uncertain == k.uncertain,
        settled(k, p, reply, ms).0.uncertain.contains(p.name) ==> reply is Lost,
{
}

/// The records of a session tell which calls are open: reading back the record of a
/// dispatch opens the call, and reading back the record of a reply changes what is
/// open as the reply did.
pub proof fn records_tell_what_is_open(
    k: Known,
    p: Pending,
    reply: Reply,
    ms: u64,
    o: McpOperation,
)
    requires
        p.name == tool_name(p.server, p.remote),
    ensures
        decision_record(p, true, false, false) == Some(o@) ==> uncertain_after(k.uncertain, o)
            == dispatched(k, p, true, false, false)->Ok_0.uncertain,
        k.uncertain.contains(p.name) && o@ == settled(k, p, reply, ms).1 ==> uncertain_after(
            k.uncertain,
            o,
        ) == settled(k, p, reply, ms).0.uncertain,
{
    reveal_strlit("dispatched");
    reveal_strlit("uncertain");
    reveal_strlit("completed");
    reveal_strlit("execution_error");
    reveal_strlit("invalid_arguments");
    assert("dispatched"@.len() == 10 && "uncertain"@.len() == 9 && "completed"@.len() == 9);
    assert("uncertain"@[0] == 'u' && "completed"@[0] == 'c');
    assert("execution_error"@.len() == 15 && "invalid_arguments"@.len() == 17);
    if k.uncertain.contains(p.name) {
        assert(k.uncertain.insert(p.name) =~= k.uncertain);
    }
}

/// Refusing a launch, a call or an activation changes nothing; only an activation
/// puts a tool into the requests, and it never goes over the budget of its server.
pub proof fn activation_keeps_the_budget(k: Known, name: Seq<char>, link: Link)
    ensures
        activated(k, name, link) matches Ok(after) ==> {
            &&& link == Link::Live
            &&& offer_named(k.catalog, name) matches Some(e) && {
                let c = config_named(k.configs, e.server)->0;
                &&& after.active == put_offer(k.active, e)
                &&& active_size(k.active, name) + byte_len(offer_text(e)) <= c.active_bytes
                &&& byte_len(offer_text(e)) <= c.schema_bytes
            }
        },
{
}

/// A refresh retires the server's tools before it is launched: none is active or in
/// the catalog while approval is asked for.
pub proof fn a_refresh_retires_first(k: Known, server: Seq<char>)
    ensures
        retired(k, server) matches Ok(after) ==> {
            &&& forall|i: int|
                0 <= i < after.active.len() ==> (#[trigger] after.active[i]).server != server
            &&& forall|i: int|
                0 <= i < after.catalog.len() ==> (#[trigger] after.catalog[i]).server != server
        },
{
    crate::mcp::catalog::retiring_leaves_no_tool(k.active, server);
    crate::mcp::catalog::retiring_leaves_no_tool(k.catalog, server);
}

/// A result within its size is given as it is; of a longer one the longest start that fits is
/// given, and where the rest is held.
pub proof fn a_result_is_given_whole_where_it_fits(
    content: Seq<char>,
    is_error: bool,
    handle: Seq<char>,
)
    ensures
        byte_len(content) <= WHOLE_BYTES ==> held(content, is_error, Ok(handle)) == (Output {
            content,
            is_error,
            fatal: false,
        }),
        byte_len(content) > WHOLE_BYTES ==> ({
            let o = held(content, is_error, Ok(handle));
            let n = excerpt(content).len() as int;
            &&& o.is_error == is_error
            &&& excerpt(content) == content.take(n)
            &&& byte_len(excerpt(content)) <= EXCERPT_BYTES
            &&& n < content.len()
            &&& byte_len(content.take(n + 1)) > EXCERPT_BYTES
            &&& o.content.take(n) == excerpt(content)
        }),
{
    crate::wording::what_fits_is_the_longest_start(content, EXCERPT_BYTES as nat);
    if byte_len(content) > WHOLE_BYTES {
        let x = excerpt(content);
        let n = x.len() as int;
        assert(content.take(content.len() as int) =~= content);
        assert(x == content.take(n));
        let o = held(content, is_error, Ok(handle));
        assert(o.content.take(n) =~= x);
    }
}

/// A search of the catalog finds the tools whose name or description holds what is looked
/// for, all of them, once each and in order.
pub proof fn a_search_finds_what_matches(s: Seq<Offer>, query: Seq<char>, n: nat)
    requires
        0 < n <= s.len(),
    ensures
        ({
            let o = s[n - 1];
            let hit = contains(lowercase(o.name), query) || contains(
                lowercase(o.description),
                query,
            );
            &&& hit ==> matching(s, query, n) == matching(s, query, (n - 1) as nat).push(o)
            &&& !hit ==> matching(s, query, n) == matching(s, query, (n - 1) as nat)
            &&& matching(s, query, 0).len() == 0
        }),
{
}

/// A tool that can be used is one of the catalog, of a server that is configured and live;
/// using it changes no other tool.
pub proof fn only_an_offered_tool_is_used(k: Known, name: Seq<char>, link: Link)
    ensures
        activated(k, name, link) is Ok ==> offer_named(k.catalog, name) is Some && link == Link::Live
            && config_named(k.configs, offer_named(k.catalog, name)->0.server) is Some
            && schema_problem(offer_named(k.catalog, name)->0.parameters) is None,
        offer_named(k.catalog, name) is None ==> activated(k, name, link) is Err,
        link != Link::Live ==> activated(k, name, link) is Err,
        activated(k, name, link) matches Ok(a) ==> a.catalog == k.catalog && a.configs == k.configs
            && a.session == k.session,
{
}

/// The tools of a server are those that it offers, and no others.
pub proof fn the_tools_of_a_server_are_its_own(s: Seq<Offer>, o: Offer, server: Seq<char>)
    ensures
        o.server == server ==> of_server(s.push(o), server) == of_server(s, server).push(o),
        o.server != server ==> of_server(s.push(o), server) == of_server(s, server),
        of_server(seq![], server).len() == 0,
{
    assert(s.push(o).drop_last() =~= s);
}

/// A list of servers is refused just where one of them cannot be used, for the first such.
pub proof fn the_first_problem_is_told(configs: Seq<(String, ServerConfig)>, i: int, k: int)
    requires
        0 <= i <= k < configs.len(),
    ensures
        (forall|j: int|
            i <= j < configs.len() ==> config_problem((#[trigger] configs[j]).0@, configs[j].1) is None)
            ==> first_problem(configs, i) is None,
        config_problem(configs[k].0@, configs[k].1) is Some && (forall|j: int|
            i <= j < k ==> config_problem((#[trigger] configs[j]).0@, configs[j].1) is None)
            ==> first_problem(configs, i) == config_problem(configs[k].0@, configs[k].1),
    decreases configs.len() - i,
{
    if i < k {
        the_first_problem_is_told(configs, i + 1, k);
    } else if i + 1 < configs.len() {
        the_first_problem_is_told(configs, i + 1, i + 1);
    }
}

/// A worker is turned away, and so is a session without a plain name; any other request is
/// let in.
pub proof fn only_a_named_session_is_let_in(id: Seq<char>)
    ensures
        turned_away(true, id) is Some,
        turned_away(false, id) is None <==> id.len() > 0 && forall|i: int|
            0 <= i < id.len() ==> session_char(#[trigger] id[i]),
{
}

/// A tool that was activated is active, as the catalog has it, and every other one is as
/// active as it was.
pub proof fn an_activated_tool_is_active(k: Known, name: Seq<char>, link: Link, other: Seq<char>)
    requires
        crate::mcp::catalog::sorted_offers(k.active),
    ensures
        activated(k, name, link) matches Ok(a) ==> offer_named(a.active, name) == offer_named(
            k.catalog,
            name,
        ),
        activated(k, name, link) matches Ok(a) ==> (other != name ==> offer_named(a.active, other)
            == offer_named(k.active, other)),
{
    if let Ok(a) = activated(k, name, link) {
        let e = offer_named(k.catalog, name)->0;
        lemma_found_has_the_name(k.catalog, name);
        crate::mcp::catalog::putting_changes_one_tool(k.active, e, other);
    }
}

proof fn lemma_found_has_the_name(s: Seq<Offer>, name: Seq<char>)
    ensures
        offer_named(s, name) matches Some(e) ==> e.name == name,
    decreases s.len(),
{
    if s.len() > 0 && s[0].name != name {
        lemma_found_has_the_name(s.drop_first(), name);
    }
}

} // verus!
