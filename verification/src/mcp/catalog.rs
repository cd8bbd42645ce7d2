//! The tools that a remote server offers, and the lists they are kept in.
use vstd::prelude::*;
use vstd::string::*;

use crate::digest::{fingerprint, print_of};
use crate::json::{json_written, Json, Tree};
use crate::llm::ToolDef;
use crate::sorting::{at_most, is_at_most, lemma_antisymmetric, lemma_total, lemma_transitive};
use crate::tally::TextSet;
use crate::text::{contains, has_text, is_ascii_alnum, opt_view, same};

verus! {

/// Local program configuration of a server. A project entry replaces the entire
/// global entry.
#[derive(Debug, Clone)]
pub struct ServerConfig {
    pub enabled: bool,
    pub command: String,
    pub args: Vec<String>,
    /// Child variable and parent variable name, in order. Values are resolved only
    /// on launch.
    pub env: Vec<(String, String)>,
    pub timeout_ms: u64,
    pub frame_bytes: usize,
    pub catalog_bytes: usize,
    pub max_pages: usize,
    pub schema_bytes: usize,
    pub active_bytes: usize,
}

impl Default for ServerConfig {
    fn default() -> (r: ServerConfig)
        ensures
            !r.enabled,
            r.command@ == Seq::<char>::empty(),
            r.args@.len() == 0,
            r.env@.len() == 0,
            r.timeout_ms == 30_000,
            r.frame_bytes == 1_048_576,
            r.catalog_bytes == 262_144,
            r.max_pages == 16,
            r.schema_bytes == 16_384,
            r.active_bytes == 32_768,
    {
        ServerConfig {
            enabled: false,
            command: String::new(),
            args: Vec::new(),
            env: Vec::new(),
            timeout_ms: 30_000,
            frame_bytes: 1_048_576,
            catalog_bytes: 262_144,
            max_pages: 16,
            schema_bytes: 16_384,
            active_bytes: 32_768,
        }
    }
}

/// Is `c` allowed in a name?
pub open spec fn name_char(c: char) -> bool {
    is_ascii_alnum(c) || c == '_'
}

/// A name is made of ASCII letters, digits and single underscores.
pub open spec fn is_name(s: Seq<char>) -> bool {
    s.len() > 0 && !contains(s, "__"@) && forall|i: int|
        0 <= i < s.len() ==> name_char(#[trigger] s[i])
}

/// Is this a name?
pub fn identifier(name: &str) -> (r: bool)
    ensures
        r == is_name(name@),
{
    if name.unicode_len() == 0 || has_text(name, "__") {
        return false;
    }
    let v = crate::text::chars_of(name);
    let mut i: usize = 0;
    while i < v.len()
        invariant
            i <= v@.len(),
            v@ == name@,
            forall|j: int| 0 <= j < i ==> name_char(#[trigger] v@[j]),
        decreases v.len() - i,
    {
        let c = v[i];
        let plain = ('a' <= c && c <= 'z') || ('A' <= c && c <= 'Z') || ('0' <= c && c <= '9') || c
            == '_';
        if !plain {
            assert(!name_char(v@[i as int]));
            return false;
        }
        i = i + 1;
    }
    true
}

/// The name under which a server's tool is advertised.
pub open spec fn tool_name(server: Seq<char>, tool: Seq<char>) -> Seq<char> {
    "mcp__"@ + server + "__"@ + tool
}

/// The name under which a server's tool is advertised.
pub fn advertised_name(server: &str, tool: &str) -> (r: String)
    ensures
        r@ == tool_name(server@, tool@),
{
    let mut s = "mcp__".to_owned();
    s.append(server);
    s.append("__");
    s.append(tool);
    s
}

/// A tool that a server offers.
#[derive(Debug)]
pub struct Entry {
    pub server: String,
    /// The tool's own name at the server.
    pub remote: String,
    pub def: ToolDef,
    /// What approval is bound to: it changes with anything that matters.
    pub revision: String,
}

/// What is known of a tool that a server offers.
pub struct Offer {
    pub server: Seq<char>,
    pub remote: Seq<char>,
    pub name: Seq<char>,
    pub description: Seq<char>,
    pub parameters: Tree,
    pub revision: Seq<char>,
}

impl View for Entry {
    type V = Offer;

    open spec fn view(&self) -> Offer {
        Offer {
            server: self.server@,
            remote: self.remote@,
            name: self.def.name@,
            description: self.def.description@,
            parameters: self.def.parameters@,
            revision: self.revision@,
        }
    }
}

/// What is known of a list of tools.
pub open spec fn offers(v: Seq<Entry>) -> Seq<Offer> {
    Seq::new(v.len(), |i: int| v[i]@)
}

/// A copy of a definition.
pub fn copy_def(d: &ToolDef) -> (r: ToolDef)
    ensures
        r.name@ == d.name@,
        r.description@ == d.description@,
        r.parameters@ == d.parameters@,
{
    ToolDef {
        name: d.name.clone(),
        description: d.description.clone(),
        parameters: d.parameters.copy(),
    }
}

impl Entry {
    /// A copy of this entry.
    pub fn copy(&self) -> (r: Entry)
        ensures
            r@ == self@,
    {
        Entry {
            server: self.server.clone(),
            remote: self.remote.clone(),
            def: copy_def(&self.def),
            revision: self.revision.clone(),
        }
    }
}

/// Each tool comes before the next, and none is there twice.
pub open spec fn sorted_offers(s: Seq<Offer>) -> bool {
    forall|i: int, j: int|
        0 <= i < j < s.len() ==> at_most((#[trigger] s[i]).name, (#[trigger] s[j]).name) && s[i].name
            != s[j].name
}

/// The first tool of that name.
pub open spec fn offer_named(s: Seq<Offer>, name: Seq<char>) -> Option<Offer>
    decreases s.len(),
{
    if s.len() == 0 {
        None
    } else if s[0].name == name {
        Some(s[0])
    } else {
        offer_named(s.drop_first(), name)
    }
}

/// The tools once `e` is put in its place, over one of the same name.
pub open spec fn put_offer(s: Seq<Offer>, e: Offer) -> Seq<Offer>
    decreases s.len(),
{
    if s.len() == 0 {
        seq![e]
    } else if s[0].name == e.name {
        seq![e] + s.drop_first()
    } else if at_most(e.name, s[0].name) {
        seq![e] + s
    } else {
        seq![s[0]] + put_offer(s.drop_first(), e)
    }
}

/// The tools without the one of that name.
pub open spec fn drop_named(s: Seq<Offer>, name: Seq<char>) -> Seq<Offer>
    decreases s.len(),
{
    if s.len() == 0 {
        seq![]
    } else if s.last().name == name {
        drop_named(s.drop_last(), name)
    } else {
        drop_named(s.drop_last(), name).push(s.last())
    }
}

/// The tools without those of that server.
pub open spec fn drop_server(s: Seq<Offer>, server: Seq<char>) -> Seq<Offer>
    decreases s.len(),
{
    if s.len() == 0 {
        seq![]
    } else if s.last().server == server {
        drop_server(s.drop_last(), server)
    } else {
        drop_server(s.drop_last(), server).push(s.last())
    }
}

/// The tools once the first `n` of `new` are put in their places.
pub open spec fn put_all(s: Seq<Offer>, new: Seq<Offer>, n: nat) -> Seq<Offer>
    decreases n,
{
    if n == 0 {
        s
    } else {
        put_offer(put_all(s, new, (n - 1) as nat), new[n - 1])
    }
}

/// The index of the tool of that name.
pub fn find_entry(v: &Vec<Entry>, name: &str) -> (r: Option<usize>)
    ensures
        match r {
            Some(i) => i < v@.len() && offer_named(offers(v@), name@) == Some(v@[i as int]@) && v@[i as int]@.name == name@,
            None => offer_named(offers(v@), name@) is None,
        },
{
    let ghost all = offers(v@);
    let mut i: usize = 0;
    assert(all.skip(0) =~= all);
    while i < v.len()
        invariant
            i <= v@.len(),
            all == offers(v@),
            offer_named(all.skip(i as int), name@) == offer_named(all, name@),
        decreases v.len() - i,
    {
        assert(all.skip(i as int).drop_first() =~= all.skip(i + 1));
        if same(v[i].def.name.as_str(), name) {
            return Some(i);
        }
        i = i + 1;
    }
    assert(all.skip(i as int).len() == 0);
    None
}

proof fn lemma_put_at(s: Seq<Offer>, e: Offer, n: int)
    requires
        0 <= n <= s.len(),
        forall|i: int| 0 <= i < n ==> !at_most(e.name, (#[trigger] s[i]).name) && s[i].name != e.name,
        n < s.len() ==> at_most(e.name, s[n].name) || s[n].name == e.name,
    ensures
        put_offer(s, e) == if n < s.len() && s[n].name == e.name {
            s.update(n, e)
        } else {
            s.insert(n, e)
        },
    decreases n,
{
    if n > 0 {
        assert(!at_most(e.name, s[0].name) && s[0].name != e.name);
        lemma_put_at(s.drop_first(), e, n - 1);
        if n < s.len() && s[n].name == e.name {
            assert(put_offer(s, e) =~= s.update(n, e));
        } else {
            assert(put_offer(s, e) =~= s.insert(n, e));
        }
    } else {
        if s.len() > 0 && s[0].name == e.name {
            assert(put_offer(s, e) =~= s.update(0, e));
        } else {
            assert(put_offer(s, e) =~= s.insert(0, e));
        }
    }
}

/// Put a tool in its place, over one of the same name.
pub fn put_entry(v: &mut Vec<Entry>, e: Entry)
    ensures
        offers(final(v)@) == put_offer(offers(old(v)@), e@),
{
    let ghost before = offers(v@);
    let mut i: usize = 0;
    while i < v.len() && !same(v[i].def.name.as_str(), e.def.name.as_str()) && !is_at_most(
        e.def.name.as_str(),
        v[i].def.name.as_str(),
    )
        invariant
            i <= v@.len(),
            before == offers(v@),
            forall|j: int|
                0 <= j < i ==> !at_most(e@.name, (#[trigger] before[j]).name) && before[j].name
                    != e@.name,
        decreases v.len() - i,
    {
        assert(before[i as int] == v@[i as int]@);
        i = i + 1;
    }
    proof {
        if i < v@.len() {
            assert(before[i as int] == v@[i as int]@);
        }
        lemma_put_at(before, e@, i as int);
    }
    if i < v.len() && same(v[i].def.name.as_str(), e.def.name.as_str()) {
        v[i] = e;
        assert(offers(v@) =~= before.update(i as int, e@));
    } else {
        v.insert(i, e);
        assert(offers(v@) =~= before.insert(i as int, e@));
    }
}

/// Put a list of tools in their places.
pub fn put_entries(v: &mut Vec<Entry>, new: Vec<Entry>)
    ensures
        offers(final(v)@) == put_all(offers(old(v)@), offers(new@), new@.len()),
{
    let ghost before = offers(v@);
    let ghost all = offers(new@);
    let mut i: usize = 0;
    while i < new.len()
        invariant
            i <= new@.len(),
            all == offers(new@),
            offers(v@) == put_all(before, all, i as nat),
        decreases new.len() - i,
    {
        put_entry(v, new[i].copy());
        i = i + 1;
    }
}

/// The tools without the one of that name.
pub fn without_named(v: &Vec<Entry>, name: &str) -> (r: Vec<Entry>)
    ensures
        offers(r@) == drop_named(offers(v@), name@),
{
    let ghost all = offers(v@);
    let mut r: Vec<Entry> = Vec::new();
    let mut i: usize = 0;
    assert(all.take(0) =~= seq![]);
    assert(offers(r@) =~= drop_named(all.take(0), name@));
    while i < v.len()
        invariant
            i <= v@.len(),
            all == offers(v@),
            offers(r@) == drop_named(all.take(i as int), name@),
        decreases v.len() - i,
    {
        let ghost before = offers(r@);
        assert(all.take(i + 1).drop_last() =~= all.take(i as int));
        if !same(v[i].def.name.as_str(), name) {
            let e = v[i].copy();
            r.push(e);
            assert(offers(r@) =~= before.push(e@));
        }
        i = i + 1;
    }
    assert(all.take(i as int) =~= all);
    r
}

/// The tools without those of that server.
pub fn without_server(v: &Vec<Entry>, server: &str) -> (r: Vec<Entry>)
    ensures
        offers(r@) == drop_server(offers(v@), server@),
{
    let ghost all = offers(v@);
    let mut r: Vec<Entry> = Vec::new();
    let mut i: usize = 0;
    assert(all.take(0) =~= seq![]);
    assert(offers(r@) =~= drop_server(all.take(0), server@));
    while i < v.len()
        invariant
            i <= v@.len(),
            all == offers(v@),
            offers(r@) == drop_server(all.take(i as int), server@),
        decreases v.len() - i,
    {
        let ghost before = offers(r@);
        assert(all.take(i + 1).drop_last() =~= all.take(i as int));
        if !same(v[i].server.as_str(), server) {
            let e = v[i].copy();
            r.push(e);
            assert(offers(r@) =~= before.push(e@));
        }
        i = i + 1;
    }
    assert(all.take(i as int) =~= all);
    r
}

// ---- definitions as text ----------------------------------------------------

/// A definition as JSON text, its fields in order.
pub open spec fn def_text(name: Seq<char>, description: Seq<char>, parameters: Tree) -> Seq<char> {
    "{\"name\":"@ + json_written(Tree::Text(name)) + ",\"description\":"@ + json_written(
        Tree::Text(description),
    ) + ",\"parameters\":"@ + json_written(parameters) + "}"@
}

/// The JSON text of a known tool's definition.
pub open spec fn offer_text(o: Offer) -> Seq<char> {
    def_text(o.name, o.description, o.parameters)
}

/// A definition as JSON text.
pub fn definition_text(d: &ToolDef) -> (r: String)
    ensures
        r@ == def_text(d.name@, d.description@, d.parameters@),
{
    let mut s = "{\"name\":".to_owned();
    let t = Json::text(d.name.as_str()).written();
    s.append(t.as_str());
    s.append(",\"description\":");
    let t = Json::text(d.description.as_str()).written();
    s.append(t.as_str());
    s.append(",\"parameters\":");
    let t = d.parameters.written();
    s.append(t.as_str());
    s.append("}");
    s
}

/// What approval of a tool is bound to: where its server was launched and how, and
/// everything that its definition says.
pub open spec fn revision_of(
    scope: Seq<char>,
    name: Seq<char>,
    description: Seq<char>,
    parameters: Tree,
) -> Seq<char> {
    print_of(
        vstd::utf8::encode_utf8(
            "["@ + json_written(Tree::Text(scope)) + ","@ + def_text(name, description, parameters)
                + "]"@,
        ),
    )
}

/// What approval of a tool is bound to.
pub fn revision(scope: &str, d: &ToolDef) -> (r: String)
    ensures
        r@ == revision_of(scope@, d.name@, d.description@, d.parameters@),
{
    let mut s = "[".to_owned();
    let t = Json::text(scope).written();
    s.append(t.as_str());
    s.append(",");
    let t = definition_text(d);
    s.append(t.as_str());
    s.append("]");
    fingerprint(s.as_str().as_bytes())
}

// ---- reading a server's catalog ---------------------------------------------

/// A tool as a server lists it.
#[derive(Debug)]
pub struct RemoteTool {
    pub name: String,
    pub description: Option<String>,
    pub schema: Json,
}

/// What is known of a listed tool, once it is taken in.
pub open spec fn offer_of(server: Seq<char>, scope: Seq<char>, t: RemoteTool) -> Offer {
    let name = tool_name(server, t.name@);
    let description: Seq<char> = match t.description {
        Some(d) => d@,
        None => seq![],
    };
    Offer {
        server,
        remote: t.name@,
        name,
        description,
        parameters: t.schema@,
        revision: revision_of(scope, name, description, t.schema@),
    }
}

/// The longest name under which a tool is advertised.
pub const MAX_TOOL_NAME: usize = 64;

/// The tools once the first `n` of a page are taken in, or why the page is refused.
pub open spec fn page_taken(
    server: Seq<char>,
    scope: Seq<char>,
    entries: Seq<Offer>,
    tools: Seq<RemoteTool>,
    n: nat,
) -> Result<Seq<Offer>, Seq<char>>
    decreases n,
{
    if n == 0 {
        Ok(entries)
    } else {
        match page_taken(server, scope, entries, tools, (n - 1) as nat) {
            Err(e) => Err(e),
            Ok(before) => {
                let t = tools[n - 1];
                let name = tool_name(server, t.name@);
                if !is_name(t.name@) {
                    Err(
                        "unsupported tool name; names must be ASCII letters, digits or single underscores"@,
                    )
                } else if crate::text::byte_len(name) > MAX_TOOL_NAME || offer_named(
                    before,
                    name,
                ) is Some {
                    Err("tool name too long or duplicated"@)
                } else {
                    Ok(put_offer(before, offer_of(server, scope, t)))
                }
            },
        }
    }
}

/// How far the reading of a catalog has come.
#[derive(Debug, PartialEq, Eq)]
pub enum Progress {
    /// Ask for the page at this cursor.
    More(String),
    /// That was the last page.
    Complete,
}

/// A catalog that is being read, page by page.
pub struct CatalogReader {
    server: String,
    scope: String,
    catalog_bytes: usize,
    max_pages: usize,
    entries: Vec<Entry>,
    seen: TextSet,
    bytes: usize,
    pages: usize,
}

/// What a catalog that is being read holds.
pub struct Reading {
    pub server: Seq<char>,
    pub scope: Seq<char>,
    pub catalog_bytes: usize,
    pub max_pages: usize,
    pub entries: Seq<Offer>,
    pub seen: Set<Seq<char>>,
    pub bytes: usize,
    pub pages: usize,
}

impl View for CatalogReader {
    type V = Reading;

    closed spec fn view(&self) -> Reading {
        Reading {
            server: self.server@,
            scope: self.scope@,
            catalog_bytes: self.catalog_bytes,
            max_pages: self.max_pages,
            entries: offers(self.entries@),
            seen: self.seen@,
            bytes: self.bytes,
            pages: self.pages,
        }
    }
}

/// `a + b`, or the largest machine number.
pub open spec fn add_capped(a: usize, b: usize) -> usize {
    if a + b <= usize::MAX {
        (a + b) as usize
    } else {
        usize::MAX
    }
}

/// A catalog once a page is read: more of it is wanted, it is complete, or it is
/// refused, for its size, a tool in it, a loop, or too many pages.
pub open spec fn page_read(
    r: Reading,
    tools: Seq<RemoteTool>,
    page_bytes: usize,
    next: Option<Seq<char>>,
) -> Result<(Reading, Option<Seq<char>>), Seq<char>> {
    let bytes = add_capped(r.bytes, page_bytes);
    if bytes > r.catalog_bytes {
        Err("catalog byte limit exceeded"@)
    } else {
        match page_taken(r.server, r.scope, r.entries, tools, tools.len()) {
            Err(e) => Err(e),
            Ok(entries) => match next {
                None => Ok(
                    (Reading { entries, bytes, pages: add_capped(r.pages, 1), ..r }, None),
                ),
                Some(cursor) => if r.seen.contains(cursor) {
                    Err("catalog pagination loop"@)
                } else if add_capped(r.pages, 1) >= r.max_pages {
                    Err("catalog page limit exceeded"@)
                } else {
                    Ok(
                        (
                            Reading {
                                entries,
                                bytes,
                                pages: add_capped(r.pages, 1),
                                seen: r.seen.insert(cursor),
                                ..r
                            },
                            Some(cursor),
                        ),
                    )
                },
            },
        }
    }
}

impl CatalogReader {
    /// Begin to read a server's catalog.
    pub fn new(server: &str, scope: &str, config: &ServerConfig) -> (r: CatalogReader)
        ensures
            r@ == (Reading {
                server: server@,
                scope: scope@,
                catalog_bytes: config.catalog_bytes,
                max_pages: config.max_pages,
                entries: seq![],
                seen: Set::empty(),
                bytes: 0,
                pages: 0,
            }),
    {
        let r = CatalogReader {
            server: server.to_owned(),
            scope: scope.to_owned(),
            catalog_bytes: config.catalog_bytes,
            max_pages: config.max_pages,
            entries: Vec::new(),
            seen: TextSet::new(),
            bytes: 0,
            pages: 0,
        };
        assert(offers(r.entries@) =~= seq![]);
        r
    }

    /// Take in a page of so many bytes. What cannot be taken in ends the reading.
    pub fn page(self, tools: Vec<RemoteTool>, page_bytes: usize, next: Option<String>) -> (r: Result<
        (CatalogReader, Progress),
        String,
    >)
        ensures
            match page_read(self@, tools@, page_bytes, opt_view(next)) {
                Ok((after, cursor)) => r matches Ok(p) && p.0@ == after && match cursor {
                    Some(c) => p.1 matches Progress::More(t) && t@ == c,
                    None => p.1 is Complete,
                },
                Err(e) => r matches Err(t) && t@ == e,
            },
    {
        let mut reader = self;
        match reader.take_page(tools, page_bytes, next) {
            Ok(p) => Ok((reader, p)),
            Err(e) => Err(e),
        }
    }

    fn take_page(&mut self, tools: Vec<RemoteTool>, page_bytes: usize, next: Option<String>) -> (r:
        Result<Progress, String>)
        ensures
            match page_read(old(self)@, tools@, page_bytes, opt_view(next)) {
                Ok((after, cursor)) => {
                    &&& final(self)@ == after
                    &&& match cursor {
                        Some(c) => r matches Ok(Progress::More(t)) && t@ == c,
                        None => r matches Ok(Progress::Complete),
                    }
                },
                Err(e) => r matches Err(t) && t@ == e,
            },
    {
        self.bytes = self.bytes.saturating_add(page_bytes);
        if self.bytes > self.catalog_bytes {
            return Err("catalog byte limit exceeded".to_owned());
        }
        let ghost server = self.server@;
        let ghost scope = self.scope@;
        let ghost before = offers(self.entries@);
        let mut i: usize = 0;
        while i < tools.len()
            invariant
                i <= tools@.len(),
                server == self.server@,
                scope == self.scope@,
                before == old(self)@.entries,
                server == old(self)@.server,
                scope == old(self)@.scope,
                page_taken(server, scope, before, tools@, i as nat) == Ok::<Seq<Offer>, Seq<char>>(
                    offers(self.entries@),
                ),
                self@ == (Reading {
                    entries: offers(self.entries@),
                    bytes: add_capped(old(self)@.bytes, page_bytes),
                    ..old(self)@
                }),
                self.bytes <= self.catalog_bytes,
            decreases tools.len() - i,
        {
            let t = &tools[i];
            proof {
                lemma_page_error(server, scope, before, tools@, (i + 1) as nat);
            }
            if !identifier(t.name.as_str()) {
                return Err(
                    "unsupported tool name; names must be ASCII letters, digits or single underscores".to_owned(),
                );
            }
            let name = advertised_name(self.server.as_str(), t.name.as_str());
            if crate::text::utf8_len(name.as_str()) > MAX_TOOL_NAME as u128 || find_entry(
                &self.entries,
                name.as_str(),
            ).is_some() {
                return Err("tool name too long or duplicated".to_owned());
            }
            let description = match &t.description {
                Some(d) => d.clone(),
                None => String::new(),
            };
            assert(t.description is None ==> description@ =~= seq![]);
            let def = ToolDef { name, description, parameters: t.schema.copy() };
            let rev = revision(self.scope.as_str(), &def);
            let e = Entry {
                server: self.server.clone(),
                remote: t.name.clone(),
                def,
                revision: rev,
            };
            assert(e@ == offer_of(server, scope, *t));
            put_entry(&mut self.entries, e);
            i = i + 1;
        }
        self.pages = self.pages.saturating_add(1);
        match next {
            None => Ok(Progress::Complete),
            Some(cursor) => {
                if self.seen.contains(cursor.as_str()) {
                    return Err("catalog pagination loop".to_owned());
                }
                if self.pages >= self.max_pages {
                    return Err("catalog page limit exceeded".to_owned());
                }
                self.seen.insert(cursor.as_str());
                Ok(Progress::More(cursor))
            },
        }
    }

    /// The tools of a catalog that was read.
    pub fn into_entries(self) -> (r: Vec<Entry>)
        ensures
            offers(r@) == self@.entries,
    {
        self.entries
    }
}

/// An error at some tool of a page is the error of the page.
proof fn lemma_page_error(
    server: Seq<char>,
    scope: Seq<char>,
    entries: Seq<Offer>,
    tools: Seq<RemoteTool>,
    n: nat,
)
    requires
        n <= tools.len(),
    ensures
        page_taken(server, scope, entries, tools, n) is Err ==> page_taken(
            server,
            scope,
            entries,
            tools,
            tools.len(),
        ) == page_taken(server, scope, entries, tools, n),
    decreases tools.len() - n,
{
    if n < tools.len() {
        lemma_page_error(server, scope, entries, tools, n + 1);
    }
}

// ---- laws -------------------------------------------------------------------

/// Putting a tool into a sorted list keeps it sorted, and free of duplicates.
pub proof fn putting_keeps_the_order(s: Seq<Offer>, e: Offer)
    requires
        sorted_offers(s),
    ensures
        sorted_offers(put_offer(s, e)),
        forall|i: int|
            0 <= i < put_offer(s, e).len() ==> (#[trigger] put_offer(s, e)[i]) == e || s.contains(
                put_offer(s, e)[i],
            ),
    decreases s.len(),
{
    let r = put_offer(s, e);
    if s.len() == 0 {
    } else if s[0].name == e.name {
        assert forall|i: int, j: int| 0 <= i < j < r.len() implies at_most(
            (#[trigger] r[i]).name,
            (#[trigger] r[j]).name,
        ) && r[i].name != r[j].name by {
            assert(s[j] == r[j]);
            if i > 0 {
                assert(s[i] == r[i]);
            }
        }
        assert forall|i: int| 0 <= i < r.len() implies (#[trigger] r[i]) == e || s.contains(r[i]) by {
            if i > 0 {
                assert(s[i] == r[i]);
            }
        }
    } else if at_most(e.name, s[0].name) {
        assert forall|i: int, j: int| 0 <= i < j < r.len() implies at_most(
            (#[trigger] r[i]).name,
            (#[trigger] r[j]).name,
        ) && r[i].name != r[j].name by {
            assert(s[j - 1] == r[j]);
            if i > 0 {
                assert(s[i - 1] == r[i]);
            } else if j > 1 {
                assert(at_most(s[0].name, s[j - 1].name));
                lemma_transitive(e.name, s[0].name, s[j - 1].name);
                if e.name == s[j - 1].name {
                    lemma_antisymmetric(e.name, s[0].name);
                }
            }
        }
        assert forall|i: int| 0 <= i < r.len() implies (#[trigger] r[i]) == e || s.contains(r[i]) by {
            if i > 0 {
                assert(s[i - 1] == r[i]);
            }
        }
    } else {
        let t = s.drop_first();
        assert forall|i: int, j: int| 0 <= i < j < t.len() implies at_most(
            (#[trigger] t[i]).name,
            (#[trigger] t[j]).name,
        ) && t[i].name != t[j].name by {
            assert(s[i + 1] == t[i]);
            assert(s[j + 1] == t[j]);
        }
        putting_keeps_the_order(t, e);
        let p = put_offer(t, e);
        lemma_total(e.name, s[0].name);
        assert forall|i: int, j: int| 0 <= i < j < r.len() implies at_most(
            (#[trigger] r[i]).name,
            (#[trigger] r[j]).name,
        ) && r[i].name != r[j].name by {
            assert(r[j] == p[j - 1]);
            if i > 0 {
                assert(r[i] == p[i - 1]);
            } else if p[j - 1] != e {
                assert(t.contains(p[j - 1]));
                let k = choose|k: int| 0 <= k < t.len() && t[k] == p[j - 1];
                assert(s[k + 1] == t[k]);
            }
        }
        assert forall|i: int| 0 <= i < r.len() implies (#[trigger] r[i]) == e || s.contains(r[i]) by {
            if i > 0 {
                assert(r[i] == p[i - 1]);
                if p[i - 1] != e {
                    let k = choose|k: int| 0 <= k < t.len() && t[k] == p[i - 1];
                    assert(s[k + 1] == t[k]);
                }
            }
        }
    }
}

/// Retiring a server leaves none of its tools, and all the others in their order.
pub proof fn retiring_leaves_no_tool(s: Seq<Offer>, server: Seq<char>)
    ensures
        forall|i: int|
            0 <= i < drop_server(s, server).len() ==> (#[trigger] drop_server(s, server)[i]).server
                != server && s.contains(drop_server(s, server)[i]),
        forall|i: int|
            0 <= i < s.len() && (#[trigger] s[i]).server != server ==> drop_server(
                s,
                server,
            ).contains(s[i]),
    decreases s.len(),
{
    if s.len() > 0 {
        let t = s.drop_last();
        retiring_leaves_no_tool(t, server);
        let d = drop_server(s, server);
        let p = drop_server(t, server);
        assert forall|i: int| 0 <= i < d.len() implies (#[trigger] d[i]).server != server
            && s.contains(d[i]) by {
            if i < p.len() {
                assert(d[i] == p[i]);
                let k = choose|k: int| 0 <= k < t.len() && t[k] == p[i];
                assert(s[k] == p[i]);
            } else {
                assert(s[s.len() - 1] == d[i]);
            }
        }
        assert forall|i: int| 0 <= i < s.len() && (#[trigger] s[i]).server != server implies d.contains(
            s[i],
        ) by {
            if i < t.len() {
                assert(t[i] == s[i]);
                let k = choose|k: int| 0 <= k < p.len() && p[k] == t[i];
                assert(d[k] == t[i]);
            } else {
                assert(d[d.len() - 1] == s[i]);
            }
        }
    }
}

/// No catalog is read for ever: every page that asks for more is counted, and the
/// count stays below the limit.
pub proof fn reading_is_bounded(
    r: Reading,
    tools: Seq<RemoteTool>,
    page_bytes: usize,
    next: Option<Seq<char>>,
)
    ensures
        page_read(r, tools, page_bytes, next) matches Ok((after, Some(_))) ==> r.pages < after.pages
            < r.max_pages,
        page_read(r, tools, page_bytes, next) matches Ok((after, _)) ==> after.bytes
            <= r.catalog_bytes,
{
}

/// A tool that is put into the catalog is found there as it is, and every other one stays as
/// it was.
pub proof fn putting_changes_one_tool(s: Seq<Offer>, e: Offer, other: Seq<char>)
    requires
        sorted_offers(s),
    ensures
        offer_named(put_offer(s, e), e.name) == Some(e),
        other != e.name ==> offer_named(put_offer(s, e), other) == offer_named(s, other),
    decreases s.len(),
{
    let one = seq![e];
    let none = Seq::<Offer>::empty();
    assert(one.drop_first() =~= none);
    if s.len() == 0 {
        assert(offer_named(none, other) is None);
    } else {
        let r = s.drop_first();
        assert forall|i: int, j: int| 0 <= i < j < r.len() implies at_most(
            (#[trigger] r[i]).name,
            (#[trigger] r[j]).name,
        ) && r[i].name != r[j].name by {
            assert(at_most(s[i + 1].name, s[j + 1].name) && s[i + 1].name != s[j + 1].name);
        }
        if s[0].name == e.name {
            assert((one + r).drop_first() =~= r);
        } else if at_most(e.name, s[0].name) {
            assert((one + s).drop_first() =~= s);
        } else {
            putting_changes_one_tool(r, e, other);
            assert((seq![s[0]] + put_offer(r, e)).drop_first() =~= put_offer(r, e));
        }
    }
}

/// Dropping a server drops its tools, all of them, and no other; dropping a name drops what
/// has that name.
pub proof fn dropping_drops_what_is_named(s: Seq<Offer>, server: Seq<char>, name: Seq<char>)
    ensures
        forall|o: Offer|
            #[trigger] drop_server(s, server).contains(o) <==> s.contains(o) && o.server != server,
        forall|o: Offer|
            #[trigger] drop_named(s, name).contains(o) <==> s.contains(o) && o.name != name,
    decreases s.len(),
{
    if s.len() > 0 {
        let r = s.drop_last();
        let y = s.last();
        dropping_drops_what_is_named(r, server, name);
        assert(s =~= r.push(y));
        let a = drop_server(r, server);
        let b = drop_named(r, name);
        assert forall|o: Offer| #[trigger] drop_server(s, server).contains(o) <==> s.contains(o)
            && o.server != server by {
            assert(a.contains(o) <==> r.contains(o) && o.server != server);
            lemma_push_has(r, y, o);
            lemma_push_has(a, y, o);
        }
        assert forall|o: Offer| #[trigger] drop_named(s, name).contains(o) <==> s.contains(o)
            && o.name != name by {
            assert(b.contains(o) <==> r.contains(o) && o.name != name);
            lemma_push_has(r, y, o);
            lemma_push_has(b, y, o);
        }
    }
}

proof fn lemma_push_has(s: Seq<Offer>, y: Offer, x: Offer)
    ensures
        s.push(y).contains(x) <==> s.contains(x) || x == y,
{
    if s.contains(x) {
        let i = choose|i: int| 0 <= i < s.len() && s[i] == x;
        assert(s.push(y)[i] == x);
    }
    if x == y {
        assert(s.push(y)[s.len() as int] == x);
    }
}

/// What is offered of a server's tool is the tool: its own name, what it says of itself and
/// what it takes, under a name that tells the server too.
pub proof fn an_offer_is_the_tool(server: Seq<char>, scope: Seq<char>, t: RemoteTool)
    ensures
        ({
            let o = offer_of(server, scope, t);
            &&& o.server == server
            &&& o.remote == t.name@
            &&& o.parameters == t.schema@
            &&& t.description matches Some(d) ==> o.description == d@
            &&& t.description is None ==> o.description.len() == 0
            &&& o.name == "mcp__"@ + server + "__"@ + t.name@
            &&& o.revision == revision_of(scope, o.name, o.description, o.parameters)
        }),
{
}

} // verus!
