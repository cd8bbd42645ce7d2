//! `web`: search the internet, and read a page.
//!
//! A search needs a provider; reading a page needs nothing. Output is kept small on
//! purpose: a raw page is mostly markup.
use vstd::prelude::*;
use vstd::string::*;

use crate::config::{ResolvedWeb, WebProvider};
use crate::json::{
    fields, get_str, get_u64, group_json, list_of, member, str_arg, text_of, trees, u64_of, Json,
    Number, NumberView, Tree,
};
use crate::knowledge::ink;
use crate::list::{concat, group_lists, views};
use crate::memory::{squeeze, squeezed};
use crate::text::{
    ascii_lowered, begins, char_is_space, chars_of, contains, dec, decimal, find_from, has_text,
    in_set, index_from, is_space, lemma_find_from, lines, lines_of, lower_ascii, occurs_at, opt_view, replace, replaced, same,
    skip_while_end, stands_at, starts_with, string_of, trim, trim_start, trimmed, trimmed_end_set,
    trimmed_start, words,
};
use crate::tools::{fine, missing, missing_argument, wrong, ToolOutput};

verus! {

broadcast use {group_json, group_lists};

/// Searches the web, or fetches a page as readable text.
pub struct WebTool;

/// The cap on the text of a page, in characters.
pub const MAX_PAGE_CHARS: usize = 12_000;

// ---- the page as text -------------------------------------------------------

/// The elements whose contents are no prose: each as it opens and as it closes.
pub open spec fn unread() -> Seq<(Seq<char>, Seq<char>)> {
    seq![
        ("<script"@, "</script>"@),
        ("<style"@, "</style>"@),
        ("<head"@, "</head>"@),
        ("<svg"@, "</svg>"@),
        ("<noscript"@, "</noscript>"@),
    ]
}

/// Does a tag with this name begin at `i`? The name ends there: `<header>` is no `<head>`.
pub open spec fn opens_at(low: Seq<char>, open: Seq<char>, i: int) -> bool {
    let end = i + open.len();
    occurs_at(low, open, i) && end < low.len() && (is_space(low[end]) || low[end] == '/' || low[end]
        == '>')
}

/// Where an element that is no prose ends, if one of the first `n` begins at `i`: behind
/// its closing tag, or at the end of the page.
pub open spec fn unread_end(low: Seq<char>, i: int, n: nat) -> Option<int>
    decreases n,
{
    if n == 0 {
        None
    } else {
        match unread_end(low, i, (n - 1) as nat) {
            Some(j) => Some(j),
            None => {
                let (open, close) = unread()[n - 1];
                if !opens_at(low, open, i) {
                    None
                } else {
                    match find_from(low, close, i) {
                        Some(k) => Some(k + close.len()),
                        None => Some(low.len() as int),
                    }
                }
            },
        }
    }
}

/// Does a tag break the line? Block-level tags do, so that structure survives.
pub open spec fn breaks_line(tag: Seq<char>) -> bool {
    starts_with(tag, "<p"@) || starts_with(tag, "<br"@) || starts_with(tag, "<div"@)
        || starts_with(tag, "<li"@) || starts_with(tag, "<tr"@) || starts_with(tag, "<h1"@)
        || starts_with(tag, "<h2"@) || starts_with(tag, "<h3"@) || starts_with(tag, "<h4"@)
        || starts_with(tag, "</p"@) || starts_with(tag, "</div"@) || starts_with(tag, "</li"@)
        || starts_with(tag, "</h"@)
}

/// The text of a page from `i` on: elements that are no prose become a line break, tags
/// become white space, and a tag that is never closed ends it. `low` is the page in
/// lower case.
pub open spec fn untagged(html: Seq<char>, low: Seq<char>, i: int) -> Seq<char>
    decreases html.len() - i,
    via untagged_shrinks
{
    if i < 0 || i >= html.len() || low.len() != html.len() {
        seq![]
    } else if html[i] != '<' {
        seq![html[i]] + untagged(html, low, i + 1)
    } else {
        match unread_end(low, i, unread().len()) {
            Some(j) => seq!['\n'] + untagged(html, low, j),
            None => match find_from(low, ">"@, i) {
                None => seq![],
                Some(j) => seq![
                    if breaks_line(low.subrange(i, j)) {
                        '\n'
                    } else {
                        ' '
                    },
                ] + untagged(html, low, j + 1),
            },
        }
    }
}

#[via_fn]
proof fn untagged_shrinks(html: Seq<char>, low: Seq<char>, i: int) {
    if 0 <= i < html.len() && low.len() == html.len() {
        reveal_strlit(">");
        lemma_unread_end(low, i, unread().len());
        lemma_find_from(low, ">"@, i);
    }
}

proof fn lemma_unread_end(low: Seq<char>, i: int, n: nat)
    requires
        0 <= i < low.len(),
        n <= unread().len(),
    ensures
        unread_end(low, i, n) matches Some(j) ==> i < j <= low.len(),
    decreases n,
{
    reveal_strlit("</script>");
    reveal_strlit("</style>");
    reveal_strlit("</head>");
    reveal_strlit("</svg>");
    reveal_strlit("</noscript>");
    if n > 0 {
        lemma_unread_end(low, i, (n - 1) as nat);
        let (open, close) = unread()[n - 1];
        lemma_find_from(low, close, i);
    }
}

fn element_end(v: &Vec<char>, i: usize, open: &str, close: &str) -> (r: Option<usize>)
    requires
        i < v@.len(),
    ensures
        match r {
            Some(j) => opens_at(v@, open@, i as int) && j == (match find_from(v@, close@, i as int) {
                Some(k) => k + close@.len(),
                None => v@.len() as int,
            }) && j <= v@.len(),
            None => !opens_at(v@, open@, i as int),
        },
{
    let o = chars_of(open);
    if !stands_at(v, &o, i) {
        return None;
    }
    if o.len() >= v.len() - i {
        return None;
    }
    let end: usize = i + o.len();
    if !(char_is_space(v[end]) || v[end] == '/' || v[end] == '>') {
        return None;
    }
    let c = chars_of(close);
    let n = v.len();
    match index_from(v, &c, i) {
        Some(k) => Some(k + c.len()),
        None => Some(n),
    }
}

fn find_unread_end(v: &Vec<char>, i: usize) -> (r: Option<usize>)
    requires
        i < v@.len(),
    ensures
        match r {
            Some(j) => unread_end(v@, i as int, unread().len()) == Some(j as int) && i < j
                <= v@.len(),
            None => unread_end(v@, i as int, unread().len()) is None,
        },
{
    proof {
        lemma_unread_end(v@, i as int, unread().len());
        reveal_with_fuel(unread_end, 6);
    }
    if let Some(j) = element_end(v, i, "<script", "</script>") {
        return Some(j);
    }
    if let Some(j) = element_end(v, i, "<style", "</style>") {
        return Some(j);
    }
    if let Some(j) = element_end(v, i, "<head", "</head>") {
        return Some(j);
    }
    if let Some(j) = element_end(v, i, "<svg", "</svg>") {
        return Some(j);
    }
    element_end(v, i, "<noscript", "</noscript>")
}

fn is_block_tag(tag: &str) -> (r: bool)
    ensures
        r == breaks_line(tag@),
{
    begins(tag, "<p") || begins(tag, "<br") || begins(tag, "<div") || begins(tag, "<li") || begins(
        tag,
        "<tr",
    ) || begins(tag, "<h1") || begins(tag, "<h2") || begins(tag, "<h3") || begins(tag, "<h4")
        || begins(tag, "</p") || begins(tag, "</div") || begins(tag, "</li") || begins(tag, "</h")
}

fn strip_markup(html: &str) -> (r: String)
    ensures
        r@ == untagged(html@, ascii_lowered(html@), 0),
{
    let v = chars_of(html);
    let lowered = lower_ascii(html);
    let low = chars_of(lowered.as_str());
    let gt = chars_of(">");
    let n = v.len();
    let mut out = String::new();
    let mut i: usize = 0;
    let ghost all = untagged(html@, low@, 0);
    assert(low@.len() == v@.len());
    assert(out@ + untagged(html@, low@, 0) =~= all);
    while i < n
        invariant
            i <= n == v@.len(),
            v@ == html@,
            low@.len() == v@.len(),
            gt@ == ">"@,
            low@ == ascii_lowered(html@),
            all == untagged(html@, low@, 0),
            out@ + untagged(html@, low@, i as int) == all,
        decreases n - i,
    {
        let ghost before = out@;
        if v[i] != '<' {
            out.push(v[i]);
            assert(out@ + untagged(html@, low@, i + 1) =~= before + untagged(html@, low@, i as int));
            i = i + 1;
        } else {
            match find_unread_end(&low, i) {
                Some(j) => {
                    out.push('\n');
                    assert(out@ + untagged(html@, low@, j as int) =~= before + untagged(
                        html@,
                        low@,
                        i as int,
                    ));
                    i = j;
                },
                None => match index_from(&low, &gt, i) {
                    None => {
                        assert(out@ =~= all);
                        return out;
                    },
                    Some(j) => {
                        proof {
                            reveal_strlit(">");
                        }
                        let tag = string_of(&low, i, j);
                        if is_block_tag(tag.as_str()) {
                            out.push('\n');
                        } else {
                            out.push(' ');
                        }
                        assert(out@ + untagged(html@, low@, j + 1) =~= before + untagged(
                            html@,
                            low@,
                            i as int,
                        ));
                        i = j + 1;
                    },
                },
            }
        }
    }
    assert(out@ =~= all);
    out
}

/// The first `n` lines with their white space collapsed, and a run of blank lines as
/// one; and whether the last line was blank.
pub open spec fn tidied(ls: Seq<Seq<char>>, n: nat) -> (Seq<char>, bool)
    decreases n,
{
    if n == 0 {
        (seq![], false)
    } else {
        let (text, blank) = tidied(ls, (n - 1) as nat);
        let line = squeezed(ls[n - 1]);
        if line.len() == 0 && blank {
            (text, true)
        } else {
            (text + line + "\n"@, line.len() == 0)
        }
    }
}

/// A text with its white space collapsed and at most one blank line in a row.
pub open spec fn tidy(s: Seq<char>) -> Seq<char> {
    trim(tidied(lines(s), lines(s).len()).0)
}

fn squeeze_lines(s: &str) -> (r: String)
    ensures
        r@ == tidy(s@),
{
    let ls = lines_of(s);
    let ghost all = views(ls@);
    let mut out = String::new();
    let mut blank = false;
    let mut i: usize = 0;
    assert(out@ =~= seq![]);
    while i < ls.len()
        invariant
            i <= ls@.len(),
            all == views(ls@),
            (out@, blank) == tidied(all, i as nat),
        decreases ls.len() - i,
    {
        assert(all[i as int] == ls@[i as int]@);
        let line = squeeze(ls[i].as_str());
        let empty = line.as_str().unicode_len() == 0;
        if !(empty && blank) {
            out.append(line.as_str());
            out.append("\n");
        }
        blank = empty;
        i = i + 1;
    }
    trimmed(out.as_str())
}

/// The handful of entities that matter, one after the other.
pub open spec fn unescaped(s: Seq<char>) -> Seq<char> {
    let a = replace(s, "&amp;"@, "&"@);
    let b = replace(a, "&lt;"@, "<"@);
    let c = replace(b, "&gt;"@, ">"@);
    let d = replace(c, "&quot;"@, "\""@);
    let e = replace(d, "&#39;"@, "'"@);
    let f = replace(e, "&apos;"@, "'"@);
    replace(f, "&nbsp;"@, " "@)
}

fn unescape(s: &str) -> (r: String)
    ensures
        r@ == unescaped(s@),
{
    let a = replaced(s, "&amp;", "&");
    let b = replaced(a.as_str(), "&lt;", "<");
    let c = replaced(b.as_str(), "&gt;", ">");
    let d = replaced(c.as_str(), "&quot;", "\"");
    let e = replaced(d.as_str(), "&#39;", "'");
    let f = replaced(e.as_str(), "&apos;", "'");
    replaced(f.as_str(), "&nbsp;", " ")
}

/// A page as readable text.
pub open spec fn readable(html: Seq<char>) -> Seq<char> {
    unescaped(tidy(untagged(html, ascii_lowered(html), 0)))
}

/// A page as readable text: script and style bodies are dropped, tags become white
/// space, and the handful of entities that matter are unescaped.
pub fn html_to_text(html: &str) -> (r: String)
    ensures
        r@ == readable(html@),
{
    let stripped = strip_markup(html);
    let tidy = squeeze_lines(stripped.as_str());
    unescape(tidy.as_str())
}

/// A snippet on one line.
pub fn strip_tags(s: &str) -> (r: String)
    ensures
        r@ == replace(readable(s@), "\n"@, " "@),
{
    replaced(html_to_text(s).as_str(), "\n", " ")
}

/// `s`, cut at `max` characters; the cut is said.
pub open spec fn page_capped(s: Seq<char>, max: nat) -> Seq<char> {
    if s.len() <= max {
        s
    } else {
        s.take(max as int) + "\n\n[page truncated at "@ + dec(max) + " characters]"@
    }
}

/// `s`, cut at `max` characters.
pub fn cap(s: &str, max: usize) -> (r: String)
    ensures
        r@ == page_capped(s@, max as nat),
{
    let v = chars_of(s);
    if v.len() <= max {
        return s.to_owned();
    }
    let mut out = string_of(&v, 0, max);
    assert(out@ =~= s@.take(max as int));
    out.append("\n\n[page truncated at ");
    out.append(decimal(max as u128).as_str());
    out.append(" characters]");
    out
}

/// What was fetched, as it is handed to the model.
pub fn page_text(content_type: &str, body: &str) -> (r: String)
    ensures
        r@ == page_capped(
            if contains(content_type@, "html"@) || starts_with(trim_start(body@), "<"@) {
                readable(body@)
            } else {
                body@
            },
            MAX_PAGE_CHARS as nat,
        ),
{
    if has_text(content_type, "html") || begins(trimmed_start(body).as_str(), "<") {
        let text = html_to_text(body);
        cap(text.as_str(), MAX_PAGE_CHARS)
    } else {
        cap(body, MAX_PAGE_CHARS)
    }
}

/// Why a URL is not fetched.
pub fn check_url(url: &str) -> (r: Result<(), String>)
    ensures
        match r {
            Ok(_) => starts_with(url@, "http://"@) || starts_with(url@, "https://"@),
            Err(e) => !(starts_with(url@, "http://"@) || starts_with(url@, "https://"@)) && e@
                == "`"@ + url@ + "` is not an http(s) URL"@,
        },
{
    if begins(url, "http://") || begins(url, "https://") {
        return Ok(());
    }
    let mut e = "`".to_owned();
    e.append(url);
    e.append("` is not an http(s) URL");
    Err(e)
}

// ---- searching --------------------------------------------------------------

/// A search result.
#[derive(Debug)]
pub struct SearchResult {
    pub title: String,
    pub url: String,
    pub snippet: String,
}

/// What a search result says.
pub struct Found {
    pub title: Seq<char>,
    pub url: Seq<char>,
    pub snippet: Seq<char>,
}

impl View for SearchResult {
    type V = Found;

    open spec fn view(&self) -> Found {
        Found { title: self.title@, url: self.url@, snippet: self.snippet@ }
    }
}

/// What a list of search results says.
pub open spec fn results(v: Seq<SearchResult>) -> Seq<Found> {
    Seq::new(v.len(), |i: int| v[i]@)
}

/// Where the results are in a provider's answer.
pub open spec fn result_list(provider: WebProvider, t: Tree) -> Option<Seq<Tree>> {
    list_of(
        match provider {
            WebProvider::Brave => match member(t, "web"@) {
                Some(w) => member(w, "results"@),
                None => None,
            },
            _ => member(t, "results"@),
        },
    )
}

/// A text, or another one where there is none.
pub open spec fn or_text(t: Option<Seq<char>>, other: Seq<char>) -> Seq<char> {
    match t {
        Some(s) => s,
        None => other,
    }
}

/// What an item of a provider's answer says.
pub open spec fn result_of_item(t: Tree) -> Found {
    let snippet = match member(t, "description"@) {
        Some(d) => text_of(Some(d)),
        None => text_of(member(t, "content"@)),
    };
    Found {
        title: or_text(str_arg(t, "title"@), "(untitled)"@),
        url: or_text(str_arg(t, "url"@), seq![]),
        snippet: replace(readable(or_text(snippet, seq![])), "\n"@, " "@),
    }
}

/// The results among the first `n` items: one without a URL is useless to the model.
pub open spec fn results_in(items: Seq<Tree>, n: nat) -> Seq<Found>
    decreases n,
{
    if n == 0 {
        seq![]
    } else {
        let before = results_in(items, (n - 1) as nat);
        let r = result_of_item(items[n - 1]);
        if r.url.len() == 0 {
            before
        } else {
            before.push(r)
        }
    }
}

fn parse_item(it: &Json) -> (r: SearchResult)
    ensures
        r@ == result_of_item(it@),
{
    let snippet = match it.get("description") {
        Some(d) => d.as_str(),
        None => get_str(it, "content"),
    };
    let snippet = match snippet {
        Some(s) => s.to_owned(),
        None => {
            let none = String::new();
            assert(none@ =~= seq![]);
            none
        },
    };
    let title = match get_str(it, "title") {
        Some(s) => s.to_owned(),
        None => "(untitled)".to_owned(),
    };
    let url = match get_str(it, "url") {
        Some(s) => s.to_owned(),
        None => {
            let none = String::new();
            assert(none@ =~= seq![]);
            none
        },
    };
    SearchResult { title, url, snippet: strip_tags(snippet.as_str()) }
}

/// Pull the results out of a provider's answer.
pub fn parse_results(provider: WebProvider, json: &Json, limit: usize) -> (r: Vec<SearchResult>)
    ensures
        results(r@) == match result_list(provider, json@) {
            None => seq![],
            Some(items) => results_in(
                items,
                if limit < items.len() {
                    limit as nat
                } else {
                    items.len()
                },
            ),
        },
{
    let found = match provider {
        WebProvider::Brave => match json.get("web") {
            Some(w) => w.get("results"),
            None => None,
        },
        _ => json.get("results"),
    };
    let mut out: Vec<SearchResult> = Vec::new();
    assert(results(out@) =~= seq![]);
    let items = match found {
        Some(v) => match v.as_array() {
            Some(items) => items,
            None => return out,
        },
        None => return out,
    };
    let ghost all = trees(items@);
    let n: usize = if limit < items.len() {
        limit
    } else {
        items.len()
    };
    let mut i: usize = 0;
    while i < n
        invariant
            i <= n <= items@.len(),
            all == trees(items@),
            results(out@) == results_in(all, i as nat),
        decreases n - i,
    {
        assert(all[i as int] == items@[i as int]@);
        let r = parse_item(&items[i]);
        if r.url.as_str().unicode_len() > 0 {
            let ghost before = out@;
            out.push(r);
            assert(results(out@) =~= results(before).push(r@));
        }
        i = i + 1;
    }
    out
}

/// A request to a search provider.
#[derive(Debug)]
pub struct SearchRequest {
    pub url: String,
    /// Header fields.
    pub headers: Vec<(String, String)>,
    /// Parameters of the URL.
    pub params: Vec<(String, String)>,
    /// What is posted; a request without it only gets.
    pub body: Option<Json>,
}

/// What a request says.
pub struct Asked {
    pub url: Seq<char>,
    pub headers: Seq<(Seq<char>, Seq<char>)>,
    pub params: Seq<(Seq<char>, Seq<char>)>,
    pub body: Option<Tree>,
}

/// What a list of named texts says.
pub open spec fn named(v: Seq<(String, String)>) -> Seq<(Seq<char>, Seq<char>)> {
    Seq::new(v.len(), |i: int| (v[i].0@, v[i].1@))
}

impl View for SearchRequest {
    type V = Asked;

    open spec fn view(&self) -> Asked {
        Asked {
            url: self.url@,
            headers: named(self.headers@),
            params: named(self.params@),
            body: match self.body {
                Some(b) => Some(b@),
                None => None,
            },
        }
    }
}

/// What a provider is asked, or why it cannot be.
pub open spec fn search_request(
    provider: Option<WebProvider>,
    base_url: Option<Seq<char>>,
    key: Option<Seq<char>>,
    query: Seq<char>,
    limit: nat,
) -> Result<Asked, Seq<char>> {
    match provider {
        None => Err(
            "no web search provider configured. Add a [web] section to config.toml, e.g.\n[web]\nprovider = \"brave\"\napi-key-env = \"BRAVE_API_KEY\"\n(providers: brave, tavily, searxng — searxng needs base-url, not a key)"@,
        ),
        Some(WebProvider::Brave) => match key {
            None => Err(
                "brave search needs an API key; set `api-key-env` in [web] and export it"@,
            ),
            Some(k) => Ok(
                Asked {
                    url: or_text(base_url, "https://api.search.brave.com/res/v1/web/search"@),
                    headers: seq![("X-Subscription-Token"@, k), ("Accept"@, "application/json"@)],
                    params: seq![("q"@, query), ("count"@, dec(limit))],
                    body: None,
                },
            ),
        },
        Some(WebProvider::Tavily) => match key {
            None => Err("tavily needs an API key; set `api-key-env` in [web] and export it"@),
            Some(k) => Ok(
                Asked {
                    url: or_text(base_url, "https://api.tavily.com/search"@),
                    headers: seq![],
                    params: seq![],
                    body: Some(
                        Tree::Object(
                            seq![
                                ("api_key"@, Tree::Text(k)),
                                ("max_results"@, Tree::Number(NumberView::Pos(limit as u64))),
                                ("query"@, Tree::Text(query)),
                            ],
                        ),
                    ),
                },
            ),
        },
        Some(WebProvider::Searxng) => match base_url {
            None => Err("searxng needs `base-url` in [web] (your instance)"@),
            Some(b) => Ok(
                Asked {
                    url: skip_while_end(b, in_set("/"@)) + "/search"@,
                    headers: seq![],
                    params: seq![("q"@, query), ("format"@, "json"@)],
                    body: None,
                },
            ),
        },
    }
}

/// What the configured provider is asked. Providers differ only in the shape of the
/// request and in where the results are.
pub fn request_for(web: &ResolvedWeb, key: &Option<String>, query: &str, limit: usize) -> (r: Result<
    SearchRequest,
    String,
>)
    ensures
        ({
            let want = search_request(
                web.provider,
                opt_view(web.base_url),
                opt_view(*key),
                query@,
                limit as nat,
            );
            match r {
                Ok(q) => want == Ok::<Asked, Seq<char>>(q@),
                Err(e) => want == Err::<Asked, Seq<char>>(e@),
            }
        }),
{
    let mut headers: Vec<(String, String)> = Vec::new();
    let mut params: Vec<(String, String)> = Vec::new();
    match web.provider {
        None => Err(
            "no web search provider configured. Add a [web] section to config.toml, e.g.\n[web]\nprovider = \"brave\"\napi-key-env = \"BRAVE_API_KEY\"\n(providers: brave, tavily, searxng — searxng needs base-url, not a key)".to_owned(),
        ),
        Some(WebProvider::Brave) => {
            let k = match key {
                Some(k) => k,
                None => return Err(
                    "brave search needs an API key; set `api-key-env` in [web] and export it".to_owned(),
                ),
            };
            let url = match &web.base_url {
                Some(u) => u.clone(),
                None => "https://api.search.brave.com/res/v1/web/search".to_owned(),
            };
            headers.push(("X-Subscription-Token".to_owned(), k.clone()));
            headers.push(("Accept".to_owned(), "application/json".to_owned()));
            params.push(("q".to_owned(), query.to_owned()));
            params.push(("count".to_owned(), decimal(limit as u128)));
            assert(named(headers@) =~= seq![
                ("X-Subscription-Token"@, k@),
                ("Accept"@, "application/json"@),
            ]);
            assert(named(params@) =~= seq![("q"@, query@), ("count"@, dec(limit as nat))]);
            Ok(SearchRequest { url, headers, params, body: None })
        },
        Some(WebProvider::Tavily) => {
            let k = match key {
                Some(k) => k,
                None => return Err(
                    "tavily needs an API key; set `api-key-env` in [web] and export it".to_owned(),
                ),
            };
            let url = match &web.base_url {
                Some(u) => u.clone(),
                None => "https://api.tavily.com/search".to_owned(),
            };
            let mut entries: Vec<(String, Json)> = Vec::new();
            entries.push(("api_key".to_owned(), Json::text(k.as_str())));
            entries.push(("max_results".to_owned(), Json::Number(Number::Pos(limit as u64))));
            entries.push(("query".to_owned(), Json::text(query)));
            assert(fields(entries@) =~= seq![
                ("api_key"@, Tree::Text(k@)),
                ("max_results"@, Tree::Number(NumberView::Pos(limit as u64))),
                ("query"@, Tree::Text(query@)),
            ]);
            assert(named(headers@) =~= seq![]);
            assert(named(params@) =~= seq![]);
            Ok(SearchRequest { url, headers, params, body: Some(Json::Object(entries)) })
        },
        Some(WebProvider::Searxng) => {
            let base = match &web.base_url {
                Some(b) => b,
                None => return Err(
                    "searxng needs `base-url` in [web] (your instance)".to_owned(),
                ),
            };
            let mut url = trimmed_end_set(base.as_str(), "/");
            url.append("/search");
            params.push(("q".to_owned(), query.to_owned()));
            params.push(("format".to_owned(), "json".to_owned()));
            assert(named(headers@) =~= seq![]);
            assert(named(params@) =~= seq![("q"@, query@), ("format"@, "json"@)]);
            Ok(SearchRequest { url, headers, params, body: None })
        },
    }
}

// ---- calls ------------------------------------------------------------------

/// What a call of the tool asks for.
#[derive(Debug)]
pub enum WebCall {
    /// Nothing that can be done.
    Refused(ToolOutput),
    Search { query: String, limit: usize },
    Fetch { url: String },
}

/// The action that a call names.
pub open spec fn action_of(args: Tree) -> Seq<char> {
    or_text(str_arg(args, "action"@), "search"@)
}

/// How many results are asked for: five, or what is said, between one and ten.
pub open spec fn web_limit(args: Tree) -> nat {
    match u64_of(member(args, "limit"@)) {
        None => 5,
        Some(n) => if n < 1 {
            1
        } else if n > 10 {
            10
        } else {
            n as nat
        },
    }
}

/// What a call of the tool asks for.
pub fn web_call(args: &Json) -> (r: WebCall)
    ensures
        ({
            let action = action_of(args@);
            if action == "search"@ {
                match str_arg(args@, "query"@) {
                    None => r matches WebCall::Refused(o) && o@ == missing("query"@),
                    Some(q) => r matches WebCall::Search { query, limit } && query@ == q && limit
                        == web_limit(args@),
                }
            } else if action == "fetch"@ {
                match str_arg(args@, "url"@) {
                    None => r matches WebCall::Refused(o) && o@ == missing("url"@),
                    Some(u) => r matches WebCall::Fetch { url } && url@ == u,
                }
            } else {
                r matches WebCall::Refused(o) && o@ == wrong(
                    "unknown action `"@ + action + "` (search|fetch)"@,
                )
            }
        }),
{
    let action = match get_str(args, "action") {
        Some(a) => a,
        None => "search",
    };
    if same(action, "search") {
        match get_str(args, "query") {
            None => WebCall::Refused(missing_argument("query")),
            Some(q) => {
                let limit: u64 = match get_u64(args, "limit") {
                    None => 5,
                    Some(n) => if n < 1 {
                        1
                    } else if n > 10 {
                        10
                    } else {
                        n
                    },
                };
                WebCall::Search { query: q.to_owned(), limit: limit as usize }
            },
        }
    } else if same(action, "fetch") {
        match get_str(args, "url") {
            None => WebCall::Refused(missing_argument("url")),
            Some(u) => WebCall::Fetch { url: u.to_owned() },
        }
    } else {
        let mut s = "unknown action `".to_owned();
        s.append(action);
        s.append("` (search|fetch)");
        WebCall::Refused(ToolOutput::error(s.as_str()))
    }
}

/// How a result reads.
pub open spec fn result_line(r: Found) -> Seq<char> {
    r.title + "\n"@ + r.url + "\n"@ + r.snippet + "\n\n"@
}

/// The answer to a search.
pub fn show_results(found: &Vec<SearchResult>) -> (r: ToolOutput)
    ensures
        r@ == if found@.len() == 0 {
            fine("(no results)"@)
        } else {
            fine(
                concat(
                    Seq::new(found@.len(), |i: int| result_line(found@[i]@)),
                ),
            )
        },
{
    if found.len() == 0 {
        return ToolOutput::ok("(no results)");
    }
    let ghost all = Seq::new(found@.len(), |i: int| result_line(found@[i]@));
    let mut out = String::new();
    let mut i: usize = 0;
    assert(out@ =~= concat(all.take(0)));
    while i < found.len()
        invariant
            i <= found@.len(),
            all == Seq::new(found@.len(), |i: int| result_line(found@[i]@)),
            out@ == concat(all.take(i as int)),
        decreases found.len() - i,
    {
        let f = &found[i];
        let mut line = f.title.clone();
        line.append("\n");
        line.append(f.url.as_str());
        line.append("\n");
        line.append(f.snippet.as_str());
        line.append("\n\n");
        out.append(line.as_str());
        assert(all.take(i + 1) =~= all.take(i as int).push(all[i as int]));
        i = i + 1;
    }
    assert(all.take(i as int) =~= all);
    ToolOutput::ok(out.as_str())
}

// ---- laws -------------------------------------------------------------------

/// No tag survives: of a page's own text, no `<` is left before entities are
/// unescaped.
pub proof fn no_tag_survives(html: Seq<char>, low: Seq<char>, i: int)
    requires
        0 <= i,
    ensures
        !untagged(html, low, i).contains('<'),
    decreases html.len() - i,
{
    if i < html.len() && low.len() == html.len() {
        if html[i] != '<' {
            no_tag_survives(html, low, i + 1);
            let rest = untagged(html, low, i + 1);
            lemma_no_mark(html[i], rest);
        } else {
            reveal_strlit(">");
            lemma_unread_end(low, i, unread().len());
            lemma_find_from(low, ">"@, i);
            match unread_end(low, i, unread().len()) {
                Some(j) => {
                    no_tag_survives(html, low, j);
                    lemma_no_mark('\n', untagged(html, low, j));
                },
                None => {
                    if let Some(j) = find_from(low, ">"@, i) {
                        no_tag_survives(html, low, j + 1);
                        lemma_no_mark('\n', untagged(html, low, j + 1));
                        lemma_no_mark(' ', untagged(html, low, j + 1));
                    }
                },
            }
        }
    }
}

proof fn lemma_no_mark(c: char, rest: Seq<char>)
    requires
        c != '<',
        !rest.contains('<'),
    ensures
        !(seq![c] + rest).contains('<'),
{
    let s = seq![c] + rest;
    if s.contains('<') {
        let k = choose|k: int| 0 <= k < s.len() && s[k] == '<';
        assert(rest[k - 1] == '<');
    }
}

/// What is handed back of a page is bounded, whatever the page holds.
pub proof fn pages_stay_bounded(s: Seq<char>, max: nat)
    ensures
        page_capped(s, max).len() <= max + dec(max).len() + 33,
        s.len() <= max ==> page_capped(s, max) == s,
{
    reveal_strlit("\n\n[page truncated at ");
    reveal_strlit(" characters]");
}

/// A search never answers with more than it was asked for, and every result can be
/// opened.
pub proof fn results_stay_bounded(items: Seq<Tree>, n: nat)
    ensures
        results_in(items, n).len() <= n,
        forall|i: int| 0 <= i < results_in(items, n).len() ==> (#[trigger] results_in(items, n)[i]).url.len() > 0,
    decreases n,
{
    if n > 0 {
        results_stay_bounded(items, (n - 1) as nat);
        let before = results_in(items, (n - 1) as nat);
        assert forall|i: int| 0 <= i < results_in(items, n).len() implies (#[trigger] results_in(items, n)[i]).url.len() > 0 by {
            if i < before.len() {
                assert(before[i].url.len() > 0);
            }
        }
    }
}

/// Text outside of tags is kept as it is: up to the first tag, and all of it where there is
/// none.
pub proof fn text_outside_of_tags_is_kept(html: Seq<char>, low: Seq<char>, i: int, n: int)
    requires
        0 <= i <= n <= html.len(),
        low.len() == html.len(),
        forall|k: int| i <= k < n ==> html[k] != '<',
    ensures
        untagged(html, low, i) == html.subrange(i, n) + untagged(html, low, n),
        n == html.len() ==> untagged(html, low, i) == html.skip(i),
    decreases n - i,
{
    if i < n {
        text_outside_of_tags_is_kept(html, low, i + 1, n);
        assert(html.subrange(i, n) =~= seq![html[i]] + html.subrange(i + 1, n));
        assert(untagged(html, low, i) =~= html.subrange(i, n) + untagged(html, low, n));
    } else {
        assert(html.subrange(i, n) =~= Seq::<char>::empty());
        assert(untagged(html, low, i) =~= html.subrange(i, n) + untagged(html, low, n));
    }
    if n == html.len() {
        assert(untagged(html, low, n) =~= Seq::<char>::empty());
        assert(html.subrange(i, n) + Seq::<char>::empty() =~= html.skip(i));
    }
}

/// A tag that hides nothing is taken out, from its bracket to the next, and leaves a break or
/// a space; what follows is read on.
pub proof fn a_tag_leaves_a_gap(html: Seq<char>, low: Seq<char>, i: int, j: int)
    requires
        0 <= i < html.len(),
        low.len() == html.len(),
        html[i] == '<',
        unread_end(low, i, unread().len()) is None,
        find_from(low, ">"@, i) == Some(j),
    ensures
        untagged(html, low, i).len() > 0,
        untagged(html, low, i)[0] == '\n' || untagged(html, low, i)[0] == ' ',
        untagged(html, low, i).skip(1) == untagged(html, low, j + 1),
{
    assert(untagged(html, low, i).skip(1) =~= untagged(html, low, j + 1));
}

proof fn lemma_ink_words(s: Seq<char>)
    ensures
        ink(squeezed(s)) == ink(s),
{
    crate::wording::words_are_the_text_without_its_spaces(s);
    reveal_strlit(" ");
    crate::knowledge::lemma_ink_blank(" "@);
    crate::knowledge::lemma_ink_join(words(s), " "@);
    let q = |c: char| !is_space(c);
    lemma_ink_filter(s, q);
    lemma_ink_filter(crate::list::concat(words(s)), q);
    assert(crate::list::concat(words(s)) == s.filter(q));
    lemma_ink_of_ink(s);
}

proof fn lemma_ink_filter(s: Seq<char>, q: spec_fn(char) -> bool)
    requires
        forall|c: char| #[trigger] q(c) == !is_space(c),
    ensures
        s.filter(q) == ink(s),
    decreases s.len(),
{
    reveal(Seq::filter);
    if s.len() > 0 {
        lemma_ink_filter(s.drop_last(), q);
    }
    assert(s.filter(q) =~= ink(s));
}

proof fn lemma_ink_of_ink(s: Seq<char>)
    ensures
        ink(ink(s)) == ink(s),
    decreases s.len(),
{
    if s.len() > 0 {
        lemma_ink_of_ink(s.drop_last());
        let a = ink(s.drop_last());
        if !is_space(s.last()) {
            assert(a.push(s.last()).drop_last() =~= a);
        }
    }
    assert(ink(ink(s)) =~= ink(s));
}

/// Tidying a page loses none of its words: the characters that are not white space stay, all
/// and in order.
pub proof fn tidying_loses_no_word(s: Seq<char>)
    ensures
        ink(tidy(s)) == ink(s),
{
    let ls = lines(s);
    lemma_ink_tidied(ls, ls.len());
    crate::knowledge::lemma_ink_trim(tidied(ls, ls.len()).0);
    assert(ls.take(ls.len() as int) =~= ls);
    crate::knowledge::lemma_ink_lines(s);
}

proof fn lemma_ink_tidied(ls: Seq<Seq<char>>, n: nat)
    requires
        n <= ls.len(),
    ensures
        ink(tidied(ls, n).0) == ink(crate::list::concat(ls.take(n as int))),
    decreases n,
{
    if n == 0 {
        assert(ls.take(0) =~= seq![]);
        assert(crate::list::concat(ls.take(0)) =~= Seq::<char>::empty());
    } else {
        let m = (n - 1) as nat;
        lemma_ink_tidied(ls, m);
        let (text, blank) = tidied(ls, m);
        let line = squeezed(ls[n - 1]);
        lemma_ink_words(ls[n - 1]);
        assert(ls.take(n as int) =~= ls.take(m as int).push(ls[n - 1]));
        crate::list::lemma_concat_push(ls.take(m as int), ls[n - 1]);
        crate::knowledge::lemma_ink_cat(crate::list::concat(ls.take(m as int)), ls[n - 1]);
        reveal_strlit("\n");
        crate::knowledge::lemma_ink_blank("\n"@);
        crate::knowledge::lemma_ink_cat(text, line);
        crate::knowledge::lemma_ink_cat(text + line, "\n"@);
        if line.len() == 0 {
            assert(ink(line) =~= Seq::<char>::empty());
        }
        assert(ink(tidied(ls, n).0) =~= ink(text) + ink(line));
    }
}

/// Of each item with an address the title and the address are told, in order; one without an
/// address is left out.
pub proof fn each_result_with_an_address_is_told(items: Seq<Tree>, n: nat)
    requires
        0 < n <= items.len(),
    ensures
        ({
            let it = items[n - 1];
            let before = results_in(items, (n - 1) as nat);
            let after = results_in(items, n);
            match str_arg(it, "url"@) {
                Some(u) => u.len() > 0 ==> after.len() == before.len() + 1 && after.drop_last()
                    == before && after.last().url == u && (str_arg(it, "title"@) matches Some(t)
                    ==> after.last().title == t),
                None => after == before,
            }
        }),
{
    let before = results_in(items, (n - 1) as nat);
    let r = result_of_item(items[n - 1]);
    assert(before.push(r).drop_last() =~= before);
}

/// A search is for what was asked, under the key that is configured, and only where there is
/// one; at the address that is configured, where there is one.
pub proof fn a_search_is_for_what_was_asked(
    key: Seq<char>,
    base: Seq<char>,
    query: Seq<char>,
    limit: nat,
)
    ensures
        search_request(None, Some(base), Some(key), query, limit) is Err,
        search_request(Some(WebProvider::Brave), Some(base), None, query, limit) is Err,
        search_request(Some(WebProvider::Tavily), Some(base), None, query, limit) is Err,
        search_request(Some(WebProvider::Brave), Some(base), Some(key), query, limit) matches Ok(a)
            && a.url == base && a.params.contains(("q"@, query)) && a.params.contains(
            ("count"@, dec(limit)),
        ) && a.headers.contains(("X-Subscription-Token"@, key)),
{
    let a = search_request(Some(WebProvider::Brave), Some(base), Some(key), query, limit)->Ok_0;
    assert(a.params[0] == ("q"@, query));
    assert(a.params[1] == ("count"@, dec(limit)));
    assert(a.headers[0] == ("X-Subscription-Token"@, key));
}

/// A page is cut only past its limit, and then its start is kept.
pub proof fn a_page_is_cut_only_past_its_limit(s: Seq<char>, max: nat)
    ensures
        s.len() <= max ==> page_capped(s, max) == s,
        s.len() > max ==> page_capped(s, max).take(max as int) == s.take(max as int),
{
    if s.len() > max {
        assert(page_capped(s, max).take(max as int) =~= s.take(max as int));
    }
}

} // verus!
