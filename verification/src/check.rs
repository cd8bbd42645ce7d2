//! `config check`: what the effective configuration is, where every key came from, and
//! what is wrong with it.
//!
//! A key that a loaded file sets and whose effective value is another was lost on the
//! way in, and only this view shows it.
use vstd::prelude::*;
use vstd::string::*;

use crate::config::{entry_of, keys, Config, ProviderConfig, Settings};
use crate::json::{
    fields, group_json, json_pretty, trees, Json, Tree,
};
use crate::list::{concat, group_lists, join, views};
use crate::ordered::{
    has_key, holds_key, in_order, lemma_put_map, lemma_put_members, map_values, pairs, put_entry,
    put_pair, putting_changes_one_key, value_of,
};
use crate::text::{
    any_same, byte_len, contains, dec_int, decimal_int, joined, opt_view, pieces, replace, replaced,
    same, split, split_once, utf8_len,
};
use crate::toml_value::{
    entries_view, entry, group_toml, held, same_toml, toml_debug, toml_written, Toml, TomlTree,
};

verus! {

broadcast use {group_lists, group_toml, group_json};

/// One line of the source table: the effective value and where it came from.
#[derive(Debug, PartialEq, Eq, Clone)]
pub struct Source {
    /// `default`, or the path of the file the value came from.
    pub from: String,
    /// The effective value, or `None` when unset.
    pub value: Option<String>,
}

/// What a `Source` says.
pub struct Origin {
    pub from: Seq<char>,
    pub value: Option<Seq<char>>,
}

impl View for Source {
    type V = Origin;

    open spec fn view(&self) -> Origin {
        Origin { from: self.from@, value: opt_view(self.value) }
    }
}

/// One file and what happened to it.
#[derive(Debug, PartialEq, Eq, Clone)]
pub struct FileStatus {
    pub path: String,
    /// `missing`, `ok`, or `error: …`.
    pub state: String,
    /// The project's file only: is it trusted?
    pub trusted: Option<bool>,
    pub changed_since_trusted: bool,
}

/// The value that a file gave a key, and the file.
pub type Writer = (String, Toml);

/// What a writer says.
pub open spec fn writer_view() -> spec_fn(Writer) -> (Seq<char>, TomlTree) {
    |w: Writer| (w.0@, w.1@)
}

/// What a source says.
pub open spec fn source_view() -> spec_fn(Source) -> Origin {
    |s: Source| s@
}

/// What the writers of the keys say, in the order of the keys.
pub open spec fn writers_view(v: Seq<(String, Writer)>) -> Seq<(Seq<char>, (Seq<char>, TomlTree))> {
    map_values(pairs(v), writer_view())
}

/// What the sources of the keys say, in the order of the keys.
pub open spec fn sources_view(v: Seq<(String, Source)>) -> Seq<(Seq<char>, Origin)> {
    map_values(pairs(v), source_view())
}

/// Everything `config check` found.
#[derive(Debug)]
pub struct Check {
    /// Effective value and source, by key.
    pub sources: Vec<(String, Source)>,
    /// The last writer of each key.
    pub writers: Vec<(String, Writer)>,
    pub files: Vec<FileStatus>,
    pub flags: Vec<String>,
}

// ---- walking ----------------------------------------------------------------

/// The path of an entry, below a prefix. The parts are joined by `>`: a dot stands in
/// the names of models.
pub open spec fn path_to(prefix: Seq<char>, key: Seq<char>) -> Seq<char> {
    if prefix.len() == 0 {
        key
    } else {
        prefix + ">"@ + key
    }
}

fn make_path(prefix: &str, key: &str) -> (r: String)
    ensures
        r@ == path_to(prefix@, key@),
{
    if prefix.unicode_len() == 0 {
        key.to_owned()
    } else {
        let mut k = prefix.to_owned();
        k.append(">");
        k.append(key);
        k
    }
}

/// The writers once the values of a file are put in, each at its path.
pub open spec fn collected(
    t: TomlTree,
    prefix: Seq<char>,
    from: Seq<char>,
    w: Seq<(Seq<char>, (Seq<char>, TomlTree))>,
) -> Seq<(Seq<char>, (Seq<char>, TomlTree))>
    decreases t, 0nat,
{
    match t {
        TomlTree::Table(e) => collected_entries(e, prefix, from, w, e.len()),
        _ => w,
    }
}

/// The writers once the first `n` entries of a table are put in.
pub open spec fn collected_entries(
    e: Seq<(Seq<char>, TomlTree)>,
    prefix: Seq<char>,
    from: Seq<char>,
    w: Seq<(Seq<char>, (Seq<char>, TomlTree))>,
    n: nat,
) -> Seq<(Seq<char>, (Seq<char>, TomlTree))>
    decreases e, n,
{
    if n == 0 || n > e.len() {
        w
    } else {
        let before = collected_entries(e, prefix, from, w, (n - 1) as nat);
        let key = path_to(prefix, e[n - 1].0);
        let v = e[n - 1].1;
        if v is Table {
            collected(v, key, from, before)
        } else {
            put_pair(before, key, (from, v))
        }
    }
}

/// Put the values of a file in, each at its path.
pub fn collect_writers(value: &Toml, from: &str, writers: &mut Vec<(String, Writer)>)
    ensures
        writers_view(final(writers)@) == collected(
            value@,
            seq![],
            from@,
            writers_view(old(writers)@),
        ),
{
    let none = String::new();
    assert(none@ =~= seq![]);
    collect_writers_walk(value, none.as_str(), from, writers);
}

fn collect_writers_walk(
    value: &Toml,
    prefix: &str,
    from: &str,
    writers: &mut Vec<(String, Writer)>,
)
    ensures
        writers_view(final(writers)@) == collected(
            value@,
            prefix@,
            from@,
            writers_view(old(writers)@),
        ),
    decreases *value,
{
    match value {
        Toml::Table(entries) => {
            let ghost e = entries_view(entries@);
            let ghost w = writers_view(writers@);
            let mut i: usize = 0;
            while i < entries.len()
                invariant
                    i <= entries@.len(),
                    *value == Toml::Table(*entries),
                    value@ == TomlTree::Table(e),
                    e == entries_view(entries@),
                    writers_view(writers@) == collected_entries(e, prefix@, from@, w, i as nat),
                decreases entries.len() - i,
            {
                assert(decreases_to!(*value => value->Table_0));
                assert(decreases_to!(value->Table_0 => value->Table_0@[i as int]));
                assert(decreases_to!(entries@[i as int] => entries@[i as int].1));
                assert(e[i as int] == (entries@[i as int].0@, entries@[i as int].1@));
                let key = make_path(prefix, entries[i].0.as_str());
                match &entries[i].1 {
                    Toml::Table(_) => {
                        collect_writers_walk(&entries[i].1, key.as_str(), from, writers);
                    },
                    _ => {
                        let x: Writer = (from.to_owned(), entries[i].1.copy());
                        proof {
                            lemma_put_map(pairs(writers@), key@, x, writer_view());
                        }
                        put_entry(writers, key.as_str(), x);
                    },
                }
                i = i + 1;
            }
        },
        _ => {},
    }
}

/// A value that is no table, in the report.
pub open spec fn scalar_text(t: TomlTree) -> Seq<char> {
    match t {
        TomlTree::Text(s) => s,
        TomlTree::Integer(n) => dec_int(n as int),
        TomlTree::Real(s) => s,
        TomlTree::Boolean(b) => if b {
            "true"@
        } else {
            "false"@
        },
        _ => toml_written(t),
    }
}

/// A value that is no table, in the report.
pub fn scalar_to_string(v: &Toml) -> (r: String)
    ensures
        r@ == scalar_text(v@),
{
    match v {
        Toml::Text(s) => s.clone(),
        Toml::Integer(n) => decimal_int(*n),
        Toml::Real(s) => s.clone(),
        Toml::Boolean(b) => if *b {
            "true".to_owned()
        } else {
            "false".to_owned()
        },
        _ => v.written(),
    }
}

/// The sources once the values that no file set are put in, as defaults.
pub open spec fn filled(
    t: TomlTree,
    prefix: Seq<char>,
    writers: Seq<(Seq<char>, (Seq<char>, TomlTree))>,
    s: Seq<(Seq<char>, Origin)>,
) -> Seq<(Seq<char>, Origin)>
    decreases t, 0nat,
{
    match t {
        TomlTree::Table(e) => filled_entries(e, prefix, writers, s, e.len()),
        _ => s,
    }
}

/// The sources once the first `n` entries of a table are looked at.
pub open spec fn filled_entries(
    e: Seq<(Seq<char>, TomlTree)>,
    prefix: Seq<char>,
    writers: Seq<(Seq<char>, (Seq<char>, TomlTree))>,
    s: Seq<(Seq<char>, Origin)>,
    n: nat,
) -> Seq<(Seq<char>, Origin)>
    decreases e, n,
{
    if n == 0 || n > e.len() {
        s
    } else {
        let before = filled_entries(e, prefix, writers, s, (n - 1) as nat);
        let key = path_to(prefix, e[n - 1].0);
        let v = e[n - 1].1;
        if v is Table {
            filled(v, key, writers, before)
        } else if has_key(writers, key) {
            before
        } else {
            put_pair(
                before,
                key,
                Origin { from: "default"@, value: Some(scalar_text(v)) },
            )
        }
    }
}

fn fill_walk(
    value: &Toml,
    prefix: &str,
    writers: &Vec<(String, Writer)>,
    sources: &mut Vec<(String, Source)>,
)
    ensures
        sources_view(final(sources)@) == filled(
            value@,
            prefix@,
            writers_view(writers@),
            sources_view(old(sources)@),
        ),
    decreases *value,
{
    match value {
        Toml::Table(entries) => {
            let ghost e = entries_view(entries@);
            let ghost w = writers_view(writers@);
            let ghost s = sources_view(sources@);
            let mut i: usize = 0;
            while i < entries.len()
                invariant
                    i <= entries@.len(),
                    *value == Toml::Table(*entries),
                    value@ == TomlTree::Table(e),
                    e == entries_view(entries@),
                    w == writers_view(writers@),
                    sources_view(sources@) == filled_entries(e, prefix@, w, s, i as nat),
                decreases entries.len() - i,
            {
                assert(decreases_to!(*value => value->Table_0));
                assert(decreases_to!(value->Table_0 => value->Table_0@[i as int]));
                assert(decreases_to!(entries@[i as int] => entries@[i as int].1));
                assert(e[i as int] == (entries@[i as int].0@, entries@[i as int].1@));
                let key = make_path(prefix, entries[i].0.as_str());
                match &entries[i].1 {
                    Toml::Table(_) => {
                        fill_walk(&entries[i].1, key.as_str(), writers, sources);
                    },
                    _ => {
                        let there = holds_key(writers, key.as_str());
                        proof {
                            lemma_same_keys(pairs(writers@), writer_view(), key@);
                        }
                        if !there {
                            let x = Source {
                                from: "default".to_owned(),
                                value: Some(scalar_to_string(&entries[i].1)),
                            };
                            proof {
                                lemma_put_map(pairs(sources@), key@, x, source_view());
                            }
                            put_entry(sources, key.as_str(), x);
                        }
                    },
                }
                i = i + 1;
            }
        },
        _ => {},
    }
}

proof fn lemma_same_keys<T, U>(s: Seq<(Seq<char>, T)>, f: spec_fn(T) -> U, key: Seq<char>)
    ensures
        has_key(map_values(s, f), key) == has_key(s, key),
{
    let m = map_values(s, f);
    if has_key(s, key) {
        let i = choose|i: int| 0 <= i < s.len() && (#[trigger] s[i]).0 == key;
        assert(m[i].0 == key);
    }
    if has_key(m, key) {
        let i = choose|i: int| 0 <= i < m.len() && (#[trigger] m[i]).0 == key;
        assert(s[i].0 == key);
    }
}

/// Put in the values of the effective configuration that no file set.
pub fn fill_defaults(
    value: &Toml,
    writers: &Vec<(String, Writer)>,
    sources: &mut Vec<(String, Source)>,
)
    ensures
        sources_view(final(sources)@) == filled(
            value@,
            seq![],
            writers_view(writers@),
            sources_view(old(sources)@),
        ),
{
    let none = String::new();
    assert(none@ =~= seq![]);
    fill_walk(value, none.as_str(), writers, sources);
}

/// What stands at a path, given its parts from `i` on.
pub open spec fn at_parts(t: TomlTree, parts: Seq<Seq<char>>, i: int) -> Option<TomlTree>
    decreases parts.len() - i,
{
    if i < 0 || i >= parts.len() {
        Some(t)
    } else {
        match held(t, parts[i]) {
            Some(x) => at_parts(x, parts, i + 1),
            None => None,
        }
    }
}

/// What stands at a path.
pub open spec fn at_path(t: TomlTree, key: Seq<char>) -> Option<TomlTree> {
    at_parts(t, split(key, '>'), 0)
}

/// What stands at a path.
pub fn lookup_path(value: &Toml, key: &str) -> (r: Option<Toml>)
    ensures
        match r {
            Some(x) => at_path(value@, key@) == Some(x@),
            None => at_path(value@, key@) is None,
        },
{
    let parts = pieces(key, '>');
    let ghost all = split(key@, '>');
    let mut cur: &Toml = value;
    let mut i: usize = 0;
    while i < parts.len()
        invariant
            i <= parts@.len(),
            all == views(parts@),
            all == split(key@, '>'),
            at_parts(cur@, all, i as int) == at_path(value@, key@),
        decreases parts.len() - i,
    {
        assert(all[i as int] == parts@[i as int]@);
        match cur.get(parts[i].as_str()) {
            Some(x) => {
                cur = x;
            },
            None => {
                return None;
            },
        }
        i = i + 1;
    }
    Some(cur.copy())
}

/// A path as the report shows it.
pub fn display_key(key: &str) -> (r: String)
    ensures
        r@ == shown_key(key@),
{
    replaced(key, ">", ".")
}

/// A path as the report shows it: with dots between its parts.
pub open spec fn shown_key(key: Seq<char>) -> Seq<char> {
    replace(key, ">"@, "."@)
}

// ---- flags ------------------------------------------------------------------

/// What is wrong with a key that a file sets, given the effective configuration: its
/// value there is another, or there is none.
pub open spec fn merge_flag(
    key: Seq<char>,
    file: Seq<char>,
    value: TomlTree,
    merged: TomlTree,
) -> Option<Seq<char>> {
    match at_path(merged, key) {
        Some(e) => if e == value {
            None
        } else {
            Some(
                "`"@ + key + "` is set in "@ + file + " to "@ + toml_debug(value)
                    + ", but the effective value is "@ + toml_debug(e)
                    + " — the merge dropped it"@,
            )
        },
        None => Some(
            "`"@ + key + "` is set in "@ + file + " to "@ + toml_debug(value)
                + ", but it is absent from the effective config — the merge dropped it"@,
        ),
    }
}

/// The flags for the first `n` writers.
pub open spec fn merge_flags(
    w: Seq<(Seq<char>, (Seq<char>, TomlTree))>,
    merged: TomlTree,
    n: nat,
) -> Seq<Seq<char>>
    decreases n,
{
    if n == 0 {
        seq![]
    } else {
        let before = merge_flags(w, merged, (n - 1) as nat);
        match merge_flag(w[n - 1].0, w[n - 1].1.0, w[n - 1].1.1, merged) {
            Some(f) => before.push(f),
            None => before,
        }
    }
}

/// The sources of the keys that files set.
pub open spec fn written_sources(w: Seq<(Seq<char>, (Seq<char>, TomlTree))>, n: nat) -> Seq<
    (Seq<char>, Origin),
>
    decreases n,
{
    if n == 0 {
        seq![]
    } else {
        put_pair(
            written_sources(w, (n - 1) as nat),
            w[n - 1].0,
            Origin { from: w[n - 1].1.0, value: Some(scalar_text(w[n - 1].1.1)) },
        )
    }
}

/// What is wrong with the model's name, if anything: its provider is not configured.
pub open spec fn model_flag(s: Settings) -> Option<Seq<char>> {
    match s.model {
        None => None,
        Some(m) => {
            let name: Option<Seq<char>> = match split_once(m@, '/') {
                Some((p, _)) => Some(p),
                None => if s.providers.len() == 1 {
                    Some(s.providers[0].0@)
                } else {
                    None
                },
            };
            match name {
                None => None,
                Some(n) => if entry_of(s.providers, n) is Some {
                    None
                } else {
                    Some(
                        "`model` is `"@ + m@ + "`, but provider `"@ + n
                            + "` is not configured (configured: "@ + (if s.providers.len() == 0 {
                            "none"@
                        } else {
                            join(keys(s.providers), ", "@)
                        }) + ")"@,
                    )
                },
            }
        },
    }
}

/// The flags for the first `n` providers whose key variable is not exported.
pub open spec fn key_flags(
    providers: Seq<(String, ProviderConfig)>,
    exported: Seq<Seq<char>>,
    n: nat,
) -> Seq<Seq<char>>
    decreases n,
{
    if n == 0 {
        seq![]
    } else {
        let before = key_flags(providers, exported, (n - 1) as nat);
        match providers[n - 1].1.api_key_env {
            Some(var) => if exported.contains(var@) {
                before
            } else {
                before.push(
                    "provider `"@ + providers[n - 1].0@ + "`: `api-key-env` names `"@ + var@
                        + "`, which is not exported"@,
                )
            },
            None => before,
        }
    }
}

/// The flags for every key variable that is not exported.
pub open spec fn all_key_flags(s: Settings, exported: Seq<Seq<char>>) -> Seq<Seq<char>> {
    let first = key_flags(s.providers, exported, s.providers.len());
    match s.web.api_key_env {
        Some(var) => if exported.contains(var@) {
            first
        } else {
            first.push("web: `api-key-env` names `"@ + var@ + "`, which is not exported"@)
        },
        None => first,
    }
}

impl Check {
    /// Put the report together: the raw values of the files that apply, in order, and
    /// the effective configuration.
    pub fn assemble(applied: &Vec<(String, Toml)>, merged: &Toml, files: Vec<FileStatus>) -> (r:
        Check)
        ensures
            ({
                let w = all_collected(applied@, applied@.len());
                &&& writers_view(r.writers@) == w
                &&& sources_view(r.sources@) == filled(
                    merged@,
                    seq![],
                    w,
                    written_sources(w, w.len()),
                )
                &&& views(r.flags@) == merge_flags(w, merged@, w.len())
                &&& r.files == files
            }),
    {
        let mut writers: Vec<(String, Writer)> = Vec::new();
        let mut i: usize = 0;
        assert(writers_view(writers@) =~= seq![]);
        while i < applied.len()
            invariant
                i <= applied@.len(),
                writers_view(writers@) == all_collected(applied@, i as nat),
            decreases applied.len() - i,
        {
            collect_writers(&applied[i].1, applied[i].0.as_str(), &mut writers);
            i = i + 1;
        }
        let ghost w = writers_view(writers@);
        let mut sources: Vec<(String, Source)> = Vec::new();
        let mut k: usize = 0;
        assert(sources_view(sources@) =~= seq![]);
        while k < writers.len()
            invariant
                k <= writers@.len(),
                w == writers_view(writers@),
                sources_view(sources@) == written_sources(w, k as nat),
            decreases writers.len() - k,
        {
            let x = Source {
                from: writers[k].1.0.clone(),
                value: Some(scalar_to_string(&writers[k].1.1)),
            };
            proof {
                assert(w[k as int].0 == writers@[k as int].0@);
                lemma_put_map(pairs(sources@), writers@[k as int].0@, x, source_view());
            }
            put_entry(&mut sources, writers[k].0.as_str(), x);
            k = k + 1;
        }
        fill_defaults(merged, &writers, &mut sources);
        let mut c = Check { sources, writers, files, flags: Vec::new() };
        assert(views(c.flags@) =~= seq![]);
        c.flag_merge(merged);
        c
    }

    /// Flag every key that a file sets and the effective configuration does not have.
    pub fn flag_merge(&mut self, merged: &Toml)
        ensures
            views(final(self).flags@) == views(old(self).flags@) + merge_flags(
                writers_view(old(self).writers@),
                merged@,
                old(self).writers@.len(),
            ),
            final(self).writers == old(self).writers,
            final(self).sources == old(self).sources,
            final(self).files == old(self).files,
    {
        let ghost w = writers_view(self.writers@);
        let ghost before = views(self.flags@);
        let mut i: usize = 0;
        assert(views(self.flags@) =~= before + merge_flags(w, merged@, 0));
        while i < self.writers.len()
            invariant
                i <= self.writers@.len(),
                w == writers_view(self.writers@),
                self.writers == old(self).writers,
                self.sources == old(self).sources,
                self.files == old(self).files,
                views(self.flags@) == before + merge_flags(w, merged@, i as nat),
            decreases self.writers.len() - i,
        {
            let key = self.writers[i].0.as_str();
            let file = self.writers[i].1.0.as_str();
            let value = &self.writers[i].1.1;
            assert(w[i as int] == (key@, (file@, value@)));
            let mut flag = "`".to_owned();
            flag.append(key);
            flag.append("` is set in ");
            flag.append(file);
            flag.append(" to ");
            let v = value.debugged();
            flag.append(v.as_str());
            match lookup_path(merged, key) {
                Some(e) => {
                    if !same_toml(&e, value) {
                        flag.append(", but the effective value is ");
                        let x = e.debugged();
                        flag.append(x.as_str());
                        flag.append(" — the merge dropped it");
                        self.flags.push(flag);
                    }
                },
                None => {
                    flag.append(
                        ", but it is absent from the effective config — the merge dropped it",
                    );
                    self.flags.push(flag);
                },
            }
            i = i + 1;
            assert(views(self.flags@) =~= before + merge_flags(w, merged@, i as nat));
        }
    }

    /// Flag a model whose provider is not configured.
    pub fn flag_model(&mut self, config: &Config)
        ensures
            views(final(self).flags@) == match model_flag(config@) {
                Some(f) => views(old(self).flags@).push(f),
                None => views(old(self).flags@),
            },
            final(self).writers == old(self).writers,
            final(self).sources == old(self).sources,
            final(self).files == old(self).files,
    {
        let spec_ = match &config.model {
            Some(m) => m,
            None => {
                return;
            },
        };
        let name = match crate::text::cut_once(spec_.as_str(), '/') {
            Some((p, _)) => p,
            None => {
                if config.providers.len() == 1 {
                    config.providers[0].0.clone()
                } else {
                    return;
                }
            },
        };
        if config.has_provider(name.as_str()) {
            return;
        }
        let mut f = "`model` is `".to_owned();
        f.append(spec_.as_str());
        f.append("`, but provider `");
        f.append(name.as_str());
        f.append("` is not configured (configured: ");
        let known = config.provider_names();
        let list = if known.len() == 0 {
            "none".to_owned()
        } else {
            joined(&known, ", ")
        };
        f.append(list.as_str());
        f.append(")");
        self.flags.push(f);
    }

    /// Flag every key variable that is not exported.
    pub fn flag_api_keys(&mut self, config: &Config, exported: &Vec<String>)
        ensures
            views(final(self).flags@) == views(old(self).flags@) + all_key_flags(
                config@,
                views(exported@),
            ),
            final(self).writers == old(self).writers,
            final(self).sources == old(self).sources,
            final(self).files == old(self).files,
    {
        let ghost before = views(self.flags@);
        let ghost x = views(exported@);
        let mut i: usize = 0;
        assert(views(self.flags@) =~= before + key_flags(config.providers@, x, 0));
        while i < config.providers.len()
            invariant
                i <= config.providers@.len(),
                x == views(exported@),
                self.writers == old(self).writers,
                self.sources == old(self).sources,
                self.files == old(self).files,
                views(self.flags@) == before + key_flags(config.providers@, x, i as nat),
            decreases config.providers.len() - i,
        {
            if let Some(var) = &config.providers[i].1.api_key_env {
                if !any_same(exported, var.as_str()) {
                    let mut f = "provider `".to_owned();
                    f.append(config.providers[i].0.as_str());
                    f.append("`: `api-key-env` names `");
                    f.append(var.as_str());
                    f.append("`, which is not exported");
                    self.flags.push(f);
                }
            }
            i = i + 1;
            assert(views(self.flags@) =~= before + key_flags(config.providers@, x, i as nat));
        }
        if let Some(var) = &config.web.api_key_env {
            if !any_same(exported, var.as_str()) {
                let mut f = "web: `api-key-env` names `".to_owned();
                f.append(var.as_str());
                f.append("`, which is not exported");
                self.flags.push(f);
            }
        }
        assert(views(self.flags@) =~= before + all_key_flags(config@, x));
    }

    /// Flag what a probe of the server found.
    pub fn flag_context(&mut self, found: Option<String>)
        ensures
            views(final(self).flags@) == match found {
                Some(m) => views(old(self).flags@).push(m@),
                None => views(old(self).flags@),
            },
            final(self).writers == old(self).writers,
            final(self).sources == old(self).sources,
            final(self).files == old(self).files,
    {
        if let Some(m) = found {
            self.flags.push(m);
        }
    }

    /// Flag a directory for decisions that git ignores.
    pub fn flag_decisions_dir(&mut self, dir: &str, ignored: bool)
        ensures
            views(final(self).flags@) == if ignored {
                views(old(self).flags@).push(
                    "`decisions-dir` is `"@ + dir@
                        + "`, which git ignores — decisions filed there will not be committed"@,
                )
            } else {
                views(old(self).flags@)
            },
            final(self).writers == old(self).writers,
            final(self).sources == old(self).sources,
            final(self).files == old(self).files,
    {
        if ignored {
            let mut f = "`decisions-dir` is `".to_owned();
            f.append(dir);
            f.append("`, which git ignores — decisions filed there will not be committed");
            self.flags.push(f);
        }
    }
}

/// The writers once the first `n` files are put in.
pub open spec fn all_collected(files: Seq<(String, Toml)>, n: nat) -> Seq<
    (Seq<char>, (Seq<char>, TomlTree)),
>
    decreases n,
{
    if n == 0 {
        seq![]
    } else {
        collected(files[n - 1].1@, seq![], files[n - 1].0@, all_collected(files, (n - 1) as nat))
    }
}

/// What is said of a file: it is not there, it was read, or it could not be.
pub fn file_state(present: bool, error: Option<String>) -> (r: String)
    ensures
        r@ == if !present {
            "missing"@
        } else {
            match error {
                None => "ok"@,
                Some(e) => "error: "@ + e@,
            }
        },
{
    if !present {
        return "missing".to_owned();
    }
    match error {
        None => "ok".to_owned(),
        Some(e) => {
            let mut s = "error: ".to_owned();
            s.append(e.as_str());
            s
        },
    }
}

// ---- the report -------------------------------------------------------------

/// The line for a file.
pub open spec fn file_line(f: FileStatus) -> Seq<char> {
    f.path@ + match f.trusted {
        Some(true) => if f.changed_since_trusted {
            "  loaded  trusted (but the file has changed since it was trusted)"@
        } else {
            "  loaded  trusted"@
        },
        Some(false) => "  loaded  not trusted"@,
        None => if f.state@ == "ok"@ {
            "  loaded"@
        } else if f.state@ == "missing"@ {
            "  not present"@
        } else {
            "  "@ + f.state@
        },
    } + "\n"@
}

/// The lines for the files.
pub open spec fn file_lines(fs: Seq<FileStatus>) -> Seq<Seq<char>> {
    Seq::new(fs.len(), |i: int| file_line(fs[i]))
}

/// `s` with spaces behind it up to a width, in characters.
pub open spec fn padded_right(s: Seq<char>, width: nat) -> Seq<char>
    decreases width - s.len(),
{
    if s.len() >= width {
        s
    } else {
        padded_right(s.push(' '), width)
    }
}

/// The value of a source, as the report shows it.
pub open spec fn shown_value(o: Origin) -> Seq<char> {
    match o.value {
        Some(v) => v,
        None => "(default)"@,
    }
}

/// The width of the column of keys, in bytes.
pub open spec fn key_width(s: Seq<(Seq<char>, Origin)>, n: nat) -> nat
    decreases n,
{
    if n == 0 {
        0
    } else {
        let before = key_width(s, (n - 1) as nat);
        let w = byte_len(shown_key(s[n - 1].0));
        if w > before {
            w
        } else {
            before
        }
    }
}

/// The width of the column of values, in bytes.
pub open spec fn value_width(s: Seq<(Seq<char>, Origin)>, n: nat) -> nat
    decreases n,
{
    if n == 0 {
        0
    } else {
        let before = value_width(s, (n - 1) as nat);
        let w = byte_len(shown_value(s[n - 1].1));
        if w > before {
            w
        } else {
            before
        }
    }
}

/// The line for a key.
pub open spec fn source_line(key: Seq<char>, o: Origin, kw: nat, vw: nat) -> Seq<char> {
    padded_right(shown_key(key), kw) + "  "@ + padded_right(shown_value(o), vw) + "  from "@ + o.from
        + "\n"@
}

/// The lines for the keys.
pub open spec fn source_lines(s: Seq<(Seq<char>, Origin)>) -> Seq<Seq<char>> {
    Seq::new(
        s.len(),
        |i: int|
            source_line(s[i].0, s[i].1, key_width(s, s.len()), value_width(s, s.len())),
    )
}

/// The lines for the flags.
pub open spec fn flag_lines(flags: Seq<Seq<char>>) -> Seq<Seq<char>> {
    Seq::new(flags.len(), |i: int| "  ! "@ + flags[i] + "\n"@)
}

/// The report: the files, the keys, then what is wrong.
pub open spec fn report_text(
    files: Seq<FileStatus>,
    sources: Seq<(Seq<char>, Origin)>,
    flags: Seq<Seq<char>>,
) -> Seq<char> {
    concat(file_lines(files)) + "\n"@ + concat(source_lines(sources)) + if flags.len() == 0 {
        "\nno problems found\n"@
    } else {
        "\nproblems:\n"@ + concat(flag_lines(flags))
    }
}

fn pad_right(s: String, width: u128) -> (r: String)
    ensures
        r@ == padded_right(s@, width as nat),
{
    let mut out = s;
    let mut len: u128 = out.as_str().unicode_len() as u128;
    while len < width
        invariant
            len == out@.len(),
            padded_right(out@, width as nat) == padded_right(s@, width as nat),
        decreases width - len,
    {
        out.push(' ');
        len = len + 1;
    }
    out
}

fn write_file_line(f: &FileStatus) -> (r: String)
    ensures
        r@ == file_line(*f),
{
    let mut line = f.path.clone();
    let tail = match f.trusted {
        Some(true) => if f.changed_since_trusted {
            "  loaded  trusted (but the file has changed since it was trusted)".to_owned()
        } else {
            "  loaded  trusted".to_owned()
        },
        Some(false) => "  loaded  not trusted".to_owned(),
        None => if same(f.state.as_str(), "ok") {
            "  loaded".to_owned()
        } else if same(f.state.as_str(), "missing") {
            "  not present".to_owned()
        } else {
            let mut s = "  ".to_owned();
            s.append(f.state.as_str());
            s
        },
    };
    line.append(tail.as_str());
    line.append("\n");
    line
}

fn value_shown(s: &Source) -> (r: String)
    ensures
        r@ == shown_value(s@),
{
    match &s.value {
        Some(v) => v.clone(),
        None => "(default)".to_owned(),
    }
}

/// Render the check as the command prints it.
pub fn render(check: &Check) -> (r: String)
    ensures
        r@ == report_text(check.files@, sources_view(check.sources@), views(check.flags@)),
{
    let mut out = String::new();
    let ghost fl = file_lines(check.files@);
    let mut i: usize = 0;
    assert(fl.take(0) =~= seq![]);
    while i < check.files.len()
        invariant
            i <= check.files@.len(),
            fl == file_lines(check.files@),
            out@ == concat(fl.take(i as int)),
        decreases check.files.len() - i,
    {
        let line = write_file_line(&check.files[i]);
        assert(line@ == fl[i as int]);
        assert(fl.take(i + 1) =~= fl.take(i as int).push(fl[i as int]));
        out.append(line.as_str());
        i = i + 1;
    }
    assert(fl.take(i as int) =~= fl);
    out.append("\n");
    let ghost top = out@;
    let ghost s = sources_view(check.sources@);
    let mut kw: u128 = 0;
    let mut vw: u128 = 0;
    let mut j: usize = 0;
    while j < check.sources.len()
        invariant
            j <= check.sources@.len(),
            s == sources_view(check.sources@),
            kw == key_width(s, j as nat),
            vw == value_width(s, j as nat),
        decreases check.sources.len() - j,
    {
        assert(s[j as int] == (check.sources@[j as int].0@, check.sources@[j as int].1@));
        let k = display_key(check.sources[j].0.as_str());
        let n = utf8_len(k.as_str());
        if n > kw {
            kw = n;
        }
        let v = value_shown(&check.sources[j].1);
        let n = utf8_len(v.as_str());
        if n > vw {
            vw = n;
        }
        j = j + 1;
    }
    let ghost sl = source_lines(s);
    let mut j: usize = 0;
    assert(sl.take(0) =~= seq![]);
    assert(out@ =~= top + concat(sl.take(0)));
    while j < check.sources.len()
        invariant
            j <= check.sources@.len(),
            s == sources_view(check.sources@),
            sl == source_lines(s),
            kw == key_width(s, s.len()),
            vw == value_width(s, s.len()),
            out@ == top + concat(sl.take(j as int)),
        decreases check.sources.len() - j,
    {
        assert(s[j as int] == (check.sources@[j as int].0@, check.sources@[j as int].1@));
        let k = display_key(check.sources[j].0.as_str());
        let mut line = pad_right(k, kw);
        line.append("  ");
        let v = value_shown(&check.sources[j].1);
        let v = pad_right(v, vw);
        line.append(v.as_str());
        line.append("  from ");
        line.append(check.sources[j].1.from.as_str());
        line.append("\n");
        assert(line@ == sl[j as int]);
        assert(sl.take(j + 1) =~= sl.take(j as int).push(sl[j as int]));
        out.append(line.as_str());
        assert(out@ =~= top + concat(sl.take(j + 1)));
        j = j + 1;
    }
    assert(sl.take(j as int) =~= sl);
    let ghost head = out@;
    if check.flags.len() == 0 {
        out.append("\nno problems found\n");
        return out;
    }
    let mut tail = "\nproblems:\n".to_owned();
    let ghost gl = flag_lines(views(check.flags@));
    let mut k: usize = 0;
    assert(gl.take(0) =~= seq![]);
    assert(tail@ =~= "\nproblems:\n"@ + concat(gl.take(0)));
    while k < check.flags.len()
        invariant
            k <= check.flags@.len(),
            gl == flag_lines(views(check.flags@)),
            tail@ == "\nproblems:\n"@ + concat(gl.take(k as int)),
        decreases check.flags.len() - k,
    {
        let mut line = "  ! ".to_owned();
        line.append(check.flags[k].as_str());
        line.append("\n");
        assert(line@ == gl[k as int]);
        assert(gl.take(k + 1) =~= gl.take(k as int).push(gl[k as int]));
        tail.append(line.as_str());
        assert(tail@ =~= "\nproblems:\n"@ + concat(gl.take(k + 1)));
        k = k + 1;
    }
    assert(gl.take(k as int) =~= gl);
    out.append(tail.as_str());
    out
}

/// A file, as JSON.
pub open spec fn file_tree(f: FileStatus) -> Tree {
    let base = seq![("path"@, Tree::Text(f.path@)), ("state"@, Tree::Text(f.state@))];
    Tree::Object(
        match f.trusted {
            Some(t) => base.push(("trusted"@, Tree::Bool(t))).push(
                ("changed_since_trusted"@, Tree::Bool(f.changed_since_trusted)),
            ),
            None => base,
        },
    )
}

/// A key, as JSON.
pub open spec fn source_tree(key: Seq<char>, o: Origin) -> Tree {
    Tree::Object(
        seq![
            ("key"@, Tree::Text(shown_key(key))),
            ("from"@, Tree::Text(o.from)),
            (
                "value"@,
                match o.value {
                    Some(v) => Tree::Text(v),
                    None => Tree::Null,
                },
            ),
        ],
    )
}

/// The check, as JSON.
pub open spec fn check_tree(
    files: Seq<FileStatus>,
    sources: Seq<(Seq<char>, Origin)>,
    flags: Seq<Seq<char>>,
) -> Tree {
    Tree::Object(
        seq![
            ("files"@, Tree::List(Seq::new(files.len(), |i: int| file_tree(files[i])))),
            (
                "sources"@,
                Tree::List(
                    Seq::new(sources.len(), |i: int| source_tree(sources[i].0, sources[i].1)),
                ),
            ),
            ("flags"@, Tree::List(Seq::new(flags.len(), |i: int| Tree::Text(flags[i])))),
        ],
    )
}

fn file_json(f: &FileStatus) -> (r: Json)
    ensures
        r@ == file_tree(*f),
{
    let mut o: Vec<(String, Json)> = Vec::new();
    o.push(("path".to_owned(), Json::text(f.path.as_str())));
    o.push(("state".to_owned(), Json::text(f.state.as_str())));
    if let Some(t) = f.trusted {
        o.push(("trusted".to_owned(), Json::Bool(t)));
        o.push(("changed_since_trusted".to_owned(), Json::Bool(f.changed_since_trusted)));
    }
    assert(fields(o@) =~= file_tree(*f)->Object_0);
    Json::Object(o)
}

fn source_json(key: &str, s: &Source) -> (r: Json)
    ensures
        r@ == source_tree(key@, s@),
{
    let k = display_key(key);
    let mut o: Vec<(String, Json)> = Vec::new();
    o.push(("key".to_owned(), Json::text(k.as_str())));
    o.push(("from".to_owned(), Json::text(s.from.as_str())));
    o.push(
        (
            "value".to_owned(),
            match &s.value {
                Some(v) => Json::text(v.as_str()),
                None => Json::Null,
            },
        ),
    );
    assert(fields(o@) =~= source_tree(key@, s@)->Object_0);
    Json::Object(o)
}

/// The check, as a value.
pub fn check_json(check: &Check) -> (r: Json)
    ensures
        r@ == check_tree(check.files@, sources_view(check.sources@), views(check.flags@)),
{
    let mut files: Vec<Json> = Vec::new();
    let ghost all = Seq::new(check.files@.len(), |i: int| file_tree(check.files@[i]));
    let mut i: usize = 0;
    while i < check.files.len()
        invariant
            i <= check.files@.len(),
            all == Seq::new(check.files@.len(), |i: int| file_tree(check.files@[i])),
            trees(files@) == all.take(i as int),
        decreases check.files.len() - i,
    {
        let ghost before = trees(files@);
        files.push(file_json(&check.files[i]));
        assert(trees(files@) =~= before.push(all[i as int]));
        i = i + 1;
        assert(trees(files@) =~= all.take(i as int));
    }
    assert(trees(files@) =~= all);
    let mut sources: Vec<Json> = Vec::new();
    let ghost s = sources_view(check.sources@);
    let ghost sall = Seq::new(s.len(), |i: int| source_tree(s[i].0, s[i].1));
    let mut i: usize = 0;
    while i < check.sources.len()
        invariant
            i <= check.sources@.len(),
            s == sources_view(check.sources@),
            sall == Seq::new(s.len(), |i: int| source_tree(s[i].0, s[i].1)),
            trees(sources@) == sall.take(i as int),
        decreases check.sources.len() - i,
    {
        let ghost before = trees(sources@);
        assert(s[i as int] == (check.sources@[i as int].0@, check.sources@[i as int].1@));
        sources.push(source_json(check.sources[i].0.as_str(), &check.sources[i].1));
        assert(trees(sources@) =~= before.push(sall[i as int]));
        i = i + 1;
        assert(trees(sources@) =~= sall.take(i as int));
    }
    assert(trees(sources@) =~= sall);
    let mut flags: Vec<Json> = Vec::new();
    let ghost f = views(check.flags@);
    let ghost fall = Seq::new(f.len(), |i: int| Tree::Text(f[i]));
    let mut i: usize = 0;
    while i < check.flags.len()
        invariant
            i <= check.flags@.len(),
            f == views(check.flags@),
            fall == Seq::new(f.len(), |i: int| Tree::Text(f[i])),
            trees(flags@) == fall.take(i as int),
        decreases check.flags.len() - i,
    {
        let ghost before = trees(flags@);
        flags.push(Json::text(check.flags[i].as_str()));
        assert(trees(flags@) =~= before.push(fall[i as int]));
        i = i + 1;
        assert(trees(flags@) =~= fall.take(i as int));
    }
    assert(trees(flags@) =~= fall);
    let mut o: Vec<(String, Json)> = Vec::new();
    o.push(("files".to_owned(), Json::List(files)));
    o.push(("sources".to_owned(), Json::List(sources)));
    o.push(("flags".to_owned(), Json::List(flags)));
    assert(fields(o@) =~= check_tree(check.files@, s, f)->Object_0);
    Json::Object(o)
}

/// The check as JSON, for scripts.
pub fn render_json(check: &Check) -> (r: String)
    ensures
        r@ == json_pretty(
            check_tree(check.files@, sources_view(check.sources@), views(check.flags@)),
        ),
{
    check_json(check).pretty()
}

// ---- laws -------------------------------------------------------------------

/// Is a document's every key a name that a path can hold: not empty, without the mark
/// that joins the parts, and not twice in its table?
pub open spec fn plain_keys(t: TomlTree) -> bool
    decreases t,
{
    match t {
        TomlTree::Table(e) => {
            &&& forall|i: int|
                0 <= i < e.len() ==> (#[trigger] e[i]).0.len() > 0 && !e[i].0.contains('>')
                    && plain_keys(e[i].1)
            &&& forall|i: int, j: int|
                0 <= i < j < e.len() ==> (#[trigger] e[i]).0 != (#[trigger] e[j]).0
        },
        _ => true,
    }
}

/// Does every writer stand in the document at its path?
pub open spec fn all_found(w: Seq<(Seq<char>, (Seq<char>, TomlTree))>, t: TomlTree) -> bool {
    forall|i: int| 0 <= i < w.len() ==> at_path(t, (#[trigger] w[i]).0) == Some(w[i].1.1)
}

/// Looking a path up undoes flattening: what a file sets is found in it again at the
/// path under which it is listed.
pub proof fn a_path_leads_back(t: TomlTree, from: Seq<char>)
    requires
        plain_keys(t),
    ensures
        all_found(collected(t, seq![], from, seq![]), t),
{
    lemma_collected(t, t, seq![], from, seq![]);
}

proof fn lemma_split_plain(s: Seq<char>)
    requires
        !s.contains('>'),
    ensures
        split(s, '>') == seq![s],
{
    let p = crate::text::is_char('>');
    assert forall|i: int| 0 <= i < s.len() implies !p(s[i]) by {
        if p(s[i]) {
            assert(s.contains('>'));
        }
    }
    crate::text::lemma_index_where_unique(s, p, s.len());
}

proof fn lemma_split_push(s: Seq<char>, k: Seq<char>)
    requires
        !k.contains('>'),
    ensures
        split(s + ">"@ + k, '>') == split(s, '>').push(k),
    decreases s.len(),
{
    reveal_strlit(">");
    let p = crate::text::is_char('>');
    let t = s + ">"@ + k;
    let n = crate::text::index_where(s, p);
    crate::text::lemma_index_where(s, p);
    assert forall|i: int| 0 <= i < n implies !p(t[i]) by {
        assert(t[i] == s[i]);
    }
    if n < s.len() {
        assert(t[n as int] == s[n as int]);
        crate::text::lemma_index_where_unique(t, p, n);
        assert(t.take(n as int) =~= s.take(n as int));
        assert(t.skip(n as int + 1) =~= s.skip(n as int + 1) + ">"@ + k);
        lemma_split_push(s.skip(n as int + 1), k);
        assert(split(t, '>') =~= split(s, '>').push(k));
    } else {
        assert(t[n as int] == '>');
        crate::text::lemma_index_where_unique(t, p, n);
        assert(t.take(n as int) =~= s);
        assert(t.skip(n as int + 1) =~= k);
        lemma_split_plain(k);
        assert(split(t, '>') =~= split(s, '>').push(k));
    }
}

proof fn lemma_at_parts_push(t: TomlTree, parts: Seq<Seq<char>>, k: Seq<char>, i: int)
    requires
        0 <= i <= parts.len(),
    ensures
        at_parts(t, parts.push(k), i) == match at_parts(t, parts, i) {
            Some(x) => held(x, k),
            None => None,
        },
    decreases parts.len() - i,
{
    let q = parts.push(k);
    if i < parts.len() {
        assert(q[i] == parts[i]);
        if let Some(x) = held(t, parts[i]) {
            lemma_at_parts_push(x, parts, k, i + 1);
        }
    } else {
        assert(q[i] == k);
        match held(t, k) {
            Some(x) => {
                assert(at_parts(x, q, i + 1) == Some(x));
            },
            None => {},
        }
    }
}

proof fn lemma_entry_at(e: Seq<(Seq<char>, TomlTree)>, i: int)
    requires
        0 <= i < e.len(),
        forall|a: int, b: int| 0 <= a < b < e.len() ==> (#[trigger] e[a]).0 != (#[trigger] e[b]).0,
    ensures
        entry(e, e[i].0) == Some(e[i].1),
    decreases i,
{
    if i > 0 {
        assert(e[0].0 != e[i].0);
        let t = e.drop_first();
        assert forall|a: int, b: int| 0 <= a < b < t.len() implies (#[trigger] t[a]).0 != (
        #[trigger] t[b]).0 by {
            assert(e[a + 1].0 != e[b + 1].0);
        }
        lemma_entry_at(t, i - 1);
    }
}

proof fn lemma_put_found(
    w: Seq<(Seq<char>, (Seq<char>, TomlTree))>,
    key: Seq<char>,
    value: (Seq<char>, TomlTree),
    t: TomlTree,
)
    requires
        all_found(w, t),
        at_path(t, key) == Some(value.1),
    ensures
        all_found(put_pair(w, key, value), t),
{
    lemma_put_members(w, key, value);
    let r = put_pair(w, key, value);
    assert forall|i: int| 0 <= i < r.len() implies at_path(t, (#[trigger] r[i]).0) == Some(
        r[i].1.1,
    ) by {
        if r[i] != (key, value) {
            let j = choose|j: int| 0 <= j < w.len() && w[j] == r[i];
            assert(at_path(t, w[j].0) == Some(w[j].1.1));
        }
    }
}

proof fn lemma_collected(
    root: TomlTree,
    t: TomlTree,
    prefix: Seq<char>,
    from: Seq<char>,
    w: Seq<(Seq<char>, (Seq<char>, TomlTree))>,
)
    requires
        all_found(w, root),
        plain_keys(t),
        prefix.len() == 0 ==> t == root,
        prefix.len() > 0 ==> at_path(root, prefix) == Some(t),
    ensures
        all_found(collected(t, prefix, from, w), root),
    decreases t, 0nat,
{
    if let TomlTree::Table(e) = t {
        lemma_collected_entries(root, t, e, prefix, from, w, e.len());
    }
}

proof fn lemma_collected_entries(
    root: TomlTree,
    t: TomlTree,
    e: Seq<(Seq<char>, TomlTree)>,
    prefix: Seq<char>,
    from: Seq<char>,
    w: Seq<(Seq<char>, (Seq<char>, TomlTree))>,
    n: nat,
)
    requires
        t == TomlTree::Table(e),
        n <= e.len(),
        all_found(w, root),
        plain_keys(t),
        prefix.len() == 0 ==> t == root,
        prefix.len() > 0 ==> at_path(root, prefix) == Some(t),
    ensures
        all_found(collected_entries(e, prefix, from, w, n), root),
    decreases e, n,
{
    if n > 0 {
        lemma_collected_entries(root, t, e, prefix, from, w, (n - 1) as nat);
        let k = e[n - 1].0;
        let v = e[n - 1].1;
        assert(t->Table_0[n - 1] == e[n - 1]);
        assert(k.len() > 0 && !k.contains('>') && plain_keys(v));
        lemma_entry_at(e, n - 1);
        let key = path_to(prefix, k);
        if prefix.len() == 0 {
            lemma_split_plain(k);
            assert(split(k, '>') =~= seq![k]);
            assert(at_parts(root, seq![k], 0) == at_parts(v, seq![k], 1));
        } else {
            lemma_split_push(prefix, k);
            lemma_at_parts_push(root, split(prefix, '>'), k, 0);
        }
        assert(at_path(root, key) == Some(v));
        let before = collected_entries(e, prefix, from, w, (n - 1) as nat);
        if v is Table {
            assert(key.len() > 0);
            lemma_collected(root, v, key, from, before);
        } else {
            lemma_put_found(before, key, (from, v), root);
        }
    }
}

/// A file that alone is applied, and whose every value the effective configuration has,
/// raises no flag.
pub proof fn nothing_lost_means_no_flag(w: Seq<(Seq<char>, (Seq<char>, TomlTree))>, merged: TomlTree, n: nat)
    requires
        n <= w.len(),
        all_found(w, merged),
    ensures
        merge_flags(w, merged, n).len() == 0,
    decreases n,
{
    if n > 0 {
        nothing_lost_means_no_flag(w, merged, (n - 1) as nat);
        assert(at_path(merged, w[n - 1].0) == Some(w[n - 1].1.1));
    }
}

// ---- which file counts ------------------------------------------------------

/// Is a value that of the second where the second has one, and else that of the first?
pub open spec fn second_wins<T>(
    first: Seq<(Seq<char>, T)>,
    second: Seq<(Seq<char>, T)>,
    both: Seq<(Seq<char>, T)>,
) -> bool {
    forall|k: Seq<char>|
        #[trigger] value_of(both, k) == if value_of(second, k) is Some {
            value_of(second, k)
        } else {
            value_of(first, k)
        }
}

/// Do all the values come from one file?
pub open spec fn all_from(w: Seq<(Seq<char>, (Seq<char>, TomlTree))>, from: Seq<char>) -> bool {
    forall|k: Seq<char>| #[trigger] value_of(w, k) matches Some(v) ==> v.0 == from
}

proof fn lemma_collected_over(
    t: TomlTree,
    prefix: Seq<char>,
    from: Seq<char>,
    w: Seq<(Seq<char>, (Seq<char>, TomlTree))>,
)
    requires
        in_order(w),
    ensures
        in_order(collected(t, prefix, from, w)),
        in_order(collected(t, prefix, from, seq![])),
        second_wins(w, collected(t, prefix, from, seq![]), collected(t, prefix, from, w)),
        all_from(collected(t, prefix, from, seq![]), from),
    decreases t, 0nat,
{
    let none = Seq::<(Seq<char>, (Seq<char>, TomlTree))>::empty();
    assert(forall|k: Seq<char>| #[trigger] value_of(none, k) is None);
    if let TomlTree::Table(e) = t {
        lemma_collected_entries_over(t, e, prefix, from, w, e.len());
    }
}

proof fn lemma_collected_entries_over(
    t: TomlTree,
    e: Seq<(Seq<char>, TomlTree)>,
    prefix: Seq<char>,
    from: Seq<char>,
    w: Seq<(Seq<char>, (Seq<char>, TomlTree))>,
    n: nat,
)
    requires
        in_order(w),
        n <= e.len(),
        t == TomlTree::Table(e),
    ensures
        in_order(collected_entries(e, prefix, from, w, n)),
        in_order(collected_entries(e, prefix, from, seq![], n)),
        second_wins(
            w,
            collected_entries(e, prefix, from, seq![], n),
            collected_entries(e, prefix, from, w, n),
        ),
        all_from(collected_entries(e, prefix, from, seq![], n), from),
    decreases e, n,
{
    let none = Seq::<(Seq<char>, (Seq<char>, TomlTree))>::empty();
    assert(forall|k: Seq<char>| #[trigger] value_of(none, k) is None);
    if n > 0 {
        lemma_collected_entries_over(t, e, prefix, from, w, (n - 1) as nat);
        let a = collected_entries(e, prefix, from, w, (n - 1) as nat);
        let c = collected_entries(e, prefix, from, none, (n - 1) as nat);
        let b = collected_entries(e, prefix, from, w, n);
        let d = collected_entries(e, prefix, from, none, n);
        let key = path_to(prefix, e[n - 1].0);
        let v = e[n - 1].1;
        if v is Table {
            lemma_collected_over(v, key, from, a);
            lemma_collected_over(v, key, from, c);
            let x = collected(v, key, from, none);
            assert forall|k: Seq<char>| #[trigger] value_of(b, k) == if value_of(d, k) is Some {
                value_of(d, k)
            } else {
                value_of(w, k)
            } by {
                assert(value_of(b, k) == if value_of(x, k) is Some {
                    value_of(x, k)
                } else {
                    value_of(a, k)
                });
                assert(value_of(d, k) == if value_of(x, k) is Some {
                    value_of(x, k)
                } else {
                    value_of(c, k)
                });
                assert(value_of(a, k) == if value_of(c, k) is Some {
                    value_of(c, k)
                } else {
                    value_of(w, k)
                });
            }
            assert forall|k: Seq<char>| #[trigger] value_of(d, k) matches Some(y) ==> y.0 == from by {
                assert(value_of(d, k) == if value_of(x, k) is Some {
                    value_of(x, k)
                } else {
                    value_of(c, k)
                });
            }
        } else {
            putting_changes_one_key(a, key, (from, v), key);
            putting_changes_one_key(c, key, (from, v), key);
            assert forall|k: Seq<char>| #[trigger] value_of(b, k) == if value_of(d, k) is Some {
                value_of(d, k)
            } else {
                value_of(w, k)
            } by {
                putting_changes_one_key(a, key, (from, v), k);
                putting_changes_one_key(c, key, (from, v), k);
                assert(value_of(a, k) == if value_of(c, k) is Some {
                    value_of(c, k)
                } else {
                    value_of(w, k)
                });
            }
            assert forall|k: Seq<char>| #[trigger] value_of(d, k) matches Some(y) ==> y.0 == from by {
                putting_changes_one_key(c, key, (from, v), k);
            }
        }
    }
}

/// The last file that sets a key is the one that is named for it, with the value that it
/// sets; a file that does not set it changes nothing.
pub proof fn the_last_file_to_set_a_key_counts(files: Seq<(String, Toml)>, n: nat, key: Seq<char>)
    requires
        0 < n <= files.len(),
    ensures
        ({
            let set = value_of(
                collected(files[n - 1].1@, seq![], files[n - 1].0@, seq![]),
                key,
            );
            let before = value_of(all_collected(files, (n - 1) as nat), key);
            let after = value_of(all_collected(files, n), key);
            &&& set is Some ==> after == set && (after matches Some(x) && x.0 == files[n - 1].0@)
            &&& set is None ==> after == before
            &&& in_order(all_collected(files, n))
        }),
{
    lemma_all_in_order(files, (n - 1) as nat);
    let w = all_collected(files, (n - 1) as nat);
    let t = files[n - 1].1@;
    let from = files[n - 1].0@;
    lemma_collected_over(t, seq![], from, w);
    assert(second_wins(
        w,
        collected(t, seq![], from, seq![]),
        collected(t, seq![], from, w),
    ));
    assert(value_of(collected(t, seq![], from, w), key) == value_of(all_collected(files, n), key));
    assert(all_from(collected(t, seq![], from, seq![]), from));
}

proof fn lemma_all_in_order(files: Seq<(String, Toml)>, n: nat)
    requires
        n <= files.len(),
    ensures
        in_order(all_collected(files, n)),
    decreases n,
{
    if n > 0 {
        lemma_all_in_order(files, (n - 1) as nat);
        lemma_collected_over(
            files[n - 1].1@,
            seq![],
            files[n - 1].0@,
            all_collected(files, (n - 1) as nat),
        );
    }
}

/// Each setting that a file holds is written down under its path, once, with its value.
pub proof fn every_setting_of_a_file_is_written_down(
    e: Seq<(Seq<char>, TomlTree)>,
    from: Seq<char>,
    i: int,
)
    requires
        0 <= i < e.len(),
        !(e[i].1 is Table),
        forall|j: int| i < j < e.len() ==> !((#[trigger] e[j]).1 is Table) && e[j].0 != e[i].0,
    ensures
        value_of(collected(TomlTree::Table(e), seq![], from, seq![]), e[i].0) == Some(
            (from, e[i].1),
        ),
{
    lemma_setting_written(e, from, i, e.len());
}

proof fn lemma_setting_written(
    e: Seq<(Seq<char>, TomlTree)>,
    from: Seq<char>,
    i: int,
    n: nat,
)
    requires
        0 <= i < n <= e.len(),
        !(e[i].1 is Table),
        forall|j: int| i < j < e.len() ==> !((#[trigger] e[j]).1 is Table) && e[j].0 != e[i].0,
    ensures
        value_of(collected_entries(e, seq![], from, seq![], n), e[i].0) == Some((from, e[i].1)),
    decreases n,
{
    let none = Seq::<(Seq<char>, (Seq<char>, TomlTree))>::empty();
    let before = collected_entries(e, seq![], from, none, (n - 1) as nat);
    lemma_collected_entries_over(TomlTree::Table(e), e, seq![], from, none, (n - 1) as nat);
    putting_changes_one_key(before, e[n - 1].0, (from, e[n - 1].1), e[i].0);
    if n - 1 > i {
        lemma_setting_written(e, from, i, (n - 1) as nat);
        assert(!(e[n - 1].1 is Table) && e[n - 1].0 != e[i].0);
    }
}

/// What is told of a key that a file sets is the file and its value; a default is told only
/// of a key that no file sets.
pub proof fn a_default_hides_no_file(
    t: TomlTree,
    prefix: Seq<char>,
    w: Seq<(Seq<char>, (Seq<char>, TomlTree))>,
    s: Seq<(Seq<char>, Origin)>,
    key: Seq<char>,
)
    requires
        in_order(s),
        has_key(w, key),
    ensures
        in_order(filled(t, prefix, w, s)),
        value_of(filled(t, prefix, w, s), key) == value_of(s, key),
    decreases t, 0nat,
{
    if let TomlTree::Table(e) = t {
        lemma_filled_entries(t, e, prefix, w, s, e.len(), key);
    }
}

proof fn lemma_filled_entries(
    t: TomlTree,
    e: Seq<(Seq<char>, TomlTree)>,
    prefix: Seq<char>,
    w: Seq<(Seq<char>, (Seq<char>, TomlTree))>,
    s: Seq<(Seq<char>, Origin)>,
    n: nat,
    key: Seq<char>,
)
    requires
        in_order(s),
        has_key(w, key),
        n <= e.len(),
        t == TomlTree::Table(e),
    ensures
        in_order(filled_entries(e, prefix, w, s, n)),
        value_of(filled_entries(e, prefix, w, s, n), key) == value_of(s, key),
    decreases e, n,
{
    if n > 0 {
        lemma_filled_entries(t, e, prefix, w, s, (n - 1) as nat, key);
        let before = filled_entries(e, prefix, w, s, (n - 1) as nat);
        let k = path_to(prefix, e[n - 1].0);
        let v = e[n - 1].1;
        if v is Table {
            a_default_hides_no_file(v, k, w, before, key);
        } else if !has_key(w, k) {
            putting_changes_one_key(
                before,
                k,
                Origin { from: "default"@, value: Some(scalar_text(v)) },
                key,
            );
        }
    }
}

/// Of each key that a file sets, the source that is told is that file, with the value that
/// it sets.
pub proof fn a_source_tells_its_file(w: Seq<(Seq<char>, (Seq<char>, TomlTree))>, n: nat, i: int)
    requires
        in_order(w),
        0 <= i < n <= w.len(),
    ensures
        in_order(written_sources(w, n)),
        value_of(written_sources(w, n), w[i].0) == Some(
            Origin { from: w[i].1.0, value: Some(scalar_text(w[i].1.1)) },
        ),
    decreases n,
{
    lemma_written_in_order(w, (n - 1) as nat);
    let before = written_sources(w, (n - 1) as nat);
    let x = Origin { from: w[n - 1].1.0, value: Some(scalar_text(w[n - 1].1.1)) };
    putting_changes_one_key(before, w[n - 1].0, x, w[i].0);
    if i < n - 1 {
        a_source_tells_its_file(w, (n - 1) as nat, i);
        assert(w[i].0 != w[n - 1].0);
    }
}

proof fn lemma_written_in_order(w: Seq<(Seq<char>, (Seq<char>, TomlTree))>, n: nat)
    requires
        n <= w.len(),
    ensures
        in_order(written_sources(w, n)),
    decreases n,
{
    if n > 0 {
        lemma_written_in_order(w, (n - 1) as nat);
        putting_changes_one_key(
            written_sources(w, (n - 1) as nat),
            w[n - 1].0,
            Origin { from: w[n - 1].1.0, value: Some(scalar_text(w[n - 1].1.1)) },
            seq![],
        );
    }
}

// ---- what is flagged --------------------------------------------------------

/// A setting is flagged just where the merged configuration does not hold its value, and
/// the flag names the key and the file.
pub proof fn a_lost_setting_is_flagged(
    w: Seq<(Seq<char>, (Seq<char>, TomlTree))>,
    merged: TomlTree,
    n: nat,
)
    requires
        0 < n <= w.len(),
    ensures
        ({
            let before = merge_flags(w, merged, (n - 1) as nat);
            let kept = at_path(merged, w[n - 1].0) == Some(w[n - 1].1.1);
            &&& kept ==> merge_flags(w, merged, n) == before
            &&& !kept ==> merge_flags(w, merged, n).len() == before.len() + 1 && merge_flags(
                w,
                merged,
                n,
            ).drop_last() == before && crate::text::contains(
                merge_flags(w, merged, n).last(),
                w[n - 1].0,
            ) && crate::text::contains(merge_flags(w, merged, n).last(), w[n - 1].1.0)
        }),
{
    let key = w[n - 1].0;
    let file = w[n - 1].1.0;
    if let Some(f) = merge_flag(key, file, w[n - 1].1.1, merged) {
        let before = merge_flags(w, merged, (n - 1) as nat);
        assert(before.push(f).drop_last() =~= before);
        let a = "`"@.len() as int;
        assert(f.subrange(a, a + key.len()) =~= key);
        assert(crate::text::occurs_at(f, key, a));
        let b = ("`"@ + key + "` is set in "@).len() as int;
        assert(f.subrange(b, b + file.len()) =~= file);
        assert(crate::text::occurs_at(f, file, b));
    }
}

/// A model whose provider is named is flagged just where that provider is not configured;
/// one without a provider never is.
pub proof fn a_model_without_its_provider_is_flagged(
    s: Settings,
    provider: Seq<char>,
    model: Seq<char>,
)
    ensures
        s.model is None ==> model_flag(s) is None,
        (s.model matches Some(m) && m@ == provider + seq!['/'] + model && !provider.contains('/'))
            ==> (model_flag(s) is Some <==> crate::config::absent(s.providers, provider)),
        (s.model matches Some(m) && m@ == provider + seq!['/'] + model && !provider.contains('/')
            && crate::config::absent(s.providers, provider)) ==> crate::text::contains(
            model_flag(s)->0,
            provider,
        ),
        (s.model matches Some(m) && !m@.contains('/')) ==> model_flag(s) is None,
{
    if let Some(m) = s.model {
        if m@ == provider + seq!['/'] + model && !provider.contains('/') {
            crate::wording::a_cut_gives_the_parts_back(provider, '/', model);
            crate::config::a_lookup_finds_the_first(s.providers, provider, 0);
            if entry_of(s.providers, provider) is None {
                assert(crate::config::absent(s.providers, provider)) by {
                    crate::config::lemma_key_index(s.providers, provider);
                }
                let f = model_flag(s)->0;
                let a = ("`model` is `"@ + m@ + "`, but provider `"@).len() as int;
                assert(f.subrange(a, a + provider.len()) =~= provider);
                assert(crate::text::occurs_at(f, provider, a));
            }
        }
        if !m@.contains('/') {
            crate::wording::one_cut_is_at_the_first(m@, '/');
            if let Some((a, b)) = split_once(m@, '/') {
                assert(m@[a.len() as int] == '/');
            }
            if s.providers.len() == 1 {
                crate::config::a_lookup_finds_the_first(s.providers, s.providers[0].0@, 0);
            }
        }
    }
}

/// A provider is flagged for its key just where it names a variable that is not exported.
pub proof fn a_missing_key_is_flagged(
    providers: Seq<(String, ProviderConfig)>,
    exported: Seq<Seq<char>>,
    n: nat,
)
    requires
        0 < n <= providers.len(),
    ensures
        ({
            let before = key_flags(providers, exported, (n - 1) as nat);
            let after = key_flags(providers, exported, n);
            let missing = providers[n - 1].1.api_key_env matches Some(v) && !exported.contains(v@);
            &&& !missing ==> after == before
            &&& missing ==> after.len() == before.len() + 1 && after.drop_last() == before
                && crate::text::contains(after.last(), providers[n - 1].0@)
                && crate::text::contains(after.last(), providers[n - 1].1.api_key_env->0@)
        }),
{
    if let Some(var) = providers[n - 1].1.api_key_env {
        if !exported.contains(var@) {
            let before = key_flags(providers, exported, (n - 1) as nat);
            let name = providers[n - 1].0@;
            let f = key_flags(providers, exported, n).last();
            assert(key_flags(providers, exported, n) == before.push(f));
            assert(before.push(f).drop_last() =~= before);
            let a = "provider `"@.len() as int;
            assert(f.subrange(a, a + name.len()) =~= name);
            assert(crate::text::occurs_at(f, name, a));
            let b = ("provider `"@ + name + "`: `api-key-env` names `"@).len() as int;
            assert(f.subrange(b, b + var@.len()) =~= var@);
            assert(crate::text::occurs_at(f, var@, b));
        }
    }
}

/// The report tells every flag.
pub proof fn the_report_tells_every_flag(
    files: Seq<FileStatus>,
    sources: Seq<(Seq<char>, Origin)>,
    flags: Seq<Seq<char>>,
    i: int,
)
    requires
        0 <= i < flags.len(),
    ensures
        crate::text::contains(
            report_text(files, sources, flags),
            "  ! "@ + flags[i] + "\n"@,
        ),
{
    let a = concat(file_lines(files)) + "\n"@ + concat(source_lines(sources));
    let x = flag_lines(flags)[i];
    let c = concat(flag_lines(flags));
    let h = "\nproblems:\n"@;
    crate::wording::a_list_put_together_holds_each(flag_lines(flags), i);
    crate::wording::standing_in_a_part_is_standing_in_the_whole(a + h, c, seq![], x);
    assert(report_text(files, sources, flags) =~= a + h + c + Seq::<char>::empty());
}

} // verus!
