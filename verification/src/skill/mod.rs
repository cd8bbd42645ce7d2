//! Skills: markdown instruction packs that the model can pull in on demand.
//!
//! Only name and description reach the prompt; the body arrives when the model asks for
//! it, and a map of the reference files with it, from which single sections can be
//! fetched.
use vstd::prelude::*;
use vstd::string::*;

use crate::list::{concat, group_lists, views};
use crate::paths::{
    display_rel, extension, extension_of, file_name, join_path, joined_path, parent, path_name,
    path_parent, relative_to,
};
use crate::text::{
    begins, byte_len, chars_of, contains, dec, decimal, ends, ends_with, has_text, lowercase, opt_view,
    same, starts_with, trim, trimmed, utf8_len,
};

pub mod catalog;
pub mod frontmatter;
pub mod outline;

pub use crate::skill::catalog::SkillCatalog;
pub use crate::skill::frontmatter::{parse_frontmatter, strip_frontmatter};
pub use crate::skill::outline::{headings, normalize_heading, section_slice};

use crate::ranking::ranked;
use crate::skill::catalog::{all_below, by_text, paths_below, sort_names};
use crate::skill::frontmatter::{body_of, fields, frontmatter};
use crate::skill::outline::{headings_of, outline, plain_heading, section_of};

verus! {

broadcast use group_lists;

/// The longest name of a skill, in characters.
pub const MAX_NAME: usize = 64;

/// The longest description of a skill, in characters.
pub const MAX_DESCRIPTION: usize = 1024;

/// The cap on the whole catalog. Descriptions ride in the prompt on every turn.
pub const MAX_CATALOG_CHARS: usize = 4_000;

/// The cap on the map of a skill, which stays in the prompt for the rest of a session.
pub const MAX_MAP_CHARS: usize = 2_048;

/// One discovered skill.
#[derive(Debug, Clone, PartialEq, Eq)]
pub struct Skill {
    pub name: String,
    pub description: String,
    /// The skill's directory; `references/` and the like are found in it.
    pub dir: String,
    /// The `SKILL.md` itself.
    pub path: String,
    pub allowed_tools: Option<String>,
}

/// What a skill says.
pub struct Pack {
    pub name: Seq<char>,
    pub description: Seq<char>,
    pub dir: Seq<char>,
    pub path: Seq<char>,
    pub allowed_tools: Option<Seq<char>>,
}

impl View for Skill {
    type V = Pack;

    open spec fn view(&self) -> Pack {
        Pack {
            name: self.name@,
            description: self.description@,
            dir: self.dir@,
            path: self.path@,
            allowed_tools: opt_view(self.allowed_tools),
        }
    }
}

/// What a list of skills says.
pub open spec fn packs(v: Seq<Skill>) -> Seq<Pack> {
    v.map_values(|s: Skill| s@)
}

// ---- reading a skill --------------------------------------------------------

/// May a name hold this character?
pub open spec fn name_char(c: char) -> bool {
    ('a' <= c && c <= 'z') || ('0' <= c && c <= '9') || c == '-'
}

/// What is wrong with a name.
pub open spec fn name_problem(name: Seq<char>) -> Option<Seq<char>> {
    if name.len() == 0 || name.len() > MAX_NAME {
        Some("`name` must be 1..=64 characters"@)
    } else if contains(name, "--"@) || starts_with(name, "-"@) || ends_with(name, "-"@) {
        Some("`name` cannot start or end with `-`, or contain `--`"@)
    } else if exists|i: int| 0 <= i < name.len() && !name_char(#[trigger] name[i]) {
        Some("`name` must be lowercase letters, digits, and hyphens"@)
    } else {
        None
    }
}

/// Check a skill's name.
pub fn validate_name(name: &str) -> (r: Result<(), String>)
    ensures
        match r {
            Ok(_) => name_problem(name@) is None,
            Err(e) => name_problem(name@) == Some(e@),
        },
{
    let v = chars_of(name);
    if v.len() == 0 || v.len() > MAX_NAME {
        return Err("`name` must be 1..=64 characters".to_owned());
    }
    if has_text(name, "--") || begins(name, "-") || ends(name, "-") {
        return Err("`name` cannot start or end with `-`, or contain `--`".to_owned());
    }
    let mut i: usize = 0;
    while i < v.len()
        invariant
            i <= v@.len(),
            v@ == name@,
            0 < v@.len() <= MAX_NAME,
            !(contains(name@, "--"@) || starts_with(name@, "-"@) || ends_with(name@, "-"@)),
            forall|j: int| 0 <= j < i ==> name_char(#[trigger] name@[j]),
        decreases v.len() - i,
    {
        let c = v[i];
        if !(('a' <= c && c <= 'z') || ('0' <= c && c <= '9') || c == '-') {
            assert(!name_char(name@[i as int]));
            return Err("`name` must be lowercase letters, digits, and hyphens".to_owned());
        }
        i = i + 1;
    }
    Ok(())
}

/// The first field of that name.
pub open spec fn field_of(fs: Seq<(Seq<char>, Seq<char>)>, key: Seq<char>) -> Option<Seq<char>>
    decreases fs.len(),
{
    if fs.len() == 0 {
        None
    } else if fs[0].0 == key {
        Some(fs[0].1)
    } else {
        field_of(fs.drop_first(), key)
    }
}

fn find_field(fs: &Vec<(String, String)>, key: &str) -> (r: Option<String>)
    ensures
        opt_view(r) == field_of(fields(fs@), key@),
{
    let ghost all = fields(fs@);
    let mut i: usize = 0;
    assert(all.skip(0) =~= all);
    while i < fs.len()
        invariant
            i <= fs@.len(),
            all == fields(fs@),
            field_of(all, key@) == field_of(all.skip(i as int), key@),
        decreases fs.len() - i,
    {
        assert(all[i as int] == (fs@[i as int].0@, fs@[i as int].1@));
        if same(fs[i].0.as_str(), key) {
            return Some(fs[i].1.clone());
        }
        assert(all.skip(i as int).drop_first() =~= all.skip(i + 1));
        i = i + 1;
    }
    None
}

/// The directory of a `SKILL.md`.
pub open spec fn dir_of(path: Seq<char>) -> Seq<char> {
    match path_parent(path) {
        Some(d) => d,
        None => "."@,
    }
}

/// What a `SKILL.md` says, or why it is refused. Its name must be that of its
/// directory.
pub open spec fn skill_of(path: Seq<char>, text: Seq<char>) -> Result<Pack, Seq<char>> {
    match frontmatter(text) {
        Err(e) => Err(e),
        Ok(fs) => match field_of(fs, "name"@) {
            None => Err("no `name` in frontmatter"@),
            Some(name) => match field_of(fs, "description"@) {
                None => Err("no `description` in frontmatter"@),
                Some(description) => match name_problem(name) {
                    Some(e) => Err(e),
                    None => if trim(description).len() == 0 {
                        Err("`description` is empty (it's the only thing the model sees)"@)
                    } else if description.len() > MAX_DESCRIPTION {
                        Err("`description` is over 1024 characters"@)
                    } else {
                        match path_name(dir_of(path)) {
                            Some(folder) if folder != name => Err(
                                "`name: "@ + name + "` does not match its directory `"@ + folder
                                    + "`"@,
                            ),
                            _ => Ok(
                                Pack {
                                    name,
                                    description: trim(description),
                                    dir: dir_of(path),
                                    path,
                                    allowed_tools: field_of(fs, "allowed-tools"@),
                                },
                            ),
                        }
                    },
                },
            },
        },
    }
}

/// Read and check one `SKILL.md`.
pub fn parse_skill(path: &str, text: &str) -> (r: Result<Skill, String>)
    ensures
        match r {
            Ok(s) => skill_of(path@, text@) == Ok::<Pack, Seq<char>>(s@),
            Err(e) => skill_of(path@, text@) == Err::<Pack, Seq<char>>(e@),
        },
{
    let fs = match parse_frontmatter(text) {
        Ok(fs) => fs,
        Err(e) => return Err(e),
    };
    let name = match find_field(&fs, "name") {
        Some(n) => n,
        None => return Err("no `name` in frontmatter".to_owned()),
    };
    let description = match find_field(&fs, "description") {
        Some(d) => d,
        None => return Err("no `description` in frontmatter".to_owned()),
    };
    if let Err(e) = validate_name(name.as_str()) {
        return Err(e);
    }
    if trimmed(description.as_str()).as_str().unicode_len() == 0 {
        return Err("`description` is empty (it's the only thing the model sees)".to_owned());
    }
    if description.as_str().unicode_len() > MAX_DESCRIPTION {
        return Err("`description` is over 1024 characters".to_owned());
    }
    let dir = match parent(path) {
        Some(d) => d,
        None => ".".to_owned(),
    };
    if let Some(folder) = file_name(dir.as_str()) {
        if !same(folder.as_str(), name.as_str()) {
            let mut e = "`name: ".to_owned();
            e.append(name.as_str());
            e.append("` does not match its directory `");
            e.append(folder.as_str());
            e.append("`");
            return Err(e);
        }
    }
    Ok(
        Skill {
            name,
            description: trimmed(description.as_str()),
            dir,
            path: path.to_owned(),
            allowed_tools: find_field(&fs, "allowed-tools"),
        },
    )
}

// ---- the map ----------------------------------------------------------------

/// A reference file of a skill: where it is, and what it holds where it can be read.
#[derive(Debug)]
pub struct Reference {
    pub path: String,
    pub text: Option<String>,
}

/// The headings of a reference file.
pub open spec fn ref_headings(r: Reference) -> Seq<(nat, Seq<char>)> {
    match r.text {
        Some(t) => headings_of(t@),
        None => seq![],
    }
}

fn headings_in_ref(r: &Reference) -> (hs: Vec<(usize, String)>)
    ensures
        outline(hs@) == ref_headings(*r),
{
    match &r.text {
        Some(t) => headings(t.as_str()),
        None => {
            let none: Vec<(usize, String)> = Vec::new();
            assert(outline(none@) =~= seq![]);
            none
        },
    }
}

/// The shallowest level among headings; one where there are none.
pub open spec fn shallowest(hs: Seq<(nat, Seq<char>)>) -> nat
    decreases hs.len(),
{
    if hs.len() == 0 {
        1
    } else if hs.len() == 1 {
        hs[0].0
    } else {
        let m = shallowest(hs.drop_last());
        if hs.last().0 < m {
            hs.last().0
        } else {
            m
        }
    }
}

/// The line of a heading in the map.
pub open spec fn map_line(h: (nat, Seq<char>)) -> Seq<char> {
    "  "@ + Seq::new(h.0, |i: int| '#') + " "@ + h.1 + "\n"@
}

/// The lines of the headings that are less than `depth` below the base.
pub open spec fn map_lines(hs: Seq<(nat, Seq<char>)>, base: nat, depth: nat) -> Seq<Seq<char>>
    decreases hs.len(),
{
    if hs.len() == 0 {
        seq![]
    } else {
        let before = map_lines(hs.drop_last(), base, depth);
        if hs.last().0 < base + depth {
            before.push(map_line(hs.last()))
        } else {
            before
        }
    }
}

/// A file in the map. What is left out is said, never cut silently.
pub open spec fn map_part(r: Reference, dir: Seq<char>, depth: nat) -> Seq<char> {
    match r.text {
        None => seq![],
        Some(t) => {
            let hs = headings_of(t@);
            let shown = map_lines(hs, shallowest(hs), depth);
            relative_to(r.path@, dir) + "\n"@ + concat(shown) + (if hs.len() > shown.len() {
                "  …"@ + dec((hs.len() - shown.len()) as nat) + " more, grep the file\n"@
            } else {
                seq![]
            })
        },
    }
}

/// The files in the map.
pub open spec fn map_parts(rs: Seq<Reference>, dir: Seq<char>, depth: nat) -> Seq<Seq<char>> {
    Seq::new(rs.len(), |i: int| map_part(rs[i], dir, depth))
}

/// The map that goes `depth` levels deep in each file.
pub open spec fn map_at(name: Seq<char>, dir: Seq<char>, rs: Seq<Reference>, depth: nat) -> Seq<
    char,
> {
    "<skill-map name=\""@ + name + "\">\n"@ + concat(map_parts(rs, dir, depth))
        + "Fetch one section: skill(name: \""@ + name + "\", section: \"<heading>\")\n</skill-map>"@
}

/// The deepest map, from `depth` down, that fits; the shallowest where none does.
pub open spec fn map_fitting(
    name: Seq<char>,
    dir: Seq<char>,
    rs: Seq<Reference>,
    depth: nat,
) -> Seq<char>
    decreases depth,
{
    let m = map_at(name, dir, rs, depth);
    if depth <= 1 || byte_len(m) <= MAX_MAP_CHARS {
        m
    } else {
        map_fitting(name, dir, rs, (depth - 1) as nat)
    }
}

/// Does no reference file have a heading?
pub open spec fn headingless(rs: Seq<Reference>) -> bool {
    forall|i: int| 0 <= i < rs.len() ==> ref_headings(#[trigger] rs[i]).len() == 0
}

/// The map of a skill's reference headings.
pub open spec fn map_of(name: Seq<char>, dir: Seq<char>, rs: Seq<Reference>) -> Seq<char> {
    if headingless(rs) {
        seq![]
    } else {
        map_fitting(name, dir, rs, 4)
    }
}

fn find_shallowest(hs: &Vec<(usize, String)>) -> (r: usize)
    ensures
        r == shallowest(outline(hs@)),
{
    let ghost all = outline(hs@);
    if hs.len() == 0 {
        return 1;
    }
    let mut m: usize = hs[0].0;
    let mut i: usize = 1;
    assert(all.take(1) =~= seq![all[0]]);
    while i < hs.len()
        invariant
            1 <= i <= hs@.len(),
            all == outline(hs@),
            m == shallowest(all.take(i as int)),
        decreases hs.len() - i,
    {
        let ghost next = all.take(i + 1);
        assert(next.drop_last() =~= all.take(i as int));
        assert(next.last() == all[i as int]);
        if hs[i].0 < m {
            m = hs[i].0;
        }
        i = i + 1;
    }
    assert(all.take(i as int) =~= all);
    m
}

fn hash_mark(n: usize) -> (r: String)
    ensures
        r@ == Seq::new(n as nat, |i: int| '#'),
{
    let mut r = String::new();
    let mut i: usize = 0;
    assert(r@ =~= Seq::new(0, |i: int| '#'));
    while i < n
        invariant
            i <= n,
            r@ == Seq::new(i as nat, |i: int| '#'),
        decreases n - i,
    {
        r.push('#');
        i = i + 1;
        assert(r@ =~= Seq::new(i as nat, |i: int| '#'));
    }
    r
}

fn render_map_part(r: &Reference, dir: &str, depth: usize) -> (out: String)
    ensures
        out@ == map_part(*r, dir@, depth as nat),
{
    let text = match &r.text {
        Some(t) => t,
        None => {
            let none = String::new();
            assert(none@ =~= seq![]);
            return none;
        },
    };
    let hs = headings(text.as_str());
    let ghost all = outline(hs@);
    let base = find_shallowest(&hs);
    let mut out = display_rel(dir, r.path.as_str());
    out.append("\n");
    let ghost head = out@;
    let mut shown: usize = 0;
    let mut i: usize = 0;
    assert(out@ =~= head + concat(map_lines(all.take(0), base as nat, depth as nat)));
    while i < hs.len()
        invariant
            i <= hs@.len(),
            all == outline(hs@),
            shown == map_lines(all.take(i as int), base as nat, depth as nat).len(),
            shown <= i,
            out@ == head + concat(map_lines(all.take(i as int), base as nat, depth as nat)),
        decreases hs.len() - i,
    {
        let ghost next = all.take(i + 1);
        let ghost before = map_lines(all.take(i as int), base as nat, depth as nat);
        assert(next.drop_last() =~= all.take(i as int));
        assert(next.last() == all[i as int]);
        let level: usize = hs[i].0;
        if level < base || level - base < depth {
            let mut line = "  ".to_owned();
            line.append(hash_mark(level).as_str());
            line.append(" ");
            line.append(hs[i].1.as_str());
            line.append("\n");
            assert(line@ == map_line(all[i as int]));
            out.append(line.as_str());
            assert(map_lines(next, base as nat, depth as nat) == before.push(line@));
            assert(out@ =~= head + concat(before.push(line@)));
            shown = shown + 1;
        }
        i = i + 1;
    }
    assert(all.take(i as int) =~= all);
    if hs.len() > shown {
        let n: usize = hs.len() - shown;
        let ghost sofar = out@;
        let mut more = "  …".to_owned();
        more.append(decimal(n as u128).as_str());
        more.append(" more, grep the file\n");
        out.append(more.as_str());
    } else {
        assert(out@ =~= out@ + seq![]);
    }
    out
}

fn render_map_at(name: &str, dir: &str, rs: &Vec<Reference>, depth: usize) -> (r: String)
    ensures
        r@ == map_at(name@, dir@, rs@, depth as nat),
{
    let ghost all = map_parts(rs@, dir@, depth as nat);
    let mut out = "<skill-map name=\"".to_owned();
    out.append(name);
    out.append("\">\n");
    let ghost head = out@;
    let mut i: usize = 0;
    assert(out@ =~= head + concat(all.take(0)));
    while i < rs.len()
        invariant
            i <= rs@.len(),
            all == map_parts(rs@, dir@, depth as nat),
            out@ == head + concat(all.take(i as int)),
        decreases rs.len() - i,
    {
        out.append(render_map_part(&rs[i], dir, depth).as_str());
        assert(all.take(i + 1) =~= all.take(i as int).push(all[i as int]));
        assert(out@ =~= head + concat(all.take(i + 1)));
        i = i + 1;
    }
    assert(all.take(i as int) =~= all);
    out.append("Fetch one section: skill(name: \"");
    out.append(name);
    out.append("\", section: \"<heading>\")\n</skill-map>");
    out
}

/// The prose among the first `n` files of a directory.
pub open spec fn prose(names: Seq<String>, n: nat) -> Seq<Seq<char>>
    decreases n,
{
    if n == 0 {
        seq![]
    } else if extension_of(names[n - 1]@) == Some("md"@) {
        prose(names, (n - 1) as nat).push(names[n - 1]@)
    } else {
        prose(names, (n - 1) as nat)
    }
}

impl Skill {
    /// The instructions below the frontmatter, given the `SKILL.md`.
    pub fn body(&self, text: &str) -> (r: String)
        ensures
            r@ == body_of(text@),
    {
        strip_frontmatter(text)
    }

    /// The prose reference files, sorted, given the names of the files in `references`.
    pub fn reference_files(&self, names: &Vec<String>) -> (r: Vec<String>)
        ensures
            views(r@) == all_below(
                joined_path(self@.dir, "references"@),
                ranked(prose(names@, names@.len()), by_text()),
            ),
    {
        let mut kept: Vec<String> = Vec::new();
        let mut i: usize = 0;
        while i < names.len()
            invariant
                i <= names@.len(),
                views(kept@) == prose(names@, i as nat),
            decreases names.len() - i,
        {
            if let Some(e) = extension(names[i].as_str()) {
                if same(e.as_str(), "md") {
                    kept.push(names[i].clone());
                }
            }
            i = i + 1;
        }
        paths_below(join_path(self.dir.as_str(), "references").as_str(), &sort_names(kept))
    }

    /// The map of this skill's reference headings: read off the headings that exist, so
    /// it cannot go stale. Where it grows too large, the deepest level is dropped first,
    /// and what is left out is said. Depth counts from each file's shallowest heading.
    pub fn map(&self, refs: &Vec<Reference>) -> (r: String)
        ensures
            r@ == map_of(self@.name, self@.dir, refs@),
    {
        let mut i: usize = 0;
        let mut bare = true;
        while i < refs.len() && bare
            invariant
                i <= refs@.len(),
                bare ==> forall|j: int|
                    0 <= j < i ==> ref_headings(#[trigger] refs@[j]).len() == 0,
                !bare ==> !headingless(refs@),
            decreases
                refs.len() - i,
                if bare {
                    1int
                } else {
                    0
                },
        {
            let hs = headings_in_ref(&refs[i]);
            assert(outline(hs@).len() == hs@.len());
            if hs.len() > 0 {
                assert(ref_headings(refs@[i as int]).len() > 0);
                bare = false;
            } else {
                i = i + 1;
            }
        }
        if bare {
            let none = String::new();
            assert(none@ =~= seq![]);
            return none;
        }
        let mut depth: usize = 4;
        loop
            invariant
                1 <= depth <= 4,
                map_fitting(self@.name, self@.dir, refs@, 4) == map_fitting(
                    self@.name,
                    self@.dir,
                    refs@,
                    depth as nat,
                ),
                !headingless(refs@),
            decreases depth,
        {
            let m = render_map_at(self.name.as_str(), self.dir.as_str(), refs, depth);
            if depth == 1 || utf8_len(m.as_str()) <= MAX_MAP_CHARS as u128 {
                return m;
            }
            depth = depth - 1;
        }
    }
}

// ---- sections ---------------------------------------------------------------

/// The result of a section lookup.
#[derive(Debug)]
pub enum SectionMatch {
    Nothing,
    One { file: String, heading: String, content: String },
    /// Ambiguity returns the candidates, not a guess: a model writing confidently from
    /// the wrong section damages the work invisibly.
    Many(Vec<(String, String)>),
    /// The query named a whole reference file; its headings answer, so that the next
    /// call can name one.
    File { file: String, headings: Vec<(usize, String)> },
}

/// A section that a query hits: its file, its heading and what it holds.
pub struct SectionHit {
    pub file: Seq<char>,
    pub heading: Seq<char>,
    pub content: Seq<char>,
}

/// The name of a file in lower case.
pub open spec fn low_name(path: Seq<char>) -> Seq<char> {
    lowercase(
        match path_name(path) {
            Some(n) => n,
            None => seq![],
        },
    )
}

/// The first reference file from `i` on that the query names.
pub open spec fn named_file(rs: Seq<Reference>, want: Seq<char>, i: int) -> int
    decreases rs.len() - i,
{
    if i >= rs.len() || ends_with(want, low_name(rs[i].path@)) {
        i
    } else {
        named_file(rs, want, i + 1)
    }
}

/// The sections of a file among its first `n` headings that the query hits.
pub open spec fn file_hits(
    r: Reference,
    dir: Seq<char>,
    want: Seq<char>,
    n: nat,
) -> Seq<SectionHit>
    decreases n,
{
    if n == 0 {
        seq![]
    } else {
        let before = file_hits(r, dir, want, (n - 1) as nat);
        let h = ref_headings(r)[n - 1];
        if contains(plain_heading(h.1), want) {
            before.push(
                SectionHit {
                    file: relative_to(r.path@, dir),
                    heading: h.1,
                    content: section_of(r.text->0@, h.0, h.1),
                },
            )
        } else {
            before
        }
    }
}

/// The sections of the first `n` files that the query hits.
pub open spec fn all_hits(rs: Seq<Reference>, dir: Seq<char>, want: Seq<char>, n: nat) -> Seq<
    SectionHit,
>
    decreases n,
{
    if n == 0 {
        seq![]
    } else {
        all_hits(rs, dir, want, (n - 1) as nat) + file_hits(
            rs[n - 1],
            dir,
            want,
            ref_headings(rs[n - 1]).len(),
        )
    }
}

/// Is `m` the answer to these hits? A single one is given, several are named.
pub open spec fn answers(m: SectionMatch, hits: Seq<SectionHit>) -> bool {
    match m {
        SectionMatch::Nothing => hits.len() == 0,
        SectionMatch::One { file, heading, content } => hits == seq![
            SectionHit { file: file@, heading: heading@, content: content@ },
        ],
        SectionMatch::Many(v) => hits.len() >= 2 && v@.len() == hits.len() && forall|i: int|
            0 <= i < v@.len() ==> (#[trigger] v@[i]).0@ == hits[i].file && v@[i].1@
                == hits[i].heading,
        SectionMatch::File { .. } => false,
    }
}

/// Is `m` what a query finds among the reference files?
pub open spec fn found_section(
    dir: Seq<char>,
    rs: Seq<Reference>,
    query: Seq<char>,
    m: SectionMatch,
) -> bool {
    let want = lowercase(trim(query));
    let i = named_file(rs, want, 0);
    if want.len() == 0 {
        m is Nothing
    } else if i < rs.len() {
        m matches SectionMatch::File { file, headings } && file@ == relative_to(rs[i].path@, dir)
            && outline(headings@) == ref_headings(rs[i])
    } else {
        answers(m, all_hits(rs, dir, want, rs.len()))
    }
}

struct Found {
    file: String,
    heading: String,
    content: String,
}

spec fn hits_view(v: Seq<Found>) -> Seq<SectionHit> {
    Seq::new(
        v.len(),
        |i: int| SectionHit { file: v[i].file@, heading: v[i].heading@, content: v[i].content@ },
    )
}

fn push_file_hits(out: &mut Vec<Found>, r: &Reference, dir: &str, want: &str)
    ensures
        hits_view(final(out)@) == hits_view(old(out)@) + file_hits(
            *r,
            dir@,
            want@,
            ref_headings(*r).len(),
        ),
{
    let hs = headings_in_ref(r);
    let ghost all = outline(hs@);
    let ghost before = hits_view(out@);
    let mut i: usize = 0;
    assert(hits_view(out@) =~= before + file_hits(*r, dir@, want@, 0));
    while i < hs.len()
        invariant
            i <= hs@.len(),
            all == outline(hs@),
            all == ref_headings(*r),
            hits_view(out@) == before + file_hits(*r, dir@, want@, i as nat),
        decreases hs.len() - i,
    {
        assert(all[i as int] == (hs@[i as int].0 as nat, hs@[i as int].1@));
        let plain = normalize_heading(hs[i].1.as_str());
        if has_text(plain.as_str(), want) {
            assert(all.len() > 0);
            assert(r.text is Some);
            if let Some(t) = &r.text {
                let ghost held = out@;
                let f = Found {
                    file: display_rel(dir, r.path.as_str()),
                    heading: hs[i].1.clone(),
                    content: section_slice(t.as_str(), hs[i].0, hs[i].1.as_str()),
                };
                out.push(f);
                assert(hits_view(out@) =~= hits_view(held).push(
                    SectionHit { file: f.file@, heading: f.heading@, content: f.content@ },
                ));
                assert(hits_view(out@) =~= before + file_hits(*r, dir@, want@, (i + 1) as nat));
            }
        }
        i = i + 1;
    }
}

impl Skill {
    /// The reference section that a query names, without regard to case and leading
    /// list numbers. A query that names a reference file is answered with that file's
    /// headings.
    pub fn find_section(&self, refs: &Vec<Reference>, query: &str) -> (r: SectionMatch)
        ensures
            found_section(self@.dir, refs@, query@, r),
    {
        let want = trimmed(query).as_str().to_lowercase();
        if want.as_str().unicode_len() == 0 {
            return SectionMatch::Nothing;
        }
        let mut i: usize = 0;
        while i < refs.len()
            invariant
                i <= refs@.len(),
                want@ == lowercase(trim(query@)),
                want@.len() > 0,
                named_file(refs@, want@, 0) == named_file(refs@, want@, i as int),
            decreases refs.len() - i,
        {
            let name = match file_name(refs[i].path.as_str()) {
                Some(n) => n,
                None => {
                    let none = String::new();
                    assert(none@ =~= seq![]);
                    none
                },
            };
            if ends(want.as_str(), name.as_str().to_lowercase().as_str()) {
                return SectionMatch::File {
                    file: display_rel(self.dir.as_str(), refs[i].path.as_str()),
                    headings: headings_in_ref(&refs[i]),
                };
            }
            i = i + 1;
        }
        let mut hits: Vec<Found> = Vec::new();
        let mut k: usize = 0;
        assert(hits_view(hits@) =~= all_hits(refs@, self@.dir, want@, 0));
        while k < refs.len()
            invariant
                k <= refs@.len(),
                hits_view(hits@) == all_hits(refs@, self@.dir, want@, k as nat),
            decreases refs.len() - k,
        {
            push_file_hits(&mut hits, &refs[k], self.dir.as_str(), want.as_str());
            k = k + 1;
        }
        let ghost all = hits_view(hits@);
        if hits.len() == 0 {
            assert(all.len() == 0);
            SectionMatch::Nothing
        } else if hits.len() == 1 {
            let f = hits.remove(0);
            assert(all =~= seq![
                SectionHit { file: f.file@, heading: f.heading@, content: f.content@ },
            ]);
            SectionMatch::One { file: f.file, heading: f.heading, content: f.content }
        } else {
            let mut named: Vec<(String, String)> = Vec::new();
            let mut j: usize = 0;
            while j < hits.len()
                invariant
                    j <= hits@.len(),
                    all == hits_view(hits@),
                    named@.len() == j,
                    forall|i: int|
                        0 <= i < j ==> (#[trigger] named@[i]).0@ == all[i].file && named@[i].1@
                            == all[i].heading,
                decreases hits.len() - j,
            {
                named.push((hits[j].file.clone(), hits[j].heading.clone()));
                j = j + 1;
            }
            SectionMatch::Many(named)
        }
    }
}

/// A name is accepted exactly when it has one to sixty-four characters, each of them a
/// small letter, a digit or a hyphen, and no hyphen at either end or beside another.
pub proof fn a_well_made_name_is_accepted(name: Seq<char>)
    ensures
        name_problem(name) is None <==> {
            &&& 1 <= name.len() <= 64
            &&& name[0] != '-'
            &&& name[name.len() - 1] != '-'
            &&& forall|i: int|
                0 <= i < name.len() ==> (('a' <= #[trigger] name[i] && name[i] <= 'z') || ('0'
                    <= name[i] && name[i] <= '9') || name[i] == '-')
            &&& forall|i: int, j: int|
                0 <= i && j == i + 1 && j < name.len() ==> !(#[trigger] name[i] == '-'
                    && #[trigger] name[j] == '-')
        },
{
    reveal_strlit("--");
    reveal_strlit("-");
    let n = name.len() as int;
    if 1 <= n {
        assert("-"@ =~= seq!['-']);
        assert(name.take(1)[0] == name[0]);
        assert(name.skip(n - 1)[0] == name[n - 1]);
        assert(name[0] == '-' ==> name.take(1) =~= "-"@);
        assert(name[n - 1] == '-' ==> name.skip(n - 1) =~= "-"@);
        assert(starts_with(name, "-"@) == (name[0] == '-'));
        assert(ends_with(name, "-"@) == (name[n - 1] == '-'));
        if contains(name, "--"@) {
            let i = choose|i: int| #[trigger] crate::text::occurs_at(name, "--"@, i);
            let two = name.subrange(i, i + 2);
            assert(two[0] == '-' && two[1] == '-');
            assert(name[i] == '-' && name[i + 1] == '-');
        }
        assert forall|i: int, j: int|
            0 <= i && j == i + 1 && j < n && #[trigger] name[i] == '-' && #[trigger] name[j]
                == '-' implies contains(name, "--"@) by {
            assert(name.subrange(i, i + 2) =~= "--"@);
            assert(crate::text::occurs_at(name, "--"@, i));
        }
        assert forall|i: int| 0 <= i < n implies name_char(#[trigger] name[i]) == (('a' <= name[i]
            && name[i] <= 'z') || ('0' <= name[i] && name[i] <= '9') || name[i] == '-') by {}
    }
}

/// The value of a key is that of its first line, and there is one wherever a line has the
/// key.
pub proof fn the_first_line_of_a_key_counts(
    fs: Seq<(Seq<char>, Seq<char>)>,
    key: Seq<char>,
)
    ensures
        match field_of(fs, key) {
            Some(v) => exists|i: int|
                0 <= i < fs.len() && #[trigger] fs[i] == (key, v) && forall|j: int|
                    0 <= j < i ==> (#[trigger] fs[j]).0 != key,
            None => forall|i: int| 0 <= i < fs.len() ==> (#[trigger] fs[i]).0 != key,
        },
    decreases fs.len(),
{
    if fs.len() > 0 && fs[0].0 != key {
        let rest = fs.drop_first();
        the_first_line_of_a_key_counts(rest, key);
        match field_of(rest, key) {
            Some(v) => {
                let i = choose|i: int|
                    0 <= i < rest.len() && #[trigger] rest[i] == (key, v) && forall|j: int|
                        0 <= j < i ==> (#[trigger] rest[j]).0 != key;
                assert(fs[i + 1] == (key, v));
                assert forall|j: int| 0 <= j < i + 1 implies (#[trigger] fs[j]).0 != key by {
                    if j > 0 {
                        assert(rest[j - 1] == fs[j]);
                    }
                }
            },
            None => {
                assert forall|i: int| 0 <= i < fs.len() implies (#[trigger] fs[i]).0 != key by {
                    if i > 0 {
                        assert(rest[i - 1] == fs[i]);
                    }
                }
            },
        }
    } else if fs.len() > 0 {
        assert(fs[0] == (key, fs[0].1));
    }
}

/// A skill is what its file says: its name, description and tools are written there, it is
/// named after its folder, and it stays with its path.
pub proof fn a_skill_is_what_its_file_says(path: Seq<char>, text: Seq<char>)
    ensures
        skill_of(path, text) matches Ok(p) ==> {
            &&& frontmatter(text) is Ok
            &&& frontmatter(text)->Ok_0.contains(("name"@, p.name))
            &&& exists|d: Seq<char>|
                #[trigger] frontmatter(text)->Ok_0.contains(("description"@, d)) && p.description
                    == trim(d) && 0 < p.description.len() && d.len() <= 1024
            &&& p.allowed_tools matches Some(t) ==> frontmatter(text)->Ok_0.contains(
                ("allowed-tools"@, t),
            )
            &&& p.allowed_tools is None ==> forall|i: int|
                0 <= i < frontmatter(text)->Ok_0.len() ==> (
                #[trigger] frontmatter(text)->Ok_0[i]).0 != "allowed-tools"@
            &&& p.path == path
            &&& path_parent(path) matches Some(d) ==> p.dir == d && (path_name(d) matches Some(
                folder,
            ) ==> folder == p.name)
        },
{
    if let Ok(p) = skill_of(path, text) {
        let fs = frontmatter(text)->Ok_0;
        the_first_line_of_a_key_counts(fs, "name"@);
        the_first_line_of_a_key_counts(fs, "description"@);
        the_first_line_of_a_key_counts(fs, "allowed-tools"@);
        let d = field_of(fs, "description"@)->0;
        assert(fs.contains(("description"@, d)));
    }
}

/// No heading of a file is above its shallowest one, which is one of them.
pub proof fn the_shallowest_heading_is_the_top(hs: Seq<(nat, Seq<char>)>)
    requires
        hs.len() > 0,
    ensures
        forall|i: int| 0 <= i < hs.len() ==> shallowest(hs) <= (#[trigger] hs[i]).0,
        exists|i: int| 0 <= i < hs.len() && shallowest(hs) == (#[trigger] hs[i]).0,
    decreases hs.len(),
{
    let last = hs.len() - 1;
    if hs.len() == 1 {
        assert(shallowest(hs) == hs[0].0);
    } else {
        let rest = hs.drop_last();
        the_shallowest_heading_is_the_top(rest);
        assert forall|i: int| 0 <= i < hs.len() implies shallowest(hs) <= (#[trigger] hs[i]).0 by {
            if i < last {
                assert(rest[i] == hs[i]);
            }
        }
        let k = choose|i: int| 0 <= i < rest.len() && shallowest(rest) == (#[trigger] rest[i]).0;
        assert(hs[k] == rest[k]);
        assert(hs[last] == hs.last());
    }
}

/// A map shows every heading above its depth, and as many lines as there are such headings.
pub proof fn every_heading_above_the_depth_is_shown(
    hs: Seq<(nat, Seq<char>)>,
    base: nat,
    depth: nat,
)
    ensures
        forall|i: int|
            0 <= i < hs.len() && (#[trigger] hs[i]).0 < base + depth ==> map_lines(
                hs,
                base,
                depth,
            ).contains(map_line(hs[i])),
        map_lines(hs, base, depth).len() == hs.filter(|h: (nat, Seq<char>)| h.0 < base + depth).len(),
    decreases hs.len(),
{
    let p = |h: (nat, Seq<char>)| h.0 < base + depth;
    reveal(Seq::filter);
    if hs.len() > 0 {
        let rest = hs.drop_last();
        let before = map_lines(rest, base, depth);
        let all = map_lines(hs, base, depth);
        every_heading_above_the_depth_is_shown(rest, base, depth);
        assert forall|i: int| 0 <= i < hs.len() && (#[trigger] hs[i]).0 < base + depth implies
            all.contains(map_line(hs[i])) by {
            if i < hs.len() - 1 {
                assert(rest[i] == hs[i]);
                assert(before.contains(map_line(hs[i])));
                let k = choose|k: int| 0 <= k < before.len() && before[k] == map_line(hs[i]);
                assert(all[k] == before[k]);
            } else {
                assert(all.last() == map_line(hs[i]));
            }
        }
    }
}

} // verus!
