//! The catalog: every skill that can be seen from a project, the nearest definition
//! winning.
use vstd::prelude::*;
use vstd::string::*;

use crate::list::{concat, group_lists, views};
use crate::paths::{join_path, joined_path};
use crate::ranking::{in_rank, lemma_ranked_map, ranked};
use crate::skill::{packs, parse_skill, skill_of, Pack, Skill};
use crate::sorting::{at_most, is_at_most};
use crate::text::{
    byte_len, dec, decimal, any_same, lemma_byte_len_cat, same, utf8_len,
};

verus! {

broadcast use group_lists;

/// A `SKILL.md` that was found: where it is, and what it holds, or why it cannot be
/// read.
#[derive(Debug)]
pub struct SkillFile {
    pub path: String,
    pub text: Result<String, String>,
}

/// What a file says as a skill, or why it is refused.
pub open spec fn read_file(f: SkillFile) -> Result<Pack, Seq<char>> {
    match f.text {
        Ok(t) => skill_of(f.path@, t@),
        Err(e) => Err("unreadable: "@ + e@),
    }
}

/// The skills among the first `n` files.
pub open spec fn good(fs: Seq<SkillFile>, n: nat) -> Seq<Pack>
    decreases n,
{
    if n == 0 {
        seq![]
    } else {
        match read_file(fs[n - 1]) {
            Ok(p) => good(fs, (n - 1) as nat).push(p),
            Err(_) => good(fs, (n - 1) as nat),
        }
    }
}

/// What there is to say of the others.
pub open spec fn refusals(fs: Seq<SkillFile>, n: nat) -> Seq<Seq<char>>
    decreases n,
{
    if n == 0 {
        seq![]
    } else {
        match read_file(fs[n - 1]) {
            Ok(_) => refusals(fs, (n - 1) as nat),
            Err(e) => refusals(fs, (n - 1) as nat).push(
                "skipped "@ + fs[n - 1].path@ + ": "@ + e,
            ),
        }
    }
}

/// Names in order.
pub open spec fn by_name() -> spec_fn(Pack, Pack) -> bool {
    |a: Pack, b: Pack| !at_most(b.name, a.name)
}

/// What a catalog holds: the skills, and what is worth telling the user. A skill that
/// silently fails to load is a trap.
pub struct Shelf {
    pub skills: Seq<Pack>,
    pub notes: Seq<Seq<char>>,
}

/// The index of the first skill of that name, or the length.
pub open spec fn name_index(s: Seq<Pack>, name: Seq<char>) -> nat
    decreases s.len(),
{
    if s.len() == 0 || s[0].name == name {
        0
    } else {
        1 + name_index(s.drop_first(), name)
    }
}

/// The shelf once a skill is put on it: it takes the place of one of the same name, and
/// that is said.
pub open spec fn shelved(c: Shelf, p: Pack) -> Shelf {
    let i = name_index(c.skills, p.name) as int;
    if i < c.skills.len() {
        Shelf {
            skills: c.skills.update(i, p),
            notes: c.notes.push(
                "skill `"@ + p.name + "` from "@ + p.dir + " overrides "@ + c.skills[i].dir,
            ),
        }
    } else {
        Shelf { skills: c.skills.push(p), notes: c.notes }
    }
}

/// The shelf once the first `n` skills are put on it.
pub open spec fn shelved_all(c: Shelf, ps: Seq<Pack>, n: nat) -> Shelf
    decreases n,
{
    if n == 0 {
        c
    } else {
        shelved(shelved_all(c, ps, (n - 1) as nat), ps[n - 1])
    }
}

/// The shelf once a directory is loaded.
pub open spec fn loaded(c: Shelf, fs: Seq<SkillFile>) -> Shelf {
    let ps = ranked(good(fs, fs.len()), by_name());
    shelved_all(
        Shelf { skills: c.skills, notes: c.notes + refusals(fs, fs.len()) },
        ps,
        ps.len(),
    )
}

/// The shelf once the first `n` directories are loaded, lowest precedence first.
pub open spec fn loaded_all(dirs: Seq<Vec<SkillFile>>, n: nat) -> Shelf
    decreases n,
{
    if n == 0 {
        Shelf { skills: seq![], notes: seq![] }
    } else {
        loaded(loaded_all(dirs, (n - 1) as nat), dirs[n - 1]@)
    }
}

/// The skills that can be seen from a project.
#[derive(Debug, Default)]
pub struct SkillCatalog {
    skills: Vec<Skill>,
    notes: Vec<String>,
}

impl View for SkillCatalog {
    type V = Shelf;

    closed spec fn view(&self) -> Shelf {
        Shelf { skills: packs(self.skills@), notes: views(self.notes@) }
    }
}

proof fn lemma_name_index(s: Seq<Pack>, name: Seq<char>)
    ensures
        name_index(s, name) <= s.len(),
        name_index(s, name) < s.len() ==> s[name_index(s, name) as int].name == name,
        forall|i: int| 0 <= i < name_index(s, name) ==> s[i].name != name,
    decreases s.len(),
{
    if s.len() > 0 && s[0].name != name {
        lemma_name_index(s.drop_first(), name);
        assert forall|i: int| 0 <= i < name_index(s, name) implies s[i].name != name by {
            if i > 0 {
                assert(s[i] == s.drop_first()[i - 1]);
            }
        }
    }
}

proof fn lemma_name_index_is(s: Seq<Pack>, name: Seq<char>, n: nat)
    requires
        n <= s.len(),
        n < s.len() ==> s[n as int].name == name,
        forall|i: int| 0 <= i < n ==> s[i].name != name,
    ensures
        name_index(s, name) == n,
{
    lemma_name_index(s, name);
    let m = name_index(s, name);
    if m < n {
        assert(s[m as int].name != name);
    } else if n < m {
        assert(s[n as int].name != name);
    }
}

fn sort_skills(v: Vec<Skill>) -> (r: Vec<Skill>)
    ensures
        packs(r@) == ranked(packs(v@), by_name()),
{
    let ghost before = |a: Skill, b: Skill| !at_most(b.name@, a.name@);
    proof {
        lemma_ranked_map(v@, |s: Skill| s@, before, by_name());
    }
    in_rank(
        v,
        |a: &Skill, b: &Skill| -> (c: bool) ensures c == before(*a, *b) { !is_at_most(b.name.as_str(), a.name.as_str()) },
        Ghost(before),
    )
}

/// How a line of the catalog reads.
pub open spec fn catalog_line(p: Pack) -> Seq<char> {
    "- "@ + p.name + ": "@ + p.description + "\n"@
}

/// How the catalog begins.
pub open spec fn catalog_head() -> Seq<char> {
    "<SKILLS>\nInstruction packs available for this project. Call the `skill` tool with a name to load one's full instructions before doing that kind of work.\n"@
}

/// The catalog with the first `n` skills: its text, and how many did not fit.
pub open spec fn listed(ps: Seq<Pack>, n: nat, max: nat) -> (Seq<char>, nat)
    decreases n,
{
    if n == 0 {
        (catalog_head(), 0)
    } else {
        let (text, dropped) = listed(ps, (n - 1) as nat, max);
        let line = catalog_line(ps[n - 1]);
        if byte_len(text) + byte_len(line) > max {
            (text, dropped + 1)
        } else {
            (text + line, dropped)
        }
    }
}

/// The catalog for the prompt; nothing where there are no skills.
pub open spec fn catalog_section(ps: Seq<Pack>, max: nat) -> Seq<char> {
    if ps.len() == 0 {
        seq![]
    } else {
        let (text, dropped) = listed(ps, ps.len(), max);
        text + (if dropped > 0 {
            "("@ + dec(dropped) + " more skills not listed — the catalog hit its size cap)\n"@
        } else {
            seq![]
        }) + "</SKILLS>\n"@
    }
}

impl SkillCatalog {
    /// No skills.
    pub fn new() -> (r: SkillCatalog)
        ensures
            r@ == (Shelf { skills: seq![], notes: seq![] }),
    {
        let r = SkillCatalog { skills: Vec::new(), notes: Vec::new() };
        assert(packs(r.skills@) =~= seq![]);
        assert(views(r.notes@) =~= seq![]);
        r
    }

    /// Load the skills of all directories, lowest precedence first.
    pub fn discover(dirs: Vec<Vec<SkillFile>>) -> (r: SkillCatalog)
        ensures
            r@ == (Shelf {
                skills: ranked(loaded_all(dirs@, dirs@.len()).skills, by_name()),
                notes: loaded_all(dirs@, dirs@.len()).notes,
            }),
    {
        let mut cat = SkillCatalog::new();
        let mut i: usize = 0;
        while i < dirs.len()
            invariant
                i <= dirs@.len(),
                cat@ == loaded_all(dirs@, i as nat),
            decreases dirs.len() - i,
        {
            cat.load_dir(&dirs[i]);
            i = i + 1;
        }
        let SkillCatalog { skills, notes } = cat;
        SkillCatalog { skills: sort_skills(skills), notes }
    }

    /// Load the skills of one directory. Later calls override earlier ones by name.
    pub fn load_dir(&mut self, files: &Vec<SkillFile>)
        ensures
            final(self)@ == loaded(old(self)@, files@),
    {
        let mut found: Vec<Skill> = Vec::new();
        let mut i: usize = 0;
        let ghost skills = packs(self.skills@);
        let ghost notes = views(self.notes@);
        assert(packs(found@) =~= seq![]);
        assert(views(self.notes@) =~= notes + refusals(files@, 0));
        while i < files.len()
            invariant
                i <= files@.len(),
                packs(self.skills@) == skills,
                packs(found@) == good(files@, i as nat),
                views(self.notes@) == notes + refusals(files@, i as nat),
            decreases files.len() - i,
        {
            let f = &files[i];
            let read = match &f.text {
                Ok(t) => parse_skill(f.path.as_str(), t.as_str()),
                Err(e) => {
                    let mut s = "unreadable: ".to_owned();
                    s.append(e.as_str());
                    Err(s)
                },
            };
            match read {
                Ok(s) => {
                    let ghost before = found@;
                    found.push(s);
                    assert(packs(found@) =~= packs(before).push(s@));
                },
                Err(e) => {
                    let mut s = "skipped ".to_owned();
                    s.append(f.path.as_str());
                    s.append(": ");
                    s.append(e.as_str());
                    self.notes.push(s);
                    assert(views(self.notes@) =~= notes + refusals(files@, (i + 1) as nat));
                },
            }
            i = i + 1;
        }
        let mut rest = sort_skills(found);
        let ghost ps = packs(rest@);
        let ghost start = self@;
        let ghost mut done: nat = 0;
        assert(rest@.skip(0) =~= rest@);
        let ghost whole = rest@;
        while rest.len() > 0
            invariant
                done <= whole.len(),
                rest@ == whole.skip(done as int),
                ps == packs(whole),
                self@ == shelved_all(start, ps, done),
            decreases rest.len(),
        {
            let s = rest.remove(0);
            assert(s == whole[done as int]);
            assert(s@ == ps[done as int]);
            self.put(s);
            proof {
                done = done + 1;
                assert(rest@ =~= whole.skip(done as int));
            }
        }
    }

    fn put(&mut self, skill: Skill)
        ensures
            final(self)@ == shelved(old(self)@, skill@),
    {
        let i = self.find(skill.name.as_str());
        let ghost held = packs(self.skills@);
        if i < self.skills.len() {
            let mut note = "skill `".to_owned();
            note.append(skill.name.as_str());
            note.append("` from ");
            note.append(skill.dir.as_str());
            note.append(" overrides ");
            note.append(self.skills[i].dir.as_str());
            self.notes.push(note);
            let ghost p = skill@;
            self.skills.set(i, skill);
            assert(packs(self.skills@) =~= held.update(i as int, p));
        } else {
            let ghost p = skill@;
            self.skills.push(skill);
            assert(packs(self.skills@) =~= held.push(p));
        }
    }

    fn find(&self, name: &str) -> (i: usize)
        ensures
            i == name_index(self@.skills, name@),
            i <= self.skills@.len(),
    {
        let ghost all = packs(self.skills@);
        let mut i: usize = 0;
        while i < self.skills.len() && !same(self.skills[i].name.as_str(), name)
            invariant
                i <= self.skills@.len(),
                all == packs(self.skills@),
                forall|j: int| 0 <= j < i ==> all[j].name != name@,
            decreases self.skills.len() - i,
        {
            assert(all[i as int] == self.skills@[i as int]@);
            i = i + 1;
        }
        proof {
            if i < all.len() {
                assert(all[i as int] == self.skills@[i as int]@);
            }
            lemma_name_index_is(all, name@, i as nat);
        }
        i
    }

    /// The skills.
    pub fn skills(&self) -> (r: &Vec<Skill>)
        ensures
            packs(r@) == self@.skills,
    {
        &self.skills
    }

    /// Are there none?
    pub fn is_empty(&self) -> (r: bool)
        ensures
            r == (self@.skills.len() == 0),
    {
        self.skills.len() == 0
    }

    /// The skill of that name.
    pub fn get(&self, name: &str) -> (r: Option<&Skill>)
        ensures
            match r {
                Some(s) => name_index(self@.skills, name@) < self@.skills.len() && s@
                    == self@.skills[name_index(self@.skills, name@) as int],
                None => name_index(self@.skills, name@) == self@.skills.len(),
            },
    {
        let i = self.find(name);
        if i < self.skills.len() {
            Some(&self.skills[i])
        } else {
            None
        }
    }

    /// Warnings and notices of what was overridden.
    pub fn notes(&self) -> (r: &Vec<String>)
        ensures
            views(r@) == self@.notes,
    {
        &self.notes
    }

    /// The places that a search looks at, and whether each is there. A skill in the wrong
    /// place is found by nothing, so an empty catalog can say where it looked. `there` are
    /// the places that exist.
    pub fn searched(paths: Vec<String>, there: &Vec<String>) -> (r: Vec<(String, bool)>)
        ensures
            r@.len() == paths@.len(),
            forall|i: int|
                0 <= i < r@.len() ==> (#[trigger] r@[i]).0@ == paths@[i]@ && r@[i].1 == views(
                    there@,
                ).contains(paths@[i]@),
    {
        let mut r: Vec<(String, bool)> = Vec::new();
        let mut i: usize = 0;
        while i < paths.len()
            invariant
                i <= paths@.len(),
                r@.len() == i,
                forall|j: int|
                    0 <= j < i ==> (#[trigger] r@[j]).0@ == paths@[j]@ && r@[j].1 == views(
                        there@,
                    ).contains(paths@[j]@),
            decreases paths.len() - i,
        {
            let exists = any_same(there, paths[i].as_str());
            r.push((paths[i].clone(), exists));
            i = i + 1;
        }
        r
    }

    /// The stray `SKILL.md` files beside a project's `skills` directory, which no search
    /// finds: the common mistake. `dirs` are the project's directories by name, each with
    /// whether it holds a `SKILL.md`.
    pub fn misplaced(project_dir: &str, dirs: &Vec<(String, bool)>) -> (r: Vec<String>)
        ensures
            views(r@) == all_below(
                project_dir@,
                ranked(strays(dirs@, dirs@.len()), by_text()),
            ).map_values(|p: Seq<char>| joined_path(p, "SKILL.md"@)),
    {
        let mut names: Vec<String> = Vec::new();
        let mut i: usize = 0;
        while i < dirs.len()
            invariant
                i <= dirs@.len(),
                views(names@) == strays(dirs@, i as nat),
            decreases dirs.len() - i,
        {
            if dirs[i].1 && !same(dirs[i].0.as_str(), "skills") {
                names.push(dirs[i].0.clone());
            }
            i = i + 1;
        }
        let sorted = sort_names(names);
        let found = paths_below(project_dir, &sorted);
        let mut r: Vec<String> = Vec::new();
        let mut k: usize = 0;
        let ghost all = views(found@).map_values(|p: Seq<char>| joined_path(p, "SKILL.md"@));
        while k < found.len()
            invariant
                k <= found@.len(),
                all == views(found@).map_values(|p: Seq<char>| joined_path(p, "SKILL.md"@)),
                views(r@) == all.take(k as int),
            decreases found.len() - k,
        {
            r.push(join_path(found[k].as_str(), "SKILL.md"));
            assert(all.take(k + 1) =~= all.take(k as int).push(all[k as int]));
            k = k + 1;
        }
        assert(all.take(k as int) =~= all);
        r
    }

    /// The part that is always in the prompt: one line per skill, and how to get the
    /// rest. A session without skills pays nothing.
    pub fn prompt_section(&self, max_chars: usize) -> (r: String)
        ensures
            r@ == catalog_section(self@.skills, max_chars as nat),
    {
        if self.skills.len() == 0 {
            assert(packs(self.skills@).len() == 0);
            let none = String::new();
            assert(none@ =~= seq![]);
            return none;
        }
        let ghost ps = packs(self.skills@);
        let mut out =
            "<SKILLS>\nInstruction packs available for this project. Call the `skill` tool with a name to load one's full instructions before doing that kind of work.\n".to_owned();
        let mut dropped: usize = 0;
        let mut i: usize = 0;
        while i < self.skills.len()
            invariant
                i <= self.skills@.len(),
                ps == packs(self.skills@),
                dropped <= i,
                (out@, dropped as nat) == listed(ps, i as nat, max_chars as nat),
            decreases self.skills.len() - i,
        {
            let s = &self.skills[i];
            assert(ps[i as int] == s@);
            let mut line = "- ".to_owned();
            line.append(s.name.as_str());
            line.append(": ");
            line.append(s.description.as_str());
            line.append("\n");
            let have = utf8_len(out.as_str());
            let more = utf8_len(line.as_str());
            let max = max_chars as u128;
            if have > max || more > max - have {
                dropped = dropped + 1;
            } else {
                out.append(line.as_str());
            }
            i = i + 1;
        }
        if dropped > 0 {
            let mut s = "(".to_owned();
            s.append(decimal(dropped as u128).as_str());
            s.append(" more skills not listed — the catalog hit its size cap)\n");
            out.append(s.as_str());
        } else {
            assert(out@ =~= out@ + seq![]);
        }
        out.append("</SKILLS>\n");
        out
    }
}

/// Where skills live, lowest precedence first: the project beats what is global, and
/// the program's own directory beats the one of that name that other programs share.
pub open spec fn places(
    project: Seq<char>,
    shared: Seq<char>,
    home: Option<Seq<char>>,
    global: Option<Seq<char>>,
) -> Seq<Seq<char>> {
    seq![joined_path(project, "skills"@)] + (match home {
        Some(h) => seq![joined_path(joined_path(h, shared), "skills"@)],
        None => seq![],
    }) + (match global {
        Some(g) => seq![joined_path(g, "skills"@)],
        None => seq![],
    }) + seq![
        joined_path(joined_path(project, shared), "skills"@),
        joined_path(joined_path(project, ".worksmith"@), "skills"@),
    ]
}

/// Where skills live, lowest precedence first.
pub fn search_paths(
    project_dir: &str,
    shared: &str,
    home: &Option<String>,
    global: &Option<String>,
) -> (r: Vec<String>)
    ensures
        views(r@) == places(
            project_dir@,
            shared@,
            crate::text::opt_view(*home),
            crate::text::opt_view(*global),
        ),
{
    let mut paths: Vec<String> = Vec::new();
    paths.push(join_path(project_dir, "skills"));
    if let Some(h) = home {
        paths.push(join_path(join_path(h.as_str(), shared).as_str(), "skills"));
    }
    if let Some(g) = global {
        paths.push(join_path(g.as_str(), "skills"));
    }
    paths.push(join_path(join_path(project_dir, shared).as_str(), "skills"));
    paths.push(join_path(join_path(project_dir, ".worksmith").as_str(), "skills"));
    assert(views(paths@) =~= places(
        project_dir@,
        shared@,
        crate::text::opt_view(*home),
        crate::text::opt_view(*global),
    ));
    paths
}

/// Texts in order.
pub open spec fn by_text() -> spec_fn(Seq<char>, Seq<char>) -> bool {
    |a: Seq<char>, b: Seq<char>| !at_most(b, a)
}

/// The texts, sorted; texts that are the same stay as they were.
pub(crate) fn sort_names(v: Vec<String>) -> (r: Vec<String>)
    ensures
        views(r@) == ranked(views(v@), by_text()),
{
    let ghost before = |a: String, b: String| !at_most(b@, a@);
    proof {
        lemma_ranked_map(v@, |s: String| s@, before, by_text());
        assert forall|t: Seq<String>| #[trigger] views(t) == t.map_values(|s: String| s@) by {
            assert(views(t) =~= t.map_values(|s: String| s@));
        }
    }
    in_rank(
        v,
        |a: &String, b: &String| -> (c: bool) ensures c == before(*a, *b) { !is_at_most(b.as_str(), a.as_str()) },
        Ghost(before),
    )
}

/// The paths of files in a directory.
pub open spec fn all_below(dir: Seq<char>, names: Seq<Seq<char>>) -> Seq<Seq<char>> {
    names.map_values(|n: Seq<char>| joined_path(dir, n))
}

pub(crate) fn paths_below(dir: &str, names: &Vec<String>) -> (r: Vec<String>)
    ensures
        views(r@) == all_below(dir@, views(names@)),
{
    let mut r: Vec<String> = Vec::new();
    let mut i: usize = 0;
    let ghost all = all_below(dir@, views(names@));
    while i < names.len()
        invariant
            i <= names@.len(),
            all == all_below(dir@, views(names@)),
            views(r@) == all.take(i as int),
        decreases names.len() - i,
    {
        r.push(join_path(dir, names[i].as_str()));
        assert(all.take(i + 1) =~= all.take(i as int).push(all[i as int]));
        i = i + 1;
    }
    assert(all.take(i as int) =~= all);
    r
}

/// The directories among the first `n` that hold a `SKILL.md` where no search looks for
/// it. Each comes with whether it holds one.
pub open spec fn strays(dirs: Seq<(String, bool)>, n: nat) -> Seq<Seq<char>>
    decreases n,
{
    if n == 0 {
        seq![]
    } else if dirs[n - 1].1 && dirs[n - 1].0@ != "skills"@ {
        strays(dirs, (n - 1) as nat).push(dirs[n - 1].0@)
    } else {
        strays(dirs, (n - 1) as nat)
    }
}

// ---- laws -------------------------------------------------------------------

/// No two skills have the same name.
pub open spec fn one_each(s: Seq<Pack>) -> bool {
    forall|i: int, j: int| 0 <= i < j < s.len() ==> (#[trigger] s[i]).name != (#[trigger] s[j]).name
}

/// One name, one entry: a skill that is put on the shelf is the one that its name finds
/// from then on, the others stay as they are, and an override is announced.
pub proof fn the_nearest_definition_wins(c: Shelf, p: Pack, other: Seq<char>)
    requires
        one_each(c.skills),
        other != p.name,
    ensures
        ({
            let d = shelved(c, p);
            let i = name_index(d.skills, p.name);
            let was = name_index(c.skills, p.name);
            let k = name_index(c.skills, other);
            &&& one_each(d.skills)
            &&& i < d.skills.len() && d.skills[i as int] == p
            &&& was < c.skills.len() ==> d.notes.len() == c.notes.len() + 1
            &&& k < c.skills.len() ==> name_index(d.skills, other) == k && d.skills[k as int]
                == c.skills[k as int]
        }),
{
    let d = shelved(c, p);
    lemma_name_index(c.skills, p.name);
    lemma_name_index(c.skills, other);
    let was = name_index(c.skills, p.name);
    let k = name_index(c.skills, other);
    lemma_name_index_is(d.skills, p.name, was);
    if k < c.skills.len() {
        lemma_name_index_is(d.skills, other, k);
    }
    assert forall|i: int, j: int| 0 <= i < j < d.skills.len() implies (#[trigger] d.skills[i]).name
        != (#[trigger] d.skills[j]).name by {
        if i != was && j != was {
            assert(c.skills[i].name != c.skills[j].name);
        } else if was < c.skills.len() {
            assert(c.skills[i].name != c.skills[j].name);
        }
    }
}

/// The catalog is bounded: the list stays within its cap, once it has begun within it,
/// and what did not fit is counted.
pub proof fn the_catalog_is_bounded(ps: Seq<Pack>, n: nat, max: nat)
    requires
        byte_len(catalog_head()) <= max,
    ensures
        byte_len(listed(ps, n, max).0) <= max,
        listed(ps, n, max).1 <= n,
    decreases n,
{
    if n > 0 {
        the_catalog_is_bounded(ps, (n - 1) as nat, max);
        let (text, dropped) = listed(ps, (n - 1) as nat, max);
        lemma_byte_len_cat(text, catalog_line(ps[n - 1]));
    }
}

/// Nothing fails silently: every file that is no skill leaves a note.
pub proof fn every_refusal_is_noted(fs: Seq<SkillFile>, n: nat)
    ensures
        good(fs, n).len() + refusals(fs, n).len() == n,
    decreases n,
{
    if n > 0 {
        every_refusal_is_noted(fs, (n - 1) as nat);
    }
}

/// The lines of the first `n` skills.
pub open spec fn skill_lines(ps: Seq<Pack>, n: nat) -> Seq<Seq<char>> {
    Seq::new(n, |i: int| "- "@ + ps[i].name + ": "@ + ps[i].description + "\n"@)
}

/// Where nothing is left out, every skill is listed, by its name and what it is for, in
/// order; and a skill is left out just where its line does not fit, and counted.
pub proof fn every_skill_that_fits_is_listed(ps: Seq<Pack>, n: nat, max: nat)
    requires
        n <= ps.len(),
    ensures
        listed(ps, n, max).1 == 0 ==> listed(ps, n, max).0 == catalog_head() + concat(
            skill_lines(ps, n),
        ),
        n > 0 ==> ({
            let before = listed(ps, (n - 1) as nat, max);
            let line = "- "@ + ps[n - 1].name + ": "@ + ps[n - 1].description + "\n"@;
            let fits = byte_len(before.0) + byte_len(line) <= max;
            &&& fits ==> listed(ps, n, max) == (before.0 + line, before.1)
            &&& !fits ==> listed(ps, n, max) == (before.0, before.1 + 1)
        }),
    decreases n,
{
    if n == 0 {
        assert(skill_lines(ps, 0) =~= seq![]);
        assert(catalog_head() + concat(seq![]) =~= catalog_head());
    } else {
        every_skill_that_fits_is_listed(ps, (n - 1) as nat, max);
        let ls = skill_lines(ps, (n - 1) as nat);
        let line = catalog_line(ps[n - 1]);
        assert(skill_lines(ps, n) =~= ls.push(line));
        assert(catalog_head() + (concat(ls) + line) =~= catalog_head() + concat(ls) + line);
    }
}

/// A skill is found by its name just where there is one of that name, and what is found is
/// the first.
pub proof fn a_skill_is_found_by_its_name(s: Seq<Pack>, name: Seq<char>)
    ensures
        name_index(s, name) <= s.len(),
        name_index(s, name) < s.len() ==> s[name_index(s, name) as int].name == name,
        forall|i: int| 0 <= i < name_index(s, name) ==> (#[trigger] s[i]).name != name,
        (exists|i: int| 0 <= i < s.len() && (#[trigger] s[i]).name == name) ==> name_index(s, name)
            < s.len(),
    decreases s.len(),
{
    if s.len() > 0 && s[0].name != name {
        let r = s.drop_first();
        a_skill_is_found_by_its_name(r, name);
        assert forall|i: int| 0 <= i < name_index(s, name) implies (#[trigger] s[i]).name
            != name by {
            if i > 0 {
                assert(s[i] == r[i - 1]);
            }
        }
        if exists|i: int| 0 <= i < s.len() && (#[trigger] s[i]).name == name {
            let i = choose|i: int| 0 <= i < s.len() && (#[trigger] s[i]).name == name;
            assert(r[i - 1].name == name);
        }
    }
}

/// Every file that can be read as a skill is one, in order, and every other one is noted with
/// its path and the reason.
pub proof fn every_file_is_a_skill_or_noted(fs: Seq<SkillFile>, n: nat)
    requires
        0 < n <= fs.len(),
    ensures
        ({
            let m = (n - 1) as nat;
            match fs[n - 1].text {
                Ok(t) => match skill_of(fs[n - 1].path@, t@) {
                    Ok(p) => good(fs, n) == good(fs, m).push(p) && refusals(fs, n) == refusals(
                        fs,
                        m,
                    ),
                    Err(e) => good(fs, n) == good(fs, m) && refusals(fs, n) == refusals(fs, m).push(
                        "skipped "@ + fs[n - 1].path@ + ": "@ + e,
                    ),
                },
                Err(_) => good(fs, n) == good(fs, m) && refusals(fs, n).len() == refusals(
                    fs,
                    m,
                ).len() + 1,
            }
        }),
{
}

} // verus!
