//! `skill`: load an instruction pack's full text on demand.
//!
//! The catalog in the prompt has only names and descriptions; this is how the model
//! gets the rest.
use vstd::prelude::*;
use vstd::string::*;

use crate::json::{get_str, str_arg, Json};
use crate::list::{concat, group_lists};
use crate::skill::catalog::{catalog_line, name_index, SkillCatalog};
use crate::skill::frontmatter::body_of;
use crate::skill::outline::outline;
use crate::skill::{map_of, packs, Pack, Reference, SectionMatch, Skill};
use crate::text::{same, trim, trimmed};
use crate::tools::{fine, wrong, Output, ToolOutput};

verus! {

broadcast use group_lists;

/// Loads instruction packs.
pub struct SkillTool;

/// The lines of a list of skills.
pub open spec fn skill_lines(ps: Seq<Pack>) -> Seq<Seq<char>> {
    Seq::new(ps.len(), |i: int| catalog_line(ps[i]))
}

/// How the skills are listed.
pub open spec fn listing(ps: Seq<Pack>) -> Seq<char> {
    if ps.len() == 0 {
        "(no skills installed — add one under .worksmith/skills/<name>/SKILL.md)"@
    } else {
        "available skills:\n"@ + concat(skill_lines(ps))
    }
}

/// How the skills are listed.
pub fn list(catalog: &SkillCatalog) -> (r: String)
    ensures
        r@ == listing(catalog@.skills),
{
    if catalog.is_empty() {
        return "(no skills installed — add one under .worksmith/skills/<name>/SKILL.md)".to_owned();
    }
    let skills = catalog.skills();
    let ghost all = skill_lines(packs(skills@));
    let mut out = "available skills:\n".to_owned();
    let ghost head = out@;
    let mut i: usize = 0;
    assert(out@ =~= head + concat(all.take(0)));
    while i < skills.len()
        invariant
            i <= skills@.len(),
            all == skill_lines(packs(skills@)),
            out@ == head + concat(all.take(i as int)),
        decreases skills.len() - i,
    {
        let s = &skills[i];
        assert(packs(skills@)[i as int] == s@);
        let mut line = "- ".to_owned();
        line.append(s.name.as_str());
        line.append(": ");
        line.append(s.description.as_str());
        line.append("\n");
        out.append(line.as_str());
        assert(all.take(i + 1) =~= all.take(i as int).push(all[i as int]));
        assert(out@ =~= head + concat(all.take(i + 1)));
        i = i + 1;
    }
    assert(all.take(i as int) =~= all);
    out
}

/// What a call of the tool asks for. A skill is given by its place in the catalog.
#[derive(Debug)]
pub enum SkillCall {
    /// It is answered at once.
    Answer(ToolOutput),
    Section { skill: usize, query: String },
    Load { skill: usize },
}

/// What is said of a skill that is not there.
pub open spec fn no_such_skill(name: Seq<char>, ps: Seq<Pack>) -> Output {
    wrong("no skill named `"@ + name + "`.\n"@ + listing(ps))
}

fn find_skill(catalog: &SkillCatalog, name: &str) -> (i: usize)
    ensures
        i == name_index(catalog@.skills, name@),
        i <= catalog@.skills.len(),
{
    let skills = catalog.skills();
    let ghost all = packs(skills@);
    let mut i: usize = 0;
    assert(all.skip(0) =~= all);
    while i < skills.len() && !same(skills[i].name.as_str(), name)
        invariant
            i <= skills@.len(),
            all == packs(skills@),
            name_index(all, name@) == i + name_index(all.skip(i as int), name@),
        decreases skills.len() - i,
    {
        assert(all[i as int] == skills@[i as int]@);
        assert(all.skip(i as int).drop_first() =~= all.skip(i + 1));
        i = i + 1;
    }
    assert(i < skills@.len() ==> all[i as int] == skills@[i as int]@);
    i
}

/// What a call of the tool asks for: without a name, the list.
pub fn skill_call(args: &Json, catalog: &SkillCatalog) -> (r: SkillCall)
    ensures
        ({
            let ps = catalog@.skills;
            match str_arg(args@, "name"@) {
                None => r matches SkillCall::Answer(o) && o@ == fine(listing(ps)),
                Some(n) => {
                    let i = name_index(ps, trim(n));
                    if i >= ps.len() {
                        r matches SkillCall::Answer(o) && o@ == no_such_skill(trim(n), ps)
                    } else {
                        match str_arg(args@, "section"@) {
                            Some(q) => r matches SkillCall::Section { skill, query } && skill == i
                                && query@ == q,
                            None => r matches SkillCall::Load { skill } && skill == i,
                        }
                    }
                },
            }
        }),
{
    let name = match get_str(args, "name") {
        None => return SkillCall::Answer(ToolOutput::ok(list(catalog).as_str())),
        Some(n) => trimmed(n),
    };
    let i = find_skill(catalog, name.as_str());
    if i >= catalog.skills().len() {
        let mut s = "no skill named `".to_owned();
        s.append(name.as_str());
        s.append("`.\n");
        s.append(list(catalog).as_str());
        return SkillCall::Answer(ToolOutput::error(s.as_str()));
    }
    match get_str(args, "section") {
        Some(q) => SkillCall::Section { skill: i, query: q.to_owned() },
        None => SkillCall::Load { skill: i },
    }
}

/// A skill's text, as it is pinned to the prompt. Naming the directory is what makes the
/// skill's own paths resolvable.
pub open spec fn pinned(p: Pack, body: Seq<char>, map: Seq<char>) -> Seq<char> {
    "skill `"@ + p.name + "` (files live in "@ + p.dir + ")\n\n"@ + trim(body) + (if map.len()
        == 0 {
        seq![]
    } else {
        "\n\n"@ + map
    })
}

/// Texts by name.
pub open spec fn pins(v: Seq<(String, String)>) -> Seq<(Seq<char>, Seq<char>)> {
    Seq::new(v.len(), |i: int| (v[i].0@, v[i].1@))
}

/// Is a skill of that name among the loaded ones?
pub open spec fn is_pinned(ps: Seq<(Seq<char>, Seq<char>)>, name: Seq<char>) -> bool {
    exists|i: int| 0 <= i < ps.len() && (#[trigger] ps[i]).0 == name
}

/// Load a skill: its text is pinned to the prompt. One that is loaded already is not
/// served again, because the model is looking at it.
pub fn load_skill(
    skill: &Skill,
    text: &str,
    refs: &Vec<Reference>,
    loaded: &mut Vec<(String, String)>,
) -> (r: ToolOutput)
    ensures
        ({
            let p = skill@;
            let full = pinned(p, body_of(text@), map_of(p.name, p.dir, refs@));
            if is_pinned(pins(old(loaded)@), p.name) {
                &&& pins(final(loaded)@) == pins(old(loaded)@)
                &&& r@ == fine(
                    "skill `"@ + p.name
                        + "` is already loaded — its full instructions are in your system prompt under <SKILLS-LOADED>. Files live in "@
                        + p.dir
                        + ". Fetch one reference section with skill(name, section). Get on with the work it describes."@,
                )
            } else {
                &&& pins(final(loaded)@) == pins(old(loaded)@).push((p.name, full))
                &&& r@ == fine(full)
            }
        }),
{
    let ghost held = pins(loaded@);
    let mut i: usize = 0;
    while i < loaded.len()
        invariant
            i <= loaded@.len(),
            loaded@ == old(loaded)@,
            held == pins(loaded@),
            forall|j: int| 0 <= j < i ==> (#[trigger] held[j]).0 != skill@.name,
        decreases loaded.len() - i,
    {
        if same(loaded[i].0.as_str(), skill.name.as_str()) {
            assert(held[i as int].0 == skill@.name);
            let mut s = "skill `".to_owned();
            s.append(skill.name.as_str());
            s.append(
                "` is already loaded — its full instructions are in your system prompt under <SKILLS-LOADED>. Files live in ",
            );
            s.append(skill.dir.as_str());
            s.append(
                ". Fetch one reference section with skill(name, section). Get on with the work it describes.",
            );
            return ToolOutput::ok(s.as_str());
        }
        i = i + 1;
    }
    let body = skill.body(text);
    let map = skill.map(refs);
    let mut full = "skill `".to_owned();
    full.append(skill.name.as_str());
    full.append("` (files live in ");
    full.append(skill.dir.as_str());
    full.append(")\n\n");
    full.append(trimmed(body.as_str()).as_str());
    if map.as_str().unicode_len() > 0 {
        let mut tail = "\n\n".to_owned();
        tail.append(map.as_str());
        full.append(tail.as_str());
    } else {
        assert(full@ =~= full@ + seq![]);
    }
    loaded.push((skill.name.clone(), full.clone()));
    assert(pins(loaded@) =~= held.push((skill@.name, full@)));
    ToolOutput::ok(full.as_str())
}

/// The lines that name candidates.
pub open spec fn candidate_lines(v: Seq<(String, String)>) -> Seq<Seq<char>> {
    Seq::new(v.len(), |i: int| "- "@ + v[i].1@ + " ("@ + v[i].0@ + ")\n"@)
}

/// The lines that name the headings of a file.
pub open spec fn heading_lines(hs: Seq<(nat, Seq<char>)>) -> Seq<Seq<char>> {
    Seq::new(hs.len(), |i: int| "- "@ + hs[i].1 + "\n"@)
}

/// What is said of a lookup.
pub open spec fn section_answer(p: Pack, map: Seq<char>, query: Seq<char>, m: SectionMatch) -> Output {
    match m {
        SectionMatch::One { file, heading, content } => fine(
            p.name + " § "@ + heading@ + " (from "@ + file@ + ")\n\n"@ + content@,
        ),
        SectionMatch::Many(v) => fine(
            "`"@ + query + "` matches several sections — pick one:\n"@ + concat(
                candidate_lines(v@),
            ),
        ),
        SectionMatch::File { file, headings } => fine(
            "`"@ + file@ + "` is a reference file — pick one of its sections:\n"@ + concat(
                heading_lines(outline(headings@)),
            ),
        ),
        SectionMatch::Nothing => wrong(
            if map.len() == 0 {
                "skill `"@ + p.name + "` has no reference sections to search; read files under "@
                    + p.dir + " directly"@
            } else {
                "no section matching `"@ + query + "`. The map:\n"@ + map
                    + "\nOr grep references/."@
            },
        ),
    }
}

fn show_candidates(query: &str, v: &Vec<(String, String)>) -> (r: ToolOutput)
    ensures
        r@ == fine(
            "`"@ + query@ + "` matches several sections — pick one:\n"@ + concat(
                candidate_lines(v@),
            ),
        ),
{
    let ghost all = candidate_lines(v@);
    let mut out = "`".to_owned();
    out.append(query);
    out.append("` matches several sections — pick one:\n");
    let ghost head = out@;
    let mut i: usize = 0;
    assert(out@ =~= head + concat(all.take(0)));
    while i < v.len()
        invariant
            i <= v@.len(),
            all == candidate_lines(v@),
            out@ == head + concat(all.take(i as int)),
        decreases v.len() - i,
    {
        let mut line = "- ".to_owned();
        line.append(v[i].1.as_str());
        line.append(" (");
        line.append(v[i].0.as_str());
        line.append(")\n");
        out.append(line.as_str());
        assert(all.take(i + 1) =~= all.take(i as int).push(all[i as int]));
        assert(out@ =~= head + concat(all.take(i + 1)));
        i = i + 1;
    }
    assert(all.take(i as int) =~= all);
    ToolOutput::ok(out.as_str())
}

fn show_headings(file: &str, v: &Vec<(usize, String)>) -> (r: ToolOutput)
    ensures
        r@ == fine(
            "`"@ + file@ + "` is a reference file — pick one of its sections:\n"@ + concat(
                heading_lines(outline(v@)),
            ),
        ),
{
    let ghost all = heading_lines(outline(v@));
    let mut out = "`".to_owned();
    out.append(file);
    out.append("` is a reference file — pick one of its sections:\n");
    let ghost head = out@;
    let mut i: usize = 0;
    assert(out@ =~= head + concat(all.take(0)));
    while i < v.len()
        invariant
            i <= v@.len(),
            all == heading_lines(outline(v@)),
            out@ == head + concat(all.take(i as int)),
        decreases v.len() - i,
    {
        let mut line = "- ".to_owned();
        line.append(v[i].1.as_str());
        line.append("\n");
        out.append(line.as_str());
        assert(all.take(i + 1) =~= all.take(i as int).push(all[i as int]));
        assert(out@ =~= head + concat(all.take(i + 1)));
        i = i + 1;
    }
    assert(all.take(i as int) =~= all);
    ToolOutput::ok(out.as_str())
}

/// What is said of a lookup. A guess would let the model write confidently from the
/// wrong section; candidates cost one short round trip.
pub fn show_section(skill: &Skill, refs: &Vec<Reference>, query: &str, m: &SectionMatch) -> (r:
    ToolOutput)
    ensures
        r@ == section_answer(skill@, map_of(skill@.name, skill@.dir, refs@), query@, *m),
{
    match m {
        SectionMatch::One { file, heading, content } => {
            let mut s = skill.name.clone();
            s.append(" § ");
            s.append(heading.as_str());
            s.append(" (from ");
            s.append(file.as_str());
            s.append(")\n\n");
            s.append(content.as_str());
            ToolOutput::ok(s.as_str())
        },
        SectionMatch::Many(v) => show_candidates(query, v),
        SectionMatch::File { file, headings } => show_headings(file.as_str(), headings),
        SectionMatch::Nothing => {
            let map = skill.map(refs);
            if map.as_str().unicode_len() == 0 {
                let mut s = "skill `".to_owned();
                s.append(skill.name.as_str());
                s.append("` has no reference sections to search; read files under ");
                s.append(skill.dir.as_str());
                s.append(" directly");
                ToolOutput::error(s.as_str())
            } else {
                let mut s = "no section matching `".to_owned();
                s.append(query);
                s.append("`. The map:\n");
                s.append(map.as_str());
                s.append("\nOr grep references/.");
                ToolOutput::error(s.as_str())
            }
        },
    }
}

/// Fetch a section of a skill's reference files.
pub fn fetch_section(skill: &Skill, refs: &Vec<Reference>, query: &str) -> (r: ToolOutput)
    ensures
        exists|m: SectionMatch|
            crate::skill::found_section(skill@.dir, refs@, query@, m) && r@ == section_answer(
                skill@,
                map_of(skill@.name, skill@.dir, refs@),
                query@,
                m,
            ),
{
    let m = skill.find_section(refs, query);
    show_section(skill, refs, query, &m)
}

// ---- laws -------------------------------------------------------------------

/// A skill is served once: after it is loaded, it is pinned, and stays so.
pub proof fn a_loaded_skill_stays_pinned(ps: Seq<(Seq<char>, Seq<char>)>, name: Seq<char>, text: Seq<char>, other: Seq<char>)
    ensures
        is_pinned(ps.push((name, text)), name),
        is_pinned(ps, other) ==> is_pinned(ps.push((name, text)), other),
{
    let qs = ps.push((name, text));
    assert(qs[ps.len() as int].0 == name);
    if is_pinned(ps, other) {
        let i = choose|i: int| 0 <= i < ps.len() && (#[trigger] ps[i]).0 == other;
        assert(qs[i].0 == other);
    }
}

} // verus!
