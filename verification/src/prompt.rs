//! The system prompt: base instructions, project instructions and the skill catalog.
use vstd::prelude::*;
use vstd::string::*;

use crate::text::{contains, ends_with, starts_with, trim, trimmed};
use crate::wording::a_part_stands_in_the_whole;

verus! {

/// The base instructions.
pub const BASE_SYSTEM_PROMPT: &'static str = "\
You are Worksmith, a terminal coding agent. You accomplish tasks by calling \
tools (read, write, edit, bash, grep, find, ls) rather than by guessing. \
Prefer reading files before editing them. Make minimal, correct changes and \
verify your work (build/tests) when possible. Be concise in prose — the user \
is in a terminal. When the task is complete, stop calling tools and give a \
short summary.

MEMORY AND KNOWLEDGE
- `memory` holds what was decided, preferred, required, or learned across \
sessions. Search it before assuming how this project does something, and \
before contradicting an established decision.
- `knowledge` searches this project's own documents and source. Prefer it over \
guessing which file explains a topic.
- Remember only what will still matter next week: decisions, constraints, \
preferences, durable facts, hard-won lessons. Never store file locations, tool \
output, line numbers, one-time actions, generic programming knowledge, or \
anything re-derivable from the code — that is knowledge, not memory. Prefer \
storing nothing.";

/// Extra instructions for a spawned worker: nobody is watching, so it does not ask, and
/// durable findings are proposals, not writes.
pub const WORKER_PREAMBLE: &'static str = "You are a background worker executing a delegated \
task autonomously. Do not ask the user questions; make reasonable assumptions, \
complete the task, and finish with a concise summary of what you did. If you \
learn something durable, `memory` records it as a *proposal* for the main \
session to approve — so propose sparingly, and only what outlives this \
task.";

/// A part of the prompt behind the others; nothing where it is blank.
pub open spec fn part(s: Seq<char>) -> Seq<char> {
    if trim(s).len() == 0 {
        seq![]
    } else {
        "\n\n"@ + s
    }
}

/// The stable system prompt.
pub open spec fn system_prompt(instructions: Seq<char>, skills: Seq<char>) -> Seq<char> {
    BASE_SYSTEM_PROMPT@ + part(instructions) + part(skills)
}

fn append_part(out: &mut String, s: &str)
    ensures
        final(out)@ == old(out)@ + part(s@),
{
    if trimmed(s).as_str().unicode_len() > 0 {
        out.append("\n\n");
        out.append(s);
        assert(out@ =~= old(out)@ + part(s@));
    } else {
        assert(out@ =~= old(out)@ + part(s@));
    }
}

/// The stable system prompt for a turn: what is told from memory comes separately, so
/// that this prefix can be cached. Of the skills only the catalog is in it.
pub fn build_system_prompt(instructions: &str, skills: &str) -> (r: String)
    ensures
        r@ == system_prompt(instructions@, skills@),
{
    let mut s = BASE_SYSTEM_PROMPT.to_owned();
    append_part(&mut s, instructions);
    append_part(&mut s, skills);
    s
}

/// The system prompt that a spawned worker runs with.
pub fn build_worker_prompt(instructions: &str, skills: &str) -> (r: String)
    ensures
        r@ == system_prompt(instructions@, skills@) + "\n\n"@ + WORKER_PREAMBLE@,
{
    let mut s = build_system_prompt(instructions, skills);
    s.append("\n\n");
    s.append(WORKER_PREAMBLE);
    s
}

/// The prompt begins with the base instructions, and holds the project's instructions and
/// the skills whole, in that order, wherever they say anything.
pub proof fn the_prompt_holds_what_it_is_given(instructions: Seq<char>, skills: Seq<char>)
    ensures
        starts_with(system_prompt(instructions, skills), BASE_SYSTEM_PROMPT@),
        trim(instructions).len() > 0 ==> contains(
            system_prompt(instructions, skills),
            instructions,
        ),
        trim(skills).len() > 0 ==> ends_with(system_prompt(instructions, skills), skills),
        trim(instructions).len() == 0 && trim(skills).len() == 0 ==> system_prompt(
            instructions,
            skills,
        ) == BASE_SYSTEM_PROMPT@,
{
    let p = system_prompt(instructions, skills);
    assert(p.take(BASE_SYSTEM_PROMPT@.len() as int) =~= BASE_SYSTEM_PROMPT@);
    if trim(instructions).len() > 0 {
        let a = BASE_SYSTEM_PROMPT@ + "\n\n"@;
        a_part_stands_in_the_whole(a, instructions, part(skills));
        assert(a + instructions + part(skills) =~= p);
    }
    if trim(skills).len() > 0 {
        assert(p.skip(p.len() - skills.len()) =~= skills);
    }
    if trim(instructions).len() == 0 && trim(skills).len() == 0 {
        assert(p =~= BASE_SYSTEM_PROMPT@);
    }
}

} // verus!
