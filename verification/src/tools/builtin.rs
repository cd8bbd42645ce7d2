//! The tools that come with the program, as they are advertised to a model.
use vstd::prelude::*;
use vstd::string::*;

use crate::list::group_lists;
use crate::tools::{registered, ToolRegistry};

verus! {

broadcast use group_lists;

/// A tool, as it is advertised. The schema of its arguments is a JSON text.
#[derive(Debug)]
pub struct Advert {
    pub name: &'static str,
    pub description: &'static str,
    pub parameters: &'static str,
}

/// The arguments of `read`.
pub const READ_PARAMETERS: &'static str =
    "{\"properties\":{\"limit\":{\"description\":\"Max number of lines to read.\",\"minimum\":1,\"type\":\"integer\"},\"offset\":{\"description\":\"1-based line to start from.\",\"minimum\":1,\"type\":\"integer\"},\"path\":{\"description\":\"File path (absolute or relative to cwd).\",\"type\":\"string\"}},\"required\":[\"path\"],\"type\":\"object\"}";

/// What `read` is for.
pub const READ_DESCRIPTION: &'static str =
    "Read a text file from the filesystem. Returns the content with line numbers. Use `offset` and `limit` to read a slice of a large file.";

/// The arguments of `write`.
pub const WRITE_PARAMETERS: &'static str =
    "{\"properties\":{\"content\":{\"description\":\"Full file content to write.\",\"type\":\"string\"},\"path\":{\"description\":\"File path (absolute or relative to cwd).\",\"type\":\"string\"}},\"required\":[\"path\",\"content\"],\"type\":\"object\"}";

/// What `write` is for.
pub const WRITE_DESCRIPTION: &'static str =
    "Write content to a file, creating it (and any parent directories) or overwriting it if it exists.";

/// The arguments of `edit`.
pub const EDIT_PARAMETERS: &'static str =
    "{\"properties\":{\"edits\":{\"description\":\"Multiple disjoint edits, applied in order.\",\"items\":{\"properties\":{\"new_string\":{\"type\":\"string\"},\"old_string\":{\"type\":\"string\"},\"replace_all\":{\"type\":\"boolean\"}},\"required\":[\"old_string\",\"new_string\"],\"type\":\"object\"},\"type\":\"array\"},\"new_string\":{\"description\":\"Replacement text (single-edit form).\",\"type\":\"string\"},\"old_string\":{\"description\":\"Exact text to replace (single-edit form).\",\"type\":\"string\"},\"path\":{\"description\":\"File path (absolute or relative to cwd).\",\"type\":\"string\"},\"replace_all\":{\"description\":\"Replace all occurrences (single-edit form).\",\"type\":\"boolean\"}},\"required\":[\"path\"],\"type\":\"object\"}";

/// What `edit` is for.
pub const EDIT_DESCRIPTION: &'static str =
    "Replace exact text in a file. Provide `old_string`/`new_string` for a single edit, or `edits` for several disjoint edits in one call. Each `old_string` must match uniquely unless `replace_all` is set. All edits are applied atomically (file is written only if all succeed).";

/// The arguments of `bash`.
pub const BASH_PARAMETERS: &'static str =
    "{\"properties\":{\"command\":{\"description\":\"The shell command to run.\",\"type\":\"string\"},\"timeout_secs\":{\"description\":\"Override the default timeout (seconds).\",\"minimum\":1,\"type\":\"integer\"}},\"required\":[\"command\"],\"type\":\"object\"}";

/// What `bash` is for.
pub const BASH_DESCRIPTION: &'static str =
    "Run a shell command in the working directory and return its combined stdout/stderr and exit status. Has a timeout; long-running or interactive commands will be killed.";

/// The arguments of `grep`.
pub const GREP_PARAMETERS: &'static str =
    "{\"properties\":{\"path\":{\"description\":\"Directory or file to search (default: cwd).\",\"type\":\"string\"},\"pattern\":{\"description\":\"Regular expression to search for.\",\"type\":\"string\"}},\"required\":[\"pattern\"],\"type\":\"object\"}";

/// What `grep` is for.
pub const GREP_DESCRIPTION: &'static str =
    "Search file contents by regular expression, recursively. Returns `path:line:text` matches. Skips .git/target/node_modules.";

/// The arguments of `find`.
pub const FIND_PARAMETERS: &'static str =
    "{\"properties\":{\"name\":{\"description\":\"Regular expression matched against the file name.\",\"type\":\"string\"},\"path\":{\"description\":\"Directory to search (default: cwd).\",\"type\":\"string\"}},\"required\":[\"name\"],\"type\":\"object\"}";

/// What `find` is for.
pub const FIND_DESCRIPTION: &'static str =
    "Find files whose name matches a regular expression, recursively. Skips .git/target/node_modules.";

/// The arguments of `ls`.
pub const LS_PARAMETERS: &'static str =
    "{\"properties\":{\"path\":{\"description\":\"Directory to list (default: cwd).\",\"type\":\"string\"}},\"type\":\"object\"}";

/// What `ls` is for.
pub const LS_DESCRIPTION: &'static str =
    "List the entries of a directory (directories are suffixed with `/`).";

/// The arguments of `doc`.
pub const DOC_PARAMETERS: &'static str =
    "{\"properties\":{\"action\":{\"description\":\"What to do.\",\"enum\":[\"read\",\"info\",\"convert\",\"extract\",\"create\"],\"type\":\"string\"},\"format\":{\"description\":\"read: output format for DOCX (default markdown).\",\"enum\":[\"markdown\",\"text\"],\"type\":\"string\"},\"limit\":{\"description\":\"read: max number of lines to return from the extracted text.\",\"minimum\":1,\"type\":\"integer\"},\"offset\":{\"description\":\"read: 1-based line to start from in the extracted text. Use with limit to page through large documents.\",\"minimum\":1,\"type\":\"integer\"},\"out\":{\"description\":\"Output file (convert/create) or output directory (extract).\",\"type\":\"string\"},\"pages\":{\"description\":\"PDF page range, e.g. '1-5' or '3' (read/extract).\",\"type\":\"string\"},\"path\":{\"description\":\"Input document (read/info/convert/extract) or source file (create).\",\"type\":\"string\"}},\"required\":[\"action\"],\"type\":\"object\"}";

/// What `doc` is for.
pub const DOC_DESCRIPTION: &'static str =
    "Work with documents (PDF, DOCX, ODT, etc.) via proven CLI engines. Prefer this over `bash`/`read` for documents — it returns clean text. Actions: `read` (path[, pages, format, offset, limit]) → text/markdown (use offset/limit to page through large documents); `info` (path) → metadata; `convert` (path, out) → convert by extension; `extract` (path, out) → extract PDF images to a directory; `create` (path, out) → build a .docx/.pdf from a markdown/text source. Requires the relevant engine installed (pdftotext/poppler, pandoc, or LibreOffice's soffice).";

/// The arguments of `memory`.
pub const MEMORY_PARAMETERS: &'static str =
    "{\"properties\":{\"action\":{\"description\":\"search existing memories, or record a new one\",\"enum\":[\"search\",\"remember\"],\"type\":\"string\"},\"content\":{\"description\":\"the memory itself, one or two sentences\",\"type\":\"string\"},\"importance\":{\"description\":\"0-100, default 60\",\"type\":\"integer\"},\"kind\":{\"enum\":[\"decision\",\"constraint\",\"preference\",\"fact\",\"lesson\"],\"type\":\"string\"},\"limit\":{\"type\":\"integer\"},\"query\":{\"description\":\"search text (action=search)\",\"type\":\"string\"},\"scope\":{\"description\":\"global = true everywhere; project = this repo only (default)\",\"enum\":[\"global\",\"project\"],\"type\":\"string\"},\"subject\":{\"description\":\"short topic key, e.g. \\\"durable memory\\\"\",\"type\":\"string\"}},\"required\":[\"action\"],\"type\":\"object\"}";

/// What `memory` is for.
pub const MEMORY_DESCRIPTION: &'static str =
    "Durable memory across sessions: decisions, constraints, preferences, facts, and lessons. `search` before assuming how this project does something. `remember` only what will still matter next week — not file locations, tool output, or anything re-derivable from the code.";

/// The arguments of `knowledge`.
pub const KNOWLEDGE_PARAMETERS: &'static str =
    "{\"properties\":{\"action\":{\"enum\":[\"search\",\"index\"],\"type\":\"string\"},\"limit\":{\"type\":\"integer\"},\"query\":{\"description\":\"search text (action=search)\",\"type\":\"string\"}},\"required\":[\"action\"],\"type\":\"object\"}";

/// What `knowledge` is for.
pub const KNOWLEDGE_DESCRIPTION: &'static str =
    "Full-text search over this project's own documents and source, chunked into an index. Use it to find what the repo already says about a topic before reading files at random. The index maintains itself; `index` forces a rebuild.";

/// The arguments of `web`.
pub const WEB_PARAMETERS: &'static str =
    "{\"properties\":{\"action\":{\"enum\":[\"search\",\"fetch\"],\"type\":\"string\"},\"limit\":{\"description\":\"results to return, default 5\",\"type\":\"integer\"},\"query\":{\"description\":\"search terms (action=search)\",\"type\":\"string\"},\"url\":{\"description\":\"absolute URL (action=fetch)\",\"type\":\"string\"}},\"required\":[\"action\"],\"type\":\"object\"}";

/// What `web` is for.
pub const WEB_DESCRIPTION: &'static str =
    "Search the web, or fetch a URL as readable text. Use it for anything outside this machine: current documentation, library versions, error messages you don't recognize. Prefer fetching a specific page over searching when you already have the URL.";

/// The arguments of `skill`.
pub const SKILL_PARAMETERS: &'static str =
    "{\"properties\":{\"name\":{\"description\":\"Skill name as shown in <SKILLS>. Omit to list them.\",\"type\":\"string\"},\"section\":{\"description\":\"A heading from the skill's map (see <skill-map>). Returns just that section — far cheaper than reading the file.\",\"type\":\"string\"}},\"type\":\"object\"}";

/// What `skill` is for.
pub const SKILL_DESCRIPTION: &'static str =
    "Load the full instructions for one of the skills listed in <SKILLS>. Call this before doing work that a skill covers — it carries conventions, structure, and review rules you would otherwise have to guess at. With `section`, fetch just one heading from a loaded skill's reference files instead of reading the whole file. With no name, lists what's available.";

/// The arguments of `checkpoint`.
pub const CHECKPOINT_PARAMETERS: &'static str =
    "{\"properties\":{\"detail\":{\"description\":\"For `ask`, the question, with the options you are choosing between and what each costs. For `note`, the why. For `yours`, where the stub is and what it must do.\",\"type\":\"string\"},\"kind\":{\"description\":\"ask = a question, blocks for their answer, filed as a decision. note = one line of why, does not block. yours = you stubbed it, they write it.\",\"enum\":[\"ask\",\"note\",\"yours\"],\"type\":\"string\"},\"subject\":{\"description\":\"What it is about, short: a symbol, a file, or the decision's name. Becomes the decision record's title.\",\"type\":\"string\"}},\"required\":[\"kind\",\"subject\",\"detail\"],\"type\":\"object\"}";

/// What `checkpoint` is for.
pub const CHECKPOINT_DESCRIPTION: &'static str =
    "Bring the user into the work at a point that matters. `ask` puts a real question to them and waits — use it BEFORE writing code, when the plan names a judgment call or two approaches are genuinely defensible; their answer is filed as a decision record. `note` tells them one thing worth knowing about what you just wrote — why, never what, since they can read the code. `yours` hands them the hard part: write the surrounding wiring, leave the function as todo!() with a comment stating the contract, and move on. Do not checkpoint on wiring, boilerplate, or a change the plan did not flag.";

/// The tools that every session has, in order.
pub open spec fn builtin_names() -> Seq<Seq<char>> {
    seq![
        "read"@,
        "write"@,
        "edit"@,
        "bash"@,
        "grep"@,
        "find"@,
        "ls"@,
        "doc"@,
        "memory"@,
        "knowledge"@,
        "web"@,
    ]
}

/// What is advertised of a tool: what it is for, and its arguments.
pub open spec fn advertised(name: Seq<char>) -> Option<(Seq<char>, Seq<char>)> {
    if name == "read"@ {
        Some((READ_DESCRIPTION@, READ_PARAMETERS@))
    } else if name == "write"@ {
        Some((WRITE_DESCRIPTION@, WRITE_PARAMETERS@))
    } else if name == "edit"@ {
        Some((EDIT_DESCRIPTION@, EDIT_PARAMETERS@))
    } else if name == "bash"@ {
        Some((BASH_DESCRIPTION@, BASH_PARAMETERS@))
    } else if name == "grep"@ {
        Some((GREP_DESCRIPTION@, GREP_PARAMETERS@))
    } else if name == "find"@ {
        Some((FIND_DESCRIPTION@, FIND_PARAMETERS@))
    } else if name == "ls"@ {
        Some((LS_DESCRIPTION@, LS_PARAMETERS@))
    } else if name == "doc"@ {
        Some((DOC_DESCRIPTION@, DOC_PARAMETERS@))
    } else if name == "memory"@ {
        Some((MEMORY_DESCRIPTION@, MEMORY_PARAMETERS@))
    } else if name == "knowledge"@ {
        Some((KNOWLEDGE_DESCRIPTION@, KNOWLEDGE_PARAMETERS@))
    } else if name == "web"@ {
        Some((WEB_DESCRIPTION@, WEB_PARAMETERS@))
    } else if name == "skill"@ {
        Some((SKILL_DESCRIPTION@, SKILL_PARAMETERS@))
    } else if name == "checkpoint"@ {
        Some((CHECKPOINT_DESCRIPTION@, CHECKPOINT_PARAMETERS@))
    } else {
        None
    }
}

/// The advertisement of a tool.
pub fn advert(name: &str) -> (r: Option<Advert>)
    ensures
        match r {
            Some(a) => a.name@ == name@ && advertised(name@) == Some(
                (a.description@, a.parameters@),
            ),
            None => advertised(name@) is None,
        },
{
    if crate::text::same(name, "read") {
        return Some(
            Advert { name: "read", description: READ_DESCRIPTION, parameters: READ_PARAMETERS },
        );
    }
    if crate::text::same(name, "write") {
        return Some(
            Advert { name: "write", description: WRITE_DESCRIPTION, parameters: WRITE_PARAMETERS },
        );
    }
    if crate::text::same(name, "edit") {
        return Some(
            Advert { name: "edit", description: EDIT_DESCRIPTION, parameters: EDIT_PARAMETERS },
        );
    }
    if crate::text::same(name, "bash") {
        return Some(
            Advert { name: "bash", description: BASH_DESCRIPTION, parameters: BASH_PARAMETERS },
        );
    }
    if crate::text::same(name, "grep") {
        return Some(
            Advert { name: "grep", description: GREP_DESCRIPTION, parameters: GREP_PARAMETERS },
        );
    }
    if crate::text::same(name, "find") {
        return Some(
            Advert { name: "find", description: FIND_DESCRIPTION, parameters: FIND_PARAMETERS },
        );
    }
    if crate::text::same(name, "ls") {
        return Some(
            Advert { name: "ls", description: LS_DESCRIPTION, parameters: LS_PARAMETERS },
        );
    }
    if crate::text::same(name, "doc") {
        return Some(
            Advert { name: "doc", description: DOC_DESCRIPTION, parameters: DOC_PARAMETERS },
        );
    }
    if crate::text::same(name, "memory") {
        return Some(
            Advert { name: "memory", description: MEMORY_DESCRIPTION, parameters: MEMORY_PARAMETERS },
        );
    }
    if crate::text::same(name, "knowledge") {
        return Some(
            Advert { name: "knowledge", description: KNOWLEDGE_DESCRIPTION, parameters: KNOWLEDGE_PARAMETERS },
        );
    }
    if crate::text::same(name, "web") {
        return Some(
            Advert { name: "web", description: WEB_DESCRIPTION, parameters: WEB_PARAMETERS },
        );
    }
    if crate::text::same(name, "skill") {
        return Some(
            Advert { name: "skill", description: SKILL_DESCRIPTION, parameters: SKILL_PARAMETERS },
        );
    }
    if crate::text::same(name, "checkpoint") {
        return Some(
            Advert { name: "checkpoint", description: CHECKPOINT_DESCRIPTION, parameters: CHECKPOINT_PARAMETERS },
        );
    }
    None
}

proof fn lemma_register(k: int)
    requires
        0 <= k < builtin_names().len(),
    ensures
        registered(builtin_names().take(k), builtin_names()[k]) == builtin_names().take(k + 1),
{
    the_tools_have_names_of_their_own();
    let all = builtin_names();
    let t = all.take(k);
    if t.contains(all[k]) {
        let i = choose|i: int| 0 <= i < t.len() && t[i] == all[k];
        assert(all[i] == all[k]);
    }
    assert(t.push(all[k]) =~= all.take(k + 1));
}

impl ToolRegistry {
    /// All tools that every session has.
    pub fn with_builtins() -> (r: ToolRegistry)
        ensures
            r@ == builtin_names(),
    {
        let mut r = ToolRegistry::new();
        assert(r@ =~= builtin_names().take(0));
        proof {
            lemma_register(0);
        }
        r.register("read");
        proof {
            lemma_register(1);
        }
        r.register("write");
        proof {
            lemma_register(2);
        }
        r.register("edit");
        proof {
            lemma_register(3);
        }
        r.register("bash");
        proof {
            lemma_register(4);
        }
        r.register("grep");
        proof {
            lemma_register(5);
        }
        r.register("find");
        proof {
            lemma_register(6);
        }
        r.register("ls");
        proof {
            lemma_register(7);
        }
        r.register("doc");
        proof {
            lemma_register(8);
        }
        r.register("memory");
        proof {
            lemma_register(9);
        }
        r.register("knowledge");
        proof {
            lemma_register(10);
        }
        r.register("web");
        assert(builtin_names().take(11) =~= builtin_names());
        r
    }
}

/// No two of the tools have the same name.
pub proof fn the_tools_have_names_of_their_own()
    ensures
        builtin_names().no_duplicates(),
{
    let all = builtin_names();
    reveal_strlit("read");
    assert(all[0].len() == 4 && all[0][0] == 'r');
    reveal_strlit("write");
    assert(all[1].len() == 5 && all[1][0] == 'w');
    reveal_strlit("edit");
    assert(all[2].len() == 4 && all[2][0] == 'e');
    reveal_strlit("bash");
    assert(all[3].len() == 4 && all[3][0] == 'b');
    reveal_strlit("grep");
    assert(all[4].len() == 4 && all[4][0] == 'g');
    reveal_strlit("find");
    assert(all[5].len() == 4 && all[5][0] == 'f');
    reveal_strlit("ls");
    assert(all[6].len() == 2 && all[6][0] == 'l');
    reveal_strlit("doc");
    assert(all[7].len() == 3 && all[7][0] == 'd');
    reveal_strlit("memory");
    assert(all[8].len() == 6 && all[8][0] == 'm');
    reveal_strlit("knowledge");
    assert(all[9].len() == 9 && all[9][0] == 'k');
    reveal_strlit("web");
    assert(all[10].len() == 3 && all[10][0] == 'w');
    assert forall|i: int, j: int| 0 <= i < all.len() && 0 <= j < all.len() && i != j implies all[i]
        != all[j] by {
        assert(all[i].len() != all[j].len() || all[i][0] != all[j][0]);
    }
}

} // verus!
