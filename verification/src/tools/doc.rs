//! `doc`: documents, through the command-line engines that read and convert them.
//!
//! Which engine gets which arguments, what a missing one is answered, and how a long
//! text is paged is decided here; running an engine is not.
use vstd::prelude::*;
use vstd::string::*;

use crate::json::{get_str, get_u64, member, str_arg, u64_of, Json, Tree};
use crate::list::{group_lists, join, views};
use crate::paths::{
    file_name, join_path, joined_path, parent, path_name, path_parent, stem, stem_of,
};
use crate::text::{
    cut_once, dec, dec_int, decimal, decimal_int, joined, joined_range, lines, lines_of, opt_view,
    parse_nat, parse_number, same, split_once, trim, trimmed,
};
use crate::tools::{fine, wrong, Output, ToolOutput};

verus! {

broadcast use group_lists;

/// Works with documents.
pub struct DocTool;

/// What a call of the tool is about.
#[derive(Debug, Clone, Copy, PartialEq, Eq, Structural)]
pub enum DocAction {
    Read,
    Info,
    Convert,
    Extract,
}

/// The action that a call names; creating a document is converting its source. Or the
/// error.
pub open spec fn doc_action(args: Tree) -> Result<DocAction, Seq<char>> {
    let a = match str_arg(args, "action"@) {
        Some(a) => a,
        None => seq![],
    };
    if a == "read"@ {
        Ok(DocAction::Read)
    } else if a == "info"@ {
        Ok(DocAction::Info)
    } else if a == "convert"@ || a == "create"@ {
        Ok(DocAction::Convert)
    } else if a == "extract"@ {
        Ok(DocAction::Extract)
    } else if a.len() == 0 {
        Err("missing required argument: action"@)
    } else {
        Err("unknown doc action: "@ + a)
    }
}

/// Pages, as a range: `1-5`, or `3` for one.
pub open spec fn pages_read(pages: Option<Seq<char>>) -> Option<(nat, nat)> {
    match pages {
        None => None,
        Some(p) => {
            let t = trim(p);
            match split_once(t, '-') {
                Some((a, b)) => match (
                    parse_nat(trim(a), u32::MAX as nat),
                    parse_nat(trim(b), u32::MAX as nat),
                ) {
                    (Some(f), Some(l)) => Some((f, l)),
                    _ => None,
                },
                None => match parse_nat(t, u32::MAX as nat) {
                    Some(n) => Some((n, n)),
                    None => None,
                },
            }
        },
    }
}

/// Read a range of pages.
pub fn parse_pages(pages: Option<&str>) -> (r: Option<(u32, u32)>)
    ensures
        match r {
            Some(p) => pages_read(crate::session::store::opt_str(pages)) == Some(
                (p.0 as nat, p.1 as nat),
            ),
            None => pages_read(crate::session::store::opt_str(pages)) is None,
        },
{
    let p = match pages {
        Some(p) => p,
        None => {
            return None;
        },
    };
    let t = trimmed(p);
    match cut_once(t.as_str(), '-') {
        Some((a, b)) => {
            let a = trimmed(a.as_str());
            let b = trimmed(b.as_str());
            match (
                parse_number(a.as_str(), u32::MAX as u64),
                parse_number(b.as_str(), u32::MAX as u64),
            ) {
                (Some(f), Some(l)) => Some((f as u32, l as u32)),
                _ => None,
            }
        },
        None => match parse_number(t.as_str(), u32::MAX as u64) {
            Some(n) => Some((n as u32, n as u32)),
            None => None,
        },
    }
}

// ---- paging -----------------------------------------------------------------

/// The lines from `offset` on, counted from 1, at most `limit` of them, with a header
/// where that is not the whole text.
pub open spec fn sliced(text: Seq<char>, offset: nat, limit: Option<usize>) -> Seq<char> {
    let all = lines(text);
    let total = all.len() as int;
    let start = if offset == 0 {
        0
    } else {
        offset - 1
    };
    if start >= total {
        "(offset "@ + dec(offset) + " is past end of document — "@ + dec(total as nat)
            + " lines total)"@
    } else {
        let end = match limit {
            Some(l) => if start + l < total {
                start + l
            } else {
                total
            },
            None => total,
        };
        let body = join(all.subrange(start, end), "\n"@);
        if start == 0 && end == total {
            body
        } else {
            "[lines "@ + dec((start + 1) as nat) + "-"@ + dec(end as nat) + " of "@ + dec(
                total as nat,
            ) + " — pass offset/limit to read more]\n"@ + body
        }
    }
}

/// Return a slice of lines, with a header where there is more to page through.
pub fn slice_lines(text: &str, offset: usize, limit: Option<usize>) -> (r: String)
    ensures
        r@ == sliced(text@, offset as nat, limit),
{
    let all = lines_of(text);
    let total = all.len();
    let start: usize = if offset == 0 {
        0
    } else {
        offset - 1
    };
    if start >= total {
        let mut s = "(offset ".to_owned();
        let n = decimal(offset as u128);
        s.append(n.as_str());
        s.append(" is past end of document — ");
        let n = decimal(total as u128);
        s.append(n.as_str());
        s.append(" lines total)");
        return s;
    }
    let end: usize = match limit {
        Some(l) => if l < total - start {
            start + l
        } else {
            total
        },
        None => total,
    };
    let body = joined_range(&all, start, end, "\n");
    if start == 0 && end == total {
        body
    } else {
        let mut s = "[lines ".to_owned();
        let n = decimal(start as u128 + 1);
        s.append(n.as_str());
        s.append("-");
        let n = decimal(end as u128);
        s.append(n.as_str());
        s.append(" of ");
        let n = decimal(total as u128);
        s.append(n.as_str());
        s.append(" — pass offset/limit to read more]\n");
        s.append(body.as_str());
        s
    }
}

/// Paging through a text in slices of `limit` lines shows every line: the slice that
/// follows begins where the last one ended.
pub proof fn slices_follow_on(all: Seq<Seq<char>>, start: int, limit: int)
    requires
        0 <= start,
        0 < limit,
        start + limit <= all.len(),
    ensures
        all.subrange(0, start) + all.subrange(start, start + limit) == all.subrange(0, start + limit),
{
    assert(all.subrange(0, start) + all.subrange(start, start + limit) =~= all.subrange(
        0,
        start + limit,
    ));
}

// ---- engines ----------------------------------------------------------------

/// An engine to run, with its arguments.
#[derive(Debug)]
pub struct Job {
    pub engine: String,
    pub args: Vec<String>,
}

/// What a `Job` says.
pub struct Run {
    pub engine: Seq<char>,
    pub args: Seq<Seq<char>>,
}

impl View for Job {
    type V = Run;

    open spec fn view(&self) -> Run {
        Run { engine: self.engine@, args: views(self.args@) }
    }
}

/// What a list of jobs says.
pub open spec fn runs(v: Seq<Job>) -> Seq<Run> {
    Seq::new(v.len(), |i: int| v[i]@)
}

/// How to install an engine.
pub open spec fn install_hint(engine: Seq<char>) -> Seq<char> {
    if engine == "pdftotext"@ || engine == "pdfinfo"@ || engine == "pdftoppm"@ || engine
        == "pdfimages"@ {
        "poppler (brew install poppler / apt install poppler-utils)"@
    } else if engine == "pandoc"@ {
        "brew install pandoc / apt install pandoc"@
    } else if engine == "soffice"@ {
        "LibreOffice (brew install --cask libreoffice)"@
    } else if engine == "mutool"@ {
        "mupdf (brew install mupdf)"@
    } else if engine == "docx2txt"@ {
        "brew install docx2txt / apt install docx2txt"@
    } else {
        "see the tool's documentation"@
    }
}

/// How to install an engine.
pub fn hint(engine: &str) -> (r: &'static str)
    ensures
        r@ == install_hint(engine@),
{
    if same(engine, "pdftotext") || same(engine, "pdfinfo") || same(engine, "pdftoppm") || same(
        engine,
        "pdfimages",
    ) {
        "poppler (brew install poppler / apt install poppler-utils)"
    } else if same(engine, "pandoc") {
        "brew install pandoc / apt install pandoc"
    } else if same(engine, "soffice") {
        "LibreOffice (brew install --cask libreoffice)"
    } else if same(engine, "mutool") {
        "mupdf (brew install mupdf)"
    } else if same(engine, "docx2txt") {
        "brew install docx2txt / apt install docx2txt"
    } else {
        "see the tool's documentation"
    }
}

/// How the run of an engine ended.
#[derive(Debug)]
pub enum EngineResult {
    /// It is not installed.
    Missing,
    /// It exited.
    Exited { code: i32, stdout: String, stderr: String },
    /// It could not be run, or ran out of time.
    Failed(String),
}

/// What an engine's run comes to: its output, or an error.
pub open spec fn engine_outcome(engine: Seq<char>, r: EngineResult) -> Result<Seq<char>, Seq<char>> {
    match r {
        EngineResult::Missing => Err(
            "`"@ + engine + "` not found — install: "@ + install_hint(engine),
        ),
        EngineResult::Exited { code, stdout, stderr } => if code == 0 {
            Ok(stdout@)
        } else {
            Err(
                "`"@ + engine + "` exited "@ + dec_int(code as int) + ": "@ + trim(stderr@),
            )
        },
        EngineResult::Failed(e) => Err(e@),
    }
}

/// The errors of the runs so far, each engine tried in order; the next one runs only
/// while there is no output.
pub struct EngineRuns {
    errors: Vec<String>,
}

impl View for EngineRuns {
    type V = Seq<Seq<char>>;

    closed spec fn view(&self) -> Seq<Seq<char>> {
        views(self.errors@)
    }
}

impl EngineRuns {
    /// Nothing was tried yet.
    pub fn new() -> (r: EngineRuns)
        ensures
            r@ == Seq::<Seq<char>>::empty(),
    {
        let r = EngineRuns { errors: Vec::new() };
        assert(r@ =~= Seq::<Seq<char>>::empty());
        r
    }

    /// Take in how an engine's run ended: its output, if there is one, ends the
    /// search; its error is kept.
    pub fn ran(&mut self, engine: &str, result: EngineResult) -> (r: Option<String>)
        ensures
            match engine_outcome(engine@, result) {
                Ok(out) => opt_view(r) == Some(out) && final(self)@ == old(self)@,
                Err(e) => r is None && final(self)@ == old(self)@.push(e),
            },
    {
        match result {
            EngineResult::Missing => {
                let mut s = "`".to_owned();
                s.append(engine);
                s.append("` not found — install: ");
                s.append(hint(engine));
                self.errors.push(s);
                None
            },
            EngineResult::Exited { code, stdout, stderr } => {
                if code == 0 {
                    return Some(stdout);
                }
                let mut s = "`".to_owned();
                s.append(engine);
                s.append("` exited ");
                let n = decimal_int(code as i64);
                s.append(n.as_str());
                s.append(": ");
                let t = trimmed(stderr.as_str());
                s.append(t.as_str());
                self.errors.push(s);
                None
            },
            EngineResult::Failed(e) => {
                self.errors.push(e);
                None
            },
        }
    }

    /// Every engine failed: what each said.
    pub fn failed(&self) -> (r: String)
        ensures
            r@ == join(self@, "\n"@),
    {
        joined(&self.errors, "\n")
    }
}

/// How the text of a document is had.
#[derive(Debug)]
pub enum TextSource {
    /// Run these engines, the first that succeeds.
    Engines(Vec<Job>),
    /// The file is text.
    Plain,
    /// It cannot be had.
    Refused(String),
}

/// How the text of a document is had.
pub enum TextPlan {
    Engines(Seq<Run>),
    Plain,
    Refused(Seq<char>),
}

impl View for TextSource {
    type V = TextPlan;

    open spec fn view(&self) -> TextPlan {
        match self {
            TextSource::Engines(jobs) => TextPlan::Engines(runs(jobs@)),
            TextSource::Plain => TextPlan::Plain,
            TextSource::Refused(e) => TextPlan::Refused(e@),
        }
    }
}

/// What a call asks for, as numbers.
pub open spec fn page_range(pages: Option<(u32, u32)>) -> Option<(nat, nat)> {
    match pages {
        Some(p) => Some((p.0 as nat, p.1 as nat)),
        None => None,
    }
}

/// The arguments for the pages that were asked for.
pub open spec fn page_args(pages: Option<(nat, nat)>) -> Seq<Seq<char>> {
    match pages {
        Some((f, l)) => seq!["-f"@, dec(f), "-l"@, dec(l)],
        None => seq![],
    }
}

fn push_pages(a: &mut Vec<String>, pages: Option<(u32, u32)>)
    ensures
        views(final(a)@) == views(old(a)@) + page_args(page_range(pages)),
{
    let ghost before = views(a@);
    if let Some((f, l)) = pages {
        a.push("-f".to_owned());
        a.push(decimal(f as u128));
        a.push("-l".to_owned());
        a.push(decimal(l as u128));
    }
    assert(views(a@) =~= before + page_args(page_range(pages)));
}

/// The arguments for the second engine: it takes a range of pages at the end.
pub open spec fn pdf_draw_args(path: Seq<char>, pages: Option<(nat, nat)>) -> Seq<Seq<char>> {
    match pages {
        Some((f, l)) => seq!["draw"@, "-F"@, "text"@, path, dec(f) + "-"@ + dec(l)],
        None => seq!["draw"@, "-F"@, "text"@, path],
    }
}

/// The arguments for a PDF's text: its layout kept, and the pages that were asked for.
pub open spec fn pdf_text_args(path: Seq<char>, pages: Option<(nat, nat)>) -> Seq<Seq<char>> {
    seq!["-layout"@] + page_args(pages) + seq![path, "-"@]
}

/// How the text of a document is had: `ext` is its extension, `pages` and `format` are
/// what the call asks for.
pub open spec fn text_plan(
    path: Seq<char>,
    ext: Seq<char>,
    pages: Option<(nat, nat)>,
    format: Seq<char>,
) -> TextPlan {
    if ext == "pdf"@ {
        TextPlan::Engines(
            seq![
                Run { engine: "pdftotext"@, args: pdf_text_args(path, pages) },
                Run { engine: "mutool"@, args: pdf_draw_args(path, pages) },
            ],
        )
    } else if ext == "docx"@ || ext == "doc"@ || ext == "odt"@ || ext == "rtf"@ || ext == "epub"@ {
        TextPlan::Engines(
            seq![
                Run {
                    engine: "pandoc"@,
                    args: seq![
                        path,
                        "-t"@,
                        if format == "text"@ {
                            "plain"@
                        } else {
                            "gfm"@
                        },
                    ],
                },
                Run { engine: "docx2txt"@, args: seq![path, "-"@] },
            ],
        )
    } else if ext == "md"@ || ext == "markdown"@ || ext == "txt"@ || ext == "text"@ || ext.len()
        == 0 {
        TextPlan::Plain
    } else {
        TextPlan::Refused(
            "doc read doesn't handle ."@ + ext
                + "; use the `read` tool for plain text or `bash` directly"@,
        )
    }
}

fn job(engine: &str, args: Vec<String>) -> (r: Job)
    ensures
        r@ == (Run { engine: engine@, args: views(args@) }),
{
    Job { engine: engine.to_owned(), args }
}

fn two_jobs(a: Job, b: Job) -> (r: Vec<Job>)
    ensures
        runs(r@) == seq![a@, b@],
{
    let mut r: Vec<Job> = Vec::new();
    r.push(a);
    r.push(b);
    assert(runs(r@) =~= seq![a@, b@]);
    r
}

/// How the text of a document is had.
pub fn plan_text(path: &str, ext: &str, pages: Option<(u32, u32)>, format: &str) -> (r: TextSource)
    ensures
        r@ == text_plan(
            path@,
            ext@,
            page_range(pages),
            format@,
        ),
{
    if same(ext, "pdf") {
        let mut a: Vec<String> = Vec::new();
        a.push("-layout".to_owned());
        push_pages(&mut a, pages);
        a.push(path.to_owned());
        a.push("-".to_owned());
        assert(views(a@) =~= pdf_text_args(path@, page_range(pages)));
        let mut b: Vec<String> = Vec::new();
        b.push("draw".to_owned());
        b.push("-F".to_owned());
        b.push("text".to_owned());
        b.push(path.to_owned());
        if let Some((f, l)) = pages {
            let mut range = decimal(f as u128);
            range.append("-");
            range.append(decimal(l as u128).as_str());
            b.push(range);
        }
        assert(views(b@) =~= pdf_draw_args(path@, page_range(pages)));
        return TextSource::Engines(two_jobs(job("pdftotext", a), job("mutool", b)));
    }
    if same(ext, "docx") || same(ext, "doc") || same(ext, "odt") || same(ext, "rtf") || same(
        ext,
        "epub",
    ) {
        let to = if same(format, "text") {
            "plain"
        } else {
            "gfm"
        };
        let mut a: Vec<String> = Vec::new();
        a.push(path.to_owned());
        a.push("-t".to_owned());
        a.push(to.to_owned());
        assert(views(a@) =~= seq![path@, "-t"@, to@]);
        let mut b: Vec<String> = Vec::new();
        b.push(path.to_owned());
        b.push("-".to_owned());
        assert(views(b@) =~= seq![path@, "-"@]);
        return TextSource::Engines(two_jobs(job("pandoc", a), job("docx2txt", b)));
    }
    if same(ext, "md") || same(ext, "markdown") || same(ext, "txt") || same(ext, "text")
        || ext.unicode_len() == 0 {
        return TextSource::Plain;
    }
    let mut e = "doc read doesn't handle .".to_owned();
    e.append(ext);
    e.append("; use the `read` tool for plain text or `bash` directly");
    TextSource::Refused(e)
}

/// What a document's text is answered with: the slice that the call asks for.
pub open spec fn text_shown(text: Seq<char>, args: Tree) -> Output {
    if trim(text).len() == 0 {
        fine("(no text extracted)"@)
    } else {
        let offset = match u64_of(member(args, "offset"@)) {
            Some(n) => if n >= 1 {
                n as nat
            } else {
                1
            },
            None => 1,
        };
        let limit = match u64_of(member(args, "limit"@)) {
            Some(n) => Some(
                if n <= usize::MAX {
                    n as usize
                } else {
                    usize::MAX
                },
            ),
            None => None,
        };
        fine(
            sliced(
                text,
                if offset <= usize::MAX {
                    offset
                } else {
                    usize::MAX as nat
                },
                limit,
            ),
        )
    }
}

fn to_size(n: u64) -> (r: usize)
    ensures
        r == if n <= usize::MAX {
            n as nat
        } else {
            usize::MAX as nat
        },
{
    if n <= usize::MAX as u64 {
        n as usize
    } else {
        usize::MAX
    }
}

/// What a document's text is answered with.
pub fn show_text(text: &str, args: &Json) -> (r: ToolOutput)
    ensures
        r@ == text_shown(text@, args@),
{
    let t = trimmed(text);
    if t.as_str().unicode_len() == 0 {
        return ToolOutput::ok("(no text extracted)");
    }
    let offset: u64 = match get_u64(args, "offset") {
        Some(n) => if n >= 1 {
            n
        } else {
            1
        },
        None => 1,
    };
    let limit: Option<usize> = match get_u64(args, "limit") {
        Some(n) => Some(to_size(n)),
        None => None,
    };
    let s = slice_lines(text, to_size(offset), limit);
    ToolOutput { content: s, is_error: false, fatal: false }
}

/// An engine's output as an answer; an error stays one.
pub fn out_or_err(r: Result<String, String>) -> (o: ToolOutput)
    ensures
        o@ == match r {
            Ok(s) => if trim(s@).len() == 0 {
                fine("(no text extracted)"@)
            } else {
                fine(s@)
            },
            Err(e) => wrong(e@),
        },
{
    match r {
        Ok(s) => {
            let t = trimmed(s.as_str());
            if t.as_str().unicode_len() == 0 {
                ToolOutput::ok("(no text extracted)")
            } else {
                ToolOutput { content: s, is_error: false, fatal: false }
            }
        },
        Err(e) => ToolOutput { content: e, is_error: true, fatal: false },
    }
}

/// How a document is converted.
#[derive(Debug)]
pub enum Conversion {
    /// Run this engine.
    Engine(Job),
    /// Run LibreOffice, and if that fails this engine.
    Office(Job),
    /// It cannot be done.
    Refused(String),
}

/// How a document is converted.
pub enum ConversionPlan {
    Engine(Run),
    Office(Run),
    Refused(Seq<char>),
}

impl View for Conversion {
    type V = ConversionPlan;

    open spec fn view(&self) -> ConversionPlan {
        match self {
            Conversion::Engine(j) => ConversionPlan::Engine(j@),
            Conversion::Office(j) => ConversionPlan::Office(j@),
            Conversion::Refused(e) => ConversionPlan::Refused(e@),
        }
    }
}

/// How a document is converted: by the extensions of what it is and what it becomes.
pub open spec fn conversion(
    from: Seq<char>,
    to: Seq<char>,
    input: Seq<char>,
    output: Seq<char>,
) -> ConversionPlan {
    let pandoc = Run { engine: "pandoc"@, args: seq![input, "-o"@, output] };
    if from == "pdf"@ {
        if to == "txt"@ || to == "text"@ {
            ConversionPlan::Engine(
                Run { engine: "pdftotext"@, args: seq!["-layout"@, input, output] },
            )
        } else {
            ConversionPlan::Refused(
                "converting FROM pdf only supports text output; use `extract` for images"@,
            )
        }
    } else if to == "pdf"@ {
        ConversionPlan::Office(pandoc)
    } else {
        ConversionPlan::Engine(pandoc)
    }
}

/// How a document is converted.
pub fn plan_conversion(from: &str, to: &str, input: &str, output: &str) -> (r: Conversion)
    ensures
        r@ == conversion(from@, to@, input@, output@),
{
    if same(from, "pdf") {
        if same(to, "txt") || same(to, "text") {
            let mut a: Vec<String> = Vec::new();
            a.push("-layout".to_owned());
            a.push(input.to_owned());
            a.push(output.to_owned());
            assert(views(a@) =~= seq!["-layout"@, input@, output@]);
            return Conversion::Engine(job("pdftotext", a));
        }
        return Conversion::Refused(
            "converting FROM pdf only supports text output; use `extract` for images".to_owned(),
        );
    }
    let mut a: Vec<String> = Vec::new();
    a.push(input.to_owned());
    a.push("-o".to_owned());
    a.push(output.to_owned());
    assert(views(a@) =~= seq![input@, "-o"@, output@]);
    if same(to, "pdf") {
        Conversion::Office(job("pandoc", a))
    } else {
        Conversion::Engine(job("pandoc", a))
    }
}

/// The LibreOffice run that makes a PDF, and where it puts it: it names the file itself.
pub open spec fn office_run(input: Seq<char>, output: Seq<char>) -> (Run, Seq<char>) {
    let dir = match path_parent(output) {
        Some(d) => d,
        None => "."@,
    };
    (
        Run {
            engine: "soffice"@,
            args: seq!["--headless"@, "--convert-to"@, "pdf"@, "--outdir"@, dir, input],
        },
        joined_path(
            dir,
            (match path_name(input) {
                Some(n) => stem_of(n),
                None => seq![],
            }) + ".pdf"@,
        ),
    )
}

/// The LibreOffice run that makes a PDF, and where it puts it.
pub fn plan_office(input: &str, output: &str) -> (r: (Job, String))
    ensures
        (r.0@, r.1@) == office_run(input@, output@),
{
    let dir = match parent(output) {
        Some(d) => d,
        None => ".".to_owned(),
    };
    let mut a: Vec<String> = Vec::new();
    a.push("--headless".to_owned());
    a.push("--convert-to".to_owned());
    a.push("pdf".to_owned());
    a.push("--outdir".to_owned());
    a.push(dir.clone());
    a.push(input.to_owned());
    assert(views(a@) =~= seq![
        "--headless"@,
        "--convert-to"@,
        "pdf"@,
        "--outdir"@,
        dir@,
        input@,
    ]);
    let mut name = match file_name(input) {
        Some(n) => stem(n.as_str()),
        None => {
            let none = String::new();
            assert(none@ =~= seq![]);
            none
        },
    };
    name.append(".pdf");
    (job("soffice", a), join_path(dir.as_str(), name.as_str()))
}

/// How metadata is read: by an engine for a PDF, from the file itself otherwise.
pub open spec fn info_runs(ext: Seq<char>, path: Seq<char>) -> Option<Seq<Run>> {
    if ext == "pdf"@ {
        Some(
            seq![
                Run { engine: "pdfinfo"@, args: seq![path] },
                Run { engine: "mutool"@, args: seq!["info"@, path] },
            ],
        )
    } else {
        None
    }
}

/// How metadata is read.
pub fn plan_info(ext: &str, path: &str) -> (r: Option<Vec<Job>>)
    ensures
        match r {
            Some(v) => info_runs(ext@, path@) == Some(runs(v@)),
            None => info_runs(ext@, path@) is None,
        },
{
    if !same(ext, "pdf") {
        return None;
    }
    let mut a: Vec<String> = Vec::new();
    a.push(path.to_owned());
    assert(views(a@) =~= seq![path@]);
    let mut b: Vec<String> = Vec::new();
    b.push("info".to_owned());
    b.push(path.to_owned());
    assert(views(b@) =~= seq!["info"@, path@]);
    let mut v: Vec<Job> = Vec::new();
    v.push(job("pdfinfo", a));
    v.push(job("mutool", b));
    assert(runs(v@) =~= info_runs(ext@, path@)->0);
    Some(v)
}

/// The metadata of a file that no engine is needed for.
pub fn show_info(path: &str, bytes: u64, ext: &str) -> (r: ToolOutput)
    ensures
        r@ == fine(
            path@ + "\nsize: "@ + dec(bytes as nat) + " bytes\ntype: ."@ + ext@,
        ),
{
    let mut s = path.to_owned();
    s.append("\nsize: ");
    s.append(decimal(bytes as u128).as_str());
    s.append(" bytes\ntype: .");
    s.append(ext);
    ToolOutput { content: s, is_error: false, fatal: false }
}

/// How images are extracted: those that are in the document, or else its pages; of the
/// pages that were asked for.
pub open spec fn extraction_runs(path: Seq<char>, dir: Seq<char>, pages: Option<(nat, nat)>) -> Seq<
    Run,
> {
    seq![
        Run {
            engine: "pdfimages"@,
            args: seq!["-all"@] + page_args(pages) + seq![path, joined_path(dir, "img"@)],
        },
        Run {
            engine: "pdftoppm"@,
            args: seq!["-png"@] + page_args(pages) + seq![path, joined_path(dir, "page"@)],
        },
    ]
}

fn extraction_args(flag: &str, path: &str, dir: &str, name: &str, pages: Option<(u32, u32)>) -> (r:
    Vec<String>)
    ensures
        views(r@) == seq![flag@] + page_args(page_range(pages)) + seq![
            path@,
            joined_path(dir@, name@),
        ],
{
    let mut a: Vec<String> = Vec::new();
    a.push(flag.to_owned());
    push_pages(&mut a, pages);
    a.push(path.to_owned());
    a.push(join_path(dir, name));
    assert(views(a@) =~= seq![flag@] + page_args(page_range(pages)) + seq![
        path@,
        joined_path(dir@, name@),
    ]);
    a
}

/// How images are extracted. Only a PDF has any.
pub fn plan_extraction(ext: &str, path: &str, dir: &str, pages: Option<(u32, u32)>) -> (r: Result<
    Vec<Job>,
    String,
>)
    ensures
        match r {
            Ok(v) => ext@ == "pdf"@ && runs(v@) == extraction_runs(path@, dir@, page_range(pages)),
            Err(e) => ext@ != "pdf"@ && e@ == "extract currently supports PDF input only"@,
        },
{
    if !same(ext, "pdf") {
        return Err("extract currently supports PDF input only".to_owned());
    }
    Ok(
        two_jobs(
            job("pdfimages", extraction_args("-all", path, dir, "img", pages)),
            job("pdftoppm", extraction_args("-png", path, dir, "page", pages)),
        ),
    )
}

/// How a conversion is answered: an engine that reports success and leaves no file did
/// not succeed.
pub open spec fn conversion_told(
    result: Result<Seq<char>, Seq<char>>,
    created: bool,
    input: Seq<char>,
    output: Seq<char>,
) -> Output {
    match result {
        Ok(_) => if created {
            fine("converted "@ + input + " → "@ + output)
        } else {
            wrong("engine reported success but "@ + output + " was not created"@)
        },
        Err(e) => wrong(e),
    }
}

/// How a conversion is answered.
pub fn report_conversion(
    result: Result<String, String>,
    created: bool,
    input: &str,
    output: &str,
) -> (r: ToolOutput)
    ensures
        r@ == conversion_told(
            crate::fanout::answer_view(result),
            created,
            input@,
            output@,
        ),
{
    match result {
        Ok(_) => if created {
            let mut s = "converted ".to_owned();
            s.append(input);
            s.append(" → ");
            s.append(output);
            ToolOutput { content: s, is_error: false, fatal: false }
        } else {
            let mut s = "engine reported success but ".to_owned();
            s.append(output);
            s.append(" was not created");
            ToolOutput { content: s, is_error: true, fatal: false }
        },
        Err(e) => ToolOutput { content: e, is_error: true, fatal: false },
    }
}

/// What was extracted from a document, as an answer: the files that are in the
/// directory.
pub open spec fn extraction_told(input: Seq<char>, dir: Seq<char>, files: Seq<Seq<char>>) -> Output {
    if files.len() == 0 {
        fine("no images found in "@ + input)
    } else {
        fine(
            "extracted "@ + dec(files.len()) + " file(s) to "@ + dir + ":\n"@ + join(files, "\n"@),
        )
    }
}

/// What was extracted from a document, as an answer.
pub fn report_extraction(input: &str, dir: &str, files: &Vec<String>) -> (r: ToolOutput)
    ensures
        r@ == extraction_told(input@, dir@, views(files@)),
{
    if files.len() == 0 {
        let mut s = "no images found in ".to_owned();
        s.append(input);
        return ToolOutput { content: s, is_error: false, fatal: false };
    }
    let mut s = "extracted ".to_owned();
    let n = decimal(files.len() as u128);
    s.append(n.as_str());
    s.append(" file(s) to ");
    s.append(dir);
    s.append(":\n");
    let list = joined(files, "\n");
    s.append(list.as_str());
    ToolOutput { content: s, is_error: false, fatal: false }
}

impl DocTool {
    /// What a call of the tool is about.
    pub fn action(args: &Json) -> (r: Result<DocAction, String>)
        ensures
            match doc_action(args@) {
                Ok(a) => r matches Ok(x) && x == a,
                Err(e) => r matches Err(t) && t@ == e,
            },
    {
        let a = match get_str(args, "action") {
            Some(a) => a.to_owned(),
            None => {
                let none = String::new();
                assert(none@ =~= seq![]);
                none
            },
        };
        let a = a.as_str();
        if same(a, "read") {
            Ok(DocAction::Read)
        } else if same(a, "info") {
            Ok(DocAction::Info)
        } else if same(a, "convert") || same(a, "create") {
            Ok(DocAction::Convert)
        } else if same(a, "extract") {
            Ok(DocAction::Extract)
        } else if a.unicode_len() == 0 {
            Err("missing required argument: action".to_owned())
        } else {
            let mut e = "unknown doc action: ".to_owned();
            e.append(a);
            Err(e)
        }
    }
}

/// The lines that are asked for are shown, joined as they stood; the whole document without
/// a note, and a part behind one.
pub proof fn the_part_asked_for_is_shown(text: Seq<char>, offset: nat, limit: Option<usize>)
    requires
        offset >= 1,
    ensures
        ({
            let all = lines(text);
            let end: int = match limit {
                Some(l) => if offset - 1 + l < all.len() {
                    offset - 1 + l
                } else {
                    all.len() as int
                },
                None => all.len() as int,
            };
            let r = sliced(text, offset, limit);
            &&& offset <= all.len() ==> ({
                let body = join(all.subrange(offset - 1, end), "\n"@);
                &&& offset == 1 && end == all.len() ==> r == body
                &&& r.len() >= body.len() && r.skip(r.len() - body.len()) == body
            })
        }),
{
    let all = lines(text);
    let end: int = match limit {
        Some(l) => if offset - 1 + l < all.len() {
            offset - 1 + l
        } else {
            all.len() as int
        },
        None => all.len() as int,
    };
    if offset <= all.len() {
        let body = join(all.subrange(offset - 1, end), "\n"@);
        let r = sliced(text, offset, limit);
        assert(r.skip(r.len() - body.len()) =~= body);
    }
}

/// An engine that ran well gives its output; one that did not, or is not there, gives an error
/// that names it.
pub proof fn only_an_engine_that_ran_well_gives_output(
    engine: Seq<char>,
    code: i32,
    stdout: String,
    stderr: String,
)
    ensures
        engine_outcome(engine, EngineResult::Exited { code, stdout, stderr }) is Ok <==> code == 0,
        code == 0 ==> engine_outcome(engine, EngineResult::Exited { code, stdout, stderr }) == Ok::<
            Seq<char>,
            Seq<char>,
        >(stdout@),
        engine_outcome(engine, EngineResult::Missing) matches Err(e) && crate::text::contains(
            e,
            engine,
        ),
{
    let e = "`"@ + engine + "` not found — install: "@ + install_hint(engine);
    let at = "`"@.len() as int;
    assert(e.subrange(at, at + engine.len()) =~= engine);
    assert(crate::text::occurs_at(e, engine, at));
}

} // verus!
