//! `bash`: run a shell command with a timeout.
use vstd::prelude::*;
use vstd::string::*;

use crate::json::{get_str, get_u64, member, str_arg, u64_of, Json, Tree};
use crate::text::{dec_int, decimal, decimal_int, ends, ends_with};
use crate::tools::approval::Approval;
use crate::tools::policy::{classified, classify, Decision, Ruling};
use crate::tools::{fine, missing, missing_argument, stop, wrong, Output, ToolContext, ToolOutput};

verus! {

/// The shell.
pub struct BashTool;

/// What a request to run a command comes to.
#[derive(Debug)]
pub enum BashStep {
    /// Answer with this; nothing runs.
    Reply(ToolOutput),
    /// Ask the user, giving this reason.
    Ask { command: String, reason: String },
    /// Run it.
    Run(String),
}

/// What a `BashStep` says.
pub enum BashNext {
    Reply(Output),
    Ask(Seq<char>, Seq<char>),
    Run(Seq<char>),
}

impl View for BashStep {
    type V = BashNext;

    open spec fn view(&self) -> BashNext {
        match self {
            BashStep::Reply(o) => BashNext::Reply(o@),
            BashStep::Ask { command, reason } => BashNext::Ask(command@, reason@),
            BashStep::Run(c) => BashNext::Run(c@),
        }
    }
}

/// What a request to run a command comes to, given the ruling on it.
pub open spec fn ruled(command: Seq<char>, ruling: Ruling) -> BashNext {
    match ruling {
        Ruling::Allow => BashNext::Run(command),
        Ruling::Refuse(reason) => BashNext::Reply(
            stop(
                "refused to run a destructive command ("@ + reason + "): "@ + command,
            ),
        ),
        Ruling::Ask(reason) => BashNext::Ask(command, reason),
    }
}

/// What a request to run a command comes to.
pub open spec fn bash_requested(args: Tree) -> BashNext {
    match str_arg(args, "command"@) {
        None => BashNext::Reply(missing("command"@)),
        Some(command) => ruled(command, classified(command)),
    }
}

/// The answer when the user did not approve. It is not fatal: the model can take
/// another way.
pub open spec fn not_approved(command: Seq<char>, reason: Seq<char>) -> Output {
    wrong(
        "the user did not approve this command ("@ + reason + "): "@ + command
            + "\nDo not retry it. Continue without it, and say what was skipped."@,
    )
}

/// How long a command may run, in seconds: what the call says, else the default.
pub open spec fn bash_timeout(args: Tree, default: u64) -> u64 {
    match u64_of(member(args, "timeout_secs"@)) {
        Some(n) => n,
        None => default,
    }
}

/// What a command printed, as the model sees it: both streams, apart by a line.
pub open spec fn combined(stdout: Seq<char>, stderr: Seq<char>) -> Seq<char> {
    if stderr.len() == 0 {
        if stdout.len() == 0 {
            "(no output)"@
        } else {
            stdout
        }
    } else if stdout.len() == 0 || ends_with(stdout, "\n"@) {
        stdout + stderr
    } else {
        stdout + "\n"@ + stderr
    }
}

/// How a command ended, as the model sees it: the exit code, where a command that was
/// killed has -1, and what it printed. Only a code of 0 is a success.
pub open spec fn bash_reported(code: Option<i32>, stdout: Seq<char>, stderr: Seq<char>) -> Output {
    let n = match code {
        Some(c) => c as int,
        None => -1,
    };
    let text = "exit code: "@ + dec_int(n) + "\n"@ + combined(stdout, stderr);
    if code == Some(0i32) {
        fine(text)
    } else {
        wrong(text)
    }
}

/// What a request comes to, given the decision on its command.
pub fn apply_decision(command: &str, decision: Decision) -> (r: BashStep)
    ensures
        r@ == ruled(command@, decision@),
{
    match decision {
        Decision::Allow => BashStep::Run(command.to_owned()),
        Decision::Refuse(reason) => {
            let mut s = "refused to run a destructive command (".to_owned();
            s.append(reason.as_str());
            s.append("): ");
            s.append(command);
            BashStep::Reply(ToolOutput { content: s, is_error: true, fatal: true })
        },
        Decision::Ask(reason) => BashStep::Ask { command: command.to_owned(), reason },
    }
}

impl BashTool {
    /// What a request to run a command comes to.
    pub fn request(args: &Json) -> (r: BashStep)
        ensures
            r@ == bash_requested(args@),
    {
        match get_str(args, "command") {
            None => BashStep::Reply(missing_argument("command")),
            Some(command) => apply_decision(command, classify(command)),
        }
    }

    /// What a request comes to once the user answered.
    pub fn answered(command: &str, reason: &str, answer: Approval) -> (r: BashStep)
        ensures
            r@ == if answer == Approval::Deny {
                BashNext::Reply(not_approved(command@, reason@))
            } else {
                BashNext::Run(command@)
            },
    {
        match answer {
            Approval::Once | Approval::AlwaysThisSession => BashStep::Run(command.to_owned()),
            Approval::Deny => {
                let mut s = "the user did not approve this command (".to_owned();
                s.append(reason);
                s.append("): ");
                s.append(command);
                s.append("\nDo not retry it. Continue without it, and say what was skipped.");
                BashStep::Reply(ToolOutput { content: s, is_error: true, fatal: false })
            },
        }
    }

    /// How long a command may run, in seconds.
    pub fn timeout(args: &Json, ctx: &ToolContext) -> (r: u64)
        ensures
            r == bash_timeout(args@, ctx.bash_timeout),
    {
        match get_u64(args, "timeout_secs") {
            Some(n) => n,
            None => ctx.bash_timeout,
        }
    }

    /// The answer when the command ran out of time.
    pub fn timed_out(secs: u64) -> (r: ToolOutput)
        ensures
            r@ == wrong("command timed out after "@ + crate::text::dec(secs as nat) + "s"@),
    {
        let mut s = "command timed out after ".to_owned();
        let n = decimal(secs as u128);
        s.append(n.as_str());
        s.append("s");
        ToolOutput { content: s, is_error: true, fatal: false }
    }

    /// The answer when the turn was cancelled.
    pub fn cancelled() -> (r: ToolOutput)
        ensures
            r@ == wrong("command cancelled"@),
    {
        ToolOutput::error("command cancelled")
    }

    /// How a command ended, as the model sees it.
    pub fn report(code: Option<i32>, stdout: &str, stderr: &str) -> (r: ToolOutput)
        ensures
            r@ == bash_reported(code, stdout@, stderr@),
    {
        let n: i64 = match code {
            Some(c) => c as i64,
            None => -1,
        };
        let mut body = stdout.to_owned();
        if stderr.unicode_len() > 0 {
            if stdout.unicode_len() > 0 && !ends(stdout, "\n") {
                body.append("\n");
            }
            body.append(stderr);
        } else if stdout.unicode_len() == 0 {
            body = "(no output)".to_owned();
        }
        let mut s = "exit code: ".to_owned();
        let k = decimal_int(n);
        s.append(k.as_str());
        s.append("\n");
        s.append(body.as_str());
        let ok = match code {
            Some(c) => c == 0,
            None => false,
        };
        ToolOutput { content: s, is_error: !ok, fatal: false }
    }
}

/// A refused command never runs and ends the turn; one that is asked about runs only
/// on a yes, and a no lets the turn go on.
pub proof fn nothing_runs_against_the_policy(args: Tree, answer: Approval)
    ensures
        bash_requested(args) matches BashNext::Run(c) ==> str_arg(args, "command"@) == Some(c)
            && classified(c) is Allow,
        (str_arg(args, "command"@) matches Some(c) && classified(c) is Refuse) ==> (bash_requested(
            args,
        ) matches BashNext::Reply(o) && o.fatal),
        bash_requested(args) matches BashNext::Ask(c, why) ==> str_arg(args, "command"@) == Some(c)
            && classified(c) == Ruling::Ask(why) && !not_approved(c, why).fatal,
{
}

/// A command runs just where the policy lets it, as it was given; a refusal and a question
/// tell the reason and the command; a call without a command runs nothing.
pub proof fn what_runs_is_what_was_asked(args: Tree, command: Seq<char>)
    ensures
        str_arg(args, "command"@) is None ==> (bash_requested(args) matches BashNext::Reply(o)
            && o.is_error && !o.fatal),
        str_arg(args, "command"@) == Some(command) && classified(command) is Allow
            ==> bash_requested(args) == BashNext::Run(command),
        str_arg(args, "command"@) == Some(command) ==> (classified(command) matches Ruling::Ask(
            why,
        ) ==> bash_requested(args) == BashNext::Ask(command, why)),
        str_arg(args, "command"@) == Some(command) ==> (classified(command) matches Ruling::Refuse(
            why,
        ) ==> (bash_requested(args) matches BashNext::Reply(o) && o.is_error && o.fatal
            && crate::text::contains(o.content, why) && crate::text::contains(
            o.content,
            command,
        ))),
{
    if let Ruling::Refuse(why) = classified(command) {
        let t = "refused to run a destructive command ("@ + why + "): "@ + command;
        let at = "refused to run a destructive command ("@.len() as int;
        assert(t.subrange(at, at + why.len()) =~= why);
        assert(crate::text::occurs_at(t, why, at));
        let to = ("refused to run a destructive command ("@ + why + "): "@).len() as int;
        assert(t.subrange(to, to + command.len()) =~= command);
        assert(crate::text::occurs_at(t, command, to));
    }
}

/// What a command printed reaches the model whole, the one stream before the other, behind
/// the exit code, and counts as an error just where that is not zero.
pub proof fn all_that_was_printed_is_reported(
    code: Option<i32>,
    stdout: Seq<char>,
    stderr: Seq<char>,
)
    ensures
        ({
            let o = bash_reported(code, stdout, stderr);
            &&& o.is_error <==> code != Some(0i32)
            &&& !o.fatal
            &&& exists|between: Seq<char>|
                {
                    &&& #[trigger] between.len() <= 1
                    &&& stdout.len() + stderr.len() > 0 ==> o.content == "exit code: "@ + dec_int(
                        if code is Some {
                            code->0 as int
                        } else {
                            -1
                        },
                    ) + "\n"@ + (stdout + between + stderr)
                    &&& between.len() == 1 ==> between[0] == '\n' && stdout.len() > 0
                        && stderr.len() > 0 && stdout.last() != '\n'
                    &&& stdout.len() > 0 && stderr.len() > 0 && between.len() == 0
                        ==> stdout.last() == '\n'
                }
        }),
{
    reveal_strlit("\n");
    assert("\n"@ =~= seq!['\n']);
    let nl = stdout.len() > 0 && stderr.len() > 0 && !ends_with(stdout, "\n"@);
    let between: Seq<char> = if nl {
        "\n"@
    } else {
        seq![]
    };
    if stdout.len() > 0 {
        let n = stdout.len() as int;
        if ends_with(stdout, "\n"@) {
            assert(stdout.skip(n - 1)[0] == '\n');
        }
        if stdout.last() == '\n' {
            assert(stdout.skip(n - 1) =~= "\n"@);
        }
    }
    assert(between.len() <= 1);
    if stdout.len() + stderr.len() > 0 {
        assert(combined(stdout, stderr) =~= stdout + between + stderr);
    }
}

/// A call's own time limit wins over the default.
pub proof fn a_call_may_set_its_own_limit(args: Tree, default: u64)
    ensures
        u64_of(member(args, "timeout_secs"@)) matches Some(n) ==> bash_timeout(args, default) == n,
        u64_of(member(args, "timeout_secs"@)) is None ==> bash_timeout(args, default) == default,
{
}

} // verus!
