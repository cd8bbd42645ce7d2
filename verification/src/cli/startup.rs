//! What a run settles before it starts.
use vstd::prelude::*;
use vstd::string::*;

use crate::llm::{effort_named, Effort, Thinking};
use crate::text::{
    ascii_lowered, chars_of, copy_opt, dec, is_digit, lemma_trim_plain, lower_ascii, opt_view,
    parse_nat, parse_number, same, string_of, trim, trimmed,
};
use crate::wording::{a_number_reads_back, lemma_dec};

verus! {

/// Which session a run works in.
#[derive(Debug)]
pub enum SessionChoice {
    /// The one with this id, which must be there.
    Resume(String),
    /// The most recent one for this directory, or a new one where there is none.
    Continue,
    Create,
}

/// Which session a run works in: an id outranks `--continue`.
pub fn session_choice(resume: &Option<String>, continues: bool) -> (r: SessionChoice)
    ensures
        match *resume {
            Some(id) => r matches SessionChoice::Resume(x) && x@ == id@,
            None => if continues {
                r is Continue
            } else {
                r is Create
            },
        },
{
    match resume {
        Some(id) => SessionChoice::Resume(id.clone()),
        None => if continues {
            SessionChoice::Continue
        } else {
            SessionChoice::Create
        },
    }
}

/// The command that must pass before a task is done: what the caller says outranks what
/// is configured.
pub fn check_command(until: &Option<String>, configured: &Option<String>) -> (r: Option<String>)
    ensures
        opt_view(r) == match *until {
            Some(c) => Some(c@),
            None => opt_view(*configured),
        },
{
    match until {
        Some(c) => Some(c.clone()),
        None => copy_opt(configured),
    }
}

/// A budget in thousands: what stands before the `k`.
pub open spec fn thousands_text(v: Seq<char>) -> Option<Seq<char>> {
    let t = trim(v);
    if t.len() > 0 && (t.last() == 'k' || t.last() == 'K') {
        Some(trim(t.drop_last()))
    } else {
        None
    }
}

/// A budget in thousands: what stands before the `k`.
pub fn thousands(v: &str) -> (r: Option<String>)
    ensures
        opt_view(r) == thousands_text(v@),
{
    let t = trimmed(v);
    let c = chars_of(t.as_str());
    let n = c.len();
    if n > 0 && (c[n - 1] == 'k' || c[n - 1] == 'K') {
        let head = string_of(&c, 0, n - 1);
        assert(head@ =~= t@.drop_last());
        Some(trimmed(head.as_str()))
    } else {
        None
    }
}

/// What `--think` means. `scaled` is the budget of a number in thousands, where it is
/// one.
pub open spec fn think_value(v: Seq<char>, scaled: Option<u32>) -> Option<Thinking> {
    let t = trim(v);
    if ascii_lowered(t) == "on"@ {
        Some(Thinking::On)
    } else if ascii_lowered(t) == "off"@ {
        Some(Thinking::Off)
    } else if effort_named(t) is Some {
        Some(Thinking::Effort(effort_named(t)->0))
    } else {
        let n = if thousands_text(v) is Some {
            scaled
        } else {
            match parse_nat(t, u32::MAX as nat) {
                Some(n) => Some(n as u32),
                None => None,
            }
        };
        match n {
            Some(n) => if n > 0 {
                Some(Thinking::Budget(n))
            } else {
                None
            },
            None => None,
        }
    }
}

/// How much a run thinks: `--fast` and `--think` outrank what is configured. `scaled`
/// is the budget of a number in thousands, where `--think` gives one.
pub fn resolve_thinking(
    fast: bool,
    think: &Option<String>,
    configured: Option<Thinking>,
    scaled: Option<u32>,
) -> (r: Result<Option<Thinking>, String>)
    ensures
        if fast {
            r == Ok::<Option<Thinking>, String>(Some(Thinking::Off))
        } else {
            match *think {
                None => r == Ok::<Option<Thinking>, String>(configured),
                Some(v) => match think_value(v@, scaled) {
                    Some(t) => r == Ok::<Option<Thinking>, String>(Some(t)),
                    None => r matches Err(e) && e@
                        == "--think expects on, off, an effort (minimal|low|medium|high), or a token budget (got `"@
                        + trim(v@) + "`)"@,
                },
            }
        },
{
    if fast {
        return Ok(Some(Thinking::Off));
    }
    let v = match think {
        None => return Ok(configured),
        Some(v) => v,
    };
    let t = trimmed(v.as_str());
    let low = lower_ascii(t.as_str());
    if same(low.as_str(), "on") {
        return Ok(Some(Thinking::On));
    }
    if same(low.as_str(), "off") {
        return Ok(Some(Thinking::Off));
    }
    if let Some(e) = Effort::parse(t.as_str()) {
        return Ok(Some(Thinking::Effort(e)));
    }
    let n: Option<u32> = if thousands(v.as_str()).is_some() {
        scaled
    } else {
        match parse_number(t.as_str(), u32::MAX as u64) {
            Some(n) => Some(n as u32),
            None => None,
        }
    };
    if let Some(n) = n {
        if n > 0 {
            return Ok(Some(Thinking::Budget(n)));
        }
    }
    let mut e =
        "--think expects on, off, an effort (minimal|low|medium|high), or a token budget (got `".to_owned();
    e.append(t.as_str());
    e.append("`)");
    Err(e)
}

/// A number of tokens is a budget of that many, but for none; `on` and `off` are told apart
/// in any case; and no budget is empty.
pub proof fn a_number_of_tokens_is_a_budget(v: Seq<char>, scaled: Option<u32>, n: u32)
    ensures
        n > 0 ==> think_value(dec(n as nat), scaled) == Some(Thinking::Budget(n)),
        think_value(dec(0), scaled) is None,
        think_value(v, scaled) matches Some(Thinking::Budget(b)) ==> b > 0,
        ascii_lowered(trim(v)) == "on"@ ==> think_value(v, scaled) == Some(Thinking::On),
        ascii_lowered(trim(v)) == "off"@ ==> think_value(v, scaled) == Some(Thinking::Off),
{
    reveal_strlit("on");
    reveal_strlit("off");
    assert("on"@.len() == 2 && "off"@.len() == 3);
    lemma_digits_name_nothing(n as nat);
    lemma_digits_name_nothing(0);
    a_number_reads_back(n as nat, u32::MAX as nat, 0);
    a_number_reads_back(0, u32::MAX as nat, 0);
}

proof fn lemma_digits_name_nothing(n: nat)
    ensures
        trim(dec(n)) == dec(n),
        ascii_lowered(dec(n)) != "on"@,
        ascii_lowered(dec(n)) != "off"@,
        effort_named(dec(n)) is None,
        thousands_text(dec(n)) is None,
{
    let d = dec(n);
    lemma_dec(n);
    assert(is_digit(d[0]) && is_digit(d[d.len() - 1]));
    lemma_trim_plain(d);
    let t = ascii_lowered(d);
    assert(t.len() == d.len() && t[0] == d[0]);
    reveal_strlit("on");
    reveal_strlit("off");
    reveal_strlit("minimal");
    reveal_strlit("low");
    reveal_strlit("medium");
    reveal_strlit("med");
    reveal_strlit("high");
    reveal_strlit("xhigh");
    reveal_strlit("x-high");
    reveal_strlit("max");
    assert("on"@[0] == 'o' && "off"@[0] == 'o' && "minimal"@[0] == 'm' && "low"@[0] == 'l');
    assert("medium"@[0] == 'm' && "med"@[0] == 'm' && "high"@[0] == 'h' && "xhigh"@[0] == 'x');
    assert("x-high"@[0] == 'x' && "max"@[0] == 'm');
}

} // verus!
