//! Asking before doing something outward-facing.
//!
//! The policy decides whether to ask; this decides what an answer means. Whoever
//! puts the question to a user is outside: it is asked only when
//! [`RememberingApprover::known`] has no answer, and its reply goes through
//! [`RememberingApprover::settle`].
use vstd::prelude::*;
use vstd::string::*;

use crate::list::{group_lists, views};
use crate::sorting::{ordered, sorted_texts};
use crate::text::{any_same, copy_texts, same};

verus! {

broadcast use group_lists;

/// The user's answer.
#[derive(Debug, Clone, Copy, PartialEq, Eq, Structural)]
pub enum Approval {
    /// Run it this once.
    Once,
    /// Run it, and stop asking about this kind of command for the session.
    AlwaysThisSession,
    /// Don't run it.
    Deny,
}

/// Something that can answer "may I run this?".
pub trait Approver {
    /// May `command` run? `reason` is why it was asked about.
    fn ask(&self, command: &str, reason: &str) -> (r: Approval);
}

/// Approves everything. Never a default.
pub struct AutoApprove;

impl Approver for AutoApprove {
    fn ask(&self, command: &str, reason: &str) -> (r: Approval)
        ensures
            r == Approval::Once,
    {
        Approval::Once
    }
}

/// Refuses everything that needs asking, because there is nobody to ask.
pub struct RefuseWhenUnattended;

impl Approver for RefuseWhenUnattended {
    fn ask(&self, command: &str, reason: &str) -> (r: Approval)
        ensures
            r == Approval::Deny,
    {
        Approval::Deny
    }
}

/// The answer to a question that was put to a front end: what it replied, or a
/// denial where it is gone or dropped the question.
pub fn reply_or_deny(reply: Option<Approval>) -> (r: Approval)
    ensures
        r == match reply {
            Some(a) => a,
            None => Approval::Deny,
        },
{
    match reply {
        Some(a) => a,
        None => Approval::Deny,
    }
}

/// Remembers "always" answers for the session, by the reason that was asked about.
pub struct RememberingApprover {
    allowed: Vec<String>,
}

impl View for RememberingApprover {
    type V = Set<Seq<char>>;

    closed spec fn view(&self) -> Set<Seq<char>> {
        views(self.allowed@).to_set()
    }
}

/// What is remembered once `answer` was given to a question about `reason`.
pub open spec fn remembered_after(
    allowed: Set<Seq<char>>,
    reason: Seq<char>,
    answer: Approval,
) -> Set<Seq<char>> {
    if answer == Approval::AlwaysThisSession {
        allowed.insert(reason)
    } else {
        allowed
    }
}

proof fn lemma_push_contains(s: Seq<Seq<char>>, x: Seq<char>)
    ensures
        forall|q: Seq<char>| #[trigger] s.push(x).contains(q) <==> s.contains(q) || q == x,
{
    assert forall|q: Seq<char>| #[trigger] s.push(x).contains(q) <==> s.contains(q) || q == x by {
        if s.contains(q) {
            let j = choose|j: int| 0 <= j < s.len() && s[j] == q;
            assert(s.push(x)[j] == q);
        }
        if q == x {
            assert(s.push(x)[s.len() as int] == q);
        }
    }
}

impl RememberingApprover {
    /// No reason is remembered twice.
    pub closed spec fn wf(&self) -> bool {
        views(self.allowed@).no_duplicates()
    }

    /// Nothing is remembered yet.
    pub fn new() -> (r: RememberingApprover)
        ensures
            r.wf(),
            r@ == Set::<Seq<char>>::empty(),
    {
        let r = RememberingApprover { allowed: Vec::new() };
        assert(r@ =~= Set::<Seq<char>>::empty());
        r
    }

    /// The answer that needs no asking: a reason that was approved for the whole
    /// session is approved again.
    pub fn known(&self, reason: &str) -> (r: Option<Approval>)
        ensures
            r == if self@.contains(reason@) {
                Some(Approval::Once)
            } else {
                None
            },
    {
        if any_same(&self.allowed, reason) {
            Some(Approval::Once)
        } else {
            None
        }
    }

    /// Take a fresh answer, remembering it where it is for the whole session.
    pub fn settle(&mut self, reason: &str, answer: Approval) -> (r: Approval)
        requires
            old(self).wf(),
        ensures
            final(self).wf(),
            r == answer,
            final(self)@ == remembered_after(old(self)@, reason@, answer),
    {
        let ghost before = views(self.allowed@);
        if answer == Approval::AlwaysThisSession {
            if any_same(&self.allowed, reason) {
                assert(before.to_set() =~= before.to_set().insert(reason@));
            } else {
                self.allowed.push(reason.to_owned());
                proof {
                    lemma_push_contains(before, reason@);
                }
                assert(before.push(reason@).to_set() =~= before.to_set().insert(reason@));
            }
        }
        answer
    }

    /// Ask, unless the reason was approved for the whole session: a new reason is put to
    /// the inner approver, with the command, and its answer is the answer.
    pub fn ask<A: Approver>(&mut self, inner: &A, command: &str, reason: &str) -> (r: Approval)
        requires
            old(self).wf(),
        ensures
            final(self).wf(),
            old(self)@.contains(reason@) ==> r == Approval::Once && final(self)@ == old(self)@,
            !old(self)@.contains(reason@) ==> call_ensures(A::ask, (inner, command, reason), r),
            !old(self)@.contains(reason@) ==> final(self)@ == remembered_after(
                old(self)@,
                reason@,
                r,
            ),
    {
        match self.known(reason) {
            Some(a) => a,
            None => {
                let answer = inner.ask(command, reason);
                self.settle(reason, answer)
            },
        }
    }

    /// Was this approved for the whole session?
    pub fn has_scope(&self, scope: &str) -> (r: bool)
        ensures
            r == self@.contains(scope@),
    {
        any_same(&self.allowed, scope)
    }

    /// Take an approval back: it is asked about again.
    pub fn forget_scope(&mut self, scope: &str)
        requires
            old(self).wf(),
        ensures
            final(self).wf(),
            final(self)@ == old(self)@.remove(scope@),
    {
        let ghost all = views(self.allowed@);
        let mut left: Vec<String> = Vec::new();
        let mut i: usize = 0;
        while i < self.allowed.len()
            invariant
                i <= self.allowed@.len(),
                all == views(self.allowed@),
                all.no_duplicates(),
                views(left@).no_duplicates(),
                forall|q: Seq<char>|
                    #[trigger] views(left@).contains(q) <==> q != scope@ && all.take(
                        i as int,
                    ).contains(q),
            decreases self.allowed.len() - i,
        {
            let ghost before = views(left@);
            let ghost x = all[i as int];
            assert(all.take(i + 1) =~= all.take(i as int).push(x));
            assert(!all.take(i as int).contains(x)) by {
                if all.take(i as int).contains(x) {
                    let j = choose|j: int| 0 <= j < i && all.take(i as int)[j] == x;
                    assert(all[j] == all[i as int]);
                }
            }
            proof {
                lemma_push_contains(all.take(i as int), x);
                lemma_push_contains(before, x);
            }
            if !same(self.allowed[i].as_str(), scope) {
                left.push(self.allowed[i].clone());
                assert(!before.contains(x));
                assert forall|a: int, b: int|
                    0 <= a < b < before.len() + 1 implies before.push(x)[a] != before.push(x)[b] by {
                    assert(before.contains(before[a]));
                }
            }
            i = i + 1;
        }
        assert(all.take(i as int) =~= all);
        self.allowed = left;
        assert(self@ =~= all.to_set().remove(scope@));
    }

    /// The reasons that were approved for the whole session, in order.
    pub fn remembered(&self) -> (r: Vec<String>)
        requires
            self.wf(),
        ensures
            views(r@).to_set() == self@,
            views(r@).no_duplicates(),
            ordered(views(r@)),
    {
        let v = copy_texts(&self.allowed);
        let r = sorted_texts(v);
        proof {
            let a = views(self.allowed@);
            let b = views(r@);
            assert(a.to_multiset() == b.to_multiset());
            a.to_multiset_ensures();
            b.to_multiset_ensures();
            assert forall|q: Seq<char>| a.contains(q) <==> b.contains(q) by {
                assert(a.contains(q) <==> a.to_multiset().count(q) > 0);
                assert(b.contains(q) <==> b.to_multiset().count(q) > 0);
            }
            assert(b.to_set() =~= a.to_set());
            a.lemma_multiset_has_no_duplicates();
            b.lemma_multiset_has_no_duplicates_conv();
        }
        r
    }
}

/// A "for the whole session" answer is remembered by its reason alone: whatever
/// command comes next, the same reason is not asked about again, and no other
/// reason is let through by it.
pub proof fn always_is_remembered_per_reason(
    allowed: Set<Seq<char>>,
    reason: Seq<char>,
    other: Seq<char>,
)
    ensures
        remembered_after(allowed, reason, Approval::AlwaysThisSession).contains(reason),
        other != reason ==> (remembered_after(allowed, reason, Approval::AlwaysThisSession).contains(
            other,
        ) <==> allowed.contains(other)),
        remembered_after(allowed, reason, Approval::Once) == allowed,
        remembered_after(allowed, reason, Approval::Deny) == allowed,
{
}

} // verus!
