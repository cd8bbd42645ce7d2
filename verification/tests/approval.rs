use std::cell::RefCell;

use worksmith::tools::approval::{
    reply_or_deny, Approval, Approver, AutoApprove, RefuseWhenUnattended, RememberingApprover,
};

/// Always gives the same answer, and keeps what it was asked.
struct Counting {
    answer: Approval,
    asked: RefCell<Vec<(String, String)>>,
}

impl Counting {
    fn new(answer: Approval) -> Counting {
        Counting { answer, asked: RefCell::new(Vec::new()) }
    }

    fn calls(&self) -> usize {
        self.asked.borrow().len()
    }
}

impl Approver for Counting {
    fn ask(&self, command: &str, reason: &str) -> Approval {
        self.asked.borrow_mut().push((command.to_string(), reason.to_string()));
        self.answer
    }
}

#[test]
fn unattended_runs_refuse_rather_than_allow() {
    // The whole point: nobody to ask must not mean "go ahead".
    assert_eq!(RefuseWhenUnattended.ask("git push", "pushes"), Approval::Deny);
    assert_eq!(AutoApprove.ask("git push", "pushes"), Approval::Once);
}

#[test]
fn always_is_remembered_per_category_and_stops_asking() {
    let inner = Counting::new(Approval::AlwaysThisSession);
    let mut a = RememberingApprover::new();

    let push = "pushes commits to a remote";
    assert_eq!(a.ask(&inner, "git push origin main", push), Approval::AlwaysThisSession);
    // Same category, different command: no second prompt.
    assert_eq!(a.ask(&inner, "git push --tags", push), Approval::Once);
    assert_eq!(inner.calls(), 1, "asked once, not twice");

    // A different category is still a fresh question.
    assert_eq!(a.ask(&inner, "sudo ls", "runs as root"), Approval::AlwaysThisSession);
    assert_eq!(inner.calls(), 2);
    assert_eq!(a.remembered(), vec!["pushes commits to a remote", "runs as root"]);
    assert_eq!(
        inner.asked.borrow()[0],
        ("git push origin main".to_string(), push.to_string()),
        "the question reaches the one who is there as it was put"
    );
}

#[test]
fn a_question_nobody_answers_is_a_no() {
    // If the UI is gone or drops the request, the command must not run.
    assert_eq!(reply_or_deny(None), Approval::Deny);
}

#[test]
fn an_answer_reaches_the_waiting_agent() {
    assert_eq!(reply_or_deny(Some(Approval::AlwaysThisSession)), Approval::AlwaysThisSession);
}

#[test]
fn a_one_time_yes_is_not_remembered() {
    let inner = Counting::new(Approval::Once);
    let mut a = RememberingApprover::new();
    let push = "pushes commits to a remote";
    assert_eq!(a.ask(&inner, "git push", push), Approval::Once);
    assert_eq!(a.ask(&inner, "git push", push), Approval::Once);
    assert_eq!(inner.calls(), 2, "each time is a fresh question");
    assert!(a.remembered().is_empty());
}

#[test]
fn a_no_is_handed_on_and_not_remembered() {
    let inner = Counting::new(Approval::Deny);
    let mut a = RememberingApprover::new();
    assert_eq!(a.ask(&inner, "git push", "pushes"), Approval::Deny);
    assert_eq!(a.ask(&inner, "git push", "pushes"), Approval::Deny);
    assert_eq!(inner.calls(), 2);
}

#[test]
fn what_is_remembered_is_not_asked_about_until_it_is_taken_back() {
    let mut a = RememberingApprover::new();
    let always = Counting::new(Approval::AlwaysThisSession);
    assert_eq!(a.ask(&always, "git push", "pushes"), Approval::AlwaysThisSession);
    assert_eq!(a.ask(&Counting::new(Approval::Deny), "git push -f", "pushes"), Approval::Once);
    assert_eq!(a.ask(&Counting::new(Approval::Deny), "rm", "deletes"), Approval::Deny);
    a.ask(&always, "x", "tool:1");
    assert!(a.has_scope("pushes") && a.has_scope("tool:1") && !a.has_scope("deletes"));
    a.forget_scope("pushes");
    assert!(!a.has_scope("pushes") && a.has_scope("tool:1"));
    assert_eq!(a.ask(&Counting::new(Approval::Deny), "git push", "pushes"), Approval::Deny);
    a.forget_scope("nothing");
    assert_eq!(a.remembered(), vec!["tool:1".to_string()]);
}
