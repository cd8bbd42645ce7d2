use worksmith::event::Event;
use worksmith::llm::ContextBreakdown;
use worksmith::metrics::report::{
    average_ms, context_breakdown_total, digest, follow_link, metric_pair_line, parent_link, report,
    session_report, workers_report, Link, PartTexts, SessionTexts, WorkerMetrics,
};
use worksmith::metrics::{Accounting, Totals};
use worksmith::session::TimedEvent;
use worksmith::tally::TextSet;

fn call(purpose: &str, model: &str, prompt: u32, cached: Option<u32>, priced: bool) -> Event {
    Event::ModelMetrics {
        purpose: purpose.to_string(),
        model: model.to_string(),
        prompt_tokens: prompt,
        completion_tokens: 10,
        reasoning_tokens: 1,
        cached_tokens: cached,
        cache_write_tokens: None,
        context_breakdown: None,
        total_ms: 100,
        first_output_ms: Some(20),
        priced,
    }
}

fn at(ts: u64, event: Event) -> TimedEvent {
    TimedEvent { ts, event }
}

fn session() -> Vec<TimedEvent> {
    vec![
        at(5, call("helper", "m", 7, None, true)),
        at(6, Event::UserMessage { text: "go".to_string() }),
        at(7, call("turn", "m", 100, Some(400), true)),
        at(8, Event::ToolCall { id: "1".into(), name: "ls".into(), arguments: "{}".into() }),
        at(9, call("turn", "", 50, None, false)),
        at(10, Event::Validation { ok: true, detail: String::new() }),
        at(11, Event::TurnComplete { outcome: "done".to_string() }),
        at(12, Event::Nudge { reason: "again".to_string() }),
        at(13, Event::UserMessage { text: "more".to_string() }),
    ]
}

#[test]
fn every_call_is_accounted_for_by_turn_and_by_model() {
    let a = Accounting::from_events(&session());
    assert_eq!(a.totals.calls, 3);
    assert_eq!(a.totals.priced, vec![0, 2]);
    assert_eq!(a.totals.unpriced_calls, 1);
    assert_eq!(a.totals.cached_tokens, 100, "no more can be cached than was sent");
    assert_eq!(a.totals.cache_reported_calls, 1);
    assert_eq!(a.turns.len(), 2);
    assert_eq!(a.turns[0].totals.calls, 2, "a helper's call before the turn is not the turn's");
    assert_eq!((a.turns[0].peak_context, a.turns[0].last_context), (100, 50));
    assert_eq!(a.turns[0].outcome.as_deref(), Some("done"));
    assert_eq!(a.turns[0].validation, Some(true));
    assert_eq!(a.turns[1].number, 2);
    assert_eq!(a.turns[1].totals.nudges, 1);
    let models: Vec<(&str, u128)> = a.models.iter().map(|(n, t)| (n.as_str(), t.calls)).collect();
    assert_eq!(models, vec![("m", 2), ("unknown (legacy)", 1)]);
}

#[test]
fn sessions_add_up_to_what_their_events_say() {
    let evs = session();
    let mut whole = Totals::new();
    for (i, e) in evs.iter().enumerate() {
        whole.observe(&e.event, i);
    }
    let mut sum = Totals::new();
    let part = Accounting::from_events(&evs).totals;
    assert!(sum.has_room_for(&part));
    sum.absorb(&part);
    assert_eq!(format!("{sum:?}"), format!("{whole:?}"));
}

fn texts() -> SessionTexts {
    let t = |s: &str| s.to_string();
    SessionTexts {
        peak_ctx: t("100"),
        avg_first: t("20ms"),
        avg_total: t("100ms"),
        avg_prompt_rate: t("1.0"),
        avg_decode_rate: t("2.0"),
        parts: PartTexts {
            system: t("1"),
            tools: t("2"),
            skills: t("3"),
            memory: t("4"),
            history: t("5"),
            latest_user: t("6"),
            sum: t("21"),
        },
    }
}

#[test]
fn the_report_leaves_helpers_out_and_says_what_is_not_known() {
    let d = digest(&session());
    assert_eq!((d.start, d.samples.len()), (5, 2));
    assert_eq!(d.samples[0].at, 2);
    assert_eq!(d.peak(), 0);
    assert_eq!(average_ms(&d.first_times()), 20);
    assert_eq!(average_ms(&d.total_times()), 100);
    assert_eq!(average_ms(&vec![]), 0);
    assert_eq!(average_ms(&vec![u64::MAX, 2]), u64::MAX / 2);
    let mut a = Accounting::from_events(&session());
    a.totals.shown.known_cost = "0.001000".to_string();
    a.totals.shown.model_time = "300ms".to_string();
    let lines = report(&d, &texts(), a.report());
    assert_eq!(lines[1], "  calls 2     compactions 0     peak ctx 100");
    assert!(lines.contains(&"Recent Calls".to_string()));
    assert!(lines.contains(&"  reasoning 3 model 300ms cost $0.001000 + 1 unpriced calls".to_string()));
    assert!(lines.contains(&"  #1 done (validated)".to_string()));
    assert!(lines.contains(&"  #2 in progress / incomplete".to_string()));
    assert!(!lines.contains(&"Context Breakdown".to_string()));
    let none = report(&digest(&vec![]), &texts(), vec!["x".to_string()]);
    assert_eq!(none, vec!["metrics: no model metrics recorded yet", "x"]);
    assert_eq!(metric_pair_line("ctx", "1.0k", "output", "7"), "  ctx         1.0k      output      7");
    let b = ContextBreakdown {
        system_tokens: u32::MAX,
        loaded_skill_tokens: 1,
        memory_tokens: 0,
        history_tokens: 0,
        latest_user_tokens: 0,
        tool_schema_tokens: 0,
    };
    assert_eq!(context_breakdown_total(b), u32::MAX);
}

#[test]
fn the_dearest_turns_are_named_first() {
    let mut a = Accounting::from_events(&vec![
        at(1, call("turn", "m", 1, None, true)),
        at(2, Event::TurnComplete { outcome: "done".to_string() }),
        at(3, call("turn", "m", 1, None, true)),
        at(4, Event::TurnComplete { outcome: "done".to_string() }),
    ]);
    a.turns[0].totals.shown.known_cost = "0.1".to_string();
    a.turns[0].totals.shown.cost_rank = 1;
    a.turns[1].totals.shown.known_cost = "0.2".to_string();
    a.turns[1].totals.shown.cost_rank = 2;
    let lines = a.report();
    let n = lines.len();
    assert_eq!(lines[n - 3..], ["Highest Known Turn Costs", "  #2 $0.2", "  #1 $0.1"]);
}

#[test]
fn only_the_workers_that_a_session_names_are_loaded_and_each_once() {
    let id = "67e55044-10b1-426f-9247-bb680e5fe0c8";
    let mut seen = TextSet::new();
    match follow_link(&mut seen, "w1", id, "/s/parent.jsonl") {
        Link::Look(p) => assert_eq!(p, format!("/s/{id}.jsonl")),
        other => panic!("{other:?}"),
    }
    assert!(matches!(follow_link(&mut seen, "w1", id, "/s/parent.jsonl"), Link::Known));
    match follow_link(&mut seen, "w2", "../x", "/s/parent.jsonl") {
        Link::Bad(e) => assert_eq!(e, "w2: invalid worker session id"),
        other => panic!("{other:?}"),
    }
    assert_eq!(parent_link("w1", "/a", "/a").as_deref(), Some("w1: worker links to parent"));
    assert_eq!(parent_link("w1", "/b", "/a"), None);

    let totals = Totals::new();
    assert!(workers_report(&vec![], &vec![], &totals).is_empty());
    let w = WorkerMetrics {
        id: "w1".to_string(),
        session_id: id.to_string(),
        accounting: Accounting::from_events(&session()),
    };
    let lines = workers_report(&vec![w], &vec!["w2: gone".to_string()], &totals);
    assert_eq!(lines[1], "Workers (separate sessions)");
    assert_eq!(lines[2], format!("  w1 [{id}]"));
    assert!(lines.contains(&"  w2: gone".to_string()));
    let whole = session_report(
        &digest(&vec![]),
        &texts(),
        &Accounting::from_events(&vec![]),
        &vec![],
        &vec![],
        &totals,
    );
    assert_eq!(whole[0], "metrics: no model metrics recorded yet");
}
