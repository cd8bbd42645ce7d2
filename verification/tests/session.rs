use worksmith::event::Event;
use worksmith::llm::Message;
use worksmith::paths::is_path_at_most;
use worksmith::session::store::{
    artifact_path, day_wanted, digits_named, in_project, is_managed, legacy_wanted, list, metadata,
    names_file, search, search_failed, Date, DateRange, Listing, Metadata,
};
use worksmith::session::{
    is_recorded, most_recent_for_cwd, open, summary_message, Recorded, Session, SessionEntry,
};

fn entry(id: &str, data: Recorded) -> SessionEntry {
    SessionEntry { id: id.to_string(), data }
}

fn message(id: &str, text: &str) -> SessionEntry {
    entry(id, Recorded::Message(Some(Message::user(text))))
}

#[test]
fn a_compaction_survives_a_reload() {
    let mut live = Session::new();
    live.replay(entry(
        "m0",
        Recorded::Meta { cwd: Some("/w".to_string()), id: Some("s".to_string()) },
    ));
    for (id, text) in [("m1", "one"), ("m2", "two"), ("m3", "three")] {
        live.append_message(Message::user(text), id);
    }
    let (kept_from, kept) = live.compaction_record(2);
    assert_eq!((kept_from.as_deref(), kept), (Some("m3"), 1));
    live.compact("so far", 2, "m4");

    let reloaded = open(vec![
        entry("m0", Recorded::Meta { cwd: Some("/w".to_string()), id: Some("s".to_string()) }),
        message("m1", "one"),
        message("m2", "two"),
        message("m3", "three"),
        entry("m4", Recorded::Compaction { summary: Some("so far".to_string()), kept_from }),
    ]);
    assert_eq!(reloaded.messages(), live.messages());
    assert_eq!(reloaded.messages().len(), 2);
    assert_eq!(reloaded.messages()[0], summary_message("so far"));
    assert_eq!(reloaded.messages()[1], Message::user("three"));
    assert_eq!(reloaded.last_id(), live.last_id());
    assert_eq!((reloaded.id(), reloaded.cwd()), ("s", "/w"));
}

#[test]
fn a_whole_history_is_given_back_by_a_reload() {
    let mut live = Session::create("s", "/w", "e0");
    let mut written = vec![entry(
        "e0",
        Recorded::Meta { cwd: Some("/w".to_string()), id: Some("s".to_string()) },
    )];
    for n in 1..40 {
        let id = format!("e{n}");
        match n % 7 {
            0 => {
                let split = n % 5;
                let (kept_from, _) = live.compaction_record(split);
                written.push(entry(
                    &id,
                    Recorded::Compaction { summary: Some(format!("sum {n}")), kept_from },
                ));
                live.compact(&format!("sum {n}"), split, &id);
            }
            3 => {
                written.push(entry(&id, Recorded::Other));
                live.wrote(&id);
            }
            _ => {
                written.push(message(&id, &format!("text {n}")));
                live.append_message(Message::user(&format!("text {n}")), &id);
            }
        }
        let reloaded = open(written.clone());
        assert_eq!(reloaded.messages(), live.messages());
        assert_eq!(reloaded.last_id(), live.last_id());
        assert_eq!((reloaded.id(), reloaded.cwd()), ("s", "/w"));
    }
}

#[test]
fn dates_are_ordered_as_the_calendar_is() {
    let d = |s: &str| Date::parse(s).unwrap();
    assert!(d("2023-12-31") < d("2024-01-01"));
    assert!(d("2024-01-31") < d("2024-02-01"));
    assert_eq!(d("2024-02-01").max(d("2024-02-02")), d("2024-02-02"));
}

#[test]
fn what_cannot_be_replayed_is_passed_over() {
    let mut s = open(vec![
        message("m1", "one"),
        entry("m2", Recorded::Message(None)),
        entry("m3", Recorded::Compaction { summary: None, kept_from: None }),
        entry("m4", Recorded::Other),
    ]);
    assert_eq!(s.messages().len(), 1);
    assert_eq!(s.last_id().as_deref(), Some("m4"));
    s.name_if_unnamed("stem");
    s.name_if_unnamed("other");
    assert_eq!(s.id(), "stem");
    // A summary that keeps nothing known keeps nothing.
    s.replay(entry(
        "m5",
        Recorded::Compaction {
            summary: Some("all".to_string()),
            kept_from: Some("gone".to_string()),
        },
    ));
    assert_eq!(s.messages().len(), 1);
    assert_eq!(s.compaction_record(9), (None, 0));
}

#[test]
fn streamed_pieces_are_not_recorded() {
    assert!(!is_recorded(&Event::Thinking { text: "hm".to_string() }));
    assert!(!is_recorded(&Event::MessageDelta { text: "a".to_string() }));
    assert!(is_recorded(&Event::AssistantMessage { text: "a".to_string() }));
}

#[test]
fn the_newest_session_of_a_directory_is_continued() {
    assert_eq!(most_recent_for_cwd(&vec![]), None);
    assert_eq!(most_recent_for_cwd(&vec![(false, 9), (true, 3), (true, 5), (true, 5)]), Some(2));
    assert_eq!(most_recent_for_cwd(&vec![(false, 9)]), None);
}

#[test]
fn a_date_is_read_written_and_placed() {
    let d = Date::parse("2024-02-29").unwrap();
    assert_eq!(d.text(), "2024-02-29");
    assert_eq!(d.directory(), "2024/02/29");
    assert!(Date::parse("2023-02-29").is_err());
    assert!(Date::parse("2024-2-9").is_err());
    assert_eq!(Date::from_unix(0).text(), "1970-01-01");
    assert_eq!(Date::from_unix(951_782_400).text(), "2000-02-29");
    let r = DateRange::new(Some("2024-01-01"), Some("2024-03-01")).unwrap();
    assert!(r.contains(d));
    assert!(day_wanted(r, "2024-03-01"));
    assert!(!day_wanted(r, "2024-03-02"));
    assert!(!day_wanted(r, "someday"));
    assert!(DateRange::new(Some("2024-03-01"), Some("2024-01-01")).is_err());
    assert!(legacy_wanted(DateRange::default(), None));
    assert!(!legacy_wanted(r, None));
    assert!(legacy_wanted(r, Some(1_704_067_200)));
}

fn listing(id: &str, modified: u128) -> Listing {
    Listing {
        metadata: Metadata {
            id: id.to_string(),
            cwd: "/w".to_string(),
            created: 0,
            title: String::new(),
        },
        path: format!("/s/{id}/transcript.jsonl"),
        modified,
    }
}

#[test]
fn sessions_are_listed_newest_first_and_found_by_their_text() {
    let all = list(vec![listing("a", 1), listing("b", 3), listing("c", 2)]);
    let ids: Vec<&str> = all.iter().map(|l| l.metadata.id.as_str()).collect();
    assert_eq!(ids, vec!["b", "c", "a"]);
    // Paths are ordered by their components, not by their characters.
    let tied = list(vec![listing("a-b", 1), listing("a", 1)]);
    let ids: Vec<&str> = tied.iter().map(|l| l.metadata.id.as_str()).collect();
    assert_eq!(ids, vec!["a", "a-b"]);
    let out = b"/s/c/transcript.jsonl\0".to_vec();
    assert!(names_file(&out, b"/s/c/transcript.jsonl"));
    assert!(!names_file(&out, b"/s/c"));
    assert_eq!(search(&all, &vec![out]), vec![1]);
    assert!(search_failed(Some(0), "").is_none());
    assert!(search_failed(Some(1), "").is_none());
    assert!(search_failed(Some(2), "bad pattern").unwrap().contains("bad pattern"));
}

#[test]
fn a_managed_session_keeps_its_files_beside_its_transcript() {
    let id = "67e55044-10b1-426f-9247-bb680e5fe0c8";
    let managed = format!("/s/2024/01/01/{id}/transcript.jsonl");
    assert!(is_managed(&managed));
    assert!(!is_managed("/s/transcript.jsonl"));
    assert_eq!(
        artifact_path(&managed, "results", "mcp"),
        format!("/s/2024/01/01/{id}/results")
    );
    assert_eq!(artifact_path("/s/old.jsonl", "results", "mcp"), "/s/old.mcp");
    assert!(digits_named("2024", 4));
    assert!(!digits_named("24", 4));
    assert!(!digits_named("20x4", 4));
    assert!(in_project("/w", None, Some("/w")));
    assert!(in_project("/link", Some("/w"), Some("/w")));
    assert!(!in_project("/v", None, Some("/w")));
    assert!(in_project("/v", None, None));
}

#[test]
fn a_project_is_told_by_the_components_of_its_path() {
    assert!(in_project("/gone/x/", None, Some("/gone/x")));
    assert!(in_project("/link", Some("/real/./x"), Some("/real/x")));
    assert!(!in_project("/gone/xy", None, Some("/gone/x")));
    assert!(in_project("/anywhere", None, None));
}

#[test]
fn paths_are_ordered_as_the_standard_library_orders_them() {
    let paths =
        ["", "/", ".", "..", "/a", "/a/b", "/a-b", "/a//b", "/a/./b", "./a", "a", "a/../b", "/é", "/a."];
    for p in paths {
        for q in paths {
            let expected = std::path::Path::new(p) <= std::path::Path::new(q);
            assert_eq!(is_path_at_most(p, q), expected, "{p} and {q}");
        }
    }
}

#[test]
fn a_transcript_says_where_its_session_runs() {
    let meta = |cwd: Option<&str>, id: Option<&str>| Recorded::Meta {
        cwd: cwd.map(String::from),
        id: id.map(String::from),
    };
    let m = metadata(
        "/s/a.jsonl",
        &vec![(1, Recorded::Other), (7, meta(Some("/w"), Some("a"))), (9, meta(None, None))],
    )
    .unwrap();
    assert_eq!((m.id.as_str(), m.cwd.as_str(), m.created, m.title.as_str()), ("a", "/w", 7, ""));
    let fails = |es: Vec<(u64, Recorded)>| metadata("/s/a.jsonl", &es).unwrap_err();
    assert_eq!(fails(vec![(1, meta(Some("/w"), None))]), "session has no id");
    assert_eq!(fails(vec![(1, meta(None, Some("a")))]), "session has no project");
    assert_eq!(fails(vec![(1, Recorded::Other)]), "session has no metadata: /s/a.jsonl");
}
