use cassette::catalog::{contains_text, NoteEntry};
use cassette::store::{CassetteMeta, Status, StoredCassette};
use chrono::NaiveDate;

fn stored(id: &str, topic: &str, priority: i64, body: &str) -> StoredCassette {
    StoredCassette {
        path: std::path::PathBuf::from(format!("{id}.md")),
        meta: CassetteMeta {
            id: id.to_string(),
            topic: Some(topic.to_string()),
            priority,
            status: Status::Open,
            locked_by: None,
            created_by: "w".to_string(),
            last_writer: "w".to_string(),
            updated_at: "2026-09-15T09:00:00Z".to_string(),
        },
        body: body.to_string(),
    }
}

fn noon() -> chrono::NaiveDateTime {
    NaiveDate::from_ymd_opt(2026, 9, 23).unwrap().and_hms_opt(12, 0, 0).unwrap()
}

#[test]
fn a_session_becomes_one_entry_with_its_topics() {
    let cassettes = vec![
        stored("c1", "gratitude", 10, "## Side A\n\nfirst thing to say\n"),
        stored("c2", "priorities", 20, "## Side A\n\nsecond cassette body\n"),
    ];
    let e = NoteEntry::of_session("ses_1", None, noon(), &cassettes);
    assert_eq!(e.id, "ses_1");
    assert_eq!(e.words, 7, "words sum across the session's cassettes");
    assert_eq!(
        e.topics,
        vec!["gratitude".to_string(), "priorities".to_string()],
        "topics come from every cassette, in queue order"
    );
    assert_eq!(e.date, noon());
}

#[test]
fn catalog_scan_store_indexes_the_alias_and_the_topics() {
    let cassettes = vec![stored("c1", "gratitude", 10, "## Side A\n\nsomething else entirely\n")];
    let sid = "ses_01ABCDEF";
    let e = NoteEntry::of_session(sid, Some("morning-pages"), noon(), &cassettes);
    for q in ["gratitude", "morning-pages", &sid.to_lowercase(), "else entirely"] {
        assert!(e.matches(q), "query '{q}' must match");
    }
    assert!(!e.matches("nothing-like-this"));
}

#[test]
fn text_search_finds_runs_and_the_empty_needle() {
    assert!(contains_text("abcabd", "abd"));
    assert!(contains_text("abc", ""));
    assert!(contains_text("", ""));
    assert!(!contains_text("ab", "abc"));
    assert!(!contains_text("abcabc", "cba"));
}
