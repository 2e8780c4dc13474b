use cassette::find::{render, NoteEntry, Stamp};
use cassette::store::{CassetteMeta, Status, StoredCassette};
use chrono::{Datelike, NaiveDateTime, Timelike};

fn dt(s: &str) -> NaiveDateTime {
    NaiveDateTime::parse_from_str(s, "%Y-%m-%dT%H:%M:%S").unwrap()
}

fn stamp(d: &NaiveDateTime) -> Stamp {
    Stamp::from_parts(d.year(), d.month(), d.day(), d.num_seconds_from_midnight(), d.nanosecond())
}

/// A fixture entry whose haystack is built the way a scan builds it, with
/// the preview standing in for the bodies.
fn entry_with(
    path: &str,
    date: &str,
    words: usize,
    alias: Option<&str>,
    topics: &[&str],
) -> NoteEntry {
    let preview = format!("body of {path}");
    let topics: Vec<String> = topics.iter().map(|t| t.to_string()).collect();
    NoteEntry::new(path, alias, stamp(&dt(date)), words, topics, preview.clone(), &preview)
}

fn entry(path: &str, date: &str, words: usize) -> NoteEntry {
    entry_with(path, date, words, None, &[])
}

fn stored(topic: &str, priority: i64, body: &str) -> StoredCassette {
    StoredCassette {
        path: std::path::PathBuf::from(format!("{topic}.md")),
        meta: CassetteMeta {
            id: format!("c-{topic}"),
            topic: Some(topic.to_string()),
            priority,
            status: Status::Open,
            locked_by: None,
            created_by: "w".to_string(),
            last_writer: "w".to_string(),
            updated_at: "2026-09-15T09:00:00Z".to_string(),
        },
        body: body.to_string(),
    }
}

#[test]
fn a_session_becomes_one_find_entry_with_topics_and_preview() {
    let cassettes = vec![
        stored("gratitude", 10, "## Side A\n\nfirst thing to say\n"),
        stored("priorities", 20, "## Side A\n\nsecond cassette body\n"),
    ];
    let e = NoteEntry::of_session("ses_1", None, stamp(&dt("2026-07-13T09:12:00")), &cassettes);
    assert_eq!(e.path, "ses_1");
    assert_eq!(e.words, 7, "words sum across the session's cassettes");
    assert_eq!(
        e.topics,
        vec!["gratitude".to_string(), "priorities".to_string()],
        "topics come from every cassette, in queue order"
    );
    assert_eq!(
        e.preview, "first thing to say",
        "preview comes from the highest-priority (first-in-queue) cassette"
    );
}

#[test]
fn find_scan_store_indexes_the_alias_and_the_topics() {
    let sid = "ses_01ABCDEF";
    let cassettes = vec![stored("gratitude", 10, "## Side A\n\nsomething else entirely\n")];
    let entries = vec![NoteEntry::of_session(
        sid,
        Some("morning-pages"),
        stamp(&dt("2026-07-13T09:12:00")),
        &cassettes,
    )];
    for q in ["gratitude", "morning-pages", &sid.to_lowercase()] {
        assert!(
            render(&entries, Some(q), 0).contains(sid),
            "query '{q}' must match: {}",
            render(&entries, Some(q), 0)
        );
    }
    let out = render(&entries, None, 1);
    assert!(out.contains("1 unreadable"), "the reader must see the count: {out}");
}

#[test]
fn render_sorts_newest_first_with_footer() {
    let entries = [
        entry("old.md", "2026-07-01T08:00:00", 10),
        entry("new.md", "2026-07-13T09:12:00", 412),
    ];
    let out = render(&entries, None, 0);
    let new_pos = out.find("new.md").unwrap();
    let old_pos = out.find("old.md").unwrap();
    assert!(new_pos < old_pos, "{out}");
    assert!(
        out.contains("2026-07-13 09:12    412 words  new.md"),
        "{out}"
    );
    assert!(out.contains("    body of new.md"), "{out}");
    assert!(out.ends_with("resume one: cassette resume <id>"), "{out}");
}

#[test]
fn render_shows_topics() {
    let e = entry_with("d.md", "2026-07-13T09:12:00", 5, None, &["gratitude"]);
    let out = render(std::slice::from_ref(&e), None, 0);
    assert!(out.contains("d.md — gratitude"), "{out}");
}

#[test]
fn a_query_matches_the_alias_and_the_topics_the_row_prints() {
    let e = entry_with(
        "01ARZ3NDEKTSV4RRFFQ69G5FAV",
        "2026-07-13T09:12:00",
        5,
        Some("morning-pages"),
        &["gratitude", "priorities"],
    );
    let entries = std::slice::from_ref(&e);
    for q in ["gratitude", "PRIORITIES", "morning-pages", "01arz3ndek"] {
        assert!(
            render(entries, Some(q), 0).contains("01ARZ3NDEKTSV4RRFFQ69G5FAV"),
            "query '{q}' must find the session whose listing row shows it"
        );
    }
    assert_eq!(
        render(entries, Some("nothing-like-this"), 0),
        "no notes match 'nothing-like-this'"
    );
}

#[test]
fn render_filters_case_insensitively() {
    let entries = [
        entry("morning.md", "2026-07-13T09:12:00", 10),
        entry("evening.md", "2026-07-12T21:00:00", 10),
    ];
    let out = render(&entries, Some("MORNING"), 0);
    assert!(out.contains("morning.md"), "{out}");
    assert!(!out.contains("evening.md"), "{out}");
    assert_eq!(render(&entries, Some("zzz"), 0), "no notes match 'zzz'");
}

#[test]
fn render_caps_at_ten_with_more_line() {
    let entries: Vec<NoteEntry> = (1..=12)
        .map(|i| {
            entry(
                &format!("n{i:02}.md"),
                &format!("2026-07-{i:02}T08:00:00"),
                1,
            )
        })
        .collect();
    let out = render(&entries, None, 0);
    assert!(out.contains("n12.md") && out.contains("n03.md"), "{out}");
    assert!(!out.contains("n02.md"), "{out}");
    assert!(
        out.contains("… 2 more — 'cassette find <text>' narrows the list"),
        "{out}"
    );
}

#[test]
fn find_render_empty_dir_message() {
    assert_eq!(
        render(&[], None, 0),
        "no notes yet — the first session starts the count"
    );
    assert_eq!(
        render(&[], Some("x"), 0),
        "no notes yet — the first session starts the count"
    );
}

#[test]
fn render_shows_the_session_id_the_reader_can_resume() {
    let e = entry("01ARZ3NDEKTSV4RRFFQ69G5FAV", "2026-07-13T09:12:00", 412);
    let out = render(std::slice::from_ref(&e), None, 0);
    assert!(
        out.contains("2026-07-13 09:12    412 words  01ARZ3NDEKTSV4RRFFQ69G5FAV"),
        "{out}"
    );
    assert!(out.ends_with("resume one: cassette resume <id>"), "{out}");
}

#[test]
fn sessions_of_the_same_minute_keep_their_scan_order() {
    let entries = [
        entry("first.md", "2026-07-13T09:12:00", 1),
        entry("second.md", "2026-07-13T09:12:00", 1),
        entry("newest.md", "2026-07-14T09:12:00", 123456),
    ];
    let out = render(&entries, None, 0);
    let a = out.find("first.md").unwrap();
    let b = out.find("second.md").unwrap();
    let c = out.find("newest.md").unwrap();
    assert!(c < a && a < b, "newest first, ties stable: {out}");
    assert!(out.contains("2026-07-14 09:12  123456 words  newest.md"), "wide counts are not cut: {out}");
}

#[test]
fn a_stamp_prints_to_the_minute_and_orders_by_the_instant() {
    let d = dt("2026-09-15T09:05:07");
    let s = stamp(&d);
    assert_eq!(s.text, "2026-09-15 09:05");
    assert_eq!(s.text, d.format("%Y-%m-%d %H:%M").to_string());
    assert_eq!(s.key, (d.and_utc().timestamp(), 0));
    assert_eq!((s.year, s.month, s.day, s.secs), (2026, 9, 15, 9 * 3600 + 5 * 60 + 7));
    let early = dt("0042-01-02T00:00:00");
    assert_eq!(stamp(&early).text, "0042-01-02 00:00");
    let far = chrono::NaiveDate::from_ymd_opt(12345, 6, 7)
        .unwrap()
        .and_hms_opt(23, 59, 0)
        .unwrap();
    assert_eq!(stamp(&far).text, far.format("%Y-%m-%d %H:%M").to_string());
    assert_eq!(stamp(&far).key.0, far.and_utc().timestamp());
}
