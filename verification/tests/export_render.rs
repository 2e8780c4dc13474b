use cassette::export::render;
use cassette::queue::write::build_body;
use cassette::store::{CassetteMeta, Damaged, SessionScan, Status, StoredCassette};

fn stored(id: &str, priority: i64, status: Status, topic: Option<&str>, body: &str) -> StoredCassette {
    StoredCassette {
        path: std::path::PathBuf::from(format!("{id}.md")),
        meta: CassetteMeta {
            id: id.to_string(),
            topic: topic.map(|t| t.to_string()),
            priority,
            status,
            locked_by: None,
            created_by: "w".to_string(),
            last_writer: "w".to_string(),
            updated_at: "2026-09-15T09:00:00Z".to_string(),
        },
        body: body.to_string(),
    }
}

/// An export is the archive, so it is not lossy: closed cassettes are
/// included and marked, and a damaged one becomes a visible heading.
#[test]
fn export_renders_every_cassette_in_queue_order_and_marks_the_unusual_ones() {
    let scan = SessionScan {
        cassettes: vec![
            stored("c1", 10, Status::Open, Some("morning"), "## Side A\n\nfirst words\n"),
            stored("c2", 20, Status::Closed, Some("done"), "## Side A\n\narchived words\n"),
        ],
        damaged: vec![Damaged {
            label: "01M3600000000000000000BAD.md".to_string(),
            reason: "frontmatter is unparseable".to_string(),
        }],
    };
    let out = render(&scan);

    let first = out.find("first words").expect("open cassette");
    let second = out.find("archived words").expect("closed cassette");
    assert!(first < second, "queue order: open before closed\n{out}");
    assert!(out.contains("# Cassette 1 — morning\n"), "{out}");
    assert!(
        out.contains("first words\n\n# Cassette 2"),
        "cassettes are separated by a blank line: {out:?}"
    );
    assert!(
        out.contains("# Cassette 2 — done (closed)"),
        "closed cassettes are marked: {out}"
    );
    assert!(
        out.contains("# Cassette 3 — 01M3600000000000000000BAD.md (unreadable: frontmatter is unparseable)"),
        "a damaged cassette is named and numbered after the real ones: {out}"
    );
}

/// The export must not drift from what the writer produced.
#[test]
fn an_exported_body_is_what_the_writer_wrote() {
    let body = build_body("side a text", "side b text");
    let scan = SessionScan {
        cassettes: vec![stored("c1", 10, Status::Open, None, &body)],
        damaged: Vec::new(),
    };
    let out = render(&scan);
    assert!(
        out.contains(body.trim()),
        "the stored body appears verbatim:\n{out}"
    );
    assert!(out.contains("# Cassette 1\n"), "no topic, no dash: {out}");
}

/// An empty session renders to nothing.
#[test]
fn an_empty_session_exports_to_nothing() {
    let scan = SessionScan { cassettes: Vec::new(), damaged: Vec::new() };
    assert_eq!(render(&scan), "");
}
