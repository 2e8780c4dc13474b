use cassette::queue::edit::{close_step, move_self_check, reopen_step, MoveAnchor};
use cassette::queue::view::{first_free, next_pick};
use cassette::queue::write::{write_permitted, write_step, Side, WriteMode};
use cassette::queue::QueueError;
use cassette::store::{CassetteMeta, Kind, Status, StoredCassette};

fn claimed() -> StoredCassette {
    StoredCassette {
        path: std::path::PathBuf::from("aaa.md"),
        meta: CassetteMeta {
            id: "aaa00000000000000000000000".to_string(),
            topic: Some("claimed".to_string()),
            priority: 10,
            status: Status::Open,
            locked_by: Some("01OTHERWRITER00000000000AB".to_string()),
            created_by: "w".to_string(),
            last_writer: "w".to_string(),
            updated_at: "2026-09-16T09:00:00Z".to_string(),
        },
        body: "## Side A\n\noriginal\n".to_string(),
    }
}

#[test]
fn an_agent_is_refused_a_sticky_cassette_by_the_holders_name() {
    match write_permitted(Kind::Agent, Some("joseph"), "") {
        Err(QueueError::Sticky(m)) => {
            assert_eq!(m, "cassette is locked by 'joseph' \u{2014} only a human may write it")
        }
        other => panic!("expected Sticky, got {other:?}"),
    }
    assert!(write_permitted(Kind::Human, Some("joseph"), "").is_ok());
    assert!(write_permitted(Kind::Agent, None, "").is_ok());
}

#[test]
fn a_refused_write_changes_nothing_and_a_human_write_lands() {
    let c = claimed();
    let refused = write_step(&c, "agent prose\n", Side::A, WriteMode::Replace, Kind::Agent,
        Some("01OTHERWRITER00000000000AB"), "", "bot", "now".to_string());
    assert!(matches!(refused, Err(QueueError::Sticky(_))));
    let (m, body) = write_step(&c, "human prose\n", Side::A, WriteMode::Replace, Kind::Human,
        Some("01OTHERWRITER00000000000AB"), "", "human", "2026-09-17T10:00:00Z".to_string())
        .expect("a human may write");
    assert_eq!(body, "## Side A\n\nhuman prose\n");
    assert_eq!(m.last_writer, "human");
    assert_eq!(m.updated_at, "2026-09-17T10:00:00Z");
    assert_eq!(m.priority, 10);
    assert_eq!(m.locked_by.as_deref(), Some("01OTHERWRITER00000000000AB"), "the claim stays");
    assert_eq!(m.created_by, "w");
}

#[test]
fn a_write_to_side_b_appends_and_leaves_side_a_alone() {
    let mut c = claimed();
    c.meta.locked_by = None;
    let (_, body) = write_step(&c, "scratch", Side::B, WriteMode::Append, Kind::Agent, None, "",
        "bot", "now".to_string()).expect("unclaimed");
    assert_eq!(body, "## Side A\n\noriginal\n## Side B\n\nscratch\n");
}

#[test]
fn closing_marks_closed_and_appends_the_line_but_an_agent_is_refused_a_claim() {
    let c = claimed();
    assert!(matches!(
        close_step(&c, Kind::Agent, None, "bot", "now".to_string()),
        Err(QueueError::Sticky(_))
    ));
    let (m, body) = close_step(&c, Kind::Human, Some("\n> done\n"), "human", "t1".to_string())
        .expect("a human may close");
    assert_eq!(m.status, Status::Closed);
    assert_eq!(m.last_writer, "human");
    assert_eq!(body, "## Side A\n\noriginal\n\n> done\n");
    let r = reopen_step(&m, "agent", "t2".to_string());
    assert_eq!(r.status, Status::Open);
    assert_eq!(r.locked_by, m.locked_by, "reopening keeps the claim");
    assert_eq!(r.updated_at, "t2");
}

#[test]
fn next_takes_the_first_free_candidate_and_reports_busy_when_none_is() {
    let mut a = claimed();
    a.meta.id = "a".to_string();
    let mut b = claimed();
    b.meta.id = "b".to_string();
    let cands = vec![a, b];
    assert_eq!(first_free(&[true, false]), Some(1));
    assert_eq!(next_pick(&cands, &[true, false]).unwrap(), "b");
    match next_pick(&cands, &[true, true]) {
        Err(QueueError::Busy(m)) => {
            assert_eq!(m, "every open cassette is being written \u{2014} try again shortly")
        }
        other => panic!("{other:?}"),
    }
}

#[test]
fn a_cassette_cannot_move_relative_to_itself() {
    match move_self_check("x", &MoveAnchor::Before("x".to_string())) {
        Err(QueueError::Usage(m)) => assert_eq!(m, "cannot move 'x' relative to itself"),
        other => panic!("{other:?}"),
    }
    assert!(move_self_check("x", &MoveAnchor::After("y".to_string())).is_ok());
}
