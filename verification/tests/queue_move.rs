use cassette::priority::sort_ascending;
use cassette::queue::edit::{compute_move_target, MoveAnchor};
use cassette::queue::QueueError;
use cassette::store::{CassetteMeta, Status, StoredCassette};

fn stored(id: &str, priority: i64, status: Status) -> StoredCassette {
    StoredCassette {
        path: std::path::PathBuf::from(format!("{id}.md")),
        meta: CassetteMeta {
            id: id.to_string(),
            topic: None,
            priority,
            status,
            locked_by: None,
            created_by: "w".to_string(),
            last_writer: "w".to_string(),
            updated_at: "2026-09-15T09:00:00Z".to_string(),
        },
        body: String::new(),
    }
}

fn session() -> Vec<StoredCassette> {
    vec![
        stored("c", 30, Status::Open),
        stored("a", 10, Status::Open),
        stored("x", 15, Status::Closed),
        stored("b", 20, Status::Open),
    ]
}

fn usage(r: Result<Option<i64>, QueueError>) -> String {
    match r {
        Err(QueueError::Usage(m)) => m,
        other => panic!("expected Usage, got {other:?}"),
    }
}

#[test]
fn moving_before_an_anchor_takes_the_midpoint_with_its_lower_neighbour() {
    let r = compute_move_target(&session(), "s1", "c", &MoveAnchor::Before("b".into()));
    assert_eq!(r.unwrap(), Some(15));
}

#[test]
fn moving_after_the_tail_steps_past_it() {
    let r = compute_move_target(&session(), "s1", "a", &MoveAnchor::After("c".into()));
    assert_eq!(r.unwrap(), Some(40));
}

#[test]
fn moving_before_the_head_steps_below_it() {
    let r = compute_move_target(&session(), "s1", "c", &MoveAnchor::Before("a".into()));
    assert_eq!(r.unwrap(), Some(5));
}

#[test]
fn closed_cassettes_do_not_count_as_neighbours() {
    // "x" (closed, priority 15) sits between 10 and 20 but is not open.
    let r = compute_move_target(&session(), "s1", "c", &MoveAnchor::After("a".into()));
    assert_eq!(r.unwrap(), Some(15));
}

#[test]
fn adjacent_priorities_leave_no_room() {
    let cs = vec![stored("a", 10, Status::Open), stored("b", 11, Status::Open), stored("c", 30, Status::Open)];
    let r = compute_move_target(&cs, "s1", "c", &MoveAnchor::After("a".into()));
    assert_eq!(r.unwrap(), None);
}

#[test]
fn an_unknown_cassette_is_a_usage_error() {
    let m = usage(compute_move_target(&session(), "s1", "zz", &MoveAnchor::After("a".into())));
    assert_eq!(m, "no cassette 'zz' in session 's1'");
}

#[test]
fn a_closed_cassette_cannot_be_moved() {
    let m = usage(compute_move_target(&session(), "s1", "x", &MoveAnchor::After("a".into())));
    assert_eq!(m, "'x' is not open — only open cassettes can be moved");
}

#[test]
fn an_unknown_anchor_is_a_usage_error() {
    let m = usage(compute_move_target(&session(), "s1", "a", &MoveAnchor::Before("q".into())));
    assert_eq!(m, "no cassette 'q' in session 's1'");
}

#[test]
fn a_closed_anchor_is_refused() {
    let m = usage(compute_move_target(&session(), "s1", "a", &MoveAnchor::Before("x".into())));
    assert_eq!(m, "'x' is not open — can only move relative to an open cassette");
}

#[test]
fn priorities_sort_ascending_keeping_duplicates() {
    let mut v = vec![30, -2, 10, 10, 7];
    sort_ascending(&mut v);
    assert_eq!(v, vec![-2, 7, 10, 10, 30]);
}
