use cassette::queue::edit::{
    close_message_line, close_permitted, is_full, target_priority, validate_priority, MoveAnchor,
    MoveSide,
};
use cassette::queue::QueueError;
use cassette::store::{Kind, Status};

#[test]
fn a_non_positive_explicit_priority_is_rejected() {
    // priority::first treats non-positive results as "no room left"
    // (`below > 0`, `halved > 0`), so a stored 0 would be a value the
    // placement functions cannot reason about. Reject at the boundary.
    for bad in [0i64, -1, i64::MIN] {
        assert!(
            validate_priority(bad).is_err(),
            "{bad} must be rejected at the CLI boundary"
        );
    }
    assert!(validate_priority(1).is_ok());
}

#[test]
fn the_cap_counts_open_cassettes_only() {
    // A session full of closed cassettes is not a full queue.
    assert!(!is_full(&[Status::Closed, Status::Closed], 2));
    assert!(is_full(&[Status::Open, Status::Open], 2));
    assert!(!is_full(&[Status::Open, Status::Closed], 2));
}

#[test]
fn an_agent_may_not_close_a_sticky_locked_cassette_but_a_human_may() {
    // The permission boundary a writer's `kind` exists for.
    assert!(matches!(
        close_permitted(Kind::Agent, Some("01WRITER")),
        Err(QueueError::Sticky(_))
    ));
    assert!(close_permitted(Kind::Human, Some("01WRITER")).is_ok());
    assert!(close_permitted(Kind::Agent, None).is_ok());
}

#[test]
fn a_close_message_may_not_contain_a_newline() {
    assert!(close_message_line("done for now").is_ok());
    assert!(
        close_message_line("done\n## Side B").is_err(),
        "a newline would inject a body line that is not a quote"
    );
}

#[test]
fn close_message_line_renders_a_trailing_blockquote() {
    assert_eq!(
        close_message_line("done for now").expect("ok"),
        "\n> done for now\n"
    );
}

#[test]
fn moving_before_the_head_takes_a_priority_above_zero() {
    // `first`-style placement: there is no lower neighbour, so the new
    // priority is derived from the head alone and must stay positive.
    let existing = [10i64, 20, 30];
    let p = target_priority(&existing, /* anchor */ 10, MoveSide::Before)
        .expect("a gap exists below 10");
    assert!(p > 0, "priorities are positive: got {p}");
    assert!(p < 10, "before the head means below it: got {p}");
}

#[test]
fn adjacent_neighbours_report_no_gap_so_the_caller_renumbers() {
    // 10 and 11 have no integer between them. `None` is the signal to
    // renumber, not an error.
    assert!(target_priority(&[10, 11], 11, MoveSide::Before).is_none());
}

#[test]
fn moving_after_the_tail_takes_a_priority_a_step_past_it() {
    // `last`-style placement: no upper neighbour, so the new priority is
    // derived from the tail alone.
    let existing = [10i64, 20, 30];
    assert_eq!(
        target_priority(&existing, 30, MoveSide::After),
        Some(40),
        "after the tail means one step above it"
    );
}

#[test]
fn moving_between_two_neighbours_takes_their_midpoint() {
    let existing = [10i64, 20, 30];
    assert_eq!(target_priority(&existing, 20, MoveSide::Before), Some(15));
    assert_eq!(target_priority(&existing, 20, MoveSide::After), Some(25));
}

#[test]
fn move_anchor_side_strips_the_id() {
    assert_eq!(MoveAnchor::Before("x".to_string()).side(), MoveSide::Before);
    assert_eq!(MoveAnchor::After("x".to_string()).side(), MoveSide::After);
    assert_eq!(MoveAnchor::Before("x".to_string()).id(), "x");
}
