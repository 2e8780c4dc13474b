use cassette::queue::json::split_sides;
use cassette::queue::write::{apply_write, build_body};
use cassette::queue::{Side, WriteMode};

#[test]
fn a_built_body_splits_back_into_its_sides() {
    let body = build_body("  front words\n", "\nback words  ");
    assert_eq!(body, "## Side A\n\nfront words\n## Side B\n\nback words\n");
    let (a, b) = split_sides(&body);
    assert_eq!(a, "\nfront words");
    assert_eq!(b, "\nback words");
}

#[test]
fn a_built_body_with_a_blank_side_b_splits_to_an_empty_side_b() {
    let body = build_body("one\ntwo", "   \n");
    assert_eq!(body, "## Side A\n\none\ntwo\n");
    let (a, b) = split_sides(&body);
    assert_eq!(a, "\none\ntwo");
    assert_eq!(b, "");
}

#[test]
fn a_built_body_with_both_sides_blank_splits_to_blank_sides() {
    let body = build_body("", "");
    let (a, b) = split_sides(&body);
    assert_eq!(a, "\n");
    assert_eq!(a.trim(), "");
    assert_eq!(b, "");
}

#[test]
fn a_crlf_inside_a_side_does_not_read_back_byte_for_byte() {
    let (a, _) = split_sides(&build_body("one\r\ntwo", ""));
    assert_eq!(a, "\none\ntwo");
}

#[test]
fn a_side_b_line_inside_side_a_moves_the_split() {
    let (a, b) = split_sides(&build_body("one\n## Side B\ntwo", ""));
    assert_eq!(a.trim(), "one");
    assert_eq!(b.trim(), "two");
}

#[test]
fn replacing_side_b_leaves_side_a_alone() {
    let body = apply_write("## Side A\n\nfront\n", "back\n", Side::B, WriteMode::Replace);
    let (a, b) = split_sides(&body);
    assert_eq!(a.trim(), "front");
    assert_eq!(b.trim(), "back");
}

#[test]
fn appending_to_side_a_keeps_side_b_and_the_old_text() {
    let current = build_body("first", "back");
    let body = apply_write(&current, "second", Side::A, WriteMode::Append);
    let (a, b) = split_sides(&body);
    assert_eq!(a.trim(), "first\nsecond");
    assert_eq!(b.trim(), "back");
}
