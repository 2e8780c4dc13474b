use cassette::find::first_body_line;

#[test]
fn first_body_line_skips_blanks_and_headings() {
    assert_eq!(
        first_body_line("## Side A\n\n\nreal first line\nmore\n"),
        "real first line"
    );
    assert_eq!(first_body_line("## Side A\n\n"), "");
}

#[test]
fn first_body_line_truncates_long_previews() {
    let long = "x".repeat(100);
    assert_eq!(first_body_line(&long).chars().count(), 73, "72 + ellipsis");
    assert!(first_body_line(&long).ends_with('…'));
}
