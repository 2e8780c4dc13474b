use cassette::queue::json::{count_words, split_sides, waiting_on, WriterRef};

#[test]
fn a_body_with_side_headings_splits_on_them() {
    let (a, b) = split_sides("## Side A\n\nfront words\n\n## Side B\n\nback words\n");
    assert_eq!(a.trim(), "front words");
    assert_eq!(b.trim(), "back words");
}

#[test]
fn a_body_with_no_headings_is_all_side_a() {
    // Nothing writes sides yet — `queue write` replaces the whole body
    // with flat text — so this is the common case today, and the one
    // that must not silently lose the text.
    let (a, b) = split_sides("just prose an agent wrote\n");
    assert_eq!(a.trim(), "just prose an agent wrote");
    assert_eq!(b, "");
}

#[test]
fn text_before_the_first_heading_survives_in_side_a() {
    // Not a shape `build_body` ever writes, but this function must never
    // be the reason text disappears from an agent's view of a cassette:
    // silent truncation here is indistinguishable from the human never
    // having written the words.
    let (a, b) = split_sides("stray preamble\n## Side A\n\nwords\n");
    assert!(a.contains("stray preamble"), "{a}");
    assert!(a.contains("words"), "{a}");
    assert_eq!(b, "");
}

#[test]
fn side_a_only_leaves_side_b_empty() {
    let (a, b) = split_sides("## Side A\n\nwords\n");
    assert_eq!(a.trim(), "words");
    assert_eq!(b, "");
}

#[test]
fn words_counts_both_sides() {
    // Matches Cassette::word_count in src/cassette.rs, which is
    // split_whitespace().count() over both sides. The TUI and the JSON
    // must never disagree about how long a cassette is.
    assert_eq!(count_words("one two", "three"), 3);
    assert_eq!(count_words("", ""), 0);
    assert_eq!(count_words("  spaced   out  ", ""), 2);
}

#[test]
fn waiting_on_is_the_inverse_of_who_wrote_last() {
    let human = WriterRef {
        name: "joseph".into(),
        kind: "human",
    };
    let agent = WriterRef {
        name: "bot".into(),
        kind: "agent",
    };
    assert_eq!(waiting_on(Some(&human)), Some("agent"));
    assert_eq!(waiting_on(Some(&agent)), Some("human"));
    // An unresolvable writer yields null rather than a guess: a writer
    // missing from writers.toml is a damaged store, and inventing a turn
    // would tell an agent it is up when nobody knows whose turn it is.
    assert_eq!(waiting_on(None), None);
}
