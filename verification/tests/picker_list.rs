use cassette::catalog::NoteEntry;
use cassette::keys::{Key, KeyCode, Modifiers};
use cassette::picker::{handle_picker_key, Picker, PickerStep};
use cassette::session::DEFAULT_LIST_LIMIT;
use chrono::NaiveDate;

fn entry(id: &str, alias: Option<&str>, topic: &str) -> NoteEntry {
    NoteEntry::for_test(
        id,
        alias,
        NaiveDate::from_ymd_opt(2026, 9, 23)
            .unwrap()
            .and_hms_opt(8, 0, 0)
            .unwrap(),
        10,
        &[topic],
    )
}

/// A list is not a carousel: wrapping past the end of 200 sessions is
/// disorienting, so movement clamps at both ends.
#[test]
fn movement_clamps_rather_than_wrapping() {
    let mut p = Picker::new_for_test(vec![entry("a", None, "x"), entry("b", None, "y")]);
    p.move_up();
    assert_eq!(p.cursor, 0, "already at the top");
    p.move_down();
    p.move_down();
    p.move_down();
    assert_eq!(p.cursor, 1, "stops at the last row");
}

/// The `a` toggle changes how many rows show; the session the human was
/// looking at must still be highlighted, by id rather than by position.
#[test]
fn toggling_all_keeps_the_same_session_highlighted() {
    let entries: Vec<NoteEntry> = (0..20)
        .map(|i| entry(&format!("id{i:02}"), None, "t"))
        .collect();
    let mut p = Picker::new_for_test(entries);
    assert_eq!(p.visible().len(), DEFAULT_LIST_LIMIT, "recent by default");
    p.move_down();
    p.move_down();
    let before = p.selected().expect("a row").id.clone();

    p.toggle_all();

    assert_eq!(p.visible().len(), 20, "all of them now");
    assert_eq!(p.selected().expect("a row").id, before, "same session");
}

/// Filtering narrows live, and a filter matching nothing must leave the
/// cursor valid rather than pointing past the end.
#[test]
fn filtering_narrows_and_leaves_the_cursor_valid() {
    let mut p = Picker::new_for_test(vec![
        entry("a", Some("morning"), "gratitude"),
        entry("b", Some("evening"), "review"),
    ]);
    p.start_filter();
    for c in "morn".chars() {
        p.push_filter(c);
    }
    assert_eq!(p.visible().len(), 1);
    assert_eq!(
        p.selected().expect("a row").alias.as_deref(),
        Some("morning")
    );

    for c in "zzz".chars() {
        p.push_filter(c);
    }
    assert!(p.visible().is_empty(), "nothing matches");
    assert!(
        p.selected().is_none(),
        "and nothing is selected, rather than panicking"
    );
}

/// Backspacing out of a dead filter must bring the rows back and leave
/// the cursor usable — the recovery path from the case above.
#[test]
fn popping_a_filter_restores_the_rows() {
    let mut p = Picker::new_for_test(vec![
        entry("a", Some("morning"), "gratitude"),
        entry("b", Some("evening"), "review"),
    ]);
    p.start_filter();
    for c in "zzz".chars() {
        p.push_filter(c);
    }
    assert!(p.selected().is_none());

    for _ in 0..3 {
        p.pop_filter();
    }

    assert_eq!(p.visible().len(), 2);
    assert!(p.selected().is_some(), "the cursor is usable again");
}

/// Esc closes the prompt but keeps what it narrowed to: clearing the
/// filter would throw away work the human just did.
#[test]
fn ending_the_filter_keeps_the_query() {
    let mut p = Picker::new_for_test(vec![entry("a", Some("morning"), "x")]);
    p.start_filter();
    p.push_filter('m');
    p.end_filter();
    assert!(!p.filtering);
    assert_eq!(p.query, "m", "the narrowing survives closing the prompt");
}

/// A cursor past the end of a narrowed list is pulled back onto a row.
#[test]
fn narrowing_under_a_moved_cursor_keeps_a_row_selected() {
    let mut p = Picker::new_for_test(vec![
        entry("a", Some("morning"), "gratitude"),
        entry("b", Some("evening"), "review"),
    ]);
    p.move_down();
    assert_eq!(p.cursor, 1);

    p.start_filter();
    for c in "morn".chars() {
        p.push_filter(c);
    }

    assert_eq!(p.visible().len(), 1, "one row left");
    assert!(
        p.selected().is_some(),
        "a list with a row on it must have that row selected"
    );
    assert_eq!(
        p.selected().expect("a row").alias.as_deref(),
        Some("morning")
    );
}

/// The cursor must never point at a row the draw will omit.
#[test]
fn the_window_follows_the_cursor_past_the_bottom() {
    let entries: Vec<NoteEntry> = (0..40)
        .map(|i| entry(&format!("id{i:02}"), None, "t"))
        .collect();
    let mut p = Picker::new_for_test(entries);
    p.toggle_all();
    let capacity = 10;

    for _ in 0..25 {
        p.move_down();
        p.ensure_cursor_visible(capacity);
    }

    assert_eq!(p.cursor, 25);
    assert!(
        p.cursor >= p.scroll && p.cursor < p.scroll + capacity,
        "cursor {} outside the drawn window {}..{}",
        p.cursor,
        p.scroll,
        p.scroll + capacity
    );
    let (above, below) = p.hidden_rows(capacity);
    assert!(above > 0 && below > 0, "hints both ways: {above} / {below}");
}

/// Scrolling back up brings the window with it.
#[test]
fn the_window_follows_the_cursor_back_up() {
    let entries: Vec<NoteEntry> = (0..40)
        .map(|i| entry(&format!("id{i:02}"), None, "t"))
        .collect();
    let mut p = Picker::new_for_test(entries);
    p.toggle_all();
    for _ in 0..30 {
        p.move_down();
        p.ensure_cursor_visible(8);
    }
    assert!(p.scroll > 0);

    for _ in 0..30 {
        p.move_up();
        p.ensure_cursor_visible(8);
    }

    assert_eq!(p.cursor, 0);
    assert_eq!(p.scroll, 0, "the window came back with it");
}

/// A very short terminal still draws the highlighted row rather than
/// nothing at all.
#[test]
fn capacity_never_falls_to_zero() {
    assert_eq!(Picker::rows_capacity(0), 1);
    assert_eq!(Picker::rows_capacity(5), 1);
    assert!(Picker::rows_capacity(24) > 10);
}

/// An empty store is a normal state, not an error and not a panic.
#[test]
fn an_empty_picker_selects_nothing() {
    let p = Picker::new_for_test(Vec::new());
    assert!(p.visible().is_empty());
    assert!(p.selected().is_none());
    assert_eq!(p.total(), 0);
}

/// The cap means "the 15 most recent MATCHES", so filtering happens
/// before it.
#[test]
fn the_filter_reaches_past_the_recent_window() {
    let mut entries: Vec<NoteEntry> = (0..20)
        .map(|i| entry(&format!("id{i:02}"), None, "common"))
        .collect();
    entries.push(entry("needle", Some("needle"), "rare"));
    let mut p = Picker::new_for_test(entries);

    p.start_filter();
    for c in "rare".chars() {
        p.push_filter(c);
    }

    assert_eq!(
        p.visible().len(),
        1,
        "a match past the 15th row is still found"
    );
    assert_eq!(p.selected().expect("a row").id, "needle");
}

#[test]
fn a_blank_filter_shows_every_recent_row() {
    let mut p = Picker::new_for_test(vec![entry("a", None, "x"), entry("b", None, "y")]);
    p.push_filter(' ');
    p.push_filter(' ');
    assert_eq!(p.visible().len(), 2, "whitespace alone filters nothing");
}

#[test]
fn the_filter_is_case_blind() {
    let mut p = Picker::new_for_test(vec![entry("a", Some("Morning"), "x"), entry("b", None, "y")]);
    for c in "MORN".chars() {
        p.push_filter(c);
    }
    assert_eq!(p.visible().len(), 1);
    assert_eq!(p.selected().expect("a row").id, "a");
}

#[test]
fn toggling_back_to_recent_clamps_a_cursor_past_the_window() {
    let entries: Vec<NoteEntry> = (0..20)
        .map(|i| entry(&format!("id{i:02}"), None, "t"))
        .collect();
    let mut p = Picker::new_for_test(entries);
    p.toggle_all();
    for _ in 0..18 {
        p.move_down();
    }
    assert_eq!(p.cursor, 18);
    p.toggle_all();
    assert_eq!(p.cursor, DEFAULT_LIST_LIMIT - 1, "clamped to the last recent row");
}

#[test]
fn an_entry_matches_its_id_alias_topics_and_bodies() {
    let e = NoteEntry::for_test(
        "Ses_X",
        Some("Morning-Pages"),
        NaiveDate::from_ymd_opt(2026, 9, 23).unwrap().and_hms_opt(8, 0, 0).unwrap(),
        3,
        &["Gratitude"],
    );
    for q in ["ses_x", "morning-pages", "gratitude", "body of ses_x"] {
        assert!(e.matches(q), "query '{q}' must match");
    }
    assert!(!e.matches("nothing-like-this"));
    assert!(!e.matches("Gratitude"), "queries are matched already lowercased");
}


fn key(code: KeyCode) -> Key {
    Key { code, modifiers: Modifiers::none() }
}

#[test]
fn picker_keys_move_filter_and_open() {
    let mut p = Picker::new_for_test(vec![
        entry("a", Some("morning"), "gratitude"),
        entry("b", Some("evening"), "review"),
    ]);
    assert_eq!(handle_picker_key(&mut p, key(KeyCode::Char('j'))), PickerStep::Stay);
    assert_eq!(p.cursor, 1);
    assert_eq!(handle_picker_key(&mut p, key(KeyCode::Char('/'))), PickerStep::Stay);
    assert!(p.filtering);
    // While filtering, `q` is text, not a quit.
    assert_eq!(handle_picker_key(&mut p, key(KeyCode::Char('q'))), PickerStep::Stay);
    assert_eq!(p.query, "q");
    assert_eq!(handle_picker_key(&mut p, key(KeyCode::Backspace)), PickerStep::Stay);
    for c in "even".chars() {
        handle_picker_key(&mut p, key(KeyCode::Char(c)));
    }
    assert_eq!(handle_picker_key(&mut p, key(KeyCode::Enter)), PickerStep::Stay);
    assert!(!p.filtering, "Enter closes the prompt first");
    assert_eq!(
        handle_picker_key(&mut p, key(KeyCode::Enter)),
        PickerStep::Open("b".to_string())
    );
}

#[test]
fn picker_quits_on_q_esc_and_ctrl_c_even_in_the_prompt() {
    let mut p = Picker::new_for_test(vec![entry("a", None, "x")]);
    assert_eq!(handle_picker_key(&mut p, key(KeyCode::Char('q'))), PickerStep::Quit);
    assert_eq!(handle_picker_key(&mut p, key(KeyCode::Esc)), PickerStep::Quit);
    handle_picker_key(&mut p, key(KeyCode::Char('/')));
    let ctrl_c = Key { code: KeyCode::Char('c'), modifiers: Modifiers::control() };
    assert_eq!(handle_picker_key(&mut p, ctrl_c), PickerStep::Quit);
    assert_eq!(p.query, "", "Ctrl+C types nothing");
}

#[test]
fn enter_on_an_empty_list_stays() {
    let mut p = Picker::new_for_test(Vec::new());
    assert_eq!(handle_picker_key(&mut p, key(KeyCode::Enter)), PickerStep::Stay);
}
