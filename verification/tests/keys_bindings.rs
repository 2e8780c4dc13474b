use cassette::app::{App, Mode};
use cassette::cassette::Side;
use cassette::keys::{handle_key, handle_paste, Key, KeyCode, Modifiers};

fn key(code: KeyCode, modifiers: Modifiers) -> Key {
    Key { code, modifiers }
}

fn type_str(app: &mut App, s: &str) {
    for c in s.chars() {
        handle_key(app, key(KeyCode::Char(c), Modifiers::none()));
    }
}

#[test]
fn ctrl_b_flips_side_and_ctrl_f_does_not() {
    let mut app = App::new(None, None, None, "01JTESTSESSN00000000000000".to_string());
    handle_key(&mut app, key(KeyCode::Char('b'), Modifiers::control()));
    assert_eq!(app.cassettes[0].side, Side::B);
    handle_key(&mut app, key(KeyCode::Char('f'), Modifiers::control()));
    assert_eq!(app.cassettes[0].side, Side::B, "^F is no longer bound");
    handle_key(&mut app, key(KeyCode::Char('b'), Modifiers::control()));
    assert_eq!(app.cassettes[0].side, Side::A);
}

#[test]
fn topic_prompt_sets_edits_and_clears() {
    let mut app = App::new(None, None, None, "01JTESTSESSN00000000000000".to_string());
    handle_key(&mut app, key(KeyCode::Esc, Modifiers::none())); // -> normal

    // Set a topic.
    type_str(&mut app, "t");
    assert_eq!(app.mode, Mode::Topic);
    type_str(&mut app, "morning pages");
    handle_key(&mut app, key(KeyCode::Enter, Modifiers::none()));
    assert_eq!(app.mode, Mode::Normal);
    assert_eq!(app.cassettes[0].topic.as_deref(), Some("morning pages"));

    // Reopening pre-fills; backspace edits.
    type_str(&mut app, "t");
    assert_eq!(app.topic_input, "morning pages");
    for _ in 0..6 {
        handle_key(&mut app, key(KeyCode::Backspace, Modifiers::none()));
    }
    handle_key(&mut app, key(KeyCode::Enter, Modifiers::none()));
    assert_eq!(app.cassettes[0].topic.as_deref(), Some("morning"));

    // A blank commit clears the topic.
    type_str(&mut app, "t");
    for _ in 0..7 {
        handle_key(&mut app, key(KeyCode::Backspace, Modifiers::none()));
    }
    handle_key(&mut app, key(KeyCode::Enter, Modifiers::none()));
    assert_eq!(app.cassettes[0].topic, None);
}

#[test]
fn ctrl_t_opens_topic_prompt_from_both_modes_and_returns() {
    let mut app = App::new(None, None, None, "01JTESTSESSN00000000000000".to_string());
    // From insert mode: Ctrl+T opens the prompt, Enter returns to insert.
    assert_eq!(app.mode, Mode::Insert);
    handle_key(&mut app, key(KeyCode::Char('t'), Modifiers::control()));
    assert_eq!(app.mode, Mode::Topic);
    type_str(&mut app, "flow");
    handle_key(&mut app, key(KeyCode::Enter, Modifiers::none()));
    assert_eq!(app.mode, Mode::Insert, "returns to the mode it came from");
    assert_eq!(app.cassettes[0].topic.as_deref(), Some("flow"));

    // From normal mode: Esc-cancel returns to normal.
    handle_key(&mut app, key(KeyCode::Esc, Modifiers::none()));
    handle_key(&mut app, key(KeyCode::Char('t'), Modifiers::control()));
    assert_eq!(app.mode, Mode::Topic);
    assert_eq!(app.topic_input, "flow", "pre-filled");
    handle_key(&mut app, key(KeyCode::Esc, Modifiers::none()));
    assert_eq!(app.mode, Mode::Normal);
}

#[test]
fn record_mode_only_rolls_forward() {
    let mut app = App::new(None, None, None, "01JTESTSESSN00000000000000".to_string());
    app.record = true;
    type_str(&mut app, "no going back");
    // Deletions and mode switches are ignored.
    handle_key(&mut app, key(KeyCode::Backspace, Modifiers::none()));
    handle_key(&mut app, key(KeyCode::Delete, Modifiers::none()));
    handle_key(&mut app, key(KeyCode::Char('w'), Modifiers::control()));
    handle_key(&mut app, key(KeyCode::Char('u'), Modifiers::control()));
    handle_key(&mut app, key(KeyCode::Esc, Modifiers::none()));
    assert_eq!(app.mode, Mode::Insert, "no normal mode while recording");
    // Cursor can't move back either.
    handle_key(&mut app, key(KeyCode::Left, Modifiers::none()));
    assert_eq!(app.cassettes[0].cursor_pos(), 13);
    handle_key(&mut app, key(KeyCode::Enter, Modifiers::none()));
    type_str(&mut app, "ok");
    assert_eq!(app.cassettes[0].text(), "no going back\nok");
}

#[test]
fn record_mode_keeps_flip_topic_and_quit() {
    let mut app = App::new(None, None, None, "01JTESTSESSN00000000000000".to_string());
    app.record = true;
    handle_key(&mut app, key(KeyCode::Char('b'), Modifiers::control()));
    assert_eq!(app.cassettes[0].side, Side::B, "flipping is not editing");
    handle_key(&mut app, key(KeyCode::Char('t'), Modifiers::control()));
    assert_eq!(app.mode, Mode::Topic);
    // Backspace still works inside the topic prompt (metadata, not tape).
    type_str(&mut app, "xy");
    handle_key(&mut app, key(KeyCode::Backspace, Modifiers::none()));
    handle_key(&mut app, key(KeyCode::Enter, Modifiers::none()));
    assert_eq!(app.cassettes[0].topic.as_deref(), Some("x"));
    assert_eq!(app.mode, Mode::Insert);
    handle_key(&mut app, key(KeyCode::Char('c'), Modifiers::control()));
    assert!(app.should_quit);
}

#[test]
fn paste_inserts_chunk_normalizes_newlines_one_undo() {
    let mut app = App::new(None, None, None, "01JTESTSESSN00000000000000".to_string());
    type_str(&mut app, "start ");
    handle_paste(&mut app, "one\r\ntwo\rthree");
    assert_eq!(app.cassettes[0].text(), "start one\ntwo\nthree");
    // One `u` takes back the whole paste.
    handle_key(&mut app, key(KeyCode::Esc, Modifiers::none()));
    type_str(&mut app, "u");
    assert_eq!(app.cassettes[0].text(), "start ");
}

#[test]
fn paste_into_topic_prompt_stays_one_line() {
    let mut app = App::new(None, None, None, "01JTESTSESSN00000000000000".to_string());
    handle_key(&mut app, key(KeyCode::Char('t'), Modifiers::control()));
    handle_paste(&mut app, "two\nlines");
    handle_key(&mut app, key(KeyCode::Enter, Modifiers::none()));
    assert_eq!(app.cassettes[0].topic.as_deref(), Some("two lines"));
    assert_eq!(app.cassettes[0].text(), "", "paste stays out of the tape");
}

#[test]
fn paste_allowed_in_record_mode() {
    let mut app = App::new(None, None, None, "01JTESTSESSN00000000000000".to_string());
    app.record = true;
    handle_paste(&mut app, "quoted material\n");
    assert_eq!(app.cassettes[0].text(), "quoted material\n");
}

#[test]
fn keypress_resets_idle_counter() {
    let mut app = App::new(
        Some(60),
        None,
        None,
        "01JTESTSESSN00000000000000".to_string(),
    );
    for _ in 0..App::IDLE_NUDGE_SECS {
        app.tick_idle();
    }
    assert!(app.idle_nudge());
    type_str(&mut app, "a");
    assert!(!app.idle_nudge(), "typing clears the nudge");
}

#[test]
fn topic_prompt_esc_cancels_without_change() {
    let mut app = App::new(None, None, None, "01JTESTSESSN00000000000000".to_string());
    app.cassettes[0].topic = Some("keep me".into());
    handle_key(&mut app, key(KeyCode::Esc, Modifiers::none())); // -> normal
    type_str(&mut app, "toverwrite");
    handle_key(&mut app, key(KeyCode::Esc, Modifiers::none()));
    assert_eq!(app.mode, Mode::Normal);
    assert_eq!(app.cassettes[0].topic.as_deref(), Some("keep me"));
    assert!(app.topic_input.is_empty());
}

#[test]
fn topic_prompt_captures_tab_and_letters_as_text() {
    let mut app = App::new(None, None, None, "01JTESTSESSN00000000000000".to_string());
    app.add_cassette();
    app.focus_idx = 0;
    handle_key(&mut app, key(KeyCode::Esc, Modifiers::none())); // -> normal
    type_str(&mut app, "tq"); // 'q' must not quit inside the prompt
    assert!(!app.should_quit);
    handle_key(&mut app, key(KeyCode::Tab, Modifiers::none()));
    assert_eq!(app.focus_idx, 0, "Tab must not switch cassettes mid-prompt");
    handle_key(&mut app, key(KeyCode::Enter, Modifiers::none()));
    assert_eq!(app.cassettes[0].topic.as_deref(), Some("q"));
}
