use cassette::app::{App, MAX_CASSETTES, VISIBLE_LINES};
use cassette::cassette::{Cassette, Side};

/// 14-row terminal, 5-line focused cassette: 14 - 4 overhead = 10 rows;
/// focused takes 6, leaving 4 for two minimized cassettes → 3 visible.
fn test_app() -> App {
    let mut app = App::new(
        None,
        None,
        Some(VISIBLE_LINES),
        "01JTESTSESSN00000000000000".to_string(),
    );
    app.resize(80, 14);
    app
}

#[test]
fn add_cassette_beyond_screen_scrolls() {
    let mut app = test_app();
    assert_eq!(app.visible_cassette_count(), 3);
    for _ in 0..5 {
        app.add_cassette();
    }
    assert_eq!(app.cassettes.len(), 6);
    assert_eq!(app.focus_idx, 5);
    // Focus is on the last cassette; window shows the last 3.
    assert_eq!(app.cassette_scroll, 3);
    assert_eq!(app.hidden_cassettes(), (3, 0));
}

#[test]
fn focus_wraps_and_scrolls_back_to_top() {
    let mut app = test_app();
    for _ in 0..5 {
        app.add_cassette();
    }
    app.focus_next(); // wraps 5 -> 0
    assert_eq!(app.focus_idx, 0);
    assert_eq!(app.cassette_scroll, 0);
    app.focus_prev(); // wraps 0 -> 5
    assert_eq!(app.focus_idx, 5);
    assert_eq!(app.cassette_scroll, 3);
}

#[test]
fn focus_prev_scrolls_up_one_at_a_time() {
    let mut app = test_app();
    for _ in 0..5 {
        app.add_cassette();
    }
    // focus 5, scroll 3; stepping back to 2 pulls the window up.
    app.focus_prev();
    app.focus_prev();
    app.focus_prev();
    assert_eq!(app.focus_idx, 2);
    assert_eq!(app.cassette_scroll, 2);
}

#[test]
fn timer_expiry_flashes_status_and_bell_once() {
    let mut app = App::new(
        Some(2),
        None,
        Some(VISIBLE_LINES),
        "01JTESTSESSN00000000000000".to_string(),
    );
    app.tick_timer();
    assert!(app.status_msg.is_none());
    app.tick_timer(); // 1 -> 0
    assert!(app.status_msg.as_deref().unwrap().contains("time"));
    assert!(app.bell);
    app.bell = false;
    app.tick_timer(); // already 0: stays quiet
    assert!(!app.bell);
    assert_eq!(app.timer_secs, Some(0));
}

#[test]
fn goal_reached_announces_once() {
    let mut app = App::new(
        None,
        Some(3),
        Some(VISIBLE_LINES),
        "01JTESTSESSN00000000000000".to_string(),
    );
    app.modify_focused(|c| {
        for ch in "one two three".chars() {
            c.insert(ch);
        }
    });
    app.check_goal();
    assert!(app.status_msg.as_deref().unwrap().contains("goal reached"));
    assert!(app.bell);
    app.bell = false;
    app.status_msg = None;
    app.check_goal(); // one-shot: no second announcement
    assert!(app.status_msg.is_none());
    assert!(!app.bell);
}

#[test]
fn transient_status_clears_after_countdown() {
    let mut app = App::new(
        Some(1),
        None,
        Some(VISIBLE_LINES),
        "01JTESTSESSN00000000000000".to_string(),
    );
    app.tick_timer(); // fires the flash
    assert!(app.status_msg.is_some());
    for _ in 0..20 {
        app.tick_status();
    }
    assert!(app.status_msg.is_none(), "flash expires on its own");
}

#[test]
fn is_empty_ignores_whitespace_and_sees_side_b() {
    let mut app = test_app();
    assert!(app.is_empty());
    app.modify_focused(|c| c.insert(' '));
    assert!(app.is_empty(), "whitespace-only still counts as empty");
    app.modify_focused(|c| {
        c.flip();
        c.insert('x');
    });
    assert!(!app.is_empty(), "side B text counts");
}

#[test]
fn modify_focused_marks_dirty() {
    let mut app = test_app();
    assert!(!app.cassettes[0].dirty);
    app.modify_focused(|c| c.insert('a'));
    assert!(app.cassettes[0].dirty);
}

#[test]
fn editing_marks_only_the_focused_cassette_dirty() {
    // The whole point of per-cassette dirty: an autosave must write the one
    // cassette that changed, not rewrite every cassette in the session.
    let mut app = App::new(None, None, None, "01JTESTSESSN00000000000000".to_string());
    app.add_cassette();
    assert_eq!(app.dirty_indices(), Vec::<usize>::new(), "clean to start");

    app.focus_idx = 1;
    app.modify_focused(|c| c.insert('x'));
    assert_eq!(app.dirty_indices(), vec![1], "only the focused one");

    app.clear_dirty(1);
    assert_eq!(app.dirty_indices(), Vec::<usize>::new(), "cleared");
}

#[test]
fn idle_nudge_needs_a_timed_or_record_session() {
    // Plain session: never nudged, wandering off is allowed.
    let mut app = test_app();
    for _ in 0..App::IDLE_NUDGE_SECS + 5 {
        app.tick_idle();
    }
    assert!(!app.idle_nudge());

    // Timed session: nudged after the threshold.
    let mut app = App::new(
        Some(60),
        None,
        None,
        "01JTESTSESSN00000000000000".to_string(),
    );
    for _ in 0..App::IDLE_NUDGE_SECS {
        app.tick_idle();
    }
    assert!(app.idle_nudge());

    // Record session (untimed) also qualifies.
    let mut app = test_app();
    app.record = true;
    for _ in 0..App::IDLE_NUDGE_SECS {
        app.tick_idle();
    }
    assert!(app.idle_nudge());
    app.idle_secs = 0;
    assert!(!app.idle_nudge());
}

#[test]
fn timer_expiry_message_matches_record_mode() {
    let mut app = App::new(
        Some(1),
        None,
        None,
        "01JTESTSESSN00000000000000".to_string(),
    );
    app.record = true;
    app.tick_timer();
    assert!(app.status_msg.as_deref().unwrap().contains("^C to save"));
}

#[test]
fn apply_topics_creates_labeled_cassettes() {
    let mut app = test_app();
    let topics: Vec<String> = ["one", "two", "three"].map(String::from).into();
    app.apply_topics(&topics);
    assert_eq!(app.cassettes.len(), 3);
    assert_eq!(app.cassettes[0].topic.as_deref(), Some("one"));
    assert_eq!(app.cassettes[2].topic.as_deref(), Some("three"));
    assert_eq!(app.focus_idx, 0, "session starts on the first topic");
}

#[test]
fn apply_topics_caps_at_max_cassettes() {
    let mut app = test_app();
    let topics: Vec<String> = (0..MAX_CASSETTES + 5).map(|i| format!("t{i}")).collect();
    app.apply_topics(&topics);
    assert_eq!(app.cassettes.len(), MAX_CASSETTES);
}

#[test]
fn loading_keeps_every_open_cassette_when_closed_ones_fill_the_list() {
    let mut app = App::new(None, None, None, "01JTESTSESSN00000000000000".to_string());
    let mut loaded = Vec::new();
    for i in 0..MAX_CASSETTES {
        let mut c = Cassette::new();
        c.id = format!("open-{i:02}");
        c.priority = i as i64 * 10;
        loaded.push(c);
    }
    for i in 0..5 {
        let mut c = Cassette::new();
        c.id = format!("closed-{i}");
        c.closed = true;
        c.priority = i as i64;
        loaded.push(c);
    }

    app.load_cassettes(loaded);

    assert_eq!(
        app.open_count(),
        MAX_CASSETTES,
        "no open cassette is dropped"
    );
    assert!(
        app.cassettes.iter().any(|c| c.id == "open-35"),
        "including the last one"
    );
}

#[test]
fn add_cassette_caps_on_open_not_total() {
    let mut app = App::new(None, None, None, "01JTESTSESSN00000000000000".to_string());
    app.cassettes.clear();
    for i in 0..5 {
        let mut c = Cassette::new();
        c.id = format!("closed-{i}");
        c.closed = true;
        app.cassettes.push(c);
    }
    app.sort_queue();
    for _ in 0..MAX_CASSETTES {
        app.add_cassette();
    }
    assert_eq!(app.open_count(), MAX_CASSETTES);
    assert_eq!(
        app.cassettes.len(),
        MAX_CASSETTES + 5,
        "closed ones are retained"
    );
}

#[test]
fn sort_queue_orders_open_before_closed_then_priority_then_id() {
    let mut app = App::new(None, None, None, "01JTESTSESSN00000000000000".to_string());
    app.cassettes.clear();
    for (id, priority, closed) in [
        ("z", 20, false),
        ("b", 10, true),
        ("a", 20, false),
        ("m", 10, false),
    ] {
        let mut c = Cassette::new();
        c.id = id.to_string();
        c.priority = priority;
        c.closed = closed;
        app.cassettes.push(c);
    }

    app.sort_queue();

    assert_eq!(
        app.cassettes
            .iter()
            .map(|c| c.id.as_str())
            .collect::<Vec<_>>(),
        vec!["m", "a", "z", "b"],
        "open by priority then id, closed last"
    );
    assert_eq!(app.open_count(), 3);
}

#[test]
fn an_unminted_cassette_sorts_after_minted_ones_at_the_same_priority() {
    let mut app = App::new(None, None, None, "01JTESTSESSN00000000000000".to_string());
    app.cassettes.clear();
    let mut minted = Cassette::new();
    minted.id = "01JREAL0000000000000000000".to_string();
    app.cassettes.push(minted);
    app.cassettes.push(Cassette::new()); // same i64::MAX priority, empty id

    app.sort_queue();

    assert_eq!(app.cassettes[0].id, "01JREAL0000000000000000000");
    assert!(
        app.cassettes[1].id.is_empty(),
        "the unminted one stays last"
    );
}

#[test]
fn sort_queue_keeps_focus_on_the_same_cassette() {
    let mut app = App::new(None, None, None, "01JTESTSESSN00000000000000".to_string());
    app.cassettes.clear();
    for (id, priority) in [("z", 30), ("a", 10)] {
        let mut c = Cassette::new();
        c.id = id.to_string();
        c.priority = priority;
        app.cassettes.push(c);
    }
    app.focus_idx = 0; // "z"

    app.sort_queue();

    assert_eq!(
        app.cassettes[app.focus_idx].id, "z",
        "focus follows the cassette"
    );
    assert_eq!(app.focus_idx, 1, "which is now at the tail");
}

#[test]
fn an_unminted_cassette_sorts_to_the_tail() {
    let mut app = App::new(None, None, None, "01JTESTSESSN00000000000000".to_string());
    app.cassettes.clear();
    let mut stored = Cassette::new();
    stored.id = "a".to_string();
    stored.priority = 10;
    app.cassettes.push(stored);
    app.cassettes.push(Cassette::new()); // unminted: empty id, i64::MAX

    app.sort_queue();

    assert_eq!(app.cassettes[0].id, "a");
    assert!(app.cassettes[1].id.is_empty(), "the new one stays last");
}

#[test]
fn add_cassette_stops_at_max() {
    let mut app = test_app();
    for _ in 0..MAX_CASSETTES + 5 {
        app.add_cassette();
    }
    assert_eq!(app.cassettes.len(), MAX_CASSETTES);
    assert_eq!(app.focus_idx, MAX_CASSETTES - 1);
    assert!(app.status_msg.as_deref().unwrap_or("").contains("limit"));
}

#[test]
fn resize_clamps_scroll_and_keeps_focus_visible() {
    let mut app = test_app();
    for _ in 0..5 {
        app.add_cassette();
    }
    // Taller terminal fits all 6: scroll must clamp back to 0.
    app.resize(80, 60);
    assert_eq!(app.cassette_scroll, 0);
    // Tiny terminal shows 1: focused (last) cassette must stay visible.
    app.resize(80, 10);
    assert_eq!(app.visible_cassette_count(), 1);
    assert_eq!(app.cassette_scroll, 5);
}

#[test]
fn merge_external_is_a_no_op_when_content_and_topic_already_match() {
    // The regression this pins: `main.rs`'s sync step moves a
    // cassette's own flush-induced mtime the instant focus releases it,
    // which can look like a first-sight change even though disk and
    // memory already agree. Without this short circuit, merging
    // identical content would rebuild the cassette via
    // `from_sides_with_cursor` anyway, discarding its undo stack and
    // resetting its cursor for no reason.
    //
    // `Cassette`'s undo stack has no public accessor, so this observes
    // survival behaviorally: an `undo()` after the merge must still
    // revert the insert, which is only possible if the merge left the
    // original cassette object — undo stack included — untouched. The
    // cursor position is asserted directly.
    let mut app = App::new(None, None, None, "01JTESTSESSN00000000000000".to_string());
    app.cassettes[0].id = "aaa00000000000000000000000".to_string();
    app.modify_focused(|c| {
        c.snapshot(); // what entering insert mode does
        c.insert_str("hello world");
        c.move_word_back();
    });
    app.clear_dirty(0);
    let cursor_before = app.cassettes[0].cursor_pos();

    // Exactly what's already in memory — e.g. this process's own flush
    // of the cassette it just released focus on, not an external
    // writer's edit.
    let incoming = Cassette::from_sides("hello world".to_string(), String::new(), None);
    app.merge_external("aaa00000000000000000000000", incoming, 0);

    assert_eq!(
        app.cassettes[0].cursor_pos(),
        cursor_before,
        "unchanged content must not move the cursor"
    );
    app.modify_focused(|c| c.undo());
    assert_eq!(
        app.cassettes[0].text(),
        "",
        "and the undo stack must survive a merge of identical content"
    );
}

#[test]
fn merge_external_carries_locked_by_through_a_full_rebuild() {
    // `merged` in the rebuild branch is a fresh `Cassette` built by
    // `from_sides_with_cursor`, which knows nothing about
    // `incoming.locked_by` unless the branch copies it across — a sticky
    // lock must survive the same merge that follows an agent's words.
    let mut app = App::new(None, None, None, "01JTESTSESSN00000000000000".to_string());
    app.cassettes[0].id = "aaa00000000000000000000000".to_string();

    let mut incoming = Cassette::from_sides("hello world".to_string(), String::new(), None);
    incoming.locked_by = Some("joseph".to_string());
    app.merge_external("aaa00000000000000000000000", incoming, 0);

    assert_eq!(app.cassettes[0].locked_by.as_deref(), Some("joseph"));
}

#[test]
fn merge_external_updates_locked_by_even_when_the_no_op_short_circuit_fires() {
    // A sticky lock is metadata, not prose: `queue lock`/`unlock` can
    // change it with the cassette's own text and topic untouched, and the
    // no-op short circuit (which exists to protect the cursor/undo stack
    // from a self-inflicted mtime move) must not swallow that change
    // along with the rebuild the text genuinely didn't need.
    let mut app = App::new(None, None, None, "01JTESTSESSN00000000000000".to_string());
    app.cassettes[0].id = "aaa00000000000000000000000".to_string();
    app.modify_focused(|c| {
        c.snapshot();
        c.insert_str("hello world");
        c.move_word_back();
    });
    app.clear_dirty(0);
    let cursor_before = app.cassettes[0].cursor_pos();

    let mut incoming = Cassette::from_sides("hello world".to_string(), String::new(), None);
    incoming.locked_by = Some("joseph".to_string());
    app.merge_external("aaa00000000000000000000000", incoming, 0);

    assert_eq!(
        app.cassettes[0].locked_by.as_deref(),
        Some("joseph"),
        "the sticky lock must still land"
    );
    assert_eq!(
        app.cassettes[0].cursor_pos(),
        cursor_before,
        "text/topic were unchanged, so the cursor must not move"
    );
    app.modify_focused(|c| c.undo());
    assert_eq!(
        app.cassettes[0].text(),
        "",
        "and the undo stack must survive, exactly as the plain no-op case does"
    );
}

#[test]
fn merging_follows_the_new_text_when_the_cursor_was_at_the_end() {
    let mut app = App::new(None, None, None, "01JTESTSESSN00000000000000".to_string());
    app.cassettes[0].id = "aaa00000000000000000000000".to_string();
    app.modify_focused(|c| c.insert_str("first"));
    app.clear_dirty(0);
    assert_eq!(
        app.cassettes[0].cursor_pos(),
        5,
        "cursor at the end to start"
    );

    let incoming = Cassette::from_sides("first and more".to_string(), String::new(), None);
    app.merge_external("aaa00000000000000000000000", incoming, 0);

    assert_eq!(app.cassettes[0].side_a_text(), "first and more");
    assert_eq!(
        app.cassettes[0].cursor_pos(),
        14,
        "the cursor was at the end, so it follows the new end"
    );
}

#[test]
fn merging_leaves_a_scrolled_back_cursor_where_it_was() {
    let mut app = App::new(None, None, None, "01JTESTSESSN00000000000000".to_string());
    app.cassettes[0].id = "aaa00000000000000000000000".to_string();
    app.modify_focused(|c| c.insert_str("first"));
    app.modify_focused(|c| c.move_text_start());
    app.clear_dirty(0);
    assert_eq!(app.cassettes[0].cursor_pos(), 0);

    let incoming = Cassette::from_sides("first and more".to_string(), String::new(), None);
    app.merge_external("aaa00000000000000000000000", incoming, 0);

    assert_eq!(
        app.cassettes[0].cursor_pos(),
        0,
        "a reader who scrolled up must not be yanked to the bottom"
    );
}

#[test]
fn merge_external_updates_by_id_not_by_index() {
    // The updated cassette isn't at index 0: merging must find it by id,
    // never assume the caller already knows its position.
    let mut app = App::new(None, None, None, "01JTESTSESSN00000000000000".to_string());
    app.cassettes[0].id = "zzz00000000000000000000000".to_string();
    app.add_cassette();
    app.cassettes[1].id = "aaa00000000000000000000000".to_string();
    app.clear_dirty(1);

    let incoming = Cassette::from_sides("updated".to_string(), String::new(), None);
    app.merge_external("aaa00000000000000000000000", incoming, 0);

    assert_eq!(
        app.cassettes.len(),
        2,
        "no insertion — this id already existed"
    );
    assert_eq!(app.cassettes[1].side_a_text(), "updated");
}

#[test]
fn an_unknown_cassette_is_inserted_without_moving_focus() {
    // An agent's `queue new` arrives. The human is typing in what is
    // currently index 0; after the insert they must still be typing in it.
    let mut app = App::new(None, None, None, "01JTESTSESSN00000000000000".to_string());
    app.cassettes[0].id = "bbb00000000000000000000000".to_string();
    app.focus_idx = 0;
    let focused_id = app.cassettes[0].id.clone();

    let mut newcomer = Cassette::new();
    newcomer.id = "aaa00000000000000000000000".to_string();
    // Priority puts the newcomer ahead of the focused cassette: index 0
    // shifts to index 1, so this also exercises invariant 1.
    app.merge_external("aaa00000000000000000000000", newcomer, 0);

    assert_eq!(app.cassettes.len(), 2);
    assert_eq!(
        app.cassettes[app.focus_idx].id, focused_id,
        "focus must still name the cassette the user was typing in"
    );
}

#[test]
fn merge_external_inserts_an_unknown_cassette_at_its_priority_position() {
    // Priority order, not append: a cassette between two existing ones
    // must land between them, not at the tail.
    let mut app = App::new(None, None, None, "01JTESTSESSN00000000000000".to_string());
    app.cassettes[0].id = "first0000000000000000000000".to_string();
    app.add_cassette();
    app.cassettes[1].id = "third0000000000000000000000".to_string();

    let mut newcomer = Cassette::new();
    newcomer.id = "second000000000000000000000".to_string();
    app.merge_external("second000000000000000000000", newcomer, 1);

    assert_eq!(app.cassettes.len(), 3);
    assert_eq!(app.cassettes[0].id, "first0000000000000000000000");
    assert_eq!(
        app.cassettes[1].id, "second000000000000000000000",
        "lands at its priority slot, not appended after the third cassette"
    );
    assert_eq!(app.cassettes[2].id, "third0000000000000000000000");
}

#[test]
fn merging_follows_the_new_text_on_side_b_when_the_cursor_was_at_the_end() {
    // The less common branch: the reader was on the scratch side (B) when
    // the update landed.
    let mut app = App::new(None, None, None, "01JTESTSESSN00000000000000".to_string());
    app.cassettes[0].id = "aaa00000000000000000000000".to_string();
    app.modify_focused(|c| {
        c.flip();
        c.insert_str("scratch");
    });
    app.clear_dirty(0);
    assert_eq!(app.cassettes[0].side, Side::B, "reader is on side B");
    assert_eq!(
        app.cassettes[0].cursor_pos(),
        7,
        "cursor at the end of side B to start"
    );

    let incoming = Cassette::from_sides(
        "side a text".to_string(),
        "scratch and more".to_string(),
        None,
    );
    app.merge_external("aaa00000000000000000000000", incoming, 0);

    assert_eq!(
        app.cassettes[0].side,
        Side::B,
        "the merge must not silently switch the reader back to side A"
    );
    assert_eq!(app.cassettes[0].side_a_text(), "side a text");
    assert_eq!(app.cassettes[0].side_b_text(), "scratch and more");
    assert_eq!(
        app.cassettes[0].cursor_pos(),
        16,
        "the cursor was at the end of side B, so it follows side B's new end"
    );
}

#[test]
fn read_only_ignores_text_keys_but_allows_leaving() {
    let mut app = App::new(None, None, None, "01JTESTSESSN00000000000000".to_string());
    app.read_only = true;
    let before = app.cassettes[app.focus_idx].side_a_text();

    app.modify_focused(|c| c.insert('x'));
    assert_eq!(
        app.cassettes[app.focus_idx].side_a_text(),
        before,
        "a keystroke must never reach a cassette this process does not hold"
    );
    assert!(
        !app.cassettes[app.focus_idx].dirty,
        "and it must not be marked dirty"
    );
}
