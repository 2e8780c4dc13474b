use cassette::app::{App, MAX_CASSETTES};
use cassette::cassette::{Cassette, Side};
use cassette::cli::Args;
use cassette::output::cassette_body;
use cassette::resume::{choose_session, display_name, load_session_cassettes, SessionChoice};
use cassette::session_writer::{flush_record, refresh_from_disk, removes_session, store_is_empty};
use cassette::store::{
    CassetteMeta, Damaged, Kind, SessionScan, Status, StoredCassette, Writer,
};
use cassette::sync::{merge_moved, note_stamps, ChangeStamp};

fn meta(id: &str, priority: i64, status: Status) -> CassetteMeta {
    CassetteMeta {
        id: id.to_string(),
        topic: None,
        priority,
        status,
        locked_by: None,
        created_by: "w".to_string(),
        last_writer: "w".to_string(),
        updated_at: "2026-09-15T09:00:00Z".to_string(),
    }
}

fn stored(id: &str, priority: i64, status: Status, body: &str) -> StoredCassette {
    StoredCassette {
        path: std::path::PathBuf::from(format!("{id}.md")),
        meta: meta(id, priority, status),
        body: body.to_string(),
    }
}

fn stamp(version: u64) -> ChangeStamp {
    ChangeStamp {
        modified_secs: 1_700_000_000,
        modified_nanos: 0,
        len: 12,
        ino: version,
    }
}

fn writers() -> Vec<Writer> {
    vec![Writer {
        id: "01JWRITERAGENT000000000000".to_string(),
        name: "agent-1".to_string(),
        kind: Kind::Agent,
    }]
}

fn empty_app() -> App {
    let mut app = App::new(None, None, None, "01JSESSION0000000000000000".to_string());
    app.cassettes.clear();
    app.resize(80, 40);
    app
}

fn with_id(id: &str, priority: i64) -> Cassette {
    let mut c = Cassette::new();
    c.id = id.to_string();
    c.priority = priority;
    c
}

/// One tick of the two sync passes over the files `files` (each with its
/// current stamp), the way the event loop runs them.
fn tick(
    app: &mut App,
    stamps: &mut Vec<(String, ChangeStamp)>,
    files: &[(&str, i64, Status, &str, u64)],
    held: Option<&str>,
) {
    let seen: Vec<(String, ChangeStamp)> = files
        .iter()
        .map(|f| (f.0.to_string(), stamp(f.4)))
        .collect();
    let changed = note_stamps(stamps, &seen, held);
    if changed.is_empty() {
        return;
    }
    let scan: Vec<StoredCassette> = files
        .iter()
        .map(|f| stored(f.0, f.1, f.2, f.3))
        .collect();
    merge_moved(app, &scan, &changed, held, &writers());
}

fn ids(app: &App) -> Vec<String> {
    app.cassettes.iter().map(|c| c.id.clone()).collect()
}

#[test]
fn display_name_falls_back_to_the_raw_id() {
    assert_eq!(display_name(&writers(), "01JWRITERAGENT000000000000"), "agent-1");
    assert_eq!(display_name(&writers(), "01JUNKNOWN0000000000000000"), "01JUNKNOWN0000000000000000");
    assert_eq!(display_name(&[], "x"), "x");
}

#[test]
fn loading_splits_trims_and_keeps_queue_metadata() {
    let mut locked = stored("b", 20, Status::Closed, "## Side A\n\n  closed words \n\n## Side B\n\nscratch\n");
    locked.meta.locked_by = Some("01JWRITERAGENT000000000000".to_string());
    locked.meta.topic = Some("plans".to_string());
    let scan = SessionScan {
        cassettes: vec![stored("a", 10, Status::Open, "## Side A\n\nfirst\n"), locked],
        damaged: vec![Damaged {
            label: "c.md".to_string(),
            reason: "no frontmatter".to_string(),
        }],
    };
    let (cs, damaged) = load_session_cassettes(&scan, &writers());
    assert_eq!(cs.len(), 2);
    assert_eq!(cs[0].id, "a");
    assert_eq!(cs[0].side_a_text(), "first");
    assert_eq!(cs[0].cursor_pos(), 5, "ready to keep writing");
    assert_eq!(cs[0].priority, 10);
    assert!(!cs[0].closed);
    assert_eq!(cs[1].side_a_text(), "closed words", "trimmed on the way in");
    assert_eq!(cs[1].side_b_text(), "scratch");
    assert!(cs[1].closed, "closed cassettes are loaded too");
    assert_eq!(cs[1].topic.as_deref(), Some("plans"));
    assert_eq!(cs[1].locked_by.as_deref(), Some("agent-1"));
    assert_eq!(cs[1].side, Side::A);
    assert_eq!(
        damaged,
        vec![("c.md".to_string(), "no frontmatter".to_string())]
    );
}

fn sessions() -> Vec<(String, Option<String>)> {
    vec![
        ("01JNEWEST00000000000000000".to_string(), Some("monday".to_string())),
        ("01JMIDDLE00000000000000000".to_string(), None),
        ("01JOLDEST00000000000000000".to_string(), Some("monday".to_string())),
    ]
}

fn opened(r: Result<SessionChoice, String>) -> String {
    match r {
        Ok(SessionChoice::Open(id)) => id,
        other => panic!("expected an opened session, got {other:?}"),
    }
}

#[test]
fn resume_by_alias_opens_the_newest_session_carrying_it() {
    let args = Args {
        resume: Some(Some("monday".to_string())),
        ..Default::default()
    };
    assert_eq!(opened(choose_session(&args, &sessions(), false, None)), "01JNEWEST00000000000000000");
}

#[test]
fn resume_by_id_opens_the_session_it_names() {
    let args = Args {
        resume: Some(Some("01JMIDDLE00000000000000000".to_string())),
        ..Default::default()
    };
    assert_eq!(opened(choose_session(&args, &sessions(), true, None)), "01JMIDDLE00000000000000000");
}

#[test]
fn resume_prefers_an_alias_over_an_id() {
    let mut ss = sessions();
    ss.insert(0, ("01JOTHER000000000000000000".to_string(), Some("01JMIDDLE00000000000000000".to_string())));
    let args = Args {
        resume: Some(Some("01JMIDDLE00000000000000000".to_string())),
        ..Default::default()
    };
    assert_eq!(opened(choose_session(&args, &ss, true, None)), "01JOTHER000000000000000000");
}

#[test]
fn resume_of_an_unknown_name_or_an_empty_store_fails() {
    let args = Args {
        resume: Some(Some("friday".to_string())),
        ..Default::default()
    };
    match choose_session(&args, &sessions(), false, None) {
        Err(m) => assert_eq!(
            m,
            "no session named 'friday' \u{2014} `cassette session list` shows what exists"
        ),
        other => panic!("{other:?}"),
    }
    let args = Args {
        resume: Some(None),
        ..Default::default()
    };
    assert_eq!(opened(choose_session(&args, &sessions(), false, None)), "01JNEWEST00000000000000000");
    match choose_session(&args, &[], false, None) {
        Err(m) => assert_eq!(m, "no sessions to resume"),
        other => panic!("{other:?}"),
    }
}

#[test]
fn today_opens_or_creates_the_day_and_refuses_a_template_it_cannot_seed() {
    let args = Args::default();
    assert_eq!(opened(choose_session(&args, &sessions(), false, Some("monday"))), "01JNEWEST00000000000000000");
    match choose_session(&args, &sessions(), false, Some("tuesday")) {
        Ok(SessionChoice::Create(Some(a))) => assert_eq!(a, "tuesday"),
        other => panic!("{other:?}"),
    }
    let templated = Args {
        template: Some("plan".to_string()),
        ..Default::default()
    };
    match choose_session(&templated, &sessions(), false, Some("monday")) {
        Err(m) => assert!(m.starts_with("today's session ('monday') already exists"), "{m}"),
        other => panic!("{other:?}"),
    }
}

#[test]
fn a_plain_launch_creates_a_session_aliased_by_the_note_name() {
    let named = Args {
        note_name: Some("ideas".to_string()),
        ..Default::default()
    };
    match choose_session(&named, &sessions(), false, None) {
        Ok(SessionChoice::Create(Some(a))) => assert_eq!(a, "ideas"),
        other => panic!("{other:?}"),
    }
    match choose_session(&Args::default(), &sessions(), false, None) {
        Ok(SessionChoice::Create(None)) => {}
        other => panic!("{other:?}"),
    }
}

#[test]
fn the_stat_pass_reports_first_sightings_and_moves_but_never_the_held_cassette() {
    let mut stamps = Vec::new();
    let seen = vec![("a".to_string(), stamp(1)), ("b".to_string(), stamp(1))];
    assert_eq!(note_stamps(&mut stamps, &seen, Some("b")), vec!["a".to_string()]);
    assert_eq!(note_stamps(&mut stamps, &seen, None), Vec::<String>::new(), "held b was still recorded");
    let moved = vec![("a".to_string(), stamp(1)), ("b".to_string(), stamp(2))];
    assert_eq!(note_stamps(&mut stamps, &moved, None), vec!["b".to_string()]);
    assert_eq!(stamps.len(), 2);
}

#[test]
fn a_new_inode_alone_is_a_change() {
    let mut stamps = Vec::new();
    let first = ChangeStamp { modified_secs: 5, modified_nanos: 7, len: 4, ino: 100 };
    note_stamps(&mut stamps, &[("c".to_string(), first)], None);
    let second = ChangeStamp { ino: 101, ..first };
    assert_eq!(
        note_stamps(&mut stamps, &[("c".to_string(), second)], None),
        vec!["c".to_string()],
        "same mtime and length, new inode: a change"
    );
}

#[test]
fn a_newcomer_is_placed_by_its_own_priority_without_moving_focus() {
    let mut app = empty_app();
    app.cassettes.push(with_id("m", 20));
    app.focus_idx = 0;
    let mut stamps = Vec::new();
    tick(&mut app, &mut stamps, &[("m", 20, Status::Open, "## Side A\n\nmine\n", 1)], None);
    tick(
        &mut app,
        &mut stamps,
        &[
            ("m", 20, Status::Open, "## Side A\n\nmine\n", 1),
            ("z", 30, Status::Open, "## Side A\n\nlater\n", 1),
            ("e", 10, Status::Open, "## Side A\n\nearlier\n", 1),
        ],
        None,
    );
    assert_eq!(ids(&app), vec!["e", "m", "z"]);
    assert_eq!(app.cassettes[app.focus_idx].id, "m", "focus unmoved");
    assert_eq!(app.cassettes[0].side_a_text(), "earlier");
}

#[test]
fn a_cassette_closed_elsewhere_leaves_the_working_set() {
    let mut app = empty_app();
    app.cassettes.push(with_id("a", 10));
    app.cassettes.push(with_id("b", 20));
    let mut stamps = Vec::new();
    let open = [
        ("a", 10, Status::Open, "## Side A\n\na\n", 1),
        ("b", 20, Status::Open, "## Side A\n\nb\n", 1),
    ];
    tick(&mut app, &mut stamps, &open, None);
    assert_eq!(app.open_count(), 2);
    let closed = [
        ("a", 10, Status::Closed, "## Side A\n\na\n", 2),
        ("b", 20, Status::Open, "## Side A\n\nb\n", 1),
    ];
    tick(&mut app, &mut stamps, &closed, None);
    assert_eq!(app.open_count(), 1, "the closed one left the working set");
    assert!(app.cassettes[1].closed, "and sorted to the tail");
    assert_eq!(app.cassettes[1].id, "a");
}

#[test]
fn an_external_write_lands_on_screen() {
    let mut app = empty_app();
    let mut c = with_id("a", 10);
    c.insert_str("mine");
    app.cassettes.push(c);
    let mut stamps = Vec::new();
    stamps.push(("a".to_string(), stamp(1)));
    tick(&mut app, &mut stamps, &[("a", 10, Status::Open, "## Side A\n\nmine\n", 1)], None);
    assert_eq!(app.cassettes[0].side_a_text(), "mine", "nothing yet");
    tick(&mut app, &mut stamps, &[("a", 10, Status::Open, "## Side A\n\nagent words\n", 2)], None);
    assert_eq!(app.cassettes[0].side_a_text().trim(), "agent words");
}

#[test]
fn the_held_cassette_is_never_merged() {
    let mut app = empty_app();
    let mut c = with_id("a", 10);
    c.insert_str("typing");
    app.cassettes.push(c);
    let mut stamps = Vec::new();
    tick(&mut app, &mut stamps, &[("a", 10, Status::Open, "## Side A\n\nother\n", 1)], Some("a"));
    assert_eq!(app.cassettes[0].side_a_text(), "typing");
}

#[test]
fn no_newcomer_joins_once_the_cap_is_reached() {
    let mut app = empty_app();
    let mut files: Vec<(String, i64)> = Vec::new();
    for i in 0..MAX_CASSETTES {
        let id = format!("c{i:02}");
        let priority = (i as i64 + 1) * 10;
        app.cassettes.push(with_id(&id, priority));
        files.push((id, priority));
    }
    let known = ids(&app);
    let mut rows: Vec<(&str, i64, Status, &str, u64)> = files
        .iter()
        .map(|(id, p)| (id.as_str(), *p, Status::Open, "", 1))
        .collect();
    rows.push(("new", 1, Status::Open, "## Side A\n\nnewcomer\n", 1));
    let mut stamps = Vec::new();
    tick(&mut app, &mut stamps, &rows, None);
    assert_eq!(app.cassettes.len(), MAX_CASSETTES, "the cap is not exceeded");
    assert_eq!(ids(&app), known, "nothing already present is disturbed");
}

#[test]
fn merging_back_a_cassette_just_flushed_keeps_its_cursor_and_undo() {
    let mut app = empty_app();
    app.cassettes.push(with_id("a", 10));
    app.cassettes.push(with_id("b", 20));
    app.cassettes[0].snapshot();
    app.cassettes[0].insert_str("hello world");
    let cursor = app.cassettes[0].cursor_pos();
    let body = cassette_body(&app.cassettes[0]);
    let mut stamps = Vec::new();
    let files = [("a", 10, Status::Open, body.as_str(), 1), ("b", 20, Status::Open, "", 1)];
    tick(&mut app, &mut stamps, &files, Some("a"));
    let flushed = [("a", 10, Status::Open, body.as_str(), 2), ("b", 20, Status::Open, "", 1)];
    tick(&mut app, &mut stamps, &flushed, Some("b"));
    assert_eq!(app.cassettes[0].cursor_pos(), cursor, "the cursor stays");
    app.cassettes[0].undo();
    assert_eq!(app.cassettes[0].text(), "", "and the undo stack survives");
}

#[test]
fn refreshing_an_unchanged_cassette_keeps_cursor_and_undo() {
    let mut app = empty_app();
    app.cassettes.push(with_id("a", 10));
    app.cassettes[0].snapshot();
    app.cassettes[0].insert_str("hello world");
    app.cassettes[0].move_word_back();
    let cursor = app.cassettes[0].cursor_pos();
    let mut file = stored("a", 10, Status::Open, &cassette_body(&app.cassettes[0]));
    file.meta.locked_by = Some("01JWRITERAGENT000000000000".to_string());
    refresh_from_disk(&mut app, 0, &file, &writers());
    assert_eq!(app.cassettes[0].cursor_pos(), cursor);
    assert_eq!(app.cassettes[0].locked_by.as_deref(), Some("agent-1"), "the lock is still taken");
    app.cassettes[0].undo();
    assert_eq!(app.cassettes[0].text(), "");
}

#[test]
fn refreshing_adopts_what_another_writer_wrote() {
    let mut app = empty_app();
    app.cassettes.push(with_id("a", 10));
    app.cassettes[0].insert_str("the human's first draft");
    let file = stored("a", 10, Status::Open, "## Side A\n\nwords the agent wrote\n");
    refresh_from_disk(&mut app, 0, &file, &writers());
    app.cassettes[0].insert_str("!");
    let (_, body) = flush_record(meta("a", 10, Status::Open), &app.cassettes[0], "w", "now".to_string());
    assert!(body.contains("words the agent wrote"), "{body}");
    assert!(!body.contains("first draft"), "{body}");
    assert!(body.contains('!'), "{body}");
    assert_eq!(app.cassettes[0].id, "a");
    assert_eq!(app.cassettes[0].priority, 10);
}

#[test]
fn refreshing_leaves_unsaved_edits_alone() {
    let mut app = empty_app();
    app.cassettes.push(with_id("a", 10));
    app.cassettes[0].insert_str("unsaved");
    app.cassettes[0].dirty = true;
    let file = stored("a", 10, Status::Open, "## Side A\n\ndisk\n");
    refresh_from_disk(&mut app, 0, &file, &writers());
    assert_eq!(app.cassettes[0].side_a_text(), "unsaved");
}

#[test]
fn a_flush_keeps_the_queue_owned_frontmatter() {
    let mut m = meta("a", 10, Status::Closed);
    m.locked_by = Some("01JWRITERAGENT000000000000".to_string());
    let mut c = with_id("a", 99);
    c.topic = Some("new topic".to_string());
    c.insert_str("text");
    let (out, body) = flush_record(m, &c, "01JHUMAN", "2026-09-16T10:00:00Z".to_string());
    assert_eq!(out.priority, 10);
    assert_eq!(out.status, Status::Closed);
    assert_eq!(out.locked_by.as_deref(), Some("01JWRITERAGENT000000000000"));
    assert_eq!(out.created_by, "w", "creation is not re-attributed");
    assert_eq!(out.last_writer, "01JHUMAN");
    assert_eq!(out.updated_at, "2026-09-16T10:00:00Z");
    assert_eq!(out.topic.as_deref(), Some("new topic"));
    assert_eq!(body, "## Side A\n\ntext\n");
}

#[test]
fn the_store_is_empty_only_when_nothing_anyone_wrote_remains() {
    let mut app = empty_app();
    app.cassettes.push(with_id("a", 10));
    let blank = SessionScan {
        cassettes: vec![stored("a", 10, Status::Open, "## Side A\n\n")],
        damaged: vec![],
    };
    assert!(store_is_empty(&blank, &app, true));
    assert!(!store_is_empty(&blank, &app, false), "a live lock anchor");
    let words = SessionScan {
        cassettes: vec![stored("a", 10, Status::Open, "## Side A\n\nan agent's words\n")],
        damaged: vec![],
    };
    assert!(!store_is_empty(&words, &app, true), "another writer's words");
    let stranger = SessionScan {
        cassettes: vec![
            stored("a", 10, Status::Open, ""),
            stored("x", 20, Status::Open, ""),
        ],
        damaged: vec![],
    };
    assert!(!store_is_empty(&stranger, &app, true), "a cassette the editor never saw");
    let damaged = SessionScan {
        cassettes: vec![],
        damaged: vec![Damaged {
            label: "b.md".to_string(),
            reason: "bad".to_string(),
        }],
    };
    assert!(!store_is_empty(&damaged, &app, true), "a file someone wrote");
}

#[test]
fn what_a_flush_saves_a_resume_gives_back() {
    let mut c = with_id("a", 10);
    c.insert_str("  first line\nsecond line  \n");
    c.flip();
    c.insert_str("\nscratch\n");
    let (_, body) = flush_record(meta("a", 10, Status::Open), &c, "w", "now".to_string());
    let scan = SessionScan {
        cassettes: vec![stored("a", 10, Status::Open, &body)],
        damaged: vec![],
    };
    let (cs, _) = load_session_cassettes(&scan, &[]);
    assert_eq!(cs[0].side_a_text(), "first line\nsecond line");
    assert_eq!(cs[0].side_b_text(), "scratch");
}

#[test]
fn only_an_untouched_session_this_run_created_is_removed() {
    let mut app = empty_app();
    app.cassettes.push(with_id("a", 10));
    let blank = SessionScan {
        cassettes: vec![stored("a", 10, Status::Open, "## Side A\n\n")],
        damaged: vec![],
    };
    assert!(removes_session(true, &app, &blank, true));
    assert!(!removes_session(false, &app, &blank, true), "an opened session holds earlier work");
    app.cassettes[0].insert_str("words");
    assert!(!removes_session(true, &app, &blank, true), "this run wrote something");
}
