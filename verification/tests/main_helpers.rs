use cassette::app::App;
use cassette::cassette::Cassette;
use cassette::cli::{launch_conflict, resolve_writer_name, Args};
use cassette::keys::{handle_key, Key, KeyCode, Modifiers};
use cassette::queue::WriterSource;
use cassette::recap::session_summary;
use cassette::store::{busy_holder_name, Attribution, LockError};
use cassette::sync_folder::looks_synced;

fn type_str(app: &mut App, s: &str) {
    for c in s.chars() {
        handle_key(
            app,
            Key {
                code: KeyCode::Char(c),
                modifiers: Modifiers::none(),
            },
        );
    }
}

#[test]
fn a_store_under_a_sync_root_is_flagged() {
    for p in [
        "/home/me/Dropbox/cassette",
        "/Users/me/Library/Mobile Documents/cassette",
        "/home/me/OneDrive/notes/cassette",
        "/home/me/Google Drive/cassette",
        // The `<name> ` prefix clause. Untested until now: deleting it
        // outright left every test green, so the half of the rule with
        // real-world consequences was unexercised.
        "/home/me/Dropbox (Personal)/cassette",
        "/home/me/OneDrive - Acme Corp/cassette",
        // Accepted false positive — this only warns, so over-flagging a
        // folder name costs a line of stderr and nothing else.
        "/home/me/Dropbox Backup/cassette",
        // macOS 12.3+ puts these under CloudStorage with a HYPHEN, which
        // neither the equality nor the prefix clause matches.
        "/Users/me/Library/CloudStorage/OneDrive-Personal/cassette",
        "/Users/me/Library/CloudStorage/GoogleDrive-me@gmail.com/cassette",
    ] {
        assert!(looks_synced(p), "should flag {p}");
    }
}

#[test]
fn an_ordinary_store_is_not_flagged() {
    for p in [
        "/home/me/.local/share/cassette",
        "/home/me/dropboxes-i-have-known/cassette",
        "/tmp/cassette-test",
    ] {
        assert!(!looks_synced(p), "should not flag {p}");
    }
}

#[test]
fn busy_holder_name_reads_the_attribution_queue_writes_exit_three_message_uses() {
    let busy_named = LockError::Busy {
        id: "c1".to_string(),
        holder: Some(Attribution {
            writer: "01WRITERID0000000000000000".to_string(),
            name: "refactor-agent".to_string(),
            pid: 4242,
            since: "2026-09-18T00:00:00Z".to_string(),
        }),
    };
    assert_eq!(
        busy_holder_name(&busy_named).as_deref(),
        Some("refactor-agent")
    );

    let busy_garbled = LockError::Busy {
        id: "c1".to_string(),
        holder: None,
    };
    assert_eq!(busy_holder_name(&busy_garbled), None);

    let no_such = LockError::NoSuchCassette {
        session: "s".to_string(),
        id: "c1".to_string(),
    };
    assert_eq!(busy_holder_name(&no_such), None);
}

#[test]
fn session_summary_counts_only_words_added_after_resume() {
    let mut app = App::new(None, None, None, "01JTESTSESSN00000000000000".to_string());
    app.load_cassettes(vec![Cassette::from_sides(
        "five old words sit here".into(),
        String::new(),
        None,
    )]);
    assert!(
        session_summary(&app, 0, "").is_none(),
        "resume with nothing new written: no recap"
    );
    type_str(&mut app, " two more");
    let s = session_summary(&app, 0, "").unwrap();
    assert!(s.starts_with("2 new words in 0:0"), "summary was: {s}");
    assert!(s.contains("(7 total)"), "summary was: {s}");
}

#[test]
fn session_summary_reports_words_and_breakdown() {
    let mut app = App::new(None, None, None, "01JTESTSESSN00000000000000".to_string());
    assert!(session_summary(&app, 0, "").is_none(), "empty session: no summary");
    app.modify_focused(|c| {
        for ch in "one two three".chars() {
            c.insert(ch);
        }
        c.topic = Some("morning".into());
    });
    app.add_cassette();
    app.modify_focused(|c| {
        for ch in "four five".chars() {
            c.insert(ch);
        }
    });
    let s = session_summary(&app, 0, "").unwrap();
    assert!(s.starts_with("5 words in 0:0"), "summary was: {s}");
    assert!(!s.contains("wpm"), "no pace on a sub-30s session");
    assert!(s.contains("morning: 3"));
    assert!(s.contains("cassette 2: 2"));
}

#[test]
fn the_writer_flag_wins_and_is_trimmed() {
    let r = resolve_writer_name(Some("  joseph "), Some("agent-1"), Some("me"));
    assert_eq!(r.unwrap(), ("joseph".to_string(), WriterSource::Flag));
    assert_eq!(
        resolve_writer_name(Some("   "), Some("agent-1"), Some("me")).unwrap_err(),
        "--writer cannot be empty"
    );
}

#[test]
fn cassette_writer_counts_as_a_flag_and_user_as_the_environment() {
    assert_eq!(
        resolve_writer_name(None, Some(" agent-1 "), Some("me")).unwrap(),
        ("agent-1".to_string(), WriterSource::Flag)
    );
    assert_eq!(
        resolve_writer_name(None, Some("  "), Some(" me ")).unwrap(),
        ("me".to_string(), WriterSource::Env)
    );
    assert_eq!(
        resolve_writer_name(None, None, Some("")).unwrap_err(),
        "no writer: $USER is empty or unset, so pass --writer <NAME> or set $CASSETTE_WRITER"
    );
}

#[test]
fn an_unsaved_session_prints_every_cassette_with_its_sides() {
    let mut app = cassette::app::App::new(None, None, None, String::new());
    app.cassettes[0].insert_str("front words");
    let mut second = cassette::cassette::Cassette::new();
    second.topic = Some("plans".to_string());
    second.insert_str("a");
    second.flip();
    second.insert_str("back");
    second.flip();
    app.cassettes.push(second);
    assert_eq!(
        cassette::recap::stdout_report(&app),
        "Words recorded to Cassette 1:\n\nSide A:\n\nfront words\n\
         Words recorded to Cassette 2 \u{2014} plans:\n\nSide A:\n\na\n\nSide B:\n\nback\n"
    );
}

#[test]
fn launch_conflicts_are_refused_before_anything_is_touched() {
    let resume_with_template = Args {
        resume: Some(None),
        template: Some("morning".to_string()),
        ..Default::default()
    };
    assert_eq!(
        launch_conflict(&resume_with_template).as_deref(),
        Some("'resume' cannot be combined with '-T'")
    );
    let print_today = Args {
        print_stdout: true,
        daily: true,
        ..Default::default()
    };
    assert_eq!(
        launch_conflict(&print_today).as_deref(),
        Some(
            "'-o' persists nothing, so it cannot be combined with 'today' \u{2014} drop '-o' to \
             write to the store, or drop 'today' to print this sitting to stdout"
        )
    );
    let print_only = Args {
        print_stdout: true,
        ..Default::default()
    };
    assert_eq!(launch_conflict(&print_only), None);
    assert_eq!(launch_conflict(&Args::default()), None);
}
