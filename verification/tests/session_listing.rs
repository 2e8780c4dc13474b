use cassette::session::render_list;
use cassette::store::SessionMeta;

fn meta(created: &str, alias: Option<&str>) -> SessionMeta {
    SessionMeta {
        alias: alias.map(str::to_string),
        created: created.to_string(),
        timer_secs: None,
        word_goal: None,
    }
}

#[test]
fn list_keeps_the_stores_order_and_shows_the_alias() {
    // Fed in the order `Store::list_sessions` returns — newest first —
    // because that is the order the only caller passes. `render_list`
    // does not re-sort; it must not reorder what it is given either.
    let rows = vec![
        (
            "01BBB".to_string(),
            meta("2026-09-15T09:00:00Z", Some("today")),
        ),
        ("01AAA".to_string(), meta("2026-09-14T09:00:00Z", None)),
    ];
    let out = render_list(&rows, None);
    let bbb = out.find("01BBB").expect("bbb");
    let aaa = out.find("01AAA").expect("aaa");
    assert!(bbb < aaa, "rows render in the order given: {out}");
    assert!(out.contains("today"), "alias must show: {out}");
}

#[test]
fn session_list_says_so_when_empty() {
    assert_eq!(render_list(&[], None), "no sessions");
}

#[test]
fn the_default_listing_is_capped_and_says_how_many_it_hid() {
    let rows: Vec<_> = (0..20)
        .map(|i| (format!("01{i:03}"), meta("2026-09-15T09:00:00Z", None)))
        .collect();
    let out = render_list(&rows, Some(15));
    assert_eq!(out.lines().filter(|l| l.starts_with("01")).count(), 15);
    assert!(out.contains("5 more"), "must not hide rows silently: {out}");
}
