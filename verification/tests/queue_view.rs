use cassette::queue::view::{
    build_view, filter_cassettes, list, listing_of, open_candidates, parse_since, render_list,
};
use cassette::queue::{QueueError, StatusFilter};
use cassette::store::{CassetteMeta, Kind, Status, StoredCassette, Writer};

fn meta(id: &str, priority: i64, status: Status) -> CassetteMeta {
    CassetteMeta {
        id: id.to_string(),
        topic: Some(format!("topic-{id}")),
        priority,
        status,
        locked_by: None,
        created_by: "w".to_string(),
        last_writer: "w".to_string(),
        updated_at: "2026-09-15T09:00:00Z".to_string(),
    }
}

fn stored(m: CassetteMeta) -> StoredCassette {
    StoredCassette {
        path: std::path::PathBuf::from(format!("{}.md", m.id)),
        meta: m,
        body: "## Side A\n\nwords here\n".to_string(),
    }
}

#[test]
fn list_orders_open_by_priority_then_closed_last() {
    let rows = vec![
        stored(meta("c", 5, Status::Closed)),
        stored(meta("b", 20, Status::Open)),
        stored(meta("a", 10, Status::Open)),
    ];
    let out = render_list(&rows, 0);
    let a = out.find("topic-a").expect("a");
    let b = out.find("topic-b").expect("b");
    let c = out.find("topic-c").expect("c");
    assert!(a < b, "priority 10 before 20: {out}");
    assert!(b < c, "closed last despite priority 5: {out}");
}

#[test]
fn list_reports_unreadable_cassettes_instead_of_hiding_them() {
    // A cassette the store could not parse must never be silently
    // absent: `queue list` is the operator's only view of the store.
    let out = render_list(&[stored(meta("a", 10, Status::Open))], 2);
    assert!(out.contains("2 unreadable"), "{out}");
}

#[test]
fn view_list_says_so_when_empty() {
    assert_eq!(render_list(&[], 0), "no cassettes");
}

#[test]
fn list_filters_by_status() {
    let mut open = meta("aaa00000000000000000000000", 10, Status::Open);
    open.topic = Some("open-one".to_string());
    let mut closed = meta("bbb00000000000000000000000", 20, Status::Closed);
    closed.topic = Some("closed-one".to_string());
    let scan = || vec![stored(open.clone()), stored(closed.clone())];

    let open_only = list(scan(), 0, StatusFilter::Open, None).expect("list");
    assert!(open_only.contains("open-one"), "{open_only}");
    assert!(!open_only.contains("closed-one"), "{open_only}");

    let all = list(scan(), 0, StatusFilter::All, None).expect("list");
    assert!(
        all.contains("open-one") && all.contains("closed-one"),
        "{all}"
    );
}

#[test]
fn since_keeps_a_cassette_whose_own_timestamp_is_unreadable() {
    let mut good = meta("aaa00000000000000000000000", 10, Status::Open);
    good.topic = Some("older-one".to_string());
    good.updated_at = "2026-09-15T09:00:00Z".to_string();
    let mut broken = meta("bbb00000000000000000000000", 20, Status::Open);
    broken.topic = Some("garbled".to_string());
    broken.updated_at = "not a timestamp".to_string();

    let out = list(
        vec![stored(good), stored(broken)],
        0,
        StatusFilter::All,
        Some("2026-09-16T00:00:00Z"),
    )
    .expect("list");
    assert!(
        !out.contains("older-one"),
        "older cassette must drop: {out}"
    );
    assert!(
        out.contains("garbled"),
        "an unparseable updated_at must be kept, not hidden: {out}"
    );
}

#[test]
fn list_rejects_an_unparseable_since() {
    match list(Vec::new(), 0, StatusFilter::All, Some("not-a-date")) {
        Err(QueueError::Usage(m)) => assert!(m.contains("not-a-date"), "{m}"),
        other => panic!("expected Usage, got {other:?}"),
    }
}

#[test]
fn next_returns_empty_when_there_are_no_open_cassettes() {
    let sid = "01K5GR7T2M9WPD0000000000SS";
    match open_candidates(vec![stored(meta("aaa00000000000000000000000", 10, Status::Closed))], sid) {
        Err(QueueError::Empty(m)) => assert!(m.contains(sid), "{m}"),
        other => panic!("expected Empty, got {other:?}"),
    }
}

#[test]
fn next_returns_empty_for_a_session_with_no_cassettes_at_all() {
    match open_candidates(Vec::new(), "s") {
        Err(QueueError::Empty(m)) => assert_eq!(m, "no open cassettes in session 's'"),
        other => panic!("expected Empty, got {other:?}"),
    }
}

#[test]
fn open_candidates_come_in_queue_order() {
    let v = open_candidates(
        vec![
            stored(meta("c", 30, Status::Open)),
            stored(meta("x", 1, Status::Closed)),
            stored(meta("b", 20, Status::Open)),
            stored(meta("a", 20, Status::Open)),
        ],
        "s",
    )
    .expect("open ones");
    let ids: Vec<&str> = v.iter().map(|c| c.meta.id.as_str()).collect();
    assert_eq!(ids, vec!["a", "b", "c"], "priority, then id; closed left out");
}

#[test]
fn since_is_inclusive_and_compares_instants_across_offsets() {
    let t = parse_since(Some("2026-09-15T11:00:00+02:00")).unwrap();
    let mut same = meta("a", 10, Status::Open);
    same.updated_at = "2026-09-15T09:00:00Z".to_string();
    let mut before = meta("b", 20, Status::Open);
    before.updated_at = "2026-09-15T08:59:59.999Z".to_string();
    let kept = filter_cassettes(vec![stored(same), stored(before)], StatusFilter::All, t);
    let ids: Vec<&str> = kept.iter().map(|c| c.meta.id.as_str()).collect();
    assert_eq!(ids, vec!["a"]);
    assert_eq!(parse_since(None).unwrap(), None);
}

fn writers() -> Vec<Writer> {
    vec![
        Writer { id: "w-human".into(), name: "joseph".into(), kind: Kind::Human },
        Writer { id: "w-agent".into(), name: "scribe".into(), kind: Kind::Agent },
    ]
}

#[test]
fn a_view_resolves_writers_and_whose_turn_it_is() {
    let mut m = meta("a", 10, Status::Open);
    m.created_by = "w-human".into();
    m.last_writer = "w-agent".into();
    m.locked_by = Some("w-unknown".into());
    let mut c = stored(m);
    c.body = "## Side A\n\none two\n## Side B\n\nthree\n".to_string();
    let v = build_view(&c, true, &writers());
    assert_eq!(v.id, "a");
    assert_eq!(v.status, "open");
    assert_eq!(v.words, 3);
    assert!(v.busy);
    assert_eq!(v.created_by.as_ref().map(|w| (w.name.as_str(), w.kind)), Some(("joseph", "human")));
    assert_eq!(v.last_writer.as_ref().map(|w| (w.name.as_str(), w.kind)), Some(("scribe", "agent")));
    assert!(v.sticky_lock.is_none(), "an unknown holder is not shown");
    assert_eq!(v.waiting_on, Some("human"), "an agent wrote last");
    assert_eq!(v.side_a, "\none two");
    assert_eq!(v.side_b, "\nthree");
}

#[test]
fn an_unknown_last_writer_leaves_the_turn_open() {
    let mut m = meta("a", 10, Status::Closed);
    m.last_writer = "nobody".into();
    let v = build_view(&stored(m), false, &writers());
    assert_eq!(v.waiting_on, None);
    assert_eq!(v.status, "closed");
}

#[test]
fn a_listing_shapes_every_cassette_with_its_lock_state() {
    let cs = vec![stored(meta("a", 10, Status::Open)), stored(meta("b", 20, Status::Open))];
    let l = listing_of("s1", Some("morning".into()), &cs, &[false, true], &writers());
    assert_eq!(l.session.id, "s1");
    assert_eq!(l.session.alias.as_deref(), Some("morning"));
    let busy: Vec<bool> = l.cassettes.iter().map(|v| v.busy).collect();
    assert_eq!(busy, vec![false, true]);
}
