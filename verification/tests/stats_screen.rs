use cassette::stats::{last_seven, render, streak, Day, NoteMeta};
use chrono::{Datelike, NaiveDate};

fn d(s: &str) -> Day {
    let n = NaiveDate::parse_from_str(s, "%Y-%m-%d").unwrap();
    Day::from_ymd(n.year(), n.month(), n.day())
}

fn meta(date: &str, words: usize) -> NoteMeta {
    NoteMeta {
        date: d(date),
        words,
    }
}

fn days(ds: &[&str]) -> Vec<i32> {
    ds.iter().map(|s| d(s).num).collect()
}

#[test]
fn streak_counts_back_and_tolerates_missing_today() {
    let dates = days(&["2026-07-01", "2026-07-02", "2026-07-03"]);
    assert_eq!(streak(&dates, d("2026-07-03").num), 3);
    assert_eq!(streak(&dates, d("2026-07-04").num), 3, "today not written yet");
    assert_eq!(
        streak(&dates, d("2026-07-05").num),
        0,
        "a full missed day breaks it"
    );
}

#[test]
fn render_buckets_week_month_and_total() {
    // 2026-07-03 is a Friday; the week starts Monday 2026-06-29.
    let metas = [
        meta("2026-06-10", 100), // June: month excludes, total includes
        meta("2026-06-28", 50),  // Sunday before the week starts
        meta("2026-06-30", 200), // in week, out of month
        meta("2026-07-02", 300),
        meta("2026-07-03", 400),
    ];
    let out = render(&metas, d("2026-07-03"), 0);
    assert!(out.contains("streak:      2 days"), "{out}");
    assert!(out.contains("this week:   3 notes · 900 words"), "{out}");
    assert!(out.contains("this month:  2 notes · 700 words"), "{out}");
    assert!(
        out.contains("total:       5 notes · 1050 words · since 2026-06-10"),
        "{out}"
    );
}

#[test]
fn last_seven_marks_hits_and_misses() {
    // Today 2026-07-03 is a Friday and has a note: window Sat Jun 27 → Fri Jul 3.
    let dates = days(&["2026-06-28", "2026-06-30", "2026-07-02", "2026-07-03"]);
    assert_eq!(
        last_seven(&dates, &d("2026-07-03")),
        "last 7:      S S M T W T F\n             ○ ● ○ ● ○ ● ●   4/7"
    );
}

#[test]
fn last_seven_pending_today_is_not_a_miss() {
    let dates = days(&["2026-06-28", "2026-06-30", "2026-07-02"]);
    assert_eq!(
        last_seven(&dates, &d("2026-07-03")),
        "last 7:      S S M T W T F\n             ○ ● ○ ● ○ ● ·   3/6",
        "unwritten today shows · and leaves the denominator"
    );
}

#[test]
fn render_includes_last_seven_row() {
    let metas = [meta("2026-07-02", 300), meta("2026-07-03", 400)];
    let out = render(&metas, d("2026-07-03"), 0);
    assert!(
        out.contains("last 7:      S S M T W T F\n             ○ ○ ○ ○ ○ ● ●   2/7"),
        "{out}"
    );
}

#[test]
fn stats_render_empty_dir_message() {
    assert!(render(&[], d("2026-07-03"), 0).contains("no notes yet"));
}

#[test]
fn render_reports_unreadable_files_and_a_single_day() {
    let metas = [meta("2026-07-03", 1)];
    let out = render(&metas, d("2026-07-03"), 2);
    assert_eq!(
        out,
        "streak:      1 day\n\
         last 7:      S S M T W T F\n             ○ ○ ○ ○ ○ ○ ●   1/7\n\
         this week:   1 note · 1 words\n\
         this month:  1 note · 1 words\n\
         total:       1 note · 1 words · since 2026-07-03\n\
         2 unreadable"
    );
}

#[test]
fn a_date_reads_as_its_day_number_weekday_and_text() {
    let fri = d("2026-07-03");
    let sat = d("2026-07-04");
    assert_eq!(sat.num - fri.num, 1, "consecutive days differ by one");
    assert_eq!(fri.weekday, 4, "Friday");
    assert_eq!((fri.year, fri.month), (2026, 7));
    assert_eq!(fri.text, "2026-07-03");
}

#[test]
fn a_day_numbers_weekdays_and_writes_itself_as_chrono_does() {
    for s in ["0001-01-01", "1970-01-01", "2000-02-29", "2024-03-01", "2026-09-15", "0042-12-31"] {
        let n = NaiveDate::parse_from_str(s, "%Y-%m-%d").unwrap();
        let day = d(s);
        assert_eq!(day.num, n.num_days_from_ce(), "{s}");
        assert_eq!(day.weekday, n.weekday().num_days_from_monday(), "{s}");
        assert_eq!(day.text, n.to_string(), "{s}");
    }
    let before_ce = NaiveDate::from_ymd_opt(-44, 3, 15).unwrap();
    let day = Day::from_ymd(-44, 3, 15);
    assert_eq!(day.num, before_ce.num_days_from_ce());
    assert_eq!(day.weekday, before_ce.weekday().num_days_from_monday());
    assert_eq!(day.text, before_ce.to_string());
}
