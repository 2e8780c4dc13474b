//! The `cassette stats` screen: the current streak of writing days, the
//! last seven days at a glance, and notes and words by week, month and in
//! total.

use vstd::prelude::*;

use crate::text::{
    dec, dec2, join_with, lemma_join_with_push, owned, push_dec, push_dec2, push_str, push_usize,
};

verus! {

/// The earliest year a calendar date can have (chrono's `NaiveDate::MIN`).
pub const MIN_YEAR: i32 = -262143;

/// The latest year a calendar date can have (chrono's `NaiveDate::MAX`).
pub const MAX_YEAR: i32 = 262142;

/// Year `y` of the proleptic Gregorian calendar is a leap year.
pub open spec fn is_leap(y: int) -> bool {
    y % 4 == 0 && (y % 100 != 0 || y % 400 == 0)
}

/// Days in the months of a common year before month `m`.
pub open spec fn days_before_month(m: int) -> int {
    if m <= 1 {
        0
    } else if m == 2 {
        31
    } else if m == 3 {
        59
    } else if m == 4 {
        90
    } else if m == 5 {
        120
    } else if m == 6 {
        151
    } else if m == 7 {
        181
    } else if m == 8 {
        212
    } else if m == 9 {
        243
    } else if m == 10 {
        273
    } else if m == 11 {
        304
    } else {
        334
    }
}

/// The day number of `y`-`m`-`d` in the proleptic Gregorian calendar,
/// counted as chrono's `num_days_from_ce` counts: January 1 of year 1 is 1.
pub open spec fn days_from_civil(y: int, m: int, d: int) -> int {
    let p = y - 1;
    365 * p + p / 4 - p / 100 + p / 400 + days_before_month(m) + (if m > 2 && is_leap(y) {
        1int
    } else {
        0int
    }) + d
}

/// A year as the `%Y` format writes it: four digits, zero-padded, for the
/// years 0 through 9999; otherwise signed, with at least four digits.
pub open spec fn year_text(y: int) -> Seq<char> {
    let a = if y < 0 {
        -y
    } else {
        y
    };
    let digits = if a < 10000 {
        dec2((a / 100) as nat) + dec2((a % 100) as nat)
    } else {
        dec(a as nat)
    };
    if 0 <= y <= 9999 {
        digits
    } else if y < 0 {
        "-"@ + digits
    } else {
        "+"@ + digits
    }
}

/// A date written `%Y-%m-%d`.
pub open spec fn ymd_text(y: int, m: nat, d: nat) -> Seq<char> {
    year_text(y) + "-"@ + dec2(m) + "-"@ + dec2(d)
}

/// The date `y`-`m`-`d` is one a calendar date can be: its year within
/// chrono's range, a month 1 through 12 and a day 1 through 31.
pub open spec fn ymd_ok(y: int, m: int, d: int) -> bool {
    MIN_YEAR <= y <= MAX_YEAR && 1 <= m <= 12 && 1 <= d <= 31
}

/// Append `year_text(y)`.
pub fn push_year(out: &mut String, y: i32)
    ensures
        final(out)@ == old(out)@ + year_text(y as int),
{
    let a: u64 = if y < 0 {
        (-(y as i64)) as u64
    } else {
        y as u64
    };
    if y < 0 {
        push_str(out, "-");
    } else if y > 9999 {
        push_str(out, "+");
    }
    if a < 10000 {
        push_dec2(out, a / 100);
        push_dec2(out, a % 100);
    } else {
        push_dec(out, a);
    }
    assert(out@ =~= old(out)@ + year_text(y as int));
}

/// `ymd_text(y, m, d)`, computed.
pub fn ymd_string(y: i32, m: u32, d: u32) -> (s: String)
    ensures
        s@ == ymd_text(y as int, m as nat, d as nat),
{
    let mut s = String::new();
    push_year(&mut s, y);
    push_str(&mut s, "-");
    push_dec2(&mut s, m as u64);
    push_str(&mut s, "-");
    push_dec2(&mut s, d as u64);
    assert(s@ =~= ymd_text(y as int, m as nat, d as nat));
    s
}

/// Shifting a year count by 400 years shifts each Gregorian quotient by a
/// whole number.
proof fn lemma_shifted_divs(p: int)
    requires
        -400_000 <= p,
    ensures
        (p + 400_000) / 4 - 100_000 == p / 4,
        (p + 400_000) / 100 - 4_000 == p / 100,
        (p + 400_000) / 400 - 1_000 == p / 400,
{
}

/// Shifting a year by 400 years keeps whether it is a leap year.
proof fn lemma_shifted_leap(y: int)
    ensures
        (y + 400_000) % 4 == y % 4,
        (y + 400_000) % 100 == y % 100,
        (y + 400_000) % 400 == y % 400,
{
}

/// `days_from_civil(y, m, d)`, computed. The year is shifted by a multiple
/// of 400 years so that every division is of a non-negative number.
#[verifier::rlimit(30)]
pub fn day_number(y: i32, m: u32, d: u32) -> (n: i32)
    requires
        ymd_ok(y as int, m as int, d as int),
    ensures
        n as int == days_from_civil(y as int, m as int, d as int),
        -96_000_000 < n < 96_000_000,
{
    let a: u64 = (y as i64 - 1 + 400_000) as u64;
    let q4: i64 = (a / 4) as i64 - 100_000;
    let q100: i64 = (a / 100) as i64 - 4_000;
    let q400: i64 = (a / 400) as i64 - 1_000;
    let yl: u64 = (y as i64 + 400_000) as u64;
    let leap = yl % 4 == 0 && (yl % 100 != 0 || yl % 400 == 0);
    let before: i64 = if m <= 1 {
        0
    } else if m == 2 {
        31
    } else if m == 3 {
        59
    } else if m == 4 {
        90
    } else if m == 5 {
        120
    } else if m == 6 {
        151
    } else if m == 7 {
        181
    } else if m == 8 {
        212
    } else if m == 9 {
        243
    } else if m == 10 {
        273
    } else if m == 11 {
        304
    } else {
        334
    };
    let extra: i64 = if m > 2 && leap {
        1
    } else {
        0
    };
    let p: i64 = y as i64 - 1;
    proof {
        lemma_shifted_divs(p as int);
        lemma_shifted_leap(y as int);
    }
    let n: i64 = 365 * p + q4 - q100 + q400 + before + extra + d as i64;
    n as i32
}

/// A calendar day as the stats screen reads it.
pub struct Day {
    /// The day's number, counted from January 1 of year 1 (that day being
    /// 1), so that consecutive days differ by one.
    pub num: i32,
    pub year: i32,
    pub month: u32,
    pub day: u32,
    /// Day of the week, Monday 0 through Sunday 6.
    pub weekday: u32,
    /// The day written `YYYY-MM-DD`.
    pub text: String,
}

impl Day {
    /// The day `year`-`month`-`day`: its day number, its weekday (January 1
    /// of year 1 was a Monday) and its text.
    pub fn from_ymd(year: i32, month: u32, day: u32) -> (r: Day)
        requires
            ymd_ok(year as int, month as int, day as int),
        ensures
            r.num as int == days_from_civil(year as int, month as int, day as int),
            r.weekday as int == (r.num + 6) % 7,
            r.year == year,
            r.month == month,
            r.day == day,
            r.text@ == ymd_text(year as int, month as nat, day as nat),
    {
        let num = day_number(year, month, day);
        let w: u64 = (num as i64 + 6 + 7 * 20_000_000) as u64;
        let weekday = (w % 7) as u32;
        assert(weekday as int == (num + 6) % 7);
        Day { num, year, month, day, weekday, text: ymd_string(year, month, day) }
    }
}

/// What the stats screen needs from one session: its day and word count.
pub struct NoteMeta {
    pub date: Day,
    pub words: usize,
}

// ---------------------------------------------------------------------------
// Streak
// ---------------------------------------------------------------------------

/// Day `d` is among the days `ds`.
pub open spec fn has_day(ds: Seq<i32>, d: int) -> bool {
    exists|i: int| 0 <= i < ds.len() && ds[i] == d
}

/// The day `k` days before day `s` has a note.
pub open spec fn noted_before(ds: Seq<i32>, s: int, k: int) -> bool {
    has_day(ds, s - k)
}

/// The day a streak is counted back from: today, or yesterday when today
/// has no note yet (an unwritten today does not break the streak).
pub open spec fn streak_start(ds: Seq<i32>, today: int) -> int {
    if has_day(ds, today) {
        today
    } else {
        today - 1
    }
}

/// `n` is the streak: the `n` days counting back from `streak_start` all
/// have a note, and the day before them does not.
pub open spec fn is_streak(ds: Seq<i32>, today: int, n: int) -> bool {
    let s = streak_start(ds, today);
    &&& n >= 0
    &&& forall|k: int| 0 <= k < n ==> #[trigger] noted_before(ds, s, k)
    &&& !noted_before(ds, s, n)
}

/// The streak is one number.
pub proof fn lemma_streak_unique(ds: Seq<i32>, today: int, n1: int, n2: int)
    requires
        is_streak(ds, today, n1),
        is_streak(ds, today, n2),
    ensures
        n1 == n2,
{
    let s = streak_start(ds, today);
    if n1 < n2 {
        assert(noted_before(ds, s, n1));
    } else if n2 < n1 {
        assert(noted_before(ds, s, n2));
    }
}

/// The streak counted back from `today` (see `is_streak`).
pub open spec fn streak_of(ds: Seq<i32>, today: int) -> int {
    choose|n: int| is_streak(ds, today, n)
}

/// Whether day `d` is among `ds`.
pub fn contains_day(ds: &[i32], d: i32) -> (r: bool)
    ensures
        r == has_day(ds@, d as int),
{
    let mut i: usize = 0;
    while i < ds.len()
        invariant
            i <= ds.len(),
            forall|k: int| 0 <= k < i ==> ds@[k] != d,
        decreases ds.len() - i,
    {
        if ds[i] == d {
            return true;
        }
        i = i + 1;
    }
    false
}

/// Consecutive days with a note, counting back from today, or from
/// yesterday so that the streak is not broken before today's session.
pub fn streak(dates: &[i32], today: i32) -> (n: u32)
    requires
        today > i32::MIN,
        forall|i: int| 0 <= i < dates.len() ==> dates@[i] > i32::MIN,
    ensures
        is_streak(dates@, today as int, n as int),
        n == streak_of(dates@, today as int),
{
    let mut day = today;
    if !contains_day(dates, day) {
        day = day - 1;
    }
    let ghost s = day as int;
    assert(s == streak_start(dates@, today as int));
    let mut n: u32 = 0;
    while contains_day(dates, day)
        invariant
            s == streak_start(dates@, today as int),
            s <= today,
            n as int == s - day,
            forall|i: int| 0 <= i < dates.len() ==> dates@[i] > i32::MIN,
            forall|k: int| 0 <= k < n ==> #[trigger] noted_before(dates@, s, k),
        decreases day as int - i32::MIN,
    {
        proof {
            let i = choose|i: int| 0 <= i < dates@.len() && dates@[i] == day;
            assert(dates@[i] > i32::MIN);
            assert(noted_before(dates@, s, n as int));
        }
        n = n + 1;
        day = day - 1;
    }
    assert(!noted_before(dates@, s, n as int));
    proof {
        lemma_streak_unique(dates@, today as int, n as int, streak_of(dates@, today as int));
    }
    n
}

// ---------------------------------------------------------------------------
// The last seven days
// ---------------------------------------------------------------------------

/// The first letter of the name of weekday `w` (Monday 0).
pub open spec fn weekday_initial(w: int) -> char {
    if w == 0 {
        'M'
    } else if w == 1 {
        'T'
    } else if w == 2 {
        'W'
    } else if w == 3 {
        'T'
    } else if w == 4 {
        'F'
    } else {
        'S'
    }
}

/// The mark for the day `back` days before `today`: `·` for an unwritten
/// today (still pending), `●` for a day with a note, `○` for one without.
pub open spec fn day_mark(ds: Seq<i32>, today: int, back: int) -> Seq<char> {
    if back == 0 && !has_day(ds, today) {
        "·"@
    } else if has_day(ds, today - back) {
        "●"@
    } else {
        "○"@
    }
}

/// The seven weekday initials, oldest day first, ending with today's
/// weekday `wd`.
pub open spec fn week_initials(wd: int) -> Seq<Seq<char>> {
    Seq::new(7, |k: int| seq![weekday_initial((wd + 1 + k) % 7)])
}

/// The seven marks, oldest day first.
pub open spec fn week_marks(ds: Seq<i32>, today: int) -> Seq<Seq<char>> {
    Seq::new(7, |k: int| day_mark(ds, today, 6 - k))
}

/// How many of the `n` days ending today have a note.
pub open spec fn written_days(ds: Seq<i32>, today: int, n: int) -> nat
    decreases n,
{
    if n <= 0 {
        0
    } else {
        written_days(ds, today, n - 1) + if has_day(ds, today - (n - 1)) {
            1nat
        } else {
            0nat
        }
    }
}

/// The two-line `last 7:` block: weekday initials over hit/miss marks for
/// the seven days ending today, oldest first, and the hits over the days
/// that count (an unwritten today does not).
pub open spec fn last_seven_text(ds: Seq<i32>, today: int, wd: int) -> Seq<char> {
    "last 7:      "@ + join_with(week_initials(wd), " "@) + "\n             "@ + join_with(
        week_marks(ds, today),
        " "@,
    ) + "   "@ + dec(written_days(ds, today, 7)) + "/"@ + dec(
        if has_day(ds, today) {
            7nat
        } else {
            6nat
        },
    )
}

/// The first letter of weekday `w`'s name.
fn initial(w: u32) -> (s: &'static str)
    requires
        w < 7,
    ensures
        s@ == seq![weekday_initial(w as int)],
{
    proof {
        reveal_strlit("M");
        reveal_strlit("T");
        reveal_strlit("W");
        reveal_strlit("F");
        reveal_strlit("S");
    }
    if w == 0 {
        "M"
    } else if w == 1 || w == 3 {
        "T"
    } else if w == 2 {
        "W"
    } else if w == 4 {
        "F"
    } else {
        "S"
    }
}

/// The `last 7:` block (see `last_seven_text`).
pub fn last_seven(dates: &[i32], today: &Day) -> (s: String)
    requires
        today.weekday < 7,
        today.num >= i32::MIN + 6,
    ensures
        s@ == last_seven_text(dates@, today.num as int, today.weekday as int),
{
    let mut initials = String::new();
    let mut marks = String::new();
    let mut hits: usize = 0;
    let today_written = contains_day(dates, today.num);
    let ghost ds = dates@;
    let ghost t = today.num as int;
    let ghost wd = today.weekday as int;
    let mut k: usize = 0;
    while k < 7
        invariant
            k <= 7,
            ds == dates@,
            t == today.num,
            wd == today.weekday,
            today.weekday < 7,
            today.num >= i32::MIN + 6,
            today_written == has_day(ds, t),
            initials@ == join_with(week_initials(wd).take(k as int), " "@),
            marks@ == join_with(week_marks(ds, t).take(k as int), " "@),
            hits as int == written_days(ds, t, 7) - written_days(ds, t, 7 - k as int),
            hits <= k,
        decreases 7 - k,
    {
        let back = 6 - k as u32;
        let day: i32 = today.num - back as i32;
        let w = (today.weekday + 1 + k as u32) % 7;
        let written = contains_day(dates, day);
        proof {
            reveal_strlit(" ");
            reveal_strlit("·");
            reveal_strlit("●");
            reveal_strlit("○");
            assert(week_initials(wd).take(k + 1) =~= week_initials(wd).take(k as int).push(
                seq![weekday_initial(w as int)],
            ));
            assert(week_marks(ds, t).take(k + 1) =~= week_marks(ds, t).take(k as int).push(
                day_mark(ds, t, back as int),
            ));
            lemma_join_with_push(week_initials(wd).take(k as int), " "@, seq![weekday_initial(w as int)]);
            lemma_join_with_push(week_marks(ds, t).take(k as int), " "@, day_mark(ds, t, back as int));
            assert(written_days(ds, t, 7 - k as int) == written_days(ds, t, 6 - k as int) + if has_day(
                ds,
                t - back,
            ) {
                1nat
            } else {
                0nat
            });
        }
        if k > 0 {
            push_str(&mut initials, " ");
            push_str(&mut marks, " ");
        }
        push_str(&mut initials, initial(w));
        if back == 0 && !written {
            push_str(&mut marks, "·");
        } else if written {
            push_str(&mut marks, "●");
        } else {
            push_str(&mut marks, "○");
        }
        if written {
            hits = hits + 1;
        }
        k = k + 1;
    }
    proof {
        assert(week_initials(wd).take(7) =~= week_initials(wd));
        assert(week_marks(ds, t).take(7) =~= week_marks(ds, t));
    }
    let denom: usize = if today_written {
        7
    } else {
        6
    };
    let mut s = owned("last 7:      ");
    push_str(&mut s, initials.as_str());
    push_str(&mut s, "\n             ");
    push_str(&mut s, marks.as_str());
    push_str(&mut s, "   ");
    push_usize(&mut s, hits);
    push_str(&mut s, "/");
    push_usize(&mut s, denom);
    s
}

// ---------------------------------------------------------------------------
// Notes and words
// ---------------------------------------------------------------------------

/// The spans of days the screen totals.
#[derive(Clone, Copy, Debug, PartialEq, Eq, Structural)]
pub enum Bucket {
    /// Monday of today's week through today.
    Week,
    /// Today's calendar month.
    Month,
    /// Every note.
    All,
}

/// Whether note `m` falls in `bucket` as seen from `today`.
pub open spec fn in_bucket(m: NoteMeta, today: Day, bucket: Bucket) -> bool {
    match bucket {
        Bucket::Week => today.num - today.weekday <= m.date.num <= today.num,
        Bucket::Month => m.date.year == today.year && m.date.month == today.month,
        Bucket::All => true,
    }
}

/// The notes among `ms` that fall in `bucket`, in order.
pub open spec fn bucket_notes(ms: Seq<NoteMeta>, today: Day, bucket: Bucket) -> Seq<NoteMeta>
    decreases ms.len(),
{
    if ms.len() == 0 {
        Seq::empty()
    } else if in_bucket(ms.last(), today, bucket) {
        bucket_notes(ms.drop_last(), today, bucket).push(ms.last())
    } else {
        bucket_notes(ms.drop_last(), today, bucket)
    }
}

/// This month's tally counts exactly the notes written in today's year and
/// month: every note it counts is from them, and every note from them is
/// counted.
pub proof fn lemma_month_is_this_year_and_month(ms: Seq<NoteMeta>, today: Day)
    ensures
        forall|i: int|
            0 <= i < bucket_notes(ms, today, Bucket::Month).len() ==> {
                &&& (#[trigger] bucket_notes(ms, today, Bucket::Month)[i]).date.year == today.year
                &&& bucket_notes(ms, today, Bucket::Month)[i].date.month == today.month
            },
        forall|j: int|
            0 <= j < ms.len() && (#[trigger] ms[j]).date.year == today.year && ms[j].date.month
                == today.month ==> bucket_notes(ms, today, Bucket::Month).contains(ms[j]),
    decreases ms.len(),
{
    if ms.len() > 0 {
        let rest = ms.drop_last();
        lemma_month_is_this_year_and_month(rest, today);
        let b = bucket_notes(ms, today, Bucket::Month);
        let br = bucket_notes(rest, today, Bucket::Month);
        assert forall|j: int|
            0 <= j < ms.len() && (#[trigger] ms[j]).date.year == today.year && ms[j].date.month
                == today.month implies b.contains(ms[j]) by {
            if j < ms.len() - 1 {
                assert(rest[j] == ms[j]);
                let k = choose|k: int| 0 <= k < br.len() && br[k] == ms[j];
                assert(b[k] == br[k]);
            } else {
                assert(b[b.len() - 1] == ms[j]);
            }
        }
    }
}

/// The words of the notes `ms`, summed.
pub open spec fn words_sum(ms: Seq<NoteMeta>) -> nat
    decreases ms.len(),
{
    if ms.len() == 0 {
        0
    } else {
        words_sum(ms.drop_last()) + ms.last().words as nat
    }
}

/// `"{n} note{s} · {words} words"` for the notes `ms`.
pub open spec fn tally_text(ms: Seq<NoteMeta>) -> Seq<char> {
    dec(ms.len()) + " note"@ + (if ms.len() == 1 {
        ""@
    } else {
        "s"@
    }) + " · "@ + dec(words_sum(ms)) + " words"@
}

proof fn lemma_bucket_words(ms: Seq<NoteMeta>, today: Day, bucket: Bucket)
    ensures
        words_sum(bucket_notes(ms, today, bucket)) <= words_sum(ms),
        bucket_notes(ms, today, bucket).len() <= ms.len(),
    decreases ms.len(),
{
    if ms.len() > 0 {
        lemma_bucket_words(ms.drop_last(), today, bucket);
        let b = bucket_notes(ms.drop_last(), today, bucket);
        assert(b.push(ms.last()).drop_last() =~= b);
    }
}

proof fn lemma_words_prefix(ms: Seq<NoteMeta>, i: int)
    requires
        0 <= i <= ms.len(),
    ensures
        words_sum(ms.take(i)) <= words_sum(ms),
    decreases ms.len() - i,
{
    if i < ms.len() {
        lemma_words_prefix(ms, i + 1);
        assert(ms.take(i + 1).drop_last() =~= ms.take(i));
    } else {
        assert(ms.take(i) =~= ms);
    }
}

/// The `"{n} note{s} · {words} words"` line for the notes of `metas` that
/// fall in `bucket`.
fn notes_and_words(metas: &[NoteMeta], today: &Day, bucket: Bucket) -> (s: String)
    requires
        words_sum(metas@) <= usize::MAX,
    ensures
        s@ == tally_text(bucket_notes(metas@, *today, bucket)),
{
    let mut n: usize = 0;
    let mut words: usize = 0;
    let mut i: usize = 0;
    while i < metas.len()
        invariant
            i <= metas.len(),
            words_sum(metas@) <= usize::MAX,
            n == bucket_notes(metas@.take(i as int), *today, bucket).len(),
            words == words_sum(bucket_notes(metas@.take(i as int), *today, bucket)),
        decreases metas.len() - i,
    {
        let m = &metas[i];
        proof {
            assert(metas@.take(i + 1).drop_last() =~= metas@.take(i as int));
            assert(metas@.take(i + 1).last() == metas@[i as int]);
            lemma_bucket_words(metas@.take(i + 1), *today, bucket);
            lemma_words_prefix(metas@, i + 1);
        }
        let ghost b = bucket_notes(metas@.take(i as int), *today, bucket);
        proof {
            assert(b.push(*m).drop_last() =~= b);
        }
        let keep = match bucket {
            Bucket::Week => (today.num as i64) - (today.weekday as i64) <= m.date.num as i64
                && m.date.num <= today.num,
            Bucket::Month => m.date.year == today.year && m.date.month == today.month,
            Bucket::All => true,
        };
        if keep {
            n = n + 1;
            words = words + m.words;
        }
        i = i + 1;
    }
    assert(metas@.take(metas.len() as int) =~= metas@);
    let mut s = String::new();
    push_usize(&mut s, n);
    push_str(&mut s, " note");
    if n != 1 {
        push_str(&mut s, "s");
    }
    push_str(&mut s, " · ");
    push_usize(&mut s, words);
    push_str(&mut s, " words");
    proof {
        reveal_strlit("");
    }
    assert(s@ =~= tally_text(bucket_notes(metas@, *today, bucket)));
    s
}

// ---------------------------------------------------------------------------
// The screen
// ---------------------------------------------------------------------------

/// The days of the notes `ms`.
pub open spec fn days_of(ms: Seq<NoteMeta>) -> Seq<i32> {
    Seq::new(ms.len(), |i: int| ms[i].date.num)
}

/// The first of the notes among the first `n` of `ms` with the earliest day.
pub open spec fn earliest(ms: Seq<NoteMeta>, n: int) -> int
    decreases n,
{
    if n <= 1 {
        0
    } else {
        let j = earliest(ms, n - 1);
        if ms[n - 1].date.num < ms[j].date.num {
            n - 1
        } else {
            j
        }
    }
}

proof fn lemma_earliest_bounds(ms: Seq<NoteMeta>, n: int)
    requires
        1 <= n,
    ensures
        0 <= earliest(ms, n) < n,
    decreases n,
{
    if n > 1 {
        lemma_earliest_bounds(ms, n - 1);
    }
}

/// The plain-text `cassette stats` screen: streak, the last seven days,
/// this week's, this month's and all notes with their words, the day of the
/// first note, and a count of unreadable cassette files when there are any.
pub open spec fn stats_text(ms: Seq<NoteMeta>, today: Day, unreadable: nat) -> Seq<char> {
    if ms.len() == 0 {
        "no notes yet — the first session starts the count"@
    } else {
        let ds = days_of(ms);
        let days = streak_of(ds, today.num as int);
        "streak:      "@ + dec(days as nat) + " day"@ + (if days == 1 {
            ""@
        } else {
            "s"@
        }) + "\n"@ + last_seven_text(ds, today.num as int, today.weekday as int)
            + "\nthis week:   "@ + tally_text(bucket_notes(ms, today, Bucket::Week))
            + "\nthis month:  "@ + tally_text(bucket_notes(ms, today, Bucket::Month))
            + "\ntotal:       "@ + tally_text(bucket_notes(ms, today, Bucket::All)) + " · since "@
            + ms[earliest(ms, ms.len() as int)].date.text@ + if unreadable > 0 {
            "\n"@ + dec(unreadable) + " unreadable"@
        } else {
            Seq::<char>::empty()
        }
    }
}

/// The plain-text `cassette stats` screen (see `stats_text`).
pub fn render(metas: &[NoteMeta], today: Day, unreadable: usize) -> (s: String)
    requires
        metas@.len() > 0 ==> {
            &&& today.weekday < 7
            &&& today.num >= i32::MIN + 6
            &&& forall|i: int| 0 <= i < metas@.len() ==> metas@[i].date.num > i32::MIN
        },
        words_sum(metas@) <= usize::MAX,
    ensures
        s@ == stats_text(metas@, today, unreadable as nat),
{
    if metas.len() == 0 {
        return owned("no notes yet — the first session starts the count");
    }
    let mut dates: Vec<i32> = Vec::new();
    let mut first: usize = 0;
    let mut i: usize = 0;
    while i < metas.len()
        invariant
            i <= metas.len(),
            metas@.len() > 0,
            dates@ == days_of(metas@.take(i as int)),
            i > 0 ==> first == earliest(metas@, i as int),
            i > 0 ==> first < i,
            i == 0 ==> first == 0,
        decreases metas.len() - i,
    {
        if i > 0 && metas[i].date.num < metas[first].date.num {
            first = i;
        }
        dates.push(metas[i].date.num);
        assert(dates@ =~= days_of(metas@.take(i + 1)));
        i = i + 1;
    }
    assert(metas@.take(metas.len() as int) =~= metas@);
    let days = streak(dates.as_slice(), today.num);
    let week = notes_and_words(metas, &today, Bucket::Week);
    let month = notes_and_words(metas, &today, Bucket::Month);
    let total = notes_and_words(metas, &today, Bucket::All);
    let seven = last_seven(dates.as_slice(), &today);
    let mut s = owned("streak:      ");
    push_dec(&mut s, days as u64);
    push_str(&mut s, " day");
    if days != 1 {
        push_str(&mut s, "s");
    }
    push_str(&mut s, "\n");
    push_str(&mut s, seven.as_str());
    push_str(&mut s, "\nthis week:   ");
    push_str(&mut s, week.as_str());
    push_str(&mut s, "\nthis month:  ");
    push_str(&mut s, month.as_str());
    push_str(&mut s, "\ntotal:       ");
    push_str(&mut s, total.as_str());
    push_str(&mut s, " · since ");
    push_str(&mut s, metas[first].date.text.as_str());
    if unreadable > 0 {
        push_str(&mut s, "\n");
        push_usize(&mut s, unreadable);
        push_str(&mut s, " unreadable");
    }
    proof {
        reveal_strlit("");
    }
    assert(s@ =~= stats_text(metas@, today, unreadable as nat));
    s
}

} // verus!
