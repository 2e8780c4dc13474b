//! Dates read from session records and from the configuration: the local
//! day and time a session's `created` stamp names, and whether a
//! `daily_format` is a date format at all.

use vstd::prelude::*;

use chrono::format::StrftimeItems;
use chrono::{DateTime, Datelike, Local, Timelike};

use crate::find::{Stamp, UNIX_EPOCH_DAY};
use crate::queue::view::{parse_rfc3339, rfc3339_instant};
use crate::stats::{days_from_civil, ymd_ok, Day};
use crate::text::{owned, push_str};

verus! {

/// The local wall-clock reading `(year, month, day, seconds past
/// midnight)` of the instant `t` seconds after the Unix epoch, as seconds
/// counted on the same scale as `t`.
pub open spec fn local_seconds(r: (i32, u32, u32, u32)) -> int {
    (days_from_civil(r.0 as int, r.1 as int, r.2 as int) - UNIX_EPOCH_DAY) * 86400 + r.3
}

/// `DateTime::from_timestamp` of `t` (whole seconds) taken to the machine's
/// time zone with `with_timezone(&Local)`, read as its local date and
/// non-leap seconds past midnight. The time zone is the machine's, so
/// nothing names the result; what holds of every outcome is that it is a
/// calendar date and time, and that a time zone's offset is less than a day,
/// so the local reading lies within a day of `t`. Within the range asked,
/// `from_timestamp` always succeeds and the local time stays inside chrono's
/// calendar.
#[verifier::external_body]
fn local_time(t: i64) -> (r: (i32, u32, u32, u32))
    requires
        -62_300_000_000 <= t <= 253_500_000_000,
    ensures
        ymd_ok(r.0 as int, r.1 as int, r.2 as int),
        r.3 < 86400,
        t - 86400 < local_seconds(r) < t + 86400,
{
    let l = DateTime::from_timestamp(t, 0).expect("a timestamp within chrono's range").with_timezone(
        &Local,
    ).naive_local();
    (l.year(), l.month(), l.day(), l.num_seconds_from_midnight())
}

/// The day number of the UTC day instant `t` falls on.
pub open spec fn utc_day(t: int) -> int {
    t / 86400 + UNIX_EPOCH_DAY
}

/// A session's `created` stamp (RFC 3339) as the local date and time it
/// names: `None` exactly when the stamp is not RFC 3339. The stamp keeps
/// the instant's nanoseconds, and its local reading lies within a day of
/// the instant.
pub fn session_stamp(created: &str) -> (r: Option<Stamp>)
    ensures
        (r is Some) == (rfc3339_instant(created@) is Some),
        r matches Some(s) ==> {
            let (t, n) = rfc3339_instant(created@)->0;
            &&& s.nanos == n
            &&& s.key.1 == n
            &&& t - 86400 < s.key.0 < t + 86400
        },
{
    match parse_rfc3339(created) {
        Some((t, n)) => {
            let l = local_time(t);
            let s = Stamp::from_parts(l.0, l.1, l.2, l.3, n);
            assert(s.key.0 as int == local_seconds(l));
            Some(s)
        },
        None => None,
    }
}

/// A session's `created` stamp (RFC 3339) as the local day it fell on:
/// `None` exactly when the stamp is not RFC 3339, and otherwise a day
/// within one of the UTC day of the instant.
pub fn session_day(created: &str) -> (r: Option<Day>)
    ensures
        (r is Some) == (rfc3339_instant(created@) is Some),
        r matches Some(d) ==> {
            let t = (rfc3339_instant(created@)->0).0 as int;
            utc_day(t) - 1 <= d.num <= utc_day(t) + 1
        },
{
    match parse_rfc3339(created) {
        Some((t, _)) => {
            let l = local_time(t);
            let d = Day::from_ymd(l.0, l.1, l.2);
            Some(d)
        },
        None => None,
    }
}

/// The format `fmt` is a chrono strftime format: reading it yields no
/// error item.
pub uninterp spec fn strftime_valid(fmt: Seq<char>) -> bool;

/// `StrftimeItems::parse`: whether `fmt` reads as a strftime format with no
/// error item (named `strftime_valid`).
#[verifier::external_body]
fn strftime_ok(fmt: &str) -> (b: bool)
    ensures
        b == strftime_valid(fmt@),
{
    StrftimeItems::new(fmt).parse().is_ok()
}

/// Why a `daily_format` cannot name today's session.
pub open spec fn invalid_daily_format(fmt: Seq<char>) -> Seq<char> {
    "invalid daily_format '"@ + fmt
        + "' in config.toml \u{2014} expected a chrono date format like %Y-%m-%d"@
}

/// The refusal a `daily_format` earns, if any: none exactly when it is a
/// strftime format.
pub fn daily_format_error(fmt: &str) -> (r: Option<String>)
    ensures
        (r is None) == strftime_valid(fmt@),
        r matches Some(m) ==> m@ == invalid_daily_format(fmt@),
{
    if strftime_ok(fmt) {
        None
    } else {
        let mut m = owned("invalid daily_format '");
        push_str(&mut m, fmt);
        push_str(&mut m, "' in config.toml \u{2014} expected a chrono date format like %Y-%m-%d");
        Some(m)
    }
}

} // verus!
