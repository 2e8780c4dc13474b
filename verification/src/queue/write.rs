//! The body a write leaves behind: a cassette body in canonical form, and
//! what replacing or appending to one side does to it.

use vstd::prelude::*;

use crate::queue::json::{body_sides, split_sides};
use crate::app::clone_topic;
use crate::queue::QueueError;
use crate::store::{CassetteMeta, Kind, StoredCassette};
use crate::text::{chars_of, owned, push_char, push_str, string_of_range, trim, trimmed};

verus! {

/// Which side of a cassette a write targets.
#[derive(Clone, Copy, Debug, PartialEq, Eq, Structural)]
pub enum Side {
    A,
    B,
}

/// How a write combines the incoming text with what is on the side:
/// `Replace` overwrites it, `Append` adds a line after it.
#[derive(Clone, Copy, Debug, PartialEq, Eq, Structural)]
pub enum WriteMode {
    Append,
    Replace,
}

/// A cassette body in canonical form: `## Side A` and side A's trimmed text
/// always, then `## Side B` and side B's trimmed text only when side B has
/// any.
pub open spec fn body_of(a: Seq<char>, b: Seq<char>) -> Seq<char> {
    "## Side A\n\n"@ + trim(a) + "\n"@ + if trim(b).len() > 0 {
        "## Side B\n\n"@ + trim(b) + "\n"@
    } else {
        Seq::empty()
    }
}

/// Rebuild a cassette body in canonical form from its two sides. The
/// editor and `queue write` both write bodies through this, so a body never
/// depends on which of them touched it last.
pub fn build_body(side_a: &str, side_b: &str) -> (out: String)
    ensures
        out@ == body_of(side_a@, side_b@),
{
    let mut out = owned("## Side A\n\n");
    let a = trimmed(side_a);
    push_str(&mut out, a.as_str());
    push_str(&mut out, "\n");
    let b = trimmed(side_b);
    if b.as_str().unicode_len() > 0 {
        push_str(&mut out, "## Side B\n\n");
        push_str(&mut out, b.as_str());
        push_str(&mut out, "\n");
    }
    assert(out@ =~= body_of(side_a@, side_b@));
    out
}

/// `s` without its trailing `'\n'`s.
pub open spec fn strip_newlines(s: Seq<char>) -> Seq<char>
    decreases s.len(),
{
    if s.len() > 0 && s.last() == '\n' {
        strip_newlines(s.drop_last())
    } else {
        s
    }
}

/// `incoming` added after `current` as a new line: `current`'s trailing
/// newlines dropped, one `'\n'` between them unless nothing is left.
pub open spec fn appended(current: Seq<char>, incoming: Seq<char>) -> Seq<char> {
    let j = strip_newlines(current);
    if j.len() > 0 {
        j.push('\n') + incoming
    } else {
        incoming
    }
}

/// What a side holds after a write of `incoming` in `mode`.
pub open spec fn written_side(current: Seq<char>, incoming: Seq<char>, mode: WriteMode) -> Seq<
    char,
> {
    match mode {
        WriteMode::Replace => incoming,
        WriteMode::Append => appended(current, incoming),
    }
}

/// The body after writing `incoming` to `side` of `current` under `mode`;
/// the other side is carried through untouched.
pub open spec fn written_body(
    current: Seq<char>,
    incoming: Seq<char>,
    side: Side,
    mode: WriteMode,
) -> Seq<char> {
    let (a, b) = body_sides(current);
    match side {
        Side::A => body_of(written_side(a, incoming, mode), b),
        Side::B => body_of(a, written_side(b, incoming, mode)),
    }
}

/// `strip_newlines`, computed.
fn without_trailing_newlines(s: &str) -> (r: String)
    ensures
        r@ == strip_newlines(s@),
{
    let v = chars_of(s);
    let mut e = v.len();
    assert(v@.take(v.len() as int) =~= v@);
    while e > 0 && v[e - 1] == '\n'
        invariant
            e <= v.len(),
            v@ == s@,
            strip_newlines(s@) == strip_newlines(v@.take(e as int)),
        decreases e,
    {
        assert(v@.take(e as int).drop_last() =~= v@.take(e - 1));
        e = e - 1;
    }
    assert(v@.take(v.len() as int) =~= v@);
    let r = string_of_range(v.as_slice(), 0, e);
    assert(v@.subrange(0, e as int) =~= v@.take(e as int));
    r
}

/// `written_side`, computed.
fn write_side(current: String, incoming: &str, mode: WriteMode) -> (r: String)
    ensures
        r@ == written_side(current@, incoming@, mode),
{
    match mode {
        WriteMode::Replace => owned(incoming),
        WriteMode::Append => {
            let mut joined = without_trailing_newlines(current.as_str());
            if joined.as_str().unicode_len() > 0 {
                push_char(&mut joined, '\n');
            }
            push_str(&mut joined, incoming);
            joined
        },
    }
}

/// The new body for `current` after writing `incoming` to `side` under
/// `mode`: split into sides, replace or append to the named one, rebuild.
pub fn apply_write(current: &str, incoming: &str, side: Side, mode: WriteMode) -> (out: String)
    ensures
        out@ == written_body(current@, incoming@, side, mode),
{
    let (side_a, side_b) = split_sides(current);
    match side {
        Side::A => {
            let a = write_side(side_a, incoming, mode);
            build_body(a.as_str(), side_b.as_str())
        },
        Side::B => {
            let b = write_side(side_b, incoming, mode);
            build_body(side_a.as_str(), b.as_str())
        },
    }
}

/// Why an agent may not write a cassette `holder` claimed; `hint` says how
/// to act as oneself instead, when there is something to say.
pub open spec fn write_refusal(holder: Seq<char>, hint: Seq<char>) -> Seq<char> {
    "cassette is locked by '"@ + holder + "' \u{2014} only a human may write it"@ + hint
}

/// Whether a writer acting with `authority` may write over a cassette whose
/// sticky lock is held by the writer shown as `holder_name`: an agent may
/// not write over a sticky claim, and is told who holds it (and `hint`); a
/// human always may, and so may anyone where nothing is claimed.
pub fn write_permitted(authority: Kind, holder_name: Option<&str>, hint: &str) -> (r: Result<
    (),
    QueueError,
>)
    ensures
        (authority == Kind::Agent && holder_name is Some) <==> r is Err,
        r matches Err(e) ==> e matches QueueError::Sticky(m) && m@ == write_refusal(
            holder_name->0@,
            hint@,
        ),
{
    match (authority, holder_name) {
        (Kind::Agent, Some(name)) => {
            let mut m = owned("cassette is locked by '");
            push_str(&mut m, name);
            push_str(&mut m, "' \u{2014} only a human may write it");
            push_str(&mut m, hint);
            Err(QueueError::Sticky(m))
        },
        _ => Ok(()),
    }
}

/// What a write leaves of the cassette `current`, read under its lock: the
/// sticky-lock check first (see `write_permitted`; `holder_name` is how its
/// `locked_by` shows), then the body with `incoming` written to `side` under
/// `mode`, and the frontmatter with only the last writer (`writer`) and the
/// time (`now`) replaced.
pub fn write_step(
    current: &StoredCassette,
    incoming: &str,
    side: Side,
    mode: WriteMode,
    authority: Kind,
    holder_name: Option<&str>,
    hint: &str,
    writer: &str,
    now: String,
) -> (r: Result<(CassetteMeta, String), QueueError>)
    requires
        (current.meta.locked_by is Some) == (holder_name is Some),
    ensures
        (authority == Kind::Agent && holder_name is Some) <==> r is Err,
        r matches Err(e) ==> e matches QueueError::Sticky(m) && m@ == write_refusal(
            holder_name->0@,
            hint@,
        ),
        r matches Ok((m, body)) ==> {
            &&& m == (CassetteMeta {
                last_writer: m.last_writer,
                updated_at: now,
                ..current.meta
            })
            &&& m.last_writer@ == writer@
            &&& body@ == written_body(current.body@, incoming@, side, mode)
        },
{
    match write_permitted(authority, holder_name, hint) {
        Err(e) => Err(e),
        Ok(()) => {
            let body = apply_write(current.body.as_str(), incoming, side, mode);
            let c = &current.meta;
            let m = CassetteMeta {
                id: c.id.clone(),
                topic: clone_topic(&c.topic),
                priority: c.priority,
                status: c.status,
                locked_by: clone_topic(&c.locked_by),
                created_by: c.created_by.clone(),
                last_writer: owned(writer),
                updated_at: now,
            };
            Ok((m, body))
        },
    }
}

} // verus!
