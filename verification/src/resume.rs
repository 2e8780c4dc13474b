//! Opening a stored session in the editor: how a writer id is shown, and
//! how the cassettes a scan read come back as editable cassettes.

use vstd::prelude::*;

use crate::app::{clone_topic, opt_view};
use crate::cassette::{Cassette, Side};
use crate::queue::json::{body_sides, split_sides};
use crate::queue::view::find_writer;
use crate::store::{Damaged, SessionScan, Status, StoredCassette, Writer};
use crate::cli::Args;
use crate::text::{owned, push_str, str_eq, trim, trimmed};

verus! {

/// The name the writer id `id` is shown by: its registered name, or the id
/// itself when the registry `ws` does not know it.
pub open spec fn display_name_of(ws: Seq<Writer>, id: Seq<char>) -> Seq<char> {
    let k = find_writer(ws, id, 0);
    if k < ws.len() {
        ws[k].name@
    } else {
        id
    }
}

/// The name to show for writer id `id` (see `display_name_of`).
pub fn display_name(writers: &[Writer], id: &str) -> (s: String)
    ensures
        s@ == display_name_of(writers@, id@),
{
    let mut i: usize = 0;
    while i < writers.len()
        invariant
            i <= writers.len(),
            find_writer(writers@, id@, 0) == find_writer(writers@, id@, i as int),
        decreases writers.len() - i,
    {
        if str_eq(writers[i].id.as_str(), id) {
            return writers[i].name.clone();
        }
        i = i + 1;
    }
    owned(id)
}

/// How a sticky lock held by writer id `l` is shown.
pub open spec fn lock_name(ws: Seq<Writer>, l: Option<String>) -> Option<Seq<char>> {
    match l {
        Some(id) => Some(display_name_of(ws, id@)),
        None => None,
    }
}

/// `c` is the stored cassette `s` opened for editing: its two sides (split
/// off the body and trimmed) with both cursors at the end and no undo
/// history, its topic, id, priority and status, and the name of the writer
/// holding its sticky lock.
pub open spec fn loaded_from(c: Cassette, s: StoredCassette, ws: Seq<Writer>) -> bool {
    let sides = body_sides(s.body@);
    &&& c.side == Side::A
    &&& c.text_seq() == trim(sides.0)
    &&& c.cursor() == trim(sides.0).len()
    &&& c.back_seq() == trim(sides.1)
    &&& c.back_cursor() == trim(sides.1).len()
    &&& c.undo_seq() == Seq::<(Seq<char>, Seq<char>)>::empty()
    &&& c.back_undo_seq() == Seq::<(Seq<char>, Seq<char>)>::empty()
    &&& c.topic == s.meta.topic
    &&& c.id@ == s.meta.id@
    &&& c.priority == s.meta.priority
    &&& c.closed == (s.meta.status == Status::Closed)
    &&& !c.dirty
    &&& opt_view(c.locked_by) == lock_name(ws, s.meta.locked_by)
}

/// The stored cassette `s` opened for editing (see `loaded_from`).
pub fn cassette_of(s: &StoredCassette, writers: &[Writer]) -> (c: Cassette)
    ensures
        loaded_from(c, *s, writers@),
{
    let (a, b) = split_sides(s.body.as_str());
    let mut c = Cassette::from_sides(
        trimmed(a.as_str()),
        trimmed(b.as_str()),
        clone_topic(&s.meta.topic),
    );
    c.id = s.meta.id.clone();
    c.priority = s.meta.priority;
    c.closed = match s.meta.status {
        Status::Closed => true,
        Status::Open => false,
    };
    c.locked_by = match &s.meta.locked_by {
        Some(id) => Some(display_name(writers, id.as_str())),
        None => None,
    };
    c
}

/// A damaged file as the editor lists it: its label and the reason.
pub open spec fn damaged_entry(d: Damaged, e: (String, String)) -> bool {
    e.0@ == d.label@ && e.1@ == d.reason@
}

/// A session's scan read back into the editor, in the scan's (queue) order:
/// every readable cassette opened for editing, closed ones included, and
/// every damaged file as its label and reason. `writers` names the holders
/// of sticky locks.
pub fn load_session_cassettes(scan: &SessionScan, writers: &[Writer]) -> (r: (
    Vec<Cassette>,
    Vec<(String, String)>,
))
    ensures
        r.0@.len() == scan.cassettes@.len(),
        forall|i: int|
            0 <= i < scan.cassettes@.len() ==> loaded_from(
                #[trigger] r.0@[i],
                scan.cassettes@[i],
                writers@,
            ),
        r.1@.len() == scan.damaged@.len(),
        forall|i: int|
            0 <= i < scan.damaged@.len() ==> damaged_entry(scan.damaged@[i], #[trigger] r.1@[i]),
{
    let mut damaged: Vec<(String, String)> = Vec::new();
    let mut i: usize = 0;
    while i < scan.damaged.len()
        invariant
            i <= scan.damaged@.len(),
            damaged@.len() == i,
            forall|k: int| 0 <= k < i ==> damaged_entry(scan.damaged@[k], #[trigger] damaged@[k]),
        decreases scan.damaged@.len() - i,
    {
        let d = &scan.damaged[i];
        damaged.push((d.label(), d.reason.clone()));
        i = i + 1;
    }
    let mut cassettes: Vec<Cassette> = Vec::new();
    let mut j: usize = 0;
    while j < scan.cassettes.len()
        invariant
            j <= scan.cassettes@.len(),
            cassettes@.len() == j,
            forall|k: int|
                0 <= k < j ==> loaded_from(#[trigger] cassettes@[k], scan.cassettes@[k], writers@),
        decreases scan.cassettes@.len() - j,
    {
        cassettes.push(cassette_of(&scan.cassettes[j], writers));
        j = j + 1;
    }
    (cassettes, damaged)
}

/// Which store session a launch writes to.
#[derive(Debug)]
pub enum SessionChoice {
    /// Open the existing session with this id.
    Open(String),
    /// Create a new session, aliased when an alias is given.
    Create(Option<String>),
}

/// Index of the first session in `ss` at or after `i` aliased `alias`, or
/// the length when there is none.
pub open spec fn alias_index(ss: Seq<(String, Option<String>)>, alias: Seq<char>, i: int) -> int
    decreases ss.len() - i,
{
    if i < 0 || i >= ss.len() {
        ss.len() as int
    } else if ss[i].1 matches Some(a) && a@ == alias {
        i
    } else {
        alias_index(ss, alias, i + 1)
    }
}

/// Why `resume NAME` cannot open anything.
pub open spec fn no_session_message(name: Seq<char>) -> Seq<char> {
    "no session named '"@ + name + "' \u{2014} `cassette session list` shows what exists"@
}

/// Why `today` with a template cannot seed an existing day.
pub open spec fn seeded_message(date: Seq<char>) -> Seq<char> {
    "today's session ('"@ + date
        + "') already exists, so '-T' has nothing to seed \u{2014} drop '-T' to continue today's session, or start a separate one with 'cassette -T <template>'"@
}

/// The newest session aliased `alias`, if any.
fn newest_aliased(sessions: &[(String, Option<String>)], alias: &str) -> (r: Option<usize>)
    ensures
        match r {
            Some(k) => k < sessions@.len() && alias_index(sessions@, alias@, 0) == k,
            None => alias_index(sessions@, alias@, 0) == sessions@.len(),
        },
{
    let mut i: usize = 0;
    while i < sessions.len()
        invariant
            i <= sessions@.len(),
            alias_index(sessions@, alias@, 0) == alias_index(sessions@, alias@, i as int),
        decreases sessions@.len() - i,
    {
        let hit = match &sessions[i].1 {
            Some(a) => str_eq(a.as_str(), alias),
            None => false,
        };
        if hit {
            return Some(i);
        }
        i = i + 1;
    }
    None
}

/// The store session this launch writes to. `sessions` lists the store's
/// sessions newest first, each with its alias; aliases are not unique, so a
/// name means the newest session carrying it.
///
/// - `resume NAME` opens the newest session aliased `NAME`, else the session
///   whose id is `NAME` (`named_id_exists`: the caller found one), else
///   fails; `resume` alone opens the newest session, and fails when there is
///   none.
/// - `today` (`daily` is today's note name) opens the session aliased with
///   it, refusing a template it could not seed, else creates one so
///   aliased.
/// - Otherwise a new session is created, aliased with the note name if one
///   was given.
pub fn choose_session(
    args: &Args,
    sessions: &[(String, Option<String>)],
    named_id_exists: bool,
    daily: Option<&str>,
) -> (r: Result<SessionChoice, String>)
    ensures
        match args.resume {
            Some(Some(name)) => {
                let k = alias_index(sessions@, name@, 0);
                if k < sessions@.len() {
                    r matches Ok(SessionChoice::Open(id)) && id@ == sessions@[k].0@
                } else if named_id_exists {
                    r matches Ok(SessionChoice::Open(id)) && id@ == name@
                } else {
                    r matches Err(m) && m@ == no_session_message(name@)
                }
            },
            Some(None) => if sessions@.len() > 0 {
                r matches Ok(SessionChoice::Open(id)) && id@ == sessions@[0].0@
            } else {
                r matches Err(m) && m@ == "no sessions to resume"@
            },
            None => match daily {
                Some(d) => {
                    let k = alias_index(sessions@, d@, 0);
                    if k < sessions@.len() {
                        if args.template is Some {
                            r matches Err(m) && m@ == seeded_message(d@)
                        } else {
                            r matches Ok(SessionChoice::Open(id)) && id@ == sessions@[k].0@
                        }
                    } else {
                        r matches Ok(SessionChoice::Create(Some(a))) && a@ == d@
                    }
                },
                None => r matches Ok(SessionChoice::Create(a)) && opt_view(a) == opt_view(
                    args.note_name,
                ),
            },
        },
{
    match &args.resume {
        Some(Some(name)) => match newest_aliased(sessions, name.as_str()) {
            Some(k) => Ok(SessionChoice::Open(sessions[k].0.clone())),
            None => {
                if named_id_exists {
                    Ok(SessionChoice::Open(name.clone()))
                } else {
                    let mut m = owned("no session named '");
                    push_str(&mut m, name.as_str());
                    push_str(&mut m, "' \u{2014} `cassette session list` shows what exists");
                    Err(m)
                }
            },
        },
        Some(None) => {
            if sessions.len() > 0 {
                Ok(SessionChoice::Open(sessions[0].0.clone()))
            } else {
                Err(owned("no sessions to resume"))
            }
        },
        None => match daily {
            Some(d) => match newest_aliased(sessions, d) {
                Some(k) => {
                    if args.template.is_some() {
                        let mut m = owned("today's session ('");
                        push_str(&mut m, d);
                        push_str(
                            &mut m,
                            "') already exists, so '-T' has nothing to seed \u{2014} drop '-T' to continue today's session, or start a separate one with 'cassette -T <template>'",
                        );
                        Err(m)
                    } else {
                        Ok(SessionChoice::Open(sessions[k].0.clone()))
                    }
                },
                None => Ok(SessionChoice::Create(Some(owned(d)))),
            },
            None => Ok(SessionChoice::Create(clone_topic(&args.note_name))),
        },
    }
}

} // verus!
