//! Session listings: one line per session, newest first as the store
//! returns them, capped with a count of what was left out.

use vstd::prelude::*;

use crate::store::SessionMeta;
use crate::text::{dec, join_nl, lemma_join_nl_push, owned, push_char, push_str, push_usize};

verus! {

/// How many sessions a listing shows before it needs asking.
pub const DEFAULT_LIST_LIMIT: usize = 15;

/// Why a session command failed.
#[derive(Debug)]
pub enum SessionError {
    /// Bad invocation — e.g. an unknown session id. Exit 2.
    Usage(String),
    /// Anything else. Exit 1.
    Io(String),
}

impl SessionError {
    /// The message, whatever the variant.
    pub fn message(&self) -> (m: String)
        ensures
            m@ == match *self {
                SessionError::Usage(s) => s@,
                SessionError::Io(s) => s@,
            },
    {
        match self {
            SessionError::Usage(m) => owned(m.as_str()),
            SessionError::Io(m) => owned(m.as_str()),
        }
    }
}

/// One listing row: `"<id>  <created>  <alias>"`.
pub open spec fn session_row(id: String, m: SessionMeta) -> Seq<char> {
    id@ + "  "@ + m.created@ + "  "@ + match m.alias {
        Some(a) => a@,
        None => Seq::empty(),
    }
}

/// The first `n` listing rows.
pub open spec fn session_rows(rows: Seq<(String, SessionMeta)>, n: int) -> Seq<Seq<char>> {
    Seq::new(n as nat, |i: int| session_row(rows[i].0, rows[i].1))
}

/// How many rows a listing shows.
pub open spec fn shown_rows(total: int, limit: Option<usize>) -> int {
    match limit {
        Some(l) => if l < total {
            l as int
        } else {
            total
        },
        None => total,
    }
}

/// The listing: `"no sessions"` when there are none; otherwise the first
/// rows in the order given, then `"… N more (--all)"` when the limit hid
/// some.
pub open spec fn session_listing(rows: Seq<(String, SessionMeta)>, limit: Option<usize>) -> Seq<
    char,
> {
    if rows.len() == 0 {
        "no sessions"@
    } else {
        let shown = shown_rows(rows.len() as int, limit);
        let lines = session_rows(rows, shown);
        if shown < rows.len() {
            join_nl(lines.push("… "@ + dec((rows.len() - shown) as nat) + " more (--all)"@))
        } else {
            join_nl(lines)
        }
    }
}

/// Render one line per row, in the order given (the store's order). With a
/// `limit` that hides rows, the last line says how many were hidden.
pub fn render_list(rows: &[(String, SessionMeta)], limit: Option<usize>) -> (out: String)
    ensures
        out@ == session_listing(rows@, limit),
{
    if rows.len() == 0 {
        return owned("no sessions");
    }
    let total = rows.len();
    let shown = match limit {
        Some(l) => if l < total {
            l
        } else {
            total
        },
        None => total,
    };
    let ghost lines = session_rows(rows@, shown as int);
    let mut out = String::new();
    let mut i: usize = 0;
    while i < shown
        invariant
            i <= shown <= rows.len(),
            lines == session_rows(rows@, shown as int),
            out@ == join_nl(lines.take(i as int)),
        decreases shown - i,
    {
        let (id, m) = &rows[i];
        let ghost row = session_row(rows@[i as int].0, rows@[i as int].1);
        let ghost before = out@;
        if i > 0 {
            push_char(&mut out, '\n');
        }
        push_str(&mut out, id.as_str());
        push_str(&mut out, "  ");
        push_str(&mut out, m.created.as_str());
        push_str(&mut out, "  ");
        match &m.alias {
            Some(a) => push_str(&mut out, a.as_str()),
            None => {},
        }
        proof {
            lemma_join_nl_push(lines.take(i as int), row);
            assert(lines.take(i + 1) =~= lines.take(i as int).push(row));
            if i > 0 {
                assert(out@ =~= before + seq!['\n'] + row);
            } else {
                assert(out@ =~= row);
            }
        }
        i = i + 1;
    }
    assert(lines.take(shown as int) =~= lines);
    assert(shown as int == shown_rows(rows@.len() as int, limit));
    if shown < total {
        let ghost before = out@;
        let ghost more = "… "@ + dec((total - shown) as nat) + " more (--all)"@;
        if shown > 0 {
            push_char(&mut out, '\n');
        }
        push_str(&mut out, "… ");
        push_usize(&mut out, total - shown);
        push_str(&mut out, " more (--all)");
        proof {
            lemma_join_nl_push(lines, more);
            if shown > 0 {
                assert(out@ =~= before + seq!['\n'] + more);
            } else {
                assert(out@ =~= more);
            }
        }
    }
    out
}

} // verus!
