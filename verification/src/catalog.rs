//! The session catalog behind `cassette sessions`: one `NoteEntry` per
//! session, with what the picker shows and what its `/` filter matches.

use vstd::prelude::*;

use chrono::NaiveDateTime;

use crate::find::{build_haystack, cassettes_words, haystack_of, session_word_count, views};
use crate::store::StoredCassette;
use crate::text::{chars_of, owned, push_char, push_str, range_eq};

verus! {

/// A session's local date and time, carried through to the picker's rows.
#[verifier::external_type_specification]
#[verifier::external_body]
pub struct ExNaiveDateTime(NaiveDateTime);

/// `needle` occurs in `hay` starting at `i`.
pub open spec fn occurs_at(hay: Seq<char>, needle: Seq<char>, i: int) -> bool {
    0 <= i <= hay.len() - needle.len() && hay.subrange(i, i + needle.len()) == needle
}

/// `needle` occurs in `hay` as a run of consecutive characters.
pub open spec fn occurs_in(hay: Seq<char>, needle: Seq<char>) -> bool {
    exists|i: int| #[trigger] occurs_at(hay, needle, i)
}

/// Whether `needle` occurs in `hay`.
pub fn contains_text(hay: &str, needle: &str) -> (r: bool)
    ensures
        r == occurs_in(hay@, needle@),
{
    let h = chars_of(hay);
    let n = chars_of(needle);
    if n.len() > h.len() {
        assert forall|j: int| !occurs_at(h@, n@, j) by {}
        return false;
    }
    let last = h.len() - n.len();
    assert(n@.subrange(0, n.len() as int) =~= n@);
    let mut i: usize = 0;
    while i < last
        invariant
            last == h.len() - n.len(),
            i <= last,
            h@ == hay@,
            n@ == needle@,
            n@.subrange(0, n.len() as int) == n@,
            forall|j: int| 0 <= j < i ==> !#[trigger] occurs_at(h@, n@, j),
        decreases last - i,
    {
        if range_eq(h.as_slice(), i, i + n.len(), n.as_slice(), 0, n.len()) {
            assert(occurs_at(h@, n@, i as int));
            return true;
        }
        i = i + 1;
    }
    if range_eq(h.as_slice(), last, h.len(), n.as_slice(), 0, n.len()) {
        assert(occurs_at(h@, n@, last as int));
        return true;
    }
    assert forall|j: int| !occurs_at(h@, n@, j) by {
        if 0 <= j < last {
        }
    }
    false
}

/// One session as the `cassette sessions` picker shows it.
pub struct NoteEntry {
    /// The session id, which `cassette resume <id>` accepts as-is.
    pub id: String,
    /// The session's display label, where it has one.
    pub alias: Option<String>,
    pub date: NaiveDateTime,
    pub words: usize,
    pub topics: Vec<String>,
    /// What the filter matches: built with the entry, never edited.
    pub haystack: Haystack,
}

/// The lowercased text a session is matched by; only the catalog builds
/// one.
pub struct Haystack {
    text: String,
}

impl Haystack {
    pub closed spec fn view(&self) -> Seq<char> {
        self.text@
    }

    /// A haystack holding `text`.
    pub(crate) fn of_text(text: String) -> (h: Haystack)
        ensures
            h.view() == text@,
    {
        Haystack { text }
    }

    /// Whether `query` occurs in the haystack.
    pub fn contains(&self, query: &str) -> (r: bool)
        ensures
            r == occurs_in(self.view(), query@),
    {
        contains_text(self.text.as_str(), query)
    }
}

/// `Some(s@)` for `Some(s)`.
pub open spec fn opt_view(a: Option<&str>) -> Option<Seq<char>> {
    match a {
        Some(s) => Some(s@),
        None => None,
    }
}

/// The text a session's cassette bodies are matched by: the bodies, one
/// after another, a `'\n'` between each two.
pub open spec fn bodies_text(cs: Seq<StoredCassette>) -> Seq<char>
    decreases cs.len(),
{
    if cs.len() == 0 {
        Seq::empty()
    } else if cs.len() == 1 {
        cs[0].body@
    } else {
        bodies_text(cs.drop_last()) + seq!['\n'] + cs.last().body@
    }
}

impl NoteEntry {
    /// Everything a filter is matched against, lowercased: the id, the
    /// alias, the topics and the cassettes' bodies.
    pub open spec fn hay(&self) -> Seq<char> {
        self.haystack.view()
    }

    /// Whether this session matches an already-lowercased query.
    pub fn matches(&self, lowercased_query: &str) -> (r: bool)
        ensures
            r == occurs_in(self.hay(), lowercased_query@),
    {
        contains_text(self.haystack.text.as_str(), lowercased_query)
    }

    /// An entry whose cassettes' bodies read `"body of {id}"`, the haystack
    /// built the way a scan builds it.
    pub fn for_test(
        id: &str,
        alias: Option<&str>,
        date: NaiveDateTime,
        words: usize,
        topics: &[&str],
    ) -> (e: Self)
        ensures
            e.id@ == id@,
            opt_view_string(e.alias) == opt_view(alias),
            e.date == date,
            e.words == words,
            views(e.topics@) == Seq::new(topics@.len(), |i: int| topics@[i]@),
            e.hay() == haystack_of(id@, opt_view(alias), views(e.topics@), "body of "@ + id@),
    {
        let mut ts: Vec<String> = Vec::new();
        let mut i: usize = 0;
        while i < topics.len()
            invariant
                i <= topics.len(),
                views(ts@) == Seq::new(i as nat, |k: int| topics@[k]@),
            decreases topics.len() - i,
        {
            let ghost before = ts@;
            ts.push(owned(topics[i]));
            assert(views(ts@) =~= views(before).push(topics@[i as int]@));
            assert(views(ts@) =~= Seq::new((i + 1) as nat, |k: int| topics@[k]@));
            i = i + 1;
        }
        let mut bodies = owned("body of ");
        push_str(&mut bodies, id);
        let haystack = build_haystack(id, alias, ts.as_slice(), bodies.as_str());
        NoteEntry {
            id: owned(id),
            alias: match alias {
                Some(a) => Some(owned(a)),
                None => None,
            },
            date,
            words,
            topics: ts,
            haystack: Haystack { text: haystack },
        }
    }

    /// The entry for the session `id`, aliased `alias` and created at
    /// `date`, from its cassettes as scanned (in queue order): its words
    /// summed over every cassette, the topics of those that have one, and a
    /// haystack over all of it.
    pub fn of_session(
        id: &str,
        alias: Option<&str>,
        date: NaiveDateTime,
        cassettes: &[StoredCassette],
    ) -> (e: Self)
        requires
            cassettes_words(cassettes@) <= usize::MAX,
        ensures
            e.id@ == id@,
            opt_view_string(e.alias) == opt_view(alias),
            e.date == date,
            e.words == cassettes_words(cassettes@),
            views(e.topics@) == crate::find::topics_in(cassettes@),
            e.hay() == haystack_of(
                id@,
                opt_view(alias),
                crate::find::topics_in(cassettes@),
                bodies_text(cassettes@),
            ),
    {
        let words = session_word_count(cassettes);
        let (topics, _) = crate::find::topics_and_preview(cassettes);
        let mut bodies = String::new();
        let mut i: usize = 0;
        while i < cassettes.len()
            invariant
                i <= cassettes.len(),
                bodies@ == bodies_text(cassettes@.take(i as int)),
            decreases cassettes.len() - i,
        {
            assert(cassettes@.take(i + 1).drop_last() =~= cassettes@.take(i as int));
            if i > 0 {
                push_char(&mut bodies, '\n');
            } else {
                assert(bodies@ =~= Seq::<char>::empty());
            }
            push_str(&mut bodies, cassettes[i].body.as_str());
            i = i + 1;
        }
        assert(cassettes@.take(cassettes.len() as int) =~= cassettes@);
        let haystack = build_haystack(id, alias, topics.as_slice(), bodies.as_str());
        NoteEntry {
            id: owned(id),
            alias: match alias {
                Some(a) => Some(owned(a)),
                None => None,
            },
            date,
            words,
            topics,
            haystack: Haystack { text: haystack },
        }
    }
}

/// `Some(s@)` for `Some(s)`.
pub open spec fn opt_view_string(a: Option<String>) -> Option<Seq<char>> {
    match a {
        Some(s) => Some(s@),
        None => None,
    }
}

} // verus!
