//! The `cassette sessions` list: which rows are showing, which one is
//! highlighted, and what a filter has narrowed it to. Selection is a
//! decision, not an effect: `selected` names the entry and the caller
//! decides what to do with it.

use vstd::prelude::*;

use crate::catalog::{occurs_in, NoteEntry};
use crate::keys::{Key, KeyCode};
use crate::session::DEFAULT_LIST_LIMIT;
use crate::text::{lowercase, owned, pop_char, push_char, str_eq, to_lower, trim, trimmed};

verus! {

/// The filter a query makes: the query trimmed and lowercased, or no
/// filter at all when trimming leaves nothing.
pub open spec fn filter_key(query: Seq<char>) -> Option<Seq<char>> {
    if trim(query).len() == 0 {
        None
    } else {
        Some(lowercase(trim(query)))
    }
}

/// Whether `e` passes the filter `key`.
pub open spec fn passes(e: NoteEntry, key: Option<Seq<char>>) -> bool {
    match key {
        None => true,
        Some(q) => occurs_in(e.hay(), q),
    }
}

/// The indices of the entries among the first `n` of `es` that pass `key`,
/// in order.
pub open spec fn matching(es: Seq<NoteEntry>, key: Option<Seq<char>>, n: int) -> Seq<int>
    decreases n,
{
    if n <= 0 {
        Seq::empty()
    } else if passes(es[n - 1], key) {
        matching(es, key, n - 1).push(n - 1)
    } else {
        matching(es, key, n - 1)
    }
}

/// The rows on screen, as indices into `es`: the entries the query lets
/// through, filtered first and then capped at `DEFAULT_LIST_LIMIT` unless
/// every session is asked for.
pub open spec fn shown(es: Seq<NoteEntry>, query: Seq<char>, show_all: bool) -> Seq<int> {
    let m = matching(es, filter_key(query), es.len() as int);
    if show_all || m.len() <= DEFAULT_LIST_LIMIT {
        m
    } else {
        m.take(DEFAULT_LIST_LIMIT as int)
    }
}

/// The cursor kept inside `n` rows: the last row when it is past them, the
/// top when there are none.
pub open spec fn clamped(cursor: int, n: int) -> int {
    if n == 0 {
        0
    } else if cursor >= n {
        n - 1
    } else {
        cursor
    }
}

/// The first position at or after `i` among `rows` whose entry has the id
/// `id`, or the number of rows when there is none.
pub open spec fn row_of_id(es: Seq<NoteEntry>, rows: Seq<int>, id: Seq<char>, i: int) -> int
    decreases rows.len() - i,
{
    if i < 0 || i >= rows.len() {
        rows.len() as int
    } else if es[rows[i]].id@ == id {
        i
    } else {
        row_of_id(es, rows, id, i + 1)
    }
}

/// Where the window starts once it follows `cursor`: first kept from
/// running past the end of `n` rows, then moved just enough that the cursor
/// lies among the `cap` rows drawn.
pub open spec fn window_start(cursor: int, scroll: int, n: int, cap: int) -> int {
    let max_scroll = if n > cap {
        n - cap
    } else {
        0
    };
    let s = if scroll > max_scroll {
        max_scroll
    } else {
        scroll
    };
    if cursor < s {
        cursor
    } else if cursor >= s + cap {
        cursor + 1 - cap
    } else {
        s
    }
}

/// The sessions a picker lists; only the picker builds or changes it.
pub struct Entries {
    list: Vec<NoteEntry>,
}

impl Entries {
    pub closed spec fn seq(&self) -> Seq<NoteEntry> {
        self.list@
    }
}

/// The `cassette sessions` list.
pub struct Picker {
    pub entries: Entries,
    /// Cassette files that could not be read, shown in the footer.
    pub unreadable: usize,
    /// Session directories skipped for not being session ids, also shown in
    /// the footer.
    pub skipped: usize,
    /// Index into the visible rows, not into the entries.
    pub cursor: usize,
    /// First visible row drawn.
    pub scroll: usize,
    /// Show every session rather than the most recent ones.
    pub show_all: bool,
    /// The live filter text; empty means no filter.
    pub query: String,
    /// Whether the `/` prompt owns the keyboard.
    pub filtering: bool,
}

proof fn lemma_matching_bounds(es: Seq<NoteEntry>, key: Option<Seq<char>>, n: int)
    requires
        0 <= n <= es.len(),
    ensures
        forall|k: int|
            0 <= k < matching(es, key, n).len() ==> 0 <= #[trigger] matching(es, key, n)[k] < n,
        matching(es, key, n).len() <= n,
    decreases n,
{
    if n > 0 {
        lemma_matching_bounds(es, key, n - 1);
    }
}

impl Picker {
    /// The rows on screen, as indices into the entries.
    pub open spec fn rows(&self) -> Seq<int> {
        shown(self.entries.seq(), self.query@, self.show_all)
    }

    /// The entry at visible row `k`.
    pub open spec fn row(&self, k: int) -> NoteEntry {
        self.entries.seq()[self.rows()[k]]
    }

    /// The highlighted entry: the one at the cursor's row, if any.
    pub open spec fn highlighted(&self) -> Option<NoteEntry> {
        if self.cursor < self.rows().len() {
            Some(self.row(self.cursor as int))
        } else {
            None
        }
    }

    /// Every visible row names an entry.
    pub proof fn lemma_rows_in_bounds(&self)
        ensures
            forall|k: int|
                0 <= k < self.rows().len() ==> 0 <= #[trigger] self.rows()[k]
                    < self.entries.seq().len(),
    {
        lemma_matching_bounds(
            self.entries.seq(),
            filter_key(self.query@),
            self.entries.seq().len() as int,
        );
    }

    /// A list of `entries`, nothing filtered, the recent ones showing.
    pub fn new(entries: Vec<NoteEntry>, unreadable: usize) -> (p: Self)
        ensures
            p.entries.seq() == entries@,
            p.unreadable == unreadable,
            p.skipped == 0,
            p.cursor == 0,
            p.scroll == 0,
            !p.show_all,
            p.query@ == Seq::<char>::empty(),
            !p.filtering,
    {
        Picker {
            entries: Entries { list: entries },
            unreadable,
            skipped: 0,
            cursor: 0,
            scroll: 0,
            show_all: false,
            query: String::new(),
            filtering: false,
        }
    }

    /// A list with no damaged files.
    pub fn new_for_test(entries: Vec<NoteEntry>) -> (p: Self)
        ensures
            p.entries.seq() == entries@,
            p.unreadable == 0,
            p.skipped == 0,
            p.cursor == 0,
            p.scroll == 0,
            !p.show_all,
            p.query@ == Seq::<char>::empty(),
            !p.filtering,
    {
        Self::new(entries, 0)
    }

    /// The rows on screen: filtered first, then capped unless `show_all`.
    pub fn visible(&self) -> (r: Vec<&NoteEntry>)
        ensures
            r@.len() == self.rows().len(),
            forall|k: int| 0 <= k < r@.len() ==> *r@[k] == self.row(k),
    {
        let ghost es = self.entries.seq();
        let t = trimmed(self.query.as_str());
        let filtered = t.as_str().unicode_len() > 0;
        let q = if filtered {
            to_lower(t.as_str())
        } else {
            String::new()
        };
        let ghost key = filter_key(self.query@);
        let mut out: Vec<&NoteEntry> = Vec::new();
        let mut i: usize = 0;
        while i < self.entries.list.len()
            invariant
                i <= self.entries.list.len(),
                es == self.entries.list@,
                key == filter_key(self.query@),
                filtered == (trim(self.query@).len() > 0),
                filtered ==> q@ == lowercase(trim(self.query@)),
                out@.len() == (if self.show_all || matching(es, key, i as int).len()
                    <= DEFAULT_LIST_LIMIT {
                    matching(es, key, i as int).len()
                } else {
                    DEFAULT_LIST_LIMIT as nat
                }),
                forall|k: int| 0 <= k < out@.len() ==> *out@[k] == es[matching(es, key, i as int)[k]],
            decreases self.entries.list.len() - i,
        {
            let e = &self.entries.list[i];
            let pass = !filtered || e.matches(q.as_str());
            let ghost before = matching(es, key, i as int);
            if pass && (self.show_all || out.len() < DEFAULT_LIST_LIMIT) {
                out.push(e);
            }
            proof {
                let after = matching(es, key, i + 1);
                if pass {
                    assert(after == before.push(i as int));
                } else {
                    assert(after == before);
                }
            }
            i = i + 1;
        }
        out
    }

    /// The highlighted entry, or `None` when nothing is showing.
    pub fn selected(&self) -> (r: Option<&NoteEntry>)
        ensures
            r is Some == self.highlighted() is Some,
            r is Some ==> *r->Some_0 == self.highlighted()->Some_0,
    {
        let v = self.visible();
        if self.cursor < v.len() {
            Some(v[self.cursor])
        } else {
            None
        }
    }

    /// One row down, stopping at the last.
    pub fn move_down(&mut self)
        ensures
            final(self).cursor == (if old(self).cursor + 1 < old(self).rows().len() {
                old(self).cursor + 1
            } else {
                old(self).cursor as int
            }),
            *final(self) == (Picker { cursor: final(self).cursor, ..*old(self) }),
    {
        let n = self.visible().len();
        if n > 0 && self.cursor < n - 1 {
            self.cursor = self.cursor + 1;
        }
    }

    /// One row up, stopping at the first.
    pub fn move_up(&mut self)
        ensures
            final(self).cursor == (if old(self).cursor > 0 {
                old(self).cursor - 1
            } else {
                0
            }),
            *final(self) == (Picker { cursor: final(self).cursor, ..*old(self) }),
    {
        if self.cursor > 0 {
            self.cursor = self.cursor - 1;
        }
    }

    /// Keeps the cursor inside the visible rows, and the window's top at or
    /// above the cursor.
    fn clamp_cursor(&mut self)
        ensures
            final(self).cursor == clamped(old(self).cursor as int, old(self).rows().len() as int),
            final(self).scroll == (if old(self).scroll > final(self).cursor {
                final(self).cursor
            } else {
                old(self).scroll
            }),
            *final(self) == (Picker {
                cursor: final(self).cursor,
                scroll: final(self).scroll,
                ..*old(self)
            }),
    {
        let n = self.visible().len();
        if n == 0 {
            self.cursor = 0;
        } else if self.cursor >= n {
            self.cursor = n - 1;
        }
        if self.scroll > self.cursor {
            self.scroll = self.cursor;
        }
    }

    /// Toggles between the recent window and every session, keeping the
    /// highlighted session highlighted (by id) when it is still showing.
    pub fn toggle_all(&mut self)
        ensures
            ({
                let flipped = Picker { show_all: !old(self).show_all, ..*old(self) };
                let rows = flipped.rows();
                let es = old(self).entries.seq();
                let was = old(self).highlighted();
                let at = if was is Some {
                    row_of_id(es, rows, was->Some_0.id@, 0)
                } else {
                    rows.len() as int
                };
                &&& final(self).show_all == flipped.show_all
                &&& final(self).entries == flipped.entries
                &&& final(self).query == flipped.query
                &&& final(self).unreadable == flipped.unreadable
                &&& final(self).skipped == flipped.skipped
                &&& final(self).filtering == flipped.filtering
                &&& at < rows.len() ==> final(self).cursor == at && final(self).scroll
                    == old(self).scroll
                &&& at >= rows.len() ==> {
                    &&& final(self).cursor == clamped(old(self).cursor as int, rows.len() as int)
                    &&& final(self).scroll == (if old(self).scroll > final(self).cursor {
                        final(self).cursor
                    } else {
                        old(self).scroll
                    })
                }
            }),
            old(self).highlighted() is Some && !old(self).show_all ==> {
                let was = old(self).highlighted()->Some_0;
                let now = final(self).highlighted();
                now is Some && now->Some_0.id@ == was.id@
            },
    {
        let ghost es = self.entries.seq();
        let ghost was = self.highlighted();
        let ghost old_rows = self.rows();
        let was_id = match self.selected() {
            Some(e) => Some(crate::text::owned(e.id.as_str())),
            None => None,
        };
        assert(was_id is Some ==> was is Some && was_id->Some_0@ == was->Some_0.id@);
        self.show_all = !self.show_all;
        let ghost rows = self.rows();
        assert(self.entries.seq() == es);
        if let Some(id) = was_id {
            let v = self.visible();
            assert forall|k: int| 0 <= k < v@.len() implies *v@[k] == es[rows[k]] by {
                assert(*v@[k] == self.row(k));
            }
            let mut i: usize = 0;
            while i < v.len()
                invariant
                    i <= v.len(),
                    *self == (Picker { show_all: !old(self).show_all, ..*old(self) }),
                    es == old(self).entries.seq(),
                    rows == self.rows(),
                    was == old(self).highlighted(),
                    was is Some && id@ == was->Some_0.id@,
                    v@.len() == rows.len(),
                    forall|k: int| 0 <= k < v@.len() ==> *v@[k] == es[rows[k]],
                    row_of_id(es, rows, id@, 0) == row_of_id(es, rows, id@, i as int),
                decreases v.len() - i,
            {
                if str_eq(v[i].id.as_str(), id.as_str()) {
                    assert(row_of_id(es, rows, id@, i as int) == i);
                    self.cursor = i;
                    return;
                }
                i = i + 1;
            }
        }
        proof {
            if was is Some && !old(self).show_all {
                lemma_recent_prefix(es, old(self).query@);
                assert(old_rows[old(self).cursor as int] == rows[old(self).cursor as int]);
                lemma_row_found(es, rows, was->Some_0.id@, old(self).cursor as int);
            }
        }
        self.clamp_cursor();
    }

    /// Opens the filter prompt.
    pub fn start_filter(&mut self)
        ensures
            *final(self) == (Picker { filtering: true, ..*old(self) }),
    {
        self.filtering = true;
    }

    /// Closes the prompt, keeping whatever it narrowed to.
    pub fn end_filter(&mut self)
        ensures
            *final(self) == (Picker { filtering: false, ..*old(self) }),
    {
        self.filtering = false;
    }

    /// Adds `c` to the filter, keeping the cursor on a visible row.
    pub fn push_filter(&mut self, c: char)
        ensures
            final(self).query@ == old(self).query@.push(c),
            final(self).cursor == clamped(old(self).cursor as int, final(self).rows().len() as int),
            final(self).scroll == (if old(self).scroll > final(self).cursor {
                final(self).cursor
            } else {
                old(self).scroll
            }),
            *final(self) == (Picker {
                query: final(self).query,
                cursor: final(self).cursor,
                scroll: final(self).scroll,
                ..*old(self)
            }),
            final(self).rows().len() > 0 ==> final(self).highlighted() is Some,
            final(self).scroll <= final(self).cursor,
    {
        push_char(&mut self.query, c);
        self.clamp_cursor();
    }

    /// Takes the last character off the filter, keeping the cursor on a
    /// visible row.
    pub fn pop_filter(&mut self)
        ensures
            final(self).query@ == (if old(self).query@.len() > 0 {
                old(self).query@.drop_last()
            } else {
                old(self).query@
            }),
            final(self).cursor == clamped(old(self).cursor as int, final(self).rows().len() as int),
            final(self).scroll == (if old(self).scroll > final(self).cursor {
                final(self).cursor
            } else {
                old(self).scroll
            }),
            *final(self) == (Picker {
                query: final(self).query,
                cursor: final(self).cursor,
                scroll: final(self).scroll,
                ..*old(self)
            }),
            final(self).rows().len() > 0 ==> final(self).highlighted() is Some,
            final(self).scroll <= final(self).cursor,
    {
        let _ = pop_char(&mut self.query);
        self.clamp_cursor();
    }

    /// How many sessions exist in total.
    pub fn total(&self) -> (n: usize)
        ensures
            n == self.entries.seq().len(),
    {
        self.entries.list.len()
    }

    /// How many session rows fit in a terminal `height` rows tall, leaving
    /// five for the title, blank lines, filter line and help; never fewer
    /// than one.
    pub fn rows_capacity(height: u16) -> (n: usize)
        ensures
            n == (if height > 5 {
                height - 5
            } else {
                1
            }),
    {
        if height > 5 {
            (height - 5) as usize
        } else {
            1
        }
    }

    /// Keeps the cursor inside the `capacity` rows drawn, scrolling the
    /// window rather than letting the cursor walk off it.
    pub fn ensure_cursor_visible(&mut self, capacity: usize)
        requires
            capacity > 0 || old(self).cursor < usize::MAX,
        ensures
            final(self).scroll == window_start(
                old(self).cursor as int,
                old(self).scroll as int,
                old(self).rows().len() as int,
                capacity as int,
            ),
            *final(self) == (Picker { scroll: final(self).scroll, ..*old(self) }),
            capacity > 0 ==> final(self).scroll <= final(self).cursor < final(self).scroll
                + capacity,
    {
        let n = self.visible().len();
        let max_scroll = if n > capacity {
            n - capacity
        } else {
            0
        };
        if self.scroll > max_scroll {
            self.scroll = max_scroll;
        }
        if self.cursor < self.scroll {
            self.scroll = self.cursor;
        } else if self.cursor - self.scroll >= capacity {
            if capacity == 0 {
                self.scroll = self.cursor + 1;
            } else {
                self.scroll = self.cursor - (capacity - 1);
            }
        }
    }

    /// Rows above and below the window of `capacity` rows.
    pub fn hidden_rows(&self, capacity: usize) -> (r: (usize, usize))
        requires
            self.scroll + capacity <= usize::MAX,
        ensures
            r.0 == self.scroll,
            r.1 == (if self.rows().len() > self.scroll + capacity {
                self.rows().len() - self.scroll - capacity
            } else {
                0
            }),
    {
        let n = self.visible().len();
        let end = self.scroll + capacity;
        let below = if n > end {
            n - end
        } else {
            0
        };
        (self.scroll, below)
    }
}

/// What the session list asks of its caller after a key.
#[derive(Clone, Debug, PartialEq, Eq)]
pub enum PickerStep {
    /// Keep showing the list.
    Stay,
    /// Leave without opening anything.
    Quit,
    /// Open the session with this id.
    Open(String),
}

/// What a key does to the session list: `Ctrl+C` always quits. While the
/// filter prompt is open it owns the keyboard: Esc or Enter close it,
/// Backspace takes a character off the query, a plain character adds one.
/// Otherwise `q` or Esc quit, `j`/Down and `k`/Up move, `a` toggles every
/// session, `/` opens the prompt, and Enter opens the highlighted session
/// (nothing happens when no row is highlighted).
pub open spec fn picker_key_effect(o: Picker, n: Picker, key: Key, step: PickerStep) -> bool {
    let plain = !key.modifiers.control && !key.modifiers.alt;
    if key.modifiers.control && key.code == KeyCode::Char('c') {
        step == PickerStep::Quit && n == o
    } else if o.filtering {
        &&& step == PickerStep::Stay
        &&& if key.code == KeyCode::Esc || key.code == KeyCode::Enter {
            n == Picker { filtering: false, ..o }
        } else if key.code == KeyCode::Backspace {
            n.query@ == (if o.query@.len() > 0 {
                o.query@.drop_last()
            } else {
                o.query@
            }) && n.cursor == clamped(o.cursor as int, n.rows().len() as int) && n.scroll == (
            if o.scroll > n.cursor {
                n.cursor
            } else {
                o.scroll
            }) && n == Picker { query: n.query, cursor: n.cursor, scroll: n.scroll, ..o }
        } else if key.code is Char && plain {
            n.query@ == o.query@.push(key.code->Char_0) && n.cursor == clamped(
                o.cursor as int,
                n.rows().len() as int,
            ) && n.scroll == (if o.scroll > n.cursor {
                n.cursor
            } else {
                o.scroll
            }) && n == Picker { query: n.query, cursor: n.cursor, scroll: n.scroll, ..o }
        } else {
            n == o
        }
    } else if key.code == KeyCode::Char('q') || key.code == KeyCode::Esc {
        step == PickerStep::Quit && n == o
    } else if key.code == KeyCode::Char('j') || key.code == KeyCode::Down {
        step == PickerStep::Stay && n == Picker {
            cursor: if o.cursor + 1 < o.rows().len() {
                (o.cursor + 1) as usize
            } else {
                o.cursor
            },
            ..o
        }
    } else if key.code == KeyCode::Char('k') || key.code == KeyCode::Up {
        step == PickerStep::Stay && n == Picker {
            cursor: if o.cursor > 0 {
                (o.cursor - 1) as usize
            } else {
                0
            },
            ..o
        }
    } else if key.code == KeyCode::Char('a') {
        step == PickerStep::Stay && n.show_all == !o.show_all && n.entries == o.entries
            && n.query == o.query && n.filtering == o.filtering
    } else if key.code == KeyCode::Char('/') {
        step == PickerStep::Stay && n == Picker { filtering: true, ..o }
    } else if key.code == KeyCode::Enter {
        n == o && match o.highlighted() {
            Some(e) => step matches PickerStep::Open(id) && id@ == e.id@,
            None => step == PickerStep::Stay,
        }
    } else {
        step == PickerStep::Stay && n == o
    }
}

/// Handles one key on the session list (see `picker_key_effect`).
pub fn handle_picker_key(p: &mut Picker, key: Key) -> (step: PickerStep)
    ensures
        picker_key_effect(*old(p), *final(p), key, step),
{
    let m = key.modifiers;
    if m.control && key.code == KeyCode::Char('c') {
        return PickerStep::Quit;
    }
    if p.filtering {
        match key.code {
            KeyCode::Esc | KeyCode::Enter => p.end_filter(),
            KeyCode::Backspace => p.pop_filter(),
            KeyCode::Char(c) => {
                if !m.control && !m.alt {
                    p.push_filter(c);
                }
            },
            _ => {},
        }
        return PickerStep::Stay;
    }
    match key.code {
        KeyCode::Char('q') | KeyCode::Esc => PickerStep::Quit,
        KeyCode::Char('j') | KeyCode::Down => {
            p.move_down();
            PickerStep::Stay
        },
        KeyCode::Char('k') | KeyCode::Up => {
            p.move_up();
            PickerStep::Stay
        },
        KeyCode::Char('a') => {
            p.toggle_all();
            PickerStep::Stay
        },
        KeyCode::Char('/') => {
            p.start_filter();
            PickerStep::Stay
        },
        KeyCode::Enter => match p.selected() {
            Some(e) => PickerStep::Open(owned(e.id.as_str())),
            None => PickerStep::Stay,
        },
        _ => PickerStep::Stay,
    }
}

/// The recent rows are the first rows of the full list.
proof fn lemma_recent_prefix(es: Seq<NoteEntry>, query: Seq<char>)
    ensures
        shown(es, query, false).len() <= shown(es, query, true).len(),
        forall|k: int|
            0 <= k < shown(es, query, false).len() ==> #[trigger] shown(es, query, false)[k]
                == shown(es, query, true)[k],
{
}

/// A row whose entry has the id `id` at position `k` is found by
/// `row_of_id`, at `k` or before, and what it finds has that id.
proof fn lemma_row_found(es: Seq<NoteEntry>, rows: Seq<int>, id: Seq<char>, k: int)
    requires
        0 <= k < rows.len(),
        es[rows[k]].id@ == id,
    ensures
        row_of_id(es, rows, id, 0) <= k,
        es[rows[row_of_id(es, rows, id, 0)]].id@ == id,
{
    lemma_row_found_from(es, rows, id, 0, k);
}

proof fn lemma_row_found_from(es: Seq<NoteEntry>, rows: Seq<int>, id: Seq<char>, i: int, k: int)
    requires
        0 <= i <= k < rows.len(),
        es[rows[k]].id@ == id,
    ensures
        i <= row_of_id(es, rows, id, i) <= k,
        es[rows[row_of_id(es, rows, id, i)]].id@ == id,
    decreases k - i,
{
    if es[rows[i]].id@ != id {
        lemma_row_found_from(es, rows, id, i + 1, k);
    }
}

} // verus!
