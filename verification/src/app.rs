//! The editing session: the cassettes on screen, which one has focus, the
//! scroll window, the timer, the word goal and the status line.

use vstd::prelude::*;

use std::time::SystemTime;

use crate::cassette::{applied, Cassette, Edit, Side};
use crate::text::{
    dec, dec2, is_blank, lemma_seq_lt_irrefl, lemma_seq_lt_total, lemma_seq_lt_trans, owned,
    push_dec, push_dec2, push_str, seq_lt, str_less, trim, trimmed_eq, words_in,
};

verus! {

/// Default number of text lines shown per cassette (excluding the separator row).
pub const VISIBLE_LINES: usize = 5;

/// Bounds for the configurable per-cassette line count.
pub const MIN_VISIBLE_LINES: usize = 2;

pub const MAX_VISIBLE_LINES: usize = 40;

/// Fixed row overhead below all cassettes: bottom separator + reel stats +
/// status + help.
pub const UI_OVERHEAD: u16 = 4;

/// Hard cap on the number of open cassettes.
pub const MAX_CASSETTES: usize = 36;

/// Columns of the line-number gutter inside each cassette (3 digits + 1 space).
pub const GUTTER_WIDTH: usize = 4;

/// Rows of a minimized (unfocused) cassette: separator + its last text line.
pub const MINIMIZED_ROWS: u16 = 2;

/// How long transient status messages (timer up, goal reached) stay visible.
pub const STATUS_FLASH_SECS: u32 = 8;

#[verifier::external_type_specification]
#[verifier::external_body]
pub struct ExSystemTime(SystemTime);

/// `SystemTime::now`: the current wall-clock time. Nothing is claimed of it.
#[verifier::external_body]
fn now() -> SystemTime {
    SystemTime::now()
}

/// Vim-style editing mode for the focused cassette. `Topic` captures a topic
/// label for the focused cassette on the status line instead of editing text.
#[derive(Clone, Copy, Debug, PartialEq, Eq, Structural)]
pub enum Mode {
    Insert,
    Normal,
    Topic,
}

/// The self-clearing part of the status line: how long a transient message
/// has left, and whether the word goal has been announced this session.
#[derive(Clone, Copy, Debug)]
pub struct Notices {
    status_ticks: Option<u32>,
    goal_announced: bool,
}

impl Notices {
    /// Seconds left before a transient status message clears itself.
    pub closed spec fn ticks(&self) -> Option<u32> {
        self.status_ticks
    }

    /// The word-goal celebration has fired.
    pub closed spec fn announced(&self) -> bool {
        self.goal_announced
    }
}

pub struct App {
    pub cassettes: Vec<Cassette>,
    pub focus_idx: usize,
    /// Index of the first cassette shown on screen (whole-cassette scrolling).
    pub cassette_scroll: usize,
    pub term_width: u16,
    pub term_height: u16,
    pub status_msg: Option<String>,
    pub timer_secs: Option<u32>,
    pub timer_original_secs: Option<u32>,
    pub word_goal: Option<usize>,
    pub should_quit: bool,
    pub visible_lines: usize,
    pub started_at: SystemTime,
    pub mode: Mode,
    /// First key of a pending two-key normal-mode sequence (`dd`, `gg`).
    pub pending: Option<char>,
    /// Topic text being typed while in `Mode::Topic`.
    pub topic_input: String,
    /// Mode to return to when the topic prompt closes.
    pub topic_return: Mode,
    /// Record mode: the tape only rolls forward — no deletions, no normal mode.
    pub record: bool,
    /// Words already in the note when it was loaded; the session recap
    /// reports only what was added on top.
    pub baseline_words: usize,
    /// Seconds since the last keypress; drives the idle nudge.
    pub idle_secs: u32,
    /// The store session this app's cassettes belong to; empty only when
    /// nothing is persisted.
    pub session: String,
    /// The focused cassette's lock is held by another writer: its text is
    /// shown but every edit is dropped.
    pub read_only: bool,
    /// While `read_only`, the name of the writer holding the lock, if known.
    pub busy_holder: Option<String>,
    /// One-shot request for a terminal bell.
    pub bell: bool,
    /// One-shot request to suspend the process.
    pub suspend: bool,
    /// Transient-message countdown and the one-shot goal announcement.
    pub notices: Notices,
}

/// Words on both sides of a cassette.
pub open spec fn cassette_words(c: Cassette) -> nat {
    words_in(c.text_seq()) + words_in(c.back_seq())
}

/// Words on every cassette of `cs`.
pub open spec fn total_words(cs: Seq<Cassette>) -> nat
    decreases cs.len(),
{
    if cs.len() == 0 {
        0
    } else {
        total_words(cs.drop_last()) + cassette_words(cs.last())
    }
}

pub proof fn lemma_total_words_prefix(cs: Seq<Cassette>, i: int)
    requires
        0 <= i <= cs.len(),
    ensures
        total_words(cs.take(i)) <= total_words(cs),
    decreases cs.len() - i,
{
    if i < cs.len() {
        lemma_total_words_prefix(cs, i + 1);
        assert(cs.take(i + 1).drop_last() =~= cs.take(i));
    } else {
        assert(cs.take(i) =~= cs);
    }
}

/// Nothing but whitespace on either side.
pub open spec fn blank(c: Cassette) -> bool {
    trim(c.side_a_seq()).len() == 0 && trim(c.side_b_seq()).len() == 0
}

/// How many cassettes fit on screen: the focused one full height (its
/// separator and `visible_lines` of text), the rest minimized.
pub open spec fn visible_count(term_height: u16, visible_lines: usize) -> int {
    let available: int = if term_height > UI_OVERHEAD {
        term_height - UI_OVERHEAD
    } else {
        0
    };
    let focused: int = (visible_lines as u16) + 1;
    if available <= focused {
        1
    } else {
        1 + (available - focused) / (MINIMIZED_ROWS as int)
    }
}

/// The scroll window after fitting: clamped so it is never emptier than it
/// must be, then moved the least that shows the focused cassette.
pub open spec fn fitted_scroll(scroll: int, focus: int, len: int, visible: int) -> int {
    let max_scroll = if len > visible {
        len - visible
    } else {
        0
    };
    let s1 = if scroll < max_scroll {
        scroll
    } else {
        max_scroll
    };
    if focus < s1 {
        focus
    } else if focus >= s1 + visible {
        focus + 1 - visible
    } else {
        s1
    }
}

/// `"goal reached — {words} words. keep rolling!"`
pub open spec fn goal_message(words: nat) -> Seq<char> {
    "goal reached — "@ + dec(words) + " words. keep rolling!"@
}

/// `"time — keep going, or {key} to save"`, the key being `^C` in record
/// mode (which has no `q`).
pub open spec fn time_message(record: bool) -> Seq<char> {
    "time — keep going, or "@ + (if record {
        "^C"@
    } else {
        "q"@
    }) + " to save"@
}

/// `"Cassette limit reached (36)."`
pub open spec fn limit_message() -> Seq<char> {
    "Cassette limit reached ("@ + dec(MAX_CASSETTES as nat) + ")."@
}

/// The reel stats: `◆` with neither timer nor goal; otherwise the timer as
/// `mm:ss` and the goal as `words / goal`, joined by `  ·  ` when both are set.
pub open spec fn stats_text(timer: Option<u32>, goal: Option<usize>, words: nat) -> Seq<char> {
    if timer is None && goal is None {
        "◆"@
    } else {
        let timer_part = match timer {
            Some(n) => dec2((n / 60) as nat) + ":"@ + dec2((n % 60) as nat),
            None => Seq::empty(),
        };
        let goal_part = match goal {
            Some(g) => dec(words) + " / "@ + dec(g as nat),
            None => Seq::empty(),
        };
        let sep = if timer is Some && goal is Some {
            "  ·  "@
        } else {
            Seq::empty()
        };
        timer_part + sep + goal_part
    }
}

/// Number of open cassettes in `s`.
pub open spec fn count_open(s: Seq<Cassette>) -> nat
    decreases s.len(),
{
    if s.len() == 0 {
        0
    } else {
        count_open(s.drop_last()) + if s.last().closed {
            0nat
        } else {
            1nat
        }
    }
}

/// Indices below `n` of the cassettes with unsaved edits, ascending.
pub open spec fn dirty_upto(s: Seq<Cassette>, n: int) -> Seq<usize>
    decreases n,
{
    if n <= 0 {
        Seq::empty()
    } else if s[n - 1].dirty {
        dirty_upto(s, n - 1).push((n - 1) as usize)
    } else {
        dirty_upto(s, n - 1)
    }
}

pub proof fn lemma_count_open_push(s: Seq<Cassette>, c: Cassette)
    ensures
        count_open(s.push(c)) == count_open(s) + if c.closed {
            0nat
        } else {
            1nat
        },
{
    assert(s.push(c).drop_last() =~= s);
}

/// Removing the cassette at `i` takes it out of the open count.
pub proof fn lemma_count_open_remove(s: Seq<Cassette>, i: int)
    requires
        0 <= i < s.len(),
    ensures
        count_open(s) == count_open(s.remove(i)) + if s[i].closed {
            0nat
        } else {
            1nat
        },
    decreases s.len(),
{
    if i < s.len() - 1 {
        lemma_count_open_remove(s.drop_last(), i);
        assert(s.remove(i).drop_last() =~= s.drop_last().remove(i));
        assert(s.remove(i).last() == s.last());
    } else {
        assert(s.remove(i) =~= s.drop_last());
    }
}

/// The open count depends only on which cassettes there are, not on
/// their order.
pub proof fn lemma_count_open_multiset(a: Seq<Cassette>, b: Seq<Cassette>)
    requires
        a.to_multiset() == b.to_multiset(),
    ensures
        count_open(a) == count_open(b),
    decreases a.len(),
{
    broadcast use vstd::seq_lib::group_to_multiset_ensures;

    vstd::seq_lib::to_multiset_len(a);
    vstd::seq_lib::to_multiset_len(b);
    if a.len() == 0 {
        assert(b.len() == 0);
    } else {
        let x = a.last();
        vstd::seq_lib::to_multiset_contains(a, x);
        assert(a.contains(x)) by {
            assert(a[a.len() - 1] == x);
        }
        vstd::seq_lib::to_multiset_contains(b, x);
        let k = choose|k: int| 0 <= k < b.len() && b[k] == x;
        lemma_count_open_remove(b, k);
        vstd::seq_lib::to_multiset_remove(b, k);
        assert(a.drop_last() =~= a.remove(a.len() - 1));
        vstd::seq_lib::to_multiset_remove(a, a.len() - 1);
        lemma_count_open_multiset(a.drop_last(), b.remove(k));
    }
}

/// `a` and `b` agree except, perhaps, on the topic.
pub open spec fn same_but_topic(a: Cassette, b: Cassette) -> bool {
    &&& a.left == b.left
    &&& a.right == b.right
    &&& a.undo == b.undo
    &&& a.back == b.back
    &&& a.side == b.side
    &&& a.id == b.id
    &&& a.priority == b.priority
    &&& a.closed == b.closed
    &&& a.dirty == b.dirty
    &&& a.locked_by == b.locked_by
}

/// A cassette as `Cassette::new` makes it, but for its topic.
pub open spec fn fresh(c: Cassette) -> bool {
    &&& c.text_seq() == Seq::<char>::empty()
    &&& c.back_seq() == Seq::<char>::empty()
    &&& c.side == Side::A
    &&& c.id@ == Seq::<char>::empty()
    &&& c.priority == i64::MAX
    &&& !c.closed
    &&& !c.dirty
    &&& c.locked_by is None
}

/// The cassettes of `s` below `n` that a load keeps, with the number of open
/// ones seen: every closed one, and the open ones while fewer than
/// `MAX_CASSETTES` have been seen.
pub open spec fn kept_upto(s: Seq<Cassette>, n: int) -> (Seq<Cassette>, nat)
    decreases n,
{
    if n <= 0 {
        (Seq::empty(), 0)
    } else {
        let (k, o) = kept_upto(s, n - 1);
        let c = s[n - 1];
        if c.closed {
            (k.push(c), o)
        } else if o + 1 <= MAX_CASSETTES {
            (k.push(c), o + 1)
        } else {
            (k, o + 1)
        }
    }
}

/// What a load keeps of `s`.
pub open spec fn retained(s: Seq<Cassette>) -> Seq<Cassette> {
    kept_upto(s, s.len() as int).0
}

/// `max(open - 1, 0)`, never past the last index.
pub open spec fn min_sat(open: nat, len: nat) -> int {
    let a = if open >= 1 {
        open - 1
    } else {
        0
    };
    let b = if len >= 1 {
        len - 1
    } else {
        0
    };
    if a < b {
        a
    } else {
        b
    }
}

proof fn lemma_total_words_remove(s: Seq<Cassette>, i: int)
    requires
        0 <= i < s.len(),
    ensures
        total_words(s) == total_words(s.remove(i)) + cassette_words(s[i]),
    decreases s.len(),
{
    if i < s.len() - 1 {
        lemma_total_words_remove(s.drop_last(), i);
        assert(s.remove(i).drop_last() =~= s.drop_last().remove(i));
        assert(s.remove(i).last() == s.last());
    } else {
        assert(s.remove(i) =~= s.drop_last());
    }
}

/// The word total depends only on which cassettes there are.
pub proof fn lemma_total_words_multiset(a: Seq<Cassette>, b: Seq<Cassette>)
    requires
        a.to_multiset() == b.to_multiset(),
    ensures
        total_words(a) == total_words(b),
    decreases a.len(),
{
    broadcast use vstd::seq_lib::group_to_multiset_ensures;

    vstd::seq_lib::to_multiset_len(a);
    vstd::seq_lib::to_multiset_len(b);
    if a.len() == 0 {
        assert(b.len() == 0);
    } else {
        let x = a.last();
        vstd::seq_lib::to_multiset_contains(a, x);
        assert(a.contains(x)) by {
            assert(a[a.len() - 1] == x);
        }
        vstd::seq_lib::to_multiset_contains(b, x);
        let k = choose|k: int| 0 <= k < b.len() && b[k] == x;
        lemma_total_words_remove(b, k);
        vstd::seq_lib::to_multiset_remove(b, k);
        assert(a.drop_last() =~= a.remove(a.len() - 1));
        vstd::seq_lib::to_multiset_remove(a, a.len() - 1);
        lemma_total_words_multiset(a.drop_last(), b.remove(k));
    }
}

proof fn lemma_kept_words(s: Seq<Cassette>, n: int)
    requires
        0 <= n <= s.len(),
    ensures
        total_words(kept_upto(s, n).0) <= total_words(s.take(n)),
    decreases n,
{
    if n > 0 {
        lemma_kept_words(s, n - 1);
        assert(s.take(n).drop_last() =~= s.take(n - 1));
        let k = kept_upto(s, n - 1).0;
        assert(k.push(s[n - 1]).drop_last() =~= k);
    }
}

/// Index of the first cassette in `s` with id `id`, if any.
pub open spec fn find_id(s: Seq<Cassette>, id: Seq<char>) -> Option<int> {
    if exists|i: int| first_with_id(s, id, i) {
        Some(choose|i: int| first_with_id(s, id, i))
    } else {
        None
    }
}

pub(crate) proof fn lemma_find_id(s: Seq<Cassette>, id: Seq<char>, i: int)
    requires
        first_with_id(s, id, i),
    ensures
        find_id(s, id) == Some(i),
{
    let j = choose|j: int| first_with_id(s, id, j);
    assert(first_with_id(s, id, j));
    if j < i {
        assert(s[j].id@ != id);
    } else if i < j {
        assert(s[i].id@ != id);
    }
}

/// The incoming copy holds what the existing one already does: the same
/// sides (up to surrounding whitespace) and the same topic.
pub open spec fn unchanged_content(ex: Cassette, incoming: Cassette) -> bool {
    &&& trim(incoming.side_a_seq()) == trim(ex.side_a_seq())
    &&& trim(incoming.side_b_seq()) == trim(ex.side_b_seq())
    &&& opt_view(incoming.topic) == opt_view(ex.topic)
}

/// `m` is `incoming` rebuilt in place of `ex` under id `id`: the incoming
/// sides and topic, the lock name, `ex`'s active side, and the cursor rule.
pub open spec fn merged_from(ex: Cassette, incoming: Cassette, id: Seq<char>, m: Cassette) -> bool {
    let at_end = ex.cursor() == ex.text_seq().len();
    let a = incoming.side_a_seq();
    let b = incoming.side_b_seq();
    &&& m.side_a_seq() == a
    &&& m.side_b_seq() == b
    &&& m.side == ex.side
    &&& m.topic == incoming.topic
    &&& m.id@ == id
    &&& m.locked_by == incoming.locked_by
    &&& m.priority == i64::MAX
    &&& !m.closed
    &&& !m.dirty
    &&& m.undo_seq() == Seq::<(Seq<char>, Seq<char>)>::empty()
    &&& m.back_undo_seq() == Seq::<(Seq<char>, Seq<char>)>::empty()
    &&& if ex.side == Side::A {
        m.cursor() == (if at_end {
            a.len() as int
        } else if ex.cursor() < a.len() {
            ex.cursor()
        } else {
            a.len() as int
        })
    } else {
        &&& m.back_cursor() == 0
        &&& m.cursor() == (if at_end {
            b.len() as int
        } else if ex.cursor() < b.len() {
            ex.cursor()
        } else {
            b.len() as int
        })
    }
}

/// Focus follows the cassette it was on, found again by its id, and the
/// scroll window follows focus.
pub open spec fn refocused(o: App, n: App) -> bool {
    &&& o.focus_idx < o.cassettes@.len() ==> first_with_id(
        n.cassettes@,
        o.cassettes@[o.focus_idx as int].id@,
        n.focus_idx as int,
    )
    &&& o.focus_idx >= o.cassettes@.len() ==> n.focus_idx == o.focus_idx
    &&& n.cassette_scroll == fitted_scroll(
        o.cassette_scroll as int,
        n.focus_idx as int,
        n.cassettes@.len() as int,
        visible_count(o.term_height, o.visible_lines),
    )
    &&& n.focus_in_window()
}

/// An optional string, as characters.
pub open spec fn opt_view(o: Option<String>) -> Option<Seq<char>> {
    match o {
        Some(s) => Some(s@),
        None => None,
    }
}

/// Whether `incoming` holds what `ex` already does (see `unchanged_content`).
fn same_content(ex: &Cassette, incoming: &Cassette) -> (r: bool)
    ensures
        r == unchanged_content(*ex, *incoming),
{
    let a_in = incoming.side_a_text();
    let b_in = incoming.side_b_text();
    let a_ex = ex.side_a_text();
    let b_ex = ex.side_b_text();
    trimmed_eq(a_in.as_str(), a_ex.as_str()) && trimmed_eq(b_in.as_str(), b_ex.as_str())
        && opt_str_eq(&incoming.topic, &ex.topic)
}

/// `incoming` rebuilt to take the place of `ex` under id `id`, following the
/// cursor rule of `App::merge_external`.
fn rebuild(ex: &Cassette, incoming: Cassette, id: &str) -> (m: Cassette)
    ensures
        merged_from(*ex, incoming, id@, m),
{
    let a_in = incoming.side_a_text();
    let b_in = incoming.side_b_text();
    let existing_cursor = ex.cursor_pos();
    let was_at_end = existing_cursor == ex.char_count();
    let on_b = ex.side == Side::B;
    let side_a_len = a_in.as_str().unicode_len();
    let side_b_len = b_in.as_str().unicode_len();
    let cursor_for_a = if on_b {
        0
    } else if was_at_end {
        side_a_len
    } else {
        existing_cursor
    };
    let topic = clone_topic(&incoming.topic);
    let mut merged = Cassette::from_sides_with_cursor(a_in, b_in, topic, cursor_for_a);
    if on_b {
        merged.flip();
        let target = if was_at_end {
            side_b_len
        } else {
            existing_cursor
        };
        merged.set_cursor(target);
    }
    merged.id = owned(id);
    merged.locked_by = incoming.locked_by;
    merged
}

/// Whether two optional strings are equal.
pub(crate) fn opt_str_eq(a: &Option<String>, b: &Option<String>) -> (r: bool)
    ensures
        r == (opt_view(*a) == opt_view(*b)),
{
    match (a, b) {
        (Some(x), Some(y)) => crate::text::str_eq(x.as_str(), y.as_str()),
        (None, None) => true,
        _ => false,
    }
}

/// A copy of an optional string.
pub(crate) fn clone_topic(t: &Option<String>) -> (r: Option<String>)
    ensures
        r == *t,
{
    match t {
        Some(x) => Some(x.clone()),
        None => None,
    }
}

/// `n` is `o` after `add_cassette`: at the cap of open cassettes, the limit
/// message and nothing else; otherwise a fresh cassette joins the queue in
/// order and takes focus, and the status line clears.
pub open spec fn cassette_added(o: App, n: App) -> bool {
    &&& count_open(o.cassettes@) >= MAX_CASSETTES ==> {
        &&& n.status_msg matches Some(m) && m@ == limit_message()
        &&& n.cassettes == o.cassettes
        &&& n.focus_idx == o.focus_idx
        &&& n.cassette_scroll == o.cassette_scroll
        &&& n.notices == o.notices
        &&& n.bell == o.bell
        &&& n.same_frame(&o)
    }
    &&& count_open(o.cassettes@) < MAX_CASSETTES ==> {
        &&& exists|c: Cassette|
            {
                &&& fresh(c)
                &&& c.topic is None
                &&& n.cassettes@.to_multiset() == o.cassettes@.to_multiset().insert(c)
            }
        &&& n.cassettes@.len() == o.cassettes@.len() + 1
        &&& queue_sorted(n.cassettes@)
        &&& n.focus_idx == count_open(n.cassettes@) - 1
        &&& n.status_msg is None
        &&& n.notices.ticks() is None
        &&& n.notices.announced() == o.notices.announced()
        &&& n.bell == o.bell
        &&& n.focus_in_window()
        &&& n.same_frame(&o)
    }
}

/// `n` is `o` with focus moved to the next cassette, wrapping around, the
/// status line cleared and the scroll window following.
pub open spec fn focus_moved_next(o: App, n: App) -> bool {
    let len = if o.cassettes@.len() > 1 {
        o.cassettes@.len() as int
    } else {
        1
    };
    &&& n.focus_idx == (o.focus_idx + 1) % len
    &&& n.cassette_scroll == fitted_scroll(
        o.cassette_scroll as int,
        n.focus_idx as int,
        o.cassettes@.len() as int,
        visible_count(o.term_height, o.visible_lines),
    )
    &&& n.focus_in_window()
    &&& n.cassettes@ == o.cassettes@
    &&& n.status_msg is None
    &&& n.notices.ticks() is None
    &&& n.notices.announced() == o.notices.announced()
    &&& n.bell == o.bell
    &&& n.same_frame(&o)
}

/// Moving focus back undoes moving it forward: from any cassette, the next
/// and then the previous one is the cassette focus started on, with the
/// same cassettes and the status line cleared.
pub proof fn lemma_focus_prev_undoes_next(a: App, b: App, c: App)
    requires
        a.focus_idx < a.cassettes@.len(),
        focus_moved_next(a, b),
        focus_moved_prev(b, c),
    ensures
        c.focus_idx == a.focus_idx,
        c.cassettes@ == a.cassettes@,
        c.status_msg is None,
        c.focus_in_window(),
{
    let n: int = if a.cassettes@.len() > 1 {
        a.cassettes@.len() as int
    } else {
        1
    };
    let f = a.focus_idx as int;
    if f + 1 < n {
        vstd::arithmetic::div_mod::lemma_small_mod((f + 1) as nat, n as nat);
        vstd::arithmetic::div_mod::lemma_mod_add_multiples_vanish(f, n);
        vstd::arithmetic::div_mod::lemma_small_mod(f as nat, n as nat);
    } else {
        vstd::arithmetic::div_mod::lemma_mod_self_0(n);
        vstd::arithmetic::div_mod::lemma_small_mod((n - 1) as nat, n as nat);
    }
}

/// The word goal fires at `o`: it is set, not yet announced, and this
/// session's words reach it.
pub open spec fn goal_fires(o: App) -> bool {
    !o.notices.announced() && o.word_goal is Some && o.session_words() >= o.word_goal->0
}

/// `n` is `o` after checking the word goal: when it fires, the celebration
/// message, its countdown, the announcement and the bell; otherwise the
/// status line as it was. Nothing else changes.
pub open spec fn goal_checked(o: App, n: App) -> bool {
    &&& goal_fires(o) ==> {
        &&& n.status_msg matches Some(m) && m@ == goal_message(o.session_words())
        &&& n.notices.ticks() == Some(STATUS_FLASH_SECS)
        &&& n.notices.announced()
        &&& n.bell
        &&& n.same_but_status(&o)
    }
    &&& !goal_fires(o) ==> {
        &&& n.status_msg == o.status_msg
        &&& n.notices == o.notices
        &&& n.bell == o.bell
        &&& n.same_but_status(&o)
    }
}

/// The goal is celebrated once: once a check has fired, a later check (on
/// a session that kept the announcement) changes neither the status line
/// nor the bell; and with no goal set, no check ever does.
pub proof fn lemma_goal_fires_once(a: App, b: App, c: App, d: App)
    requires
        goal_checked(a, b),
        goal_checked(c, d),
        goal_fires(a) || a.word_goal is None,
        c.notices.announced() == b.notices.announced(),
        c.word_goal == a.word_goal,
    ensures
        d.status_msg == c.status_msg,
        d.bell == c.bell,
        d.notices == c.notices,
{
}

/// Counting a cassette's words side by side, side A and then side B, gives
/// its word count, whichever side faces up.
pub proof fn lemma_side_words(c: Cassette)
    ensures
        words_in(c.side_a_seq()) + words_in(c.side_b_seq()) == cassette_words(c),
{
}

/// No open cassette comes after a closed one.
pub open spec fn open_first(s: Seq<Cassette>) -> bool {
    forall|a: int, b: int| 0 <= a < b < s.len() && (#[trigger] s[a]).closed ==> (#[trigger] s[b]).closed
}

proof fn lemma_sorted_open_first(s: Seq<Cassette>)
    requires
        queue_sorted(s),
    ensures
        open_first(s),
{
    assert forall|a: int, b: int| 0 <= a < b < s.len() && (#[trigger] s[a]).closed implies (
    #[trigger] s[b]).closed by {
        assert(key_le(s[a], s[b]));
    }
}

/// What a load keeps of a sequence with no open cassette after a closed one
/// has none either; and of one whose first `n` are all open, every kept one
/// is open.
proof fn lemma_kept_open_first(s: Seq<Cassette>, n: int)
    requires
        open_first(s),
        0 <= n <= s.len(),
    ensures
        open_first(kept_upto(s, n).0),
        (forall|j: int| 0 <= j < n ==> !(#[trigger] s[j]).closed) ==> (forall|i: int|
            0 <= i < kept_upto(s, n).0.len() ==> !(#[trigger] kept_upto(s, n).0[i]).closed),
        forall|i: int|
            0 <= i < kept_upto(s, n).0.len() ==> exists|j: int|
                0 <= j < n && #[trigger] kept_upto(s, n).0[i] == s[j],
    decreases n,
{
    if n > 0 {
        lemma_kept_open_first(s, n - 1);
        let k = kept_upto(s, n - 1).0;
        let c = s[n - 1];
        let r = kept_upto(s, n).0;
        if !c.closed {
            assert forall|j: int| 0 <= j < n - 1 implies !(#[trigger] s[j]).closed by {
                if s[j].closed {
                    assert(s[n - 1].closed);
                }
            }
        }
        assert forall|i: int| 0 <= i < r.len() implies exists|j: int|
            0 <= j < n && #[trigger] r[i] == s[j] by {
            if i < k.len() {
                assert(r[i] == k[i]);
                let j = choose|j: int| 0 <= j < n - 1 && #[trigger] k[i] == s[j];
                assert(r[i] == s[j]);
            } else {
                assert(r[i] == s[n - 1]);
            }
        }
        assert forall|a: int, b: int| 0 <= a < b < r.len() && (#[trigger] r[a]).closed implies (
        #[trigger] r[b]).closed by {
            if b < k.len() {
                assert(r[a] == k[a] && r[b] == k[b]);
            } else {
                assert(r[b] == c);
                assert(r[a] == k[a]);
                if !c.closed {
                    let j = choose|j: int| 0 <= j < n - 1 && #[trigger] k[a] == s[j];
                    assert(!s[j].closed);
                }
            }
        }
    }
}

/// In a sequence with no open cassette after a closed one, the open ones
/// are exactly the first `count_open` of them.
proof fn lemma_open_prefix(s: Seq<Cassette>)
    requires
        open_first(s),
    ensures
        count_open(s) <= s.len(),
        forall|i: int| 0 <= i < s.len() ==> (!(#[trigger] s[i]).closed <==> i < count_open(s)),
    decreases s.len(),
{
    if s.len() > 0 {
        let d = s.drop_last();
        assert(open_first(d)) by {
            assert forall|a: int, b: int| 0 <= a < b < d.len() && (#[trigger] d[a]).closed implies (
            #[trigger] d[b]).closed by {
                assert(d[a] == s[a] && d[b] == s[b]);
            }
        }
        lemma_open_prefix(d);
        if !s.last().closed {
            assert forall|i: int| 0 <= i < s.len() implies !(#[trigger] s[i]).closed by {
                if s[i].closed && i < s.len() - 1 {
                    assert(s[s.len() - 1].closed);
                }
            }
            assert forall|i: int| 0 <= i < d.len() implies !(#[trigger] d[i]).closed by {
                assert(d[i] == s[i]);
            }
        }
        assert forall|i: int| 0 <= i < s.len() implies (!(#[trigger] s[i]).closed <==> i < count_open(
            s,
        )) by {
            if i < d.len() {
                assert(d[i] == s[i]);
            }
        }
    }
}

/// After a load, whatever was loaded, the focused cassette is the last open
/// one, so the writer picks up where the open work ends and never on a
/// closed cassette: its index is the number of open cassettes less one, and
/// it is open.
pub proof fn lemma_load_focuses_last_open(sorted: Seq<Cassette>, cs: Seq<Cassette>, focus: int)
    requires
        queue_sorted(sorted),
        cs == retained(sorted),
        focus == min_sat(count_open(cs), cs.len()),
        count_open(cs) > 0,
    ensures
        focus == count_open(cs) - 1,
        0 <= focus < cs.len(),
        !cs[focus].closed,
        forall|i: int| focus < i < cs.len() ==> (#[trigger] cs[i]).closed,
{
    lemma_sorted_open_first(sorted);
    lemma_kept_open_first(sorted, sorted.len() as int);
    lemma_open_prefix(cs);
}

/// `n` is `o` with focus moved to the previous cassette, wrapping around,
/// the status line cleared and the scroll window following.
pub open spec fn focus_moved_prev(o: App, n: App) -> bool {
    let len = if o.cassettes@.len() > 1 {
        o.cassettes@.len() as int
    } else {
        1
    };
    &&& n.focus_idx == (o.focus_idx + len - 1) % len
    &&& n.cassette_scroll == fitted_scroll(
        o.cassette_scroll as int,
        n.focus_idx as int,
        o.cassettes@.len() as int,
        visible_count(o.term_height, o.visible_lines),
    )
    &&& n.focus_in_window()
    &&& n.cassettes@ == o.cassettes@
    &&& n.status_msg is None
    &&& n.notices.ticks() is None
    &&& n.notices.announced() == o.notices.announced()
    &&& n.bell == o.bell
    &&& n.same_frame(&o)
}

/// The width row motions wrap at for a terminal `term_width` columns wide.
pub open spec fn width_for(term_width: u16) -> int {
    if term_width - 6 > 20 {
        term_width - 6
    } else {
        20
    }
}

/// The cassettes `cs` are `o`'s after the edit `e` reached the focused one
/// (snapshot first when `snapshot`), which is then unsaved — or, read-only
/// or with no focused cassette, `o`'s unchanged.
#[verifier::opaque]
pub open spec fn focused_edit(o: App, cs: Seq<Cassette>, snapshot: bool, e: Edit) -> bool {
    let f = o.focus_idx as int;
    &&& cs.len() == o.cassettes@.len()
    &&& if o.read_only || f >= o.cassettes@.len() {
        cs == o.cassettes@
    } else {
        &&& forall|k: int| 0 <= k < o.cassettes@.len() && k != f ==> cs[k] == o.cassettes@[k]
        &&& exists|c: Cassette|
            applied(o.cassettes@[f], c, snapshot, e, width_for(o.term_width)) && cs[f] == (
            Cassette { dirty: true, ..c })
    }
}

/// `n` is `o` after the edit `e` reached the focused cassette (see
/// `focused_edit`); nothing else changes.
pub open spec fn edited(o: App, n: App, snapshot: bool, e: Edit) -> bool {
    &&& focused_edit(o, n.cassettes@, snapshot, e)
    &&& n.cassettes@.len() == o.cassettes@.len()
    &&& n.focus_idx == o.focus_idx
    &&& n.cassette_scroll == o.cassette_scroll
    &&& n.status_msg == o.status_msg
    &&& n.notices == o.notices
    &&& n.bell == o.bell
    &&& n.same_frame(&o)
}

impl App {
    /// Seconds of idleness before the "keep the tape rolling" nudge shows.
    pub const IDLE_NUDGE_SECS: u32 = 10;

    /// The per-cassette row count fits the terminal's row arithmetic.
    pub open spec fn layout_ok(&self) -> bool {
        (self.visible_lines as u16) < 65535
    }

    /// The focused cassette lies inside the scroll window.
    pub open spec fn focus_in_window(&self) -> bool {
        self.focus_idx < self.cassettes.len() ==> self.cassette_scroll <= self.focus_idx
            < self.cassette_scroll + visible_count(self.term_height, self.visible_lines)
    }

    /// Only the status line (message, countdown, bell) may differ.
    pub open spec fn same_but_status(&self, o: &Self) -> bool {
        &&& self.cassettes@ == o.cassettes@
        &&& self.focus_idx == o.focus_idx
        &&& self.cassette_scroll == o.cassette_scroll
        &&& self.same_frame(o)
    }

    /// Everything but the cassettes, the focus, the scroll window and the
    /// status line agrees.
    pub open spec fn same_frame(&self, o: &Self) -> bool {
        &&& self.term_width == o.term_width
        &&& self.term_height == o.term_height
        &&& self.timer_secs == o.timer_secs
        &&& self.timer_original_secs == o.timer_original_secs
        &&& self.word_goal == o.word_goal
        &&& self.should_quit == o.should_quit
        &&& self.visible_lines == o.visible_lines
        &&& self.mode == o.mode
        &&& self.pending == o.pending
        &&& self.topic_input@ == o.topic_input@
        &&& self.topic_return == o.topic_return
        &&& self.record == o.record
        &&& self.baseline_words == o.baseline_words
        &&& self.idle_secs == o.idle_secs
        &&& self.session@ == o.session@
        &&& self.read_only == o.read_only
        &&& self.busy_holder == o.busy_holder
        &&& self.suspend == o.suspend
    }

    /// Words written this sitting: the total less what a load brought in.
    pub open spec fn session_words(&self) -> nat {
        let t = total_words(self.cassettes@);
        if t > self.baseline_words {
            (t - self.baseline_words) as nat
        } else {
            0
        }
    }

    pub fn new(
        timer_secs: Option<u32>,
        word_goal: Option<usize>,
        visible_lines: Option<usize>,
        session: String,
    ) -> (app: Self)
        ensures
            app.cassettes@.len() == 1,
            app.cassettes@[0].text_seq() == Seq::<char>::empty(),
            app.cassettes@[0].back_seq() == Seq::<char>::empty(),
            app.cassettes@[0].side == Side::A,
            app.cassettes@[0].id@ == Seq::<char>::empty(),
            app.cassettes@[0].priority == i64::MAX,
            !app.cassettes@[0].closed,
            !app.cassettes@[0].dirty,
            app.focus_idx == 0,
            app.cassette_scroll == 0,
            app.term_width == 80,
            app.term_height == 24,
            app.status_msg is None,
            app.timer_secs == timer_secs,
            app.timer_original_secs == timer_secs,
            app.word_goal == word_goal,
            !app.should_quit,
            app.visible_lines == (match visible_lines {
                Some(n) => if n < MIN_VISIBLE_LINES {
                    MIN_VISIBLE_LINES
                } else if n > MAX_VISIBLE_LINES {
                    MAX_VISIBLE_LINES
                } else {
                    n
                },
                None => VISIBLE_LINES,
            }),
            app.mode == Mode::Insert,
            app.pending is None,
            app.topic_input@ == Seq::<char>::empty(),
            app.topic_return == Mode::Normal,
            !app.record,
            app.baseline_words == 0,
            app.idle_secs == 0,
            app.session == session,
            !app.read_only,
            app.busy_holder is None,
            !app.bell,
            !app.suspend,
            app.notices.ticks() is None,
            !app.notices.announced(),
            app.layout_ok(),
    {
        let lines = match visible_lines {
            Some(n) => n,
            None => VISIBLE_LINES,
        };
        let lines = if lines < MIN_VISIBLE_LINES {
            MIN_VISIBLE_LINES
        } else if lines > MAX_VISIBLE_LINES {
            MAX_VISIBLE_LINES
        } else {
            lines
        };
        let mut cassettes = Vec::new();
        cassettes.push(Cassette::new());
        App {
            cassettes,
            focus_idx: 0,
            cassette_scroll: 0,
            term_width: 80,
            term_height: 24,
            status_msg: None,
            timer_secs,
            timer_original_secs: timer_secs,
            word_goal,
            should_quit: false,
            visible_lines: lines,
            started_at: now(),
            mode: Mode::Insert,
            pending: None,
            topic_input: String::new(),
            topic_return: Mode::Normal,
            record: false,
            baseline_words: 0,
            idle_secs: 0,
            session,
            read_only: false,
            busy_holder: None,
            bell: false,
            suspend: false,
            notices: Notices { status_ticks: None, goal_announced: false },
        }
    }

    /// Show `msg` on the status line for a few seconds, with a bell.
    pub fn flash(&mut self, msg: String)
        ensures
            final(self).status_msg == Some(msg),
            final(self).notices.ticks() == Some(STATUS_FLASH_SECS),
            final(self).notices.announced() == old(self).notices.announced(),
            final(self).bell,
            final(self).same_but_status(&*old(self)),
    {
        self.status_msg = Some(msg);
        self.notices.status_ticks = Some(STATUS_FLASH_SECS);
        self.bell = true;
    }

    fn clear_status(&mut self)
        ensures
            final(self).status_msg is None,
            final(self).notices.ticks() is None,
            final(self).notices.announced() == old(self).notices.announced(),
            final(self).bell == old(self).bell,
            final(self).same_but_status(&*old(self)),
    {
        self.status_msg = None;
        self.notices.status_ticks = None;
    }

    /// True when nothing has been written on any side of any cassette.
    pub fn is_empty(&self) -> (b: bool)
        ensures
            b == forall|i: int| 0 <= i < self.cassettes@.len() ==> blank(#[trigger] self.cassettes@[i]),
    {
        let mut i: usize = 0;
        while i < self.cassettes.len()
            invariant
                i <= self.cassettes@.len(),
                forall|k: int| 0 <= k < i ==> blank(#[trigger] self.cassettes@[k]),
            decreases self.cassettes@.len() - i,
        {
            let a = self.cassettes[i].side_a_text();
            let b = self.cassettes[i].side_b_text();
            if !is_blank(a.as_str()) || !is_blank(b.as_str()) {
                return false;
            }
            assert(blank(self.cassettes@[i as int]));
            i = i + 1;
        }
        true
    }

    /// Words on every cassette, both sides.
    pub fn total_word_count(&self) -> (n: usize)
        requires
            total_words(self.cassettes@) <= usize::MAX,
        ensures
            n == total_words(self.cassettes@),
    {
        let mut n: usize = 0;
        let mut i: usize = 0;
        while i < self.cassettes.len()
            invariant
                i <= self.cassettes@.len(),
                n == total_words(self.cassettes@.take(i as int)),
                total_words(self.cassettes@) <= usize::MAX,
            decreases self.cassettes@.len() - i,
        {
            proof {
                lemma_total_words_prefix(self.cassettes@, i + 1);
                assert(self.cassettes@.take(i + 1).drop_last() =~= self.cassettes@.take(i as int));
            }
            let w = self.cassettes[i].word_count();
            n = n + w;
            i = i + 1;
        }
        assert(self.cassettes@.take(i as int) =~= self.cassettes@);
        n
    }

    /// Words written this sitting: the total minus what a load brought in.
    pub fn session_word_count(&self) -> (n: usize)
        requires
            total_words(self.cassettes@) <= usize::MAX,
        ensures
            n == self.session_words(),
    {
        let t = self.total_word_count();
        t.saturating_sub(self.baseline_words)
    }

    /// Announce the word goal the first time this session's words reach it.
    pub fn check_goal(&mut self)
        requires
            total_words(old(self).cassettes@) <= usize::MAX,
        ensures
            goal_checked(*old(self), *final(self)),
    {
        if self.notices.goal_announced {
            return;
        }
        if let Some(goal) = self.word_goal {
            let words = self.session_word_count();
            if words >= goal {
                self.notices.goal_announced = true;
                let mut msg = owned("goal reached — ");
                push_dec(&mut msg, words as u64);
                push_str(&mut msg, " words. keep rolling!");
                self.flash(msg);
            }
        }
    }

    /// One second of no keypresses has passed.
    pub fn tick_idle(&mut self)
        ensures
            final(self).idle_secs == (if old(self).idle_secs < u32::MAX {
                old(self).idle_secs + 1
            } else {
                u32::MAX as int
            }),
    {
        self.idle_secs = self.idle_secs.saturating_add(1);
    }

    /// A gentle nudge when a timed or record session has gone quiet; plain
    /// untimed sessions are never nudged.
    pub fn idle_nudge(&self) -> (b: bool)
        ensures
            b == ((self.timer_secs is Some || self.record) && self.idle_secs
                >= Self::IDLE_NUDGE_SECS),
    {
        (self.timer_secs.is_some() || self.record) && self.idle_secs >= Self::IDLE_NUDGE_SECS
    }

    /// Count down a transient status message; clears it when time is up.
    pub fn tick_status(&mut self)
        ensures
            match old(self).notices.ticks() {
                Some(t) => if t <= 1 {
                    &&& final(self).status_msg is None
                    &&& final(self).notices.ticks() is None
                } else {
                    &&& final(self).status_msg == old(self).status_msg
                    &&& final(self).notices.ticks() == Some((t - 1) as u32)
                },
                None => {
                    &&& final(self).status_msg == old(self).status_msg
                    &&& final(self).notices.ticks() is None
                },
            },
            final(self).notices.announced() == old(self).notices.announced(),
            final(self).bell == old(self).bell,
            final(self).same_but_status(&*old(self)),
    {
        if let Some(t) = self.notices.status_ticks {
            if t <= 1 {
                self.clear_status();
            } else {
                self.notices.status_ticks = Some(t - 1);
            }
        }
    }

    /// Width of the text region inside a cassette: the terminal width less
    /// the side padding and the line-number gutter, never under 20.
    pub fn cassette_width(&self) -> (w: usize)
        ensures
            w == (if self.term_width - 6 > 20 {
                self.term_width - 6
            } else {
                20
            }),
    {
        let w = (self.term_width as usize).saturating_sub(2 + GUTTER_WIDTH);
        if w > 20 {
            w
        } else {
            20
        }
    }

    /// Rows taken by the focused cassette: its separator and its text lines.
    pub fn rows_per_cassette(&self) -> (r: u16)
        requires
            self.layout_ok(),
        ensures
            r == (self.visible_lines as u16) + 1,
    {
        let v = self.visible_lines as u16;
        v + 1
    }

    /// Nothing but whitespace on either side.
pub open spec fn blank(c: Cassette) -> bool {
    trim(c.side_a_seq()).len() == 0 && trim(c.side_b_seq()).len() == 0
}

/// How many cassettes fit on screen at once: the focused one full
    /// height, the rest minimized.
    pub fn visible_cassette_count(&self) -> (n: usize)
        requires
            self.layout_ok(),
        ensures
            n == visible_count(self.term_height, self.visible_lines),
            n >= 1,
    {
        let available = self.term_height.saturating_sub(UI_OVERHEAD);
        let focused = self.rows_per_cassette();
        if available <= focused {
            return 1;
        }
        1 + ((available - focused) / MINIMIZED_ROWS) as usize
    }

    /// Keep the focused cassette inside the visible window, the window
    /// clamped to the cassette list.
    fn ensure_focus_visible(&mut self)
        requires
            old(self).layout_ok(),
        ensures
            final(self).cassette_scroll == fitted_scroll(
                old(self).cassette_scroll as int,
                old(self).focus_idx as int,
                old(self).cassettes@.len() as int,
                visible_count(old(self).term_height, old(self).visible_lines),
            ),
            final(self).focus_in_window(),
            final(self).cassettes == old(self).cassettes,
            final(self).focus_idx == old(self).focus_idx,
            final(self).status_msg == old(self).status_msg,
            final(self).notices == old(self).notices,
            final(self).bell == old(self).bell,
            final(self).same_frame(&*old(self)),
    {
        let visible = self.visible_cassette_count();
        let max_scroll = self.cassettes.len().saturating_sub(visible);
        if self.cassette_scroll > max_scroll {
            self.cassette_scroll = max_scroll;
        }
        if self.focus_idx < self.cassette_scroll {
            self.cassette_scroll = self.focus_idx;
        } else if self.focus_idx - self.cassette_scroll >= visible {
            self.cassette_scroll = self.focus_idx - visible + 1;
        }
    }

    /// How many cassettes are open.
    pub fn open_count(&self) -> (n: usize)
        ensures
            n == count_open(self.cassettes@),
    {
        let mut n: usize = 0;
        let mut i: usize = 0;
        while i < self.cassettes.len()
            invariant
                i <= self.cassettes@.len(),
                n == count_open(self.cassettes@.take(i as int)),
                n <= i,
            decreases self.cassettes@.len() - i,
        {
            assert(self.cassettes@.take(i + 1).drop_last() =~= self.cassettes@.take(i as int));
            if !self.cassettes[i].closed {
                n = n + 1;
            }
            i = i + 1;
        }
        assert(self.cassettes@.take(i as int) =~= self.cassettes@);
        n
    }

    /// Put the cassettes in queue order: open before closed, then priority,
    /// then id (an unminted cassette, with an empty id, after every minted
    /// one). Focus stays on the same cassette, found again by its id.
    pub fn sort_queue(&mut self)
        requires
            old(self).layout_ok(),
        ensures
            final(self).cassettes@.to_multiset() == old(self).cassettes@.to_multiset(),
            final(self).cassettes@.len() == old(self).cassettes@.len(),
            queue_sorted(final(self).cassettes@),
            old(self).focus_idx < old(self).cassettes@.len() ==> first_with_id(
                final(self).cassettes@,
                old(self).cassettes@[old(self).focus_idx as int].id@,
                final(self).focus_idx as int,
            ),
            old(self).focus_idx >= old(self).cassettes@.len() ==> final(self).focus_idx == old(self).focus_idx,
            final(self).cassette_scroll == fitted_scroll(
                old(self).cassette_scroll as int,
                final(self).focus_idx as int,
                old(self).cassettes@.len() as int,
                visible_count(old(self).term_height, old(self).visible_lines),
            ),
            final(self).focus_in_window(),
            final(self).status_msg == old(self).status_msg,
            final(self).notices == old(self).notices,
            final(self).bell == old(self).bell,
            final(self).same_frame(&*old(self)),
    {
        broadcast use vstd::seq_lib::group_to_multiset_ensures;

        let ghost old_cs = self.cassettes@;
        let focused_id = if self.focus_idx < self.cassettes.len() {
            Some(self.cassettes[self.focus_idx].id.clone())
        } else {
            None
        };
        sort_cassettes(&mut self.cassettes);
        if let Some(id) = focused_id {
            proof {
                let c0 = old_cs[self.focus_idx as int];
                vstd::seq_lib::to_multiset_contains(old_cs, c0);
                vstd::seq_lib::to_multiset_contains(self.cassettes@, c0);
                assert(old_cs.contains(c0));
                assert(self.cassettes@.contains(c0));
            }
            match position_of_id(&self.cassettes, id.as_str()) {
                Some(i) => {
                    self.focus_idx = i;
                },
                None => {
                    proof {
                        let c0 = old_cs[self.focus_idx as int];
                        let k = choose|k: int|
                            0 <= k < self.cassettes@.len() && self.cassettes@[k] == c0;
                        assert(self.cassettes@[k].id@ != id@);
                    }
                },
            }
        }
        self.ensure_focus_visible();
    }

    /// Start a new cassette at the end of the open ones and focus it, unless
    /// the open ones are at the cap, which the status line then reports.
    /// Closed cassettes do not count against the cap.
    pub fn add_cassette(&mut self)
        requires
            old(self).layout_ok(),
        ensures
            cassette_added(*old(self), *final(self)),
    {
        broadcast use vstd::seq_lib::group_to_multiset_ensures;

        if self.open_count() >= MAX_CASSETTES {
            let mut msg = owned("Cassette limit reached (");
            push_dec(&mut msg, MAX_CASSETTES as u64);
            push_str(&mut msg, ").");
            self.status_msg = Some(msg);
            return;
        }
        let ghost before = self.cassettes@;
        let c = Cassette::new();
        let ghost newc = c;
        self.cassettes.push(c);
        proof {
            assert(self.cassettes@ == before.push(newc));
            lemma_count_open_push(before, newc);
        }
        self.sort_queue();
        proof {
            lemma_count_open_multiset(before.push(newc), self.cassettes@);
            assert(before.push(newc).to_multiset() == before.to_multiset().insert(newc));
            assert(fresh(newc));
        }
        let n = self.open_count();
        self.focus_idx = n - 1;
        self.clear_status();
        self.ensure_focus_visible();
    }

    /// Move focus to the next cassette, wrapping around.
    pub fn focus_next(&mut self)
        requires
            old(self).layout_ok(),
            old(self).focus_idx < usize::MAX,
        ensures
            focus_moved_next(*old(self), *final(self)),
    {
        let n = if self.cassettes.len() > 1 {
            self.cassettes.len()
        } else {
            1
        };
        self.focus_idx = (self.focus_idx + 1) % n;
        self.clear_status();
        self.ensure_focus_visible();
    }

    /// Move focus to the previous cassette, wrapping around.
    pub fn focus_prev(&mut self)
        requires
            old(self).layout_ok(),
            old(self).focus_idx + (if old(self).cassettes@.len() > 1 {
                old(self).cassettes@.len() as int
            } else {
                1
            }) <= usize::MAX,
        ensures
            focus_moved_prev(*old(self), *final(self)),
    {
        let n = if self.cassettes.len() > 1 {
            self.cassettes.len()
        } else {
            1
        };
        self.focus_idx = (self.focus_idx + n - 1) % n;
        self.clear_status();
        self.ensure_focus_visible();
    }

    /// Apply `f` to the focused cassette and mark it dirty — unless this
    /// process does not hold its lock (`read_only`), in which case the edit
    /// is dropped.
    pub fn modify_focused<F: FnOnce(&mut Cassette)>(&mut self, f: F)
        requires
            forall|c: &mut Cassette| f.requires((c,)),
        ensures
            final(self).cassettes@.len() == old(self).cassettes@.len(),
            forall|k: int|
                0 <= k < old(self).cassettes@.len() && k != old(self).focus_idx ==> final(self).cassettes@[k] == old(self).cassettes@[k],
            old(self).read_only ==> final(self).cassettes@ == old(self).cassettes@,
            !old(self).read_only && old(self).focus_idx < old(self).cassettes@.len() ==> exists|
                r: &mut Cassette,
            |
                #![trigger f.ensures((r,), ())]
                *r == old(self).cassettes@[old(self).focus_idx as int] && f.ensures((r,), ())
                    && final(self).cassettes@[old(self).focus_idx as int] == (Cassette {
                    dirty: true,
                    ..*final(r)
                }),
            old(self).focus_idx >= old(self).cassettes@.len() ==> final(self).cassettes@ == old(self).cassettes@,
            final(self).focus_idx == old(self).focus_idx,
            final(self).cassette_scroll == old(self).cassette_scroll,
            final(self).status_msg == old(self).status_msg,
            final(self).notices == old(self).notices,
            final(self).bell == old(self).bell,
            final(self).same_frame(&*old(self)),
    {
        if self.read_only {
            return;
        }
        if self.focus_idx < self.cassettes.len() {
            let i = self.focus_idx;
            f(&mut self.cassettes[i]);
            self.cassettes[i].dirty = true;
        }
    }

    /// Apply the edit `e` to the focused cassette (an undo snapshot first
    /// when `snapshot`) and mark it dirty — unless this process does not hold
    /// its lock (`read_only`), in which case the edit is dropped. The key
    /// bindings edit through this.
    pub fn edit_focused(&mut self, snapshot: bool, e: Edit)
        ensures
            edited(*old(self), *final(self), snapshot, e),
    {
        reveal(focused_edit);
        if self.read_only {
            return;
        }
        if self.focus_idx < self.cassettes.len() {
            let i = self.focus_idx;
            let w = self.cassette_width();
            self.cassettes[i].apply(snapshot, e, w);
            let ghost c = self.cassettes@[i as int];
            assert(applied(old(self).cassettes@[i as int], c, snapshot, e, width_for(old(self).term_width)));
            self.cassettes[i].dirty = true;
            assert(self.cassettes@[i as int] == (Cassette { dirty: true, ..c }));
            assert(forall|k: int| 0 <= k < old(self).cassettes@.len() && k != i ==> self.cassettes@[k] == old(self).cassettes@[k]);
            assert(self.same_frame(&*old(self)));
        }
    }

    /// Indices of cassettes with unsaved edits, in list order.
    pub fn dirty_indices(&self) -> (r: Vec<usize>)
        ensures
            r@ == dirty_upto(self.cassettes@, self.cassettes@.len() as int),
    {
        let mut r: Vec<usize> = Vec::new();
        let mut i: usize = 0;
        while i < self.cassettes.len()
            invariant
                i <= self.cassettes@.len(),
                r@ == dirty_upto(self.cassettes@, i as int),
            decreases self.cassettes@.len() - i,
        {
            if self.cassettes[i].dirty {
                r.push(i);
            }
            i = i + 1;
        }
        r
    }

    /// Mark cassette `idx` as saved. Out-of-range indices are a no-op.
    pub fn clear_dirty(&mut self, idx: usize)
        ensures
            final(self).cassettes@.len() == old(self).cassettes@.len(),
            forall|k: int|
                0 <= k < old(self).cassettes@.len() && k != idx ==> final(self).cassettes@[k]
                    == old(self).cassettes@[k],
            idx < old(self).cassettes@.len() ==> {
                let c = final(self).cassettes@[idx as int];
                let o = old(self).cassettes@[idx as int];
                &&& !c.dirty
                &&& c.left == o.left
                &&& c.right == o.right
                &&& c.undo == o.undo
                &&& c.back == o.back
                &&& c.side == o.side
                &&& c.topic == o.topic
                &&& c.id == o.id
                &&& c.priority == o.priority
                &&& c.closed == o.closed
                &&& c.locked_by == o.locked_by
            },
            final(self).focus_idx == old(self).focus_idx,
            final(self).cassette_scroll == old(self).cassette_scroll,
            final(self).status_msg == old(self).status_msg,
            final(self).notices == old(self).notices,
            final(self).bell == old(self).bell,
            final(self).same_frame(&*old(self)),
    {
        if idx < self.cassettes.len() {
            self.cassettes[idx].dirty = false;
        }
    }

    /// One second of the session timer: counts down to zero, and flashes
    /// the time-up message with a bell as it reaches zero.
    pub fn tick_timer(&mut self)
        ensures
            match old(self).timer_secs {
                Some(n) => if n > 0 {
                    &&& final(self).timer_secs == Some((n - 1) as u32)
                    &&& n == 1 ==> {
                        &&& final(self).status_msg matches Some(m) && m@ == time_message(
                            old(self).record,
                        )
                        &&& final(self).notices.ticks() == Some(STATUS_FLASH_SECS)
                        &&& final(self).bell
                    }
                    &&& n != 1 ==> {
                        &&& final(self).status_msg == old(self).status_msg
                        &&& final(self).notices == old(self).notices
                        &&& final(self).bell == old(self).bell
                    }
                } else {
                    &&& final(self).timer_secs == old(self).timer_secs
                    &&& final(self).status_msg == old(self).status_msg
                    &&& final(self).notices == old(self).notices
                    &&& final(self).bell == old(self).bell
                },
                None => {
                    &&& final(self).timer_secs is None
                    &&& final(self).status_msg == old(self).status_msg
                    &&& final(self).notices == old(self).notices
                    &&& final(self).bell == old(self).bell
                },
            },
            final(self).notices.announced() == old(self).notices.announced(),
            final(self).cassettes@ == old(self).cassettes@,
            final(self).focus_idx == old(self).focus_idx,
            final(self).cassette_scroll == old(self).cassette_scroll,
            final(self).record == old(self).record,
    {
        if let Some(n) = self.timer_secs {
            if n > 0 {
                self.timer_secs = Some(n - 1);
                if n == 1 {
                    let mut msg = owned("time — keep going, or ");
                    if self.record {
                        push_str(&mut msg, "^C");
                    } else {
                        push_str(&mut msg, "q");
                    }
                    push_str(&mut msg, " to save");
                    self.flash(msg);
                }
            }
        }
    }

    /// The terminal changed size; the scroll window follows.
    pub fn resize(&mut self, width: u16, height: u16)
        requires
            old(self).layout_ok(),
        ensures
            final(self).term_width == width,
            final(self).term_height == height,
            final(self).cassette_scroll == fitted_scroll(
                old(self).cassette_scroll as int,
                old(self).focus_idx as int,
                old(self).cassettes@.len() as int,
                visible_count(height, old(self).visible_lines),
            ),
            final(self).focus_in_window(),
            final(self).cassettes == old(self).cassettes,
            final(self).focus_idx == old(self).focus_idx,
            final(self).status_msg == old(self).status_msg,
            final(self).notices == old(self).notices,
            final(self).visible_lines == old(self).visible_lines,
    {
        self.term_width = width;
        self.term_height = height;
        self.ensure_focus_visible();
    }

    /// Number of cassettes hidden above and below the visible window.
    pub fn hidden_cassettes(&self) -> (r: (usize, usize))
        requires
            self.layout_ok(),
            self.cassette_scroll + visible_count(self.term_height, self.visible_lines)
                <= usize::MAX,
        ensures
            r.0 == self.cassette_scroll,
            r.1 == (if self.cassettes@.len() > self.cassette_scroll + visible_count(
                self.term_height,
                self.visible_lines,
            ) {
                self.cassettes@.len() - (self.cassette_scroll + visible_count(
                    self.term_height,
                    self.visible_lines,
                ))
            } else {
                0
            }),
    {
        let visible = self.visible_cassette_count();
        let below = self.cassettes.len().saturating_sub(self.cassette_scroll + visible);
        (self.cassette_scroll, below)
    }

    /// The reel stats: the timer as `mm:ss` and this session's words against
    /// the goal, or `◆` when neither is set.
    pub fn format_stats(&self) -> (s: String)
        requires
            total_words(self.cassettes@) <= usize::MAX,
        ensures
            s@ == stats_text(self.timer_secs, self.word_goal, self.session_words()),
    {
        let total_wc = self.session_word_count();
        if self.timer_secs.is_none() && self.word_goal.is_none() {
            return owned("◆");
        }
        let mut s = String::new();
        if let Some(n) = self.timer_secs {
            push_dec2(&mut s, (n / 60) as u64);
            push_str(&mut s, ":");
            push_dec2(&mut s, (n % 60) as u64);
        }
        if self.timer_secs.is_some() && self.word_goal.is_some() {
            push_str(&mut s, "  ·  ");
        }
        if let Some(g) = self.word_goal {
            push_dec(&mut s, total_wc as u64);
            push_str(&mut s, " / ");
            push_dec(&mut s, g as u64);
        }
        assert(s@ =~= stats_text(self.timer_secs, self.word_goal, self.session_words()));
        s
    }

    /// Seed the session from a topic template: one cassette per topic, in
    /// order, capped at `MAX_CASSETTES`. The first topic lands on the
    /// cassette already there; focus goes to the first.
    pub fn apply_topics(&mut self, topics: &[String])
        requires
            old(self).layout_ok(),
        ensures
            ({
                let m = if topics@.len() < MAX_CASSETTES {
                    topics@.len() as int
                } else {
                    MAX_CASSETTES as int
                };
                let n0 = old(self).cassettes@.len() as int;
                &&& final(self).cassettes@.len() == (if n0 > m {
                    n0
                } else {
                    m
                })
                &&& forall|k: int|
                    0 <= k < m ==> (#[trigger] final(self).cassettes@[k]).topic == Some(topics@[k])
                &&& forall|k: int|
                    0 <= k < m && k < n0 ==> same_but_topic(
                        #[trigger] final(self).cassettes@[k],
                        old(self).cassettes@[k],
                    )
                &&& forall|k: int| n0 <= k < m ==> fresh(#[trigger] final(self).cassettes@[k])
                &&& forall|k: int|
                    m <= k < n0 ==> #[trigger] final(self).cassettes@[k] == old(self).cassettes@[k]
            }),
            final(self).focus_idx == 0,
            final(self).cassette_scroll == fitted_scroll(
                old(self).cassette_scroll as int,
                0,
                final(self).cassettes@.len() as int,
                visible_count(old(self).term_height, old(self).visible_lines),
            ),
            final(self).focus_in_window(),
            final(self).status_msg == old(self).status_msg,
            final(self).notices == old(self).notices,
            final(self).bell == old(self).bell,
            final(self).same_frame(&*old(self)),
    {
        let m = if topics.len() < MAX_CASSETTES {
            topics.len()
        } else {
            MAX_CASSETTES
        };
        let ghost n0 = self.cassettes@.len() as int;
        let ghost start = self.cassettes@;
        let mut i: usize = 0;
        while i < m
            invariant
                m <= topics@.len(),
                m <= MAX_CASSETTES,
                i <= m,
                n0 == start.len(),
                self.cassettes@.len() == (if n0 > i {
                    n0
                } else {
                    i as int
                }),
                forall|k: int|
                    0 <= k < i ==> (#[trigger] self.cassettes@[k]).topic == Some(topics@[k]),
                forall|k: int|
                    0 <= k < i && k < n0 ==> same_but_topic(
                        #[trigger] self.cassettes@[k],
                        start[k],
                    ),
                forall|k: int| n0 <= k < i ==> fresh(#[trigger] self.cassettes@[k]),
                forall|k: int| i <= k < n0 ==> #[trigger] self.cassettes@[k] == start[k],
                self.layout_ok(),
                self.same_frame(&*old(self)),
                self.status_msg == old(self).status_msg,
                self.notices == old(self).notices,
                self.bell == old(self).bell,
                self.cassette_scroll == old(self).cassette_scroll,
            decreases m - i,
        {
            if i >= self.cassettes.len() {
                self.cassettes.push(Cassette::new());
            }
            let t = topics[i].clone();
            self.cassettes[i].topic = Some(t);
            i = i + 1;
        }
        self.focus_idx = 0;
        self.ensure_focus_visible();
    }

    /// Replace the session's cassettes with ones loaded from the store. They
    /// are put in queue order; every closed one is kept and the first
    /// `MAX_CASSETTES` open ones. Their words become the baseline this
    /// sitting's words are counted on top of, and focus lands on the last
    /// open cassette (ready to keep writing). An empty list changes nothing.
    pub fn load_cassettes(&mut self, cassettes: Vec<Cassette>)
        requires
            old(self).layout_ok(),
            total_words(cassettes@) <= usize::MAX,
        ensures
            cassettes@.len() == 0 ==> *final(self) == *old(self),
            cassettes@.len() > 0 ==> {
                &&& exists|sorted: Seq<Cassette>|
                    {
                        &&& sorted.to_multiset() == cassettes@.to_multiset()
                        &&& queue_sorted(sorted)
                        &&& final(self).cassettes@ == retained(sorted)
                    }
                &&& final(self).baseline_words == total_words(final(self).cassettes@)
                &&& final(self).session_words() == 0
                &&& final(self).focus_idx == min_sat(
                    count_open(final(self).cassettes@),
                    final(self).cassettes@.len(),
                )
                &&& final(self).focus_in_window()
            },
            final(self).status_msg == old(self).status_msg,
            final(self).notices == old(self).notices,
            final(self).bell == old(self).bell,
            final(self).term_height == old(self).term_height,
            final(self).visible_lines == old(self).visible_lines,
            final(self).read_only == old(self).read_only,
    {
        broadcast use vstd::seq_lib::group_to_multiset_ensures;

        if cassettes.len() == 0 {
            return;
        }
        let ghost input = cassettes@;
        self.cassettes = cassettes;
        self.sort_queue();
        let ghost sorted = self.cassettes@;
        let mut src: Vec<Cassette> = Vec::new();
        std::mem::swap(&mut src, &mut self.cassettes);
        let mut kept: Vec<Cassette> = Vec::new();
        let mut open_kept: usize = 0;
        let mut i: usize = 0;
        let n = src.len();
        while i < n
            invariant
                n == sorted.len(),
                i <= n,
                src@ == sorted.skip(i as int),
                kept@ == kept_upto(sorted, i as int).0,
                open_kept == kept_upto(sorted, i as int).1,
                open_kept <= i,
            decreases n - i,
        {
            assert(src@[0] == sorted[i as int]);
            let c = src.remove(0);
            assert(src@ =~= sorted.skip(i + 1));
            if c.closed {
                kept.push(c);
            } else {
                open_kept = open_kept + 1;
                if open_kept <= MAX_CASSETTES {
                    kept.push(c);
                }
            }
            i = i + 1;
        }
        self.cassettes = kept;
        proof {
            lemma_total_words_multiset(sorted, input);
            lemma_kept_words(sorted, sorted.len() as int);
            assert(sorted.take(sorted.len() as int) =~= sorted);
        }
        self.baseline_words = self.total_word_count();
        let open = self.open_count();
        let len = self.cassettes.len();
        let a = if open >= 1 {
            open - 1
        } else {
            0
        };
        let b = if len >= 1 {
            len - 1
        } else {
            0
        };
        self.focus_idx = if a < b {
            a
        } else {
            b
        };
        self.ensure_focus_visible();
    }

    /// Merge one cassette read from the store into the list: update it in
    /// place if this process already holds a copy (found by id, not by
    /// index), or insert `incoming` as a newcomer at `insert_at`.
    ///
    /// Cursor rule: if the existing cassette's cursor sat at the end of its
    /// active side, the merged cursor follows the incoming text's new end;
    /// otherwise it stays at the same character offset, clamped to the
    /// incoming text. The active side stays active.
    ///
    /// When the incoming sides (trimmed) and topic already match, nothing is
    /// rebuilt — cursor and undo history survive — and only `locked_by` is
    /// taken from `incoming`. Whichever cassette was focused is still
    /// focused afterwards. A cassette with unsaved edits is never merged
    /// over.
    pub fn merge_external(&mut self, id: &str, incoming: Cassette, insert_at: usize)
        requires
            old(self).layout_ok(),
            forall|k: int|
                first_with_id(old(self).cassettes@, id@, k) ==> !(
                #[trigger] old(self).cassettes@[k]).dirty,
        ensures
            ({
                let cs = old(self).cassettes@;
                let ncs = final(self).cassettes@;
                match find_id(cs, id@) {
                    Some(idx) => {
                        let ex = cs[idx];
                        if unchanged_content(ex, incoming) {
                            &&& ncs == cs.update(idx, Cassette { locked_by: incoming.locked_by, ..ex })
                            &&& final(self).focus_idx == old(self).focus_idx
                            &&& final(self).cassette_scroll == old(self).cassette_scroll
                        } else {
                            &&& ncs.len() == cs.len()
                            &&& forall|k: int| 0 <= k < cs.len() && k != idx ==> ncs[k] == cs[k]
                            &&& merged_from(ex, incoming, id@, ncs[idx])
                            &&& refocused(*old(self), *final(self))
                        }
                    },
                    None => {
                        let at = if insert_at < cs.len() {
                            insert_at as int
                        } else {
                            cs.len() as int
                        };
                        &&& ncs.len() == cs.len() + 1
                        &&& ncs == cs.insert(at, ncs[at])
                        &&& ncs[at] == Cassette { id: ncs[at].id, ..incoming }
                        &&& ncs[at].id@ == id@
                        &&& refocused(*old(self), *final(self))
                    },
                }
            }),
            final(self).status_msg == old(self).status_msg,
            final(self).notices == old(self).notices,
            final(self).bell == old(self).bell,
            final(self).same_frame(&*old(self)),
    {
        let ghost cs = self.cassettes@;
        let focused_id = if self.focus_idx < self.cassettes.len() {
            Some(self.cassettes[self.focus_idx].id.clone())
        } else {
            None
        };
        match position_of_id(&self.cassettes, id) {
            Some(idx) => {
                proof {
                    lemma_find_id(cs, id@, idx as int);
                }
                if same_content(&self.cassettes[idx], &incoming) {
                    self.cassettes[idx].locked_by = incoming.locked_by;
                    proof {
                        assert(self.cassettes@ =~= cs.update(
                            idx as int,
                            Cassette { locked_by: incoming.locked_by, ..cs[idx as int] },
                        ));
                    }
                    return;
                }
                let merged = rebuild(&self.cassettes[idx], incoming, id);
                self.cassettes.set(idx, merged);
                proof {
                    if focused_id is Some {
                        let f = old(self).focus_idx as int;
                        if f != idx {
                            assert(self.cassettes@[f] == cs[f]);
                        }
                        assert(self.cassettes@[f].id@ == cs[f].id@);
                    }
                }
            },
            None => {
                let mut merged = incoming;
                merged.id = owned(id);
                let at = if insert_at < self.cassettes.len() {
                    insert_at
                } else {
                    self.cassettes.len()
                };
                self.cassettes.insert(at, merged);
                proof {
                    if focused_id is Some {
                        let f = old(self).focus_idx as int;
                        if f < at {
                            assert(self.cassettes@[f] == cs[f]);
                        } else {
                            assert(self.cassettes@[f + 1] == cs[f]);
                        }
                    }
                }
            },
        }
        self.refocus(focused_id);
    }

    /// Put focus back on the cassette with id `fid` (the first with it) and
    /// bring it into the scroll window.
    fn refocus(&mut self, fid: Option<String>)
        requires
            old(self).layout_ok(),
            fid matches Some(f) ==> exists|k: int|
                0 <= k < old(self).cassettes@.len() && (#[trigger] old(self).cassettes@[k]).id@
                    == f@,
        ensures
            fid matches Some(f) ==> first_with_id(
                final(self).cassettes@,
                f@,
                final(self).focus_idx as int,
            ),
            fid is None ==> final(self).focus_idx == old(self).focus_idx,
            final(self).cassette_scroll == fitted_scroll(
                old(self).cassette_scroll as int,
                final(self).focus_idx as int,
                old(self).cassettes@.len() as int,
                visible_count(old(self).term_height, old(self).visible_lines),
            ),
            final(self).focus_in_window(),
            final(self).cassettes == old(self).cassettes,
            final(self).status_msg == old(self).status_msg,
            final(self).notices == old(self).notices,
            final(self).bell == old(self).bell,
            final(self).same_frame(&*old(self)),
    {
        if let Some(f) = fid {
            if let Some(i) = position_of_id(&self.cassettes, f.as_str()) {
                self.focus_idx = i;
            }
        }
        self.ensure_focus_visible();
    }
}

// ---------------------------------------------------------------------------
// Queue order
// ---------------------------------------------------------------------------

/// Queue order: open before closed, then priority, then minted before
/// unminted (an empty id is the newest thing in the queue), then id.
pub open spec fn key_lt(a: Cassette, b: Cassette) -> bool {
    if a.closed != b.closed {
        !a.closed
    } else if a.priority != b.priority {
        a.priority < b.priority
    } else if (a.id@.len() == 0) != (b.id@.len() == 0) {
        b.id@.len() == 0
    } else {
        seq_lt(a.id@, b.id@)
    }
}

/// `a` may come before `b` in queue order.
pub open spec fn key_le(a: Cassette, b: Cassette) -> bool {
    !key_lt(b, a)
}

/// `s` is in queue order.
pub open spec fn queue_sorted(s: Seq<Cassette>) -> bool {
    forall|a: int, b: int| 0 <= a < b < s.len() ==> key_le(#[trigger] s[a], #[trigger] s[b])
}

pub proof fn lemma_key_le_trans(a: Cassette, b: Cassette, c: Cassette)
    requires
        key_le(a, b),
        key_le(b, c),
    ensures
        key_le(a, c),
{
    lemma_seq_lt_total(a.id@, b.id@);
    lemma_seq_lt_total(b.id@, c.id@);
    lemma_seq_lt_total(a.id@, c.id@);
    if seq_lt(c.id@, a.id@) && seq_lt(a.id@, b.id@) {
        lemma_seq_lt_trans(c.id@, a.id@, b.id@);
    }
    if seq_lt(b.id@, c.id@) && seq_lt(c.id@, a.id@) {
        lemma_seq_lt_trans(b.id@, c.id@, a.id@);
    }
}

pub proof fn lemma_key_lt_asym(a: Cassette, b: Cassette)
    requires
        key_lt(a, b),
    ensures
        key_le(a, b),
{
    if seq_lt(a.id@, b.id@) && seq_lt(b.id@, a.id@) {
        lemma_seq_lt_trans(a.id@, b.id@, a.id@);
        lemma_seq_lt_irrefl(a.id@);
    }
}

/// Whether `a` sorts strictly before `b` in queue order.
fn key_less(a: &Cassette, b: &Cassette) -> (r: bool)
    ensures
        r == key_lt(*a, *b),
{
    if a.closed != b.closed {
        return !a.closed;
    }
    if a.priority != b.priority {
        return a.priority < b.priority;
    }
    let ae = a.id.as_str().unicode_len() == 0;
    let be = b.id.as_str().unicode_len() == 0;
    if ae != be {
        return be;
    }
    str_less(a.id.as_str(), b.id.as_str())
}

/// The first index in `s` whose cassette has id `id`.
pub open spec fn first_with_id(s: Seq<Cassette>, id: Seq<char>, i: int) -> bool {
    &&& 0 <= i < s.len()
    &&& s[i].id@ == id
    &&& forall|k: int| 0 <= k < i ==> (#[trigger] s[k]).id@ != id
}

/// Index of the first cassette with id `id`, if any.
pub(crate) fn position_of_id(s: &Vec<Cassette>, id: &str) -> (r: Option<usize>)
    ensures
        match r {
            Some(i) => first_with_id(s@, id@, i as int),
            None => forall|k: int| 0 <= k < s@.len() ==> (#[trigger] s@[k]).id@ != id@,
        },
{
    let mut i: usize = 0;
    while i < s.len()
        invariant
            i <= s@.len(),
            forall|k: int| 0 <= k < i ==> (#[trigger] s@[k]).id@ != id@,
        decreases s@.len() - i,
    {
        if crate::text::str_eq(s[i].id.as_str(), id) {
            return Some(i);
        }
        i = i + 1;
    }
    None
}

/// Sorts `v` into queue order, stably (insertion sort).
fn sort_cassettes(v: &mut Vec<Cassette>)
    ensures
        final(v)@.to_multiset() == old(v)@.to_multiset(),
        final(v)@.len() == old(v)@.len(),
        queue_sorted(final(v)@),
{
    broadcast use vstd::seq_lib::group_to_multiset_ensures;

    let n = v.len();
    if n == 0 {
        return;
    }
    let mut j: usize = 1;
    while j < n
        invariant
            1 <= j <= n,
            v@.len() == n,
            v@.to_multiset() == old(v)@.to_multiset(),
            forall|a: int, b: int| 0 <= a < b < j ==> key_le(#[trigger] v@[a], #[trigger] v@[b]),
        decreases n - j,
    {
        let ghost before = v@;
        let c = v.remove(j);
        let mut p: usize = j;
        while p > 0 && key_less(&c, &v[p - 1])
            invariant
                p <= j < n,
                before.len() == n,
                v@ == before.remove(j as int),
                c == before[j as int],
                forall|k: int| p <= k < j ==> key_lt(c, #[trigger] v@[k]),
            decreases p,
        {
            p = p - 1;
        }
        let ghost mid = v@;
        v.insert(p, c);
        proof {
            assert(v@ == mid.insert(p as int, c));
            assert forall|a: int, b: int| 0 <= a < b < j + 1 implies key_le(
                #[trigger] v@[a],
                #[trigger] v@[b],
            ) by {
                if b < p {
                    assert(v@[a] == mid[a] && v@[b] == mid[b]);
                    assert(mid[a] == before[a] && mid[b] == before[b]);
                } else if b == p {
                    assert(v@[b] == c);
                    assert(v@[a] == mid[a]);
                    assert(mid[a] == before[a]);
                    assert(!key_lt(c, mid[p - 1]));
                    assert(mid[p - 1] == before[p - 1]);
                    if a < p - 1 {
                        lemma_key_le_trans(before[a], before[p - 1], c);
                    }
                } else if a == p {
                    assert(v@[a] == c);
                    assert(v@[b] == mid[b - 1]);
                    lemma_key_lt_asym(c, mid[b - 1]);
                } else if a < p {
                    assert(v@[a] == mid[a] && v@[b] == mid[b - 1]);
                    assert(mid[a] == before[a] && mid[b - 1] == before[b - 1]);
                } else {
                    assert(v@[a] == mid[a - 1] && v@[b] == mid[b - 1]);
                    assert(mid[a - 1] == before[a - 1] && mid[b - 1] == before[b - 1]);
                }
            }
            vstd::seq_lib::to_multiset_remove(before, j as int);
            vstd::seq_lib::to_multiset_insert(mid, p as int, c);
            assert(mid.to_multiset() == before.to_multiset().remove(c));
            assert(v@.to_multiset() == mid.to_multiset().insert(c));
            assert(before.contains(c)) by {
                assert(before[j as int] == c);
            }
            vstd::seq_lib::to_multiset_contains(before, c);
            assert(before.to_multiset().count(c) > 0);
            assert(before.to_multiset().remove(c).insert(c) =~= before.to_multiset());
        }
        j = j + 1;
    }
}

} // verus!
