//! The editor's key bindings: what each key does to the session, in each
//! mode. Keys arrive as plain `Key` values; turning terminal events into
//! them is the terminal front end's job.

use vstd::prelude::*;

use crate::app::{
    cassette_added, edited, focus_moved_next, focus_moved_prev, focused_edit, width_for, App, Mode,
};
use crate::cassette::{
    applied, down_target, lemma_undo_after_snapshot, opt_str_view, step, up_target, Cassette, Edit,
};
use crate::text::{owned, push_char, push_str, pop_char, trim, trimmed, is_blank};

verus! {

/// A key, as the editor tells keys apart.
#[derive(Clone, Copy, Debug, PartialEq, Eq, Structural)]
pub enum KeyCode {
    Char(char),
    Enter,
    Esc,
    Tab,
    BackTab,
    Backspace,
    Delete,
    Left,
    Right,
    Up,
    Down,
    /// Any key the editor has no use for.
    Other,
}

/// The modifier keys held with a key. `other` stands for any modifier
/// besides Shift, Control and Alt (Super, Hyper, Meta).
#[derive(Clone, Copy, Debug, PartialEq, Eq, Structural)]
pub struct Modifiers {
    pub shift: bool,
    pub control: bool,
    pub alt: bool,
    pub other: bool,
}

/// A key press.
#[derive(Clone, Copy, Debug, PartialEq, Eq, Structural)]
pub struct Key {
    pub code: KeyCode,
    pub modifiers: Modifiers,
}

impl Modifiers {
    /// No modifier held.
    pub fn none() -> (m: Self)
        ensures
            m == no_mods(),
    {
        Modifiers { shift: false, control: false, alt: false, other: false }
    }

    /// Control alone.
    pub fn control() -> (m: Self)
        ensures
            m == ctrl_only(),
    {
        Modifiers { shift: false, control: true, alt: false, other: false }
    }

    /// Shift alone.
    pub fn shift() -> (m: Self)
        ensures
            m == shift_only(),
    {
        Modifiers { shift: true, control: false, alt: false, other: false }
    }
}

pub open spec fn no_mods() -> Modifiers {
    Modifiers { shift: false, control: false, alt: false, other: false }
}

pub open spec fn ctrl_only() -> Modifiers {
    Modifiers { shift: false, control: true, alt: false, other: false }
}

pub open spec fn shift_only() -> Modifiers {
    Modifiers { shift: true, control: false, alt: false, other: false }
}

/// Control or Alt is held: the key is a command, not text.
pub open spec fn commandish(m: Modifiers) -> bool {
    m.control || m.alt
}

/// `key` is `Ctrl+c` (Control alone).
pub open spec fn is_ctrl(key: Key, c: char) -> bool {
    key.code == KeyCode::Char(c) && key.modifiers == ctrl_only()
}

/// The character `key` types: a character with neither Control nor Alt.
pub open spec fn typed(key: Key) -> Option<char> {
    match key.code {
        KeyCode::Char(c) => if commandish(key.modifiers) {
            None
        } else {
            Some(c)
        },
        _ => None,
    }
}

/// `text` with every `"\r\n"` and every other `'\r'` turned into `'\n'`.
pub open spec fn normalize_newlines(s: Seq<char>) -> Seq<char>
    decreases s.len(),
{
    if s.len() == 0 {
        s
    } else if s[0] == '\r' && s.len() >= 2 && s[1] == '\n' {
        seq!['\n'] + normalize_newlines(s.skip(2))
    } else if s[0] == '\r' {
        seq!['\n'] + normalize_newlines(s.skip(1))
    } else {
        seq![s[0]] + normalize_newlines(s.skip(1))
    }
}

/// Every `'\n'` of `s` turned into a space.
pub open spec fn one_line(s: Seq<char>) -> Seq<char> {
    s.map_values(|c: char| if c == '\n' {
        ' '
    } else {
        c
    })
}

/// `n` is `o` with the topic prompt open on the focused cassette: the input
/// starts from its topic, and the current mode is remembered to return to.
pub open spec fn topic_opened(o: App, n: App) -> bool {
    let f = o.focus_idx as int;
    &&& n.topic_input@ == (if f < o.cassettes@.len() && o.cassettes@[f].topic is Some {
        o.cassettes@[f].topic->0@
    } else {
        Seq::<char>::empty()
    })
    &&& n == (App { topic_input: n.topic_input, topic_return: o.mode, mode: Mode::Topic, ..o })
}

/// The topic a committed prompt input sets: the input trimmed, or none
/// when that leaves nothing.
pub open spec fn topic_of(input: Seq<char>) -> Option<Seq<char>> {
    if trim(input).len() == 0 {
        None
    } else {
        Some(trim(input))
    }
}

/// What a key does in the topic prompt: Enter sets the focused cassette's
/// topic to the trimmed input (a blank input clears it), Esc cancels, and
/// either way the prompt closes back to the mode it was opened from;
/// Backspace and typed characters edit the input; `Ctrl+C` quits.
pub open spec fn topic_key_effect(o: App, n: App, key: Key) -> bool {
    if is_ctrl(key, 'c') {
        n == (App { should_quit: true, ..o })
    } else if key.code == KeyCode::Esc {
        &&& n.topic_input@ == Seq::<char>::empty()
        &&& n == (App { topic_input: n.topic_input, mode: o.topic_return, ..o })
    } else if key.code == KeyCode::Enter {
        let topic = choose|t: Option<String>| opt_str_view(t) == topic_of(o.topic_input@);
        &&& edited(
            o,
            App { topic_input: o.topic_input, mode: o.mode, ..n },
            false,
            Edit::SetTopic(topic),
        )
        &&& n.topic_input@ == Seq::<char>::empty()
        &&& n.mode == o.topic_return
    } else if key.code == KeyCode::Backspace {
        &&& n.topic_input@ == (if o.topic_input@.len() > 0 {
            o.topic_input@.drop_last()
        } else {
            o.topic_input@
        })
        &&& n == (App { topic_input: n.topic_input, ..o })
    } else if typed(key) is Some {
        &&& n.topic_input@ == o.topic_input@.push(typed(key)->0)
        &&& n == (App { topic_input: n.topic_input, ..o })
    } else {
        n == o
    }
}

/// The edit a key makes in record mode, where the tape only rolls forward:
/// Enter and typed characters, nothing else.
pub open spec fn record_edit(key: Key) -> Option<Edit> {
    if key.code == KeyCode::Enter {
        Some(Edit::Insert('\n'))
    } else {
        match typed(key) {
            Some(c) => Some(Edit::Insert(c)),
            None => None,
        }
    }
}

/// The edit a key makes in insert mode (outside record mode), and whether
/// an undo snapshot comes first: Enter, the bare arrows, Backspace and
/// Delete, `Ctrl+W` and `Ctrl+U` (one undoable edit each), typed characters.
pub open spec fn insert_edit(key: Key) -> Option<(bool, Edit)> {
    let m = key.modifiers;
    if key.code == KeyCode::Enter {
        Some((false, Edit::Insert('\n')))
    } else if key.code == KeyCode::Left && m == no_mods() {
        Some((false, Edit::Left))
    } else if key.code == KeyCode::Right && m == no_mods() {
        Some((false, Edit::Right))
    } else if key.code == KeyCode::Up && m == no_mods() {
        Some((false, Edit::Up))
    } else if key.code == KeyCode::Down && m == no_mods() {
        Some((false, Edit::Down))
    } else if key.code == KeyCode::Backspace && m == no_mods() {
        Some((false, Edit::Backspace))
    } else if key.code == KeyCode::Delete && m == no_mods() {
        Some((false, Edit::Delete))
    } else if is_ctrl(key, 'w') {
        Some((true, Edit::DeleteWordBack))
    } else if is_ctrl(key, 'u') {
        Some((true, Edit::DeleteToLineStart))
    } else {
        match typed(key) {
            Some(c) => Some((false, Edit::Insert(c))),
            None => None,
        }
    }
}

/// What a key does in insert mode: in record mode only `record_edit`;
/// otherwise Esc goes to normal mode and `insert_edit` does the rest.
pub open spec fn insert_key_effect(o: App, n: App, key: Key) -> bool {
    if o.record {
        match record_edit(key) {
            Some(e) => edited(o, n, false, e),
            None => n == o,
        }
    } else if key.code == KeyCode::Esc {
        n == (App { mode: Mode::Normal, pending: None, ..o })
    } else {
        match insert_edit(key) {
            Some((s, e)) => edited(o, n, s, e),
            None => n == o,
        }
    }
}

/// Normal-mode keys that enter insert mode: each takes an undo snapshot
/// (so one `u` undoes the whole burst) and moves as vim's do.
pub open spec fn insert_entry(key: Key) -> Option<Edit> {
    match typed(key) {
        Some(c) => if c == 'i' {
            Some(Edit::Stay)
        } else if c == 'a' {
            Some(Edit::Right)
        } else if c == 'I' {
            Some(Edit::RowStart)
        } else if c == 'A' {
            Some(Edit::RowEnd)
        } else if c == 'o' {
            Some(Edit::OpenBelow)
        } else if c == 'O' {
            Some(Edit::OpenAbove)
        } else {
            None
        },
        None => None,
    }
}

/// The edit a normal-mode key makes in place, and whether an undo snapshot
/// comes first: the motions, `u`, and `x`/Delete (undoable).
pub open spec fn normal_edit(key: Key) -> Option<(bool, Edit)> {
    match key.code {
        KeyCode::Left => Some((false, Edit::Left)),
        KeyCode::Right => Some((false, Edit::Right)),
        KeyCode::Up => Some((false, Edit::Up)),
        KeyCode::Down => Some((false, Edit::Down)),
        KeyCode::Delete => Some((true, Edit::Delete)),
        _ => match typed(key) {
            Some(c) => if c == 'u' {
                Some((false, Edit::Undo))
            } else if c == 'h' {
                Some((false, Edit::Left))
            } else if c == 'l' {
                Some((false, Edit::Right))
            } else if c == 'j' {
                Some((false, Edit::Down))
            } else if c == 'k' {
                Some((false, Edit::Up))
            } else if c == '0' {
                Some((false, Edit::RowStart))
            } else if c == '$' {
                Some((false, Edit::RowEnd))
            } else if c == 'w' {
                Some((false, Edit::WordForward))
            } else if c == 'b' {
                Some((false, Edit::WordBack))
            } else if c == 'G' {
                Some((false, Edit::TextEnd))
            } else if c == 'x' {
                Some((true, Edit::Delete))
            } else {
                None
            },
            None => None,
        },
    }
}

/// What a normal-mode key does once any pending two-key prefix is settled:
/// `q` quits, `i a I A o O` enter insert mode, `t` opens the topic prompt,
/// `d` and `g` start a two-key command, and `normal_edit` does the rest.
pub open spec fn normal_dispatch(o: App, n: App, key: Key) -> bool {
    if typed(key) == Some('q') {
        n == (App { should_quit: true, ..o })
    } else if insert_entry(key) is Some {
        &&& edited(o, App { mode: o.mode, ..n }, true, insert_entry(key)->0)
        &&& n.mode == Mode::Insert
    } else if typed(key) == Some('t') {
        topic_opened(o, n)
    } else if typed(key) == Some('d') || typed(key) == Some('g') {
        n == (App { pending: typed(key), ..o })
    } else {
        match normal_edit(key) {
            Some((s, e)) => edited(o, n, s, e),
            None => n == o,
        }
    }
}

/// What a key does in normal mode: a pending `d` or `g` followed by the
/// same character is `dd` (delete the line, undoably) or `gg` (to the text
/// start); any other key drops the prefix and acts on its own.
pub open spec fn normal_key_effect(o: App, n: App, key: Key) -> bool {
    let o1 = App { pending: None, ..o };
    if o.pending == Some('d') && key.code == KeyCode::Char('d') {
        edited(o1, n, true, Edit::DeleteLine)
    } else if o.pending == Some('g') && key.code == KeyCode::Char('g') {
        edited(o1, n, false, Edit::TextStart)
    } else {
        normal_dispatch(o1, n, key)
    }
}

/// What a key does in any mode, once the idle counter is reset: the topic
/// prompt owns the keyboard while open; otherwise `Ctrl+C` quits, `Ctrl+Z`
/// suspends, Tab and Shift+Tab move focus, `Ctrl+N` starts a cassette,
/// `Ctrl+B` or Shift+Enter flips the focused cassette, `Ctrl+T` opens the
/// topic prompt, and anything else goes to the mode's own bindings.
pub open spec fn key_effect(o: App, n: App, key: Key) -> bool {
    if o.mode == Mode::Topic {
        topic_key_effect(o, n, key)
    } else if is_ctrl(key, 'c') {
        n == (App { should_quit: true, ..o })
    } else if is_ctrl(key, 'z') {
        n == (App { suspend: true, ..o })
    } else if key.code == KeyCode::Tab && key.modifiers == no_mods() {
        focus_moved_next(o, n)
    } else if key.code == KeyCode::BackTab {
        focus_moved_prev(o, n)
    } else if is_ctrl(key, 'n') {
        cassette_added(o, n)
    } else if (key.code == KeyCode::Enter && key.modifiers == shift_only()) || is_ctrl(key, 'b') {
        edited(o, n, false, Edit::Flip)
    } else if is_ctrl(key, 't') {
        topic_opened(o, n)
    } else if o.mode == Mode::Insert {
        insert_key_effect(o, n, key)
    } else {
        normal_key_effect(o, n, key)
    }
}

/// The focus arithmetic of Tab and Shift+Tab cannot overflow.
pub open spec fn focus_arith_ok(app: App) -> bool {
    app.focus_idx + (if app.cassettes@.len() > 1 {
        app.cassettes@.len() as int
    } else {
        1
    }) <= usize::MAX
}

/// Handle one key press.
pub fn handle_key(app: &mut App, key: Key)
    requires
        old(app).layout_ok(),
        focus_arith_ok(*old(app)),
    ensures
        key_effect(App { idle_secs: 0, ..*old(app) }, *final(app), key),
{
    app.idle_secs = 0;
    if app.mode == Mode::Topic {
        handle_topic_key(app, key);
        return;
    }
    let m = key.modifiers;
    let ctrl = m == Modifiers::control();
    match key.code {
        KeyCode::Char('c') if ctrl => {
            app.should_quit = true;
            return;
        },
        KeyCode::Char('z') if ctrl => {
            app.suspend = true;
            return;
        },
        KeyCode::Tab if m == Modifiers::none() => {
            app.focus_next();
            return;
        },
        KeyCode::BackTab => {
            app.focus_prev();
            return;
        },
        KeyCode::Char('n') if ctrl => {
            app.add_cassette();
            return;
        },
        KeyCode::Enter if m == Modifiers::shift() => {
            app.edit_focused(false, Edit::Flip);
            return;
        },
        KeyCode::Char('b') if ctrl => {
            app.edit_focused(false, Edit::Flip);
            return;
        },
        KeyCode::Char('t') if ctrl => {
            open_topic_prompt(app);
            return;
        },
        _ => {},
    }
    if app.mode == Mode::Insert {
        handle_insert_key(app, key);
    } else {
        handle_normal_key(app, key);
    }
}

/// Insert pasted text as one edit: line endings normalized to `'\n'` and a
/// single undo snapshot for the whole chunk. In the topic prompt the paste
/// joins onto one line. Pasting only ever inserts, so record mode allows it.
pub fn handle_paste(app: &mut App, text: &str)
    ensures
        ({
            let o = App { idle_secs: 0, ..*old(app) };
            let t = normalize_newlines(text@);
            if o.mode == Mode::Topic {
                &&& final(app).topic_input@ == o.topic_input@ + one_line(t)
                &&& *final(app) == (App { topic_input: final(app).topic_input, ..o })
            } else {
                exists|s: String| s@ == t && edited(o, *final(app), true, Edit::InsertStr(s))
            }
        }),
{
    app.idle_secs = 0;
    let text = normalized(text);
    if app.mode == Mode::Topic {
        let line = joined_line(text.as_str());
        push_str(&mut app.topic_input, line.as_str());
        return;
    }
    let ghost s = text;
    app.edit_focused(true, Edit::InsertStr(text));
}

/// `normalize_newlines`, computed.
fn normalized(text: &str) -> (r: String)
    ensures
        r@ == normalize_newlines(text@),
{
    let v = crate::text::chars_of(text);
    let mut out = String::new();
    let mut i: usize = 0;
    assert(v@.skip(0) =~= text@);
    assert(out@ + normalize_newlines(v@.skip(0)) =~= normalize_newlines(text@));
    while i < v.len()
        invariant
            i <= v.len(),
            v@ == text@,
            out@ + normalize_newlines(v@.skip(i as int)) == normalize_newlines(text@),
        decreases v.len() - i,
    {
        let ghost rest = v@.skip(i as int);
        if v[i] == '\r' && i + 1 < v.len() && v[i + 1] == '\n' {
            push_char(&mut out, '\n');
            assert(rest.skip(2) =~= v@.skip(i + 2));
            i = i + 2;
        } else if v[i] == '\r' {
            push_char(&mut out, '\n');
            assert(rest.skip(1) =~= v@.skip(i + 1));
            i = i + 1;
        } else {
            push_char(&mut out, v[i]);
            assert(rest.skip(1) =~= v@.skip(i + 1));
            i = i + 1;
        }
    }
    out
}

/// `one_line`, computed.
fn joined_line(text: &str) -> (r: String)
    ensures
        r@ == one_line(text@),
{
    let v = crate::text::chars_of(text);
    let mut out = String::new();
    let mut i: usize = 0;
    while i < v.len()
        invariant
            i <= v.len(),
            v@ == text@,
            out@ == one_line(text@.take(i as int)),
        decreases v.len() - i,
    {
        let c = if v[i] == '\n' {
            ' '
        } else {
            v[i]
        };
        push_char(&mut out, c);
        assert(one_line(text@.take(i + 1)) =~= one_line(text@.take(i as int)).push(c));
        i = i + 1;
    }
    assert(text@.take(v.len() as int) =~= text@);
    out
}

/// Open the topic prompt pre-filled with the focused cassette's topic,
/// remembering which mode to drop back into when it closes.
pub fn open_topic_prompt(app: &mut App)
    ensures
        topic_opened(*old(app), *final(app)),
{
    let current = if app.focus_idx < app.cassettes.len() {
        match &app.cassettes[app.focus_idx].topic {
            Some(t) => owned(t.as_str()),
            None => String::new(),
        }
    } else {
        String::new()
    };
    app.topic_input = current;
    app.topic_return = app.mode;
    app.mode = Mode::Topic;
}

/// Status-line prompt for the focused cassette's topic.
fn handle_topic_key(app: &mut App, key: Key)
    ensures
        topic_key_effect(*old(app), *final(app), key),
{
    let m = key.modifiers;
    if key.code == KeyCode::Char('c') && m == Modifiers::control() {
        app.should_quit = true;
        return;
    }
    match key.code {
        KeyCode::Esc => {
            app.topic_input = String::new();
            app.mode = app.topic_return;
        },
        KeyCode::Enter => {
            commit_topic(app);
        },
        KeyCode::Backspace => {
            let _ = pop_char(&mut app.topic_input);
        },
        _ => {
            if let Some(c) = typed_of(key) {
                push_char(&mut app.topic_input, c);
            }
        },
    }
}

/// Enter in the topic prompt: set the focused cassette's topic from the
/// input and close the prompt.
fn commit_topic(app: &mut App)
    ensures
        ({
            let o = *old(app);
            let n = *final(app);
            let topic = choose|t: Option<String>| opt_str_view(t) == topic_of(o.topic_input@);
            &&& edited(
                o,
                App { topic_input: o.topic_input, mode: o.mode, ..n },
                false,
                Edit::SetTopic(topic),
            )
            &&& n.topic_input@ == Seq::<char>::empty()
            &&& n.mode == o.topic_return
        }),
{
    let ghost o = *app;
    let t = trimmed(app.topic_input.as_str());
    let topic = if is_blank(app.topic_input.as_str()) {
        None
    } else {
        Some(t)
    };
    let ghost tp = topic;
    proof {
        let chosen = choose|x: Option<String>| opt_str_view(x) == topic_of(o.topic_input@);
        assert(opt_str_view(tp) == topic_of(o.topic_input@));
        assert(opt_str_view(chosen) == topic_of(o.topic_input@));
        lemma_set_topic_same_view(o, tp, chosen);
    }
    app.edit_focused(false, Edit::SetTopic(topic));
    app.topic_input = String::new();
    app.mode = app.topic_return;
}

/// Setting a topic depends only on its characters.
proof fn lemma_set_topic_same_view(o: App, t1: Option<String>, t2: Option<String>)
    requires
        opt_str_view(t1) == opt_str_view(t2),
    ensures
        forall|n: App|
            edited(o, n, false, Edit::SetTopic(t1)) ==> edited(o, n, false, Edit::SetTopic(t2)),
{
    reveal(focused_edit);
    assert forall|n: App| edited(o, n, false, Edit::SetTopic(t1)) implies edited(
        o,
        n,
        false,
        Edit::SetTopic(t2),
    ) by {
        let f = o.focus_idx as int;
        if !(o.read_only || f >= o.cassettes@.len()) {
            let w = width_for(o.term_width);
            let c = choose|c: Cassette|
                applied(o.cassettes@[f], c, false, Edit::SetTopic(t1), w) && n.cassettes@[f] == (
                Cassette { dirty: true, ..c });
            assert(applied(o.cassettes@[f], c, false, Edit::SetTopic(t2), w));
        }
    }
}

/// Insert-mode keys.
fn handle_insert_key(app: &mut App, key: Key)
    ensures
        insert_key_effect(*old(app), *final(app), key),
{
    if app.record {
        match record_edit_of(key) {
            Some(e) => app.edit_focused(false, e),
            None => {},
        }
        return;
    }
    if key.code == KeyCode::Esc {
        app.mode = Mode::Normal;
        app.pending = None;
        return;
    }
    match insert_edit_of(key) {
        Some((s, e)) => app.edit_focused(s, e),
        None => {},
    }
}

/// `typed`, computed.
fn typed_of(key: Key) -> (r: Option<char>)
    ensures
        r == typed(key),
{
    match key.code {
        KeyCode::Char(c) => if key.modifiers.control || key.modifiers.alt {
            None
        } else {
            Some(c)
        },
        _ => None,
    }
}

/// `record_edit`, computed.
fn record_edit_of(key: Key) -> (r: Option<Edit>)
    ensures
        r == record_edit(key),
{
    if key.code == KeyCode::Enter {
        return Some(Edit::Insert('\n'));
    }
    match typed_of(key) {
        Some(c) => Some(Edit::Insert(c)),
        None => None,
    }
}

/// `insert_edit`, computed.
fn insert_edit_of(key: Key) -> (r: Option<(bool, Edit)>)
    ensures
        r == insert_edit(key),
{
    let none = key.modifiers == Modifiers::none();
    let ctrl = key.modifiers == Modifiers::control();
    match key.code {
        KeyCode::Enter => Some((false, Edit::Insert('\n'))),
        KeyCode::Left if none => Some((false, Edit::Left)),
        KeyCode::Right if none => Some((false, Edit::Right)),
        KeyCode::Up if none => Some((false, Edit::Up)),
        KeyCode::Down if none => Some((false, Edit::Down)),
        KeyCode::Backspace if none => Some((false, Edit::Backspace)),
        KeyCode::Delete if none => Some((false, Edit::Delete)),
        KeyCode::Char('w') if ctrl => Some((true, Edit::DeleteWordBack)),
        KeyCode::Char('u') if ctrl => Some((true, Edit::DeleteToLineStart)),
        _ => match typed_of(key) {
            Some(c) => Some((false, Edit::Insert(c))),
            None => None,
        },
    }
}

/// `insert_entry`, computed.
fn insert_entry_of(key: Key) -> (r: Option<Edit>)
    ensures
        r == insert_entry(key),
{
    match typed_of(key) {
        Some('i') => Some(Edit::Stay),
        Some('a') => Some(Edit::Right),
        Some('I') => Some(Edit::RowStart),
        Some('A') => Some(Edit::RowEnd),
        Some('o') => Some(Edit::OpenBelow),
        Some('O') => Some(Edit::OpenAbove),
        _ => None,
    }
}

/// `normal_edit`, computed.
fn normal_edit_of(key: Key) -> (r: Option<(bool, Edit)>)
    ensures
        r == normal_edit(key),
{
    match key.code {
        KeyCode::Left => Some((false, Edit::Left)),
        KeyCode::Right => Some((false, Edit::Right)),
        KeyCode::Up => Some((false, Edit::Up)),
        KeyCode::Down => Some((false, Edit::Down)),
        KeyCode::Delete => Some((true, Edit::Delete)),
        _ => match typed_of(key) {
            Some('u') => Some((false, Edit::Undo)),
            Some('h') => Some((false, Edit::Left)),
            Some('l') => Some((false, Edit::Right)),
            Some('j') => Some((false, Edit::Down)),
            Some('k') => Some((false, Edit::Up)),
            Some('0') => Some((false, Edit::RowStart)),
            Some('$') => Some((false, Edit::RowEnd)),
            Some('w') => Some((false, Edit::WordForward)),
            Some('b') => Some((false, Edit::WordBack)),
            Some('G') => Some((false, Edit::TextEnd)),
            Some('x') => Some((true, Edit::Delete)),
            _ => None,
        },
    }
}

/// Normal-mode keys.
fn handle_normal_key(app: &mut App, key: Key)
    ensures
        normal_key_effect(*old(app), *final(app), key),
{
    let prefix = app.pending;
    app.pending = None;
    match (prefix, key.code) {
        (Some('d'), KeyCode::Char('d')) => {
            app.edit_focused(true, Edit::DeleteLine);
            return;
        },
        (Some('g'), KeyCode::Char('g')) => {
            app.edit_focused(false, Edit::TextStart);
            return;
        },
        _ => {},
    }
    let c = typed_of(key);
    if c == Some('q') {
        app.should_quit = true;
        return;
    }
    if let Some(e) = insert_entry_of(key) {
        app.edit_focused(true, e);
        app.mode = Mode::Insert;
        return;
    }
    if c == Some('t') {
        open_topic_prompt(app);
        return;
    }
    if c == Some('d') || c == Some('g') {
        app.pending = c;
        return;
    }
    match normal_edit_of(key) {
        Some((s, e)) => app.edit_focused(s, e),
        None => {},
    }
}

/// The text `n` holds where `o` held `t`: the same text, or `t` with one
/// character typed at the cursor `p`, the cursor moving past it.
pub open spec fn kept_or_typed(t: Seq<char>, p: int, t2: Seq<char>, p2: int) -> bool {
    ||| t2 == t && p2 == p
    ||| exists|c: char| t2 == t.insert(p, c) && p2 == p + 1
}

/// A paste is one edit: after a paste reaches the focused cassette, one
/// undo gives back the text and the cursor it had before the paste.
pub proof fn lemma_paste_then_undo(o: App, p: App, u: App, s: String)
    requires
        !o.read_only,
        o.focus_idx < o.cassettes@.len(),
        edited(o, p, true, Edit::InsertStr(s)),
        edited(p, u, false, Edit::Undo),
    ensures
        u.cassettes@[o.focus_idx as int].text_seq() == o.cassettes@[o.focus_idx as int].text_seq(),
        u.cassettes@[o.focus_idx as int].cursor() == o.cassettes@[o.focus_idx as int].cursor(),
{
    reveal(focused_edit);
    let f = o.focus_idx as int;
    let w = width_for(o.term_width);
    let c1 = choose|c: Cassette|
        applied(o.cassettes@[f], c, true, Edit::InsertStr(s), w) && p.cassettes@[f] == (Cassette {
            dirty: true,
            ..c
        });
    let m = choose|m: Cassette| o.cassettes@[f].snapshot_to(&m) && step(m, c1, Edit::InsertStr(s), w);
    let c2 = choose|c: Cassette|
        applied(p.cassettes@[f], c, false, Edit::Undo, width_for(p.term_width)) && u.cassettes@[f] == (
        Cassette { dirty: true, ..c });
    lemma_undo_after_snapshot(o.cassettes@[f], m, p.cassettes@[f], c2);
}

/// An edit that leaves the undo history alone: anything but an undo or a
/// flip to the other side.
pub open spec fn keeps_history(e: Edit) -> bool {
    !(e is Undo) && !(e is Flip)
}

proof fn lemma_step_keeps_hidden(o: Cassette, n: Cassette, e: Edit, w: int)
    requires
        step(o, n, e, w),
        keeps_history(e),
    ensures
        n.same_hidden(&o),
{
}

/// The focused cassette of `apps[i]`, for every `i` from 1 through `n`,
/// keeps the undo history of `m` and the focus, lock state and cassette
/// count of `apps[0]`.
spec fn burst_kept(apps: Seq<App>, m: Cassette, n: int) -> bool {
    forall|i: int|
        1 <= i <= n ==> {
            &&& (#[trigger] apps[i]).focus_idx == apps[0].focus_idx
            &&& apps[i].read_only == apps[0].read_only
            &&& apps[i].cassettes@.len() == apps[0].cassettes@.len()
            &&& apps[i].cassettes@[apps[0].focus_idx as int].same_hidden(&m)
        }
}

proof fn lemma_burst_kept(apps: Seq<App>, es: Seq<Edit>, m: Cassette, n: int)
    requires
        apps.len() == es.len() + 1,
        1 <= n < apps.len(),
        !apps[0].read_only,
        apps[0].focus_idx < apps[0].cassettes@.len(),
        apps[1].focus_idx == apps[0].focus_idx,
        apps[1].read_only == apps[0].read_only,
        apps[1].cassettes@.len() == apps[0].cassettes@.len(),
        apps[1].cassettes@[apps[0].focus_idx as int].same_hidden(&m),
        forall|i: int|
            1 <= i < es.len() ==> keeps_history(#[trigger] es[i]) && edited(
                apps[i],
                apps[i + 1],
                false,
                es[i],
            ),
    ensures
        burst_kept(apps, m, n),
    decreases n,
{
    if n > 1 {
        lemma_burst_kept(apps, es, m, n - 1);
        let i = n - 1;
        assert(keeps_history(es[i]) && edited(apps[i], apps[i + 1], false, es[i]));
        reveal(focused_edit);
        let f = apps[0].focus_idx as int;
        let o = apps[i];
        let c = choose|c: Cassette|
            applied(o.cassettes@[f], c, false, es[i], width_for(o.term_width))
                && apps[n].cassettes@[f] == (Cassette { dirty: true, ..c });
        lemma_step_keeps_hidden(o.cassettes@[f], c, es[i], width_for(o.term_width));
        assert(burst_kept(apps, m, n)) by {
            assert forall|j: int| 1 <= j <= n implies {
                &&& (#[trigger] apps[j]).focus_idx == apps[0].focus_idx
                &&& apps[j].read_only == apps[0].read_only
                &&& apps[j].cassettes@.len() == apps[0].cassettes@.len()
                &&& apps[j].cassettes@[apps[0].focus_idx as int].same_hidden(&m)
            } by {
                if j < n {
                    assert(burst_kept(apps, m, n - 1));
                }
            }
        }
    }
}

/// Entering insert mode takes one snapshot, so a single undo takes back the
/// whole burst that followed: after the edit that entered insert mode
/// (`es[0]`, made with a snapshot), any run of edits that keep the undo
/// history (`es[1..]`, typing, deleting, moving) and one undo, the focused
/// cassette holds the text and cursor it had before the burst.
pub proof fn lemma_burst_then_undo(apps: Seq<App>, es: Seq<Edit>, u: App)
    requires
        apps.len() == es.len() + 1,
        es.len() >= 1,
        !apps[0].read_only,
        apps[0].focus_idx < apps[0].cassettes@.len(),
        keeps_history(es[0]),
        edited(apps[0], apps[1], true, es[0]),
        forall|i: int|
            1 <= i < es.len() ==> keeps_history(#[trigger] es[i]) && edited(
                apps[i],
                apps[i + 1],
                false,
                es[i],
            ),
        edited(apps.last(), u, false, Edit::Undo),
    ensures
        u.cassettes@[apps[0].focus_idx as int].text_seq() == apps[0].cassettes@[apps[0].focus_idx as int].text_seq(),
        u.cassettes@[apps[0].focus_idx as int].cursor() == apps[0].cassettes@[apps[0].focus_idx as int].cursor(),
{
    reveal(focused_edit);
    let f = apps[0].focus_idx as int;
    let o = apps[0];
    let w = width_for(o.term_width);
    let c1 = choose|c: Cassette|
        applied(o.cassettes@[f], c, true, es[0], w) && apps[1].cassettes@[f] == (Cassette {
            dirty: true,
            ..c
        });
    let m = choose|m: Cassette| o.cassettes@[f].snapshot_to(&m) && step(m, c1, es[0], w);
    lemma_step_keeps_hidden(m, c1, es[0], w);
    let n = es.len() as int;
    lemma_burst_kept(apps, es, m, n);
    let l = apps[n];
    assert(l == apps.last());
    assert(l.focus_idx == o.focus_idx && !l.read_only && l.cassettes@.len() == o.cassettes@.len());
    let c2 = choose|c: Cassette|
        applied(l.cassettes@[f], c, false, Edit::Undo, width_for(l.term_width))
            && u.cassettes@[f] == (Cassette { dirty: true, ..c });
    lemma_undo_after_snapshot(o.cassettes@[f], m, l.cassettes@[f], c2);
}

/// In normal mode `j` and `k` move the cursor one display row down and up,
/// to the same column, as the arrow keys do; the text stays as it was.
pub proof fn lemma_j_down_k_up(o: App, n: App, c: char)
    requires
        o.mode == Mode::Normal,
        o.pending is None,
        !o.read_only,
        o.focus_idx < o.cassettes@.len(),
        c == 'j' || c == 'k',
        key_effect(o, n, Key { code: KeyCode::Char(c), modifiers: no_mods() }),
    ensures
        ({
            let f = o.focus_idx as int;
            let t = o.cassettes@[f].text_seq();
            let p = o.cassettes@[f].cursor();
            let w = width_for(o.term_width);
            &&& n.cassettes@[f].text_seq() == t
            &&& n.cassettes@[f].cursor() == if c == 'j' {
                down_target(t, w, p)
            } else {
                up_target(t, w, p)
            }
        }),
{
    reveal(focused_edit);
    let key = Key { code: KeyCode::Char(c), modifiers: no_mods() };
    assert(typed(key) == Some(c));
    let f = o.focus_idx as int;
    let e = if c == 'j' {
        Edit::Down
    } else {
        Edit::Up
    };
    assert(normal_edit(key) == Some((false, e)));
    let o1 = App { pending: None, ..o };
    assert(edited(o1, n, false, e));
    let nc = choose|x: Cassette|
        applied(o1.cassettes@[f], x, false, e, width_for(o1.term_width)) && n.cassettes@[f] == (
        Cassette { dirty: true, ..x });
    assert(step(o.cassettes@[f], nc, e, width_for(o.term_width)));
}

/// In record mode the tape only rolls forward: an insert-mode key leaves
/// the mode as it is, touches no cassette but the focused one, and there
/// either changes nothing or types one character at the cursor, on the
/// side that faces up. Nothing is deleted, and the cursor never moves back.
pub proof fn lemma_record_mode_only_types(o: App, n: App, key: Key)
    requires
        o.record,
        insert_key_effect(o, n, key),
    ensures
        n.mode == o.mode,
        n.cassettes@.len() == o.cassettes@.len(),
        forall|k: int|
            0 <= k < o.cassettes@.len() && k != o.focus_idx ==> n.cassettes@[k]
                == #[trigger] o.cassettes@[k],
        o.focus_idx < o.cassettes@.len() ==> {
            let oc = o.cassettes@[o.focus_idx as int];
            let nc = n.cassettes@[o.focus_idx as int];
            &&& nc.side == oc.side
            &&& nc.back_seq() == oc.back_seq()
            &&& kept_or_typed(oc.text_seq(), oc.cursor(), nc.text_seq(), nc.cursor())
        },
{
    reveal(focused_edit);
    let f = o.focus_idx as int;
    if let Some(e) = record_edit(key) {
        if !o.read_only && f < o.cassettes@.len() {
            let oc = o.cassettes@[f];
            let c2 = choose|c: Cassette|
                applied(oc, c, false, e, width_for(o.term_width)) && n.cassettes@[f] == (
                Cassette { dirty: true, ..c });
            assert(c2.text_seq() =~= oc.text_seq().insert(oc.cursor(), e->Insert_0));
        }
    }
}

} // verus!
