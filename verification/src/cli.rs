//! The command line, once parsed: the parsed shape (`Cli`) and what `main`
//! consumes (`Args`). Reading the process arguments is the front end's job;
//! turning what was read into `Args` is this module's.

use vstd::prelude::*;

use crate::queue::edit::MoveAnchor;
use crate::queue::{Placement, Side, StatusFilter, WriteMode, WriterSource};
use crate::store::Kind;
use crate::text::{is_blank, owned, push_str, trim, trimmed};

verus! {

/// The parsed CLI, in the shape `main` consumes.
#[derive(Debug)]
pub struct Args {
    pub timer_secs: Option<u32>,
    pub word_goal: Option<usize>,
    pub note_name: Option<String>,
    pub print_stdout: bool,
    pub visible_lines: Option<usize>,
    pub template: Option<String>,
    pub theme: Option<String>,
    pub list_themes: bool,
    pub record: bool,
    pub daily: bool,
    pub stats: bool,
    /// `find` with the query words that followed it; empty = list all.
    pub find: Option<Vec<String>>,
    /// `resume` with an optional note name: `Some(None)` resumes the most
    /// recent one.
    pub resume: Option<Option<String>>,
    pub queue_cmd: Option<QueueCmd>,
    /// Registered writer to act as.
    pub writer: Option<String>,
    pub writer_cmd: Option<WriterCmd>,
    pub session_cmd: Option<SessionCmd>,
    /// Emit machine-readable JSON instead of prose.
    pub json: bool,
}

impl Default for Args {
    fn default() -> (a: Self)
        ensures
            a.timer_secs is None && a.word_goal is None && a.note_name is None && !a.print_stdout
                && a.visible_lines is None && a.template is None && a.theme is None
                && !a.list_themes && !a.record && !a.daily && !a.stats && a.find is None
                && a.resume is None && a.queue_cmd is None && a.writer is None
                && a.writer_cmd is None && a.session_cmd is None && !a.json,
    {
        Args {
            timer_secs: None,
            word_goal: None,
            note_name: None,
            print_stdout: false,
            visible_lines: None,
            template: None,
            theme: None,
            list_themes: false,
            record: false,
            daily: false,
            stats: false,
            find: None,
            resume: None,
            queue_cmd: None,
            writer: None,
            writer_cmd: None,
            session_cmd: None,
            json: false,
        }
    }
}

/// `queue …` as `main` consumes it. Every variant carries `session`: there
/// is no active session to fall back to.
#[derive(Debug)]
pub enum QueueCmd {
    New { topic: String, session: String, placement: Placement },
    Write { id: String, session: String, side: Side, mode: WriteMode },
    List { session: String, status: StatusFilter, since: Option<String> },
    Show { id: String, session: String },
    Next { session: String },
    Close { id: String, session: String, message: Option<String> },
    Reopen { id: String, session: String },
    Move { id: String, session: String, anchor: MoveAnchor },
    Lock { id: String, session: String },
    Unlock { id: String, session: String },
}

/// The `--session` a queue command carries.
pub open spec fn session_of(c: QueueCmd) -> String {
    match c {
        QueueCmd::New { session, .. } => session,
        QueueCmd::Write { session, .. } => session,
        QueueCmd::List { session, .. } => session,
        QueueCmd::Show { session, .. } => session,
        QueueCmd::Next { session } => session,
        QueueCmd::Close { session, .. } => session,
        QueueCmd::Reopen { session, .. } => session,
        QueueCmd::Move { session, .. } => session,
        QueueCmd::Lock { session, .. } => session,
        QueueCmd::Unlock { session, .. } => session,
    }
}

impl QueueCmd {
    /// The `--session` this command was given; every variant carries one,
    /// so it is validated once, before dispatch.
    pub fn session(&self) -> (s: &str)
        ensures
            s@ == session_of(*self)@,
    {
        match self {
            QueueCmd::New { session, .. } => session.as_str(),
            QueueCmd::Write { session, .. } => session.as_str(),
            QueueCmd::List { session, .. } => session.as_str(),
            QueueCmd::Show { session, .. } => session.as_str(),
            QueueCmd::Next { session } => session.as_str(),
            QueueCmd::Close { session, .. } => session.as_str(),
            QueueCmd::Reopen { session, .. } => session.as_str(),
            QueueCmd::Move { session, .. } => session.as_str(),
            QueueCmd::Lock { session, .. } => session.as_str(),
            QueueCmd::Unlock { session, .. } => session.as_str(),
        }
    }
}

/// `writer …` as `main` consumes it.
#[derive(Debug)]
pub enum WriterCmd {
    Register { name: String, kind: Kind },
    List,
    Whoami,
}

/// `session …` as `main` consumes it.
#[derive(Debug)]
pub enum SessionCmd {
    New { alias: Option<String> },
    List { all: bool },
    Alias { id: String, alias: String },
}

/// The command line as read: the global options and the subcommand.
#[derive(Debug)]
pub struct Cli {
    pub command: Option<Command>,
    /// Countdown timer, in minutes.
    pub timer: Option<u32>,
    pub word_goal: Option<u32>,
    pub visible_lines: Option<u32>,
    pub template: Option<String>,
    pub theme: Option<String>,
    pub record: bool,
    pub print_stdout: bool,
    pub writer: Option<String>,
    pub json: bool,
}

/// The subcommand, as read.
#[derive(Debug)]
pub enum Command {
    New { name: String },
    Today,
    Resume { file: Option<String> },
    Stats,
    Find { query: Vec<String> },
    Themes,
    Queue { action: QueueAction },
    Writer { action: WriterAction },
    Session { action: SessionAction },
}

/// `queue …`, as read.
#[derive(Debug)]
pub enum QueueAction {
    New { topic: String, session: String, first: bool, last: bool, priority: Option<i64> },
    Write { id: String, session: String, side: Side, append: bool, replace: bool },
    List { session: String, status: StatusFilter, since: Option<String> },
    Show { id: String, session: String },
    Next { session: String },
    Close { id: String, session: String, message: Option<String> },
    Reopen { id: String, session: String },
    Move { id: String, session: String, before: Option<String>, after: Option<String> },
    Lock { id: String, session: String },
    Unlock { id: String, session: String },
}

/// `writer …`, as read.
#[derive(Debug)]
pub enum WriterAction {
    Register { name: String, kind: Kind },
    List,
    Whoami,
}

/// `session …`, as read.
#[derive(Debug)]
pub enum SessionAction {
    New { alias: Option<String> },
    List { all: bool },
    Alias { id: String, alias: String },
}

/// What the command line guarantees before `into_args` runs: the timer fits
/// in seconds, and a move names exactly one anchor.
pub open spec fn cli_ok(cli: Cli) -> bool {
    &&& cli.timer matches Some(m) ==> m <= u32::MAX / 60
    &&& cli.command matches Some(Command::Queue { action: QueueAction::Move { before, after, .. } })
        ==> (before is Some) != (after is Some)
}

/// The queue command an action becomes: `--first` wins, then `--priority`,
/// else tail placement; `--append` appends, else the side is replaced; a
/// move goes before or after its one anchor.
pub open spec fn queue_cmd_of(a: QueueAction) -> QueueCmd {
    match a {
        QueueAction::New { topic, session, first, last, priority } => QueueCmd::New {
            topic,
            session,
            placement: if first {
                Placement::First
            } else if priority is Some {
                Placement::Explicit(priority->0)
            } else {
                Placement::Last
            },
        },
        QueueAction::Write { id, session, side, append, replace } => QueueCmd::Write {
            id,
            session,
            side,
            mode: if append {
                WriteMode::Append
            } else {
                WriteMode::Replace
            },
        },
        QueueAction::List { session, status, since } => QueueCmd::List { session, status, since },
        QueueAction::Show { id, session } => QueueCmd::Show { id, session },
        QueueAction::Next { session } => QueueCmd::Next { session },
        QueueAction::Close { id, session, message } => QueueCmd::Close { id, session, message },
        QueueAction::Reopen { id, session } => QueueCmd::Reopen { id, session },
        QueueAction::Lock { id, session } => QueueCmd::Lock { id, session },
        QueueAction::Unlock { id, session } => QueueCmd::Unlock { id, session },
        QueueAction::Move { id, session, before, after } => QueueCmd::Move {
            id,
            session,
            anchor: if before is Some {
                MoveAnchor::Before(before->0)
            } else {
                MoveAnchor::After(after->0)
            },
        },
    }
}

/// The arguments a command line becomes: the global options carried over
/// (the timer from minutes to seconds), and the subcommand turned into its
/// flag or command.
pub open spec fn args_of(cli: Cli) -> Args {
    let base = Args {
        timer_secs: match cli.timer {
            Some(m) => Some((m * 60) as u32),
            None => None,
        },
        word_goal: match cli.word_goal {
            Some(w) => Some(w as usize),
            None => None,
        },
        note_name: None,
        print_stdout: cli.print_stdout,
        visible_lines: match cli.visible_lines {
            Some(l) => Some(l as usize),
            None => None,
        },
        template: cli.template,
        theme: cli.theme,
        list_themes: false,
        record: cli.record,
        daily: false,
        stats: false,
        find: None,
        resume: None,
        queue_cmd: None,
        writer: cli.writer,
        writer_cmd: None,
        session_cmd: None,
        json: cli.json,
    };
    match cli.command {
        None => base,
        Some(Command::New { name }) => Args { note_name: Some(name), ..base },
        Some(Command::Today) => Args { daily: true, ..base },
        Some(Command::Resume { file }) => Args { resume: Some(file), ..base },
        Some(Command::Stats) => Args { stats: true, ..base },
        Some(Command::Find { query }) => Args { find: Some(query), ..base },
        Some(Command::Themes) => Args { list_themes: true, ..base },
        Some(Command::Queue { action }) => Args { queue_cmd: Some(queue_cmd_of(action)), ..base },
        Some(Command::Writer { action }) => Args {
            writer_cmd: Some(
                match action {
                    WriterAction::Register { name, kind } => WriterCmd::Register { name, kind },
                    WriterAction::List => WriterCmd::List,
                    WriterAction::Whoami => WriterCmd::Whoami,
                },
            ),
            ..base
        },
        Some(Command::Session { action }) => Args {
            session_cmd: Some(
                match action {
                    SessionAction::New { alias } => SessionCmd::New { alias },
                    SessionAction::List { all } => SessionCmd::List { all },
                    SessionAction::Alias { id, alias } => SessionCmd::Alias { id, alias },
                },
            ),
            ..base
        },
    }
}

fn queue_cmd(action: QueueAction) -> (c: QueueCmd)
    requires
        action matches QueueAction::Move { before, after, .. } ==> (before is Some) != (
        after is Some),
    ensures
        c == queue_cmd_of(action),
{
    match action {
        QueueAction::New { topic, session, first, last: _, priority } => {
            let placement = if first {
                Placement::First
            } else if let Some(p) = priority {
                Placement::Explicit(p)
            } else {
                Placement::Last
            };
            QueueCmd::New { topic, session, placement }
        },
        QueueAction::Write { id, session, side, append, replace: _ } => QueueCmd::Write {
            id,
            session,
            side,
            mode: if append {
                WriteMode::Append
            } else {
                WriteMode::Replace
            },
        },
        QueueAction::List { session, status, since } => QueueCmd::List { session, status, since },
        QueueAction::Show { id, session } => QueueCmd::Show { id, session },
        QueueAction::Next { session } => QueueCmd::Next { session },
        QueueAction::Close { id, session, message } => QueueCmd::Close { id, session, message },
        QueueAction::Reopen { id, session } => QueueCmd::Reopen { id, session },
        QueueAction::Lock { id, session } => QueueCmd::Lock { id, session },
        QueueAction::Unlock { id, session } => QueueCmd::Unlock { id, session },
        QueueAction::Move { id, session, before, after } => {
            let anchor = match before {
                Some(b) => MoveAnchor::Before(b),
                None => MoveAnchor::After(after.unwrap()),
            };
            QueueCmd::Move { id, session, anchor }
        },
    }
}

impl Cli {
    /// The arguments this command line asks for (see `args_of`).
    pub fn into_args(self) -> (a: Args)
        requires
            cli_ok(self),
        ensures
            a == args_of(self),
    {
        let mut args = Args {
            timer_secs: match self.timer {
                Some(m) => Some(m * 60),
                None => None,
            },
            word_goal: match self.word_goal {
                Some(w) => Some(w as usize),
                None => None,
            },
            note_name: None,
            print_stdout: self.print_stdout,
            visible_lines: match self.visible_lines {
                Some(l) => Some(l as usize),
                None => None,
            },
            template: self.template,
            theme: self.theme,
            list_themes: false,
            record: self.record,
            daily: false,
            stats: false,
            find: None,
            resume: None,
            queue_cmd: None,
            writer: self.writer,
            writer_cmd: None,
            session_cmd: None,
            json: self.json,
        };
        match self.command {
            None => {},
            Some(Command::New { name }) => args.note_name = Some(name),
            Some(Command::Today) => args.daily = true,
            Some(Command::Resume { file }) => args.resume = Some(file),
            Some(Command::Stats) => args.stats = true,
            Some(Command::Find { query }) => args.find = Some(query),
            Some(Command::Themes) => args.list_themes = true,
            Some(Command::Queue { action }) => args.queue_cmd = Some(queue_cmd(action)),
            Some(Command::Writer { action }) => {
                args.writer_cmd = Some(
                    match action {
                        WriterAction::Register { name, kind } => WriterCmd::Register { name, kind },
                        WriterAction::List => WriterCmd::List,
                        WriterAction::Whoami => WriterCmd::Whoami,
                    },
                );
            },
            Some(Command::Session { action }) => {
                args.session_cmd = Some(
                    match action {
                        SessionAction::New { alias } => SessionCmd::New { alias },
                        SessionAction::List { all } => SessionCmd::List { all },
                        SessionAction::Alias { id, alias } => SessionCmd::Alias { id, alias },
                    },
                );
            },
        }
        args
    }
}

/// `"no writer: $USER is empty or unset, so pass --writer <NAME> or set $CASSETTE_WRITER"`
pub open spec fn no_writer_message() -> Seq<char> {
    "no writer: $USER is empty or unset, so pass --writer <NAME> or set $CASSETTE_WRITER"@
}

/// The writer a queue command acts as, and where the name came from:
/// `--writer` (which must not be blank) first, then `$CASSETTE_WRITER` when
/// it is not blank (treated like the flag), then `$USER` when it is not
/// blank; each trimmed. With none of them there is no writer.
pub open spec fn writer_choice(
    flag: Option<Seq<char>>,
    env_writer: Option<Seq<char>>,
    user: Option<Seq<char>>,
) -> Result<(Seq<char>, WriterSource), Seq<char>> {
    if flag is Some {
        if trim(flag->0).len() == 0 {
            Err("--writer cannot be empty"@)
        } else {
            Ok((trim(flag->0), WriterSource::Flag))
        }
    } else if env_writer is Some && trim(env_writer->0).len() > 0 {
        Ok((trim(env_writer->0), WriterSource::Flag))
    } else if user is Some && trim(user->0).len() > 0 {
        Ok((trim(user->0), WriterSource::Env))
    } else {
        Err(no_writer_message())
    }
}

/// `Some(s@)` for `Some(s)`.
pub open spec fn str_opt(o: Option<&str>) -> Option<Seq<char>> {
    match o {
        Some(s) => Some(s@),
        None => None,
    }
}

/// Resolves the acting writer from `--writer`, `$CASSETTE_WRITER` and
/// `$USER` (as read by the caller; `None` when unset or not Unicode); see
/// `writer_choice`.
pub fn resolve_writer_name(
    flag: Option<&str>,
    env_writer: Option<&str>,
    user: Option<&str>,
) -> (r: Result<(String, WriterSource), String>)
    ensures
        match writer_choice(str_opt(flag), str_opt(env_writer), str_opt(user)) {
            Ok((name, source)) => r matches Ok((n, s)) && n@ == name && s == source,
            Err(msg) => r matches Err(m) && m@ == msg,
        },
{
    if let Some(name) = flag {
        if is_blank(name) {
            return Err(owned("--writer cannot be empty"));
        }
        return Ok((trimmed(name), WriterSource::Flag));
    }
    if let Some(w) = env_writer {
        if !is_blank(w) {
            return Ok((trimmed(w), WriterSource::Flag));
        }
    }
    if let Some(u) = user {
        if !is_blank(u) {
            return Ok((trimmed(u), WriterSource::Env));
        }
    }
    Err(owned("no writer: $USER is empty or unset, so pass --writer <NAME> or set $CASSETTE_WRITER"))
}

/// The subcommand a launch names a session with, if any: `resume`, else
/// `today`, else `new`.
pub open spec fn named_session_command(args: Args) -> Option<Seq<char>> {
    if args.resume is Some {
        Some("resume"@)
    } else if args.daily {
        Some("today"@)
    } else if args.note_name is Some {
        Some("new"@)
    } else {
        None
    }
}

/// Why `-o` cannot go with the subcommand `named`.
pub open spec fn print_conflict_message(named: Seq<char>) -> Seq<char> {
    "'-o' persists nothing, so it cannot be combined with '"@ + named
        + "' \u{2014} drop '-o' to write to the store, or drop '"@ + named
        + "' to print this sitting to stdout"@
}

/// The refusal a launch's arguments earn before anything is touched, if
/// any: `resume` cannot take a template (it opens an existing session, with
/// nothing to seed); and `-o`, which persists nothing, cannot go with a
/// subcommand that names a session.
pub fn launch_conflict(args: &Args) -> (r: Option<String>)
    ensures
        match r {
            Some(m) => if args.resume is Some && args.template is Some {
                m@ == "'resume' cannot be combined with '-T'"@
            } else {
                &&& args.print_stdout
                &&& named_session_command(*args) matches Some(named)
                &&& m@ == print_conflict_message(named)
            },
            None => !(args.resume is Some && args.template is Some) && !(args.print_stdout
                && named_session_command(*args) is Some),
        },
{
    if args.resume.is_some() && args.template.is_some() {
        return Some(owned("'resume' cannot be combined with '-T'"));
    }
    if args.print_stdout {
        let named = if args.resume.is_some() {
            "resume"
        } else if args.daily {
            "today"
        } else if args.note_name.is_some() {
            "new"
        } else {
            return None;
        };
        let mut m = owned("'-o' persists nothing, so it cannot be combined with '");
        push_str(&mut m, named);
        push_str(&mut m, "' \u{2014} drop '-o' to write to the store, or drop '");
        push_str(&mut m, named);
        push_str(&mut m, "' to print this sitting to stdout");
        return Some(m);
    }
    None
}

} // verus!
