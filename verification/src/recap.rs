//! The one-line recap printed when a session ends.

use vstd::prelude::*;

use crate::app::{blank, cassette_words, total_words, App};
use crate::cassette::Cassette;
use crate::text::{
    dec, dec2, is_blank, join_with, lemma_join_with_push, push_dec, push_dec2, push_str,
    push_usize, trim,
};

verus! {

/// How a cassette is named in the breakdown: its topic, or
/// `"cassette N"` by its 1-based position.
pub open spec fn cassette_label(topic: Option<String>, i: int) -> Seq<char> {
    match topic {
        Some(t) => t@,
        None => "cassette "@ + dec((i + 1) as nat),
    }
}

/// The breakdown entries: `"<label>: <words>"` for each cassette.
pub open spec fn breakdown(app: App) -> Seq<Seq<char>> {
    Seq::new(
        app.cassettes@.len(),
        |i: int|
            cassette_label(app.cassettes@[i].topic, i) + ": "@ + dec(
                cassette_words(app.cassettes@[i]),
            ),
    )
}

/// The recap after `secs` seconds, `pace` being the words-per-minute figure
/// as text: nothing for a session with nothing written (or, after a load,
/// nothing new); otherwise `"<words>[ new] words in <m>:<ss>"`, then
/// `" — <pace> wpm"` once the session ran 30 seconds, `" (<total> total)"`
/// after a load, and a `" · "`-separated per-cassette breakdown on a second
/// line when there are several cassettes.
pub open spec fn recap_text(app: App, secs: u64, pace: Seq<char>) -> Option<Seq<char>> {
    let total = total_words(app.cassettes@);
    let words = app.session_words();
    let all_blank = forall|i: int| 0 <= i < app.cassettes@.len() ==> blank(#[trigger] app.cassettes@[i]);
    if all_blank || (app.baseline_words > 0 && words == 0) {
        None
    } else {
        Some(
            dec(words) + (if app.baseline_words > 0 {
                " new"@
            } else {
                Seq::empty()
            }) + " words in "@ + dec((secs / 60) as nat) + ":"@ + dec2((secs % 60) as nat) + (if secs
                >= 30 {
                " — "@ + pace + " wpm"@
            } else {
                Seq::empty()
            }) + (if app.baseline_words > 0 {
                " ("@ + dec(total) + " total)"@
            } else {
                Seq::empty()
            }) + (if app.cassettes@.len() > 1 {
                "\n  "@ + join_with(breakdown(app), " · "@)
            } else {
                Seq::empty()
            }),
        )
    }
}

proof fn lemma_one_le_total(cs: Seq<crate::cassette::Cassette>, i: int)
    requires
        0 <= i < cs.len(),
    ensures
        cassette_words(cs[i]) <= total_words(cs),
    decreases cs.len(),
{
    if i < cs.len() - 1 {
        lemma_one_le_total(cs.drop_last(), i);
    }
}

/// One-line session recap (see `recap_text`). `secs` is how long the
/// session ran and `pace` its words per minute, as the caller measured and
/// formatted them.
pub fn session_summary(app: &App, secs: u64, pace: &str) -> (r: Option<String>)
    requires
        total_words(app.cassettes@) <= usize::MAX,
    ensures
        match recap_text(*app, secs, pace@) {
            Some(t) => r matches Some(s) && s@ == t,
            None => r is None,
        },
{
    if app.is_empty() {
        return None;
    }
    let total = app.total_word_count();
    let words = app.session_word_count();
    if app.baseline_words > 0 && words == 0 {
        return None;
    }
    let mut line = String::new();
    push_usize(&mut line, words);
    if app.baseline_words > 0 {
        push_str(&mut line, " new");
    }
    push_str(&mut line, " words in ");
    push_dec(&mut line, secs / 60);
    push_str(&mut line, ":");
    push_dec2(&mut line, secs % 60);
    if secs >= 30 {
        push_str(&mut line, " — ");
        push_str(&mut line, pace);
        push_str(&mut line, " wpm");
    }
    if app.baseline_words > 0 {
        push_str(&mut line, " (");
        push_usize(&mut line, total);
        push_str(&mut line, " total)");
    }
    let ghost head = line@;
    if app.cassettes.len() > 1 {
        push_str(&mut line, "\n  ");
        let ghost parts = breakdown(*app);
        let ghost mid = line@;
        let mut i: usize = 0;
        while i < app.cassettes.len()
            invariant
                i <= app.cassettes@.len(),
                parts == breakdown(*app),
                total_words(app.cassettes@) <= usize::MAX,
                line@ == mid + join_with(parts.take(i as int), " · "@),
            decreases app.cassettes@.len() - i,
        {
            let ghost before = line@;
            let ghost part = parts[i as int];
            if i > 0 {
                push_str(&mut line, " · ");
            }
            match &app.cassettes[i].topic {
                Some(t) => push_str(&mut line, t.as_str()),
                None => {
                    push_str(&mut line, "cassette ");
                    push_usize(&mut line, i + 1);
                },
            }
            push_str(&mut line, ": ");
            proof {
                lemma_one_le_total(app.cassettes@, i as int);
            }
            let n = app.cassettes[i].word_count();
            push_usize(&mut line, n);
            proof {
                lemma_join_with_push(parts.take(i as int), " · "@, part);
                assert(parts.take(i + 1) =~= parts.take(i as int).push(part));
                if i > 0 {
                    assert(line@ =~= before + " · "@ + part);
                } else {
                    assert(line@ =~= before + part);
                }
            }
            i = i + 1;
        }
        assert(parts.take(app.cassettes@.len() as int) =~= parts);
    }
    assert(line@ =~= recap_text(*app, secs, pace@)->0);
    Some(line)
}

/// What a session that was not saved prints of cassette `c`, the `n`-th
/// (from 1): a heading naming it (and its topic), side A, and side B when
/// it has text.
pub open spec fn recorded_text(c: Cassette, n: nat) -> Seq<char> {
    "Words recorded to Cassette "@ + dec(n) + (match c.topic {
        Some(t) => " \u{2014} "@ + t@,
        None => Seq::empty(),
    }) + ":\n\nSide A:\n\n"@ + c.side_a_seq() + "\n"@ + (if trim(c.side_b_seq()).len() > 0 {
        "\nSide B:\n\n"@ + c.side_b_seq() + "\n"@
    } else {
        Seq::empty()
    })
}

/// `recorded_text` of the first `n` cassettes of `cs`, in order.
pub open spec fn recorded_upto(cs: Seq<Cassette>, n: int) -> Seq<char>
    decreases n,
{
    if n <= 0 || n > cs.len() {
        Seq::empty()
    } else {
        recorded_upto(cs, n - 1) + recorded_text(cs[n - 1], n as nat)
    }
}

/// Append `recorded_text` of cassette `c`, the `n`-th.
fn push_recorded(out: &mut String, c: &Cassette, n: usize)
    ensures
        final(out)@ == old(out)@ + recorded_text(*c, n as nat),
{
    push_str(out, "Words recorded to Cassette ");
    push_usize(out, n);
    match &c.topic {
        Some(t) => {
            push_str(out, " \u{2014} ");
            push_str(out, t.as_str());
        },
        None => {},
    }
    push_str(out, ":\n\nSide A:\n\n");
    let a = c.side_a_text();
    push_str(out, a.as_str());
    push_str(out, "\n");
    let b = c.side_b_text();
    if !is_blank(b.as_str()) {
        push_str(out, "\nSide B:\n\n");
        push_str(out, b.as_str());
        push_str(out, "\n");
    }
    assert(out@ =~= old(out)@ + recorded_text(*c, n as nat));
}

/// Where the words go when nothing was persisted (`-o`): every cassette's
/// text, to be printed as it stands (see `recorded_text`).
pub fn stdout_report(app: &App) -> (r: String)
    ensures
        r@ == recorded_upto(app.cassettes@, app.cassettes@.len() as int),
{
    let mut out = String::new();
    let mut i: usize = 0;
    while i < app.cassettes.len()
        invariant
            i <= app.cassettes@.len(),
            out@ == recorded_upto(app.cassettes@, i as int),
        decreases app.cassettes@.len() - i,
    {
        push_recorded(&mut out, &app.cassettes[i], i + 1);
        i = i + 1;
    }
    out
}

/// The recap's duration reads back as the session's length: after the
/// word count comes `" words in "`, the whole minutes, a colon and the
/// seconds past the minute (under sixty, two digits), which make up `secs`.
pub proof fn lemma_recap_duration(app: App, secs: u64, pace: Seq<char>, t: Seq<char>)
    requires
        recap_text(app, secs, pace) == Some(t),
    ensures
        exists|m: nat, s: nat|
            #![trigger dec(m), dec2(s)]
            m * 60 + s == secs && s < 60 && (dec(app.session_words()) + (if app.baseline_words > 0 {
                " new"@
            } else {
                Seq::empty()
            }) + " words in "@ + dec(m) + ":"@ + dec2(s)).is_prefix_of(t),
{
    let m = (secs / 60) as nat;
    let s = (secs % 60) as nat;
    let pre = dec(app.session_words()) + (if app.baseline_words > 0 {
        " new"@
    } else {
        Seq::empty()
    }) + " words in "@ + dec(m) + ":"@ + dec2(s);
    assert(t.subrange(0, pre.len() as int) =~= pre);
    assert(pre.is_prefix_of(t));
    assert(m * 60 + s == secs);
}

} // verus!
