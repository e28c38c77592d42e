//! A terminal session with a kennel: what is typed, what the daemon says, and how it ends.

use super::shared;
use super::shared::exit_code;
use crate::decimal;
use crate::decimal::dec_text;
use crate::layout;
use crate::text;
use crate::text::{concat2, concat3, concat5, concat7};
use vstd::prelude::*;
use vstd::string::*;

verus! {

// ---- what is typed -------------------------------------------------------------

/// `Ctrl-\`, which starts the detach sequence.
pub const DETACH_LEAD: u8 = 0x1c;

/// `d`, which ends the detach sequence.
pub const DETACH_KEY: u8 = 0x64;

/// What becomes of a byte that was typed.
#[derive(Debug, Clone, Copy, PartialEq, Eq, Structural)]
pub enum Typed {
    /// It answers the prompt that is outstanding.
    Answer(u8),
    /// It is held back until the next one tells whether it starts the detach sequence.
    Hold,
    /// It goes to the workload.
    Pass(u8),
    /// It goes to the workload behind the byte that was held back.
    PassBoth(u8),
    /// The session is detached.
    Detach,
}

/// What becomes of a byte; `armed` tells whether the lead of the detach sequence is held back.
pub open spec fn typed(armed: bool, b: u8, prompt: bool) -> Typed {
    if prompt {
        Typed::Answer(b)
    } else if armed {
        if b == DETACH_KEY {
            Typed::Detach
        } else {
            Typed::PassBoth(b)
        }
    } else if b == DETACH_LEAD {
        Typed::Hold
    } else {
        Typed::Pass(b)
    }
}

/// Whether the lead is held back after that.
pub open spec fn armed_after(armed: bool, b: u8, prompt: bool) -> bool {
    if prompt {
        armed
    } else {
        !armed && b == DETACH_LEAD
    }
}

/// The watch for the detach sequence in what is typed.
#[derive(Debug, Clone, Copy, PartialEq, Eq, Structural)]
pub struct Watch {
    /// Whether the lead of the detach sequence is held back.
    pub armed: bool,
}

/// What became of keys that were typed.
#[derive(Debug)]
pub struct Pumped {
    /// What goes to the workload.
    pub out: Vec<u8>,
    /// The answers to prompts.
    pub answers: Vec<u8>,
    /// Whether the session is detached, in which case the keys behind that are dropped.
    pub detached: bool,
}

/// What became of keys that were typed, and whether the lead is held back.
#[verifier::ext_equal]
pub struct Flow {
    /// What goes to the workload.
    pub out: Seq<u8>,
    /// The answers to prompts.
    pub answers: Seq<u8>,
    /// Whether the session is detached.
    pub detached: bool,
    /// Whether the lead is held back.
    pub armed: bool,
}

/// What became of keys and of one more key; a key comes with whether a prompt is outstanding.
pub open spec fn flow_on(f: Flow, key: (u8, bool)) -> Flow {
    if f.detached {
        f
    } else {
        let armed = armed_after(f.armed, key.0, key.1);
        match typed(f.armed, key.0, key.1) {
            Typed::Answer(b) => Flow { answers: f.answers.push(b), armed, ..f },
            Typed::Hold => Flow { armed, ..f },
            Typed::Pass(b) => Flow { out: f.out.push(b), armed, ..f },
            Typed::PassBoth(b) => Flow { out: f.out.push(DETACH_LEAD).push(b), armed, ..f },
            Typed::Detach => Flow { detached: true, armed, ..f },
        }
    }
}

/// What became of keys; `armed` tells whether the lead is held back before them.
pub open spec fn flow(armed: bool, keys: Seq<(u8, bool)>) -> Flow
    decreases keys.len(),
{
    if keys.len() == 0 {
        Flow { out: seq![], answers: seq![], detached: false, armed }
    } else {
        flow_on(flow(armed, keys.drop_last()), keys.last())
    }
}

impl Watch {
    /// A watch that holds nothing back.
    pub fn new() -> (r: Watch)
        ensures
            !r.armed,
    {
        Watch { armed: false }
    }

    /// What becomes of the byte `b`; `prompt` tells whether a prompt is outstanding.
    pub fn step(&mut self, b: u8, prompt: bool) -> (r: Typed)
        ensures
            r == typed(old(self).armed, b, prompt),
            final(self).armed == armed_after(old(self).armed, b, prompt),
    {
        if prompt {
            Typed::Answer(b)
        } else if self.armed {
            self.armed = false;
            if b == DETACH_KEY {
                Typed::Detach
            } else {
                Typed::PassBoth(b)
            }
        } else if b == DETACH_LEAD {
            self.armed = true;
            Typed::Hold
        } else {
            Typed::Pass(b)
        }
    }

    /// What becomes of keys, each with whether a prompt is outstanding.
    pub fn feed(&mut self, keys: &[(u8, bool)]) -> (r: Pumped)
        ensures
            ({
                let f = flow(old(self).armed, keys@);
                &&& r.out@ == f.out
                &&& r.answers@ == f.answers
                &&& r.detached == f.detached
                &&& final(self).armed == f.armed
            }),
    {
        let mut out: Vec<u8> = Vec::new();
        let mut answers: Vec<u8> = Vec::new();
        let ghost start = self.armed;
        let mut detached = false;
        let mut i: usize = 0;
        assert(keys@.take(0) =~= seq![]);
        while i < keys.len()
            invariant
                i <= keys@.len(),
                start == old(self).armed,
                flow(start, keys@.take(i as int)) == (Flow {
                    out: out@,
                    answers: answers@,
                    detached,
                    armed: self.armed,
                }),
            decreases keys@.len() - i,
        {
            proof {
                assert(keys@.take(i + 1).drop_last() =~= keys@.take(i as int));
                assert(keys@.take(i + 1).last() == keys@[i as int]);
            }
            if !detached {
                match self.step(keys[i].0, keys[i].1) {
                    Typed::Answer(b) => {
                        answers.push(b);
                    },
                    Typed::Hold => {},
                    Typed::Pass(b) => {
                        out.push(b);
                    },
                    Typed::PassBoth(b) => {
                        out.push(DETACH_LEAD);
                        out.push(b);
                    },
                    Typed::Detach => {
                        detached = true;
                    },
                }
            }
            i = i + 1;
        }
        assert(keys@.take(keys@.len() as int) =~= keys@);
        Pumped { out, answers, detached }
    }
}

/// The bytes typed while a prompt was outstanding, or while none was.
pub open spec fn bytes_typed(keys: Seq<(u8, bool)>, prompt: bool) -> Seq<u8>
    decreases keys.len(),
{
    if keys.len() == 0 {
        seq![]
    } else if keys.last().1 == prompt {
        bytes_typed(keys.drop_last(), prompt).push(keys.last().0)
    } else {
        bytes_typed(keys.drop_last(), prompt)
    }
}

/// The lead where it is held back.
pub open spec fn held(armed: bool) -> Seq<u8> {
    if armed {
        seq![DETACH_LEAD]
    } else {
        seq![]
    }
}

/// Nothing that is typed is lost, added or misdirected: in a session that is not detached, what is
/// typed at a prompt is its answer, and the rest is what went to the workload and what is held back.
pub proof fn law_typed_bytes_are_kept(armed: bool, keys: Seq<(u8, bool)>)
    requires
        !flow(armed, keys).detached,
    ensures
        flow(armed, keys).answers == bytes_typed(keys, true),
        flow(armed, keys).out + held(flow(armed, keys).armed) == held(armed) + bytes_typed(
            keys,
            false,
        ),
    decreases keys.len(),
{
    if keys.len() > 0 {
        let front = keys.drop_last();
        let f = flow(armed, front);
        let g = flow(armed, keys);
        law_typed_bytes_are_kept(armed, front);
        let before = held(armed) + bytes_typed(front, false);
        assert(f.out + held(f.armed) == before);
        if !keys.last().1 {
            let b = keys.last().0;
            assert(g.out + held(g.armed) =~= before.push(b));
            assert(before.push(b) =~= held(armed) + bytes_typed(keys, false));
        }
    } else {
        assert(seq![] + held(armed) =~= held(armed) + seq![]);
    }
}

/// A session is detached by the two keys in a row and by nothing else: where it is, the last key but
/// one that counted was held back.
pub proof fn law_detaching_takes_the_lead(armed: bool, keys: Seq<(u8, bool)>)
    requires
        keys.len() > 0,
        !flow(armed, keys.drop_last()).detached,
        flow(armed, keys).detached,
    ensures
        flow(armed, keys.drop_last()).armed,
        keys.last() == (DETACH_KEY, false),
{
}

/// The answer to a prompt that a key stands for: yes only for `y` and `Y`.
pub fn prompt_answer(key: u8) -> (r: &'static str)
    ensures
        r@ == if key == 0x79 || key == 0x59 {
            "y"@
        } else {
            "n"@
        },
{
    if key == 0x79 || key == 0x59 {
        "y"
    } else {
        "n"
    }
}

/// What is said when the operator has detached.
pub fn detached_text(name: &str) -> (r: String)
    ensures
        r@ == "\r\ndetached from `"@ + name@ + "` (workload still running; `kennel attach "@ + name@
            + "` to reconnect)"@,
{
    concat5(
        "\r\ndetached from `",
        name,
        "` (workload still running; `kennel attach ",
        name,
        "` to reconnect)",
    )
}

// ---- what the daemon says ------------------------------------------------------

/// What the daemon says to a session.
#[derive(Debug)]
pub enum Reply {
    /// The kennel runs: its context, its process, and whether its output is filtered here.
    Started(u16, u32, bool),
    /// The terminal is attached, and whether its output is filtered here.
    Attached(bool),
    /// The workload ended with a code.
    Exited(i32),
    /// The session was taken away, and why.
    Detached(String),
    /// The operator is asked something.
    Prompt(u64, String),
    /// Something failed.
    Error(String),
    /// Anything else.
    Other,
}

/// An answer of the daemon.
#[derive(Debug)]
pub struct Answer {
    /// What it says.
    pub reply: Reply,
    /// How it is written in a message.
    pub shown: String,
}

/// What is told of an answer that does not belong where it came.
pub open spec fn fault_text(a: Answer) -> Seq<char> {
    match a.reply {
        Reply::Error(m) => m@,
        _ => "unexpected response: "@ + a.shown@,
    }
}

/// What is told of an answer that does not belong where it came.
pub fn fault(a: &Answer) -> (r: String)
    ensures
        r@ == fault_text(*a),
{
    match &a.reply {
        Reply::Error(m) => m.clone(),
        _ => concat2("unexpected response: ", a.shown.as_str()),
    }
}

/// Whether the output of a kennel that was started is filtered here.
pub fn started_filter(a: &Answer) -> (r: Result<bool, String>)
    ensures
        match a.reply {
            Reply::Started(_, _, f) => r == Ok::<bool, String>(f),
            _ => r matches Err(m) && m@ == fault_text(*a),
        },
{
    match &a.reply {
        Reply::Started(_, _, f) => Ok(*f),
        _ => Err(fault(a)),
    }
}

/// Whether the output of a kennel that was attached to is filtered here.
pub fn attached_filter(a: &Answer) -> (r: Result<bool, String>)
    ensures
        match a.reply {
            Reply::Attached(f) => r == Ok::<bool, String>(f),
            _ => r matches Err(m) && m@ == fault_text(*a),
        },
{
    match &a.reply {
        Reply::Attached(f) => Ok(*f),
        _ => Err(fault(a)),
    }
}

/// What is said of a kennel that was started.
pub fn launched(name: &str, a: &Answer) -> (r: Result<String, String>)
    ensures
        match a.reply {
            Reply::Started(ctx, pid, _) => r matches Ok(s) && s@ == "kennel `"@ + name@
                + "` started (ctx "@ + decimal::dec(ctx as nat) + ", pid "@ + decimal::dec(
                pid as nat,
            ) + ")"@,
            _ => r matches Err(m) && m@ == fault_text(*a),
        },
{
    match &a.reply {
        Reply::Started(ctx, pid, _) => {
            let c = dec_text(*ctx as u64);
            let p = dec_text(*pid as u64);
            Ok(
                concat7(
                    "kennel `",
                    name,
                    "` started (ctx ",
                    c.as_str(),
                    ", pid ",
                    p.as_str(),
                    ")",
                ),
            )
        },
        _ => Err(fault(a)),
    }
}

/// The exit status of a workload that ended.
pub fn exited(a: &Answer) -> (r: Result<u8, String>)
    ensures
        match a.reply {
            Reply::Exited(code) => r matches Ok(s) && s == shared::status(code),
            _ => r matches Err(m) && m@ == fault_text(*a),
        },
{
    match &a.reply {
        Reply::Exited(code) => Ok(exit_code(*code)),
        _ => Err(fault(a)),
    }
}

/// What a session does with an answer of the daemon.
#[derive(Debug)]
pub enum Control {
    /// It asks the operator: the prompt's number, and what is shown.
    Ask(u64, String),
    /// It ends with what is shown and the exit status.
    End(String, u8),
    /// It ends with an error.
    Fail(String),
}

/// What a session does with an answer of the daemon: it asks the operator until the daemon says how
/// the session ended.
pub fn control_step(a: &Answer) -> (r: Control)
    ensures
        match a.reply {
            Reply::Prompt(id, p) => r matches Control::Ask(n, shown) && n == id && shown@
                == "\r\n"@ + p@ + " "@,
            Reply::Exited(code) => r matches Control::End(shown, s) && shown@ == ""@ && s
                == shared::status(code),
            Reply::Detached(why) => r matches Control::End(shown, s) && shown@ == "\r\ndetached: "@
                + why@ + "\r\n"@ && s == 0,
            _ => r matches Control::Fail(m) && m@ == fault_text(*a),
        },
{
    match &a.reply {
        Reply::Prompt(id, p) => Control::Ask(*id, concat3("\r\n", p.as_str(), " ")),
        Reply::Exited(code) => Control::End("".to_owned(), exit_code(*code)),
        Reply::Detached(why) => Control::End(
            concat3("\r\ndetached: ", why.as_str(), "\r\n"),
            0,
        ),
        _ => Control::Fail(fault(a)),
    }
}

/// What is shown behind a prompt that was answered.
pub fn answered_text(answer: &str) -> (r: String)
    ensures
        r@ == answer@ + "\r\n"@,
{
    concat2(answer, "\r\n")
}

/// How a session ended.
#[derive(Debug)]
pub enum SessionEnd {
    /// The operator detached.
    Detached,
    /// The daemon said how.
    Outcome(Result<u8, String>),
    /// Nobody said how.
    Lost,
}

/// What is told at the end of a session, and its exit status or its error.
pub fn session_end(name: &str, end: SessionEnd) -> (r: (Option<String>, Result<u8, String>))
    ensures
        match end {
            SessionEnd::Detached => layout::opt(r.0) == Some(
                "\r\ndetached from `"@ + name@ + "` (workload still running; `kennel attach "@
                    + name@ + "` to reconnect)"@,
            ) && r.1 == Ok::<u8, String>(0),
            SessionEnd::Outcome(o) => r.0 is None && r.1 == o,
            SessionEnd::Lost => r.0 is None && (r.1 matches Err(m) && m@
                == "session ended without an outcome"@),
        },
{
    match end {
        SessionEnd::Detached => (Some(detached_text(name)), Ok(0)),
        SessionEnd::Outcome(o) => (None, o),
        SessionEnd::Lost => (None, Err("session ended without an outcome".to_owned())),
    }
}

// ---- what holds of the whole -------------------------------------------------------

/// A key that answers a prompt never reaches the workload and never detaches; without a prompt, only
/// the lead is held back, only the key behind it detaches, and any other key reaches the workload,
/// behind the lead where that was held back.
pub proof fn law_a_key_goes_to_one_place(w: &mut Watch, b: u8, prompt: bool, r: Typed)
    requires
        call_ensures(Watch::step, (w, b, prompt), r),
    ensures
        prompt ==> r == Typed::Answer(b) && final(w).armed == old(w).armed,
        !prompt ==> !(r is Answer),
        r == Typed::Detach <==> !prompt && old(w).armed && b == 0x64,
        r == Typed::Hold <==> !prompt && !old(w).armed && b == 0x1c,
        r is Pass <==> !prompt && !old(w).armed && b != 0x1c,
        r is PassBoth <==> !prompt && old(w).armed && b != 0x64,
        r is Pass ==> r == Typed::Pass(b),
        r is PassBoth ==> r == Typed::PassBoth(b),
        !prompt ==> (final(w).armed <==> r == Typed::Hold),
{
}

/// What is typed at prompts is their answers, in their order, and the rest reaches the workload, in
/// its order, but for the lead where it is held back; nothing is lost as long as the session lasts.
pub proof fn law_a_session_passes_on_what_is_typed(w: &mut Watch, keys: &[(u8, bool)], r: Pumped)
    requires
        call_ensures(Watch::feed, (w, keys), r),
        !r.detached,
    ensures
        r.answers@ == bytes_typed(keys@, true),
        r.out@ + held(final(w).armed) == held(old(w).armed) + bytes_typed(keys@, false),
{
    law_typed_bytes_are_kept(old(w).armed, keys@);
}

/// Only `y` in either case means yes at a prompt.
pub proof fn law_only_yes_means_yes(key: u8, r: &'static str)
    requires
        call_ensures(prompt_answer, (key,), r),
    ensures
        r@ == seq!['y'] <==> key == 121 || key == 89,
        r@ == seq!['n'] <==> key != 121 && key != 89,
{
    reveal_strlit("y");
    reveal_strlit("n");
    assert("y"@ =~= seq!['y']);
    assert("n"@ =~= seq!['n']);
    assert(seq!['y'][0] != seq!['n'][0]);
}

/// A session goes on just where the operator is asked; it ends well just where the workload ended or
/// the session was taken away, with the workload's code where a status can hold it; and everything
/// else the daemon says is an error, told in its own words where it told one.
pub proof fn law_a_session_ends_as_the_daemon_says(a: &Answer, r: Control)
    requires
        call_ensures(control_step, (a,), r),
    ensures
        r is Ask <==> a.reply is Prompt,
        r is End <==> a.reply is Exited || a.reply is Detached,
        a.reply matches Reply::Prompt(id, p) ==> (r matches Control::Ask(n, _) && n == id),
        a.reply matches Reply::Exited(code) ==> (r matches Control::End(_, s) && (0 <= code <= 255
            ==> s == code) && (code < 0 || code > 255 ==> s != 0)),
        a.reply matches Reply::Error(m) ==> (r matches Control::Fail(t) && t@ == m@),
{
}

/// The outcome of a session is passed on as it is; a session that was detached is no failure, and one
/// that nobody ended is.
pub proof fn law_outcomes_are_passed_on(
    name: &str,
    end: SessionEnd,
    r: (Option<String>, Result<u8, String>),
)
    requires
        call_ensures(session_end, (name, end), r),
    ensures
        end matches SessionEnd::Outcome(o) ==> r.1 == o && r.0 is None,
        end is Detached ==> r.1 == Ok::<u8, String>(0) && r.0 is Some,
        end is Lost ==> r.1 is Err && r.0 is None,
{
}

/// A kennel counts as started, attached or ended only where the daemon says just that, and what it
/// says of the output is taken as it is.
pub proof fn law_only_the_expected_answer_is_accepted(
    a: &Answer,
    started: Result<bool, String>,
    attached: Result<bool, String>,
    ended: Result<u8, String>,
)
    requires
        call_ensures(started_filter, (a,), started),
        call_ensures(attached_filter, (a,), attached),
        call_ensures(exited, (a,), ended),
    ensures
        started is Ok <==> a.reply is Started,
        attached is Ok <==> a.reply is Attached,
        ended is Ok <==> a.reply is Exited,
        a.reply matches Reply::Started(_, _, f) ==> started == Ok::<bool, String>(f),
        a.reply matches Reply::Attached(f) ==> attached == Ok::<bool, String>(f),
        a.reply matches Reply::Exited(code) ==> (0 <= code <= 255 ==> ended == Ok::<u8, String>(
            code as u8,
        )) && (code < 0 || code > 255 ==> ended != Ok::<u8, String>(0)),
{
}

/// A launch is told as one only where the daemon started it, with the process that it has.
pub proof fn law_launches_are_told_as_started(name: &str, a: &Answer, r: Result<String, String>)
    requires
        call_ensures(launched, (name, a), r),
    ensures
        r is Ok <==> a.reply is Started,
        r matches Ok(s) ==> text::holds(s@, "`"@ + name@ + "`"@),
{
    if let Ok(s) = r {
        reveal_strlit("kennel `");
        reveal_strlit("kennel ");
        reveal_strlit("`");
        reveal_strlit("` started (ctx ");
        let p = "`"@ + name@ + "`"@;
        let rest = s@.skip(8 + name@.len() as int + 1);
        assert(s@ =~= "kennel "@ + p + rest);
        text::lemma_holds("kennel "@, p, rest);
    }
}

} // verus!
