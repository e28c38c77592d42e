//! Writing a compiled policy, step by step.
//!
//! The exclusive paths are the caller's own, the keys that the policy needs are minted before it is
//! signed, and the lock is held against the one that was there before anything is written.

use super::policy::{compiled_text, CompileArgs, CompileOutput};
use super::shared::{policy_error_code, PolicyErrorKind};
use crate::text;
use crate::text::{concat2, concat4};
use vstd::prelude::*;
use vstd::string::*;

verus! {

/// A step after a policy was compiled.
#[derive(Clone, Copy, Debug, PartialEq, Eq, Structural)]
pub enum Stage {
    /// The exclusive paths are held against their owner.
    Own,
    /// The keys that the policy needs are minted.
    Mint,
    /// The references are held against the lock that is there.
    CheckLock,
    /// The lock is made.
    MakeLock,
    /// The lock is written.
    WriteLock,
    /// The settled form is made and signed.
    Seal,
    /// The settled form is written.
    Write,
}

/// Why a step failed.
#[derive(Debug)]
pub enum Fault {
    /// It could not be done.
    Failed(String),
    /// It was done, and the policy is refused.
    Refused(String),
}

/// What follows a step.
#[derive(Debug)]
pub enum Turn {
    /// Another step.
    Go(Stage),
    /// The end, with what is told.
    Done(String),
    /// The end, with what is told and the exit status.
    Exit(String, u8),
    /// The end, with an error.
    Fail(String),
}

/// What follows a step, as texts.
pub enum Sequel {
    /// Another step.
    Go(Stage),
    /// The end, with what is told.
    Done(Seq<char>),
    /// The end, with what is told and the exit status.
    Exit(Seq<char>, int),
    /// The end, with an error.
    Fail(Seq<char>),
}

impl View for Turn {
    type V = Sequel;

    open spec fn view(&self) -> Sequel {
        match *self {
            Turn::Go(s) => Sequel::Go(s),
            Turn::Done(m) => Sequel::Done(m@),
            Turn::Exit(m, c) => Sequel::Exit(m@, c as int),
            Turn::Fail(m) => Sequel::Fail(m@),
        }
    }
}

/// The step that follows one that went well.
pub open spec fn next_stage(stage: Stage, no_lock: bool) -> Option<Stage> {
    match stage {
        Stage::Own => Some(Stage::Mint),
        Stage::Mint => if no_lock {
            Some(Stage::Seal)
        } else {
            Some(Stage::CheckLock)
        },
        Stage::CheckLock => Some(Stage::MakeLock),
        Stage::MakeLock => Some(Stage::WriteLock),
        Stage::WriteLock => Some(Stage::Seal),
        Stage::Seal => Some(Stage::Write),
        Stage::Write => None,
    }
}

/// What is told of a compiled policy.
pub open spec fn done_text(name: Seq<char>, settled: Seq<char>, unsigned: bool) -> Seq<char> {
    "compiled `"@ + name + "` -> "@ + settled + if unsigned {
        " (unsigned development build)"@
    } else {
        ""@
    }
}

/// What follows a step that failed: references that differ from the lock end with the status of an
/// integrity failure, everything else with an error.
pub open spec fn after_fault(stage: Stage, fault: Fault, out: CompileOutput) -> Sequel {
    match fault {
        Fault::Refused(m) => Sequel::Exit("kennel: "@ + m@, 6),
        Fault::Failed(m) => Sequel::Fail(
            match stage {
                Stage::Own => "kennel: "@ + m@,
                Stage::CheckLock => "reading "@ + out.lock@ + ": "@ + m@,
                Stage::MakeLock => "lockfile: "@ + m@,
                Stage::WriteLock => "writing "@ + out.lock@ + ": "@ + m@,
                Stage::Write => "writing "@ + out.settled@ + ": "@ + m@,
                Stage::Mint | Stage::Seal => m@,
            },
        ),
    }
}

/// What follows a step, given how it went.
pub fn after_stage(
    stage: Stage,
    outcome: &Result<(), Fault>,
    a: &CompileArgs,
    out: &CompileOutput,
    name: &str,
) -> (r: Turn)
    ensures
        r@ == match *outcome {
            Ok(_) => match next_stage(stage, a.no_lock) {
                Some(s) => Sequel::Go(s),
                None => Sequel::Done(done_text(name@, out.settled@, a.unsigned)),
            },
            Err(f) => after_fault(stage, f, *out),
        },
{
    match outcome {
        Ok(_) => match stage {
            Stage::Own => Turn::Go(Stage::Mint),
            Stage::Mint => if a.no_lock {
                Turn::Go(Stage::Seal)
            } else {
                Turn::Go(Stage::CheckLock)
            },
            Stage::CheckLock => Turn::Go(Stage::MakeLock),
            Stage::MakeLock => Turn::Go(Stage::WriteLock),
            Stage::WriteLock => Turn::Go(Stage::Seal),
            Stage::Seal => Turn::Go(Stage::Write),
            Stage::Write => Turn::Done(compiled_text(name, out.settled.as_str(), a.unsigned)),
        },
        Err(Fault::Refused(m)) => Turn::Exit(concat2("kennel: ", m.as_str()), 6),
        Err(Fault::Failed(m)) => Turn::Fail(
            match stage {
                Stage::Own => concat2("kennel: ", m.as_str()),
                Stage::CheckLock => concat4("reading ", out.lock.as_str(), ": ", m.as_str()),
                Stage::MakeLock => concat2("lockfile: ", m.as_str()),
                Stage::WriteLock => concat4("writing ", out.lock.as_str(), ": ", m.as_str()),
                Stage::Write => concat4("writing ", out.settled.as_str(), ": ", m.as_str()),
                Stage::Mint | Stage::Seal => m.clone(),
            },
        ),
    }
}

/// What is told of a policy that did not compile, and the exit status.
pub fn refusal(kind: PolicyErrorKind, message: &str) -> (r: (String, u8))
    ensures
        r.0@ == "kennel: "@ + message@,
        r.1 == (if kind is Signature || kind is LockMismatch {
            6int
        } else {
            3
        }),
{
    (concat2("kennel: ", message), policy_error_code(kind))
}

/// The steps of a compilation in which nothing fails.
pub open spec fn course(no_lock: bool) -> Seq<Stage> {
    if no_lock {
        seq![Stage::Own, Stage::Mint, Stage::Seal, Stage::Write]
    } else {
        seq![
            Stage::Own,
            Stage::Mint,
            Stage::CheckLock,
            Stage::MakeLock,
            Stage::WriteLock,
            Stage::Seal,
            Stage::Write,
        ]
    }
}

/// A compilation takes its steps in order: keys are minted before the policy is signed, so that the
/// signature covers them, and the references are held against the lock before the lock or the
/// settled form is written.
pub proof fn law_compilation_goes_in_order(no_lock: bool, i: int)
    requires
        0 <= i < course(no_lock).len(),
    ensures
        next_stage(course(no_lock)[i], no_lock) == if i + 1 < course(no_lock).len() {
            Some(course(no_lock)[i + 1])
        } else {
            None
        },
{
}

/// References that differ from the lock are an integrity failure: the compilation ends there with
/// the status of one, and writes neither lock nor settled form.
pub proof fn law_lock_mismatch_ends_the_compilation(m: String, out: CompileOutput)
    ensures
        after_fault(Stage::CheckLock, Fault::Refused(m), out) == Sequel::Exit("kennel: "@ + m@, 6),
        forall|i: int|
            0 <= i < course(false).len() && (#[trigger] course(false)[i] is WriteLock || course(
                false,
            )[i] is Write) ==> i > 2,
        course(false)[2] is CheckLock,
{
}

// ---- what holds of the whole ----------------------------------------------------

/// A stage that failed ends the compilation; a refusal ends it with the status of one. What was
/// written last, the settled form, ends it well.
pub proof fn law_failed_stage_ends_the_compilation(
    stage: Stage,
    outcome: &Result<(), Fault>,
    a: &CompileArgs,
    out: &CompileOutput,
    name: &str,
    r: Turn,
)
    requires
        call_ensures(after_stage, (stage, outcome, a, out, name), r),
    ensures
        r is Go || r is Done <==> outcome is Ok,
        r is Done <==> (outcome is Ok && stage is Write),
        r is Exit <==> (outcome matches Err(f) && f is Refused),
        r matches Turn::Exit(_, c) ==> c == 6,
        r == Turn::Go(Stage::Mint) <==> (outcome is Ok && stage is Own),
        r == Turn::Go(Stage::CheckLock) <==> (outcome is Ok && stage is Mint && !a.no_lock),
        r == Turn::Go(Stage::WriteLock) <==> (outcome is Ok && stage is MakeLock),
        r == Turn::Go(Stage::Seal) <==> (outcome is Ok && (stage is WriteLock || (stage is Mint
            && a.no_lock))),
        r == Turn::Go(Stage::Write) <==> (outcome is Ok && stage is Seal),
{
    let v = r@;
}

/// A signature or a lock that does not fit is an integrity failure, and nothing else is.
pub proof fn law_integrity_failures_have_their_status(
    kind: PolicyErrorKind,
    message: &str,
    r: (String, u8),
)
    requires
        call_ensures(refusal, (kind, message), r),
    ensures
        r.1 == 6 <==> (kind == PolicyErrorKind::Signature || kind == PolicyErrorKind::LockMismatch),
        r.1 != 0,
        text::holds(r.0@, message@),
{
    text::lemma_holds("kennel: "@, message@, seq![]);
    assert(r.0@ =~= "kennel: "@ + message@ + seq![]);
}

} // verus!
