//! The rotation of a signing key, step by step.
//!
//! The old pair is moved aside, a successor is made under its name, and what the key signed is
//! signed and compiled again. Each function says what comes next, given how the last step went.

use super::key;
use super::key::{pub_path, retired_pair, RotationPlan, SignedRef};
use crate::layout;
use crate::layout::push_line;
use crate::path;
use crate::path::join;
use crate::text;
use crate::text::{concat2, concat3, concat4, concat5};
use vstd::prelude::*;
use vstd::string::*;

verus! {

// ---- the pair ------------------------------------------------------------------

/// A half of a key pair.
pub enum Half {
    /// The private half.
    Key,
    /// The public half.
    Public,
}

/// The file of the private half.
pub open spec fn key_file(dir: Seq<char>, name: Seq<char>) -> Seq<char> {
    path::joined(dir, name)
}

/// The file of the public half.
pub open spec fn public_file(dir: Seq<char>, name: Seq<char>) -> Seq<char> {
    key::pub_file(dir, name)
}

/// The file of the retired private half.
pub open spec fn retired_key_file(dir: Seq<char>, name: Seq<char>) -> Seq<char> {
    path::joined(dir, name + ".retired"@)
}

/// The file of the retired public half.
pub open spec fn retired_public_file(dir: Seq<char>, name: Seq<char>) -> Seq<char> {
    path::joined(dir, name + ".pub.retired"@)
}

/// A step that changes the key store.
#[derive(Clone, Copy, Debug, PartialEq, Eq, Structural)]
pub enum Stage {
    /// The private half is moved aside.
    RetireKey,
    /// The public half is moved aside.
    RetirePublic,
    /// A successor is made.
    Mint,
}

/// A file that is moved.
#[derive(Debug)]
pub struct Move {
    /// Where it is.
    pub from: String,
    /// Where it goes.
    pub to: String,
}

/// Moves, as texts.
pub open spec fn moves(v: Seq<Move>) -> Seq<(Seq<char>, Seq<char>)> {
    v.map_values(|m: Move| (m.from@, m.to@))
}

/// What a stage moves.
pub open spec fn stage_moves(stage: Stage, dir: Seq<char>, name: Seq<char>) -> Seq<
    (Seq<char>, Seq<char>),
> {
    match stage {
        Stage::RetireKey => seq![(key_file(dir, name), retired_key_file(dir, name))],
        Stage::RetirePublic => seq![(public_file(dir, name), retired_public_file(dir, name))],
        Stage::Mint => seq![],
    }
}

/// What is moved back when a stage fails.
pub open spec fn back_moves(stage: Stage, dir: Seq<char>, name: Seq<char>) -> Seq<
    (Seq<char>, Seq<char>),
> {
    match stage {
        Stage::RetireKey => seq![],
        Stage::RetirePublic => seq![(retired_key_file(dir, name), key_file(dir, name))],
        Stage::Mint => seq![
            (retired_key_file(dir, name), key_file(dir, name)),
            (retired_public_file(dir, name), public_file(dir, name)),
        ],
    }
}

/// What follows a stage.
#[derive(Debug)]
pub enum Turn {
    /// Another stage.
    Go(Stage),
    /// The work with the successor.
    Minted,
    /// The end: the files are moved back, and the message is told.
    Stop(Vec<Move>, String),
}

/// What is told where a stage fails.
pub open spec fn stage_fault(stage: Stage, e: Seq<char>, dir: Seq<char>, name: Seq<char>) -> Seq<
    char,
> {
    match stage {
        Stage::RetireKey => "retiring "@ + key_file(dir, name) + ": "@ + e,
        Stage::RetirePublic => "retiring "@ + public_file(dir, name) + ": "@ + e,
        Stage::Mint => "minting the successor failed ("@ + e + "); old key restored"@,
    }
}

/// The stage that follows one that went well.
pub open spec fn next_stage(stage: Stage) -> Option<Stage> {
    match stage {
        Stage::RetireKey => Some(Stage::RetirePublic),
        Stage::RetirePublic => Some(Stage::Mint),
        Stage::Mint => None,
    }
}

/// What a stage moves; nothing where it makes the successor.
pub fn stage_move(stage: Stage, dir: &str, name: &str) -> (r: Option<Move>)
    ensures
        match r {
            Some(m) => stage_moves(stage, dir@, name@) == seq![(m.from@, m.to@)],
            None => stage_moves(stage, dir@, name@).len() == 0,
        },
{
    let (retired_key, retired_public) = retired_pair(dir, name);
    match stage {
        Stage::RetireKey => Some(Move { from: join(dir, name), to: retired_key }),
        Stage::RetirePublic => Some(Move { from: pub_path(dir, name), to: retired_public }),
        Stage::Mint => None,
    }
}

/// What follows a stage, given how it went.
pub fn after_stage(stage: Stage, outcome: &Result<(), String>, dir: &str, name: &str) -> (r: Turn)
    ensures
        match *outcome {
            Ok(_) => match next_stage(stage) {
                Some(s) => r == Turn::Go(s),
                None => r is Minted,
            },
            Err(e) => r matches Turn::Stop(back, message) && moves(back@) == back_moves(
                stage,
                dir@,
                name@,
            ) && message@ == stage_fault(stage, e@, dir@, name@),
        },
{
    let e = match outcome {
        Ok(_) => {
            return match stage {
                Stage::RetireKey => Turn::Go(Stage::RetirePublic),
                Stage::RetirePublic => Turn::Go(Stage::Mint),
                Stage::Mint => Turn::Minted,
            };
        },
        Err(e) => e,
    };
    let (retired_key, retired_public) = retired_pair(dir, name);
    let place = join(dir, name);
    let public = pub_path(dir, name);
    let message = match stage {
        Stage::RetireKey => concat4("retiring ", place.as_str(), ": ", e.as_str()),
        Stage::RetirePublic => concat4("retiring ", public.as_str(), ": ", e.as_str()),
        Stage::Mint => concat3(
            "minting the successor failed (",
            e.as_str(),
            "); old key restored",
        ),
    };
    let mut back: Vec<Move> = Vec::new();
    match stage {
        Stage::RetireKey => {},
        Stage::RetirePublic => {
            back.push(Move { from: retired_key, to: place });
        },
        Stage::Mint => {
            back.push(Move { from: retired_key, to: place });
            back.push(Move { from: retired_public, to: public });
        },
    }
    assert(moves(back@) =~= back_moves(stage, dir@, name@));
    Turn::Stop(back, message)
}

/// Why no rotation begins: the retired pair of an earlier one is still there.
pub fn retired_refusal(dir: &str, name: &str, key_there: bool, public_there: bool) -> (r: Option<
    String,
>)
    ensures
        layout::opt(r) == if key_there || public_there {
            Some(
                "a previous rotation's retired pair is still at "@ + retired_key_file(dir@, name@)
                    + " — remove it first"@,
            )
        } else {
            None
        },
{
    if key_there || public_there {
        let (retired_key, _) = retired_pair(dir, name);
        Some(
            concat3(
                "a previous rotation's retired pair is still at ",
                retired_key.as_str(),
                " — remove it first",
            ),
        )
    } else {
        None
    }
}

/// What is said of the retired pair at the end of a rotation.
pub fn retired_line(dir: &str, name: &str) -> (r: String)
    ensures
        r@ == "old key retired to "@ + retired_key_file(dir@, name@) + " / "@
            + retired_public_file(dir@, name@)
            + " — remove both once nothing needs forensics"@,
{
    let (retired_key, retired_public) = retired_pair(dir, name);
    concat5(
        "old key retired to ",
        retired_key.as_str(),
        " / ",
        retired_public.as_str(),
        " — remove both once nothing needs forensics",
    )
}

// ---- where the old pair is -----------------------------------------------------

/// Where the halves of the old pair are, once a file is moved.
pub open spec fn moved(
    store: Map<Seq<char>, Half>,
    from: Seq<char>,
    to: Seq<char>,
) -> Map<Seq<char>, Half> {
    if store.contains_key(from) {
        store.remove(from).insert(to, store[from])
    } else {
        store
    }
}

/// Where the halves of the old pair are, once files are moved.
pub open spec fn all_moved(
    store: Map<Seq<char>, Half>,
    ms: Seq<(Seq<char>, Seq<char>)>,
) -> Map<Seq<char>, Half>
    decreases ms.len(),
{
    if ms.len() == 0 {
        store
    } else {
        all_moved(moved(store, ms[0].0, ms[0].1), ms.drop_first())
    }
}

/// Where the halves of the old pair are before a rotation.
pub open spec fn in_place(dir: Seq<char>, name: Seq<char>) -> Map<Seq<char>, Half> {
    map![key_file(dir, name) => Half::Key, public_file(dir, name) => Half::Public]
}

/// Where the halves of the old pair are when a stage begins.
pub open spec fn when_begun(stage: Stage, dir: Seq<char>, name: Seq<char>) -> Map<Seq<char>, Half> {
    let first = all_moved(in_place(dir, name), stage_moves(Stage::RetireKey, dir, name));
    match stage {
        Stage::RetireKey => in_place(dir, name),
        Stage::RetirePublic => first,
        Stage::Mint => all_moved(first, stage_moves(Stage::RetirePublic, dir, name)),
    }
}

proof fn lemma_files_are_distinct(dir: Seq<char>, name: Seq<char>)
    ensures
        key_file(dir, name) != public_file(dir, name),
        key_file(dir, name) != retired_key_file(dir, name),
        key_file(dir, name) != retired_public_file(dir, name),
        public_file(dir, name) != retired_key_file(dir, name),
        public_file(dir, name) != retired_public_file(dir, name),
        retired_key_file(dir, name) != retired_public_file(dir, name),
{
    reveal_strlit(".pub");
    reveal_strlit(".retired");
    reveal_strlit(".pub.retired");
    let a = name + ".pub"@;
    let b = name + ".retired"@;
    let c = name + ".pub.retired"@;
    assert(name.len() > 0 ==> a[0] == name[0] && b[0] == name[0] && c[0] == name[0]);
    assert(name.len() == 0 ==> a[0] == '.' && b[0] == '.' && c[0] == '.');
    let k = key_file(dir, name);
    assert(public_file(dir, name).len() == k.len() + 4);
    assert(retired_key_file(dir, name).len() == k.len() + 8);
    assert(retired_public_file(dir, name).len() == k.len() + 12);
}

/// A rotation that fails while it changes the key store leaves the old pair where it was: at whatever
/// stage it fails, what is moved back undoes what was moved.
pub proof fn law_failed_rotation_restores_the_pair(stage: Stage, dir: Seq<char>, name: Seq<char>)
    ensures
        all_moved(when_begun(stage, dir, name), back_moves(stage, dir, name)) == in_place(
            dir,
            name,
        ),
{
    lemma_files_are_distinct(dir, name);
    reveal_with_fuel(all_moved, 3);
    let (k, p) = (key_file(dir, name), public_file(dir, name));
    let (rk, rp) = (retired_key_file(dir, name), retired_public_file(dir, name));
    let first = when_begun(Stage::RetirePublic, dir, name);
    assert(first =~= map![rk => Half::Key, p => Half::Public]);
    assert(moved(first, rk, k) =~= in_place(dir, name));
    let second = when_begun(Stage::Mint, dir, name);
    assert(second =~= map![rk => Half::Key, rp => Half::Public]);
    assert(moved(moved(second, rk, k), rp, p) =~= in_place(dir, name));
    let two = back_moves(Stage::Mint, dir, name);
    assert(two.drop_first() =~= seq![(rp, p)]);
    assert(two.drop_first().drop_first() =~= seq![]);
}

/// When the successor is made, neither half of the old pair is under its old name, and neither is
/// lost.
pub proof fn law_successor_meets_no_old_half(dir: Seq<char>, name: Seq<char>)
    ensures
        when_begun(Stage::Mint, dir, name) == map![
            retired_key_file(dir, name) => Half::Key,
            retired_public_file(dir, name) => Half::Public,
        ],
        !when_begun(Stage::Mint, dir, name).contains_key(key_file(dir, name)),
        !when_begun(Stage::Mint, dir, name).contains_key(public_file(dir, name)),
{
    lemma_files_are_distinct(dir, name);
    reveal_with_fuel(all_moved, 3);
    assert(when_begun(Stage::Mint, dir, name) =~= map![
        retired_key_file(dir, name) => Half::Key,
        retired_public_file(dir, name) => Half::Public,
    ]);
}

// ---- the work ------------------------------------------------------------------

/// What is done with the successor next, as a place in what was found.
#[derive(Clone, Copy, Debug, PartialEq, Eq, Structural)]
pub enum Job {
    /// A template is signed again.
    Sign(usize),
    /// A policy is compiled again.
    Compile(usize),
    /// Nothing is left.
    Done,
}

/// How far the work of a rotation is.
#[derive(Debug)]
pub struct Cascade {
    /// How many templates were taken up.
    pub signed: usize,
    /// How many policies were taken up.
    pub compiled: usize,
    /// How much failed.
    pub failures: usize,
    /// The templates that were signed again.
    pub resigned: Vec<String>,
}

/// How far the work of a rotation is.
#[verifier::ext_equal]
pub struct Progress {
    /// How many templates were taken up.
    pub signed: nat,
    /// How many policies were taken up.
    pub compiled: nat,
    /// How much failed.
    pub failures: nat,
    /// The templates that were signed again.
    pub resigned: Seq<Seq<char>>,
}

impl View for Cascade {
    type V = Progress;

    open spec fn view(&self) -> Progress {
        Progress {
            signed: self.signed as nat,
            compiled: self.compiled as nat,
            failures: self.failures as nat,
            resigned: text::texts(self.resigned@),
        }
    }
}

impl Progress {
    /// Whether no more was taken up than there is.
    pub open spec fn fits(self, p: RotationPlan) -> bool {
        self.signed <= p.templates@.len() && self.compiled <= p.leaves@.len()
    }

    /// The job that is next: the templates first, in their order, then the policies.
    pub open spec fn job(self, p: RotationPlan) -> Job {
        if self.signed < p.templates@.len() {
            Job::Sign(p.templates@[self.signed as int])
        } else if self.compiled < p.leaves@.len() {
            Job::Compile(p.leaves@[self.compiled as int])
        } else {
            Job::Done
        }
    }

    /// How far the work is once the next job went well or not.
    pub open spec fn after(self, refs: Seq<SignedRef>, p: RotationPlan, ok: bool) -> Progress {
        let failures = if ok || self.failures >= usize::MAX {
            self.failures
        } else {
            self.failures + 1
        };
        match self.job(p) {
            Job::Sign(i) => Progress {
                signed: self.signed + 1,
                failures,
                resigned: if ok {
                    self.resigned.push(refs[i as int].name@)
                } else {
                    self.resigned
                },
                ..self
            },
            Job::Compile(_) => Progress { compiled: self.compiled + 1, failures, ..self },
            Job::Done => self,
        }
    }
}

/// What is said of a job, given how it went.
pub open spec fn job_text(refs: Seq<SignedRef>, job: Job, outcome: Result<(), String>) -> Option<
    Seq<char>,
> {
    match job {
        Job::Sign(i) => Some(
            match outcome {
                Ok(_) => "re-signed template "@ + refs[i as int].path@,
                Err(e) => "FAILED to re-sign "@ + refs[i as int].path@ + ": "@ + e@,
            },
        ),
        Job::Compile(i) => Some(
            match outcome {
                Ok(_) => "recompiled "@ + refs[i as int].path@,
                Err(_) => "FAILED to recompile "@ + source_text(refs[i as int]),
            },
        ),
        Job::Done => None,
    }
}

/// The source of a settled policy; empty where there is none.
pub open spec fn source_text(r: SignedRef) -> Seq<char> {
    match r.source {
        Some(s) => s@,
        None => seq![],
    }
}

impl Cascade {
    /// The work before its first job.
    pub fn new() -> (c: Cascade)
        ensures
            c@ == (Progress { signed: 0, compiled: 0, failures: 0, resigned: seq![] }),
    {
        let c = Cascade { signed: 0, compiled: 0, failures: 0, resigned: Vec::new() };
        assert(c@.resigned =~= seq![]);
        c
    }

    /// The job that is next.
    pub fn job(&self, p: &RotationPlan) -> (r: Job)
        ensures
            r == self@.job(*p),
    {
        if self.signed < p.templates.len() {
            Job::Sign(p.templates[self.signed])
        } else if self.compiled < p.leaves.len() {
            Job::Compile(p.leaves[self.compiled])
        } else {
            Job::Done
        }
    }

    /// Takes note of how the next job went; returns what is said of it.
    pub fn went(&mut self, refs: &[SignedRef], p: &RotationPlan, outcome: &Result<(), String>) -> (r:
        Option<String>)
        requires
            old(self)@.fits(*p),
            key::within(*p, refs@.len()),
        ensures
            final(self)@ == old(self)@.after(refs@, *p, outcome is Ok),
            final(self)@.fits(*p),
            layout::opt(r) == job_text(refs@, old(self)@.job(*p), *outcome),
    {
        let job = self.job(p);
        if outcome.is_err() && self.failures < usize::MAX && !matches!(job, Job::Done) {
            self.failures = self.failures + 1;
        }
        match job {
            Job::Sign(i) => {
                assert(i < refs@.len());
                assert(self.signed < p.templates.len());
                self.signed = self.signed + 1;
                match outcome {
                    Ok(_) => {
                        push_line(&mut self.resigned, refs[i].name.clone());
                        Some(concat2("re-signed template ", refs[i].path.as_str()))
                    },
                    Err(e) => Some(
                        concat4("FAILED to re-sign ", refs[i].path.as_str(), ": ", e.as_str()),
                    ),
                }
            },
            Job::Compile(i) => {
                assert(i < refs@.len());
                assert(self.compiled < p.leaves.len());
                self.compiled = self.compiled + 1;
                match outcome {
                    Ok(_) => Some(concat2("recompiled ", refs[i].path.as_str())),
                    Err(_) => {
                        let source = match &refs[i].source {
                            Some(s) => s.clone(),
                            None => String::new(),
                        };
                        assert(source@ =~= source_text(refs@[i as int]));
                        Some(concat2("FAILED to recompile ", source.as_str()))
                    },
                }
            },
            Job::Done => None,
        }
    }
}

/// How far the work is once as many jobs went well or not.
pub open spec fn ran(refs: Seq<SignedRef>, p: RotationPlan, outcomes: Seq<bool>) -> Progress
    decreases outcomes.len(),
{
    if outcomes.len() == 0 {
        Progress { signed: 0, compiled: 0, failures: 0, resigned: seq![] }
    } else {
        ran(refs, p, outcomes.drop_last()).after(refs, p, outcomes.last())
    }
}

/// How many of the outcomes are failures.
pub open spec fn failed(outcomes: Seq<bool>) -> nat
    decreases outcomes.len(),
{
    if outcomes.len() == 0 {
        0
    } else if outcomes.last() {
        failed(outcomes.drop_last())
    } else {
        failed(outcomes.drop_last()) + 1
    }
}

/// The names of the templates whose job went well.
pub open spec fn well_signed(refs: Seq<SignedRef>, p: RotationPlan, outcomes: Seq<bool>) -> Seq<
    Seq<char>,
>
    decreases outcomes.len(),
{
    if outcomes.len() == 0 {
        seq![]
    } else {
        let front = well_signed(refs, p, outcomes.drop_last());
        if outcomes.last() && outcomes.len() <= p.templates@.len() {
            front.push(refs[p.templates@[outcomes.len() - 1] as int].name@)
        } else {
            front
        }
    }
}

proof fn lemma_ran(refs: Seq<SignedRef>, p: RotationPlan, outcomes: Seq<bool>)
    requires
        outcomes.len() <= p.templates@.len() + p.leaves@.len(),
        outcomes.len() <= usize::MAX,
    ensures
        ({
            let g = ran(refs, p, outcomes);
            let n = outcomes.len();
            let t = p.templates@.len();
            &&& g.signed == (if n <= t {
                n
            } else {
                t
            })
            &&& g.compiled == (if n <= t {
                0
            } else {
                (n - t) as nat
            })
            &&& g.failures == failed(outcomes)
            &&& g.failures <= n
            &&& g.resigned == well_signed(refs, p, outcomes)
        }),
    decreases outcomes.len(),
{
    if outcomes.len() > 0 {
        lemma_ran(refs, p, outcomes.drop_last());
    }
}

/// A rotation takes up everything in its plan, each once: the templates in their order, then the
/// policies in theirs, whatever fails on the way; then it is done.
pub proof fn law_cascade_takes_up_the_plan(
    refs: Seq<SignedRef>,
    p: RotationPlan,
    outcomes: Seq<bool>,
)
    requires
        outcomes.len() <= p.templates@.len() + p.leaves@.len(),
        outcomes.len() <= usize::MAX,
    ensures
        ran(refs, p, outcomes).job(p) == ({
            let n = outcomes.len();
            let t = p.templates@.len();
            if n < t {
                Job::Sign(p.templates@[n as int])
            } else if n < t + p.leaves@.len() {
                Job::Compile(p.leaves@[n - t])
            } else {
                Job::Done
            }
        }),
{
    lemma_ran(refs, p, outcomes);
}

/// A rotation passes over no failure: it counts each, and only what was signed again counts as such.
pub proof fn law_failures_are_counted(refs: Seq<SignedRef>, p: RotationPlan, outcomes: Seq<bool>)
    requires
        outcomes.len() <= p.templates@.len() + p.leaves@.len(),
        outcomes.len() <= usize::MAX,
    ensures
        ran(refs, p, outcomes).failures == failed(outcomes),
        ran(refs, p, outcomes).resigned == well_signed(refs, p, outcomes),
{
    lemma_ran(refs, p, outcomes);
}

// ---- what holds of the whole ----------------------------------------------------

/// The halves are moved aside one after the other before a successor is made, and nothing goes on
/// behind a failure.
pub proof fn law_stages_follow_in_order(
    stage: Stage,
    outcome: &Result<(), String>,
    dir: &str,
    name: &str,
    r: Turn,
)
    requires
        call_ensures(after_stage, (stage, outcome, dir, name), r),
    ensures
        r is Stop <==> outcome is Err,
        outcome is Ok && stage == Stage::RetireKey ==> r == Turn::Go(Stage::RetirePublic),
        outcome is Ok && stage == Stage::RetirePublic ==> r == Turn::Go(Stage::Mint),
        r is Minted <==> (outcome is Ok && stage == Stage::Mint),
{
}

/// What a stage moves is one half, out of the way of the successor, and never onto another file of the
/// pair.
pub proof fn law_stage_moves_its_half(stage: Stage, dir: &str, name: &str, r: Option<Move>)
    requires
        call_ensures(stage_move, (stage, dir, name), r),
    ensures
        r is None <==> stage == Stage::Mint,
        r matches Some(m) ==> m.from@ != m.to@ && ".retired"@.is_suffix_of(m.to@),
        r matches Some(m) ==> (stage == Stage::RetireKey ==> m.from@ == path::joined(dir@, name@)),
        r matches Some(m) ==> (stage == Stage::RetirePublic ==> m.from@ == path::joined(
            dir@,
            name@ + ".pub"@,
        )),
{
    lemma_files_are_distinct(dir@, name@);
    reveal_strlit(".retired");
    reveal_strlit(".pub.retired");
    if let Some(m) = r {
        let e = ".retired"@;
        assert(stage_moves(stage, dir@, name@)[0] == (m.from@, m.to@));
        let n = m.to@.len() as int;
        assert(m.to@.subrange(n - e.len(), n) =~= e);
    }
}

/// No rotation begins over the remains of another one.
pub proof fn law_retired_pair_is_kept(
    dir: &str,
    name: &str,
    key_there: bool,
    public_there: bool,
    r: Option<String>,
)
    requires
        call_ensures(retired_refusal, (dir, name, key_there, public_there), r),
    ensures
        r is None <==> (!key_there && !public_there),
{
}

/// A job is called failed just where it failed, with the file that it was about.
pub proof fn law_failed_job_is_told(
    c: &mut Cascade,
    refs: &[SignedRef],
    p: &RotationPlan,
    outcome: &Result<(), String>,
    r: Option<String>,
)
    requires
        old(c)@.fits(*p),
        key::within(*p, refs@.len()),
        call_ensures(Cascade::went, (c, refs, p, outcome), r),
    ensures
        r is None <==> old(c).signed >= p.templates@.len() && old(c).compiled >= p.leaves@.len(),
        r matches Some(m) ==> ("FAILED"@.is_prefix_of(m@) <==> outcome is Err),
        r matches Some(m) ==> (old(c).signed < p.templates@.len() ==> text::holds(
            m@,
            refs@[p.templates@[old(c).signed as int] as int].path@,
        )),
        final(c).failures >= old(c).failures,
        outcome is Ok ==> final(c).failures == old(c).failures,
        outcome is Err && r is Some && old(c).failures < usize::MAX ==> final(c).failures == old(
            c,
        ).failures + 1,
        outcome is Err ==> text::texts(final(c).resigned@) == text::texts(old(c).resigned@),
        final(c).signed + final(c).compiled == old(c).signed + old(c).compiled + if r is Some {
            1int
        } else {
            0
        },
{
    reveal_strlit("FAILED");
    reveal_strlit("re-signed template ");
    reveal_strlit("FAILED to re-sign ");
    reveal_strlit("recompiled ");
    reveal_strlit("FAILED to recompile ");
    let job = old(c)@.job(*p);
    if let Some(m) = r {
        match job {
            Job::Sign(i) => {
                let f = refs@[i as int].path@;
                match *outcome {
                    Ok(_) => {
                        text::lemma_holds("re-signed template "@, f, seq![]);
                        assert(m@ =~= "re-signed template "@ + f + seq![]);
                        assert(m@[0] == 'r');
                    },
                    Err(e) => {
                        text::lemma_holds("FAILED to re-sign "@, f, ": "@ + e@);
                        assert(m@ =~= "FAILED to re-sign "@ + f + (": "@ + e@));
                        assert(m@.subrange(0, 6) =~= "FAILED"@);
                    },
                }
            },
            Job::Compile(i) => {
                if outcome is Ok {
                    assert(m@[0] == 'r');
                } else {
                    assert(m@.subrange(0, 6) =~= "FAILED"@);
                }
            },
            Job::Done => {},
        }
        if "FAILED"@.is_prefix_of(m@) {
            assert(m@[0] == 'F') by {
                assert(m@.subrange(0, 6)[0] == "FAILED"@[0]);
            }
        }
    }
}

} // verus!
