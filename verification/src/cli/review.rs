//! `review` and `release`: signing off a workspace's trust manifest, and releasing what a crashed
//! kennel left mounted.

use crate::decimal;
use crate::decimal::dec_text;
use crate::layout;
use crate::layout::push_line;
use crate::path;
use crate::path::{is_absolute, join};
use crate::text;
use crate::text::{concat2, concat3, concat5, concat7, same, strip_prefix, strip_suffix};
use crate::words;
use vstd::prelude::*;
use vstd::string::*;

verus! {

/// What `kennel review` is asked for.
#[derive(Debug)]
pub struct ReviewArgs {
    /// The policy.
    pub policy: String,
    /// Whether the questions are answered with yes.
    pub assume_yes: bool,
    /// Whether the pinned state is restored in place of pinning anew.
    pub revert: bool,
}

/// What the arguments of `kennel review` come to: the policy, whether to assume yes and whether to
/// revert, or what is wrong.
pub open spec fn review_scan(args: Seq<Seq<char>>) -> Result<
    (Option<Seq<char>>, bool, bool),
    Seq<char>,
>
    decreases args.len(),
{
    if args.len() == 0 {
        Ok((None, false, false))
    } else {
        match review_scan(args.drop_last()) {
            Err(e) => Err(e),
            Ok((p, yes, revert)) => {
                let a = args.last();
                if a == "--yes"@ || a == "-y"@ {
                    Ok((p, true, revert))
                } else if a == "--revert"@ {
                    Ok((p, yes, true))
                } else if a.len() > 0 && a[0] == '-' {
                    Err("kennel review: unknown flag `"@ + a + "`"@)
                } else if p is Some {
                    Err("usage: kennel review <policy> [--yes] [--revert]"@)
                } else {
                    Ok((Some(a), yes, revert))
                }
            },
        }
    }
}

proof fn lemma_review_error(args: Seq<Seq<char>>, n: int)
    requires
        0 <= n <= args.len(),
        review_scan(args.take(n)) is Err,
    ensures
        review_scan(args) == review_scan(args.take(n)),
    decreases args.len(),
{
    if n == args.len() {
        assert(args.take(n) =~= args);
    } else {
        assert(args.drop_last().take(n) =~= args.take(n));
        lemma_review_error(args.drop_last(), n);
    }
}

/// What `kennel review` is asked for, or what is wrong with its arguments.
pub fn review_args(args: &[String]) -> (r: Result<ReviewArgs, String>)
    ensures
        match review_scan(text::texts(args@)) {
            Err(e) => r matches Err(m) && m@ == e,
            Ok((None, _, _)) => r matches Err(m) && m@
                == "usage: kennel review <policy> [--yes] [--revert]"@,
            Ok((Some(p), yes, revert)) => r matches Ok(a) && a.policy@ == p && a.assume_yes == yes
                && a.revert == revert,
        },
{
    let ghost all = text::texts(args@);
    let mut policy: Option<String> = None;
    let mut assume_yes = false;
    let mut revert = false;
    let mut i: usize = 0;
    assert(all.take(0) =~= seq![]);
    while i < args.len()
        invariant
            i <= args@.len(),
            all == text::texts(args@),
            review_scan(all.take(i as int)) == Ok::<(Option<Seq<char>>, bool, bool), Seq<char>>(
                (layout::opt(policy), assume_yes, revert),
            ),
        decreases args@.len() - i,
    {
        let a = args[i].as_str();
        proof {
            assert(all.take(i + 1).drop_last() =~= all.take(i as int));
            assert(all.take(i + 1).last() == a@);
        }
        if same(a, "--yes") || same(a, "-y") {
            assume_yes = true;
        } else if same(a, "--revert") {
            revert = true;
        } else if a.unicode_len() > 0 && a.get_char(0) == '-' {
            proof {
                lemma_review_error(all, i + 1);
            }
            return Err(concat3("kennel review: unknown flag `", a, "`"));
        } else if policy.is_some() {
            proof {
                lemma_review_error(all, i + 1);
            }
            return Err("usage: kennel review <policy> [--yes] [--revert]".to_owned());
        } else {
            policy = Some(args[i].clone());
        }
        i = i + 1;
    }
    assert(all.take(all.len() as int) =~= all);
    match policy {
        None => Err("usage: kennel review <policy> [--yes] [--revert]".to_owned()),
        Some(policy) => Ok(ReviewArgs { policy, assume_yes, revert }),
    }
}

/// `s` behind `p` and a separator, where it starts so.
pub open spec fn below(s: Seq<char>, p: Seq<char>) -> Option<Seq<char>> {
    if (p + seq!['/']).is_prefix_of(s) {
        Some(s.skip(p.len() as int + 1))
    } else {
        None
    }
}

/// The host directory that a grant of write access stands for: without the `/**` or `/*` at its
/// end, below `home` where it starts with `~` or `$HOME`, and otherwise only where it is absolute.
pub open spec fn root_of(entry: Seq<char>, home: Seq<char>) -> Option<Seq<char>> {
    let t = if "/**"@.is_suffix_of(entry) {
        entry.take(entry.len() - "/**"@.len())
    } else {
        text::without_end(entry, "/*"@)
    };
    if t == "~"@ {
        Some(home)
    } else if below(t, "~"@) is Some {
        Some(path::joined(home, below(t, "~"@)->0))
    } else if t == "$HOME"@ {
        Some(home)
    } else if below(t, "$HOME"@) is Some {
        Some(path::joined(home, below(t, "$HOME"@)->0))
    } else if path::rooted(t) {
        Some(t)
    } else {
        None
    }
}

fn rest_below(s: &str, p: &str) -> (r: Option<String>)
    ensures
        layout::opt(r) == below(s@, p@),
{
    let lead = concat2(p, "/");
    proof {
        reveal_strlit("/");
        assert(lead@ =~= p@ + seq!['/']);
    }
    match strip_prefix(s, lead.as_str()) {
        Some(t) => {
            proof {
                assert(s@.subrange(0, lead@.len() as int) =~= lead@);
                assert(lead@.is_prefix_of(s@));
                assert(t@ =~= s@.skip(p@.len() as int + 1));
            }
            Some(t.to_owned())
        },
        None => None,
    }
}

/// The host directory that a grant of write access stands for.
pub fn writable_root(entry: &str, home: &str) -> (r: Option<String>)
    ensures
        layout::opt(r) == root_of(entry@, home@),
{
    let trimmed = match strip_suffix(entry, "/**") {
        Some(t) => {
            proof {
                assert("/**"@ =~= entry@.subrange(
                    entry@.len() - "/**"@.len(),
                    entry@.len() as int,
                ));
                assert("/**"@.is_suffix_of(entry@));
                assert(t@ =~= entry@.take(entry@.len() - "/**"@.len()));
            }
            t.to_owned()
        },
        None => text::cut_end(entry, "/*"),
    };
    let t = trimmed.as_str();
    if same(t, "~") {
        return Some(home.to_owned());
    }
    if let Some(rest) = rest_below(t, "~") {
        return Some(join(home, rest.as_str()));
    }
    if same(t, "$HOME") {
        return Some(home.to_owned());
    }
    if let Some(rest) = rest_below(t, "$HOME") {
        return Some(join(home, rest.as_str()));
    }
    if is_absolute(t) {
        Some(t.to_owned())
    } else {
        None
    }
}

/// The host directories that grants of write access stand for, in their order.
pub open spec fn roots_of(entries: Seq<Seq<char>>, home: Seq<char>) -> Seq<Seq<char>>
    decreases entries.len(),
{
    if entries.len() == 0 {
        seq![]
    } else {
        match root_of(entries.last(), home) {
            Some(r) => roots_of(entries.drop_last(), home).push(r),
            None => roots_of(entries.drop_last(), home),
        }
    }
}

/// The host directories that grants of write access stand for, in their order.
pub fn writable_roots(entries: &[String], home: &str) -> (out: Vec<String>)
    ensures
        text::texts(out@) == roots_of(text::texts(entries@), home@),
{
    let ghost all = text::texts(entries@);
    let mut out: Vec<String> = Vec::new();
    let mut i: usize = 0;
    assert(all.take(0) =~= seq![]);
    assert(text::texts(out@) =~= seq![]);
    while i < entries.len()
        invariant
            i <= entries@.len(),
            all == text::texts(entries@),
            text::texts(out@) == roots_of(all.take(i as int), home@),
        decreases entries@.len() - i,
    {
        proof {
            assert(all.take(i + 1).drop_last() =~= all.take(i as int));
            assert(all.take(i + 1).last() == entries@[i as int]@);
        }
        if let Some(r) = writable_root(entries[i].as_str(), home) {
            push_line(&mut out, r);
        }
        i = i + 1;
    }
    assert(all.take(all.len() as int) =~= all);
    out
}

/// The workspaces of a policy that manifests are kept for.
#[derive(Debug)]
pub enum Workspaces {
    /// The policy keeps none.
    Off,
    /// The home directory is not known.
    NoHome,
    /// The directories that may be written.
    Roots(Vec<String>),
}

/// The workspaces of a policy that manifests are kept for: `manifest` tells whether it keeps any,
/// `writes` are its grants of write access.
pub fn workspaces(manifest: bool, home: Option<&str>, writes: &[String]) -> (r: Workspaces)
    ensures
        match r {
            Workspaces::Off => !manifest,
            Workspaces::NoHome => manifest && home is None,
            Workspaces::Roots(v) => manifest && home is Some && text::texts(v@) == roots_of(
                text::texts(writes@),
                home->0@,
            ),
        },
{
    if !manifest {
        return Workspaces::Off;
    }
    match home {
        None => Workspaces::NoHome,
        Some(h) => Workspaces::Roots(writable_roots(writes, h)),
    }
}

/// Whether a launch writes the manifest of a workspace: only where it is a directory without one, as
/// a manifest that is there changes only when it is reviewed.
pub fn needs_manifest(is_dir: bool, there: bool) -> (r: bool)
    ensures
        r == (is_dir && !there),
{
    is_dir && !there
}

/// What becomes of a workspace whose manifest was reviewed.
#[derive(Clone, Copy, Debug, PartialEq, Eq, Structural)]
pub enum Disposition {
    /// Nothing differs from the manifest.
    Clean,
    /// The triggers go back to their pinned state.
    Revert,
    /// The manifest takes over the state on disk.
    Repin,
    /// Nothing is done.
    Leave,
}

/// What becomes of a workspace with so many divergences: without one nothing is done, and
/// otherwise what was asked for, where it was confirmed.
pub open spec fn disposed(divergences: nat, revert: bool, assume_yes: bool, answer: bool) -> Disposition {
    if divergences == 0 {
        Disposition::Clean
    } else if !assume_yes && !answer {
        Disposition::Leave
    } else if revert {
        Disposition::Revert
    } else {
        Disposition::Repin
    }
}

/// What becomes of a workspace with so many divergences.
pub fn disposition(divergences: usize, revert: bool, assume_yes: bool, answer: bool) -> (r:
    Disposition)
    ensures
        r == disposed(divergences as nat, revert, assume_yes, answer),
{
    if divergences == 0 {
        Disposition::Clean
    } else if !assume_yes && !answer {
        Disposition::Leave
    } else if revert {
        Disposition::Revert
    } else {
        Disposition::Repin
    }
}

/// The question that is asked before a workspace is changed.
pub fn review_question(divergences: usize, revert: bool, manifest: &str) -> (r: String)
    ensures
        r@ == if revert {
            "revert "@ + decimal::dec(divergences as nat) + " trigger(s) to baseline?"@
        } else {
            "re-pin "@ + manifest@ + "?"@
        },
{
    if revert {
        let n = dec_text(divergences as u64);
        concat3("revert ", n.as_str(), " trigger(s) to baseline?")
    } else {
        concat3("re-pin ", manifest, "?")
    }
}

/// Whether an answer means yes.
pub open spec fn is_yes(line: Seq<char>) -> bool {
    let t = words::trim(line);
    t == "y"@ || t == "Y"@ || t == "yes"@
}

/// Whether an answer means yes.
pub fn means_yes(line: &str) -> (r: bool)
    ensures
        r == is_yes(line@),
{
    let t = words::trimmed(line);
    same(t, "y") || same(t, "Y") || same(t, "yes")
}

/// Whether a question was confirmed, given the line that was typed: where nobody is at the terminal
/// (`None`) it was not.
pub fn confirmed(line: Option<&str>) -> (r: bool)
    ensures
        r == (line matches Some(l) && is_yes(l@)),
{
    match line {
        Some(l) => means_yes(l),
        None => false,
    }
}

/// A review that nobody attends changes nothing, unless it was told to answer its questions with yes.
pub proof fn law_unattended_review_changes_nothing(divergences: nat, revert: bool, answer: bool)
    requires
        !answer,
    ensures
        disposed(divergences, revert, false, answer) is Clean || disposed(
            divergences,
            revert,
            false,
            answer,
        ) is Leave,
{
}

/// What was asked for happens, where something differs and it was confirmed, by the flag or by the
/// answer alike: a review that was asked to revert never re-pins, and one that was not never reverts.
pub proof fn law_review_does_what_was_asked(
    divergences: usize,
    revert: bool,
    assume_yes: bool,
    answer: bool,
    r: Disposition,
)
    requires
        call_ensures(disposition, (divergences, revert, assume_yes, answer), r),
    ensures
        divergences == 0 <==> r == Disposition::Clean,
        divergences > 0 && !assume_yes && !answer <==> r == Disposition::Leave,
        revert ==> r != Disposition::Repin,
        !revert ==> r != Disposition::Revert,
        divergences > 0 && (assume_yes || answer) ==> r == if revert {
            Disposition::Revert
        } else {
            Disposition::Repin
        },
{
}

/// How a trigger differs from the manifest.
#[derive(Clone, Copy, Debug, PartialEq, Eq, Structural)]
pub enum Change {
    /// It does not.
    Unchanged,
    /// Its content differs.
    Modified,
    /// It is gone.
    Removed,
    /// It is not pinned.
    New,
}

/// The line about a trigger, where it differs from the manifest.
pub fn trigger_line(change: Change, path: &str) -> (r: Option<String>)
    ensures
        layout::opt(r) == match change {
            Change::Unchanged => None::<Seq<char>>,
            Change::Modified => Some("  ~ "@ + path@ + " (modified)"@),
            Change::Removed => Some("  - "@ + path@ + " (removed)"@),
            Change::New => Some("  + "@ + path@ + " (new, unpinned)"@),
        },
{
    match change {
        Change::Unchanged => None,
        Change::Modified => Some(concat3("  ~ ", path, " (modified)")),
        Change::Removed => Some(concat3("  - ", path, " (removed)")),
        Change::New => Some(concat3("  + ", path, " (new, unpinned)")),
    }
}

/// What is said when all workspaces of a policy were reviewed: `found` tells of each how much of it
/// differs, and nothing where it has no manifest.
pub fn review_summary(policy: &str, found: &[Option<usize>]) -> (r: Option<String>)
    ensures
        layout::opt(r) == if forall|i: int| 0 <= i < found@.len() ==> (#[trigger] found@[i]) is None {
            Some(
                "kennel: no trust manifests found for `"@ + policy@ + "` (none generated yet?)"@,
            )
        } else if forall|i: int|
            0 <= i < found@.len() ==> (#[trigger] found@[i]) is None || found@[i] == Some(0usize) {
            Some("kennel: all trust manifests are clean"@)
        } else {
            None
        },
{
    let mut reviewed = false;
    let mut i: usize = 0;
    while i < found.len()
        invariant
            i <= found@.len(),
            reviewed <==> exists|j: int| 0 <= j < i && (#[trigger] found@[j]) is Some,
            forall|j: int|
                0 <= j < i ==> (#[trigger] found@[j]) is None || found@[j] == Some(0usize),
        decreases found@.len() - i,
    {
        if let Some(n) = found[i] {
            assert(found@[i as int] is Some);
            reviewed = true;
            if n != 0 {
                return None;
            }
        }
        i = i + 1;
    }
    if reviewed {
        Some("kennel: all trust manifests are clean".to_owned())
    } else {
        Some(
            concat3(
                "kennel: no trust manifests found for `",
                policy,
                "` (none generated yet?)",
            ),
        )
    }
}

/// The first argument that is no flag.
pub open spec fn first_plain(args: Seq<Seq<char>>) -> Option<Seq<char>>
    decreases args.len(),
{
    if args.len() == 0 {
        None
    } else if args[0].len() > 0 && args[0][0] == '-' {
        first_plain(args.drop_first())
    } else {
        Some(args[0])
    }
}

/// The policy that `kennel release` is asked for.
pub fn release_arg(args: &[String]) -> (r: Result<String, String>)
    ensures
        match first_plain(text::texts(args@)) {
            Some(p) => r matches Ok(s) && s@ == p,
            None => r matches Err(m) && m@ == "usage: kennel release <policy>"@,
        },
{
    let ghost all = text::texts(args@);
    let mut i: usize = 0;
    assert(all.skip(0) =~= all);
    while i < args.len()
        invariant
            i <= args@.len(),
            all == text::texts(args@),
            first_plain(all.skip(i as int)) == first_plain(all),
        decreases args@.len() - i,
    {
        let a = args[i].as_str();
        proof {
            assert(all.skip(i as int)[0] == a@);
            assert(all.skip(i as int).drop_first() =~= all.skip(i + 1));
        }
        if !(a.unicode_len() > 0 && a.get_char(0) == '-') {
            return Ok(args[i].clone());
        }
        i = i + 1;
    }
    Err("usage: kennel release <policy>".to_owned())
}

/// What an attempt to release a path came to.
#[derive(Clone, Copy, Debug, PartialEq, Eq, Structural)]
pub enum Released {
    /// It was released.
    Done,
    /// It was not shadowed.
    NotShadowed,
    /// It could not be released.
    Failed,
}

/// What the helper's exit code means: 0 released, 1 nothing to release, all else a failure.
pub fn release_outcome(code: Option<i32>) -> (r: Released)
    ensures
        r == match code {
            Some(0) => Released::Done,
            Some(1) => Released::NotShadowed,
            _ => Released::Failed,
        },
{
    match code {
        Some(c) => if c == 0 {
            Released::Done
        } else if c == 1 {
            Released::NotShadowed
        } else {
            Released::Failed
        },
        None => Released::Failed,
    }
}

/// How many outcomes are of a kind.
pub open spec fn count(outcomes: Seq<Released>, of: Released) -> nat
    decreases outcomes.len(),
{
    if outcomes.len() == 0 {
        0
    } else {
        count(outcomes.drop_last(), of) + if outcomes.last() == of {
            1nat
        } else {
            0
        }
    }
}

/// What is said when all paths of a policy were tried: `None` where one failed, which makes the
/// whole a failure.
pub fn release_summary(policy: &str, outcomes: &[Released]) -> (r: Option<String>)
    ensures
        match r {
            Some(m) => count(outcomes@, Released::Failed) == 0 && m@ == "kennel: released "@
                + decimal::dec(count(outcomes@, Released::Done))
                + " exclusive over-mount(s) for `"@ + policy@ + "`"@,
            None => count(outcomes@, Released::Failed) > 0,
        },
{
    let mut done: usize = 0;
    let mut failed: usize = 0;
    let mut i: usize = 0;
    assert(outcomes@.take(0) =~= seq![]);
    while i < outcomes.len()
        invariant
            i <= outcomes@.len(),
            done <= i,
            failed <= i,
            done == count(outcomes@.take(i as int), Released::Done),
            failed == count(outcomes@.take(i as int), Released::Failed),
        decreases outcomes@.len() - i,
    {
        proof {
            assert(outcomes@.take(i + 1).drop_last() =~= outcomes@.take(i as int));
            assert(outcomes@.take(i + 1).last() == outcomes@[i as int]);
        }
        match outcomes[i] {
            Released::Done => {
                done = done + 1;
            },
            Released::Failed => {
                failed = failed + 1;
            },
            Released::NotShadowed => {},
        }
        i = i + 1;
    }
    assert(outcomes@.take(outcomes@.len() as int) =~= outcomes@);
    if failed > 0 {
        return None;
    }
    let n = dec_text(done as u64);
    Some(
        concat5(
            "kennel: released ",
            n.as_str(),
            " exclusive over-mount(s) for `",
            policy,
            "`",
        ),
    )
}

/// Why a path may not be bound exclusively, `None` where it may: it must resolve to a host path
/// that is there and that the operator owns. `owner` is what looking at the host path gave.
pub open spec fn exclusive_refusal(
    ex: Seq<char>,
    home: Seq<char>,
    uid: u32,
    owner: Result<u32, String>,
) -> Option<Seq<char>> {
    match root_of(ex, home) {
        None => Some("fs.exclusive `"@ + ex + "`: cannot resolve to a host path"@),
        Some(host) => match owner {
            Ok(u) => if u == uid {
                None
            } else {
                Some(
                    "fs.exclusive `"@ + ex + "` ("@ + host + ") is not owned by you (uid "@
                        + decimal::dec(uid as nat)
                        + "). An exclusive bind blind-mounts the host side with privilege, and the privhelper will not over-mount a path you do not own (overreach). Drop `exclusive` for this path (`fs.write` alone is fine), or use a path you own."@,
                )
            },
            Err(e) => Some(
                "fs.exclusive `"@ + ex + "` ("@ + host + "): "@ + e@
                    + " — an exclusive path must exist and be owned by you"@,
            ),
        },
    }
}

/// Whether looking at the host path of `ex` can give `owner`.
pub open spec fn looked<F: Fn(&str) -> Result<u32, String>>(
    f: F,
    ex: Seq<char>,
    home: Seq<char>,
    owner: Result<u32, String>,
) -> bool {
    match root_of(ex, home) {
        None => true,
        Some(host) => exists|s: &str| s@ == host && #[trigger] call_ensures(f, (s,), owner),
    }
}

/// Whether the path at `i` came to `refusal` when it was looked at.
pub open spec fn judged<F: Fn(&str) -> Result<u32, String>>(
    f: F,
    ex: Seq<char>,
    home: Seq<char>,
    uid: u32,
    refusal: Option<Seq<char>>,
) -> bool {
    exists|owner: Result<u32, String>| #[trigger]
        looked(f, ex, home, owner) && exclusive_refusal(ex, home, uid, owner) == refusal
}

/// Refuses the first path that may not be bound exclusively. `owner` looks at a host path.
pub fn check_exclusive_ownership<F: Fn(&str) -> Result<u32, String>>(
    exclusive: &[String],
    home: Option<&str>,
    uid: u32,
    owner: &F,
) -> (r: Result<(), String>)
    requires
        forall|s: &str| call_requires(*owner, (s,)),
    ensures
        exclusive@.len() == 0 ==> r is Ok,
        exclusive@.len() > 0 && home is None ==> (r matches Err(m) && m@
            == "HOME is not set (needed to resolve fs.exclusive host paths)"@),
        exclusive@.len() > 0 && home is Some ==> match r {
            Ok(_) => forall|i: int|
                0 <= i < exclusive@.len() ==> judged(
                    *owner,
                    #[trigger] exclusive@[i]@,
                    home->0@,
                    uid,
                    None,
                ),
            Err(m) => exists|i: int|
                0 <= i < exclusive@.len() && judged(
                    *owner,
                    #[trigger] exclusive@[i]@,
                    home->0@,
                    uid,
                    Some(m@),
                ) && forall|j: int|
                    0 <= j < i ==> judged(*owner, #[trigger] exclusive@[j]@, home->0@, uid, None),
        },
{
    if exclusive.len() == 0 {
        return Ok(());
    }
    let dir = match home {
        None => {
            return Err("HOME is not set (needed to resolve fs.exclusive host paths)".to_owned());
        },
        Some(h) => h,
    };
    let mut i: usize = 0;
    while i < exclusive.len()
        invariant
            i <= exclusive@.len(),
            home is Some && home->0@ == dir@,
            forall|s: &str| call_requires(*owner, (s,)),
            forall|j: int|
                0 <= j < i ==> judged(*owner, #[trigger] exclusive@[j]@, dir@, uid, None),
        decreases exclusive@.len() - i,
    {
        let ex = exclusive[i].as_str();
        match writable_root(ex, dir) {
            None => {
                let m = concat3("fs.exclusive `", ex, "`: cannot resolve to a host path");
                proof {
                    let any: Result<u32, String> = Ok(0u32);
                    assert(looked(*owner, ex@, dir@, any));
                    assert(judged(*owner, exclusive@[i as int]@, dir@, uid, Some(m@)));
                }
                return Err(m);
            },
            Some(host) => {
                let place = host.as_str();
                let found = owner(place);
                let ghost seen = found;
                assert(call_ensures(*owner, (place,), seen));
                match found {
                    Ok(u) => {
                        if u != uid {
                            let n = dec_text(uid as u64);
                            let m = concat7(
                                "fs.exclusive `",
                                ex,
                                "` (",
                                host.as_str(),
                                ") is not owned by you (uid ",
                                n.as_str(),
                                "). An exclusive bind blind-mounts the host side with privilege, and the privhelper will not over-mount a path you do not own (overreach). Drop `exclusive` for this path (`fs.write` alone is fine), or use a path you own.",
                            );
                            assert(looked(*owner, ex@, dir@, seen));
                            assert(judged(*owner, exclusive@[i as int]@, dir@, uid, Some(m@)));
                            return Err(m);
                        }
                        assert(looked(*owner, ex@, dir@, seen));
                        assert(judged(*owner, exclusive@[i as int]@, dir@, uid, None));
                    },
                    Err(e) => {
                        let a = concat5("fs.exclusive `", ex, "` (", host.as_str(), "): ");
                        let m = concat3(
                            a.as_str(),
                            e.as_str(),
                            " — an exclusive path must exist and be owned by you",
                        );
                        assert(looked(*owner, ex@, dir@, seen));
                        assert(judged(*owner, exclusive@[i as int]@, dir@, uid, Some(m@)));
                        return Err(m);
                    },
                }
            },
        }
        i = i + 1;
    }
    Ok(())
}

// ---- what holds of the whole -------------------------------------------------------

proof fn lemma_review_scan(args: Seq<Seq<char>>)
    requires
        review_scan(args) is Ok,
    ensures
        ({
            let (p, yes, revert) = review_scan(args)->Ok_0;
            &&& yes <==> args.contains("--yes"@) || args.contains("-y"@)
            &&& revert <==> args.contains("--revert"@)
            &&& p matches Some(t) ==> args.contains(t) && !(t.len() > 0 && t[0] == '-')
            &&& forall|i: int|
                0 <= i < args.len() ==> {
                    ||| #[trigger] args[i] == "--yes"@
                    ||| args[i] == "-y"@
                    ||| args[i] == "--revert"@
                    ||| p == Some(args[i])
                }
        }),
    decreases args.len(),
{
    if args.len() > 0 {
        let front = args.drop_last();
        let a = args.last();
        lemma_review_scan(front);
        assert(args =~= front.push(a));
        lemma_one_more(front, a, "--yes"@);
        lemma_one_more(front, a, "-y"@);
        lemma_one_more(front, a, "--revert"@);
        reveal_strlit("--yes");
        reveal_strlit("-y");
        reveal_strlit("--revert");
        assert("--yes"@.len() == 5 && "-y"@.len() == 2 && "--revert"@.len() == 8);
        if let Some(t) = review_scan(args)->Ok_0.0 {
            lemma_one_more(front, a, t);
        }
        assert forall|i: int| 0 <= i < args.len() implies ({
            ||| #[trigger] args[i] == "--yes"@
            ||| args[i] == "-y"@
            ||| args[i] == "--revert"@
            ||| review_scan(args)->Ok_0.0 == Some(args[i])
        }) by {
            if i < front.len() {
                assert(args[i] == front[i]);
            }
        }
    }
}

proof fn lemma_one_more(v: Seq<Seq<char>>, x: Seq<char>, t: Seq<char>)
    ensures
        v.push(x).contains(t) <==> v.contains(t) || t == x,
{
    let w = v.push(x);
    if v.contains(t) {
        let i = choose|i: int| 0 <= i < v.len() && v[i] == t;
        assert(w[i] == t);
    }
    if t == x {
        assert(w[v.len() as int] == t);
    }
    if w.contains(t) && t != x {
        let i = choose|i: int| 0 <= i < w.len() && w[i] == t;
        assert(v[i] == t);
    }
}

/// A review assumes yes just where `--yes` or `-y` is given, reverts just where `--revert` is, and
/// works on the one argument that is no flag.
pub proof fn law_review_flags_mean_what_they_say(args: &[String], r: Result<ReviewArgs, String>)
    requires
        call_ensures(review_args, (args,), r),
        r is Ok,
    ensures
        ({
            let all = text::texts(args@);
            let a = r->Ok_0;
            &&& a.assume_yes <==> all.contains("--yes"@) || all.contains("-y"@)
            &&& a.revert <==> all.contains("--revert"@)
            &&& all.contains(a.policy@)
            &&& !(a.policy@.len() > 0 && a.policy@[0] == '-')
            &&& forall|i: int|
                0 <= i < all.len() ==> {
                    ||| #[trigger] all[i] == "--yes"@
                    ||| all[i] == "-y"@
                    ||| all[i] == "--revert"@
                    ||| all[i] == a.policy@
                }
        }),
{
    lemma_review_scan(text::texts(args@));
}

proof fn lemma_no_star_at_end(t: Seq<char>)
    requires
        !t.contains('*'),
    ensures
        !"/**"@.is_suffix_of(t),
        !"/*"@.is_suffix_of(t),
        text::without_end(t, "/*"@) == t,
{
    reveal_strlit("/**");
    reveal_strlit("/*");
    if "/**"@.is_suffix_of(t) {
        assert(t[t.len() - 1] == t.subrange(t.len() - 3, t.len() as int)[2]);
        assert(t.contains('*'));
    }
    if "/*"@.is_suffix_of(t) {
        assert(t[t.len() - 1] == t.subrange(t.len() - 2, t.len() as int)[1]);
        assert(t.contains('*'));
    }
}

proof fn lemma_root_without_glob(t: Seq<char>, home: Seq<char>)
    requires
        !t.contains('*'),
    ensures
        root_of(t + "/**"@, home) == root_of(t, home),
        root_of(t + "/*"@, home) == root_of(t, home),
{
    lemma_no_star_at_end(t);
    reveal_strlit("/**");
    reveal_strlit("/*");
    let a = t + "/**"@;
    assert(a.subrange(a.len() - 3, a.len() as int) =~= "/**"@);
    assert(a.take(a.len() - 3) =~= t);
    let b = t + "/*"@;
    assert(b.subrange(b.len() - 2, b.len() as int) =~= "/*"@);
    assert(b.take(b.len() - 2) =~= t);
    assert(!"/**"@.is_suffix_of(b)) by {
        if "/**"@.is_suffix_of(b) {
            assert(b.subrange(b.len() - 3, b.len() as int)[1] == '*');
            assert(b[b.len() - 2] == '*');
        }
    }
    assert(text::without_end(b, "/*"@) =~= t);
}

/// The directory of a grant: what starts with `~/` or `$HOME/` lies below the home directory, an
/// absolute path stands for itself, anything else for none; a glob of all that lies below says the
/// same as the directory.
pub proof fn law_grants_stand_for_host_directories(
    entry: &str,
    home: &str,
    r: Option<String>,
    t: Seq<char>,
    rest: Seq<char>,
)
    requires
        call_ensures(writable_root, (entry, home), r),
        !t.contains('*'),
        entry@ == t || entry@ == t + "/*"@ || entry@ == t + "/**"@,
    ensures
        t == "~/"@ + rest || t == "$HOME/"@ + rest ==> layout::opt(r) == Some(
            path::joined(home@, rest),
        ),
        t == "~"@ || t == "$HOME"@ ==> layout::opt(r) == Some(home@),
        t.len() > 0 && t[0] == '/' ==> layout::opt(r) == Some(t),
        t.len() == 0 || (t[0] != '/' && t[0] != '~' && t[0] != '$') ==> r is None,
{
    lemma_root_without_glob(t, home@);
    lemma_no_star_at_end(t);
    reveal_strlit("~");
    reveal_strlit("$HOME");
    reveal_strlit("~/");
    reveal_strlit("$HOME/");
    let tilde = "~"@ + seq!['/'];
    let var = "$HOME"@ + seq!['/'];
    assert("~/"@ =~= tilde);
    assert("$HOME/"@ =~= var);
    if t == "~"@ {
        assert(root_of(t, home@) == Some(home@));
    } else if t == "~/"@ + rest {
        assert(t.subrange(0, 2) =~= tilde);
        assert(tilde.is_prefix_of(t));
        assert(t.skip(2) =~= rest);
        assert(t[0] == '~');
        assert("$HOME"@[0] == '$');
    } else if t == "$HOME/"@ + rest {
        assert(t.subrange(0, 6) =~= var);
        assert(var.is_prefix_of(t));
        assert(t.skip(6) =~= rest);
        assert(t[0] == '$');
        assert(t.len() >= 6 && "$HOME"@.len() == 5);
        assert(!tilde.is_prefix_of(t)) by {
            if tilde.is_prefix_of(t) {
                assert(t.subrange(0, 2)[0] == '~');
            }
        }
    } else if t == "$HOME"@ {
        assert(t[0] == '$');
        assert(t.len() == 5 && "~"@.len() == 1);
        if tilde.is_prefix_of(t) {
            assert(t.subrange(0, 2)[0] == '~');
        }
        assert(below(t, "~"@) is None);
        assert(root_of(t, home@) == Some(home@));
    } else if t.len() == 0 || (t[0] != '~' && t[0] != '$') {
        if tilde.is_prefix_of(t) {
            assert(t.subrange(0, 2)[0] == '~');
        }
        if var.is_prefix_of(t) {
            assert(t.subrange(0, 6)[0] == '$');
        }
    }
}

/// A manifest that is there is never written by a launch, nor one for what is no directory; one that
/// is missing is.
pub proof fn law_launch_writes_only_missing_manifests(is_dir: bool, there: bool, r: bool)
    requires
        call_ensures(needs_manifest, (is_dir, there), r),
    ensures
        there ==> !r,
        !is_dir ==> !r,
        is_dir && !there ==> r,
{
}

/// Nobody at the terminal confirms nothing, a blank line neither, and who confirms types `y`, `Y` or
/// `yes`, whatever space stands around it.
pub proof fn law_confirmation_is_typed(line: Option<&str>, r: bool)
    requires
        call_ensures(confirmed, (line,), r),
    ensures
        line is None ==> !r,
        line is Some && words::trim(line->0@).len() == 0 ==> !r,
        line is Some && (words::trim(line->0@) == seq!['y'] || words::trim(line->0@) == seq!['Y']
            || words::trim(line->0@) == seq!['y', 'e', 's']) <==> r,
{
    reveal_strlit("y");
    reveal_strlit("Y");
    reveal_strlit("yes");
    assert("y"@ =~= seq!['y']);
    assert("Y"@ =~= seq!['Y']);
    assert("yes"@ =~= seq!['y', 'e', 's']);
}

/// A trigger is told of just where it differs from the manifest, by its path.
pub proof fn law_every_change_is_told(change: Change, path: &str, r: Option<String>)
    requires
        call_ensures(trigger_line, (change, path), r),
    ensures
        r is None <==> change == Change::Unchanged,
        r is Some ==> text::holds(r->0@, path@),
{
    if r is Some {
        let (a, b) = match change {
            Change::Modified => ("  ~ "@, " (modified)"@),
            Change::Removed => ("  - "@, " (removed)"@),
            _ => ("  + "@, " (new, unpinned)"@),
        };
        text::lemma_holds(a, path@, b);
    }
}

/// A review ends quietly just where a workspace differs; that all is clean is said only where a
/// manifest was reviewed and none differs.
pub proof fn law_clean_is_said_of_what_was_reviewed(
    policy: &str,
    found: &[Option<usize>],
    r: Option<String>,
)
    requires
        call_ensures(review_summary, (policy, found), r),
    ensures
        r is None <==> exists|i: int| 0 <= i < found@.len() && (#[trigger] found@[i]) is Some
            && found@[i]->0 > 0,
        r is Some && (exists|i: int| 0 <= i < found@.len() && (#[trigger] found@[i]) is Some) <==> r
            is Some && r->0@ == "kennel: all trust manifests are clean"@,
{
    if r is None {
        let i = choose|i: int|
            0 <= i < found@.len() && !((#[trigger] found@[i]) is None || found@[i] == Some(0usize));
        assert(found@[i] is Some && found@[i]->0 > 0);
    } else {
        reveal_strlit("kennel: all trust manifests are clean");
        reveal_strlit("kennel: no trust manifests found for `");
        let told = "kennel: no trust manifests found for `"@ + policy@ + "` (none generated yet?)"@;
        assert(told[8] == 'n');
        assert("kennel: all trust manifests are clean"@[8] == 'a');
    }
}

/// What is released is the first argument that is no flag.
pub proof fn law_released_policy_is_the_first_plain_argument(
    args: &[String],
    r: Result<String, String>,
    i: int,
)
    requires
        call_ensures(release_arg, (args,), r),
        0 <= i <= args@.len(),
        forall|j: int| 0 <= j < i ==> (#[trigger] args@[j])@.len() > 0 && args@[j]@[0] == '-',
        i < args@.len() ==> !(args@[i]@.len() > 0 && args@[i]@[0] == '-'),
    ensures
        i < args@.len() ==> (r matches Ok(s) && s@ == args@[i]@),
        i == args@.len() ==> r is Err,
{
    let all = text::texts(args@);
    assert forall|j: int| 0 <= j < i implies (#[trigger] all[j]).len() > 0 && all[j][0] == '-' by {
        assert(all[j] == args@[j]@);
    }
    if i < args@.len() {
        assert(all[i] == args@[i]@);
    }
    lemma_first_plain(all, i);
}

proof fn lemma_first_plain(args: Seq<Seq<char>>, i: int)
    requires
        0 <= i <= args.len(),
        forall|j: int| 0 <= j < i ==> (#[trigger] args[j]).len() > 0 && args[j][0] == '-',
        i < args.len() ==> !(args[i].len() > 0 && args[i][0] == '-'),
    ensures
        first_plain(args) == if i < args.len() {
            Some(args[i])
        } else {
            None
        },
    decreases args.len(),
{
    if i > 0 {
        let rest = args.drop_first();
        assert(args[0].len() > 0 && args[0][0] == '-');
        assert forall|j: int| 0 <= j < i - 1 implies (#[trigger] rest[j]).len() > 0 && rest[j][0]
            == '-' by {
            assert(rest[j] == args[j + 1]);
        }
        if i < args.len() {
            assert(rest[i - 1] == args[i]);
        }
        lemma_first_plain(rest, i - 1);
    }
}

/// Only exit code 0 is a release and only 1 says that there was none; every other end, a signal too,
/// is a failure.
pub proof fn law_other_exits_are_failures(code: Option<i32>, r: Released)
    requires
        call_ensures(release_outcome, (code,), r),
    ensures
        r == Released::Done <==> code == Some(0i32),
        r == Released::NotShadowed <==> code == Some(1i32),
        code is None ==> r == Released::Failed,
{
}

/// A release succeeds just where no path failed.
pub proof fn law_one_failure_fails_the_release(policy: &str, outcomes: &[Released], r: Option<String>)
    requires
        call_ensures(release_summary, (policy, outcomes), r),
    ensures
        r is None <==> exists|i: int| 0 <= i < outcomes@.len() && #[trigger] outcomes@[i]
            == Released::Failed,
        r is Some && (forall|i: int| 0 <= i < outcomes@.len() ==> #[trigger] outcomes@[i]
            == Released::Done) ==> r->0@ == "kennel: released "@ + decimal::dec(outcomes@.len())
            + " exclusive over-mount(s) for `"@ + policy@ + "`"@,
{
    lemma_count(outcomes@, Released::Failed);
    lemma_count(outcomes@, Released::Done);
}

proof fn lemma_count(outcomes: Seq<Released>, of: Released)
    ensures
        count(outcomes, of) > 0 <==> exists|i: int| 0 <= i < outcomes.len() && #[trigger] outcomes[i]
            == of,
        (forall|i: int| 0 <= i < outcomes.len() ==> #[trigger] outcomes[i] == of) ==> count(
            outcomes,
            of,
        ) == outcomes.len(),
    decreases outcomes.len(),
{
    if outcomes.len() > 0 {
        let front = outcomes.drop_last();
        lemma_count(front, of);
        if count(front, of) > 0 {
            let i = choose|i: int| 0 <= i < front.len() && #[trigger] front[i] == of;
            assert(outcomes[i] == of);
        }
        if outcomes.last() == of {
            assert(outcomes[outcomes.len() - 1] == of);
        }
        if exists|i: int| 0 <= i < outcomes.len() && #[trigger] outcomes[i] == of {
            let i = choose|i: int| 0 <= i < outcomes.len() && #[trigger] outcomes[i] == of;
            if i < front.len() {
                assert(front[i] == of);
            }
        }
        if forall|i: int| 0 <= i < outcomes.len() ==> #[trigger] outcomes[i] == of {
            assert forall|i: int| 0 <= i < front.len() implies #[trigger] front[i] == of by {
                assert(outcomes[i] == of);
            }
            assert(outcomes[outcomes.len() - 1] == of);
        }
    }
}

/// A path may be bound exclusively just where it stands for a host path whose owner is the operator.
pub proof fn law_exclusive_paths_are_owned(
    ex: Seq<char>,
    home: Seq<char>,
    uid: u32,
    owner: Result<u32, String>,
)
    ensures
        exclusive_refusal(ex, home, uid, owner) is None <==> root_of(ex, home) is Some && owner == Ok::<
            u32,
            String,
        >(uid),
{
}

// ---- the directories that are watched ------------------------------------------------

proof fn lemma_roots(entries: Seq<Seq<char>>, home: Seq<char>, p: Seq<char>)
    ensures
        roots_of(entries, home).contains(p) <==> exists|i: int|
            0 <= i < entries.len() && root_of(#[trigger] entries[i], home) == Some(p),
    decreases entries.len(),
{
    if entries.len() > 0 {
        let front = entries.drop_last();
        let all = roots_of(entries, home);
        let rest = roots_of(front, home);
        lemma_roots(front, home, p);
        if all.contains(p) {
            let k = choose|k: int| 0 <= k < all.len() && all[k] == p;
            if k < rest.len() {
                assert(rest[k] == p);
                let i = choose|i: int| 0 <= i < front.len() && root_of(#[trigger] front[i], home) == Some(p);
                assert(entries[i] == front[i]);
            } else {
                assert(root_of(entries[entries.len() - 1], home) == Some(p));
            }
        }
        if exists|i: int| 0 <= i < entries.len() && root_of(#[trigger] entries[i], home) == Some(p) {
            let i = choose|i: int| 0 <= i < entries.len() && root_of(#[trigger] entries[i], home) == Some(p);
            if i < front.len() {
                assert(front[i] == entries[i]);
                assert(rest.contains(p));
                let k = choose|k: int| 0 <= k < rest.len() && rest[k] == p;
                assert(all[k] == p);
            } else {
                assert(all.last() == p);
            }
        }
    }
}

/// Every directory that a policy may write is watched, and no other.
pub proof fn law_every_writable_directory_is_watched(
    entries: &[String],
    home: &str,
    out: Vec<String>,
    p: Seq<char>,
)
    requires
        call_ensures(writable_roots, (entries, home), out),
    ensures
        text::texts(out@).contains(p) <==> exists|i: int|
            0 <= i < text::texts(entries@).len() && root_of(
                #[trigger] text::texts(entries@)[i],
                home@,
            ) == Some(p),
{
    lemma_roots(text::texts(entries@), home@, p);
}

/// Nothing is watched without a manifest, and without a home directory nothing can be.
pub proof fn law_watching_takes_a_manifest(
    manifest: bool,
    home: Option<&str>,
    writes: &[String],
    r: Workspaces,
)
    requires
        call_ensures(workspaces, (manifest, home, writes), r),
    ensures
        r is Off <==> !manifest,
        r is NoHome <==> manifest && home is None,
        r is Roots <==> manifest && home is Some,
{
}

/// The question is about what is done: reverting is asked about as that, and re-pinning as that.
pub proof fn law_question_says_what_is_done(divergences: usize, revert: bool, manifest: &str, r: String)
    requires
        call_ensures(review_question, (divergences, revert, manifest), r),
    ensures
        "revert "@.is_prefix_of(r@) <==> revert,
        "re-pin "@.is_prefix_of(r@) <==> !revert,
        !revert ==> text::holds(r@, manifest@),
{
    reveal_strlit("revert ");
    reveal_strlit("re-pin ");
    assert("revert "@[2] == 'v' && "re-pin "@[2] == '-');
    if revert {
        assert(r@.subrange(0, 7) =~= "revert "@);
        if "re-pin "@.is_prefix_of(r@) {
            assert(r@.subrange(0, 7)[2] == "re-pin "@[2]);
        }
    } else {
        assert(r@.subrange(0, 7) =~= "re-pin "@);
        text::lemma_holds("re-pin "@, manifest@, "?"@);
        if "revert "@.is_prefix_of(r@) {
            assert(r@.subrange(0, 7)[2] == "revert "@[2]);
        }
    }
}

} // verus!
