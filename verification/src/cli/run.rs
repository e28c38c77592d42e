//! `run`: what is run, and what is refused.

use super::shared;
use super::shared::{first_present, is_valid_policy_name, settled_place, source_place};
use crate::layout;
use crate::layout::push_line;
use crate::path;
use crate::text;
use crate::text::{concat3, concat5, concat7, has_char, same, starts_with};
use vstd::prelude::*;
use vstd::string::*;

verus! {

// ---- arguments -----------------------------------------------------------------

/// What `kennel run` is asked for.
#[derive(Debug)]
pub struct RunArgs {
    /// The policy.
    pub policy: String,
    /// The name of the kennel.
    pub name: String,
    /// Whether a pinned workload may be overridden.
    pub force: bool,
    /// The command in place of the policy's workload; empty where there is none.
    pub command: Vec<String>,
}

/// Where the first `--` stands; the number of arguments where there is none.
pub open spec fn separator(args: Seq<Seq<char>>) -> int
    decreases args.len(),
{
    if args.len() == 0 || args[0] == "--"@ {
        0
    } else {
        1 + separator(args.drop_first())
    }
}

/// The words and whether `--force` stands among the arguments before the separator, or what is
/// wrong with them.
pub open spec fn run_scan(head: Seq<Seq<char>>) -> Result<(Seq<Seq<char>>, bool), Seq<char>>
    decreases head.len(),
{
    if head.len() == 0 {
        Ok((seq![], false))
    } else {
        match run_scan(head.drop_last()) {
            Err(e) => Err(e),
            Ok((ws, force)) => {
                let a = head.last();
                if a == "--force"@ {
                    Ok((ws, true))
                } else if a == "--key"@ || a == "--key-id"@ || a == "--template-dir"@ || a
                    == "--trust-dir"@ {
                    Err(
                        "`"@ + a
                            + "` is a compile-side flag; `kennel run` runs a settled artefact by name and needs no key (the daemon verifies it). Compile first: `kennel policy compile <policy> --key <key>`, then `kennel run <name>`"@,
                    )
                } else if "--"@.is_prefix_of(a) {
                    Err("unknown flag `"@ + a + "`"@)
                } else if ws.len() >= 2 {
                    Err("unexpected extra argument before `--`"@)
                } else {
                    Ok((ws.push(a), force))
                }
            },
        }
    }
}

proof fn lemma_run_error(head: Seq<Seq<char>>, n: int)
    requires
        0 <= n <= head.len(),
        run_scan(head.take(n)) is Err,
    ensures
        run_scan(head) == run_scan(head.take(n)),
    decreases head.len(),
{
    if n == head.len() {
        assert(head.take(n) =~= head);
    } else {
        assert(head.drop_last().take(n) =~= head.take(n));
        lemma_run_error(head.drop_last(), n);
    }
}

/// Where the first `--` stands.
pub fn separator_at(args: &[String]) -> (r: usize)
    ensures
        r <= args@.len(),
        r == separator(text::texts(args@)),
        r < args@.len() ==> args@[r as int]@ == "--"@,
{
    let ghost all = text::texts(args@);
    let mut i: usize = 0;
    assert(all.skip(0) =~= all);
    while i < args.len() && !same(args[i].as_str(), "--")
        invariant
            i <= args@.len(),
            all == text::texts(args@),
            i + separator(all.skip(i as int)) == separator(all),
        decreases args@.len() - i,
    {
        proof {
            assert(all.skip(i as int)[0] == args@[i as int]@);
            assert(all.skip(i as int).drop_first() =~= all.skip(i + 1));
        }
        i = i + 1;
    }
    proof {
        if i < args@.len() {
            assert(all.skip(i as int)[0] == args@[i as int]@);
        }
    }
    i
}

/// What `kennel run` is asked for, or what is wrong with its arguments. What stands behind `--` is
/// the command, taken as it is.
pub fn run_args(args: &[String]) -> (r: Result<RunArgs, String>)
    ensures
        ({
            let all = text::texts(args@);
            let cut = separator(all);
            match run_scan(all.take(cut)) {
                Err(e) => r matches Err(m) && m@ == e,
                Ok((ws, force)) => if ws.len() == 0 {
                    r matches Err(m) && m@
                        == "usage: kennel run <policy> [<name>] [--force] [-- <cmd...>]"@
                } else {
                    r matches Ok(a) && a.policy@ == ws[0] && a.name@ == ws.last() && a.force == force
                        && text::texts(a.command@) == if cut < all.len() {
                        all.skip(cut + 1)
                    } else {
                        seq![]
                    }
                },
            }
        }),
{
    let ghost all = text::texts(args@);
    let cut: usize = separator_at(args);
    let ghost head = all.take(cut as int);
    let mut ws: Vec<String> = Vec::new();
    let mut force = false;
    let mut i: usize = 0;
    proof {
        assert(head.take(0) =~= seq![]);
        assert(text::texts(ws@) =~= seq![]);
    }
    while i < cut
        invariant
            i <= cut <= args@.len(),
            all == text::texts(args@),
            head == all.take(cut as int),
            cut == separator(all),
            run_scan(head.take(i as int)) == Ok::<(Seq<Seq<char>>, bool), Seq<char>>(
                (text::texts(ws@), force),
            ),
        decreases cut - i,
    {
        let a = args[i].as_str();
        proof {
            assert(head.take(i + 1).drop_last() =~= head.take(i as int));
            assert(head.take(i + 1).last() == a@);
            assert(text::texts(ws@).len() == ws@.len());
        }
        if same(a, "--force") {
            force = true;
        } else if same(a, "--key") || same(a, "--key-id") || same(a, "--template-dir") || same(
            a,
            "--trust-dir",
        ) {
            proof {
                lemma_run_error(head, i + 1);
            }
            return Err(
                concat3(
                    "`",
                    a,
                    "` is a compile-side flag; `kennel run` runs a settled artefact by name and needs no key (the daemon verifies it). Compile first: `kennel policy compile <policy> --key <key>`, then `kennel run <name>`",
                ),
            );
        } else if starts_with(a, "--") {
            proof {
                lemma_run_error(head, i + 1);
            }
            return Err(concat3("unknown flag `", a, "`"));
        } else if ws.len() >= 2 {
            proof {
                lemma_run_error(head, i + 1);
            }
            return Err("unexpected extra argument before `--`".to_owned());
        } else {
            push_line(&mut ws, args[i].clone());
        }
        i = i + 1;
    }
    proof {
        assert(head.take(cut as int) =~= head);
        assert(text::texts(ws@).len() == ws@.len());
    }
    if ws.len() == 0 {
        return Err("usage: kennel run <policy> [<name>] [--force] [-- <cmd...>]".to_owned());
    }
    let mut command: Vec<String> = Vec::new();
    let n: usize = args.len();
    if cut < n {
        let mut j: usize = cut + 1;
        assert(text::texts(command@) =~= all.subrange(cut + 1, cut + 1));
        while j < n
            invariant
                cut + 1 <= j <= n,
                n == args@.len(),
                all == text::texts(args@),
                text::texts(command@) == all.subrange(cut + 1, j as int),
            decreases n - j,
        {
            push_line(&mut command, args[j].clone());
            j = j + 1;
            assert(text::texts(command@) =~= all.subrange(cut + 1, j as int));
        }
        assert(all.subrange(cut + 1, n as int) =~= all.skip(cut + 1));
    } else {
        assert(text::texts(command@) =~= seq![]);
    }
    let last: usize = ws.len() - 1;
    proof {
        assert(text::texts(ws@)[0] == ws@[0]@);
        assert(text::texts(ws@).last() == ws@[last as int]@);
    }
    Ok(RunArgs { policy: ws[0].clone(), name: ws[last].clone(), force, command })
}

// ---- what is run ---------------------------------------------------------------

/// Where the settled forms of a named policy stand below directories.
pub open spec fn settled_places(dirs: Seq<Seq<char>>, name: Seq<char>) -> Seq<Seq<char>> {
    dirs.map_values(|d: Seq<char>| shared::settled_in(d, name))
}

/// Where the sources of a named object stand below directories.
pub open spec fn source_places(dirs: Seq<Seq<char>>, name: Seq<char>) -> Seq<Seq<char>> {
    dirs.map_values(|d: Seq<char>| shared::source_in(d, name))
}

/// Where the settled forms of a named policy stand below directories.
pub fn all_settled(dirs: &[String], name: &str) -> (out: Vec<String>)
    ensures
        text::texts(out@) == settled_places(text::texts(dirs@), name@),
{
    let ghost want = settled_places(text::texts(dirs@), name@);
    let mut out: Vec<String> = Vec::new();
    let mut i: usize = 0;
    assert(text::texts(out@) =~= want.take(0));
    while i < dirs.len()
        invariant
            i <= dirs@.len(),
            want == settled_places(text::texts(dirs@), name@),
            text::texts(out@) == want.take(i as int),
        decreases dirs@.len() - i,
    {
        push_line(&mut out, settled_place(dirs[i].as_str(), name));
        i = i + 1;
        assert(text::texts(out@) =~= want.take(i as int));
    }
    assert(want.take(want.len() as int) =~= want);
    out
}

/// Where the sources of a named object stand below directories.
pub fn all_sources(dirs: &[String], name: &str) -> (out: Vec<String>)
    ensures
        text::texts(out@) == source_places(text::texts(dirs@), name@),
{
    let ghost want = source_places(text::texts(dirs@), name@);
    let mut out: Vec<String> = Vec::new();
    let mut i: usize = 0;
    assert(text::texts(out@) =~= want.take(0));
    while i < dirs.len()
        invariant
            i <= dirs@.len(),
            want == source_places(text::texts(dirs@), name@),
            text::texts(out@) == want.take(i as int),
        decreases dirs@.len() - i,
    {
        push_line(&mut out, source_place(dirs[i].as_str(), name));
        i = i + 1;
        assert(text::texts(out@) =~= want.take(i as int));
    }
    assert(want.take(want.len() as int) =~= want);
    out
}

/// The settled file that a policy's name stands for, which is the only thing that is run. `there`
/// tells whether the argument is a path that is there. Anything else is refused with what was found
/// in its place: a path, a source without a settled form, a template, or nothing.
pub fn resolve_settled_for_run<F: Fn(&str) -> bool>(
    arg: &str,
    there: bool,
    policy_dirs: &[String],
    template_dirs: &[String],
    is_file: &F,
) -> (r: Result<String, String>)
    requires
        forall|s: &str| call_requires(*is_file, (s,)),
    ensures
        arg@.contains('/') || there ==> (r matches Err(m) && m@
            == "`kennel run` takes a policy NAME resolved from the policy repos (~/.config/kennel/policies, /etc/kennel/policies, /usr/lib/kennel/policies), not a path. Compile your source into a repo first (`kennel policy compile <policy> --key <key>` writes the settled artefact beside it), then `kennel run <name>`"@),
        !arg@.contains('/') && !there && !shared::names_policy(arg@) ==> (r matches Err(m) && m@
            == "`"@ + arg@ + "` is not a valid policy name (no `/`, `..`, or whitespace)"@),
        !there && shared::names_policy(arg@) ==> ({
            let settled = settled_places(text::texts(policy_dirs@), arg@);
            let sources = source_places(text::texts(policy_dirs@), arg@);
            let templates = source_places(text::texts(template_dirs@), arg@);
            match r {
                Ok(p) => exists|i: int|
                    shared::first_at(*is_file, settled, i) && p@ == #[trigger] settled[i],
                Err(m) => shared::nowhere(*is_file, settled) && {
                    ||| exists|i: int|
                        shared::first_at(*is_file, sources, i) && m@ == "`"@ + arg@
                            + "` is a source policy ("@ + (#[trigger] sources[i])
                            + ") with no compiled artefact — compile it first: `kennel policy compile "@
                            + arg@ + " --key <key>`, then re-run"@
                    ||| shared::nowhere(*is_file, sources) && (exists|i: int| #[trigger]
                        shared::first_at(*is_file, templates, i)) && m@ == "`"@ + arg@
                        + "` is a template — a shared base, not a runnable policy. Derive a leaf from it (`kennel policy generate --from "@
                        + arg@ + "`), then `kennel policy compile` and `kennel run` the leaf"@
                    ||| shared::nowhere(*is_file, sources) && shared::nowhere(*is_file, templates)
                        && m@ == "no policy named `"@ + arg@
                        + "` (searched `policies/` under ~/.config/kennel, /etc/kennel, /usr/lib/kennel — `kennel policy list` shows what is there); author one with `kennel policy generate`, then `kennel policy compile "@
                        + arg@ + " --key <key>`"@
                },
            }
        }),
{
    if has_char(arg, '/') || there {
        return Err(
            "`kennel run` takes a policy NAME resolved from the policy repos (~/.config/kennel/policies, /etc/kennel/policies, /usr/lib/kennel/policies), not a path. Compile your source into a repo first (`kennel policy compile <policy> --key <key>` writes the settled artefact beside it), then `kennel run <name>`".to_owned(),
        );
    }
    if !is_valid_policy_name(arg) {
        return Err(
            concat3("`", arg, "` is not a valid policy name (no `/`, `..`, or whitespace)"),
        );
    }
    let settled = all_settled(policy_dirs, arg);
    if let Some(i) = first_present(settled.as_slice(), is_file) {
        let ghost all = text::texts(settled@);
        assert(all[i as int] == settled@[i as int]@);
        return Ok(settled[i].clone());
    }
    let sources = all_sources(policy_dirs, arg);
    if let Some(i) = first_present(sources.as_slice(), is_file) {
        let ghost all = text::texts(sources@);
        assert(all[i as int] == sources@[i as int]@);
        return Err(
            concat7(
                "`",
                arg,
                "` is a source policy (",
                sources[i].as_str(),
                ") with no compiled artefact — compile it first: `kennel policy compile ",
                arg,
                " --key <key>`, then re-run",
            ),
        );
    }
    let templates = all_sources(template_dirs, arg);
    if let Some(i) = first_present(templates.as_slice(), is_file) {
        return Err(
            concat5(
                "`",
                arg,
                "` is a template — a shared base, not a runnable policy. Derive a leaf from it (`kennel policy generate --from ",
                arg,
                "`), then `kennel policy compile` and `kennel run` the leaf",
            ),
        );
    }
    Err(
        concat5(
            "no policy named `",
            arg,
            "` (searched `policies/` under ~/.config/kennel, /etc/kennel, /usr/lib/kennel — `kennel policy list` shows what is there); author one with `kennel policy generate`, then `kennel policy compile ",
            arg,
            " --key <key>`",
        ),
    )
}

/// What a launch is refused for.
pub open spec fn refusal(
    display: Seq<char>,
    is_source: bool,
    rootfs: bool,
    image: Option<Seq<char>>,
    digest: Option<Seq<char>>,
) -> Option<Seq<char>> {
    if is_source {
        Some(
            "`"@ + display
                + "` is a source policy — the run house takes only settled artefacts. Compile it first: `kennel policy compile "@
                + display + " --key <key>`"@,
        )
    } else {
        match digest {
            None => if rootfs {
                Some(
                    "`"@ + display
                        + "` is an OCI-model policy ([rootfs] set); run it with `kennel oci run <name>`"@,
                )
            } else {
                None
            },
            Some(want) => if image == Some(want) {
                None
            } else {
                Some(
                    "image mismatch for `"@ + display + "`: policy [rootfs].image is "@
                        + (match image {
                        Some(d) => "`"@ + d + "`"@,
                        None => "absent"@,
                    }) + ", store digest is `"@ + want + "`"@,
                )
            },
        }
    }
}

/// Why a policy is not launched, `None` where it is: it must be settled; with an image of its own
/// it needs the digest that the image store recorded, and with such a digest its image must be that
/// one.
pub fn launch_refusal(
    display: &str,
    is_source: bool,
    rootfs: bool,
    image: Option<&str>,
    oci_digest: Option<&str>,
) -> (r: Option<String>)
    ensures
        layout::opt(r) == refusal(
            display@,
            is_source,
            rootfs,
            match image {
                Some(i) => Some(i@),
                None => None,
            },
            match oci_digest {
                Some(d) => Some(d@),
                None => None,
            },
        ),
{
    if is_source {
        return Some(
            concat5(
                "`",
                display,
                "` is a source policy — the run house takes only settled artefacts. Compile it first: `kennel policy compile ",
                display,
                " --key <key>`",
            ),
        );
    }
    match oci_digest {
        None => if rootfs {
            Some(
                concat3(
                    "`",
                    display,
                    "` is an OCI-model policy ([rootfs] set); run it with `kennel oci run <name>`",
                ),
            )
        } else {
            None
        },
        Some(want) => {
            let what = match image {
                Some(d) => {
                    if same(d, want) {
                        return None;
                    }
                    concat3("`", d, "`")
                },
                None => "absent".to_owned(),
            };
            Some(
                concat7(
                    "image mismatch for `",
                    display,
                    "`: policy [rootfs].image is ",
                    what.as_str(),
                    ", store digest is `",
                    want,
                    "`",
                ),
            )
        },
    }
}

/// A policy with an image is launched only with the digest that the store recorded for that image.
pub proof fn law_images_are_launched_by_digest(
    display: Seq<char>,
    rootfs: bool,
    image: Option<Seq<char>>,
    digest: Option<Seq<char>>,
)
    requires
        rootfs,
        refusal(display, false, rootfs, image, digest) is None,
    ensures
        digest is Some && image == digest,
{
}

/// The image configuration that goes with a launch: beside the settled policy of an image.
pub fn image_config(policy_file: &str, oci: bool) -> (r: Option<String>)
    ensures
        layout::opt(r) == if oci && path::parent_of(policy_file@) is Some {
            Some(path::joined(path::parent_of(policy_file@)->0, "config.json"@))
        } else {
            None
        },
{
    if !oci {
        return None;
    }
    match path::parent(policy_file) {
        Some(d) => Some(path::join(d.as_str(), "config.json")),
        None => None,
    }
}

// ---- what holds of the whole -------------------------------------------------------

/// The separator stands behind the words of which none is it.
pub proof fn lemma_separator(head: Seq<Seq<char>>, tail: Seq<Seq<char>>)
    requires
        forall|i: int| 0 <= i < head.len() ==> #[trigger] head[i] != "--"@,
        tail.len() > 0 ==> tail[0] == "--"@,
    ensures
        separator(head + tail) == head.len(),
    decreases head.len(),
{
    let all = head + tail;
    if head.len() == 0 {
        assert(all =~= tail);
    } else {
        let more = head.drop_first();
        assert(all[0] == head[0]);
        assert(all.drop_first() =~= more + tail);
        assert forall|i: int| 0 <= i < more.len() implies #[trigger] more[i] != "--"@ by {
            assert(more[i] == head[i + 1]);
        }
        lemma_separator(more, tail);
    }
}

/// Where `--` first stands: behind arguments of which none is it.
pub proof fn law_separator_is_the_first_double_dash(
    args: &[String],
    r: usize,
    head: Seq<Seq<char>>,
    tail: Seq<Seq<char>>,
)
    requires
        call_ensures(separator_at, (args,), r),
        text::texts(args@) == head + tail,
        forall|i: int| 0 <= i < head.len() ==> #[trigger] head[i] != "--"@,
        tail.len() > 0 ==> tail[0] == "--"@,
    ensures
        r == head.len(),
{
    lemma_separator(head, tail);
}

proof fn lemma_run_scan(head: Seq<Seq<char>>)
    requires
        run_scan(head) is Ok,
    ensures
        ({
            let (ws, force) = run_scan(head)->Ok_0;
            &&& force <==> head.contains("--force"@)
            &&& ws.len() <= 2
            &&& forall|i: int|
                0 <= i < head.len() ==> #[trigger] head[i] == "--force"@ || ws.contains(head[i])
            &&& forall|i: int|
                0 <= i < ws.len() ==> head.contains(#[trigger] ws[i]) && !"--"@.is_prefix_of(ws[i])
        }),
    decreases head.len(),
{
    if head.len() > 0 {
        let front = head.drop_last();
        let a = head.last();
        lemma_run_scan(front);
        let (ws, force) = run_scan(front)->Ok_0;
        let (vs, forced) = run_scan(head)->Ok_0;
        assert(forced <==> head.contains("--force"@)) by {
            if front.contains("--force"@) {
                let i = choose|i: int| 0 <= i < front.len() && front[i] == "--force"@;
                assert(head[i] == "--force"@);
            }
            if a == "--force"@ {
                assert(head[head.len() - 1] == a);
            }
            if head.contains("--force"@) && a != "--force"@ {
                let i = choose|i: int| 0 <= i < head.len() && head[i] == "--force"@;
                assert(front[i] == "--force"@);
            }
        }
        assert forall|i: int| 0 <= i < head.len() implies #[trigger] head[i] == "--force"@
            || vs.contains(head[i]) by {
            if i < front.len() {
                assert(head[i] == front[i]);
                if ws.contains(front[i]) {
                    let k = choose|k: int| 0 <= k < ws.len() && ws[k] == front[i];
                    assert(vs[k] == front[i]);
                }
            } else if a != "--force"@ {
                assert(vs[vs.len() - 1] == a);
            }
        }
        assert forall|i: int| 0 <= i < vs.len() implies head.contains(#[trigger] vs[i])
            && !"--"@.is_prefix_of(vs[i]) by {
            if i < ws.len() {
                assert(vs[i] == ws[i]);
                let k = choose|k: int| 0 <= k < front.len() && front[k] == ws[i];
                assert(head[k] == ws[i]);
            } else {
                assert(head[head.len() - 1] == vs[i]);
            }
        }
    }
}

/// What stands behind the first `--` is the command, word for word; what stands before it is the
/// policy, the name of the kennel where one is given, and `--force`, which counts just where it stands
/// there.
pub proof fn law_the_command_is_behind_the_separator(
    args: &[String],
    r: Result<RunArgs, String>,
    head: Seq<Seq<char>>,
    tail: Seq<Seq<char>>,
)
    requires
        call_ensures(run_args, (args,), r),
        r is Ok,
        text::texts(args@) == head + tail,
        forall|i: int| 0 <= i < head.len() ==> #[trigger] head[i] != "--"@,
        tail.len() > 0 ==> tail[0] == "--"@,
    ensures
        ({
            let a = r->Ok_0;
            &&& text::texts(a.command@) == if tail.len() > 0 {
                tail.skip(1)
            } else {
                seq![]
            }
            &&& a.force <==> head.contains("--force"@)
            &&& head.contains(a.policy@) && head.contains(a.name@)
            &&& forall|i: int|
                0 <= i < head.len() ==> #[trigger] head[i] == "--force"@ || head[i] == a.policy@
                    || head[i] == a.name@
        }),
{
    let all = text::texts(args@);
    lemma_separator(head, tail);
    assert(all.take(head.len() as int) =~= head);
    if tail.len() > 0 {
        assert(all.skip(head.len() as int + 1) =~= tail.skip(1));
    } else {
        assert(all =~= head);
    }
    lemma_run_scan(head);
    let (ws, force) = run_scan(head)->Ok_0;
    assert forall|i: int| 0 <= i < head.len() implies #[trigger] head[i] == "--force"@ || head[i]
        == r->Ok_0.policy@ || head[i] == r->Ok_0.name@ by {
        if ws.contains(head[i]) {
            let k = choose|k: int| 0 <= k < ws.len() && ws[k] == head[i];
            assert(k == 0 || k == ws.len() - 1);
        }
    }
}

/// A kennel is named by the second word, and after its policy where there is none.
pub proof fn law_a_kennel_is_named_after_its_policy(
    args: &[String],
    r: Result<RunArgs, String>,
    policy: Seq<char>,
    name: Seq<char>,
)
    requires
        call_ensures(run_args, (args,), r),
        !"--"@.is_prefix_of(policy),
        !"--"@.is_prefix_of(name),
        text::texts(args@) == seq![policy] || text::texts(args@) == seq![policy, name],
    ensures
        r matches Ok(a) && a.policy@ == policy && !a.force && a.command@.len() == 0 && (
        text::texts(args@) == seq![policy] ==> a.name@ == policy) && (text::texts(args@) == seq![
            policy,
            name,
        ] ==> a.name@ == name),
{
    let all = text::texts(args@);
    let none: Seq<Seq<char>> = seq![];
    reveal_strlit("--");
    reveal_strlit("--force");
    reveal_strlit("--key");
    reveal_strlit("--key-id");
    reveal_strlit("--template-dir");
    reveal_strlit("--trust-dir");
    assert("--"@ =~= "--"@.subrange(0, 2));
    assert("--"@ =~= "--force"@.subrange(0, 2));
    assert("--"@ =~= "--key"@.subrange(0, 2));
    assert("--"@ =~= "--key-id"@.subrange(0, 2));
    assert("--"@ =~= "--template-dir"@.subrange(0, 2));
    assert("--"@ =~= "--trust-dir"@.subrange(0, 2));
    assert("--"@.is_prefix_of("--"@));
    assert forall|i: int| 0 <= i < all.len() implies #[trigger] all[i] != "--"@ by {
        assert(all[i] == policy || all[i] == name);
    }
    lemma_separator(all, none);
    assert(all + none =~= all);
    assert(all.take(all.len() as int) =~= all);
    assert(seq![policy].drop_last() =~= none);
    assert(run_scan(none)->Ok_0.0 =~= seq![]);
    assert(run_scan(seq![policy]) == Ok::<(Seq<Seq<char>>, bool), Seq<char>>(
        (none.push(policy), false),
    ));
    if all == seq![policy, name] {
        assert(all.drop_last() =~= seq![policy]);
    }
    if let Ok(a) = r {
        assert(text::texts(a.command@).len() == a.command@.len());
    }
}

/// A source is never launched, a policy with an image only with the digest that the store recorded for
/// just that image, and a policy without one only where no digest is given.
pub proof fn law_launches_are_of_settled_policies(
    display: &str,
    is_source: bool,
    rootfs: bool,
    image: Option<&str>,
    oci_digest: Option<&str>,
    r: Option<String>,
)
    requires
        call_ensures(launch_refusal, (display, is_source, rootfs, image, oci_digest), r),
    ensures
        is_source ==> r is Some,
        !is_source && oci_digest is None ==> (r is Some <==> rootfs),
        !is_source && oci_digest is Some && image is None ==> r is Some,
        !is_source && oci_digest is Some && image is Some ==> (r is None <==> image->0@
            == oci_digest->0@),
{
}

/// Only the settled file of a policy that is given by its name is ever run: one of the directories
/// holds it in the policy's own directory, under the policy's name.
pub proof fn law_only_settled_files_are_run<F: Fn(&str) -> bool>(
    arg: &str,
    there: bool,
    policy_dirs: &[String],
    template_dirs: &[String],
    is_file: &F,
    r: Result<String, String>,
)
    requires
        call_ensures(
            resolve_settled_for_run::<F>,
            (arg, there, policy_dirs, template_dirs, is_file),
            r,
        ),
        r is Ok,
    ensures
        !there,
        !arg@.contains('/'),
        exists|i: int|
            0 <= i < policy_dirs@.len() && r->Ok_0@ == path::joined(
                path::joined(#[trigger] policy_dirs@[i]@, arg@),
                arg@ + ".settled.toml"@,
            ),
{
    let settled = settled_places(text::texts(policy_dirs@), arg@);
    if arg@.contains('/') || there {
    } else {
        let i = choose|i: int|
            shared::first_at(*is_file, settled, i) && r->Ok_0@ == #[trigger] settled[i];
        assert(settled[i] == shared::settled_in(policy_dirs@[i]@, arg@));
    }
}

/// A policy is looked for in every directory, in their order, in the form that is wanted.
pub proof fn law_every_directory_is_looked_into(
    dirs: &[String],
    name: &str,
    settled: Vec<String>,
    sources: Vec<String>,
    i: int,
)
    requires
        call_ensures(all_settled, (dirs, name), settled),
        call_ensures(all_sources, (dirs, name), sources),
        0 <= i < dirs@.len(),
    ensures
        settled@.len() == dirs@.len() && sources@.len() == dirs@.len(),
        text::texts(settled@)[i] == path::joined(
            path::joined(text::texts(dirs@)[i], name@),
            name@ + ".settled.toml"@,
        ),
        text::texts(sources@)[i] == path::joined(
            path::joined(text::texts(dirs@)[i], name@),
            "policy.toml"@,
        ),
{
    assert(text::texts(settled@).len() == settled@.len());
    assert(text::texts(sources@).len() == sources@.len());
    assert(text::texts(dirs@).len() == dirs@.len());
}

/// The configuration of an image is beside its policy, and a policy without an image has none.
pub proof fn law_image_configuration_is_beside_the_policy(policy_file: &str, oci: bool, r: Option<String>)
    requires
        call_ensures(image_config, (policy_file, oci), r),
    ensures
        !oci ==> r is None,
        r matches Some(c) ==> path::file_name_of(c@) == Some("config.json"@),
        oci && path::parent_of(policy_file@) is Some ==> r is Some,
{
    reveal_strlit("config.json");
    if let Some(c) = r {
        assert(!"config.json"@.contains('/'));
        path::law_join_file_name(path::parent_of(policy_file@)->0, "config.json"@);
    }
}

} // verus!
