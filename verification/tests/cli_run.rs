use kennel::cli::review::{
    check_exclusive_ownership, confirmed, disposition, means_yes, release_arg, release_outcome,
    needs_manifest, release_summary, review_args, review_question, review_summary, trigger_line,
    workspaces, writable_root, writable_roots, Change, Disposition, Released, Workspaces,
};
use kennel::cli::run::{
    all_settled, all_sources, image_config, launch_refusal, resolve_settled_for_run, run_args,
    separator_at,
};
use kennel::cli::session::{
    detached_text, prompt_answer, Pumped, Typed, Watch, DETACH_KEY, DETACH_LEAD,
};

fn owned(v: &[&str]) -> Vec<String> {
    v.iter().map(|s| (*s).to_owned()).collect()
}

#[test]
fn review_arguments_are_read() {
    let a = review_args(&owned(&["p", "-y", "--revert"])).expect("args");
    assert_eq!(a.policy, "p");
    assert!(a.assume_yes && a.revert);
    let fail = |l: &[&str]| review_args(&owned(l)).err().expect("refused");
    assert_eq!(fail(&["--all"]), "kennel review: unknown flag `--all`");
    assert_eq!(fail(&[]), "usage: kennel review <policy> [--yes] [--revert]");
    assert_eq!(fail(&["a", "b"]), "usage: kennel review <policy> [--yes] [--revert]");
    assert_eq!(release_arg(&owned(&["-x", "p", "q"])), Ok("p".to_owned()));
    assert_eq!(release_arg(&owned(&["-x"])), Err("usage: kennel release <policy>".to_owned()));
}

#[test]
fn grants_name_host_directories() {
    let root = |e: &str| writable_root(e, "/home/u");
    assert_eq!(root("~"), Some("/home/u".to_owned()));
    assert_eq!(root("~/src/**"), Some("/home/u/src".to_owned()));
    assert_eq!(root("$HOME/src/*"), Some("/home/u/src".to_owned()));
    assert_eq!(root("/srv/data/**"), Some("/srv/data".to_owned()));
    assert_eq!(root("~other/x"), None);
    assert_eq!(root("relative/**"), None);
    assert_eq!(root("/**"), None);
}

#[test]
fn a_review_ends_one_of_four_ways() {
    assert_eq!(disposition(0, true, true, true), Disposition::Clean);
    assert_eq!(disposition(1, true, false, false), Disposition::Leave);
    assert_eq!(disposition(1, true, true, false), Disposition::Revert);
    assert_eq!(disposition(1, false, false, true), Disposition::Repin);
    assert_eq!(review_question(2, true, "/m"), "revert 2 trigger(s) to baseline?");
    assert_eq!(review_question(2, false, "/m"), "re-pin /m?");
    assert!(means_yes(" yes\n") && means_yes("Y\n") && means_yes("y"));
    assert!(!means_yes("yeah") && !means_yes(""));
    assert_eq!(trigger_line(Change::Unchanged, "a"), None);
    assert_eq!(trigger_line(Change::Modified, "a"), Some("  ~ a (modified)".to_owned()));
    assert_eq!(trigger_line(Change::Removed, "a"), Some("  - a (removed)".to_owned()));
    assert_eq!(trigger_line(Change::New, "a"), Some("  + a (new, unpinned)".to_owned()));
    assert_eq!(
        review_summary("p", &[None, None]),
        Some("kennel: no trust manifests found for `p` (none generated yet?)".to_owned())
    );
    assert_eq!(
        review_summary("p", &[None, Some(0)]),
        Some("kennel: all trust manifests are clean".to_owned())
    );
    assert_eq!(review_summary("p", &[Some(0), Some(3)]), None);
}

#[test]
fn workspaces_are_what_may_be_written() {
    let writes = owned(&["~/work/**", "relative", "/srv/*"]);
    assert_eq!(writable_roots(&writes, "/h"), owned(&["/h/work", "/srv"]));
    assert!(matches!(workspaces(false, Some("/h"), &writes), Workspaces::Off));
    assert!(matches!(workspaces(true, None, &writes), Workspaces::NoHome));
    assert!(matches!(
        workspaces(true, Some("/h"), &writes),
        Workspaces::Roots(v) if v == owned(&["/h/work", "/srv"])
    ));
    assert!(confirmed(Some("yes\n")) && !confirmed(Some("no")) && !confirmed(None));
    assert_eq!(disposition(3, false, false, confirmed(None)), Disposition::Leave);
    assert!(needs_manifest(true, false));
    assert!(!needs_manifest(true, true) && !needs_manifest(false, false));
}

#[test]
fn releases_are_counted() {
    assert_eq!(release_outcome(Some(0)), Released::Done);
    assert_eq!(release_outcome(Some(1)), Released::NotShadowed);
    assert_eq!(release_outcome(Some(2)), Released::Failed);
    assert_eq!(release_outcome(None), Released::Failed);
    assert_eq!(
        release_summary("p", &[Released::Done, Released::NotShadowed, Released::Done]),
        Some("kennel: released 2 exclusive over-mount(s) for `p`".to_owned())
    );
    assert_eq!(release_summary("p", &[Released::Done, Released::Failed]), None);
}

#[test]
fn exclusive_paths_are_owned() {
    let owner = |p: &str| {
        if p == "/home/u/mine" {
            Ok(1000u32)
        } else if p == "/srv" {
            Ok(0u32)
        } else {
            Err("No such file or directory (os error 2)".to_owned())
        }
    };
    assert_eq!(check_exclusive_ownership(&[], None, 1000, &owner), Ok(()));
    assert_eq!(check_exclusive_ownership(&owned(&["~/mine"]), Some("/home/u"), 1000, &owner), Ok(()));
    assert_eq!(
        check_exclusive_ownership(&owned(&["~/mine"]), None, 1000, &owner),
        Err("HOME is not set (needed to resolve fs.exclusive host paths)".to_owned())
    );
    assert_eq!(
        check_exclusive_ownership(&owned(&["~/mine", "rel"]), Some("/home/u"), 1000, &owner),
        Err("fs.exclusive `rel`: cannot resolve to a host path".to_owned())
    );
    assert_eq!(
        check_exclusive_ownership(&owned(&["/srv/**"]), Some("/home/u"), 1000, &owner),
        Err("fs.exclusive `/srv/**` (/srv) is not owned by you (uid 1000). An exclusive bind blind-mounts the host side with privilege, and the privhelper will not over-mount a path you do not own (overreach). Drop `exclusive` for this path (`fs.write` alone is fine), or use a path you own.".to_owned())
    );
    assert_eq!(
        check_exclusive_ownership(&owned(&["/gone"]), Some("/home/u"), 1000, &owner),
        Err("fs.exclusive `/gone` (/gone): No such file or directory (os error 2) — an exclusive path must exist and be owned by you".to_owned())
    );
}

#[test]
fn run_arguments_are_read() {
    let a = run_args(&owned(&["p", "k", "--force", "--", "sh", "--key"])).expect("args");
    assert_eq!((a.policy.as_str(), a.name.as_str(), a.force), ("p", "k", true));
    assert_eq!(a.command, owned(&["sh", "--key"]));
    let a = run_args(&owned(&["p"])).expect("args");
    assert_eq!(a.name, "p");
    assert!(a.command.is_empty() && !a.force);
    let fail = |l: &[&str]| run_args(&owned(l)).err().expect("refused");
    assert_eq!(fail(&["--fast"]), "unknown flag `--fast`");
    assert_eq!(fail(&["a", "b", "c"]), "unexpected extra argument before `--`");
    assert_eq!(fail(&["--"]), "usage: kennel run <policy> [<name>] [--force] [-- <cmd...>]");
    for flag in ["--key", "--key-id", "--template-dir", "--trust-dir"] {
        assert_eq!(
            fail(&["p", flag]),
            format!("`{flag}` is a compile-side flag; `kennel run` runs a settled artefact by name and needs no key (the daemon verifies it). Compile first: `kennel policy compile <policy> --key <key>`, then `kennel run <name>`")
        );
    }
    assert_eq!(separator_at(&owned(&["a", "--", "--"])), 1);
    assert_eq!(separator_at(&owned(&["a"])), 1);
}

#[test]
fn run_takes_settled_artefacts_alone() {
    let dirs = owned(&["/u", "/e"]);
    let tdirs = owned(&["/t"]);
    assert_eq!(all_settled(&dirs, "p"), owned(&["/u/p/p.settled.toml", "/e/p/p.settled.toml"]));
    assert_eq!(all_sources(&dirs, "p"), owned(&["/u/p/policy.toml", "/e/p/policy.toml"]));
    let run = |arg: &str, there: bool, have: &[&str]| {
        resolve_settled_for_run(arg, there, &dirs, &tdirs, &|p: &str| have.contains(&p))
    };
    assert_eq!(
        run("p", false, &["/u/p/policy.toml", "/e/p/p.settled.toml"]),
        Ok("/e/p/p.settled.toml".to_owned())
    );
    assert!(run("./p", false, &[]).expect_err("path").contains("takes a policy NAME"));
    assert!(run("p", true, &[]).expect_err("path").contains("takes a policy NAME"));
    assert_eq!(
        run("p q", false, &[]),
        Err("`p q` is not a valid policy name (no `/`, `..`, or whitespace)".to_owned())
    );
    assert_eq!(
        run("p", false, &["/e/p/policy.toml", "/t/p/policy.toml"]),
        Err("`p` is a source policy (/e/p/policy.toml) with no compiled artefact — compile it first: `kennel policy compile p --key <key>`, then re-run".to_owned())
    );
    assert!(run("p", false, &["/t/p/policy.toml"]).expect_err("template").starts_with("`p` is a template"));
    assert!(run("p", false, &[]).expect_err("none").starts_with("no policy named `p` (searched"));
}

#[test]
fn images_are_launched_by_their_recorded_digest() {
    assert_eq!(launch_refusal("p", false, false, None, None), None);
    assert_eq!(
        launch_refusal("p", true, false, None, None),
        Some("`p` is a source policy — the run house takes only settled artefacts. Compile it first: `kennel policy compile p --key <key>`".to_owned())
    );
    assert_eq!(
        launch_refusal("p", false, true, Some("i@1"), None),
        Some("`p` is an OCI-model policy ([rootfs] set); run it with `kennel oci run <name>`".to_owned())
    );
    assert_eq!(launch_refusal("p", false, true, Some("i@1"), Some("i@1")), None);
    assert_eq!(
        launch_refusal("p", false, true, Some("i@2"), Some("i@1")),
        Some("image mismatch for `p`: policy [rootfs].image is `i@2`, store digest is `i@1`".to_owned())
    );
    assert_eq!(
        launch_refusal("p", false, false, None, Some("i@1")),
        Some("image mismatch for `p`: policy [rootfs].image is absent, store digest is `i@1`".to_owned())
    );
    assert_eq!(image_config("/s/a/a.settled.toml", true), Some("/s/a/config.json".to_owned()));
    assert_eq!(image_config("/s/a/a.settled.toml", false), None);
}

fn unprompted(bytes: &[u8]) -> Vec<(u8, bool)> {
    bytes.iter().map(|&b| (b, false)).collect()
}

fn parts(p: Pumped) -> (Vec<u8>, Vec<u8>, bool) {
    (p.out, p.answers, p.detached)
}

#[test]
fn detaching_takes_two_keys() {
    let mut w = Watch::new();
    assert_eq!(
        parts(w.feed(&unprompted(&[b'a', DETACH_LEAD, b'x', DETACH_LEAD]))),
        (vec![b'a', DETACH_LEAD, b'x'], Vec::new(), false)
    );
    assert!(w.armed);
    assert_eq!(
        parts(w.feed(&unprompted(&[DETACH_KEY, b'z']))),
        (Vec::new(), Vec::new(), true)
    );
    let mut w = Watch::new();
    assert_eq!(
        parts(w.feed(&unprompted(&[DETACH_LEAD, DETACH_LEAD, DETACH_KEY]))),
        (vec![DETACH_LEAD, DETACH_LEAD, DETACH_KEY], Vec::new(), false)
    );
    let mut w = Watch::new();
    assert_eq!(w.step(DETACH_LEAD, false), Typed::Hold);
    assert_eq!(w.step(b'y', true), Typed::Answer(b'y'));
    assert_eq!(w.step(DETACH_KEY, false), Typed::Detach);
    assert_eq!(w.step(b'q', false), Typed::Pass(b'q'));
    assert_eq!(prompt_answer(b'Y'), "y");
    assert_eq!(prompt_answer(b'\n'), "n");
    assert_eq!(
        detached_text("k"),
        "\r\ndetached from `k` (workload still running; `kennel attach k` to reconnect)"
    );
}

#[test]
fn typed_bytes_are_kept_but_for_the_sequence() {
    let all: Vec<u8> = (0u8..=255).collect();
    let mut w = Watch::new();
    assert_eq!(parts(w.feed(&unprompted(&all))), (all.clone(), Vec::new(), false));
    let mut w = Watch::new();
    let keys = [(b'a', false), (b'y', true), (DETACH_LEAD, true), (b'b', false)];
    assert_eq!(parts(w.feed(&keys)), (vec![b'a', b'b'], vec![b'y', DETACH_LEAD], false));
}
