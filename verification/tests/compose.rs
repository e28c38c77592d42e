use kennel::compose::arguments::{check_surplus, parse_args, resolve_binary, Args, Asked, Resolved};
use kennel::compose::leaf;
use kennel::compose::leaf::{
    base_lines, build_leaf_from_probe, choose_base, choose_fragments, composed, fragment_lines,
    nothing_found_lines, output_text, Topic,
};
use kennel::compose::probe::{
    note_if_non_system, path_candidates, probe, probe_head, script_head, Head,
};
use kennel::compose::questionnaire::{ask, prompt, says_yes, Answers, Question};
use kennel::compose::templates::{fragment_dirs, parse_entry, scan_all, TemplateEntry};

fn owned(v: &[&str]) -> Vec<String> {
    v.iter().map(|s| (*s).to_owned()).collect()
}

fn entry(name: &str, version: &str, description: &str) -> TemplateEntry {
    TemplateEntry {
        name: name.to_owned(),
        version: version.to_owned(),
        description: description.to_owned(),
        is_fragment: false,
    }
}

// ---- the probe -----------------------------------------------------------------

#[test]
fn probes_a_real_elf_binary() {
    let loaders = owned(&["/lib64/ld-linux-x86-64.so.2"]);
    let result = probe("/usr/bin/dash", b"\x7fELF\x02\x01", None, &loaders, &[]).expect("probe");
    assert!(!result.is_script, "an ELF is not a script");
    assert!(result.exec_allow.contains(&"/usr/bin/dash".to_owned()));
    assert!(result.exec_allow.iter().any(|e| e.contains("ld-")), "{:?}", result.exec_allow);
}

#[test]
fn probes_a_direct_interpreter_script() {
    let result =
        probe("/tmp/script", b"#!/bin/sh\necho hello\n", None, &[], &[]).expect("probe script");
    assert!(result.is_script);
    assert!(result.exec_allow.iter().any(|e| e == "/bin/sh"), "{:?}", result.exec_allow);
}

#[test]
fn probes_an_env_shebang_script() {
    let result = probe("/tmp/script", b"#!/usr/bin/env sh\necho hello\n", Some("/usr/bin/dash"), &[], &[])
        .expect("probe env script");
    assert!(result.is_script);
    assert!(result.exec_allow.contains(&"/usr/bin/env".to_owned()), "{:?}", result.exec_allow);
}

#[test]
fn non_system_path_notes_extra_fs_read() {
    let mut extra = Vec::new();
    note_if_non_system("/usr/bin/python3", &mut extra, "test");
    assert!(extra.is_empty(), "system path should not produce extra grants");
    note_if_non_system("/home/user/.venv/bin/python3", &mut extra, "test");
    assert!(
        extra.iter().any(|g| g.path == "/home/user/.venv/bin/**"),
        "non-system path should produce extra grants: {:?}",
        extra.iter().map(|g| &g.path).collect::<Vec<_>>()
    );
}

#[test]
fn not_executable_gives_a_friendly_error() {
    let err = probe("/tmp/plain", b"just some text\n", None, &[], &[]).unwrap_err();
    assert!(err.contains("not an ELF") || err.contains("script"), "error: {err}");
}

#[test]
fn probe_lists_everything_once_and_in_order() {
    let r = probe("/srv/app/run", b"#!/usr/bin/env -S python3 -u\n", Some("/srv/app/python3"), &[], &[])
        .expect("probe");
    assert_eq!(r.exec_allow, owned(&["/usr/bin/env", "/srv/app/python3", "/srv/app/run"]));
    assert_eq!(r.extra_fs_read.len(), 1);
    assert_eq!(r.extra_fs_read[0].path, "/srv/app/**");
    assert_eq!(
        r.extra_fs_read[0].reason,
        "python3 interpreter (resolved from #!/usr/bin/env python3) — review whether this path is correct for the kennel"
    );
    assert!(r.warnings.is_empty());
    let r = probe("/bin/x", b"\x7fELF", None, &owned(&["/bin/x", "/lib/ld"]), &owned(&["w"]))
        .expect("probe");
    assert_eq!(r.exec_allow, owned(&["/bin/x", "/lib/ld"]));
    assert_eq!(r.warnings, owned(&["w"]));
}

#[test]
fn unresolved_program_is_a_warning() {
    let r = probe("/usr/x", b"#!/usr/bin/env python3", None, &[], &[]).expect("probe");
    assert_eq!(
        r.warnings,
        owned(&["#!/usr/bin/env python3: could not resolve `python3` on $PATH; add the absolute path to exec.allow manually"])
    );
    assert_eq!(r.exec_allow, owned(&["/usr/bin/env", "/usr/x"]));
}

#[test]
fn shebangs_that_name_nothing_are_refused() {
    for data in [&b"#!\n"[..], b"#!", b"#! relative/sh\n", b"#!   \n"] {
        assert_eq!(
            probe_head("/x", data).expect_err("refused"),
            "script has an empty or relative shebang — cannot probe"
        );
    }
    assert_eq!(
        probe_head("/x", b"#!/usr/bin/env -S\n").expect_err("refused"),
        "#!/usr/bin/env with no program name"
    );
    assert!(matches!(script_head(&owned(&["/bin/sh", "-e"])), Ok(Head::Direct(s)) if s == "/bin/sh"));
    assert_eq!(
        probe_head("/x", b"").expect_err("empty"),
        "/x: not an ELF binary or a #! script — is it chmod +x?"
    );
}

#[test]
fn bytes_that_are_no_text_are_replaced() {
    match probe_head("/x", b"#!/bin/\xffsh\n") {
        Ok(Head::Direct(s)) => assert_eq!(s, "/bin/\u{fffd}sh"),
        other => panic!("not direct: {other:?}"),
    }
}

#[test]
fn search_path_is_tried_in_order() {
    assert_eq!(path_candidates("/a:/b/:", "x"), owned(&["/a/x", "/b/x", "x"]));
}

// ---- templates -----------------------------------------------------------------

#[test]
fn entries_are_described_by_their_text() {
    let e = parse_entry(
        "dir",
        Some("# c\nname = \"base\"\nversion= \"2\"\n description = \"\"all\"\"\nname=\"last\"\nother = 1\nnothing\n"),
        false,
    );
    assert_eq!((e.name.as_str(), e.version.as_str(), e.description.as_str()), ("last", "2", "all"));
    assert_eq!(e.reference(), "last@v2");
    let e = parse_entry("dir", None, true);
    assert_eq!((e.name.as_str(), e.version.as_str(), e.description.as_str()), ("dir", "1", ""));
    assert!(e.is_fragment);
    let e = parse_entry("dir", Some("name = \"\"\n"), false);
    assert_eq!(e.name, "dir");
}

#[test]
fn earlier_directories_shadow_later_ones() {
    let found = vec![
        entry("b", "1", "user"),
        entry("a", "1", "user"),
        entry("b", "2", "vendor"),
        entry("c", "1", "vendor"),
    ];
    assert_eq!(scan_all(&found), vec![1, 0, 3]);
}

#[test]
fn fragments_stand_beside_templates() {
    assert_eq!(
        fragment_dirs(&owned(&["/etc/kennel/templates", "/"])),
        owned(&["/etc/kennel/fragments", "/fragments"])
    );
}

// ---- answers -------------------------------------------------------------------

#[test]
fn blank_answers_are_the_most_restrictive() {
    let a = ask("k", &[]);
    assert_eq!(a.template_base, "base-confined@v1");
    assert!(a.net_allow.is_empty() && a.home_write.is_empty() && a.includes.is_empty());
    assert!(!a.wayland && !a.audio && !a.ssh);
    assert_eq!(a.ttl, "30m");
    assert_eq!(Answers::defaults("k").name, "k");
}

#[test]
fn answers_are_taken_in_order() {
    let a = ask(
        "k",
        &owned(&[
            " strict@v2 \n", "Y\n", "a.example\n", "b.example\n", "\n", "~/p/**\n", "y\n", "n\n",
            "yes\n", "1h\n",
        ]),
    );
    assert_eq!(a.template_base, "strict@v2");
    assert_eq!(
        a.net_allow.iter().map(|n| n.name.as_str()).collect::<Vec<_>>(),
        vec!["a.example", "b.example"]
    );
    assert_eq!(a.net_allow[0].ports, vec![443]);
    assert_eq!(a.net_allow[0].reason, "operator-specified network destination");
    assert_eq!(a.home_write, owned(&["~/p/**"]));
    assert!(a.wayland);
    assert!(!a.audio);
    assert!(!a.ssh, "only y says yes");
    assert_eq!(a.ttl, "1h");
    assert!(says_yes(" y\n"));
    assert_eq!(prompt(Question::Ttl), Some("TTL [30m]: "));
    assert_eq!(prompt(Question::Done), None);
}

// ---- the leaf ------------------------------------------------------------------

#[test]
fn probed_leaf_grants_what_was_found() {
    let p = probe("/srv/app", b"#!/bin/sh\n", None, &[], &[]).expect("probe");
    let mut l = build_leaf_from_probe("k", &p);
    assert_eq!(l.template_base, "base-confined@v1");
    assert_eq!(l.exec_allow[1].path, "/srv/app");
    assert_eq!(l.exec_allow[1].reason, "probed from /srv/app");
    assert_eq!(l.fs_read[0].path, "/srv/**");
    assert_eq!(l.ttl, Some("30m".to_owned()));
    assert_eq!(l.answer(Topic::Base, "\n"), Topic::Network);
    assert_eq!(l.template_base, "base-confined@v1");
    assert_eq!(l.answer(Topic::Base, "other@v1\n"), Topic::Network);
    assert_eq!(l.template_base, "other@v1");
    assert!(output_text(&l, true, "x = 1\n")
        .starts_with("# Generated by kennel-compose (probed script).\n# Review and tighten before use.\n\nx = 1"));
    assert!(output_text(&l, false, "").contains("(probed binary)"));
}

#[test]
fn composed_leaf_takes_answers() {
    let mut l = composed("k", "base@v1", &owned(&["git@v1"]));
    assert_eq!(l.ttl, None);
    assert_eq!(l.answer(Topic::Network, "n"), Topic::Home);
    assert_eq!(l.answer(Topic::Network, "y"), Topic::FirstHost);
    assert_eq!(l.answer(Topic::FirstHost, "api.example"), Topic::NextHost);
    assert_eq!(l.answer(Topic::NextHost, ""), Topic::Home);
    assert_eq!(l.answer(Topic::Home, "~/x/**"), Topic::Ttl);
    assert_eq!(l.answer(Topic::Ttl, ""), Topic::Done);
    assert_eq!(l.net_allow.len(), 1);
    assert_eq!(l.net_allow[0].ports, vec![443]);
    assert_eq!(l.net_allow[0].protocol, "tcp");
    assert_eq!(l.fs_write[0].reason, "operator-specified write access");
    assert_eq!(l.ttl, None);
    assert!(output_text(&l, false, "").contains("(composed)"));
    assert_eq!(leaf::prompt(Topic::NextHost), Some("  Next host (blank to finish): "));
}

#[test]
fn templates_are_chosen_by_number_or_name() {
    let v = vec![entry("base-confined", "1", "the root"), entry("strict", "3", "")];
    assert_eq!(choose_base(&v, "\n"), Ok("base-confined@v1".to_owned()));
    assert_eq!(choose_base(&v, "2\n"), Ok("strict@v3".to_owned()));
    assert_eq!(choose_base(&v, "own@v9"), Ok("own@v9".to_owned()));
    assert_eq!(choose_base(&v, "3"), Err("kennel-compose: invalid choice 3".to_owned()));
    assert_eq!(choose_base(&v, "0"), Err("kennel-compose: invalid choice 0".to_owned()));
    assert_eq!(choose_base(&[], ""), Ok("base-confined@v1".to_owned()));
    assert_eq!(
        base_lines(&v),
        owned(&[
            "Available templates:",
            "",
            "   1. base-confined@v1               the root (root)",
            "   2. strict@v3                      ",
            "",
        ])
    );
}

#[test]
fn fragments_are_chosen_between_commas() {
    let v = vec![entry("git", "1", "g"), entry("sh", "2", "s")];
    let (picked, said) = choose_fragments(&v, " 2, own@v1 ,,9 \n");
    assert_eq!(picked, owned(&["sh@v2", "own@v1"]));
    assert_eq!(said, owned(&["kennel-compose: ignoring invalid fragment number 9"]));
    let (picked, said) = choose_fragments(&v, "  \n");
    assert!(picked.is_empty() && said.is_empty());
    assert_eq!(fragment_lines(&v)[3], "   1. git@v1                         g");
    assert_eq!(nothing_found_lines(&owned(&["/t"]))[2], "  searched: /t");
}

// ---- arguments -----------------------------------------------------------------

fn policy(list: &[&str]) -> Args {
    match parse_args(&owned(list)) {
        Ok(Asked::Policy(a)) => a,
        other => panic!("no policy: {other:?}"),
    }
}

#[test]
fn arguments_are_read() {
    let a = policy(&["--no-prompts", "k", "--output", "--help", "sh", "--template-dir", "/t"]);
    assert_eq!((a.name.as_str(), a.binary.as_deref()), ("k", Some("sh")));
    assert!(a.no_prompts && !a.compose && !a.surplus);
    assert_eq!(a.output.as_deref(), Some("--help"));
    assert_eq!(a.template_dirs, owned(&["/t"]));
    let a = policy(&["k", "--compose"]);
    assert_eq!(a.binary, None);
    let a = policy(&["k", "b", "c"]);
    assert_eq!(check_surplus(&a), Err("too many positional arguments".to_owned()));
    assert!(matches!(parse_args(&owned(&["k", "-h", "--bogus"])), Ok(Asked::Help)));
    for (list, message) in [
        (&[][..], "no arguments"),
        (&["--compose"][..], "missing kennel name"),
        (&["k"][..], "missing binary path (or use --compose)"),
        (&["k", "b", "--compose"][..], "--compose does not take a binary argument"),
        (&["--output"][..], "--output needs a value"),
        (&["k", "--template-dir"][..], "--template-dir needs a value"),
        (&["--bogus", "--help"][..], "unknown flag `--bogus`"),
    ] {
        match parse_args(&owned(list)) {
            Err(e) => assert_eq!(e, message),
            other => panic!("{list:?}: {other:?}"),
        }
    }
}

#[test]
fn programs_are_looked_up() {
    let exists = |s: &str| s == "/bin/sh";
    let is_file = |s: &str| s == "/b/run";
    assert!(matches!(resolve_binary("/bin/sh", "", &exists, &is_file), Ok(Resolved::AsIs(p)) if p == "/bin/sh"));
    assert_eq!(
        resolve_binary("/none", "", &exists, &is_file).expect_err("absent"),
        "/none: not found"
    );
    assert!(matches!(resolve_binary("./x", "", &exists, &is_file), Ok(Resolved::Canonical(p)) if p == "./x"));
    assert!(matches!(resolve_binary("run", "/a:/b", &exists, &is_file), Ok(Resolved::Canonical(p)) if p == "/b/run"));
    assert_eq!(
        resolve_binary("gone", "/a:/b", &exists, &is_file).expect_err("absent"),
        "`gone` not found on $PATH"
    );
}
