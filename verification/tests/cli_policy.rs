use kennel::cli::args::{all_of, is_given, last_of, scan, word_at, words_of};
use kennel::cli::options::{lexopt_unexpected, lexopt_value, usage_of, walk, CommandSpec, Token};
use kennel::cli::policy::{
    catalogue_path, clone_args, compile_args, compile_conflict, compile_output, compiled_text,
    comparison, diff_args, edit_target, exists_text, generate_args, inspect_args, install_args,
    lint_args, lint_names, lint_summary, lock_path_for, other_house_text, risks_args, scaffold,
    show_args, sign_args, signing_key, valid_text, validate_args, warning_lines, Comparison,
    DiffArgs, FsTemplateSource, House, LintOutcome, SigningKey, TempSettled,
};
use kennel::cli::report::{
    guard, house_block, house_entry, list_house, listed_as, print_diff_human, print_effective_policy, print_risks_human,
    print_risks_json, print_unix_grants, threat_oneline, ChangeKind, EffectivePolicy, Finding,
    GrantChange, HouseBlock, HouseEntry, Listed, NetMode, PolicyDiff, RiskReport, Signer, ThreatRef,
    UnixSocket, Workload,
};

fn owned(v: &[&str]) -> Vec<String> {
    v.iter().map(|s| (*s).to_owned()).collect()
}

const TABLE: [CommandSpec; 4] = [
    CommandSpec { name: "show", summary: "s", usage: "policy show <policy>" },
    CommandSpec { name: "generate", summary: "g", usage: "policy generate <name>" },
    CommandSpec { name: "lint", summary: "l", usage: "template lint" },
    CommandSpec { name: "inspect", summary: "i", usage: "policy inspect <policy> --unix" },
];

#[test]
fn options_are_read_as_they_are_written() {
    let a = show_args(
        &owned(&["--template-dir=/t", "p", "--trust-dir", "/k", "--template-dir", "-x"]),
        &TABLE,
    )
    .ok()
    .expect("args");
    assert_eq!(a.name, "p");
    assert_eq!(a.template_dirs, owned(&["/t", "-x"]));
    assert_eq!(a.trust_dirs, owned(&["/k"]));
    let a = show_args(&owned(&["--", "--template-dir"]), &TABLE).ok().expect("args");
    assert_eq!(a.name, "--template-dir");
    let fail = |l: &[&str]| show_args(&owned(l), &TABLE).err().expect("refused");
    assert_eq!(fail(&[]), "usage: kennel policy show <policy>");
    assert_eq!(fail(&["--bogus"]), "unknown flag `--bogus`\nusage: kennel policy show <policy>");
    assert_eq!(fail(&["-xy"]), "unknown flag `-x`\nusage: kennel policy show <policy>");
    assert_eq!(fail(&["a", "b"]), "unexpected argument `b`\nusage: kennel policy show <policy>");
    assert_eq!(fail(&["--trust-dir"]), "--trust-dir needs a value");
}

#[test]
fn verbs_with_options_are_read() {
    let a = generate_args(&owned(&["n", "--from", "t"]), &TABLE).ok().expect("args");
    assert_eq!((a.name.as_str(), a.from.as_str()), ("n", "t"));
    let a = generate_args(&owned(&["n"]), &TABLE).ok().expect("args");
    assert_eq!(a.from, "base-confined");
    assert_eq!(
        generate_args(&owned(&["a/b"]), &TABLE).err().expect("e"),
        "`a/b` is not a valid policy name"
    );
    assert_eq!(generate_args(&owned(&["n", "--from"]), &TABLE).err().expect("e"), "--from needs a value");
    let a = lint_args(&owned(&["--trust-dir=/k"]), &TABLE).ok().expect("args");
    assert_eq!(a.trust_dirs, owned(&["/k"]));
    assert_eq!(
        lint_args(&owned(&["x"]), &TABLE).err().expect("e"),
        "unexpected argument `x`\nusage: kennel template lint"
    );
    assert_eq!(inspect_args(&owned(&["p", "--unix"]), &TABLE).ok().expect("args").name, "p");
    assert_eq!(
        inspect_args(&owned(&["p"]), &TABLE).err().expect("e"),
        "no grant filter specified — use --unix to inspect AF_UNIX grants"
    );
    let unasked = inspect_args(&owned(&["p", "--unix=yes"]), &TABLE).err().expect("e");
    assert!(unasked.contains("--unix"), "{unasked}");
    assert_eq!(usage_of(&TABLE, "none"), "unknown command `none` — run `kennel --help`");
    assert_eq!(
        lexopt_unexpected(&Token::Short('q'), &TABLE, "lint"),
        "unknown flag `-q`\nusage: kennel template lint"
    );
    let items = walk(&owned(&["--unix", "w"]), &["unix"], &[], 1, &TABLE, "inspect").ok().expect("items");
    assert!(is_given(&items, "unix"));
    let mut p = lexopt::Parser::from_args(owned(&["v"]));
    assert_eq!(lexopt_value(&mut p, "--f"), Ok("v".to_owned()));
    assert_eq!(lexopt_value(&mut p, "--f"), Err("--f needs a value".to_owned()));
}

#[test]
fn a_value_behind_a_letter_follows_the_parsers_equals_sign() {
    let mut p = lexopt::Parser::from_args(owned(&["-d=x"]));
    assert!(matches!(p.next(), Ok(Some(lexopt::Arg::Short('d')))));
    assert_eq!(lexopt_value(&mut p, "-d"), Ok("x".to_owned()));
    let mut p = lexopt::Parser::from_args(owned(&["-d=x"]));
    p.set_short_equals(false);
    assert!(matches!(p.next(), Ok(Some(lexopt::Arg::Short('d')))));
    assert_eq!(lexopt_value(&mut p, "-d"), Ok("=x".to_owned()));
    assert_eq!(lexopt_value(&mut p, "-d"), Err("-d needs a value".to_owned()));
}

#[test]
fn plain_arguments_are_scanned() {
    let items = scan(&owned(&["a", "--s", "--o", "1", "--o", "2", "b"]), &["--s"], &["--o"], 2, "too many")
        .ok()
        .expect("items");
    assert!(is_given(&items, "--s") && !is_given(&items, "--t"));
    assert_eq!(all_of(&items, "--o"), owned(&["1", "2"]));
    assert_eq!(last_of(&items, "--o"), Some("2".to_owned()));
    assert_eq!(words_of(&items), owned(&["a", "b"]));
    assert_eq!(word_at(&items, 1), Some("b".to_owned()));
    assert_eq!(word_at(&items, 2), None);
    assert_eq!(scan(&owned(&["a", "b"]), &[], &[], 1, "too many").err().expect("e"), "too many");
}

#[test]
fn policy_arguments_are_read() {
    let a = compile_args(&owned(&[
        "p", "--output", "o", "--key", "k", "--key-id", "i", "--require-signed", "--no-lock",
        "--template-dir", "t", "--trust-dir", "r",
    ]))
    .ok()
    .expect("args");
    assert_eq!(a.policy, "p");
    assert_eq!((a.output.as_deref(), a.key.as_deref(), a.key_id.as_deref()), (Some("o"), Some("k"), Some("i")));
    assert!(a.require_signed && a.no_lock && !a.unsigned);
    assert_eq!(compile_conflict(&a), None);
    assert!(matches!(signing_key(&a), SigningKey::Named(k) if k == "k"));
    let a = compile_args(&owned(&["p", "--key", "k", "--unsigned"])).ok().expect("args");
    assert_eq!(compile_conflict(&a), Some("--key and --unsigned are mutually exclusive".to_owned()));
    let a = compile_args(&owned(&["p", "--key-id", "k", "--unsigned"])).ok().expect("args");
    assert_eq!(compile_conflict(&a), Some("--key-id and --unsigned are mutually exclusive".to_owned()));
    assert!(matches!(signing_key(&a), SigningKey::Unsigned));
    let a = compile_args(&owned(&["p"])).ok().expect("args");
    assert!(matches!(signing_key(&a), SigningKey::Default));
    let out = compile_output(&a, "/c/p/policy.toml", "p");
    assert_eq!(
        (out.settled.as_str(), out.ssh_dir.as_str(), out.lock.as_str()),
        ("/c/p/p.settled.toml", "/c/p/ssh", "/c/p/p.lock")
    );
    assert_eq!(lock_path_for("/o/x.toml", "p"), "/o/p.lock");
    assert_eq!(compile_args(&owned(&["p", "--output"])).err().expect("e"), "--output needs a value");
    assert_eq!(compile_args(&owned(&["p", "q"])).err().expect("e"), "only one <policy> may be given");
    assert_eq!(compile_args(&owned(&["--z"])).err().expect("e"), "unknown flag `--z`");
    assert!(compile_args(&[]).err().expect("e").starts_with("usage: kennel policy compile <policy>"));
    assert!(validate_args(&owned(&["p", "--require-signed"])).ok().expect("args").require_signed);
    assert!(validate_args(&[]).err().expect("e").starts_with("usage: kennel policy validate"));
    assert!(risks_args(&owned(&["p", "--json"])).ok().expect("args").json);
    assert!(risks_args(&[]).err().expect("e").starts_with("usage: kennel policy risks"));
    let a = diff_args(&owned(&["p", "q"])).ok().expect("args");
    assert_eq!(a.other.as_deref(), Some("q"));
    assert_eq!(diff_args(&owned(&["p", "q", "r"])).err().expect("e"), "at most two policies may be given");
    let a = sign_args(&owned(&["t", "--key", "k"])).ok().expect("args");
    assert_eq!((a.template.as_str(), a.key.as_deref()), ("t", Some("k")));
    assert_eq!(sign_args(&owned(&["t", "u"])).err().expect("e"), "only one <template> may be given");
    let a = install_args(&owned(&["f", "--host", "--force"]), House::Policy).ok().expect("args");
    assert!(a.host && a.force && a.key.is_none());
    assert_eq!(
        install_args(&[], House::Template).err().expect("e"),
        "usage: kennel template install <file.toml> [--host] [--force] [--key K]"
    );
    let a = clone_args(&owned(&["n", "m"]), House::Policy).ok().expect("args");
    assert_eq!(a.new_name.as_deref(), Some("m"));
    assert_eq!(
        clone_args(&owned(&["a", "b", "c"]), House::Policy).err().expect("e"),
        "at most <name> and <new-name> may be given"
    );
    assert_eq!((House::Policy.noun(), House::Policy.repo_leaf()), ("policy", "policies"));
    assert_eq!((House::Template.noun(), House::Template.repo_leaf()), ("template", "templates"));
}

#[test]
fn policy_verbs_tell_what_they_did() {
    assert_eq!(compiled_text("p", "/o", false), "compiled `p` -> /o");
    assert_eq!(compiled_text("p", "/o", true), "compiled `p` -> /o (unsigned development build)");
    assert_eq!(valid_text("p", 2, 3), "valid: `p` resolves cleanly (2 references, 3 deferred substitutions)");
    assert_eq!(warning_lines(&owned(&["w"])), owned(&["kennel: warning: w"]));
    assert_eq!(TempSettled::write_in("/d", "k", 7).path(), "/d/kennel-run-k-7.settled");
    assert_eq!(exists_text("/d"), "/d already exists; refusing to overwrite");
    assert!(scaffold("n", "t").contains("name = \"n\"\ntemplate_base = \"t\"\n"));
    let doc: std::collections::BTreeMap<String, String> =
        basic_toml::from_str(&scaffold("n", "t")).expect("toml");
    assert_eq!(doc.len(), 2);
    assert_eq!(other_house_text(House::Policy, "n", false), None);
    assert!(other_house_text(House::Policy, "n", true).expect("t").ends_with("`kennel template show n`"));
    assert!(other_house_text(House::Template, "n", true).expect("p").ends_with("`kennel policy show n`"));
}

#[test]
fn templates_are_fetched_flat_before_nested() {
    let s = FsTemplateSource { dirs: owned(&["/a", "/b"]) };
    assert_eq!(
        s.fetch_places("t"),
        owned(&["/a/t.toml", "/a/t/policy.toml", "/b/t.toml", "/b/t/policy.toml"])
    );
    assert_eq!(
        s.fetch_settled_places("t")[..2],
        owned(&["/a/t.settled.toml", "/a/t/t.settled.toml"])
    );
    assert_eq!(
        catalogue_path(&|_: &str| true),
        Some("/etc/kennel/threats/catalogue.toml".to_owned())
    );
    assert_eq!(
        catalogue_path(&|p: &str| p.starts_with("/usr")),
        Some("/usr/lib/kennel/threats/catalogue.toml".to_owned())
    );
    assert_eq!(catalogue_path(&|_: &str| false), None);
    assert_eq!(edit_target("/etc/kennel/policies/p/policy.toml", "/u", "p"), "/u/p/policy.toml");
    assert_eq!(edit_target("/etc/kennelx/policy.toml", "/u", "p"), "/etc/kennelx/policy.toml");
}

#[test]
fn lint_counts_its_findings() {
    assert_eq!(lint_names(&owned(&["b", "a", "b"])), owned(&["a", "b"]));
    assert_eq!(
        lint_summary(&[LintOutcome::Checked(Vec::new())]),
        ("lint: 1 template(s) clean".to_owned(), 0)
    );
    assert_eq!(
        lint_summary(&[LintOutcome::Broken("e".to_owned()), LintOutcome::Checked(owned(&["x", "y"]))]),
        ("lint: 3 finding(s) across 1 template(s)".to_owned(), 7)
    );
}

#[test]
fn policies_are_compared_with_their_base() {
    let a = DiffArgs {
        policy: "p".to_owned(),
        other: None,
        json: false,
        template_dirs: Vec::new(),
        trust_dirs: Vec::new(),
    };
    match comparison(&a, &None, &Some("b".to_owned()), &None) {
        Ok(Comparison::Base { reference, old, new }) => {
            assert_eq!((reference.as_str(), old.as_str(), new.as_str()), ("b", "b (baseline)", "p"));
        }
        _ => panic!("base"),
    }
    assert_eq!(
        comparison(&a, &Some("n".to_owned()), &None, &None).err().expect("e"),
        "`n` has no `template_base` to diff against; pass a second policy to compare two"
    );
    let b = DiffArgs { other: Some("q".to_owned()), ..a };
    match comparison(&b, &Some("n".to_owned()), &None, &None) {
        Ok(Comparison::Policies { old, new }) => assert_eq!((old.as_str(), new.as_str()), ("n", "q")),
        _ => panic!("two"),
    }
}

fn threat(id: &str, title: Option<&str>, residual: &str) -> ThreatRef {
    ThreatRef {
        id: id.to_owned(),
        title: title.map(str::to_owned),
        residual: residual.to_owned(),
    }
}

#[test]
fn differences_are_shown() {
    assert_eq!(threat_oneline(&threat("T1", Some("t"), "r")), "T1 — t (r)");
    assert_eq!(threat_oneline(&threat("T1", Some("t"), "")), "T1 — t");
    assert_eq!(threat_oneline(&threat("T1", None, "r")), "T1 (uncatalogued)");
    let empty = PolicyDiff {
        catalogue_version: "3".to_owned(),
        changes: Vec::new(),
        newly_exposed: Vec::new(),
        no_longer_exposed: Vec::new(),
        newly_mitigated: Vec::new(),
        no_longer_mitigated: Vec::new(),
    };
    assert_eq!(
        print_diff_human("a", "b", &empty),
        owned(&[
            "diff a → b  (threat catalogue v3)",
            "\nNo capability changes.",
            "\nThreat posture: unchanged.",
            "\nFull threat definitions and residuals: docs/reference/THREATS.md",
        ])
    );
    let d = PolicyDiff {
        changes: vec![GrantChange {
            kind: ChangeKind::Added,
            carrier: "fs.read".to_owned(),
            widening: true,
            detail: "~/p".to_owned(),
            reason: Some("why".to_owned()),
            exposed: vec![threat("T1", None, "")],
            mitigated: vec![threat("T2", None, "")],
            note: Some("care".to_owned()),
        }],
        newly_exposed: vec![threat("T3", None, "")],
        no_longer_exposed: vec![threat("T4", None, "")],
        newly_mitigated: vec![threat("T5", None, "")],
        no_longer_mitigated: vec![threat("T6", None, "")],
        ..empty
    };
    assert_eq!(
        print_diff_human("a", "b", &d)[1..],
        owned(&[
            "\nGrant changes (1):",
            "  + fs.read  (widens reach)",
            "      ~/p",
            "      reason: why",
            "      exposes T1 (uncatalogued)",
            "      mitigates T2 (uncatalogued)",
            "      ⚠ care",
            "\nThreat posture delta:",
            "  ⚠ now exposes T3 (uncatalogued)",
            "  ✓ no longer exposes T4 (uncatalogued)",
            "  ✓ now mitigates T5 (uncatalogued)",
            "  ⚠ no longer mitigates T6 (uncatalogued)",
            "\nFull threat definitions and residuals: docs/reference/THREATS.md",
        ])
    );
}

fn report() -> RiskReport {
    RiskReport {
        catalogue_version: "3".to_owned(),
        policy_catalogue_version: Some("2".to_owned()),
        exposures: vec![Finding {
            threat_id: "T1".to_owned(),
            title: None,
            carrier: "net\"x".to_owned(),
            reason: Some("a\\b".to_owned()),
            residual: "r".to_owned(),
            derived: true,
        }],
        mitigations: Vec::new(),
        unknown_tags: vec![("T9".to_owned(), "fs".to_owned())],
    }
}

#[test]
fn risks_are_shown() {
    assert_eq!(
        print_risks_human("p", &report()),
        owned(&[
            "Risk overview for `p`  (threat catalogue v3)",
            "  note: policy authored against threat catalogue v2 (now v3)",
            "\nEXPOSES (1):",
            "  T1     (uncatalogued)  (derived)",
            "         via net\"x",
            "         reason: a\\b",
            "         residual: r",
            "\nMITIGATES (0):",
            "  (none)",
            "\n⚠ 1 threat tag(s) not in catalogue v3 (typo?):",
            "  T9  via fs",
            "\nFull threat definitions and residuals: docs/reference/THREATS.md",
        ])
    );
    assert_eq!(guard("a\"b\\"), "a\\\"b\\\\");
    let json = print_risks_json("p", &report());
    assert_eq!(
        json,
        "{\"policy\":\"p\",\"catalogue_version\":\"3\",\"exposures\":[{\"id\":\"T1\",\"title\":\"\",\"carrier\":\"net\\\"x\",\"reason\":\"a\\\\b\",\"residual\":\"r\",\"derived\":true}],\"mitigations\":[],\"unknown_tags\":[{\"tag\":\"T9\",\"carrier\":\"fs\"}]}"
    );
    let v: serde_json::Value = serde_json::from_str(&json).expect("json");
    assert_eq!(v["exposures"][0]["carrier"].as_str(), Some("net\"x"));
}

fn effective() -> EffectivePolicy {
    EffectivePolicy {
        name: "p".to_owned(),
        mode: NetMode::Host,
        allow: 1,
        allow_names: 2,
        deny_author: 3,
        deny_invariant: 4,
        bpf_connect_allow: 5,
        bpf_connect_deny: 6,
        bpf_bind_allow: 0,
        bpf_bind_deny: 8,
        fs_read: owned(&["/a", "/b"]),
        fs_write: owned(&["/c"]),
        exec_allow: 0,
        workload: Some(Workload { argv: owned(&["sh", "-c"]), pinned: true, sha256: 2 }),
        ttl: Some((60, "Stop".to_owned())),
    }
}

#[test]
fn effective_policies_are_shown() {
    assert_eq!(
        print_effective_policy(&effective()),
        owned(&[
            "policy `p`",
            "  network: host (host netns, direct egress, BPF/Landlock gate; reinstates T1.6)",
            "  [net.proxy] (NOT enforced — no proxy in this mode):",
            "    allow: 1 cidr, 2 name",
            "    deny.policy: 3 rule(s)",
            "  [net.proxy.deny.invariant]: 4 rule(s) (enforced in every mode)",
            "  [net.bpf] (the egress gate):",
            "    connect: 5 allow, 6 deny (cidr+ports)",
            "    bind: 0 allow, 8 deny (cidr+ports)",
            "  fs.read: /a, /b",
            "  fs.write: /c",
            "  exec: deny-all (no exec.allow)",
            "  workload: sh -c [pinned] [2 sha256 pin(s)]",
            "  ttl: 60s (Stop)",
        ])
    );
    let bare = EffectivePolicy {
        mode: NetMode::Closed,
        allow: 0,
        allow_names: 0,
        deny_author: 0,
        deny_invariant: 0,
        bpf_connect_allow: 0,
        bpf_connect_deny: 0,
        bpf_bind_deny: 0,
        fs_read: Vec::new(),
        fs_write: Vec::new(),
        exec_allow: 9,
        workload: None,
        ttl: None,
        ..effective()
    };
    assert_eq!(
        print_effective_policy(&bare),
        owned(&[
            "policy `p`",
            "  network: none (own empty netns, no network)",
            "  exec.allow: 9 entry(ies)",
        ])
    );
    let proxied = EffectivePolicy { mode: NetMode::Constrained, ..effective() };
    assert_eq!(print_effective_policy(&proxied)[2], "  [net.proxy] (live):");
    assert_eq!(print_effective_policy(&proxied)[6], "  [net.bpf] (defence-in-depth):");
    let open = EffectivePolicy { mode: NetMode::Unconstrained, ..effective() };
    assert_eq!(
        print_effective_policy(&open)[1],
        "  network: unconstrained (own netns, egress proxy, default-allow + denies)"
    );
}

#[test]
fn sockets_are_shown() {
    assert_eq!(print_unix_grants(&[]), owned(&["no AF_UNIX grants"]));
    let s = UnixSocket {
        name: "agent".to_owned(),
        real: "/r".to_owned(),
        shim: "/s".to_owned(),
        env: Some("SSH_AUTH_SOCK".to_owned()),
    };
    assert_eq!(
        print_unix_grants(&[s]),
        owned(&[
            "AF_UNIX grants (1 socket):\n",
            "  agent",
            "    real:  /r",
            "    shim:  /s",
            "    env:   SSH_AUTH_SOCK",
            "",
        ])
    );
}

#[test]
fn objects_are_listed_by_what_they_hold() {
    assert_eq!(listed_as(true, true, true), Listed::Settled);
    assert_eq!(listed_as(true, false, true), Listed::Source);
    assert_eq!(listed_as(true, false, false), Listed::Nothing);
    assert_eq!(listed_as(false, true, true), Listed::Nothing);
    let by = || Some(Signer { tier: None, id: "k".to_owned() });
    let e = house_entry("a", Listed::Settled, "leaf", by()).expect("settled");
    assert_eq!((e.name.as_str(), e.kind.as_str()), ("a", "settled"));
    assert_eq!(e.signer.map(|s| s.id), Some("k".to_owned()));
    let e = house_entry("a", Listed::Source, "leaf", by()).expect("source");
    assert_eq!((e.kind.as_str(), e.signer.is_none()), ("leaf", true));
    assert!(house_entry("a", Listed::Nothing, "leaf", by()).is_none());
    assert!(house_block("/u", "user", Vec::new()).is_none());
    let b = house_block("/u", "user", vec![e]).expect("block");
    assert_eq!((b.dir.as_str(), b.tier.as_str(), b.entries.len()), ("/u", "user", 1));
}

#[test]
fn shadowing_is_marked_on_both_sides() {
    let e = |name: &str, kind: &str, signer: Option<Signer>| HouseEntry {
        name: name.to_owned(),
        kind: kind.to_owned(),
        signer,
    };
    let by = |tier: Option<&str>, id: &str| {
        Some(Signer { tier: tier.map(str::to_owned), id: id.to_owned() })
    };
    let blocks = vec![
        HouseBlock {
            dir: "/u".to_owned(),
            tier: "user".to_owned(),
            entries: vec![
                e("b", "leaf", None),
                e("a", "settled", by(Some("vendor"), "v")),
            ],
        },
        HouseBlock {
            dir: "/e".to_owned(),
            tier: "host".to_owned(),
            entries: vec![e("a", "settled", by(Some("host"), "h")), e("c", "settled", by(None, "x"))],
        },
    ];
    assert_eq!(
        list_house("policies", &blocks),
        owned(&[
            "policies: /u [user tier]",
            "  a  (settled)  [vendor-signed, shadows host]",
            "  b  (leaf)",
            "policies: /e [host tier]",
            "  a  (settled)  [shadowed by user]",
            "  c  (settled)  [signed by unknown key `x`]",
        ])
    );
}
