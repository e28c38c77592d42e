use kennel::cli::misc::{
    audit_args, audit_dir, audit_files, cutoff, emit_batch, journalctl_command,
    parse_duration_secs, report_daemon, report_privhelper, resume_at, skew_line, version_args,
    version_line, DaemonAnswer,
};
use kennel::cli::runtime::{
    print_mesh, print_row, print_topology, reloaded_text, topology_rows, KennelInfo, MeshProvider,
};
use kennel::cli::shared::{
    config_dir, default_settled_path, default_signing_key, directory_of, exit_code, first_present,
    host_trust_dir, is_valid_key_id, places_of_policy, places_of_template, policy_error_code, policy_name_from_path,
    pub_key_ids, resolve_key_arg, resolve_policy, resolve_template, settled_place, source_place,
    stamped_key_id, wants_help, KeyFile, PolicyErrorKind,
};

fn owned(v: &[&str]) -> Vec<String> {
    v.iter().map(|s| (*s).to_owned()).collect()
}

#[test]
fn help_is_asked_for_anywhere() {
    assert!(wants_help(&owned(&["a", "-h"])));
    assert!(wants_help(&owned(&["--help"])));
    assert!(!wants_help(&owned(&["help", "--helpful"])));
}

#[test]
fn exit_codes_fit_a_byte() {
    assert_eq!(exit_code(0), 0);
    assert_eq!(exit_code(255), 255);
    assert_eq!(exit_code(256), 1);
    assert_eq!(exit_code(-1), 1);
}

#[test]
fn key_ids_are_plain_names() {
    assert!(is_valid_key_id("remco-dev_2.1"));
    assert!(is_valid_key_id(&"k".repeat(64)));
    for bad in ["", ".", "..", "a/b", "a b", "\u{e9}"] {
        assert!(!is_valid_key_id(bad), "{bad}");
    }
    assert!(!is_valid_key_id(&"k".repeat(65)));
}

#[test]
fn settled_documents_lie_beside_their_source() {
    assert_eq!(directory_of("/c/p/policy.toml"), "/c/p");
    assert_eq!(default_settled_path("/c/p/policy.toml", "p"), "/c/p/p.settled.toml");
    assert_eq!(default_settled_path("policy.toml", "p"), "p.settled.toml");
    for name in ["p", "policy", "a.b", "x.settled", "."] {
        let settled = default_settled_path("/c//p/policy.toml", name);
        assert_eq!(policy_name_from_path(&settled), name, "{settled}");
        assert_eq!(directory_of(&settled), "/c//p");
    }
}

#[test]
fn configuration_lies_below_the_home_directory() {
    assert_eq!(config_dir(Some("/x"), Some("/h"), "keys"), "/x/kennel/keys");
    assert_eq!(config_dir(Some(""), Some("/h"), "keys"), "/h/.config/kennel/keys");
    assert_eq!(config_dir(None, None, "keys"), ".config/kennel/keys");
}

#[test]
fn policies_are_found_in_order() {
    let dirs = owned(&["/u/policies", "/e/policies"]);
    assert_eq!(settled_place("/u/policies", "x"), "/u/policies/x/x.settled.toml");
    assert_eq!(source_place("/u/policies", "x"), "/u/policies/x/policy.toml");
    let places = places_of_policy(&dirs, "x", true);
    assert_eq!(
        places,
        owned(&[
            "/u/policies/x/x.settled.toml",
            "/u/policies/x/policy.toml",
            "/e/policies/x/x.settled.toml",
            "/e/policies/x/policy.toml",
        ])
    );
    assert_eq!(places_of_policy(&dirs, "x", false)[0], "/u/policies/x/policy.toml");
    assert_eq!(first_present(&places, &|p: &str| p.starts_with("/e")), Some(2));
    assert_eq!(first_present(&places, &|_: &str| false), None);
    assert_eq!(
        resolve_policy("x", true, false, &dirs, &|p: &str| p.ends_with("policy.toml")),
        Ok(("/u/policies/x/policy.toml".to_owned(), "x".to_owned()))
    );
    assert_eq!(
        resolve_policy("a/b", true, false, &dirs, &|_: &str| true),
        Err("`a/b` is not an existing file, and not a valid policy name (no `/`, `..`, or whitespace)".to_owned())
    );
    assert_eq!(
        resolve_policy("x", true, false, &dirs, &|_: &str| false),
        Err("no policy named `x` (searched `policies/` under ~/.config/kennel, /etc/kennel, /usr/lib/kennel); pass a path, or compile one with `kennel compile`".to_owned())
    );
}

#[test]
fn templates_are_found_in_order() {
    let dirs = owned(&["/u", "/e"]);
    assert_eq!(
        places_of_template(&dirs, "t"),
        owned(&["/u/t.toml", "/u/t/policy.toml", "/e/t.toml", "/e/t/policy.toml"])
    );
    assert_eq!(
        resolve_template("t", false, &dirs, &|p: &str| p.ends_with("policy.toml")),
        Ok(("/u/t/policy.toml".to_owned(), "t".to_owned()))
    );
    assert_eq!(
        resolve_template("/x/t.toml", true, &dirs, &|_: &str| false),
        Ok(("/x/t.toml".to_owned(), "t".to_owned()))
    );
    assert_eq!(
        resolve_template("t", true, &dirs, &|p: &str| p == "/e/t.toml"),
        Ok(("/e/t.toml".to_owned(), "t".to_owned())),
        "a name in the cascade goes before a path"
    );
    assert_eq!(
        resolve_template("t", true, &dirs, &|_: &str| false),
        Ok(("t".to_owned(), "t".to_owned()))
    );
    assert!(resolve_template("t t", false, &dirs, &|_: &str| false)
        .expect_err("name")
        .contains("not a valid template name"));
    assert!(resolve_template("t", false, &dirs, &|_: &str| false)
        .expect_err("none")
        .starts_with("no template named `t` (searched `templates/`"));
}

#[test]
fn keys_are_named_before_they_are_paths() {
    let names = owned(&["b.pub", "a.pub", "b.pub", "a", "x.key"]);
    assert_eq!(pub_key_ids(&names), owned(&["b", "a", "b"]));
    assert_eq!(resolve_key_arg("k", "/keys", true, true, &names), Ok("/keys/k".to_owned()));
    assert_eq!(resolve_key_arg("/k", "/keys", false, true, &names), Ok("/k".to_owned()));
    assert_eq!(
        resolve_key_arg("k", "/keys", false, false, &names),
        Err("no signing key `k`: not a key in /keys and not a file (available: a, b)".to_owned())
    );
    assert_eq!(
        resolve_key_arg("k", "/keys", false, false, &[]),
        Err("no signing key `k`: not a key in /keys and not a file (available: none — generate one with `kennel keygen <key-id>`)".to_owned())
    );
}

fn files(v: &[(&str, bool)]) -> Vec<KeyFile> {
    v.iter()
        .map(|(n, p)| KeyFile { name: (*n).to_owned(), private: *p })
        .collect()
}

#[test]
fn the_only_key_signs() {
    assert_eq!(
        default_signing_key("/k", &files(&[("me.pub", false), ("me", true), ("old.key", true), ("notes", false)])),
        Ok("/k/me".to_owned())
    );
    assert_eq!(
        default_signing_key("/k", &[]),
        Err("no signing key in /k — generate one with `kennel keygen <key-id>`, or pass --key <path>".to_owned())
    );
    assert_eq!(
        default_signing_key("/k", &files(&[("b.key", false), ("a.key", false)])),
        Err("no OpenSSH signing key in /k, only legacy raw-base64 key(s) (a.key, b.key) — the format was removed in 0.6.0: regenerate with `kennel keygen <key-id>`, or convert once with 0.5.x's `kennel keygen migrate`".to_owned())
    );
    assert_eq!(
        default_signing_key("/k", &files(&[("you", true), ("me", true)])),
        Err("multiple signing keys in /k (me, you); pass --key <name> to choose one of them".to_owned())
    );
}

#[test]
fn stamped_ids_come_from_the_trust_store() {
    assert_eq!(stamped_key_id(None, Some("rel"), "/k"), Ok(("rel".to_owned(), None)));
    assert_eq!(stamped_key_id(Some("a"), None, "/k"), Ok(("a".to_owned(), None)));
    assert_eq!(stamped_key_id(Some("a"), Some("a"), "/k"), Ok(("a".to_owned(), None)));
    assert_eq!(
        stamped_key_id(Some("a"), Some("b"), "/k"),
        Ok((
            "a".to_owned(),
            Some("warning: --key-id `a`, but this key is trusted as `b` in the trust store".to_owned())
        ))
    );
    assert!(stamped_key_id(None, None, "/k")
        .expect_err("unknown")
        .ends_with("pass --key-id <id> (key: `/k`)"));
    assert_eq!(host_trust_dir(&owned(&["/v", "/e", "/f"]), "/v"), Some(1));
    assert_eq!(host_trust_dir(&owned(&["/v"]), "/v"), None);
}

#[test]
fn broken_trust_has_its_own_code() {
    assert_eq!(policy_error_code(PolicyErrorKind::Signature), 6);
    assert_eq!(policy_error_code(PolicyErrorKind::LockMismatch), 6);
    for k in [
        PolicyErrorKind::Parse,
        PolicyErrorKind::Canonical,
        PolicyErrorKind::UnsupportedSchemaVersion,
        PolicyErrorKind::ObsoleteSchemaVersion,
        PolicyErrorKind::InvariantViolations,
        PolicyErrorKind::SourceValidation,
        PolicyErrorKind::Resolution,
        PolicyErrorKind::Translation,
        PolicyErrorKind::Conflict,
        PolicyErrorKind::Patch,
        PolicyErrorKind::Spawn,
    ] {
        assert_eq!(policy_error_code(k), 3);
    }
}

#[test]
fn every_daemon_answer_is_a_report() {
    assert_eq!(version_args(&[]), Ok(()));
    assert_eq!(
        version_args(&owned(&["x", "y"])),
        Err("unexpected argument `x` — usage: kennel version".to_owned())
    );
    assert_eq!(
        version_line("0.8", 5, 4),
        "kennel CLI     : 0.8 — settled schema v5 (min v4)"
    );
    let restart = "`systemctl --user restart kenneld.service`";
    let cases = [
        (
            DaemonAnswer::Unreachable("/s".to_owned(), "refused".to_owned()),
            "kenneld        : unreachable at /s (refused)",
            Some("daemon unreachable — is the kenneld.socket user unit enabled?".to_owned()),
        ),
        (
            DaemonAnswer::Skew("0.7".to_owned(), 4, 5),
            "kenneld (live) : 0.7 — settled schema v4 (older than this CLI's v5)",
            Some(format!("the daemon is an older build — restart it to pick up the installed one: {restart}")),
        ),
        (
            DaemonAnswer::NoHandshake("eof".to_owned()),
            "kenneld        : handshake failed (eof)",
            Some("the daemon spoke no control handshake — a pre-0.4 build?".to_owned()),
        ),
        (
            DaemonAnswer::NotSent,
            "kenneld (live) : version query failed to send",
            Some("the daemon dropped the version query".to_owned()),
        ),
        (
            DaemonAnswer::Version("0.8".to_owned(), 5, 4),
            "kenneld (live) : 0.8 — settled schema v5 (min v4)",
            None,
        ),
        (
            DaemonAnswer::Version("0.7".to_owned(), 5, 4),
            "kenneld (live) : 0.7 — settled schema v5 (min v4)",
            Some(format!("CLI 0.8 vs daemon 0.7 — restart the daemon to pick up the installed binary: {restart}")),
        ),
        (
            DaemonAnswer::Other("Stopped".to_owned()),
            "kenneld (live) : unexpected response (Stopped)",
            Some("the daemon answered the version query with the wrong shape".to_owned()),
        ),
        (
            DaemonAnswer::Dropped,
            "kenneld (live) : predates the version query (a pre-0.7.0 build)",
            Some(format!("the running daemon predates `kennel version` — restart it to pick up the installed binary: {restart}")),
        ),
    ];
    for (answer, line, note) in cases {
        assert_eq!(report_daemon(&answer, "0.8"), (line.to_owned(), note));
    }
    assert_eq!(skew_line(&None), "skew           : none — CLI and daemon builds match");
    assert_eq!(skew_line(&Some("old".to_owned())), "skew           : old");
    assert_eq!(
        report_privhelper("/p", true, true, false, false),
        (
            "privhelper     : present (/p)".to_owned(),
            "  sub-helpers  : mounts present, net ABSENT, bpf-egress ABSENT".to_owned()
        )
    );
}

#[test]
fn audit_arguments_are_read() {
    let a = audit_args(&owned(&["k", "--resource", "net", "--since", "2h", "--novel-only", "--follow"]))
        .expect("args");
    assert_eq!(a.kennel, "k");
    assert_eq!(a.resource.as_deref(), Some("net"));
    assert_eq!(a.since.as_deref(), Some("2h"));
    assert!(a.novel_only && a.follow && !a.journalctl);
    let fail = |l: &[&str]| audit_args(&owned(l)).err().expect("refused");
    assert_eq!(fail(&["k", "--since"]), "--since needs a value");
    assert_eq!(fail(&["k", "--resource"]), "--resource needs a value");
    assert_eq!(fail(&["--bogus"]), "unknown flag `--bogus`");
    assert_eq!(fail(&["a", "b"]), "only one <name> may be given");
    assert_eq!(fail(&["../k"]), "invalid kennel name `../k`");
    assert_eq!(fail(&["a/b"]), "invalid kennel name `a/b`");
    assert_eq!(
        fail(&["k", "--resource", "disk"]),
        "unknown --resource `disk` (net/fs/exec/unix/dbus/priv/lifecycle)"
    );
    assert!(fail(&[]).starts_with("usage: kennel audit <name>"));
    assert_eq!(
        parse_duration_secs("x1h"),
        Err("invalid --since duration `x1h` (try 90s, 30m, 2h, 7d)".to_owned())
    );
    assert_eq!(
        parse_duration_secs("18446744073709551615m"),
        Err("--since duration `18446744073709551615m` overflows".to_owned())
    );
    assert_eq!(
        journalctl_command("k", Some("net"), Some("2h")),
        "journalctl --user KENNEL_KENNEL=k KENNEL_RESOURCE=net --since \"2h ago\""
    );
}

#[test]
fn audit_logs_lie_below_the_state_directory() {
    assert_eq!(audit_dir(Some("/s"), Some("/h"), "k"), "/s/kennel/k");
    assert_eq!(audit_dir(None, Some("/h"), "k"), "/h/.local/state/kennel/k");
    assert_eq!(audit_dir(None, None, "k"), "./.local/state/kennel/k");
    assert_eq!(audit_files("/d", Some("fs")), owned(&["/d/filesystem.jsonl"]));
    assert_eq!(audit_files("/d", None).len(), 7);
    assert_eq!(cutoff(100, 200), "1970-01-01T00:00:00.000000Z");
    assert_eq!(cutoff(100, 40), "1970-01-01T00:01:00.000000Z");
    assert_eq!(resume_at(10, 20), 0);
    assert_eq!(resume_at(20, 10), 10);
}

#[test]
fn batches_are_shown_in_time_order() {
    let line = |ts: &str, e: &str| format!("{{\"ts\":\"{ts}\",\"event\":\"{e}\"}}");
    let batch = vec![line("3", "a"), "{}".to_owned(), line("1", "b"), line("2", "a")];
    let mut seen = Vec::new();
    assert_eq!(
        emit_batch(&batch, Some("2"), true, &mut seen),
        vec!["{}".to_owned(), line("2", "a")]
    );
    assert!(emit_batch(&batch, Some("2"), true, &mut seen).is_empty());
    assert_eq!(emit_batch(&batch, None, false, &mut seen).len(), 4);
}

fn info(name: &str, ctx: u16) -> KennelInfo {
    KennelInfo {
        kennel: name.to_owned(),
        ctx,
        pid: 7,
        running: ctx != 1,
        attached: ctx == 1,
    }
}

#[test]
fn running_kennels_are_listed() {
    assert_eq!(
        print_row(&info("agent", 1), "", false),
        "agent                                1        7  starting attached"
    );
    assert_eq!(
        print_row(&info("s", 2), "└─ ", true),
        "└─ s                                 2        7  running  detached  (orphan spawn)"
    );
    let kennels = vec![info("spawn-1-b", 9), info("agent", 1), info("spawn-1-a", 5)];
    let rows: Vec<(usize, &str)> = topology_rows(&kennels).iter().map(|r| (r.0, r.1)).collect();
    assert_eq!(rows, vec![(1, ""), (2, "├─ "), (0, "└─ ")]);
    let deep = vec![
        info("spawn-7-b", 20),
        info("spawn-20-x", 21),
        info("spawn-7-a", 11),
        info("spawn-11-y", 30),
        info("agent", 7),
        info("spawn-11-z", 12),
        info("spawn-99-w", 3),
    ];
    let rows: Vec<(usize, &str, bool)> = topology_rows(&deep);
    assert_eq!(
        rows,
        vec![
            (6, "", true),
            (4, "", false),
            (2, "├─ ", false),
            (5, "├─ ", false),
            (3, "└─ ", false),
            (0, "└─ ", false),
            (1, "└─ ", false),
        ]
    );
    assert_eq!(topology_rows(&[info("spawn-5-x", 5), info("a", 1)]), vec![(1, "", false)]);
    let lines = print_topology(&kennels);
    assert_eq!(lines[0], "NAME                               CTX      PID  STATE    CLIENT");
    assert_eq!(lines.len(), 4);
    assert_eq!(reloaded_text(1), "reloaded: 1 catalogued capability");
    assert_eq!(reloaded_text(2), "reloaded: 2 catalogued capabilities");
}

#[test]
fn providers_are_listed_by_capability() {
    let p = |c: &str, k: &str| MeshProvider {
        capability: c.to_owned(),
        provider: k.to_owned(),
        readiness: "ready".to_owned(),
        shape: "fd".to_owned(),
        enablement: "on".to_owned(),
        tier: "user".to_owned(),
    };
    let out = print_mesh(&[p("b", "x"), p("a", "z"), p("a", "y")]);
    assert_eq!(
        out,
        owned(&[
            "CAPABILITY                       PROVIDER         READINESS SHAPE       ENABLE    TIER ",
            "a                                y                ready     fd          on        user ",
            "a                                z                ready     fd          on        user ",
            "b                                x                ready     fd          on        user ",
        ])
    );
}
