use kennel::cli::ceremony::{
    already_signed_text, clone_refusal, collision, install_check, install_key, installed_lines,
    rename_source_object, reserved_violations, resolve_clonable_policy_source, rollback_text,
    shadow_text, sign_check, sign_step, signature_block, strip_signature, InstallFacts,
    InstallTarget, Provided, SignStep, SourceMeta, Tier,
};
use kennel::cli::key::{
    fingerprint_in, generate_args, generate_refusal, generated_lines, job_source, key_line,
    key_lines, lock_beside, places_in_cascade, policy_file, print_plan, pub_path, recompile_args,
    ref_line, report_owed, retired_pair, rotate_args, rotate_refusal, rotated_text, rotation_plan,
    signs_lines, store_keys, trust_args, trust_target, untrust_args, untrust_refusal,
    rotate_report, unconfirmed, untrust_report, PolicyFile, RefKind, SignedRef, TierKey, TrustArgs,
};
use kennel::cli::policy::House;

fn owned(v: &[&str]) -> Vec<String> {
    v.iter().map(|s| (*s).to_owned()).collect()
}

fn provided(name: &str, required: Option<Tier>) -> Provided {
    Provided { name: name.to_owned(), required }
}

fn meta(template: Option<&str>, name: Option<&str>, leaf: bool) -> SourceMeta {
    SourceMeta {
        template_name: template.map(str::to_owned),
        name: name.map(str::to_owned),
        leaf,
        provides: vec![
            provided("free", None),
            provided("host.x", Some(Tier::Host)),
            provided("org.projectkennel.x", Some(Tier::Vendor)),
        ],
    }
}

fn facts(source: Result<SourceMeta, String>) -> InstallFacts {
    InstallFacts {
        settled: false,
        source,
        root: true,
        user_key_dir: Some("/h/.config/kennel/keys".to_owned()),
    }
}

fn plain(template: Option<&str>, name: Option<&str>, leaf: bool) -> SourceMeta {
    SourceMeta { provides: Vec::new(), ..meta(template, name, leaf) }
}

#[test]
fn authority_reaches_down_alone() {
    let p = meta(None, Some("n"), true).provides;
    assert_eq!(reserved_violations(&p, Tier::User), owned(&["host.x", "org.projectkennel.x"]));
    assert_eq!(reserved_violations(&p, Tier::Host), owned(&["org.projectkennel.x"]));
    assert!(reserved_violations(&p, Tier::Vendor).is_empty());
    assert!(Tier::Vendor.is_above(Tier::Host) && Tier::Host.is_above(Tier::User));
    assert!(!Tier::User.is_above(Tier::User) && !Tier::Host.is_above(Tier::Vendor));
}

#[test]
fn sources_are_installed_at_their_level() {
    let t = install_check(House::Policy, "f.toml", false, &facts(Ok(plain(None, Some("n"), true))))
        .ok()
        .expect("target");
    assert_eq!((t.name.as_str(), t.dest.as_str()), ("n", "/h/.config/kennel/policies/n"));
    let t = install_check(House::Template, "f.toml", true, &facts(Ok(plain(Some("t"), None, false))))
        .ok()
        .expect("target");
    assert_eq!((t.name.as_str(), t.dest.as_str()), ("t", "/etc/kennel/templates/t"));
    let fail = |house: House, host: bool, f: InstallFacts| {
        install_check(house, "f.toml", host, &f).err().expect("refused")
    };
    assert_eq!(
        fail(House::Policy, false, InstallFacts { settled: true, ..facts(Err("x".to_owned())) }),
        "f.toml is a compiled (settled) artefact, not source. A higher-tier-signed artefact verifies wherever it is placed — copy it into a `policies/` repo directly. `install` places and signs SOURCE at your tier"
    );
    assert_eq!(
        fail(House::Policy, false, facts(Err("bad key".to_owned()))),
        "f.toml is not a source policy/template: bad key"
    );
    assert_eq!(
        fail(House::Policy, false, facts(Ok(plain(Some("t"), None, false)))),
        "f.toml is a template (a shared base) — install it with `kennel template install f.toml`"
    );
    assert_eq!(
        fail(House::Template, false, facts(Ok(plain(None, Some("n"), true)))),
        "f.toml is a leaf policy — install it with `kennel policy install f.toml`"
    );
    assert_eq!(
        fail(House::Policy, false, facts(Ok(plain(None, None, true)))),
        "f.toml has no `name`/`template_name`"
    );
    assert_eq!(
        fail(House::Policy, false, facts(Ok(plain(None, Some("a/b"), true)))),
        "`a/b` is not a valid object name"
    );
    assert_eq!(
        fail(House::Policy, true, facts(Ok(meta(None, Some("n"), true)))),
        "f.toml carries reserved [[provides]] claims a host-tier key cannot sign (org.projectkennel.x) — reserved names belong to the tier that owns them; derive from the signed base instead (`kennel policy generate --from <template>`)"
    );
    assert!(fail(House::Policy, false, facts(Ok(meta(None, Some("n"), true))))
        .contains("a user-tier key cannot sign (host.x, org.projectkennel.x)"));
    assert_eq!(
        fail(House::Policy, true, InstallFacts { root: false, ..facts(Ok(plain(None, Some("n"), true))) }),
        "`--host` installs into /etc/kennel and needs root"
    );
    assert_eq!(
        fail(House::Policy, false, InstallFacts { user_key_dir: None, ..facts(Ok(plain(None, Some("n"), true))) }),
        "cannot resolve ~/.config/kennel (HOME unset)"
    );
}

fn target() -> InstallTarget {
    InstallTarget { name: "n".to_owned(), dest: "/d/n".to_owned() }
}

#[test]
fn an_install_is_told() {
    assert_eq!(
        collision(&target(), true, false),
        Some("`n` already exists at /d/n — pass --force to replace it".to_owned())
    );
    assert_eq!(collision(&target(), true, true), None);
    assert_eq!(install_key(&Some("k".to_owned()), true, "/e", false), Ok(Some("k".to_owned())));
    assert_eq!(install_key(&None, true, "/e", true), Ok(Some("/e/kennel-host".to_owned())));
    assert_eq!(install_key(&None, false, "/e", true), Ok(None));
    assert_eq!(
        install_key(&None, true, "/e", false),
        Err("no host signing key at /e/kennel-host (install.sh provisions it); pass --key".to_owned())
    );
    assert_eq!(sign_step(&plain(None, Some("n"), true)), SignStep::Compile);
    assert_eq!(sign_step(&plain(None, Some("n"), false)), SignStep::Source);
    assert_eq!(sign_step(&plain(Some("t"), None, false)), SignStep::Source);
    assert_eq!(
        rollback_text(true, "the sign step failed", &target()),
        "kennel: install rolled back (the sign step failed); /d/n removed"
    );
    assert_eq!(
        rollback_text(false, "the sign step failed", &target()),
        "kennel: the sign step failed; `n` at /d/n was replaced but not re-signed — fix and re-run install"
    );
    assert_eq!(
        installed_lines(&target(), true, SignStep::Compile),
        (
            "kennel: installed `n` at the host tier (/d/n)".to_owned(),
            "  next: `kennel run n`".to_owned()
        )
    );
    assert_eq!(
        installed_lines(&target(), false, SignStep::Source).1,
        "  next: derive a leaf from it — `kennel policy generate --from n`"
    );
}

#[test]
fn renaming_is_no_escape() {
    let p = meta(None, Some("n"), true).provides;
    let refused = clone_refusal(House::Policy, "n", "other", &p).expect("refused");
    assert!(refused.contains("(host.x, org.projectkennel.x)"));
    assert!(refused.ends_with("`kennel policy generate --from n`"));
    assert_eq!(clone_refusal(House::Policy, "n", "m", &[]), None);
    assert_eq!(
        clone_refusal(House::Template, "a/n", "m", &[]),
        Some("`clone` takes an object NAME from the templates cascade, not a path — `install` places a file you already hold".to_owned())
    );
    assert_eq!(
        clone_refusal(House::Policy, "n", "..", &[]),
        Some("`..` is not a valid object name".to_owned())
    );
    assert_eq!(
        shadow_text(House::Template, "n", "n", "vendor"),
        Some("  note: your clone shadows the vendor `n` for your user (resolution is user-first; `kennel template list` marks it)".to_owned())
    );
    assert_eq!(shadow_text(House::Template, "n", "m", "vendor"), None);
    assert_eq!(shadow_text(House::Template, "n", "n", "user"), None);
}

#[test]
fn clones_start_from_source() {
    let dirs = owned(&["/u", "/e"]);
    let find = |have: &[&str]| {
        resolve_clonable_policy_source("p", &dirs, &|f: &str| have.contains(&f))
    };
    assert_eq!(
        find(&["/u/p/p.settled.toml", "/e/p/policy.toml"]),
        Ok("/e/p/policy.toml".to_owned())
    );
    assert_eq!(
        find(&["/e/p/p.settled.toml"]),
        Err("`p` exists only as compiled artefacts (e.g. /e/p/p.settled.toml) — a settled artefact is derived, not clonable source, and no tier in the cascade ships this policy's source".to_owned())
    );
    assert_eq!(
        find(&[]),
        Err("no policy named `p` in the policies cascade (`kennel policy list` shows what is there)".to_owned())
    );
}

#[test]
fn a_clone_keeps_every_other_byte() {
    let source = "# c\n  name = \"old\"\nx = 1\n[workload]\nname = \"kept\"\n";
    assert_eq!(
        rename_source_object(source, "new"),
        Ok("# c\nname = \"new\"\nx = 1\n[workload]\nname = \"kept\"\n".to_owned())
    );
    assert_eq!(
        rename_source_object("template_name = \"t\"", "new"),
        Ok("template_name = \"new\"".to_owned())
    );
    assert_eq!(
        rename_source_object("x = 1\n", "new"),
        Err("no top-level `name`/`template_name` line to rename".to_owned())
    );
    assert_eq!(
        rename_source_object("name = \"a\"\ntemplate_name = \"b\"\n", "new"),
        Err("more than one top-level `name`/`template_name` line to rename".to_owned())
    );
}

#[test]
fn leaves_are_signed_by_compiling() {
    assert_eq!(
        sign_check("/f", "arg", true, &Some("n".to_owned()), &None),
        Err("/f is a leaf policy, not a template — sign it by compiling it: `kennel policy compile n --key <key>`".to_owned())
    );
    assert!(sign_check("/f", "arg", true, &None, &None).expect_err("leaf").contains("compile arg --key"));
    assert_eq!(
        sign_check("/f", "arg", false, &None, &None),
        Err("template sign needs --key <name-or-path>".to_owned())
    );
    assert_eq!(sign_check("/f", "arg", false, &None, &Some("k".to_owned())), Ok("k".to_owned()));
    assert_eq!(
        already_signed_text("/f"),
        "/f already carries a [signature]; remove it before re-signing"
    );
    assert_eq!(
        signature_block("k", "a\\b\nc\n"),
        "\n[signature]\nalgorithm = \"sshsig\"\nkey_id = \"k\"\nsignature = \"a\\\\b\\nc\\n\"\n"
    );
}

#[test]
fn only_the_appended_block_is_stripped() {
    let block = "[signature]\nalgorithm = \"sshsig\"\nkey_id = \"k\"\nsignature = \"s\"\n";
    assert_eq!(strip_signature(&format!("a = 1\n{block}")), Ok("a = 1\n".to_owned()));
    assert_eq!(strip_signature(block), Ok(String::new()));
    assert_eq!(
        strip_signature("a = 1\n"),
        Err("carries no [signature] block to replace".to_owned())
    );
    assert_eq!(
        strip_signature(&format!("a = 1\n{block}[env]\ndeny = []\n")),
        Err("its [signature] is not the appended-last block `template sign` writes — remove it by hand and re-sign".to_owned())
    );
}

// ---- keys ----------------------------------------------------------------------

#[test]
fn key_arguments_are_read() {
    let g = generate_args(&owned(&["k", "--force"])).ok().expect("args");
    assert!(g.name == "k" && g.force);
    assert_eq!(generate_args(&[]).err().expect("e"), "usage: kennel key generate <name> [--force]");
    assert_eq!(generate_args(&owned(&["--x"])).err().expect("e"), "unknown flag `--x`");
    assert_eq!(generate_args(&owned(&["a", "b"])).err().expect("e"), "only one <name> may be given");
    assert_eq!(trust_args(&owned(&["f.pub"])).ok().expect("args").file, "f.pub");
    assert_eq!(trust_args(&[]).err().expect("e"), "usage: kennel key trust <file.pub> [--force]");
    assert_eq!(trust_args(&owned(&["a", "b"])).err().expect("e"), "only one <file.pub> may be given");
    assert!(untrust_args(&owned(&["--yes", "k"])).ok().expect("args").yes);
    assert_eq!(untrust_args(&[]).err().expect("e"), "usage: kennel key untrust <name> [--yes]");
    assert!(!rotate_args(&owned(&["k"])).ok().expect("args").yes);
    assert_eq!(rotate_args(&[]).err().expect("e"), "usage: kennel key rotate <name> [--yes]");
}

#[test]
fn keys_are_generated_once() {
    assert_eq!(generate_refusal("k", "/d/k", false, false), None);
    assert_eq!(generate_refusal("k", "/d/k", true, true), None);
    assert_eq!(
        generate_refusal("a b", "/d/k", false, false),
        Some("invalid key name `a b`: 1-64 chars of letters, digits, `.`, `-`, `_` (it is both a filename and the signature key_id)".to_owned())
    );
    assert!(generate_refusal("k", "/d/k", true, false)
        .expect("refused")
        .starts_with("/d/k already exists; refusing to overwrite a signing key."));
    assert_eq!(pub_path("/d", "k"), "/d/k.pub");
    let lines = generated_lines("k", "/d", false);
    assert_eq!(lines[0], "generated Ed25519 signing key `k` at the user tier:");
    assert_eq!(lines[1], "  private key : /d/k   (0600 — keep secret)");
    assert_eq!(generated_lines("k", "/d", true)[0], "generated Ed25519 signing key `k` at the host tier:");
    assert_eq!(store_keys(&owned(&["b.pub", "a.pub", "a", "c.txt"])), owned(&["a", "b"]));
    assert_eq!(
        fingerprint_in("256 SHA256:abc k (ED25519)\n"),
        Some("SHA256:abc".to_owned())
    );
    assert_eq!(fingerprint_in("256"), None);
}

#[test]
fn keys_are_listed() {
    let k = TierKey {
        name: "k".to_owned(),
        tier: "user".to_owned(),
        dir: "/d".to_owned(),
        mine: true,
    };
    assert_eq!(
        key_line(&k, "SHA256:x"),
        "k                        [user  ] mine (signs here)      SHA256:x"
    );
    assert_eq!(
        key_lines(&k, "SHA256:x"),
        owned(&[
            "k [user tier] SHA256:x",
            "  public : /d/k.pub",
            "  private: /d/k (this key signs at the user tier)",
        ])
    );
    assert_eq!(key_lines(&TierKey { mine: false, ..k }, "f").len(), 2);
}

fn signed(kind: RefKind, name: &str, tier: &str, key: &str, source: Option<&str>) -> SignedRef {
    SignedRef {
        kind,
        name: name.to_owned(),
        path: format!("/{tier}/{name}"),
        tier: tier.to_owned(),
        key_id: key.to_owned(),
        source: source.map(str::to_owned),
        locked: true,
    }
}

fn refs() -> Vec<SignedRef> {
    vec![
        signed(RefKind::Template, "t", "host", "k", None),
        signed(RefKind::Settled, "s", "host", "k", Some("/src")),
        signed(RefKind::Settled, "o", "host", "k", None),
        signed(RefKind::Settled, "u", "user", "k", Some("/src")),
        signed(RefKind::LockPin, "l", "host", "k", None),
        signed(RefKind::LockPin, "m", "user", "k", None),
        signed(RefKind::Template, "z", "host", "other", None),
    ]
}

#[test]
fn everything_that_a_key_signs_is_planned_for() {
    let all = refs();
    let p = rotation_plan(&all, "k", "host");
    assert_eq!(p.templates, vec![0]);
    assert_eq!(p.leaves, vec![1]);
    assert_eq!(p.orphans, vec![2]);
    assert_eq!(p.foreign, vec![3, 5]);
    let plan = print_plan(&all, &p, "k", "host");
    assert_eq!(rotate_report(&all, &p, "k", "host", true), plan);
    let asked = rotate_report(&all, &p, "k", "host", false);
    assert_eq!(asked.len(), plan.len() + 1);
    assert_eq!(asked[plan.len()], "\nnothing rotated — re-run with --yes to proceed");
    assert_eq!(unconfirmed(true), None);
    assert_eq!(unconfirmed(false), Some(1));
    assert_eq!(plan[0], "rotating `k` at the host tier — the plan:");
    assert!(plan.contains(&"  - re-sign template  /host/t".to_owned()));
    assert!(plan.contains(&"  - recompile leaf    /host/s (from /src; lock re-pins as needed)".to_owned()));
    assert!(plan.contains(&"  ! cannot rotate     /host/o — settled artefact whose source resolves nowhere in the cascade; it will stop verifying".to_owned()));
    let owed = report_owed(&all, &p);
    assert_eq!(owed.len(), 5);
    assert_eq!(
        owed[2],
        "  settled   u                            [user tier] /user/u — recompile/re-pin under a key that signs there"
    );
    let none = rotation_plan(&all, "absent", "host");
    assert!(report_owed(&all, &none).is_empty());
    assert_eq!(
        print_plan(&all, &none, "absent", "host")[2],
        "  2. nothing signed by this key at the host tier — no re-sign work"
    );
}

#[test]
fn what_a_key_signs_is_told() {
    let all = refs();
    assert_eq!(
        ref_line(&all[0]),
        "  template  t                            [host tier] /host/t"
    );
    assert_eq!(signs_lines(&all, "k").len(), 7);
    assert_eq!(signs_lines(&all, "k")[0], "\nsigns 6 object(s):");
    assert_eq!(
        signs_lines(&all, "none"),
        owned(&["\nsigns nothing in the policy/template repos"])
    );
    assert_eq!(
        untrust_report(&all, "other", false),
        owned(&[
            "untrusting `other` orphans 1 object(s) — they stop verifying:",
            "  template  z                            [host tier] /host/z",
            "\nnothing removed — re-run with --yes to proceed",
        ])
    );
    assert_eq!(
        untrust_report(&all, "none", true),
        owned(&["`none` signs nothing in the policy/template repos."])
    );
}

#[test]
fn files_of_a_policy_are_told_apart() {
    assert!(matches!(policy_file("a.settled.toml"), PolicyFile::Settled(s) if s == "a"));
    assert!(matches!(policy_file("a.lock"), PolicyFile::Lock(s) if s == "a"));
    assert!(matches!(policy_file("policy.toml"), PolicyFile::Other));
}

#[test]
fn trust_is_the_hosts() {
    let a = TrustArgs { file: "/x/k.pub".to_owned(), force: false };
    let absent = |_: &str| false;
    assert_eq!(trust_target(&a, true, true, "/e", &absent), Ok("/e/k.pub".to_owned()));
    assert!(trust_target(&a, false, true, "/e", &absent).expect_err("root").contains("needs root"));
    assert!(trust_target(&a, true, false, "/e", &absent)
        .expect_err("form")
        .starts_with("/x/k.pub is not an OpenSSH ed25519 public key"));
    assert_eq!(
        trust_target(&a, true, true, "/e", &|_: &str| true),
        Err("/e/k.pub already exists — pass --force to replace it (this changes which key `k` signatures verify against)".to_owned())
    );
    let bad = TrustArgs { file: "/x/a b.pub".to_owned(), force: false };
    assert_eq!(
        trust_target(&bad, true, true, "/e", &absent),
        Err("`a b` is not a valid key id".to_owned())
    );
    let none = TrustArgs { file: "/".to_owned(), force: false };
    assert_eq!(
        trust_target(&none, true, true, "/e", &absent),
        Err("cannot derive a key id from `/`".to_owned())
    );
    assert_eq!(untrust_refusal("k", true, true, false, "/e"), None);
    assert!(untrust_refusal("k", false, true, false, "/e").expect("root").ends_with("needs root"));
    assert!(untrust_refusal("k", true, false, true, "/e").expect("vendor").starts_with("`k` is a vendor-tier key"));
    assert_eq!(
        untrust_refusal("k", true, false, false, "/e"),
        Some("no key `k` in the host trust store (/e)".to_owned())
    );
}

#[test]
fn keys_rotate_where_they_live() {
    assert_eq!(rotate_refusal("k", false, true, false, "/d"), None);
    assert!(rotate_refusal("k", false, false, true, "/d").expect("vendor").contains("vendor tier's"));
    assert_eq!(
        rotate_refusal("k", false, false, false, "/d"),
        Some("no private key `k` at the user tier (/d) — a key rotates only at the level it lives at; rotating the host key needs root".to_owned())
    );
    assert_eq!(
        rotate_refusal("k", true, false, false, "/d"),
        Some("no private key `k` at the host tier (/d) — a key rotates only at the level it lives at".to_owned())
    );
    assert_eq!(retired_pair("/d", "k"), ("/d/k.retired".to_owned(), "/d/k.pub.retired".to_owned()));
    assert_eq!(
        rotated_text("k", "user", 1, 2, 0),
        ("rotated `k` at the user tier: 1 template(s) re-signed, 2 leaf(s) recompiled under the successor key".to_owned(), 0)
    );
    let (said, code) = rotated_text("k", "user", 1, 2, 3);
    assert_eq!(code, 1);
    assert!(said.starts_with("rotation of `k` finished with 3 failure(s)"));
}

#[test]
fn sources_are_found_for_a_recompile() {
    let dirs = owned(&["/u/policies", "/usr/lib/kennel/policies"]);
    let settled = "/etc/kennel/policies/providers/p/p.settled.toml";
    assert_eq!(
        places_in_cascade(settled, &dirs),
        owned(&[
            "/u/policies/providers/p/policy.toml",
            "/usr/lib/kennel/policies/providers/p/policy.toml",
        ])
    );
    assert!(places_in_cascade("/x/p/p.settled.toml", &dirs).is_empty());
    assert_eq!(
        job_source(settled, &dirs, &|f: &str| f.starts_with("/usr")),
        Some("/usr/lib/kennel/policies/providers/p/policy.toml".to_owned())
    );
    assert_eq!(
        job_source(settled, &dirs, &|_: &str| true),
        Some("/etc/kennel/policies/providers/p/policy.toml".to_owned())
    );
    assert_eq!(job_source(settled, &dirs, &|_: &str| false), None);
    assert_eq!(
        recompile_args("/s", "/o", "/k", false),
        owned(&["/s", "--key", "/k", "--output", "/o", "--no-lock"])
    );
    assert_eq!(recompile_args("/s", "/o", "/k", true).len(), 5);
    assert_eq!(lock_beside("/d/p/p.settled.toml"), Some("/d/p/p.lock".to_owned()));
    assert_eq!(lock_beside("p.settled.toml"), None);
}
