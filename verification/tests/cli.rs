use kennel::cli::ceremony::{signature_block, strip_signature};
use kennel::cli::dispatch::{route, Route, Unit};
use kennel::cli::key::lock_pinning;
use kennel::cli::misc::{extract_ts, novel_key, parse_duration_secs, resource_stem};
use kennel::cli::options::CommandSpec;
use kennel::cli::policy::{policy_kind, TempSettled};
use kennel::cli::runtime::{spawn_parent_ctx, topology_rows, KennelInfo};
use kennel::cli::shared::{
    is_valid_policy_name, policy_name_from_path, refused_public_key, resolve_key_id,
    resolve_policy, TrustFile,
};

fn owned(v: &[&str]) -> Vec<String> {
    v.iter().map(|s| (*s).to_owned()).collect()
}

#[test]
fn policy_name_derives_from_the_path_shape() {
    assert_eq!(policy_name_from_path("/c/policies/ai-coding/policy.toml"), "ai-coding");
    assert_eq!(
        policy_name_from_path("/c/policies/ai-coding/ai-coding.settled.toml"),
        "ai-coding"
    );
    assert_eq!(policy_name_from_path("/tmp/demo.settled.toml"), "demo");
    assert_eq!(policy_name_from_path("/tmp/demo.toml"), "demo");
}

#[test]
fn policy_kind_distinguishes_template_leaf_and_fragment() {
    assert_eq!(policy_kind(true, true, false, false, false), "template");
    assert_eq!(policy_kind(true, false, true, false, false), "leaf");
    assert_eq!(policy_kind(true, false, true, false, true), "fragment");
    assert_eq!(policy_kind(true, false, true, true, true), "leaf");
}

#[test]
fn policy_names_reject_traversal_and_separators() {
    assert!(is_valid_policy_name("ai-coding"));
    assert!(is_valid_policy_name("my_policy.v2"));
    assert!(!is_valid_policy_name(""));
    assert!(!is_valid_policy_name(".."));
    assert!(!is_valid_policy_name("a/b"));
    assert!(!is_valid_policy_name("../escape"));
    assert!(!is_valid_policy_name("has space"));
}

#[test]
fn resolve_policy_uses_a_literal_path_verbatim() {
    let (path, name) =
        resolve_policy("/tmp/x/loose.settled.toml", true, true, &[], &|_: &str| false)
            .expect("resolve");
    assert_eq!(path, "/tmp/x/loose.settled.toml");
    assert_eq!(name, "loose");
}

#[test]
fn resolve_policy_rejects_an_unknown_name() {
    let err = resolve_policy(
        "definitely-no-such-policy-xyz",
        true,
        false,
        &owned(&["/etc/kennel"]),
        &|_: &str| false,
    )
    .expect_err("must fail");
    assert!(err.contains("no policy named"), "got {err}");
}

#[test]
fn temp_settled_lies_in_the_runtime_directory() {
    let t = TempSettled::write(Some("/run/user/7"), "/tmp", "unit-test", 42);
    assert_eq!(t.path(), "/run/user/7/kennel-run-unit-test-42.settled");
    let t = TempSettled::write(None, "/tmp", "unit-test", 42);
    assert_eq!(t.path(), "/tmp/kennel-run-unit-test-42.settled");
}

#[test]
fn parse_duration_units() {
    assert_eq!(parse_duration_secs("90s").expect("90s"), 90);
    assert_eq!(parse_duration_secs("30m").expect("30m"), 1_800);
    assert_eq!(parse_duration_secs("2h").expect("2h"), 7_200);
    assert_eq!(parse_duration_secs("7d").expect("7d"), 604_800);
    assert_eq!(parse_duration_secs("45").expect("bare"), 45);
    assert!(parse_duration_secs("soon").is_err());
}

#[test]
fn resource_token_maps_to_file_stem() {
    assert_eq!(resource_stem("net"), Some("network"));
    assert_eq!(resource_stem("fs"), Some("filesystem"));
    assert_eq!(resource_stem("lifecycle"), Some("lifecycle"));
    assert_eq!(resource_stem("bogus"), None);
}

#[test]
fn extract_ts_and_novel_key() {
    let line = r#"{"schema_version":1,"ts":"2026-06-05T11:30:50.000000Z","event":"net.connect-deny","resource":"net"}"#;
    assert_eq!(extract_ts(line).as_deref(), Some("2026-06-05T11:30:50.000000Z"));
    let later = r#"{"schema_version":1,"ts":"2026-06-05T12:00:00.000000Z","event":"net.connect-deny","resource":"net"}"#;
    assert_eq!(novel_key(line), novel_key(later));
    let other = r#"{"schema_version":1,"ts":"2026-06-05T11:30:50.000000Z","event":"net.connect-allow","resource":"net"}"#;
    assert_ne!(novel_key(line), novel_key(other));
    assert_eq!(novel_key("{}"), "{}");
    assert_eq!(extract_ts("{}"), None);
}

#[test]
fn spawn_parent_ctx_parses_the_topology_name() {
    assert_eq!(spawn_parent_ctx("spawn-5-0000000abcde"), Some(5));
    assert_eq!(spawn_parent_ctx("spawn-42-deadbeef0000"), Some(42));
    for top in ["my-agent", "echo-tool", "spawn", "spawnish", "spawn-", "spawn-x-1"] {
        assert_eq!(spawn_parent_ctx(top), None, "`{top}` should have no parent ctx");
    }
}

#[test]
fn topology_nests_spawns_under_their_requester() {
    let ki = |name: &str, ctx: u16| KennelInfo {
        kennel: name.to_owned(),
        ctx,
        pid: 100 + u32::from(ctx),
        running: true,
        attached: false,
    };
    let kennels = vec![
        ki("spawn-7-00000000aaaa", 11),
        ki("agent", 7),
        ki("spawn-99-00000000bbbb", 20),
        ki("builder", 3),
    ];
    let shape: Vec<(&str, &str, bool)> = topology_rows(&kennels)
        .iter()
        .map(|(k, p, o)| (kennels[*k].kennel.as_str(), *p, *o))
        .collect();
    assert_eq!(
        shape,
        vec![
            ("builder", "", false),
            ("agent", "", false),
            ("spawn-7-00000000aaaa", "└─ ", false),
            ("spawn-99-00000000bbbb", "", true),
        ],
        "roots sorted by ctx, spawn nested under its parent, orphan flagged at root"
    );
}

#[test]
fn signature_strip_finds_the_appended_block() {
    let body = "template_name = \"t\"\n# a comment kept\n[exec]\nallow = []\n";
    let signed = format!(
        "{body}\n[signature]\nalgorithm = \"sshsig\"\nkey_id = \"k\"\nsignature = \"s\"\n"
    );
    let stripped = strip_signature(&signed).expect("finds the block");
    let doc: std::collections::BTreeMap<String, serde_json::Value> =
        basic_toml::from_str(&stripped).expect("parses");
    assert!(!doc.contains_key("signature"));
    assert_eq!(doc.get("template_name").and_then(|v| v.as_str()), Some("t"));
    assert!(stripped.contains("# a comment kept"));
}

#[test]
fn lock_pinning_matches_only_referenced_templates() {
    let source = "/keys/myjob/policy.toml";
    let pinned = owned(&["base-x"]);
    let hit = lock_pinning(source, Some(&pinned), &["base-x".to_owned()]);
    assert!(hit.is_some(), "pins base-x");
    let miss = lock_pinning(source, Some(&pinned), &["other".to_owned()]);
    assert!(miss.is_none(), "pins nothing re-signed");
    assert!(lock_pinning(source, Some(&pinned), &[]).is_none(), "no re-signs, no work");
}

fn trust(name: &str, key: Option<&[u8]>) -> TrustFile {
    TrustFile { name: name.to_owned(), key: key.map(<[u8]>::to_vec) }
}

#[test]
fn resolve_key_id_matches_openssh_only() {
    let stores = vec![vec![trust("maintainer.pub", Some(&[1; 32])), trust("legacy.pub", None)]];
    assert_eq!(resolve_key_id(&stores, &[1; 32]).as_deref(), Some("maintainer"));
    assert_eq!(resolve_key_id(&stores, &[2; 32]), None);
    assert_eq!(resolve_key_id(&stores, &[3; 32]), None);
}

#[test]
fn legacy_pub_refused_with_migration_pointer() {
    let err = refused_public_key("/t/old.pub", false, true).expect("refused");
    assert!(err.contains("raw-base64"), "names the format: {err}");
    assert!(err.contains("kennel keygen"), "names the migration: {err}");
}

#[test]
fn garbage_pub_refused_without_migration_pointer() {
    let err = refused_public_key("/t/junk.pub", false, false).expect("refused");
    assert!(err.contains("not an OpenSSH"), "plain parse error: {err}");
    assert!(!err.contains("raw-base64"), "no false migration hint: {err}");
    assert_eq!(refused_public_key("/t/good.pub", true, false), None);
}

#[test]
fn key_id_comes_from_trust_store_not_filename() {
    let stores = vec![vec![trust("release-key.pub", Some(&[7; 32]))]];
    assert_eq!(resolve_key_id(&stores, &[7; 32]).as_deref(), Some("release-key"));
}

#[test]
fn stripping_undoes_signing() {
    let body = "template_name = \"t\"\n[exec]\nallow = []\n";
    let signed = format!("{body}{}", signature_block("k", "-----BEGIN\nx\n-----END\n"));
    let stripped = strip_signature(&signed).expect("signed");
    assert_eq!(stripped.trim_end(), body.trim_end());
    assert!(strip_signature(body).is_err());
}

const TABLE: [CommandSpec; 2] = [
    CommandSpec { name: "run", summary: "run", usage: "run <policy> <name>" },
    CommandSpec { name: "list", summary: "list", usage: "list" },
];

fn gone(u: Unit, list: &[&str]) -> String {
    match route(u, &owned(list), &TABLE) {
        Ok(Route::Help) => "help".to_owned(),
        Ok(Route::Usage(t)) => format!("usage {t}"),
        Ok(Route::Verb(v)) => format!("verb {v}"),
        Err(e) => format!("error {e}"),
    }
}

#[test]
fn command_lines_go_where_they_should() {
    assert_eq!(gone(Unit::Host, &[]), "help");
    assert_eq!(gone(Unit::Policy, &["--help"]), "help");
    assert_eq!(gone(Unit::Host, &["run", "--help"]), "usage usage: kennel run <policy> <name>");
    assert_eq!(gone(Unit::Host, &["policy", "run", "-h"]), "verb policy");
    assert_eq!(gone(Unit::Host, &["audit", "-h"]), "verb audit");
    assert_eq!(
        gone(Unit::RunTool, &["stop", "-h"]),
        "usage unknown command `stop` — run `kennel --help`"
    );
    assert_eq!(gone(Unit::Policy, &["inspect"]), "verb inspect");
    assert_eq!(gone(Unit::PolicyTool, &["upgrade"]), "verb upgrade");
    assert_eq!(
        gone(Unit::PolicyTool, &["inspect"]),
        "error unknown policy verb `inspect` — run `kennel policy --help`"
    );
    assert_eq!(gone(Unit::MiscTool, &["subkennel"]), "verb subkennel");
    assert_eq!(
        gone(Unit::Host, &["subkennel"]),
        "error unknown command `subkennel` — run `kennel --help`"
    );
}
