use kennel::cli::oci::{
    build_args, build_refusal, derive_closure_readonly, derived_lock, dispatch, entry_refusal,
    fetch_plan, fetched, fetching_text, finish_build, finish_update, list_upper, no_upper_text,
    preserve_closure, read_image_user, refuse_if_running, render_rootfs_block, restored_line,
    revert_args, reverted_all_text, reverted_text, rewrite_oci_policy, run_args, sanitize_rel,
    scaffold_policy, store_root, toml_quote, update_args, update_baseline, upper_mark, validate_name,
    wanted_image, Baseline, ImageTable, Restored, RootfsRender, Store, UpperKind, Verb, FETCH_SCRIPT,
};

fn owned(v: &[&str]) -> Vec<String> {
    v.iter().map(|s| (*s).to_owned()).collect()
}

#[test]
fn names_must_be_safe_single_components() {
    for bad in ["", ".", "..", "a/b", "a\\b", "/abs", ".hidden", "x\ty", "x y", "a\nb"] {
        assert!(validate_name(bad).is_err(), "`{bad}` should be rejected");
    }
    for ok in ["my-app", "app_1", "node20", "a.b.c"] {
        assert!(validate_name(ok).is_ok(), "`{ok}` should be accepted");
    }
}

#[test]
fn entry_paths_are_derived_under_the_root() {
    let store = Store::at("/store".to_owned());
    let e = store.entry("my-app").expect("valid name");
    assert_eq!(e.dir(), "/store/my-app");
    assert_eq!(e.rootfs(), "/store/my-app/rootfs");
    assert_eq!(e.config(), "/store/my-app/config.json");
    assert_eq!(e.digest_path(), "/store/my-app/digest");
    assert_eq!(e.policy(), "/store/my-app/policy.toml");
}

#[test]
fn entry_rejects_a_traversing_name() {
    let store = Store::at("/store".to_owned());
    assert!(store.entry("../escape").is_err());
}

#[test]
fn digest_round_trips() {
    let e = Store::at("/store".to_owned()).entry("img").expect("name");
    let text = e.write_digest("ghcr.io/o/a@sha256:abc");
    assert_eq!(e.read_digest(&text), "ghcr.io/o/a@sha256:abc");
    assert_eq!(e.write_digest("  x \n"), "x\n");
}

#[test]
fn scaffold_contains_the_loud_grant_fields() {
    let p = scaffold_policy(
        "my-app",
        "/store/my-app/rootfs",
        "ghcr.io/o/a@sha256:abc",
        &["/usr".to_owned(), "/lib".to_owned()],
    );
    assert!(p.contains("[rootfs]"));
    assert!(p.contains("/store/my-app/rootfs"));
    assert!(p.contains("ghcr.io/o/a@sha256:abc"));
    assert!(p.contains("reason ="));
    assert!(p.contains("name = \"my-app\""));
    assert!(p.contains("readonly = [\"/usr\", \"/lib\"]"));
}

#[test]
fn closure_derives_for_nonroot_user_only() {
    for u in ["1000", "1000:1000", "app", "app:app"] {
        let ro = derive_closure_readonly(Some(u));
        assert!(ro.contains(&"/usr".to_owned()), "{u} should lock /usr");
        assert!(ro.contains(&"/lib".to_owned()));
    }
    for u in [Some("0"), Some("root"), Some("0:0"), Some("  "), None] {
        assert!(derive_closure_readonly(u).is_empty(), "{u:?} should not lock");
    }
}

#[test]
fn scaffold_all_root_emits_a_commented_lock_hint() {
    let p = scaffold_policy("a", "/s/a/rootfs", "img@sha256:x", &[]);
    assert!(p.contains("# readonly ="), "all-root scaffold should hint, not lock");
    assert!(!p.contains("\nreadonly ="), "all-root scaffold must not emit a live lock");
}

const SIGNED_OCI_POLICY: &str = "\
name = \"my-app\"
template_base = \"base-confined@v1\"

[rootfs]
path   = \"/store/my-app/rootfs\"
image  = \"ghcr.io/o/a@sha256:OLD\"
reason = \"vendored app image\"
readonly = [\"/usr\", \"/lib\", \"/opt/app\"]
writable = [\"/usr/lib/python3.12\"]

# operator note: this app needs egress to the model API
[env]
deny = [\"LD_*\"]

[signature]
algorithm = \"ed25519\"
key_id = \"kennel-maint-2026\"
signature = \"abc123\"
";

fn render() -> RootfsRender {
    RootfsRender {
        path: "/store/my-app/rootfs".to_owned(),
        image: "ghcr.io/o/a@sha256:NEW".to_owned(),
        reason: Some("vendored app image".to_owned()),
        persistence: None,
        readonly: vec!["/opt/app".to_owned()],
        writable: vec!["/usr/lib/python3.12".to_owned()],
    }
}

#[test]
fn update_rewrite_preserves_carveouts_other_sections_and_clears_signature() {
    let out = rewrite_oci_policy(SIGNED_OCI_POLICY, &render()).expect("rewrite");
    assert!(out.contains("ghcr.io/o/a@sha256:NEW"));
    assert!(!out.contains("sha256:OLD"));
    assert!(!out.contains("[signature]"), "signature must be cleared");
    assert!(!out.contains("kennel-maint-2026"));
    assert!(out.contains("\"/opt/app\""), "operator readonly preserved");
    assert!(out.contains("\"/usr/lib/python3.12\""), "writable preserved");
    assert!(!out.contains("\"/usr\""), "old base /usr re-derived away");
    assert!(out.contains("# operator note: this app needs egress to the model API"));
    assert!(out.contains("[env]\ndeny = [\"LD_*\"]"));
    let doc: std::collections::BTreeMap<String, serde_json::Value> =
        basic_toml::from_str(&out).expect("reparse");
    assert!(!doc.contains_key("signature"));
    let rf = doc.get("rootfs").expect("rootfs");
    assert_eq!(rf.get("image").and_then(|v| v.as_str()), Some("ghcr.io/o/a@sha256:NEW"));
    let list = |k: &str| {
        rf.get(k)
            .and_then(|v| v.as_array())
            .map(|a| a.iter().filter_map(|x| x.as_str()).map(str::to_owned).collect::<Vec<_>>())
    };
    assert_eq!(list("readonly"), Some(owned(&["/opt/app"])));
    assert_eq!(list("writable"), Some(owned(&["/usr/lib/python3.12"])));
}

#[test]
fn sanitize_rel_strips_root_and_refuses_escape() {
    assert_eq!(sanitize_rel("/etc/hostname").expect("test setup"), "etc/hostname");
    assert_eq!(sanitize_rel("etc/./hostname").expect("test setup"), "etc/hostname");
    for bad in ["../x", "/etc/../../x", "a/../../b", ".."] {
        assert!(sanitize_rel(bad).is_err(), "`{bad}` must be refused");
    }
    for empty in ["/", "", "."] {
        assert!(sanitize_rel(empty).is_err(), "`{empty}` must be refused");
    }
}

#[test]
fn walk_upper_classifies_copyups_and_whiteouts() {
    assert_eq!(upper_mark(UpperKind::Other), Some("M"));
    assert_eq!(upper_mark(UpperKind::Directory), None);
    assert_eq!(upper_mark(UpperKind::Device(0)), Some("D"));
    assert_eq!(upper_mark(UpperKind::Device(259)), Some("M"));
    let changes = vec![
        ("/opt/app/data".to_owned(), "M".to_owned()),
        ("/etc/hostname".to_owned(), "M".to_owned()),
        ("/etc/alias".to_owned(), "M".to_owned()),
    ];
    assert_eq!(
        list_upper("img", &changes),
        owned(&[
            "kennel: persisted changes in `img` (the diff against the image pin):",
            "  M /etc/alias",
            "  M /etc/hostname",
            "  M /opt/app/data",
            "  restore some: kennel oci revert img -- <path>…    all: kennel oci revert img",
        ])
    );
}

#[test]
fn update_rewrite_all_root_image_emits_commented_lock() {
    let render = RootfsRender {
        path: "/s/a/rootfs".to_owned(),
        image: "img@sha256:x".to_owned(),
        reason: None,
        persistence: None,
        readonly: Vec::new(),
        writable: Vec::new(),
    };
    let block = render_rootfs_block(&render);
    assert!(block.contains("# readonly ="), "all-root ⇒ commented hint");
    assert!(!block.contains("\nreadonly ="), "no live lock line");
}

#[test]
fn store_lies_below_the_data_directory() {
    assert_eq!(store_root(Some("/x"), Some("/h")), Ok("/x/kennel/images".to_owned()));
    assert_eq!(
        store_root(Some(""), Some("/h")),
        Ok("/h/.local/share/kennel/images".to_owned())
    );
    assert_eq!(
        store_root(None, Some("")),
        Err("neither XDG_DATA_HOME nor HOME is set; cannot locate the image store".to_owned())
    );
    assert_eq!(Store::open(Some("/x"), None).expect("open").root(), "/x/kennel/images");
    assert!(Store::open(None, None).is_err());
    let e = Store::at("/s".to_owned()).entry("a").expect("entry");
    assert!(e.is_built(&|p: &str| p == "/s/a/rootfs"));
    assert_eq!((e.upper(), e.work()), ("/s/a/upper".to_owned(), "/s/a/work".to_owned()));
}

#[test]
fn faults_of_names_are_told() {
    for (name, message) in [
        ("", "image name is empty"),
        ("..", "image name `..` is not a valid entry"),
        ("a/b", "image name `a/b` must be a single path component (no `/`)"),
        ("a\tb", "image name `a\tb` contains control or whitespace characters"),
        (".x", "image name `.x` must not start with `.`"),
    ] {
        assert_eq!(validate_name(name), Err(message.to_owned()));
    }
}

#[test]
fn user_is_read_from_the_configuration() {
    let config: &[u8] = br#"{"config":{"User":"1000:1000","Env":[]}}"#;
    assert_eq!(read_image_user(Some(config)), Some("1000:1000".to_owned()));
    assert_eq!(read_image_user(Some(br#"{"config":{"User":7}}"#)), None);
    assert_eq!(read_image_user(Some(br#"{"User":"x"}"#)), None);
    assert_eq!(read_image_user(Some(b"no json")), None);
    assert_eq!(read_image_user(None), None);
    assert_eq!(derived_lock(Some(config)).len(), 7);
    assert!(derived_lock(None).is_empty());
}

#[test]
fn carve_outs_outlive_an_update() {
    assert_eq!(
        preserve_closure(
            &owned(&["/usr", "/opt/app", "/lib", "/opt/app", "/srv"]),
            &owned(&["/usr", "/lib"]),
            &owned(&["/srv", "/bin"]),
        ),
        owned(&["/srv", "/bin", "/opt/app"])
    );
}

#[test]
fn array_tables_behind_the_root_are_kept() {
    let policy = "[rootfs]\npath = \"/r\"\nreadonly = [\n\"/usr\",\n]\n# about reads\n[[fs.read.add]]\npath = \"~/p/**\"\r\nreason = \"r\"\n[signature]\nkey_id = \"k\"\n[env]\ndeny = []\n\n";
    let out = rewrite_oci_policy(policy, &render()).expect("rewrite");
    assert!(out.ends_with(
        "# about reads\n[[fs.read.add]]\npath = \"~/p/**\"\r\nreason = \"r\"\n[env]\ndeny = []\n"
    ), "{out}");
    assert!(!out.contains("key_id"));
    assert!(!out.contains("\"/usr\","));
    assert_eq!(
        rewrite_oci_policy("name = \"x\"\n", &render()),
        Err("the policy has no [rootfs] table to rewrite".to_owned())
    );
}

#[test]
fn a_value_with_line_ends_takes_several_rows() {
    let r = RootfsRender {
        path: "/r".to_owned(),
        image: "i".to_owned(),
        reason: Some("one\r\ntwo\n[signature]\nthree".to_owned()),
        persistence: None,
        readonly: Vec::new(),
        writable: Vec::new(),
    };
    let out = rewrite_oci_policy("[rootfs]\npath = \"/o\"\n[env]\ndeny = []\n", &r).expect("rewrite");
    assert!(out.contains("reason = \"one\ntwo\n[env]\ndeny = []\n"), "{out}");
    assert!(!out.contains("three"));
}

#[test]
fn an_entry_lies_in_its_store() {
    for root in ["/store", "/store//", "s/./", "."] {
        let store = Store::at(root.to_owned());
        let e = store.entry("x").expect("entry");
        let dir = std::path::Path::new(e.dir());
        assert_eq!(dir.parent(), Some(std::path::Path::new(root)), "{root}");
    }
}

#[test]
fn values_are_quoted() {
    assert_eq!(toml_quote("a\"b\\c"), "\"a\\\"b\\\\c\"");
    let block = render_rootfs_block(&RootfsRender {
        persistence: Some("persist".to_owned()),
        reason: None,
        ..render()
    });
    assert_eq!(
        block,
        "[rootfs]\n# Regenerated by `kennel oci update`: closure-lock re-derived from the new image, operator\n# carve-outs preserved (§7.11.4c). Review the diff, then re-sign.\npath   = \"/store/my-app/rootfs\"\nimage  = \"ghcr.io/o/a@sha256:NEW\"\nreason = \"TODO: why this image is trusted\"\nreadonly = [\"/opt/app\"]   # closure-lock (build-derived + preserved carve-outs, §7.11.4c)\npersistence = \"persist\"\nwritable = [\"/usr/lib/python3.12\"]   # operator carve-out, preserved\n"
    );
}

#[test]
fn update_rederives_and_reports() {
    let base = Baseline {
        old_image: "old".to_owned(),
        old_readonly: owned(&["/usr", "/opt/app"]),
        writable: owned(&["/usr/lib/x"]),
        reason: Some("why".to_owned()),
        persistence: None,
        path: "/s/a/rootfs".to_owned(),
        old_base: owned(&["/usr"]),
    };
    let u = finish_update("a", "/s/a/policy.toml", SIGNED_OCI_POLICY, &base, "new@sha256:1", None, true)
        .expect("update");
    assert!(u.policy.contains("image  = \"new@sha256:1\""));
    assert!(u.policy.contains("readonly = [\"/opt/app\"]"));
    assert_eq!(
        u.lines,
        owned(&[
            "kennel: kept the persisted upper for `a` — review for a rebase hazard against the new image",
            "kennel: updated `a`",
            "  image:  old",
            "       -> new@sha256:1",
            "  closure-lock (readonly):",
            "    - /usr",
            "  writable carve-outs preserved: /usr/lib/x",
            "  signature CLEARED — review the policy and re-sign:",
            "    kennel policy sign /s/a/policy.toml --key <key>",
        ])
    );
    let same = Baseline {
        old_readonly: Vec::new(),
        old_base: Vec::new(),
        writable: Vec::new(),
        ..base
    };
    let u = finish_update("a", "/p", SIGNED_OCI_POLICY, &same, "n", None, false).expect("update");
    assert_eq!(u.lines[3], "  closure-lock (readonly): unchanged");
    assert!(finish_update("a", "/p", "", &same, "n", None, false).is_err());
}

#[test]
fn build_writes_a_policy_once() {
    let e = Store::at("/s".to_owned()).entry("a").expect("entry");
    let b = finish_build(&e, "a", "img@sha256:1", None, false, false);
    let p = b.policy.expect("policy");
    assert!(p.contains("image  = \"img@sha256:1\""));
    assert!(p.contains("\"TMPDIR\""));
    assert_eq!(b.lines[0], "kennel: built store entry `a` at /s/a");
    assert_eq!(
        b.lines[2],
        "  policy: /s/a/policy.toml (complete `reason`, then `kennel policy sign`)"
    );
    assert!(finish_build(&e, "a", "i", None, true, false).policy.is_none());
    assert!(finish_build(&e, "a", "i", None, true, true).policy.is_some());
    let doc: std::collections::BTreeMap<String, serde_json::Value> =
        basic_toml::from_str(&p).expect("the scaffold is TOML");
    assert_eq!(doc.get("name").and_then(|v| v.as_str()), Some("a"));
}

#[test]
fn fetch_writes_the_entry_alone() {
    let f = fetch_plan("a", "/home/u/.local/share/kennel/images/a", "/home/u", "img");
    assert_eq!(
        f.leaf,
        "name = \"a-fetch\"\ntemplate_base = \"oci-fetch@v1\"\n[fs]\nwrite = [\"~/.local/share/kennel/images/a\"]\n"
    );
    assert_eq!(f.instance, "a-fetch");
    assert_eq!(f.argv[2], FETCH_SCRIPT);
    assert_eq!(f.argv[4], "img");
    assert_eq!(f.argv[5], "/home/kennel/.local/share/kennel/images/a");
    let f = fetch_plan("a", "/data/a", "/home/u", "img");
    assert!(f.leaf.contains("write = [\"/data/a\"]"));
    assert_eq!(f.argv[5], "/data/a");
    let f = fetch_plan("a", "/home/u/data//x/a/", "/home/./u/", "img");
    assert_eq!(f.argv[5], "/home/kennel/data//x/a");
    let f = fetch_plan("a", "h/.local/a", "h", "img");
    assert!(f.leaf.contains("write = [\"~/.local/a\"]"), "{}", f.leaf);
    let f = fetch_plan("a", "/data/a", "", "img");
    assert_eq!(f.argv[5], "/data/a");
    assert_eq!(fetching_text("i"), "kennel: fetching `i` confined under oci-fetch@v1 …");
    assert!(fetched("a", true, true, true, "").is_ok());
    assert_eq!(
        fetched("a", true, false, true, " denied \n"),
        Err("the confined fetch did not populate `a` — denied".to_owned())
    );
    assert!(fetched("a", false, true, true, "").expect_err("hint").contains("skopeo/umoci failed"));
}

#[test]
fn verbs_and_arguments_are_read() {
    assert_eq!(dispatch(&owned(&["build", "x"])), Ok(Verb::Build));
    assert_eq!(dispatch(&owned(&["run"])), Ok(Verb::Run));
    assert_eq!(dispatch(&owned(&["revert"])), Ok(Verb::Revert));
    assert_eq!(dispatch(&owned(&["update"])), Ok(Verb::Update));
    assert_eq!(dispatch(&[]), Err("usage: kennel oci <build|run> <name> [...]".to_owned()));
    assert_eq!(
        dispatch(&owned(&["push"])),
        Err("unknown `kennel oci` verb `push` (expected build|run|revert|update)".to_owned())
    );
    let a = build_args(&owned(&["a", "--image", "i", "--force", "--key", "k", "--trust-dir", "/t"]))
        .expect("build");
    assert_eq!((a.name.as_str(), a.force, a.no_fetch), ("a", true, false));
    assert_eq!(wanted_image(&a), Ok("i".to_owned()));
    let a = build_args(&owned(&["a"])).expect("build");
    assert_eq!(
        wanted_image(&a),
        Err("`kennel oci build` needs --image <ref> (the image[@sha256] to pull)".to_owned())
    );
    assert_eq!(
        build_args(&owned(&["a", "b"])).expect_err("extra"),
        "unexpected extra argument"
    );
    let (a, image) =
        update_args(&owned(&["a", "--keep-state", "--", "img", "more"])).expect("update");
    assert!(a.keep_state && !a.no_fetch);
    assert_eq!(image, "img");
    assert_eq!(
        update_args(&owned(&["a"])).expect_err("image"),
        "`kennel oci update` needs `-- <new-image-ref>`"
    );
    let (a, paths) = revert_args(&owned(&["a", "--", "/etc/x", "--list"])).expect("revert");
    assert!(!a.list);
    assert_eq!(paths, owned(&["/etc/x", "--list"]));
    assert_eq!(
        revert_args(&owned(&["--bogus"])).expect_err("flag"),
        "unknown flag `--bogus`"
    );
    let (a, command) = run_args(&owned(&["a", "--force", "--", "sh"])).expect("run");
    assert!(a.force);
    assert_eq!(command, owned(&["sh"]));
    assert!(run_args(&[]).expect_err("usage").starts_with("usage: kennel oci run"));
}

#[test]
fn refusals_name_the_entry() {
    let e = Store::at("/s".to_owned()).entry("a").expect("entry");
    assert!(refuse_if_running("a", &owned(&["b"])).is_ok());
    assert_eq!(
        refuse_if_running("a", &owned(&["b", "a"])),
        Err("kennel `a` is running; stop it (`kennel stop a`) before this operation".to_owned())
    );
    assert!(build_refusal(&e, "a", true, true).is_ok());
    assert_eq!(
        build_refusal(&e, "a", true, false),
        Err("store entry `a` already exists at /s/a; pass --force to overwrite".to_owned())
    );
    assert!(entry_refusal(&e, Verb::Run, "a", true).is_ok());
    assert_eq!(
        entry_refusal(&e, Verb::Run, "a", false),
        Err("store entry `a` is not built (no rootfs at /s/a/rootfs); run `kennel oci build a …` first".to_owned())
    );
    assert_eq!(
        entry_refusal(&e, Verb::Revert, "a", false),
        Err("store entry `a` is not built".to_owned())
    );
    assert_eq!(
        entry_refusal(&e, Verb::Update, "a", false),
        Err("store entry `a` does not exist; use `kennel oci build a` to create it".to_owned())
    );
}

#[test]
fn restorations_are_told() {
    assert_eq!(restored_line("etc/x", Restored::Removed), "  restored /etc/x to the image");
    assert_eq!(
        restored_line("etc/x", Restored::Absent),
        "  /etc/x is not persisted (already at the image) — skipped"
    );
    assert_eq!(
        reverted_text("a", &[Restored::Removed, Restored::Absent, Restored::Removed]),
        "kennel: reverted 2 path(s) in `a` toward the image pin"
    );
    assert_eq!(
        reverted_all_text("a"),
        "kennel: reverted the entire persisted upper for `a` (mutable state cleared)"
    );
    assert!(no_upper_text("a", true, false).ends_with("nothing persisted"));
    assert!(no_upper_text("a", false, true).starts_with("`a`"));
    assert!(no_upper_text("a", false, false).starts_with("kennel: `a`"));
    assert_eq!(
        list_upper("a", &[]),
        owned(&["kennel: `a` upper is empty — the merged root equals the image"])
    );
}

#[test]
fn a_quoted_value_reads_back() {
    for s in ["plain", "a \"b\" c", "back\\slash", "\\\"", "tail\\", ""] {
        let doc: std::collections::BTreeMap<String, String> =
            basic_toml::from_str(&format!("x = {}", kennel::cli::oci::toml_quote(s)))
                .expect("toml");
        assert_eq!(doc.get("x").map(String::as_str), Some(s));
    }
}

#[test]
fn an_update_is_held_against_the_policys_table() {
    let e = Store::at("/s".to_owned()).entry("a").expect("entry");
    let bare = ImageTable {
        path: None,
        image: None,
        reason: None,
        persistence: None,
        readonly: None,
        writable: None,
    };
    let b = update_baseline("/s/a/policy.toml", Some(bare), &e, None).ok().expect("baseline");
    assert_eq!((b.old_image.as_str(), b.path.as_str()), ("", "/s/a/rootfs"));
    assert!(b.old_readonly.is_empty() && b.writable.is_empty() && b.old_base.is_empty());
    assert!(b.reason.is_none() && b.persistence.is_none());
    let full = ImageTable {
        path: Some("/p".to_owned()),
        image: Some("i".to_owned()),
        reason: Some("why".to_owned()),
        persistence: Some("persist".to_owned()),
        readonly: Some(owned(&["/usr"])),
        writable: Some(owned(&["/usr/x"])),
    };
    let config = br#"{"config":{"User":"app"}}"#;
    let b = update_baseline("/p", Some(full), &e, Some(config)).ok().expect("baseline");
    assert_eq!((b.old_image.as_str(), b.path.as_str()), ("i", "/p"));
    assert_eq!((b.reason.as_deref(), b.persistence.as_deref()), (Some("why"), Some("persist")));
    assert_eq!((b.old_readonly, b.writable), (owned(&["/usr"]), owned(&["/usr/x"])));
    assert_eq!(b.old_base, derived_lock(Some(config)));
    assert_eq!(
        update_baseline("/s/a/policy.toml", None, &e, None).err().expect("e"),
        "/s/a/policy.toml has no [rootfs] — not an OCI entry"
    );
}
