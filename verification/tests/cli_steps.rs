use kennel::cli::ceremony::{InstallFacts, Provided, SignStep, SourceMeta, Tier};
use kennel::cli::compile::{self, Fault};
use kennel::cli::install::{
    after_key, after_write, clone_object, clone_text, install_end, install_object, sign_list, KeyTurn,
};
use kennel::cli::key::{rotation_plan, RefKind, SignedRef};
use kennel::cli::keygen::{
    fingerprint_text, key_dir_mode, keygen_list, pinned_half, sign_command, ssh_key, trusted_text,
    untrusted_lines,
};
use kennel::cli::policy::{compile_output, CompileArgs, House, InstallArgs};
use kennel::cli::rotation::{
    after_stage, retired_line, retired_refusal, stage_move, Cascade, Job, Stage, Turn,
};
use kennel::cli::session::{
    answered_text, attached_filter, control_step, exited, fault, launched, session_end,
    started_filter, Answer, Control, Reply, SessionEnd,
};
use kennel::cli::shared::PolicyErrorKind;
use kennel::cli::signed::{
    descends, file_refs, settled_lock, template_ref, template_source, FoundFile,
};
use std::collections::BTreeMap;

fn owned(v: &[&str]) -> Vec<String> {
    v.iter().map(|s| (*s).to_owned()).collect()
}

// ---- rotation ------------------------------------------------------------------

/// Runs the stages on a store of files, with the one at `failing` failing.
fn rotate_store(failing: Option<Stage>) -> (BTreeMap<String, &'static str>, Result<(), String>) {
    let mut store = BTreeMap::new();
    store.insert("/k/n".to_owned(), "key");
    store.insert("/k/n.pub".to_owned(), "public");
    let mut stage = Stage::RetireKey;
    loop {
        let outcome = if failing == Some(stage) {
            Err("no".to_owned())
        } else {
            if let Some(m) = stage_move(stage, "/k", "n") {
                let half = store.remove(&m.from).expect("it is there");
                store.insert(m.to, half);
            }
            Ok(())
        };
        match after_stage(stage, &outcome, "/k", "n") {
            Turn::Go(next) => stage = next,
            Turn::Minted => return (store, Ok(())),
            Turn::Stop(back, message) => {
                for m in back {
                    let half = store.remove(&m.from).expect("it is there");
                    store.insert(m.to, half);
                }
                return (store, Err(message));
            }
        }
    }
}

#[test]
fn a_failed_rotation_restores_the_pair() {
    let before = BTreeMap::from([("/k/n".to_owned(), "key"), ("/k/n.pub".to_owned(), "public")]);
    let cases = [
        (Stage::RetireKey, "retiring /k/n: no"),
        (Stage::RetirePublic, "retiring /k/n.pub: no"),
        (Stage::Mint, "minting the successor failed (no); old key restored"),
    ];
    for (stage, message) in cases {
        let (store, end) = rotate_store(Some(stage));
        assert_eq!(store, before);
        assert_eq!(end, Err(message.to_owned()));
    }
}

#[test]
fn a_successor_meets_no_old_half() {
    let (store, end) = rotate_store(None);
    assert_eq!(end, Ok(()));
    let want = BTreeMap::from([
        ("/k/n.retired".to_owned(), "key"),
        ("/k/n.pub.retired".to_owned(), "public"),
    ]);
    assert_eq!(store, want);
    assert_eq!(retired_refusal("/k", "n", false, false), None);
    assert_eq!(
        retired_refusal("/k", "n", false, true),
        Some(
            "a previous rotation's retired pair is still at /k/n.retired — remove it first"
                .to_owned()
        )
    );
    assert_eq!(
        retired_line("/k", "n"),
        "old key retired to /k/n.retired / /k/n.pub.retired — remove both once nothing needs forensics"
    );
}

fn signed(kind: RefKind, name: &str, source: Option<&str>) -> SignedRef {
    SignedRef {
        kind,
        name: name.to_owned(),
        path: format!("/p/{name}"),
        tier: "user".to_owned(),
        key_id: "k".to_owned(),
        source: source.map(str::to_owned),
        locked: false,
    }
}

#[test]
fn a_cascade_takes_up_the_plan_and_counts_failures() {
    let refs = vec![
        signed(RefKind::Settled, "s", Some("/src/s")),
        signed(RefKind::Template, "a", None),
        signed(RefKind::Template, "b", None),
        signed(RefKind::Settled, "u", Some("/src/u")),
    ];
    let plan = rotation_plan(&refs, "k", "user");
    let mut c = Cascade::new();
    assert_eq!(c.job(&plan), Job::Sign(1));
    assert_eq!(c.went(&refs, &plan, &Ok(())), Some("re-signed template /p/a".to_owned()));
    assert_eq!(c.job(&plan), Job::Sign(2));
    assert_eq!(
        c.went(&refs, &plan, &Err("why".to_owned())),
        Some("FAILED to re-sign /p/b: why".to_owned())
    );
    assert_eq!(c.resigned, owned(&["a"]));
    assert_eq!(c.job(&plan), Job::Compile(0));
    assert_eq!(c.went(&refs, &plan, &Ok(())), Some("recompiled /p/s".to_owned()));
    assert_eq!(c.job(&plan), Job::Compile(3));
    assert_eq!(
        c.went(&refs, &plan, &Err(String::new())),
        Some("FAILED to recompile /src/u".to_owned())
    );
    assert_eq!(c.job(&plan), Job::Done);
    assert_eq!(c.went(&refs, &plan, &Err("late".to_owned())), None);
    assert_eq!(c.failures, 2);
    assert_eq!(c.resigned, owned(&["a"]));
}

// ---- what carries signatures ---------------------------------------------------

fn found(file: &str, key: Option<&str>, pins: Option<&[(&str, &str)]>) -> FoundFile {
    FoundFile {
        file: file.to_owned(),
        path: format!("/d/{file}"),
        tier: "host".to_owned(),
        key_id: key.map(str::to_owned),
        pins: pins.map(|p| {
            p.iter()
                .map(|(a, b)| ((*a).to_owned(), (*b).to_owned()))
                .collect()
        }),
        source: Some("/src".to_owned()),
        locked: true,
    }
}

#[test]
fn references_name_a_key() {
    let r = file_refs(&found("web.settled.toml", Some("k"), None));
    assert_eq!(r.len(), 1);
    assert_eq!(r[0].kind, RefKind::Settled);
    assert_eq!(r[0].name, "web");
    assert_eq!(r[0].path, "/d/web.settled.toml");
    assert_eq!(r[0].key_id, "k");
    assert_eq!(r[0].source, Some("/src".to_owned()));
    assert!(r[0].locked);
    assert!(file_refs(&found("web.settled.toml", Some(""), None)).is_empty());
    assert!(file_refs(&found("web.settled.toml", None, Some(&[("t", "k")]))).is_empty());
    assert!(file_refs(&found("policy.toml", Some("k"), Some(&[("t", "k")]))).is_empty());

    let r = file_refs(&found("web.lock", Some("x"), Some(&[("a", "k"), ("b", ""), ("c", "l")])));
    let names: Vec<&str> = r.iter().map(|x| x.name.as_str()).collect();
    assert_eq!(names, ["web → a", "web → c"]);
    assert!(r.iter().all(|x| x.kind == RefKind::LockPin && !x.locked && x.source.is_none()));
    assert_eq!(r[1].key_id, "l");
}

#[test]
fn templates_are_found_in_both_forms() {
    assert_eq!(template_source("/t/base", true), Some("/t/base/policy.toml".to_owned()));
    assert_eq!(template_source("/t/base.toml", false), Some("/t/base.toml".to_owned()));
    assert_eq!(template_source("/t/base.lock", false), None);
    assert_eq!(template_source("/t/base", false), None);
    let key = Some("k".to_owned());
    let n = Some("n".to_owned());
    let t = Some("t".to_owned());
    let title = |a: &Option<String>, b: &Option<String>| {
        template_ref("/t/x", "vendor", &key, a, b).map(|r| r.name)
    };
    assert_eq!(title(&t, &n), Some("t".to_owned()));
    assert_eq!(title(&None, &n), Some("n".to_owned()));
    assert_eq!(title(&None, &None), Some("?".to_owned()));
    assert!(template_ref("/t/x", "vendor", &None, &t, &n).is_none());
    assert!(descends(0) && descends(1) && !descends(2));
    assert_eq!(settled_lock("/d/web/web.settled.toml", "web"), Some("/d/web/web.lock".to_owned()));
}

// ---- installing and cloning ----------------------------------------------------

fn facts(provides: Vec<Provided>) -> InstallFacts {
    InstallFacts {
        settled: false,
        source: Ok(SourceMeta {
            template_name: None,
            name: Some("n".to_owned()),
            leaf: true,
            provides,
        }),
        root: false,
        user_key_dir: Some("/h/.config/kennel/keys".to_owned()),
    }
}

fn asked(force: bool) -> InstallArgs {
    InstallArgs {
        file: "f.toml".to_owned(),
        host: false,
        force,
        key: None,
    }
}

#[test]
fn a_failed_install_adds_nothing() {
    let f = facts(Vec::new());
    let p = install_object(&asked(false), House::Policy, &f, &|_: &str| false).expect("placed");
    assert_eq!(p.target.dest, "/h/.config/kennel/policies/n");
    assert_eq!(p.placed, "/h/.config/kennel/policies/n/policy.toml");
    assert_eq!(p.step, SignStep::Compile);
    assert!(p.fresh);
    let end = install_end(&p, false, false);
    assert_eq!(end.remove, Some("/h/.config/kennel/policies/n".to_owned()));
    assert_eq!(
        end.lines,
        owned(&["kennel: install rolled back (the sign step failed); /h/.config/kennel/policies/n removed"])
    );
    let end = install_end(&p, false, true);
    assert_eq!(end.remove, None);
    assert_eq!(end.lines.len(), 2);
    assert_eq!(
        end.lines[0],
        "kennel: installed `n` at the user tier (/h/.config/kennel/policies/n)"
    );

    let taken = install_object(&asked(false), House::Policy, &f, &|_: &str| true);
    assert_eq!(
        taken.err(),
        Some(
            "`n` already exists at /h/.config/kennel/policies/n — pass --force to replace it"
                .to_owned()
        )
    );
    let p = install_object(&asked(true), House::Policy, &f, &|_: &str| true).expect("replaced");
    let end = install_end(&p, false, false);
    assert_eq!(end.remove, None);
    assert_eq!(
        end.lines,
        owned(&["kennel: the sign step failed; `n` at /h/.config/kennel/policies/n was replaced but not re-signed — fix and re-run install"])
    );
    let p = install_object(&asked(false), House::Policy, &f, &|_: &str| false).expect("placed");
    assert!(after_write(&p, Ok(())).is_none());
    let (end, m) = after_write(&p, Err("writing: full".to_owned())).expect("stops");
    assert_eq!(m, "writing: full");
    assert_eq!(end.remove, Some("/h/.config/kennel/policies/n".to_owned()));
    assert!(end.lines.is_empty());
    match after_key(&p, false, Ok("k".to_owned())) {
        KeyTurn::Sign(list) => assert_eq!(
            list,
            owned(&["/h/.config/kennel/policies/n/policy.toml", "--key", "k"])
        ),
        KeyTurn::Stop(_, m) => panic!("{m}"),
    }
    match after_key(&p, false, Err("no key".to_owned())) {
        KeyTurn::Sign(list) => panic!("{list:?}"),
        KeyTurn::Stop(end, m) => {
            assert_eq!(m, "no key");
            assert_eq!(end.remove, Some("/h/.config/kennel/policies/n".to_owned()));
            assert_eq!(
                end.lines,
                owned(&["kennel: install rolled back (the sign step failed); /h/.config/kennel/policies/n removed"])
            );
        }
    }
    assert_eq!(sign_list("/d/policy.toml", "k"), owned(&["/d/policy.toml", "--key", "k"]));
}

#[test]
fn a_clone_is_the_source_under_its_name() {
    let source = "# kept\nname = \"n\"\n\n[fs]\nname = \"inner\"\n";
    let c = clone_object(House::Policy, "n", &None, source.as_bytes(), &[]).expect("cloned");
    assert_eq!((c.target.as_str(), c.content.as_str()), ("n", source));
    let new = Some("m".to_owned());
    let c = clone_object(House::Policy, "n", &new, source.as_bytes(), &[]).expect("cloned");
    assert_eq!(c.target, "m");
    assert_eq!(c.content, "# kept\nname = \"m\"\n\n[fs]\nname = \"inner\"\n");
    let c = clone_text(House::Policy, "n", &new, source, &[]).expect("cloned");
    assert_eq!(c.content, "# kept\nname = \"m\"\n\n[fs]\nname = \"inner\"\n");
    let c = clone_object(House::Policy, "n", &None, &[0x61, 0xff, 0x62], &[]).expect("cloned");
    assert_eq!(c.content, "a\u{fffd}b");
    let reserved = [Provided {
        name: "host.x".to_owned(),
        required: Some(Tier::Host),
    }];
    for name in [None, Some("other".to_owned())] {
        assert!(clone_object(House::Policy, "n", &name, source.as_bytes(), &reserved).is_err());
    }
    assert_eq!(
        clone_object(House::Policy, "n", &Some("a/b".to_owned()), source.as_bytes(), &[]).err(),
        Some("`a/b` is not a valid object name".to_owned())
    );
    assert_eq!(
        clone_object(House::Policy, "n", &new, b"[fs]\n", &[]).err(),
        Some("no top-level `name`/`template_name` line to rename".to_owned())
    );
}

// ---- compiling -----------------------------------------------------------------

fn compiling(no_lock: bool, unsigned: bool) -> CompileArgs {
    CompileArgs {
        policy: "p".to_owned(),
        output: None,
        key: None,
        key_id: None,
        unsigned,
        require_signed: false,
        no_lock,
        template_dirs: Vec::new(),
        trust_dirs: Vec::new(),
    }
}

fn stages(no_lock: bool) -> Vec<compile::Stage> {
    let a = compiling(no_lock, false);
    let out = compile_output(&a, "/d/policy.toml", "web");
    let mut stage = compile::Stage::Own;
    let mut seen = vec![stage];
    loop {
        match compile::after_stage(stage, &Ok(()), &a, &out, "web") {
            compile::Turn::Go(next) => {
                stage = next;
                seen.push(next);
            }
            compile::Turn::Done(line) => {
                assert_eq!(line, "compiled `web` -> /d/web.settled.toml");
                return seen;
            }
            other => panic!("unexpected {other:?}"),
        }
    }
}

#[test]
fn a_compilation_goes_in_order() {
    assert_eq!(
        stages(false),
        [
            compile::Stage::Own,
            compile::Stage::Mint,
            compile::Stage::CheckLock,
            compile::Stage::MakeLock,
            compile::Stage::WriteLock,
            compile::Stage::Seal,
            compile::Stage::Write,
        ]
    );
    assert_eq!(
        stages(true),
        [
            compile::Stage::Own,
            compile::Stage::Mint,
            compile::Stage::Seal,
            compile::Stage::Write,
        ]
    );
}

#[test]
fn a_lock_mismatch_ends_a_compilation() {
    let a = compiling(false, true);
    let out = compile_output(&a, "/d/policy.toml", "web");
    let after = |stage, fault| compile::after_stage(stage, &Err(fault), &a, &out, "web");
    assert!(matches!(
        after(compile::Stage::CheckLock, Fault::Refused("differs".to_owned())),
        compile::Turn::Exit(m, 6) if m == "kennel: differs"
    ));
    let cases = [
        (compile::Stage::Own, "kennel: no"),
        (compile::Stage::Mint, "no"),
        (compile::Stage::CheckLock, "reading /d/web.lock: no"),
        (compile::Stage::MakeLock, "lockfile: no"),
        (compile::Stage::WriteLock, "writing /d/web.lock: no"),
        (compile::Stage::Seal, "no"),
        (compile::Stage::Write, "writing /d/web.settled.toml: no"),
    ];
    for (stage, text) in cases {
        let turn = after(stage, Fault::Failed("no".to_owned()));
        assert!(matches!(&turn, compile::Turn::Fail(m) if m == text), "{turn:?}");
    }
    assert!(matches!(
        compile::after_stage(compile::Stage::Write, &Ok(()), &a, &out, "web"),
        compile::Turn::Done(m) if m == "compiled `web` -> /d/web.settled.toml (unsigned development build)"
    ));
    assert_eq!(
        compile::refusal(PolicyErrorKind::Signature, "bad"),
        ("kennel: bad".to_owned(), 6)
    );
    assert_eq!(
        compile::refusal(PolicyErrorKind::Resolution, "bad"),
        ("kennel: bad".to_owned(), 3)
    );
}

// ---- the session ---------------------------------------------------------------

fn answer(reply: Reply) -> Answer {
    Answer {
        reply,
        shown: "Shown { x: 1 }".to_owned(),
    }
}

#[test]
fn a_session_goes_by_what_the_daemon_says() {
    let started = answer(Reply::Started(3, 77, true));
    assert_eq!(started_filter(&started), Ok(true));
    assert_eq!(attached_filter(&answer(Reply::Attached(false))), Ok(false));
    assert_eq!(
        attached_filter(&started),
        Err("unexpected response: Shown { x: 1 }".to_owned())
    );
    assert_eq!(
        started_filter(&answer(Reply::Error("down".to_owned()))),
        Err("down".to_owned())
    );
    assert_eq!(launched("k", &started), Ok("kennel `k` started (ctx 3, pid 77)".to_owned()));
    assert!(launched("k", &answer(Reply::Other)).is_err());
    assert_eq!(exited(&answer(Reply::Exited(7))), Ok(7));
    assert_eq!(exited(&answer(Reply::Exited(-1))), Ok(1));
    assert_eq!(fault(&answer(Reply::Other)), "unexpected response: Shown { x: 1 }");

    assert!(matches!(
        control_step(&answer(Reply::Prompt(9, "renew?".to_owned()))),
        Control::Ask(9, shown) if shown == "\r\nrenew? "
    ));
    assert!(matches!(
        control_step(&answer(Reply::Exited(256))),
        Control::End(shown, 1) if shown.is_empty()
    ));
    assert!(matches!(
        control_step(&answer(Reply::Detached("ttl".to_owned()))),
        Control::End(shown, 0) if shown == "\r\ndetached: ttl\r\n"
    ));
    assert!(matches!(
        control_step(&answer(Reply::Error("gone".to_owned()))),
        Control::Fail(m) if m == "gone"
    ));
    assert_eq!(answered_text("y"), "y\r\n");

    let (told, end) = session_end("k", SessionEnd::Detached);
    assert!(told.is_some_and(|t| t.contains("`kennel attach k`")));
    assert_eq!(end, Ok(0));
    assert_eq!(session_end("k", SessionEnd::Outcome(Ok(4))), (None, Ok(4)));
    assert_eq!(
        session_end("k", SessionEnd::Lost),
        (None, Err("session ended without an outcome".to_owned()))
    );
}

// ---- keys ----------------------------------------------------------------------

#[test]
fn minted_keys_are_kept() {
    let k = ssh_key("/d/ssh", "id", "git@h", &|_: &str| false);
    assert_eq!((k.key.as_str(), k.public.as_str()), ("/d/ssh/id", "/d/ssh/id.pub"));
    assert_eq!(
        k.mint,
        Some(owned(&[
            "-q", "-t", "ed25519", "-N", "", "-C", "kennel-ssh git@h", "-f", "/d/ssh/id"
        ]))
    );
    assert!(ssh_key("/d/ssh", "id", "git@h", &|_: &str| true).mint.is_none());
    assert!(ssh_key("/d/ssh", "id", "git@h", &|p: &str| p.ends_with(".pub")).mint.is_some());
    assert_eq!(pinned_half("ssh-ed25519 AAAA c\n"), "ssh-ed25519 AAAA c");
}

#[test]
fn keygen_is_called_as_it_expects() {
    assert_eq!(
        keygen_list("n", "/k/n"),
        owned(&["-t", "ed25519", "-N", "", "-C", "n", "-f", "/k/n", "-q"])
    );
    assert_eq!(
        sign_command("ns", "/k/n", "/t/m"),
        owned(&["-Y", "sign", "-q", "-n", "ns", "-f", "/k/n", "/t/m"])
    );
    assert_eq!((key_dir_mode(true), key_dir_mode(false)), (0o755, 0o700));
    assert_eq!(fingerprint_text(Some("256 SHA256:abc n (ED25519)")), "SHA256:abc");
    assert_eq!(fingerprint_text(Some("256")), "(fingerprint unavailable)");
    assert_eq!(fingerprint_text(None), "(fingerprint unavailable)");
    assert_eq!(
        trusted_text("/etc/kennel/keys/n.pub"),
        "trusted `n` at the host tier (/etc/kennel/keys/n.pub) — artefacts it signs now verify for every user on this host"
    );
    assert_eq!(untrusted_lines("n", "/k", false), owned(&["untrusted `n` (/k/n.pub removed)"]));
    assert_eq!(
        untrusted_lines("n", "/k", true)[1],
        "note: the private half remains at /k/n — its location confers no authority, but remove it if the key is retired for good"
    );
}
