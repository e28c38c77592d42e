use kennel::entry::{entry_argv, env_deny, env_name, is_stripped, merge_env, strip_image_env};

fn owned(v: &[&str]) -> Vec<String> {
    v.iter().map(|s| (*s).to_owned()).collect()
}

fn pairs(v: &[(&str, &str)]) -> Vec<(String, String)> {
    v.iter().map(|(a, b)| ((*a).to_owned(), (*b).to_owned())).collect()
}

#[test]
fn image_loader_and_interpreter_vars_are_stripped() {
    let img = vec![
        "LD_PRELOAD=/evil.so".to_owned(),
        "LD_LIBRARY_PATH=/img/lib".to_owned(),
        "GLIBC_TUNABLES=glibc.malloc.check=0".to_owned(),
        "NODE_OPTIONS=--require /evil.js".to_owned(),
        "BASH_ENV=/evil.sh".to_owned(),
        "PATH=/img/bin".to_owned(),
        "APP_MODE=prod".to_owned(),
    ];
    let kept = strip_image_env(&img);
    assert!(kept.iter().all(|e| !e.starts_with("LD_")));
    assert!(kept.iter().all(|e| !e.starts_with("GLIBC_")));
    assert!(!kept.iter().any(|e| e.starts_with("NODE_OPTIONS=")));
    assert!(!kept.iter().any(|e| e.starts_with("BASH_ENV=")));
    assert!(kept.iter().any(|e| e == "PATH=/img/bin"));
    assert!(kept.iter().any(|e| e == "APP_MODE=prod"));
}

#[test]
fn ld_prefix_does_not_overmatch_ldflags() {
    let kept = strip_image_env(&["LDFLAGS=-O2".to_owned()]);
    assert_eq!(kept, vec!["LDFLAGS=-O2".to_owned()]);
}

#[test]
fn policy_env_overrides_floor_and_can_readd_loader_vars() {
    let img = vec!["PATH=/img/bin".to_owned(), "LD_PRELOAD=/evil.so".to_owned()];
    let policy = vec![
        ("PATH".to_owned(), "/usr/local/bin:/usr/bin".to_owned()),
        ("LD_LIBRARY_PATH".to_owned(), "/opt/app/lib".to_owned()),
    ];
    let merged = merge_env(&policy, &img);
    let get = |k: &str| merged.iter().find(|(n, _)| n == k).map(|(_, v)| v.as_str());
    assert_eq!(get("PATH"), Some("/usr/local/bin:/usr/bin"));
    assert_eq!(get("LD_LIBRARY_PATH"), Some("/opt/app/lib"));
    assert_eq!(get("LD_PRELOAD"), None);
}

#[test]
fn malformed_bare_name_is_still_stripped() {
    let kept = strip_image_env(&["LD_PRELOAD".to_owned(), "FOO".to_owned()]);
    assert_eq!(kept, vec!["FOO".to_owned()]);
}

#[test]
fn merged_environment_is_sorted_and_each_name_stands_once() {
    let merged = merge_env(
        &pairs(&[("B", "1"), ("A", "2"), ("B", "3")]),
        &owned(&["C=x", "A=image", "bare", "C=y"]),
    );
    assert_eq!(merged, pairs(&[("A", "2"), ("B", "3"), ("C", "y")]));
}

#[test]
fn temporary_directory_of_the_image_is_stripped_and_denied() {
    assert!(is_stripped("TMPDIR"));
    assert!(env_deny().contains(&"TMPDIR".to_owned()));
    assert_eq!(env_deny().len(), 32);
    assert_eq!(env_deny()[0], "LD_*");
    assert!(!is_stripped("HOME"));
}

#[test]
fn name_of_an_entry_ends_at_the_first_equals_sign() {
    assert_eq!(env_name("A=b=c"), "A");
    assert_eq!(env_name("A"), "A");
    assert_eq!(env_name("=x"), "");
}

#[test]
fn command_is_entrypoint_then_cmd() {
    assert_eq!(
        entry_argv(&owned(&["/bin/app"]), &owned(&["--serve"])),
        Ok(owned(&["/bin/app", "--serve"]))
    );
    assert_eq!(entry_argv(&[], &owned(&["sh"])), Ok(owned(&["sh"])));
    assert_eq!(
        entry_argv(&[], &[]),
        Err("image config has neither Entrypoint nor Cmd".to_owned())
    );
}
