use kennel::config::{
    default_search_dirs, deployment_layer, is_too_large, user_config_dir, user_layer, ConfigError,
    Deployment, Layer, LayerRead, RawDeployment, User, MAX_CONFIG,
};

fn text(path: &str, body: &str) -> Layer {
    Layer { path: path.to_owned(), read: LayerRead::Text(body.to_owned()) }
}

fn absent(path: &str) -> Layer {
    Layer { path: path.to_owned(), read: LayerRead::Absent }
}

#[test]
fn defaults_are_the_documented_paths() {
    let d = Deployment::defaults();
    assert_eq!(d.trust_dir(), "/etc/kennel/keys");
    assert_eq!(d.privhelper(), "/usr/libexec/kennel/kennel-privhelper");
    assert_eq!(d.netproxy(), "/usr/libexec/kennel/kennel-netproxy");
    assert_eq!(d.akc(), "/usr/libexec/kennel/kennel-akc");
    assert_eq!(d.sshd(), "/usr/sbin/sshd");
}

#[test]
fn higher_layer_overrides_per_key() {
    let vendor = text("/v/system.toml", "libexec_dir = \"/vendor/libexec\"\n");
    let system = text("/s/system.toml", "trust_dir = \"/etc/kennel/admin-keys\"\n");
    let d = Deployment::load_from_dirs(&[vendor, system]).expect("load");
    assert_eq!(d.trust_dir(), "/etc/kennel/admin-keys");
    assert_eq!(d.privhelper(), "/vendor/libexec/kennel-privhelper");
    assert_eq!(d.sshd(), "/usr/sbin/sshd");
}

#[test]
fn explicit_binary_override_beats_libexec_dir() {
    let system = text(
        "/s/system.toml",
        "libexec_dir = \"/opt/k/libexec\"\nnetproxy = \"/custom/np\"\n",
    );
    let d = Deployment::load_from_dirs(&[system]).expect("load");
    assert_eq!(d.netproxy(), "/custom/np");
    assert_eq!(d.privhelper(), "/opt/k/libexec/kennel-privhelper");
}

#[test]
fn missing_files_yield_defaults() {
    let d = Deployment::load_from_dirs(&[absent("/e/system.toml")]).expect("load");
    assert_eq!(d.trust_dir(), "/etc/kennel/keys");
}

#[test]
fn unknown_key_is_rejected() {
    let bad = text("/b/system.toml", "trust_dir = \"/x\"\nbogus = 1\n");
    let err = Deployment::load_from_dirs(&[bad]).expect_err("must reject unknown key");
    assert!(matches!(err, ConfigError::Parse { .. }), "got {err:?}");
}

#[test]
fn user_config_replaces_search_dirs() {
    let user = text("/u/config.toml", "template_dirs = [\"/srv/templates\"]\n");
    let u = User::load_from_dirs(&[user]).expect("load");
    assert_eq!(u.template_dirs(None), vec!["/srv/templates".to_owned()]);
}

#[test]
fn unknown_key_with_a_text_is_named() {
    let bad = text("/b/system.toml", "bogus = \"x\"\n");
    let err = Deployment::load_from_dirs(&[bad]).expect_err("must reject unknown key");
    assert_eq!(
        err.describe(),
        "parsing /b/system.toml: unknown field `bogus`, expected one of `libexec_dir`, `trust_dir`, `sshd`, `privhelper`, `netproxy`, `ssh_reorigin`, `socks_connect`, `akc` at line 1 column 1"
    );
    let bad = text("/b/system.toml", "\nsshd = 3\n");
    let err = Deployment::load_from_dirs(&[bad]).expect_err("must reject a number");
    assert_eq!(
        err.describe(),
        "parsing /b/system.toml: invalid type: integer `3`, expected path string for key `sshd` at line 2 column 8"
    );
}

#[test]
fn every_helper_has_its_own_key() {
    let all = text(
        "/s/system.toml",
        "privhelper = \"/1\"\nnetproxy = \"/2\"\nssh_reorigin = \"/3\"\nsocks_connect = \"/4\"\nakc = \"/5\"\nsshd = \"/6\"\n",
    );
    let d = Deployment::load_from_dirs(&[all]).expect("load");
    assert_eq!(d.privhelper(), "/1");
    assert_eq!(d.netproxy(), "/2");
    assert_eq!(d.ssh_reorigin(), "/3");
    assert_eq!(d.socks_connect(), "/4");
    assert_eq!(d.akc(), "/5");
    assert_eq!(d.sshd(), "/6");
    assert_eq!(d.libexec_dir(), "/usr/libexec/kennel");
    let none = Deployment::load(absent("/v"), absent("/s")).expect("load");
    assert_eq!(none.ssh_reorigin(), "/usr/libexec/kennel/kennel-ssh-reorigin");
    assert_eq!(none.socks_connect(), "/usr/libexec/kennel/kennel-socks-connect");
}

#[test]
fn errors_say_what_is_wrong() {
    let unreadable = Layer {
        path: "/s/system.toml".to_owned(),
        read: LayerRead::Unreadable("permission denied".to_owned()),
    };
    let e = Deployment::load_from_dirs(&[unreadable]).expect_err("unreadable");
    assert!(matches!(e, ConfigError::Read { .. }));
    assert_eq!(e.describe(), "reading /s/system.toml: permission denied");
    let large = Layer { path: "/s/system.toml".to_owned(), read: LayerRead::Large(300_000) };
    let e = User::load_from_dirs(&[large]).expect_err("large");
    assert!(matches!(e, ConfigError::TooLarge { size: 300_000, .. }));
    assert_eq!(e.describe(), "/s/system.toml is too large (300000 bytes)");
    assert!(!is_too_large(MAX_CONFIG));
    assert!(is_too_large(MAX_CONFIG + 1));
}

#[test]
fn broken_toml_is_a_parse_error_of_the_first_bad_layer() {
    let e = Deployment::load_from_dirs(&[
        text("/a", "libexec_dir = \n"),
        text("/b", "also broken"),
    ])
    .expect_err("broken");
    assert!(e.describe().starts_with("parsing /a: "), "{}", e.describe());
    let e = User::load_from_dirs(&[text("/c", "key_dirs = \"not a list\"\n")]).expect_err("type");
    assert!(matches!(e, ConfigError::Parse { .. }));
    let e = User::load_from_dirs(&[text("/c", "other = [\"x\"]\n")]).expect_err("unknown");
    assert_eq!(
        e.describe(),
        "parsing /c: unknown field `other`, expected `template_dirs` or `key_dirs` at line 1 column 1"
    );
}

#[test]
fn search_directories_default_to_the_users_and_the_hosts() {
    let u = User::load(absent("/v"), absent("/s"), None).expect("load");
    assert_eq!(
        u.template_dirs(Some("/home/u/.config/kennel")),
        vec!["/home/u/.config/kennel/templates".to_owned(), "/etc/kennel/templates".to_owned()]
    );
    assert_eq!(u.key_dirs(None), vec!["/etc/kennel/keys".to_owned()]);
    assert_eq!(default_search_dirs(None, "keys"), vec!["/etc/kennel/keys".to_owned()]);
    let u = User::load(
        text("/v", "key_dirs = [\"/vendor\"]\n"),
        absent("/s"),
        Some(text("/u", "key_dirs = [\"/mine\", \"/other\"]\n")),
    )
    .expect("load");
    assert_eq!(u.key_dirs(None), vec!["/mine".to_owned(), "/other".to_owned()]);
}

#[test]
fn user_directory_follows_the_environment() {
    assert_eq!(user_config_dir(Some("/x"), Some("/h")), Some("/x/kennel".to_owned()));
    assert_eq!(user_config_dir(None, Some("/h")), Some("/h/.config/kennel".to_owned()));
    assert_eq!(user_config_dir(None, None), None);
}

#[test]
fn entries_become_a_layer() {
    let ps = vec![("sshd".to_owned(), "/s".to_owned())];
    let raw = RawDeployment::from_entries(&ps).expect("known");
    assert_eq!(raw.sshd, Some("/s".to_owned()));
    assert_eq!(raw.akc, None);
    let ps = vec![("nope".to_owned(), "x".to_owned())];
    assert_eq!(
        RawDeployment::from_entries(&ps).expect_err("unknown"),
        "unknown field `nope`, expected one of `libexec_dir`, `trust_dir`, `sshd`, `privhelper`, `netproxy`, `ssh_reorigin`, `socks_connect`, `akc`"
    );
}

fn said_of(body: &str) -> String {
    Deployment::load_from_dirs(&[text("/p", body)]).expect_err("refused").describe()
}

fn said_of_user(body: &str) -> String {
    User::load_from_dirs(&[text("/p", body)]).expect_err("refused").describe()
}

#[test]
fn the_first_flaw_of_a_file_is_told() {
    let unknown = |k: &str, at: &str| {
        format!("parsing /p: unknown field `{k}`, expected one of `libexec_dir`, `trust_dir`, `sshd`, `privhelper`, `netproxy`, `ssh_reorigin`, `socks_connect`, `akc`{at}")
    };
    let start = " at line 1 column 1";
    assert_eq!(said_of("zeta = \"x\"\nalpha = \"y\"\n"), unknown("zeta", start));
    assert_eq!(said_of("trust_dir = \"/x\"\nbogus = 1\n"), unknown("bogus", start));
    assert_eq!(said_of("bogus = 1\nsshd = 3\n"), unknown("bogus", start));
    assert_eq!(
        said_of("sshd = 3\nbogus = 1\n"),
        "parsing /p: invalid type: integer `3`, expected path string for key `sshd` at line 1 column 8"
    );
    assert_eq!(
        said_of("akc = \"/a\"\n\n  [section]\nx = 1\n"),
        unknown("section", " at line 3 column 3")
    );
    assert_eq!(
        said_of("akc = \"/a\"\n[akc]\n"),
        "parsing /p: duplicate key: `akc` at line 2 column 2"
    );
}

#[test]
fn the_first_flaw_of_a_users_file_is_told() {
    let unknown = |k: &str| {
        format!("parsing /p: unknown field `{k}`, expected `template_dirs` or `key_dirs` at line 1 column 1")
    };
    assert_eq!(said_of_user("zeta = [\"x\"]\nalpha = [\"y\"]\n"), unknown("zeta"));
    assert_eq!(said_of_user("key_dirs = []\nother = 1\n"), unknown("other"));
    let e = said_of_user("key_dirs = [\"a\", 2]\nother = 1\n");
    assert!(e.starts_with("parsing /p: invalid type: integer `2`"), "{e}");
    let e = said_of_user("key_dirs = \"a\"\nother = 1\n");
    assert!(e.starts_with("parsing /p: invalid type: string \"a\""), "{e}");
}

#[test]
fn a_layer_is_read_from_kinds_and_values() {
    let kind = |k: &str, t: bool| (k.to_owned(), t, None);
    let pair = |k: &str, v: &str| (k.to_owned(), v.to_owned());
    let d = deployment_layer(&Ok(vec![kind("akc", true)]), Some((0, 0)), &Ok(vec![pair("akc", "/a")]))
        .expect("layer");
    assert_eq!(d.akc, Some("/a".to_owned()));
    let wrong: Result<Vec<(String, String)>, String> = Err("wrong".to_owned());
    assert_eq!(
        deployment_layer(&Ok(vec![kind("akc", false), kind("b", true)]), None, &wrong).expect_err("e"),
        "wrong"
    );
    assert_eq!(
        deployment_layer(&Err("broken".to_owned()), None, &wrong).expect_err("e"),
        "broken"
    );
    let e = deployment_layer(&Ok(vec![kind("b", true)]), None, &wrong).expect_err("e");
    assert!(e.ends_with("`akc`"), "{e}");
    let e = deployment_layer(&Ok(vec![kind("b", true)]), Some((9, u64::MAX)), &wrong).expect_err("e");
    assert!(e.ends_with(" at line 10 column 18446744073709551616"), "{e}");
    let lists = vec![("key_dirs".to_owned(), vec!["/k".to_owned()])];
    let ks = vec![("key_dirs".to_owned(), false, Some(vec![true]))];
    assert_eq!(user_layer(&Ok(ks), None, Ok(lists.clone())), Ok(lists.clone()));
    let ks = vec![("x".to_owned(), false, Some(vec![true]))];
    assert_eq!(
        user_layer(&Ok(ks), None, Ok(lists)),
        Err("unknown field `x`, expected `template_dirs` or `key_dirs`".to_owned())
    );
}
