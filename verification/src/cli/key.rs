//! The `key` verbs: generating, listing, trusting and rotating signing keys.
//!
//! A key's level is where it lives, and that is the only level it signs at.

use super::args;
use super::args::{is_given, scan, word_at};
use super::shared;
use super::shared::{first_present, is_valid_key_id, pub_key_ids};
use crate::decimal;
use crate::decimal::dec_text;
use crate::layout;
use crate::layout::{left_text, push_line};
use crate::order;
use crate::path;
use crate::path::{components_of, file_name, join, parent};
use crate::text;
use crate::text::{concat2, concat3, concat4, concat5, concat7, same};
use crate::words;
use vstd::prelude::*;
use vstd::string::*;

verus! {

// ---- arguments -----------------------------------------------------------------

/// What `kennel key generate` is asked for.
#[derive(Debug)]
pub struct GenerateKeyArgs {
    /// The key.
    pub name: String,
    /// Whether a key that is there is replaced.
    pub force: bool,
}

/// The command line of `kennel key generate`.
pub open spec fn generate_shape() -> args::Shape {
    args::Shape {
        switches: seq!["--force"@],
        options: seq![],
        room: 1,
        extra: "only one <name> may be given"@,
    }
}

impl GenerateKeyArgs {
    /// Whether these are the arguments that the parts of the command line give.
    pub open spec fn reads(self, ps: Seq<args::Part>) -> bool {
        &&& args::word(ps, 0) == Some(self.name@)
        &&& self.force == args::given(ps, "--force"@)
    }
}

/// What `kennel key generate` is asked for, or what is wrong with its arguments.
pub fn generate_args(list: &[String]) -> (r: Result<GenerateKeyArgs, String>)
    ensures
        match args::scanned(text::texts(list@), generate_shape()) {
            Err(e) => r matches Err(m) && m@ == e,
            Ok(ps) => if args::words(ps).len() == 0 {
                r matches Err(m) && m@ == "usage: kennel key generate <name> [--force]"@
            } else {
                r matches Ok(a) && a.reads(ps)
            },
        },
{
    let sw: [&str; 1] = ["--force"];
    let op: [&str; 0] = [];
    proof {
        assert(text::strs(sw@) =~= generate_shape().switches);
        assert(text::strs(op@) =~= generate_shape().options);
    }
    let items = match scan(list, &sw, &op, 1, "only one <name> may be given") {
        Err(e) => {
            return Err(e);
        },
        Ok(items) => items,
    };
    let items = items.as_slice();
    let name = match word_at(items, 0) {
        None => {
            return Err("usage: kennel key generate <name> [--force]".to_owned());
        },
        Some(w) => w,
    };
    Ok(
        GenerateKeyArgs {
            name,
            force: is_given(items, "--force"),
        },
    )
}

/// What `kennel key trust` is asked for.
#[derive(Debug)]
pub struct TrustArgs {
    /// The public key.
    pub file: String,
    /// Whether a key that is there is replaced.
    pub force: bool,
}

/// The command line of `kennel key trust`.
pub open spec fn trust_shape() -> args::Shape {
    args::Shape {
        switches: seq!["--force"@],
        options: seq![],
        room: 1,
        extra: "only one <file.pub> may be given"@,
    }
}

impl TrustArgs {
    /// Whether these are the arguments that the parts of the command line give.
    pub open spec fn reads(self, ps: Seq<args::Part>) -> bool {
        &&& args::word(ps, 0) == Some(self.file@)
        &&& self.force == args::given(ps, "--force"@)
    }
}

/// What `kennel key trust` is asked for, or what is wrong with its arguments.
pub fn trust_args(list: &[String]) -> (r: Result<TrustArgs, String>)
    ensures
        match args::scanned(text::texts(list@), trust_shape()) {
            Err(e) => r matches Err(m) && m@ == e,
            Ok(ps) => if args::words(ps).len() == 0 {
                r matches Err(m) && m@ == "usage: kennel key trust <file.pub> [--force]"@
            } else {
                r matches Ok(a) && a.reads(ps)
            },
        },
{
    let sw: [&str; 1] = ["--force"];
    let op: [&str; 0] = [];
    proof {
        assert(text::strs(sw@) =~= trust_shape().switches);
        assert(text::strs(op@) =~= trust_shape().options);
    }
    let items = match scan(list, &sw, &op, 1, "only one <file.pub> may be given") {
        Err(e) => {
            return Err(e);
        },
        Ok(items) => items,
    };
    let items = items.as_slice();
    let file = match word_at(items, 0) {
        None => {
            return Err("usage: kennel key trust <file.pub> [--force]".to_owned());
        },
        Some(w) => w,
    };
    Ok(
        TrustArgs {
            file,
            force: is_given(items, "--force"),
        },
    )
}

/// What `kennel key untrust` is asked for.
#[derive(Debug)]
pub struct UntrustArgs {
    /// The key.
    pub name: String,
    /// Whether to go ahead.
    pub yes: bool,
}

/// The command line of `kennel key untrust`.
pub open spec fn untrust_shape() -> args::Shape {
    args::Shape {
        switches: seq!["--yes"@],
        options: seq![],
        room: 1,
        extra: "only one <name> may be given"@,
    }
}

impl UntrustArgs {
    /// Whether these are the arguments that the parts of the command line give.
    pub open spec fn reads(self, ps: Seq<args::Part>) -> bool {
        &&& args::word(ps, 0) == Some(self.name@)
        &&& self.yes == args::given(ps, "--yes"@)
    }
}

/// What `kennel key untrust` is asked for, or what is wrong with its arguments.
pub fn untrust_args(list: &[String]) -> (r: Result<UntrustArgs, String>)
    ensures
        match args::scanned(text::texts(list@), untrust_shape()) {
            Err(e) => r matches Err(m) && m@ == e,
            Ok(ps) => if args::words(ps).len() == 0 {
                r matches Err(m) && m@ == "usage: kennel key untrust <name> [--yes]"@
            } else {
                r matches Ok(a) && a.reads(ps)
            },
        },
{
    let sw: [&str; 1] = ["--yes"];
    let op: [&str; 0] = [];
    proof {
        assert(text::strs(sw@) =~= untrust_shape().switches);
        assert(text::strs(op@) =~= untrust_shape().options);
    }
    let items = match scan(list, &sw, &op, 1, "only one <name> may be given") {
        Err(e) => {
            return Err(e);
        },
        Ok(items) => items,
    };
    let items = items.as_slice();
    let name = match word_at(items, 0) {
        None => {
            return Err("usage: kennel key untrust <name> [--yes]".to_owned());
        },
        Some(w) => w,
    };
    Ok(
        UntrustArgs {
            name,
            yes: is_given(items, "--yes"),
        },
    )
}

/// What `kennel key rotate` is asked for.
#[derive(Debug)]
pub struct RotateArgs {
    /// The key.
    pub name: String,
    /// Whether to go ahead.
    pub yes: bool,
}

/// The command line of `kennel key rotate`.
pub open spec fn rotate_shape() -> args::Shape {
    args::Shape {
        switches: seq!["--yes"@],
        options: seq![],
        room: 1,
        extra: "only one <name> may be given"@,
    }
}

impl RotateArgs {
    /// Whether these are the arguments that the parts of the command line give.
    pub open spec fn reads(self, ps: Seq<args::Part>) -> bool {
        &&& args::word(ps, 0) == Some(self.name@)
        &&& self.yes == args::given(ps, "--yes"@)
    }
}

/// What `kennel key rotate` is asked for, or what is wrong with its arguments.
pub fn rotate_args(list: &[String]) -> (r: Result<RotateArgs, String>)
    ensures
        match args::scanned(text::texts(list@), rotate_shape()) {
            Err(e) => r matches Err(m) && m@ == e,
            Ok(ps) => if args::words(ps).len() == 0 {
                r matches Err(m) && m@ == "usage: kennel key rotate <name> [--yes]"@
            } else {
                r matches Ok(a) && a.reads(ps)
            },
        },
{
    let sw: [&str; 1] = ["--yes"];
    let op: [&str; 0] = [];
    proof {
        assert(text::strs(sw@) =~= rotate_shape().switches);
        assert(text::strs(op@) =~= rotate_shape().options);
    }
    let items = match scan(list, &sw, &op, 1, "only one <name> may be given") {
        Err(e) => {
            return Err(e);
        },
        Ok(items) => items,
    };
    let items = items.as_slice();
    let name = match word_at(items, 0) {
        None => {
            return Err("usage: kennel key rotate <name> [--yes]".to_owned());
        },
        Some(w) => w,
    };
    Ok(
        RotateArgs {
            name,
            yes: is_given(items, "--yes"),
        },
    )
}

// ---- generating ----------------------------------------------------------------

/// A level in words.
pub open spec fn level(host: bool) -> Seq<char> {
    if host {
        "host"@
    } else {
        "user"@
    }
}

fn level_text(host: bool) -> (r: &'static str)
    ensures
        r@ == level(host),
{
    if host {
        "host"
    } else {
        "user"
    }
}

/// Why a key of the name is not generated, `None` where it is; `there` tells whether the key at
/// `place` is there.
pub fn generate_refusal(name: &str, place: &str, there: bool, force: bool) -> (r: Option<String>)
    ensures
        layout::opt(r) == if !shared::names_key(name@) {
            Some(
                "invalid key name `"@ + name@
                    + "`: 1-64 chars of letters, digits, `.`, `-`, `_` (it is both a filename and the signature key_id)"@,
            )
        } else if there && !force {
            Some(
                place@
                    + " already exists; refusing to overwrite a signing key. To replace the material AND re-sign everything it signs, use `kennel key rotate "@
                    + name@
                    + "`; --force overwrites blind (invalidating everything signed with the old key)"@,
            )
        } else {
            None
        },
{
    if !is_valid_key_id(name) {
        return Some(
            concat3(
                "invalid key name `",
                name,
                "`: 1-64 chars of letters, digits, `.`, `-`, `_` (it is both a filename and the signature key_id)",
            ),
        );
    }
    if there && !force {
        return Some(
            concat4(
                place,
                " already exists; refusing to overwrite a signing key. To replace the material AND re-sign everything it signs, use `kennel key rotate ",
                name,
                "`; --force overwrites blind (invalidating everything signed with the old key)",
            ),
        );
    }
    None
}

/// The file of a public key.
pub open spec fn pub_file(dir: Seq<char>, name: Seq<char>) -> Seq<char> {
    path::joined(dir, name + ".pub"@)
}

/// The file of a public key.
pub fn pub_path(dir: &str, name: &str) -> (r: String)
    ensures
        r@ == pub_file(dir@, name@),
{
    join(dir, concat2(name, ".pub").as_str())
}

/// What is said of a key that was generated.
pub open spec fn generated_text(name: Seq<char>, dir: Seq<char>, host: bool) -> Seq<Seq<char>> {
    seq![
        "generated Ed25519 signing key `"@ + name + "` at the "@ + level(host) + " tier:"@,
        "  private key : "@ + path::joined(dir, name) + "   (0600 — keep secret)"@,
        "  public key  : "@ + pub_file(dir, name) + "   (the daemon trusts every .pub here)"@,
        ""@,
    ] + if host {
        seq![
            "This key signs HOST-tier objects (policies and templates under /etc/kennel)."@,
            "It is now trusted by every user on this host — host acceptance is"@,
            "downward-inclusive, so user-tier copies of host-signed artefacts verify too."@,
        ]
    } else {
        seq![
            "Compile a policy once, then run it — neither command needs --key while"@,
            "this is your only key:"@,
            "  kennel policy compile <name>   # signs policies/<name>/<name>.settled.toml"@,
            "  kennel run <name> -- <cmd...>  # runs the settled policy (no key to run)"@,
        ]
    }
}

/// What is said of a key that was generated, line by line.
pub fn generated_lines(name: &str, dir: &str, host: bool) -> (out: Vec<String>)
    ensures
        text::texts(out@) == generated_text(name@, dir@, host),
{
    let mut out: Vec<String> = Vec::new();
    push_line(
        &mut out,
        concat5(
            "generated Ed25519 signing key `",
            name,
            "` at the ",
            level_text(host),
            " tier:",
        ),
    );
    let private = join(dir, name);
    push_line(&mut out, concat3("  private key : ", private.as_str(), "   (0600 — keep secret)"));
    let public = pub_path(dir, name);
    push_line(
        &mut out,
        concat3("  public key  : ", public.as_str(), "   (the daemon trusts every .pub here)"),
    );
    push_line(&mut out, "".to_owned());
    if host {
        push_line(
            &mut out,
            "This key signs HOST-tier objects (policies and templates under /etc/kennel).".to_owned(),
        );
        push_line(
            &mut out,
            "It is now trusted by every user on this host — host acceptance is".to_owned(),
        );
        push_line(
            &mut out,
            "downward-inclusive, so user-tier copies of host-signed artefacts verify too.".to_owned(),
        );
    } else {
        push_line(
            &mut out,
            "Compile a policy once, then run it — neither command needs --key while".to_owned(),
        );
        push_line(&mut out, "this is your only key:".to_owned());
        push_line(
            &mut out,
            "  kennel policy compile <name>   # signs policies/<name>/<name>.settled.toml".to_owned(),
        );
        push_line(
            &mut out,
            "  kennel run <name> -- <cmd...>  # runs the settled policy (no key to run)".to_owned(),
        );
    }
    assert(text::texts(out@) =~= generated_text(name@, dir@, host));
    out
}

// ---- listing -------------------------------------------------------------------

/// A key in the store of a level.
#[derive(Debug)]
pub struct TierKey {
    /// Its name.
    pub name: String,
    /// The level.
    pub tier: String,
    /// The store.
    pub dir: String,
    /// Whether the private half is there too.
    pub mine: bool,
}

/// The keys of a store, by name, out of its file names.
pub fn store_keys(names: &[String]) -> (out: Vec<String>)
    ensures
        text::texts(out@) == order::ascending(shared::pub_ids(text::texts(names@))),
{
    order::ascending_texts(pub_key_ids(names).as_slice())
}

/// The line of a key in the list of all, with its fingerprint.
pub fn key_line(k: &TierKey, fingerprint: &str) -> (r: String)
    ensures
        r@ == layout::left(k.name@, 24) + " ["@ + layout::left(k.tier@, 6) + "] "@ + layout::left(
            if k.mine {
                "mine (signs here)"@
            } else {
                "trusted (public only)"@
            },
            22,
        ) + " "@ + fingerprint@,
{
    let a = left_text(k.name.as_str(), 24);
    let b = left_text(k.tier.as_str(), 6);
    let c = left_text(
        if k.mine {
            "mine (signs here)"
        } else {
            "trusted (public only)"
        },
        22,
    );
    concat7(a.as_str(), " [", b.as_str(), "] ", c.as_str(), " ", fingerprint)
}

/// What is shown of one key.
pub open spec fn key_text(k: TierKey, fingerprint: Seq<char>) -> Seq<Seq<char>> {
    seq![
        k.name@ + " ["@ + k.tier@ + " tier] "@ + fingerprint,
        "  public : "@ + pub_file(k.dir@, k.name@),
    ] + layout::line_if(
        k.mine,
        "  private: "@ + path::joined(k.dir@, k.name@) + " (this key signs at the "@ + k.tier@
            + " tier)"@,
    )
}

/// What is shown of one key, line by line.
pub fn key_lines(k: &TierKey, fingerprint: &str) -> (out: Vec<String>)
    ensures
        text::texts(out@) == key_text(*k, fingerprint@),
{
    let mut out: Vec<String> = Vec::new();
    push_line(
        &mut out,
        concat5(k.name.as_str(), " [", k.tier.as_str(), " tier] ", fingerprint),
    );
    let public = pub_path(k.dir.as_str(), k.name.as_str());
    push_line(&mut out, concat2("  public : ", public.as_str()));
    if k.mine {
        let private = join(k.dir.as_str(), k.name.as_str());
        push_line(
            &mut out,
            concat5(
                "  private: ",
                private.as_str(),
                " (this key signs at the ",
                k.tier.as_str(),
                " tier)",
            ),
        );
    }
    assert(text::texts(out@) =~= key_text(*k, fingerprint@));
    out
}

/// The fingerprint in what `ssh-keygen -l` prints: the second word.
pub fn fingerprint_in(printed: &str) -> (r: Option<String>)
    ensures
        layout::opt(r) == if words::words(printed@).len() >= 2 {
            Some(words::words(printed@)[1])
        } else {
            None
        },
{
    let ws = words::words_of(printed);
    assert(text::texts(ws@).len() == ws@.len());
    if ws.len() >= 2 {
        assert(text::texts(ws@)[1] == ws@[1]@);
        Some(ws[1].clone())
    } else {
        None
    }
}

// ---- what a key signs ----------------------------------------------------------

/// What carries a key's signature.
#[derive(Clone, Copy, Debug, PartialEq, Eq, Structural)]
pub enum RefKind {
    /// A settled policy.
    Settled,
    /// The source of a template.
    Template,
    /// A lock file's pin.
    LockPin,
}

impl RefKind {
    /// The kind in words.
    pub open spec fn text(self) -> Seq<char> {
        match self {
            RefKind::Settled => "settled"@,
            RefKind::Template => "template"@,
            RefKind::LockPin => "lock pin"@,
        }
    }
}

/// Something that carries a key's signature.
#[derive(Debug)]
pub struct SignedRef {
    /// What it is.
    pub kind: RefKind,
    /// Its name.
    pub name: String,
    /// Its file.
    pub path: String,
    /// The level of its file.
    pub tier: String,
    /// The key.
    pub key_id: String,
    /// The source of a settled policy, where it is found.
    pub source: Option<String>,
    /// Whether a lock stands beside a settled policy.
    pub locked: bool,
}

/// What a file in a directory of policies carries signatures as, by its name.
#[derive(Debug)]
pub enum PolicyFile {
    /// The settled form of the named policy.
    Settled(String),
    /// The lock of the named policy.
    Lock(String),
    /// Nothing.
    Other,
}

/// What a file in a directory of policies carries signatures as, by its name.
pub fn policy_file(name: &str) -> (r: PolicyFile)
    ensures
        match r {
            PolicyFile::Settled(s) => name@ == s@ + ".settled.toml"@,
            PolicyFile::Lock(s) => !".settled.toml"@.is_suffix_of(name@) && name@ == s@ + ".lock"@,
            PolicyFile::Other => !".settled.toml"@.is_suffix_of(name@) && !".lock"@.is_suffix_of(
                name@,
            ),
        },
{
    match text::strip_suffix(name, ".settled.toml") {
        Some(s) => PolicyFile::Settled(s.to_owned()),
        None => match text::strip_suffix(name, ".lock") {
            Some(s) => PolicyFile::Lock(s.to_owned()),
            None => PolicyFile::Other,
        },
    }
}

/// The line of something that carries a signature.
pub open spec fn ref_text(r: SignedRef) -> Seq<char> {
    "  "@ + layout::left(r.kind.text(), 9) + " "@ + layout::left(r.name@, 28) + " ["@ + r.tier@
        + " tier] "@ + r.path@
}

/// The line of something that carries a signature.
pub fn ref_line(r: &SignedRef) -> (s: String)
    ensures
        s@ == ref_text(*r),
{
    let kind = left_text(
        match r.kind {
            RefKind::Settled => "settled",
            RefKind::Template => "template",
            RefKind::LockPin => "lock pin",
        },
        9,
    );
    let name = left_text(r.name.as_str(), 28);
    let a = concat5("  ", kind.as_str(), " ", name.as_str(), " [");
    concat4(a.as_str(), r.tier.as_str(), " tier] ", r.path.as_str())
}

/// The lines of what a key signs.
pub open spec fn refs_text(refs: Seq<SignedRef>, key: Seq<char>) -> Seq<Seq<char>>
    decreases refs.len(),
{
    if refs.len() == 0 {
        seq![]
    } else if refs.last().key_id@ == key {
        refs_text(refs.drop_last(), key).push(ref_text(refs.last()))
    } else {
        refs_text(refs.drop_last(), key)
    }
}

fn refs_lines(refs: &[SignedRef], key: &str) -> (out: Vec<String>)
    ensures
        text::texts(out@) == refs_text(refs@, key@),
{
    let mut out: Vec<String> = Vec::new();
    let mut i: usize = 0;
    assert(refs@.take(0) =~= seq![]);
    assert(text::texts(out@) =~= seq![]);
    while i < refs.len()
        invariant
            i <= refs@.len(),
            text::texts(out@) == refs_text(refs@.take(i as int), key@),
        decreases refs@.len() - i,
    {
        proof {
            assert(refs@.take(i + 1).drop_last() =~= refs@.take(i as int));
            assert(refs@.take(i + 1).last() == refs@[i as int]);
        }
        if same(refs[i].key_id.as_str(), key) {
            push_line(&mut out, ref_line(&refs[i]));
        }
        i = i + 1;
    }
    assert(refs@.take(refs@.len() as int) =~= refs@);
    out
}

/// What a key signs, line by line, under a heading.
pub fn signs_lines(refs: &[SignedRef], key: &str) -> (out: Vec<String>)
    ensures
        text::texts(out@) == ({
            let lines = refs_text(refs@, key@);
            if lines.len() == 0 {
                seq!["\nsigns nothing in the policy/template repos"@]
            } else {
                seq!["\nsigns "@ + decimal::dec(lines.len()) + " object(s):"@] + lines
            }
        }),
{
    let lines = refs_lines(refs, key);
    let mut out: Vec<String> = Vec::new();
    assert(text::texts(lines@).len() == lines@.len());
    if lines.len() == 0 {
        push_line(&mut out, "\nsigns nothing in the policy/template repos".to_owned());
        assert(text::texts(out@) =~= seq!["\nsigns nothing in the policy/template repos"@]);
    } else {
        let n = dec_text(lines.len() as u64);
        push_line(&mut out, concat3("\nsigns ", n.as_str(), " object(s):"));
        layout::push_lines(&mut out, lines.as_slice());
        assert(text::texts(out@) =~= seq![
            "\nsigns "@ + decimal::dec(lines@.len()) + " object(s):"@,
        ] + text::texts(lines@));
    }
    out
}

// ---- trusting ------------------------------------------------------------------

/// The file that a public key is trusted as, or why it is not: only root changes the host's trust,
/// the file must hold an OpenSSH public key (`openssh`), and its name must be a key id that is not
/// taken. `dir` is the host's store, `there` tells whether a key id is taken there.
pub fn trust_target<F: Fn(&str) -> bool>(
    a: &TrustArgs,
    root: bool,
    openssh: bool,
    dir: &str,
    there: &F,
) -> (r: Result<String, String>)
    requires
        forall|s: &str| call_requires(*there, (s,)),
    ensures
        if !root {
            r matches Err(m) && m@
                == "`key trust` operates on the host trust store (/etc/kennel/keys) and needs root. The user tier has no trust list: to run someone else's policy, `kennel policy install <file.toml>` re-signs it under your own key — that is user-level trust, per object"@
        } else if !openssh {
            r matches Err(m) && m@ == a.file@
                + " is not an OpenSSH ed25519 public key (the `ssh-ed25519 …` line `kennel key generate` writes)"@
        } else {
            match path::file_name_of(a.file@) {
                None => r matches Err(m) && m@ == "cannot derive a key id from `"@ + a.file@ + "`"@,
                Some(f) => {
                    let id = path::stem_of(f);
                    let dest = pub_file(dir@, id);
                    if !shared::names_key(id) {
                        r matches Err(m) && m@ == "`"@ + id + "` is not a valid key id"@
                    } else {
                        match r {
                            Ok(p) => p@ == dest && (a.force || shared::says(*there, dest, false)),
                            Err(m) => !a.force && shared::says(*there, dest, true) && m@ == dest
                                + " already exists — pass --force to replace it (this changes which key `"@
                                + id + "` signatures verify against)"@,
                        }
                    }
                },
            }
        },
{
    if !root {
        return Err(
            "`key trust` operates on the host trust store (/etc/kennel/keys) and needs root. The user tier has no trust list: to run someone else's policy, `kennel policy install <file.toml>` re-signs it under your own key — that is user-level trust, per object".to_owned(),
        );
    }
    if !openssh {
        return Err(
            concat2(
                a.file.as_str(),
                " is not an OpenSSH ed25519 public key (the `ssh-ed25519 …` line `kennel key generate` writes)",
            ),
        );
    }
    let id = match file_name(a.file.as_str()) {
        None => {
            return Err(concat3("cannot derive a key id from `", a.file.as_str(), "`"));
        },
        Some(f) => path::stem(f.as_str()),
    };
    if !is_valid_key_id(id.as_str()) {
        return Err(concat3("`", id.as_str(), "` is not a valid key id"));
    }
    let dest = pub_path(dir, id.as_str());
    if !a.force {
        let place = dest.as_str();
        let taken = there(place);
        assert(call_ensures(*there, (place,), taken));
        if taken {
            return Err(
                concat4(
                    place,
                    " already exists — pass --force to replace it (this changes which key `",
                    id.as_str(),
                    "` signatures verify against)",
                ),
            );
        }
    }
    Ok(dest)
}

/// Why a key's trust is not withdrawn, `None` where it is: only root does that, and only for a key
/// of the host's store `dir`. `trusted` and `vendor` tell whether the key is in that store and in
/// the vendor's.
pub fn untrust_refusal(name: &str, root: bool, trusted: bool, vendor: bool, dir: &str) -> (r: Option<
    String,
>)
    ensures
        layout::opt(r) == if !root {
            Some(
                "`key untrust` operates on the host trust store (/etc/kennel/keys) and needs root"@,
            )
        } else if trusted {
            None
        } else if vendor {
            Some(
                "`"@ + name@
                    + "` is a vendor-tier key — package payload, managed by the installer, not the host trust store"@,
            )
        } else {
            Some("no key `"@ + name@ + "` in the host trust store ("@ + dir@ + ")"@)
        },
{
    if !root {
        return Some(
            "`key untrust` operates on the host trust store (/etc/kennel/keys) and needs root".to_owned(),
        );
    }
    if trusted {
        return None;
    }
    if vendor {
        return Some(
            concat3(
                "`",
                name,
                "` is a vendor-tier key — package payload, managed by the installer, not the host trust store",
            ),
        );
    }
    Some(concat5("no key `", name, "` in the host trust store (", dir, ")"))
}

/// What stops verifying when a key's trust is withdrawn, line by line, and that nothing was done
/// where it was not confirmed.
pub fn untrust_report(refs: &[SignedRef], name: &str, yes: bool) -> (out: Vec<String>)
    ensures
        text::texts(out@) == ({
            let lines = refs_text(refs@, name@);
            if lines.len() == 0 {
                seq!["`"@ + name@ + "` signs nothing in the policy/template repos."@]
            } else {
                seq![
                    "untrusting `"@ + name@ + "` orphans "@ + decimal::dec(lines.len())
                        + " object(s) — they stop verifying:"@,
                ] + lines
            }
        }) + layout::line_if(!yes, "\nnothing removed — re-run with --yes to proceed"@),
{
    let lines = refs_lines(refs, name);
    let mut out: Vec<String> = Vec::new();
    assert(text::texts(lines@).len() == lines@.len());
    if lines.len() == 0 {
        push_line(&mut out, concat3("`", name, "` signs nothing in the policy/template repos."));
    } else {
        let n = dec_text(lines.len() as u64);
        push_line(
            &mut out,
            concat5(
                "untrusting `",
                name,
                "` orphans ",
                n.as_str(),
                " object(s) — they stop verifying:",
            ),
        );
        layout::push_lines(&mut out, lines.as_slice());
    }
    if !yes {
        push_line(&mut out, "\nnothing removed — re-run with --yes to proceed".to_owned());
    }
    proof {
        let ls = refs_text(refs@, name@);
        let first: Seq<Seq<char>> = if ls.len() == 0 {
            seq!["`"@ + name@ + "` signs nothing in the policy/template repos."@]
        } else {
            seq![
                "untrusting `"@ + name@ + "` orphans "@ + decimal::dec(ls.len())
                    + " object(s) — they stop verifying:"@,
            ] + ls
        };
        assert(text::texts(out@) =~= first + layout::line_if(
            !yes,
            "\nnothing removed — re-run with --yes to proceed"@,
        ));
    }
    out
}

// ---- rotating ------------------------------------------------------------------

/// Why a key is not rotated, `None` where it is: its private half must be at the caller's level.
/// `mine` tells whether it is, `vendor` whether the key is the vendor's.
pub fn rotate_refusal(name: &str, host: bool, mine: bool, vendor: bool, dir: &str) -> (r: Option<
    String,
>)
    ensures
        layout::opt(r) == if mine {
            None
        } else if vendor {
            Some(
                "`"@ + name@
                    + "` is the vendor tier's — the maintainer key is the project's affair and rotates upstream, never on a host"@,
            )
        } else {
            Some(
                "no private key `"@ + name@ + "` at the "@ + level(host) + " tier ("@ + dir@
                    + ") — a key rotates only at the level it lives at"@ + if host {
                    ""@
                } else {
                    "; rotating the host key needs root"@
                },
            )
        },
{
    if mine {
        return None;
    }
    if vendor {
        return Some(
            concat3(
                "`",
                name,
                "` is the vendor tier's — the maintainer key is the project's affair and rotates upstream, never on a host",
            ),
        );
    }
    let a = concat5("no private key `", name, "` at the ", level_text(host), " tier (");
    Some(
        concat4(
            a.as_str(),
            dir,
            ") — a key rotates only at the level it lives at",
            if host {
                ""
            } else {
                "; rotating the host key needs root"
            },
        ),
    )
}

/// Where something that a rotated key signs goes.
#[derive(Clone, Copy, Debug, PartialEq, Eq, Structural)]
pub enum Lot {
    /// It is not touched: another key's, or a pin that is renewed with its policy.
    Untouched,
    /// It is signed again.
    Template,
    /// It is compiled again.
    Leaf,
    /// It cannot be compiled again.
    Orphan,
    /// It is left to its owner, at another level.
    Foreign,
}

/// Where something that a rotated key signs goes.
pub open spec fn lot(r: SignedRef, name: Seq<char>, tier: Seq<char>) -> Lot {
    if r.key_id@ != name {
        Lot::Untouched
    } else if r.tier@ != tier {
        Lot::Foreign
    } else {
        match r.kind {
            RefKind::LockPin => Lot::Untouched,
            RefKind::Template => Lot::Template,
            RefKind::Settled => if r.source is Some {
                Lot::Leaf
            } else {
                Lot::Orphan
            },
        }
    }
}

/// The places of what goes to a lot.
pub open spec fn drawn(refs: Seq<SignedRef>, name: Seq<char>, tier: Seq<char>, of: Lot) -> Seq<usize>
    decreases refs.len(),
{
    if refs.len() == 0 {
        seq![]
    } else if lot(refs.last(), name, tier) == of {
        drawn(refs.drop_last(), name, tier, of).push((refs.len() - 1) as usize)
    } else {
        drawn(refs.drop_last(), name, tier, of)
    }
}

/// What a rotation has to do, as places in what was found.
#[derive(Debug)]
pub struct RotationPlan {
    /// Templates to sign again.
    pub templates: Vec<usize>,
    /// Policies to compile again.
    pub leaves: Vec<usize>,
    /// Policies that cannot be compiled again.
    pub orphans: Vec<usize>,
    /// What is left to its owner.
    pub foreign: Vec<usize>,
}

fn lot_of(r: &SignedRef, name: &str, tier: &str) -> (l: Lot)
    ensures
        l == lot(*r, name@, tier@),
{
    if !same(r.key_id.as_str(), name) {
        Lot::Untouched
    } else if !same(r.tier.as_str(), tier) {
        Lot::Foreign
    } else {
        match r.kind {
            RefKind::LockPin => Lot::Untouched,
            RefKind::Template => Lot::Template,
            RefKind::Settled => if r.source.is_some() {
                Lot::Leaf
            } else {
                Lot::Orphan
            },
        }
    }
}

/// What the rotation of a key has to do.
pub fn rotation_plan(refs: &[SignedRef], name: &str, tier: &str) -> (p: RotationPlan)
    ensures
        p.templates@ == drawn(refs@, name@, tier@, Lot::Template),
        p.leaves@ == drawn(refs@, name@, tier@, Lot::Leaf),
        p.orphans@ == drawn(refs@, name@, tier@, Lot::Orphan),
        p.foreign@ == drawn(refs@, name@, tier@, Lot::Foreign),
{
    let mut p = RotationPlan {
        templates: Vec::new(),
        leaves: Vec::new(),
        orphans: Vec::new(),
        foreign: Vec::new(),
    };
    let mut i: usize = 0;
    assert(refs@.take(0) =~= seq![]);
    while i < refs.len()
        invariant
            i <= refs@.len(),
            p.templates@ == drawn(refs@.take(i as int), name@, tier@, Lot::Template),
            p.leaves@ == drawn(refs@.take(i as int), name@, tier@, Lot::Leaf),
            p.orphans@ == drawn(refs@.take(i as int), name@, tier@, Lot::Orphan),
            p.foreign@ == drawn(refs@.take(i as int), name@, tier@, Lot::Foreign),
        decreases refs@.len() - i,
    {
        proof {
            assert(refs@.take(i + 1).drop_last() =~= refs@.take(i as int));
            assert(refs@.take(i + 1).last() == refs@[i as int]);
        }
        match lot_of(&refs[i], name, tier) {
            Lot::Untouched => {},
            Lot::Template => {
                p.templates.push(i);
            },
            Lot::Leaf => {
                p.leaves.push(i);
            },
            Lot::Orphan => {
                p.orphans.push(i);
            },
            Lot::Foreign => {
                p.foreign.push(i);
            },
        }
        i = i + 1;
    }
    assert(refs@.take(refs@.len() as int) =~= refs@);
    p
}

proof fn lemma_drawn(refs: Seq<SignedRef>, name: Seq<char>, tier: Seq<char>, of: Lot, i: int)
    requires
        0 <= i < refs.len() <= usize::MAX,
    ensures
        drawn(refs, name, tier, of).contains(i as usize) <==> lot(refs[i], name, tier) == of,
    decreases refs.len(),
{
    let d = drawn(refs, name, tier, of);
    let front = drawn(refs.drop_last(), name, tier, of);
    lemma_drawn_below(refs.drop_last(), name, tier, of);
    if i == refs.len() - 1 {
        if lot(refs[i], name, tier) == of {
            assert(d[front.len() as int] == i as usize);
        } else if d.contains(i as usize) {
            let k = choose|k: int| 0 <= k < d.len() && d[k] == i as usize;
            assert(front[k] < refs.len() - 1);
        }
    } else {
        lemma_drawn(refs.drop_last(), name, tier, of, i);
        if front.contains(i as usize) {
            let k = choose|k: int| 0 <= k < front.len() && front[k] == i as usize;
            assert(d[k] == i as usize);
        }
        if d.contains(i as usize) {
            let k = choose|k: int| 0 <= k < d.len() && d[k] == i as usize;
            assert(front[k] == i as usize);
        }
    }
}

proof fn lemma_drawn_below(refs: Seq<SignedRef>, name: Seq<char>, tier: Seq<char>, of: Lot)
    requires
        refs.len() <= usize::MAX,
    ensures
        forall|k: int|
            0 <= k < drawn(refs, name, tier, of).len() ==> (#[trigger] drawn(
                refs,
                name,
                tier,
                of,
            )[k]) < refs.len(),
    decreases refs.len(),
{
    if refs.len() > 0 {
        lemma_drawn_below(refs.drop_last(), name, tier, of);
        let d = drawn(refs, name, tier, of);
        let front = drawn(refs.drop_last(), name, tier, of);
        assert forall|k: int| 0 <= k < d.len() implies (#[trigger] d[k]) < refs.len() by {
            if k < front.len() {
                assert(d[k] == front[k]);
                assert(front[k] < refs.len() - 1);
            }
        }
    }
}

/// A rotation misses nothing that the key signs: each such thing is in just one part of the plan,
/// but for the pins at the key's own level, which are renewed with their policies.
pub proof fn law_rotation_covers_the_key(
    refs: Seq<SignedRef>,
    name: Seq<char>,
    tier: Seq<char>,
    i: int,
)
    requires
        0 <= i < refs.len() <= usize::MAX,
        refs[i].key_id@ == name,
        !(refs[i].kind is LockPin && refs[i].tier@ == tier),
    ensures
        ({
            let t = drawn(refs, name, tier, Lot::Template).contains(i as usize);
            let l = drawn(refs, name, tier, Lot::Leaf).contains(i as usize);
            let o = drawn(refs, name, tier, Lot::Orphan).contains(i as usize);
            let f = drawn(refs, name, tier, Lot::Foreign).contains(i as usize);
            &&& t || l || o || f
            &&& !(t && l) && !(t && o) && !(t && f) && !(l && o) && !(l && f) && !(o && f)
        }),
{
    lemma_drawn(refs, name, tier, Lot::Template, i);
    lemma_drawn(refs, name, tier, Lot::Leaf, i);
    lemma_drawn(refs, name, tier, Lot::Orphan, i);
    lemma_drawn(refs, name, tier, Lot::Foreign, i);
}

/// The path of a directory below the last `policies` in it.
pub open spec fn below_policies(parts: Seq<Seq<char>>) -> Option<Seq<Seq<char>>>
    decreases parts.len(),
{
    if parts.len() == 0 {
        None
    } else if parts.last() == "policies"@ {
        Some(seq![])
    } else {
        match below_policies(parts.drop_last()) {
            None => None,
            Some(rest) => Some(rest.push(parts.last())),
        }
    }
}

/// Where the source of a settled policy is looked for when it is not beside it: at the same path
/// below each directory of policies.
pub open spec fn cascade_places(settled: Seq<char>, dirs: Seq<Seq<char>>) -> Seq<Seq<char>> {
    match path::parent_of(settled) {
        None => seq![],
        Some(d) => match below_policies(path::components(d)) {
            None => seq![],
            Some(rel) => dirs.map_values(
                |root: Seq<char>|
                    path::joined(
                        path::joined(root, words::joined(rel, "/"@)),
                        "policy.toml"@,
                    ),
            ),
        },
    }
}

fn rest_below_policies(parts: &[String]) -> (r: Option<Vec<String>>)
    ensures
        match r {
            Some(v) => below_policies(text::texts(parts@)) == Some(text::texts(v@)),
            None => below_policies(text::texts(parts@)) is None,
        },
{
    let ghost all = text::texts(parts@);
    let mut rest: Option<Vec<String>> = None;
    let mut i: usize = 0;
    assert(all.take(0) =~= seq![]);
    while i < parts.len()
        invariant
            i <= parts@.len(),
            all == text::texts(parts@),
            match rest {
                Some(v) => below_policies(all.take(i as int)) == Some(text::texts(v@)),
                None => below_policies(all.take(i as int)) is None,
            },
        decreases parts@.len() - i,
    {
        proof {
            assert(all.take(i + 1).drop_last() =~= all.take(i as int));
            assert(all.take(i + 1).last() == parts@[i as int]@);
        }
        if same(parts[i].as_str(), "policies") {
            let v: Vec<String> = Vec::new();
            assert(text::texts(v@) =~= seq![]);
            rest = Some(v);
        } else {
            rest = match rest {
                Some(v) => {
                    let mut w = v;
                    push_line(&mut w, parts[i].clone());
                    Some(w)
                },
                None => None,
            };
        }
        i = i + 1;
    }
    assert(all.take(all.len() as int) =~= all);
    rest
}

/// Where the source of a settled policy is looked for when it is not beside it.
pub fn places_in_cascade(settled: &str, dirs: &[String]) -> (out: Vec<String>)
    ensures
        text::texts(out@) == cascade_places(settled@, text::texts(dirs@)),
{
    let mut out: Vec<String> = Vec::new();
    assert(text::texts(out@) =~= seq![]);
    let dir = match parent(settled) {
        None => {
            return out;
        },
        Some(d) => d,
    };
    let rel = match rest_below_policies(components_of(dir.as_str()).as_slice()) {
        None => {
            return out;
        },
        Some(v) => words::join(v.as_slice(), "/"),
    };
    let ghost want = cascade_places(settled@, text::texts(dirs@));
    let mut i: usize = 0;
    assert(text::texts(out@) =~= want.take(0));
    while i < dirs.len()
        invariant
            i <= dirs@.len(),
            want == text::texts(dirs@).map_values(
                |root: Seq<char>| path::joined(path::joined(root, rel@), "policy.toml"@),
            ),
            text::texts(out@) == want.take(i as int),
        decreases dirs@.len() - i,
    {
        push_line(
            &mut out,
            join(join(dirs[i].as_str(), rel.as_str()).as_str(), "policy.toml"),
        );
        i = i + 1;
        assert(text::texts(out@) =~= want.take(i as int));
    }
    assert(want.take(want.len() as int) =~= want);
    out
}

/// Where the source of a settled policy is looked for: beside it, then along the search path.
pub open spec fn job_places(settled: Seq<char>, dirs: Seq<Seq<char>>) -> Seq<Seq<char>> {
    (match path::parent_of(settled) {
        Some(d) => seq![path::joined(d, "policy.toml"@)],
        None => seq![],
    }) + cascade_places(settled, dirs)
}

/// The source that a settled policy is compiled again from.
pub fn job_source<F: Fn(&str) -> bool>(settled: &str, dirs: &[String], is_file: &F) -> (r: Option<
    String,
>)
    requires
        forall|s: &str| call_requires(*is_file, (s,)),
    ensures
        ({
            let places = job_places(settled@, text::texts(dirs@));
            match r {
                Some(p) => exists|i: int|
                    shared::first_at(*is_file, places, i) && p@ == #[trigger] places[i],
                None => shared::nowhere(*is_file, places),
            }
        }),
{
    let mut places: Vec<String> = Vec::new();
    if let Some(d) = parent(settled) {
        push_line(&mut places, join(d.as_str(), "policy.toml"));
    }
    let more = places_in_cascade(settled, dirs);
    layout::push_lines(&mut places, more.as_slice());
    assert(text::texts(places@) =~= job_places(settled@, text::texts(dirs@)));
    match first_present(places.as_slice(), is_file) {
        Some(i) => {
            let ghost all = text::texts(places@);
            assert(all[i as int] == places@[i as int]@);
            Some(places[i].clone())
        },
        None => None,
    }
}

/// The arguments that compile a settled policy again, onto itself, with the key: without a lock
/// where it had none.
pub fn recompile_args(source: &str, output: &str, key: &str, locked: bool) -> (out: Vec<String>)
    ensures
        text::texts(out@) == seq![source@, "--key"@, key@, "--output"@, output@] + layout::line_if(
            !locked,
            "--no-lock"@,
        ),
{
    let mut out: Vec<String> = Vec::new();
    push_line(&mut out, source.to_owned());
    push_line(&mut out, "--key".to_owned());
    push_line(&mut out, key.to_owned());
    push_line(&mut out, "--output".to_owned());
    push_line(&mut out, output.to_owned());
    if !locked {
        push_line(&mut out, "--no-lock".to_owned());
    }
    assert(text::texts(out@) =~= seq![source@, "--key"@, key@, "--output"@, output@]
        + layout::line_if(!locked, "--no-lock"@));
    out
}

/// The lock beside a settled policy: named after its directory.
pub open spec fn lock_of(artefact: Seq<char>) -> Option<Seq<char>> {
    match path::parent_of(artefact) {
        None => None,
        Some(d) => match path::file_name_of(d) {
            None => None,
            Some(n) => Some(path::joined(d, n + ".lock"@)),
        },
    }
}

/// The lock beside a settled policy.
pub fn lock_beside(artefact: &str) -> (r: Option<String>)
    ensures
        layout::opt(r) == lock_of(artefact@),
{
    match parent(artefact) {
        None => None,
        Some(d) => match file_name(d.as_str()) {
            None => None,
            Some(n) => Some(join(d.as_str(), concat2(n.as_str(), ".lock").as_str())),
        },
    }
}

/// Whether any of the names is among the others.
pub open spec fn any_among(names: Seq<String>, others: Seq<Seq<char>>) -> bool {
    exists|i: int| 0 <= i < names.len() && others.contains((#[trigger] names[i])@)
}

/// The lock that has to go because it pins a template that was signed again: the one beside the
/// settled policy, where any of the names it pins (`None` where it cannot be read) is among those.
pub fn lock_pinning(artefact: &str, pinned: Option<&[String]>, resigned: &[String]) -> (r: Option<
    String,
>)
    ensures
        layout::opt(r) == if pinned is Some && any_among(pinned->0@, text::texts(resigned@)) {
            lock_of(artefact@)
        } else {
            None
        },
{
    let ps = match pinned {
        None => {
            return None;
        },
        Some(ps) => ps,
    };
    let mut i: usize = 0;
    while i < ps.len()
        invariant
            i <= ps@.len(),
            pinned == Some(ps),
            forall|j: int|
                0 <= j < i ==> !text::texts(resigned@).contains((#[trigger] ps@[j])@),
        decreases ps@.len() - i,
    {
        if text::has_text(resigned, ps[i].as_str()) {
            assert(text::texts(resigned@).contains(ps@[i as int]@));
            assert(any_among(ps@, text::texts(resigned@)));
            return lock_beside(artefact);
        }
        i = i + 1;
    }
    None
}

/// What a rotation is going to do.
pub open spec fn plan_text(
    refs: Seq<SignedRef>,
    p: RotationPlan,
    name: Seq<char>,
    tier: Seq<char>,
) -> Seq<Seq<char>> {
    seq![
        "rotating `"@ + name + "` at the "@ + tier + " tier — the plan:"@,
        "  1. retire the old pair (`.retired` suffixes), mint a successor `"@ + name + "`"@,
    ] + layout::line_if(
        p.templates@.len() == 0 && p.leaves@.len() == 0,
        "  2. nothing signed by this key at the "@ + tier + " tier — no re-sign work"@,
    ) + p.templates@.map_values(
        |i: usize| "  - re-sign template  "@ + refs[i as int].path@,
    ) + p.leaves@.map_values(|i: usize| leaf_text(refs[i as int])) + p.orphans@.map_values(
        |i: usize| orphan_text(refs[i as int]),
    )
}

/// What is going to happen to a policy that is compiled again.
pub open spec fn leaf_text(r: SignedRef) -> Seq<char> {
    "  - recompile leaf    "@ + r.path@ + " (from "@ + (match r.source {
        Some(s) => s@,
        None => seq![],
    }) + "; lock re-pins as needed)"@
}

/// What is said of a policy that cannot be compiled again.
pub open spec fn orphan_text(r: SignedRef) -> Seq<char> {
    "  ! cannot rotate     "@ + r.path@
        + " — settled artefact whose source resolves nowhere in the cascade; it will stop verifying"@
}

/// Whether the places of a plan are places of what was found.
pub open spec fn within(p: RotationPlan, n: nat) -> bool {
    &&& forall|i: int| 0 <= i < p.templates@.len() ==> (#[trigger] p.templates@[i]) < n
    &&& forall|i: int| 0 <= i < p.leaves@.len() ==> (#[trigger] p.leaves@[i]) < n
    &&& forall|i: int| 0 <= i < p.orphans@.len() ==> (#[trigger] p.orphans@[i]) < n
    &&& forall|i: int| 0 <= i < p.foreign@.len() ==> (#[trigger] p.foreign@[i]) < n
}

/// A plan's places are places of what was found.
pub proof fn law_plan_is_within(
    refs: Seq<SignedRef>,
    p: RotationPlan,
    name: Seq<char>,
    tier: Seq<char>,
)
    requires
        refs.len() <= usize::MAX,
        p.templates@ == drawn(refs, name, tier, Lot::Template),
        p.leaves@ == drawn(refs, name, tier, Lot::Leaf),
        p.orphans@ == drawn(refs, name, tier, Lot::Orphan),
        p.foreign@ == drawn(refs, name, tier, Lot::Foreign),
    ensures
        within(p, refs.len()),
{
    lemma_drawn_below(refs, name, tier, Lot::Template);
    lemma_drawn_below(refs, name, tier, Lot::Leaf);
    lemma_drawn_below(refs, name, tier, Lot::Orphan);
    lemma_drawn_below(refs, name, tier, Lot::Foreign);
}

fn push_templates(out: &mut Vec<String>, refs: &[SignedRef], at: &[usize])
    requires
        forall|i: int| 0 <= i < at@.len() ==> (#[trigger] at@[i]) < refs@.len(),
    ensures
        text::texts(final(out)@) == text::texts(old(out)@) + at@.map_values(
            |i: usize| "  - re-sign template  "@ + refs@[i as int].path@,
        ),
{
    let ghost want = at@.map_values(|i: usize| "  - re-sign template  "@ + refs@[i as int].path@);
    let mut i: usize = 0;
    assert(text::texts(out@) =~= text::texts(old(out)@) + want.take(0));
    while i < at.len()
        invariant
            i <= at@.len(),
            forall|i: int| 0 <= i < at@.len() ==> (#[trigger] at@[i]) < refs@.len(),
            want == at@.map_values(|i: usize| "  - re-sign template  "@ + refs@[i as int].path@),
            text::texts(out@) == text::texts(old(out)@) + want.take(i as int),
        decreases at@.len() - i,
    {
        push_line(out, concat2("  - re-sign template  ", refs[at[i]].path.as_str()));
        i = i + 1;
        assert(text::texts(out@) =~= text::texts(old(out)@) + want.take(i as int));
    }
    assert(want.take(want.len() as int) =~= want);
}

fn push_leaves(out: &mut Vec<String>, refs: &[SignedRef], at: &[usize])
    requires
        forall|i: int| 0 <= i < at@.len() ==> (#[trigger] at@[i]) < refs@.len(),
    ensures
        text::texts(final(out)@) == text::texts(old(out)@) + at@.map_values(
            |i: usize| leaf_text(refs@[i as int]),
        ),
{
    let ghost want = at@.map_values(|i: usize| leaf_text(refs@[i as int]));
    let mut i: usize = 0;
    assert(text::texts(out@) =~= text::texts(old(out)@) + want.take(0));
    while i < at.len()
        invariant
            i <= at@.len(),
            forall|i: int| 0 <= i < at@.len() ==> (#[trigger] at@[i]) < refs@.len(),
            want == at@.map_values(|i: usize| leaf_text(refs@[i as int])),
            text::texts(out@) == text::texts(old(out)@) + want.take(i as int),
        decreases at@.len() - i,
    {
        let r = &refs[at[i]];
        let source = match &r.source {
            Some(s) => s.clone(),
            None => String::new(),
        };
        assert(r.source is None ==> source@ =~= seq![]);
        push_line(
            out,
            concat5(
                "  - recompile leaf    ",
                r.path.as_str(),
                " (from ",
                source.as_str(),
                "; lock re-pins as needed)",
            ),
        );
        i = i + 1;
        assert(text::texts(out@) =~= text::texts(old(out)@) + want.take(i as int));
    }
    assert(want.take(want.len() as int) =~= want);
}

fn push_orphans(out: &mut Vec<String>, refs: &[SignedRef], at: &[usize])
    requires
        forall|i: int| 0 <= i < at@.len() ==> (#[trigger] at@[i]) < refs@.len(),
    ensures
        text::texts(final(out)@) == text::texts(old(out)@) + at@.map_values(
            |i: usize| orphan_text(refs@[i as int]),
        ),
{
    let ghost want = at@.map_values(|i: usize| orphan_text(refs@[i as int]));
    let mut i: usize = 0;
    assert(text::texts(out@) =~= text::texts(old(out)@) + want.take(0));
    while i < at.len()
        invariant
            i <= at@.len(),
            forall|i: int| 0 <= i < at@.len() ==> (#[trigger] at@[i]) < refs@.len(),
            want == at@.map_values(|i: usize| orphan_text(refs@[i as int])),
            text::texts(out@) == text::texts(old(out)@) + want.take(i as int),
        decreases at@.len() - i,
    {
        push_line(
            out,
            concat3(
                "  ! cannot rotate     ",
                refs[at[i]].path.as_str(),
                " — settled artefact whose source resolves nowhere in the cascade; it will stop verifying",
            ),
        );
        i = i + 1;
        assert(text::texts(out@) =~= text::texts(old(out)@) + want.take(i as int));
    }
    assert(want.take(want.len() as int) =~= want);
}

/// What a rotation is going to do, line by line.
pub fn print_plan(refs: &[SignedRef], p: &RotationPlan, name: &str, tier: &str) -> (out: Vec<String>)
    requires
        within(*p, refs@.len()),
    ensures
        text::texts(out@) == plan_text(refs@, *p, name@, tier@),
{
    let mut out: Vec<String> = Vec::new();
    push_line(
        &mut out,
        concat5("rotating `", name, "` at the ", tier, " tier — the plan:"),
    );
    push_line(
        &mut out,
        concat3(
            "  1. retire the old pair (`.retired` suffixes), mint a successor `",
            name,
            "`",
        ),
    );
    if p.templates.len() == 0 && p.leaves.len() == 0 {
        push_line(
            &mut out,
            concat3(
                "  2. nothing signed by this key at the ",
                tier,
                " tier — no re-sign work",
            ),
        );
    }
    let ghost head = text::texts(out@);
    push_templates(&mut out, refs, p.templates.as_slice());
    push_leaves(&mut out, refs, p.leaves.as_slice());
    push_orphans(&mut out, refs, p.orphans.as_slice());
    proof {
        let first = seq![
            "rotating `"@ + name@ + "` at the "@ + tier@ + " tier — the plan:"@,
            "  1. retire the old pair (`.retired` suffixes), mint a successor `"@ + name@ + "`"@,
        ] + layout::line_if(
            p.templates@.len() == 0 && p.leaves@.len() == 0,
            "  2. nothing signed by this key at the "@ + tier@ + " tier — no re-sign work"@,
        );
        assert(head =~= first);
    }
    out
}

/// What is told ahead of a rotation, line by line: the plan, and that nothing was done where it was
/// not confirmed.
pub fn rotate_report(
    refs: &[SignedRef],
    p: &RotationPlan,
    name: &str,
    tier: &str,
    yes: bool,
) -> (out: Vec<String>)
    requires
        within(*p, refs@.len()),
    ensures
        text::texts(out@) == plan_text(refs@, *p, name@, tier@) + layout::line_if(
            !yes,
            "\nnothing rotated — re-run with --yes to proceed"@,
        ),
{
    let mut out = print_plan(refs, p, name, tier);
    let ghost plan = text::texts(out@);
    if !yes {
        push_line(&mut out, "\nnothing rotated — re-run with --yes to proceed".to_owned());
    }
    assert(text::texts(out@) =~= plan + layout::line_if(
        !yes,
        "\nnothing rotated — re-run with --yes to proceed"@,
    ));
    out
}

/// The exit code with which a verb that only acts when it is confirmed stops ahead of doing
/// anything, where it was not.
pub fn unconfirmed(yes: bool) -> (r: Option<u8>)
    ensures
        r == if yes {
            None
        } else {
            Some(1u8)
        },
{
    if yes {
        None
    } else {
        Some(1)
    }
}

/// What is owed elsewhere after a rotation.
pub open spec fn owed_text(r: SignedRef) -> Seq<char> {
    ref_text(r) + " — recompile/re-pin under a key that signs there"@
}

fn push_owed(out: &mut Vec<String>, refs: &[SignedRef], at: &[usize])
    requires
        forall|i: int| 0 <= i < at@.len() ==> (#[trigger] at@[i]) < refs@.len(),
    ensures
        text::texts(final(out)@) == text::texts(old(out)@) + at@.map_values(
            |i: usize| owed_text(refs@[i as int]),
        ),
{
    let ghost want = at@.map_values(|i: usize| owed_text(refs@[i as int]));
    let mut i: usize = 0;
    assert(text::texts(out@) =~= text::texts(old(out)@) + want.take(0));
    while i < at.len()
        invariant
            i <= at@.len(),
            forall|i: int| 0 <= i < at@.len() ==> (#[trigger] at@[i]) < refs@.len(),
            want == at@.map_values(|i: usize| owed_text(refs@[i as int])),
            text::texts(out@) == text::texts(old(out)@) + want.take(i as int),
        decreases at@.len() - i,
    {
        push_line(
            out,
            concat2(
                ref_line(&refs[at[i]]).as_str(),
                " — recompile/re-pin under a key that signs there",
            ),
        );
        i = i + 1;
        assert(text::texts(out@) =~= text::texts(old(out)@) + want.take(i as int));
    }
    assert(want.take(want.len() as int) =~= want);
}

/// What is owed elsewhere after a rotation, line by line; nothing where nothing is.
pub fn report_owed(refs: &[SignedRef], p: &RotationPlan) -> (out: Vec<String>)
    requires
        within(*p, refs@.len()),
    ensures
        text::texts(out@) == if p.foreign@.len() == 0 && p.orphans@.len() == 0 {
            seq![]
        } else {
            seq![
                ""@,
                "owed elsewhere (this ceremony cannot sign for other tiers/owners):"@,
            ] + p.foreign@.map_values(|i: usize| owed_text(refs@[i as int]))
                + p.orphans@.map_values(|i: usize| owed_text(refs@[i as int]))
        },
{
    let mut out: Vec<String> = Vec::new();
    if p.foreign.len() == 0 && p.orphans.len() == 0 {
        assert(text::texts(out@) =~= seq![]);
        return out;
    }
    push_line(&mut out, "".to_owned());
    push_line(
        &mut out,
        "owed elsewhere (this ceremony cannot sign for other tiers/owners):".to_owned(),
    );
    assert(text::texts(out@) =~= seq![
        ""@,
        "owed elsewhere (this ceremony cannot sign for other tiers/owners):"@,
    ]);
    push_owed(&mut out, refs, p.foreign.as_slice());
    push_owed(&mut out, refs, p.orphans.as_slice());
    out
}

/// The files that a rotated key's halves are retired to: neither is a public key any more.
pub fn retired_pair(dir: &str, name: &str) -> (r: (String, String))
    ensures
        r.0@ == path::joined(dir@, name@ + ".retired"@),
        r.1@ == path::joined(dir@, name@ + ".pub.retired"@),
{
    (
        join(dir, concat2(name, ".retired").as_str()),
        join(dir, concat2(name, ".pub.retired").as_str()),
    )
}

/// The files of a retired key are no public keys, so nothing trusts them.
pub proof fn law_retired_keys_are_not_trusted(name: Seq<char>)
    ensures
        !shared::is_pub(name + ".retired"@),
        !shared::is_pub(name + ".pub.retired"@),
{
    reveal_strlit(".retired");
    reveal_strlit(".pub.retired");
    reveal_strlit("pub");
    lemma_last_dot(name + ".retired"@, name.len() as int);
    lemma_last_dot(name + ".pub.retired"@, name.len() as int + 4);
    let a = (name + ".retired"@).skip(name.len() as int + 1);
    let b = (name + ".pub.retired"@).skip(name.len() as int + 5);
    assert(a.len() == 7);
    assert(b.len() == 7);
}

proof fn lemma_last_dot(f: Seq<char>, at: int)
    requires
        0 <= at < f.len(),
        f[at] == '.',
        forall|i: int| at < i < f.len() ==> f[i] != '.',
    ensures
        path::last_dot(f) == at,
    decreases f.len(),
{
    if at < f.len() - 1 {
        lemma_last_dot(f.drop_last(), at);
    }
}

/// What is said at the end of a rotation, and its exit status.
pub fn rotated_text(
    name: &str,
    tier: &str,
    templates: usize,
    leaves: usize,
    failures: usize,
) -> (r: (String, u8))
    ensures
        if failures == 0 {
            r.0@ == "rotated `"@ + name@ + "` at the "@ + tier@ + " tier: "@ + decimal::dec(
                templates as nat,
            ) + " template(s) re-signed, "@ + decimal::dec(leaves as nat)
                + " leaf(s) recompiled under the successor key"@ && r.1 == 0
        } else {
            r.0@ == "rotation of `"@ + name@ + "` finished with "@ + decimal::dec(failures as nat)
                + " failure(s) — the objects named above still ride the RETIRED key and no longer verify; fix and re-sign them"@
                && r.1 == 1
        },
{
    if failures == 0 {
        let t = dec_text(templates as u64);
        let l = dec_text(leaves as u64);
        let a = concat5("rotated `", name, "` at the ", tier, " tier: ");
        (
            concat5(
                a.as_str(),
                t.as_str(),
                " template(s) re-signed, ",
                l.as_str(),
                " leaf(s) recompiled under the successor key",
            ),
            0,
        )
    } else {
        let n = dec_text(failures as u64);
        (
            concat5(
                "rotation of `",
                name,
                "` finished with ",
                n.as_str(),
                " failure(s) — the objects named above still ride the RETIRED key and no longer verify; fix and re-sign them",
            ),
            1,
        )
    }
}

// ---- command lines --------------------------------------------------------------

/// A lone word is what `kennel key generate` works on, with no flag set and no option given.
pub proof fn law_generate_takes_a_lone_word(
    list: &[String],
    w: Seq<char>,
    r: Result<GenerateKeyArgs, String>,
)
    requires
        call_ensures(generate_args, (list,), r),
        text::texts(list@) == seq![w],
        !"--"@.is_prefix_of(w),
    ensures
        r matches Ok(x) && x.name@ == w && !x.force,
{
    let shape = generate_shape();
    reveal_strlit("--");
    reveal_strlit("--force");
    assert("--"@.is_prefix_of("--force"@)) by {
        assert("--"@ =~= "--force"@.subrange(0, 2));
    }
    args::lemma_scan_word(w, shape);
    let ps = seq![args::Part::Word(w)];
    assert(args::words(ps)[0] == w);
    assert(!args::given(ps, "--force"@));
}

/// A flag more on the command line of `kennel key generate` sets that flag, and all else stays as it was.
pub proof fn law_generate_takes_a_flag(
    a: &[String],
    b: &[String],
    x: GenerateKeyArgs,
    y: GenerateKeyArgs,
    flag: Seq<char>,
)
    requires
        call_ensures(generate_args, (a,), Ok::<GenerateKeyArgs, String>(x)),
        call_ensures(generate_args, (b,), Ok::<GenerateKeyArgs, String>(y)),
        text::texts(b@) == text::texts(a@).push(flag),
        "--"@.is_prefix_of(flag),
    ensures
        y.name@ == x.name@,
        y.force == (x.force || flag == "--force"@),
{
    args::lemma_scan_switch(text::texts(a@), generate_shape(), flag);
    let ps = args::scanned(text::texts(a@), generate_shape())->Ok_0;
    args::lemma_part_push(ps, args::Part::Switch(flag), "--force"@);
}

/// A lone word is what `kennel key trust` works on, with no flag set and no option given.
pub proof fn law_trust_takes_a_lone_word(
    list: &[String],
    w: Seq<char>,
    r: Result<TrustArgs, String>,
)
    requires
        call_ensures(trust_args, (list,), r),
        text::texts(list@) == seq![w],
        !"--"@.is_prefix_of(w),
    ensures
        r matches Ok(x) && x.file@ == w && !x.force,
{
    let shape = trust_shape();
    reveal_strlit("--");
    reveal_strlit("--force");
    assert("--"@.is_prefix_of("--force"@)) by {
        assert("--"@ =~= "--force"@.subrange(0, 2));
    }
    args::lemma_scan_word(w, shape);
    let ps = seq![args::Part::Word(w)];
    assert(args::words(ps)[0] == w);
    assert(!args::given(ps, "--force"@));
}

/// A flag more on the command line of `kennel key trust` sets that flag, and all else stays as it was.
pub proof fn law_trust_takes_a_flag(
    a: &[String],
    b: &[String],
    x: TrustArgs,
    y: TrustArgs,
    flag: Seq<char>,
)
    requires
        call_ensures(trust_args, (a,), Ok::<TrustArgs, String>(x)),
        call_ensures(trust_args, (b,), Ok::<TrustArgs, String>(y)),
        text::texts(b@) == text::texts(a@).push(flag),
        "--"@.is_prefix_of(flag),
    ensures
        y.file@ == x.file@,
        y.force == (x.force || flag == "--force"@),
{
    args::lemma_scan_switch(text::texts(a@), trust_shape(), flag);
    let ps = args::scanned(text::texts(a@), trust_shape())->Ok_0;
    args::lemma_part_push(ps, args::Part::Switch(flag), "--force"@);
}

/// A lone word is what `kennel key untrust` works on, with no flag set and no option given.
pub proof fn law_untrust_takes_a_lone_word(
    list: &[String],
    w: Seq<char>,
    r: Result<UntrustArgs, String>,
)
    requires
        call_ensures(untrust_args, (list,), r),
        text::texts(list@) == seq![w],
        !"--"@.is_prefix_of(w),
    ensures
        r matches Ok(x) && x.name@ == w && !x.yes,
{
    let shape = untrust_shape();
    reveal_strlit("--");
    reveal_strlit("--yes");
    assert("--"@.is_prefix_of("--yes"@)) by {
        assert("--"@ =~= "--yes"@.subrange(0, 2));
    }
    args::lemma_scan_word(w, shape);
    let ps = seq![args::Part::Word(w)];
    assert(args::words(ps)[0] == w);
    assert(!args::given(ps, "--yes"@));
}

/// A flag more on the command line of `kennel key untrust` sets that flag, and all else stays as it was.
pub proof fn law_untrust_takes_a_flag(
    a: &[String],
    b: &[String],
    x: UntrustArgs,
    y: UntrustArgs,
    flag: Seq<char>,
)
    requires
        call_ensures(untrust_args, (a,), Ok::<UntrustArgs, String>(x)),
        call_ensures(untrust_args, (b,), Ok::<UntrustArgs, String>(y)),
        text::texts(b@) == text::texts(a@).push(flag),
        "--"@.is_prefix_of(flag),
    ensures
        y.name@ == x.name@,
        y.yes == (x.yes || flag == "--yes"@),
{
    args::lemma_scan_switch(text::texts(a@), untrust_shape(), flag);
    let ps = args::scanned(text::texts(a@), untrust_shape())->Ok_0;
    args::lemma_part_push(ps, args::Part::Switch(flag), "--yes"@);
}

/// A lone word is what `kennel key rotate` works on, with no flag set and no option given.
pub proof fn law_rotate_takes_a_lone_word(
    list: &[String],
    w: Seq<char>,
    r: Result<RotateArgs, String>,
)
    requires
        call_ensures(rotate_args, (list,), r),
        text::texts(list@) == seq![w],
        !"--"@.is_prefix_of(w),
    ensures
        r matches Ok(x) && x.name@ == w && !x.yes,
{
    let shape = rotate_shape();
    reveal_strlit("--");
    reveal_strlit("--yes");
    assert("--"@.is_prefix_of("--yes"@)) by {
        assert("--"@ =~= "--yes"@.subrange(0, 2));
    }
    args::lemma_scan_word(w, shape);
    let ps = seq![args::Part::Word(w)];
    assert(args::words(ps)[0] == w);
    assert(!args::given(ps, "--yes"@));
}

/// A flag more on the command line of `kennel key rotate` sets that flag, and all else stays as it was.
pub proof fn law_rotate_takes_a_flag(
    a: &[String],
    b: &[String],
    x: RotateArgs,
    y: RotateArgs,
    flag: Seq<char>,
)
    requires
        call_ensures(rotate_args, (a,), Ok::<RotateArgs, String>(x)),
        call_ensures(rotate_args, (b,), Ok::<RotateArgs, String>(y)),
        text::texts(b@) == text::texts(a@).push(flag),
        "--"@.is_prefix_of(flag),
    ensures
        y.name@ == x.name@,
        y.yes == (x.yes || flag == "--yes"@),
{
    args::lemma_scan_switch(text::texts(a@), rotate_shape(), flag);
    let ps = args::scanned(text::texts(a@), rotate_shape())->Ok_0;
    args::lemma_part_push(ps, args::Part::Switch(flag), "--yes"@);
}

// ---- what holds of the whole ----------------------------------------------------

/// A key is made under a valid name alone, and over another one by force alone.
pub proof fn law_keys_are_not_overwritten(
    name: &str,
    place: &str,
    there: bool,
    force: bool,
    r: Option<String>,
)
    requires
        call_ensures(generate_refusal, (name, place, there, force), r),
    ensures
        r is None ==> 1 <= name@.len() <= 64 && !name@.contains('/') && (there ==> force),
        shared::names_key(name@) && (!there || force) ==> r is None,
{
    if r is None && name@.contains('/') {
        let i = choose|i: int| 0 <= i < name@.len() && name@[i] == '/';
        assert(shared::key_id_char(name@[i]));
    }
}

proof fn lemma_refs_told(refs: Seq<SignedRef>, key: Seq<char>)
    ensures
        forall|i: int|
            0 <= i < refs.len() && (#[trigger] refs[i]).key_id@ == key ==> text::told(
                refs_text(refs, key),
                refs[i].path@,
            ),
        (forall|i: int| 0 <= i < refs.len() ==> (#[trigger] refs[i]).key_id@ != key) ==> refs_text(
            refs,
            key,
        ).len() == 0,
    decreases refs.len(),
{
    if refs.len() > 0 {
        let front = refs.drop_last();
        lemma_refs_told(front, key);
        let all = refs_text(refs, key);
        assert forall|i: int| 0 <= i < refs.len() && (#[trigger] refs[i]).key_id@ == key implies
            text::told(all, refs[i].path@) by {
            if i < front.len() {
                assert(front[i] == refs[i]);
                let p = refs[i].path@;
                let rest = refs_text(front, key);
                let after: Seq<Seq<char>> = if refs.last().key_id@ == key {
                    seq![ref_text(refs.last())]
                } else {
                    seq![]
                };
                text::lemma_told(seq![], rest, after, p);
                assert(all =~= seq![] + rest + after);
            } else {
                let r = refs.last();
                let lead = "  "@ + layout::left(r.kind.text(), 9) + " "@ + layout::left(r.name@, 28)
                    + " ["@ + r.tier@ + " tier] "@;
                text::lemma_holds(lead, r.path@, seq![]);
                assert(ref_text(r) =~= lead + r.path@ + seq![]);
                assert(all.last() == ref_text(r));
                assert(text::holds(all[all.len() - 1], r.path@));
            }
        }
        if forall|i: int| 0 <= i < refs.len() ==> (#[trigger] refs[i]).key_id@ != key {
            assert forall|i: int| 0 <= i < front.len() implies (#[trigger] front[i]).key_id@ != key by {
                assert(front[i] == refs[i]);
            }
            assert(refs[refs.len() - 1].key_id@ != key);
        }
    }
}

/// Whatever a key signs is told, with its path; a key that signs nothing has one line.
pub proof fn law_what_a_key_signs_is_told(refs: &[SignedRef], key: &str, out: Vec<String>)
    requires
        call_ensures(signs_lines, (refs, key), out),
    ensures
        forall|i: int|
            0 <= i < refs@.len() && (#[trigger] refs@[i]).key_id@ == key@ ==> text::told(
                text::texts(out@),
                refs@[i].path@,
            ),
        (forall|i: int| 0 <= i < refs@.len() ==> (#[trigger] refs@[i]).key_id@ != key@)
            ==> out@.len() == 1,
{
    lemma_refs_told(refs@, key@);
    let lines = refs_text(refs@, key@);
    assert(text::texts(out@).len() == out@.len());
    assert forall|i: int| 0 <= i < refs@.len() && (#[trigger] refs@[i]).key_id@ == key@ implies
        text::told(text::texts(out@), refs@[i].path@) by {
        let head = seq!["\nsigns "@ + decimal::dec(lines.len()) + " object(s):"@];
        assert(text::told(lines, refs@[i].path@));
        text::lemma_told(head, lines, seq![], refs@[i].path@);
        assert(head + lines + seq![] =~= head + lines);
    }
}

/// Before a key is no longer trusted, everything that it signs is told.
pub proof fn law_what_untrusting_orphans_is_told(
    refs: &[SignedRef],
    name: &str,
    yes: bool,
    out: Vec<String>,
)
    requires
        call_ensures(untrust_report, (refs, name, yes), out),
    ensures
        forall|i: int|
            0 <= i < refs@.len() && (#[trigger] refs@[i]).key_id@ == name@ ==> text::told(
                text::texts(out@),
                refs@[i].path@,
            ),
{
    lemma_refs_told(refs@, name@);
    let lines = refs_text(refs@, name@);
    let end = layout::line_if(!yes, "\nnothing removed — re-run with --yes to proceed"@);
    assert forall|i: int| 0 <= i < refs@.len() && (#[trigger] refs@[i]).key_id@ == name@ implies
        text::told(text::texts(out@), refs@[i].path@) by {
        let head = seq![
            "untrusting `"@ + name@ + "` orphans "@ + decimal::dec(lines.len())
                + " object(s) — they stop verifying:"@,
        ];
        assert(text::told(lines, refs@[i].path@));
        text::lemma_told(head, lines, end, refs@[i].path@);
    }
}

/// The host trusts a key for root alone, one that reads as a key, under its own name in the trust
/// directory, and in place of another by force alone.
pub proof fn law_trust_is_given_by_root<F: Fn(&str) -> bool>(
    a: &TrustArgs,
    root: bool,
    openssh: bool,
    dir: &str,
    there: &F,
    r: Result<String, String>,
)
    requires
        call_ensures(trust_target::<F>, (a, root, openssh, dir, there), r),
    ensures
        !root || !openssh ==> r is Err,
        r matches Ok(p) ==> (path::file_name_of(a.file@) matches Some(f) && path::file_name_of(p@)
            == Some(path::stem_of(f) + ".pub"@)),
        r matches Ok(p) ==> a.force || shared::says(*there, p@, false),
{
    if let Ok(p) = r {
        let f = path::file_name_of(a.file@)->0;
        let id = path::stem_of(f);
        reveal_strlit(".pub");
        assert(shared::names_key(id));
        let n = id + ".pub"@;
        assert(!n.contains('/')) by {
            if n.contains('/') {
                let i = choose|i: int| 0 <= i < n.len() && n[i] == '/';
                if i < id.len() {
                    assert(shared::key_id_char(id[i]));
                }
            }
        }
        assert(n.len() >= 5);
        path::law_join_file_name(dir@, n);
    }
}

/// Root takes the trust from a key that the host trusts, and from no other; a key rotates where it is
/// the caller's own.
pub proof fn law_own_keys_alone_are_touched(
    name: &str,
    root: bool,
    trusted: bool,
    host: bool,
    mine: bool,
    vendor: bool,
    dir: &str,
    r: Option<String>,
    q: Option<String>,
)
    requires
        call_ensures(untrust_refusal, (name, root, trusted, vendor, dir), r),
        call_ensures(rotate_refusal, (name, host, mine, vendor, dir), q),
    ensures
        r is None <==> (root && trusted),
        q is None <==> mine,
{
}

/// A rotation signs again each template that the key signs at its level and compiles again each
/// policy whose source is found; a policy without source and whatever is of another level it leaves,
/// and what another key signs it does not touch.
pub proof fn law_rotation_plan_takes_each_as_its_kind(
    refs: &[SignedRef],
    name: &str,
    tier: &str,
    p: RotationPlan,
    i: int,
)
    requires
        call_ensures(rotation_plan, (refs, name, tier), p),
        0 <= i < refs@.len() <= usize::MAX,
    ensures
        ({
            let r = refs@[i];
            let mine = r.key_id@ == name@ && r.tier@ == tier@;
            &&& p.templates@.contains(i as usize) <==> mine && r.kind == RefKind::Template
            &&& p.leaves@.contains(i as usize) <==> mine && r.kind == RefKind::Settled && r.source is Some
            &&& p.orphans@.contains(i as usize) <==> mine && r.kind == RefKind::Settled
                && r.source is None
            &&& p.foreign@.contains(i as usize) <==> r.key_id@ == name@ && r.tier@ != tier@
        }),
{
    lemma_drawn(refs@, name@, tier@, Lot::Template, i);
    lemma_drawn(refs@, name@, tier@, Lot::Leaf, i);
    lemma_drawn(refs@, name@, tier@, Lot::Orphan, i);
    lemma_drawn(refs@, name@, tier@, Lot::Foreign, i);
}

/// Everything in a plan is told before it is carried out.
pub proof fn law_plan_is_told(
    refs: &[SignedRef],
    p: &RotationPlan,
    name: &str,
    tier: &str,
    out: Vec<String>,
    k: int,
)
    requires
        call_ensures(print_plan, (refs, p, name, tier), out),
    ensures
        0 <= k < p.templates@.len() ==> text::told(
            text::texts(out@),
            refs@[p.templates@[k] as int].path@,
        ),
        0 <= k < p.leaves@.len() ==> text::told(text::texts(out@), refs@[p.leaves@[k] as int].path@),
        0 <= k < p.orphans@.len() ==> text::told(
            text::texts(out@),
            refs@[p.orphans@[k] as int].path@,
        ),
{
    let all = plan_text(refs@, *p, name@, tier@);
    let head = seq![
        "rotating `"@ + name@ + "` at the "@ + tier@ + " tier — the plan:"@,
        "  1. retire the old pair (`.retired` suffixes), mint a successor `"@ + name@ + "`"@,
    ] + layout::line_if(
        p.templates@.len() == 0 && p.leaves@.len() == 0,
        "  2. nothing signed by this key at the "@ + tier@ + " tier — no re-sign work"@,
    );
    let t = p.templates@.map_values(|i: usize| "  - re-sign template  "@ + refs@[i as int].path@);
    let l = p.leaves@.map_values(|i: usize| leaf_text(refs@[i as int]));
    let o = p.orphans@.map_values(|i: usize| orphan_text(refs@[i as int]));
    assert(all == head + t + l + o);
    if 0 <= k < p.templates@.len() {
        let f = refs@[p.templates@[k] as int].path@;
        text::lemma_holds("  - re-sign template  "@, f, seq![]);
        assert(t[k] =~= "  - re-sign template  "@ + f + seq![]);
        assert(all[head.len() + k] == t[k]);
        assert(text::holds(all[head.len() + k], f));
    }
    if 0 <= k < p.leaves@.len() {
        let r = refs@[p.leaves@[k] as int];
        let source: Seq<char> = match r.source {
            Some(s) => s@,
            None => seq![],
        };
        let end = " (from "@ + source + "; lock re-pins as needed)"@;
        text::lemma_holds("  - recompile leaf    "@, r.path@, end);
        assert(l[k] =~= "  - recompile leaf    "@ + r.path@ + end);
        assert(all[head.len() + t.len() + k] == l[k]);
        assert(text::holds(all[head.len() + t.len() + k], r.path@));
    }
    if 0 <= k < p.orphans@.len() {
        let r = refs@[p.orphans@[k] as int];
        let end = " — settled artefact whose source resolves nowhere in the cascade; it will stop verifying"@;
        text::lemma_holds("  ! cannot rotate     "@, r.path@, end);
        assert(all[head.len() + t.len() + l.len() + k] == o[k]);
        assert(text::holds(all[head.len() + t.len() + l.len() + k], r.path@));
    }
}

/// A rotation is a success just where nothing failed.
pub proof fn law_rotation_with_failures_fails(
    name: &str,
    tier: &str,
    templates: usize,
    leaves: usize,
    failures: usize,
    r: (String, u8),
)
    requires
        call_ensures(rotated_text, (name, tier, templates, leaves, failures), r),
    ensures
        r.1 == 0 <==> failures == 0,
        "rotated"@.is_prefix_of(r.0@) <==> failures == 0,
{
    reveal_strlit("rotated");
    reveal_strlit("rotated `");
    reveal_strlit("rotation of `");
    if failures == 0 {
        assert(r.0@.subrange(0, 7) =~= "rotated"@);
    } else {
        assert(r.0@[5] == 'i');
        if "rotated"@.is_prefix_of(r.0@) {
            assert(r.0@.subrange(0, 7)[5] == "rotated"@[5]);
        }
    }
}

/// A policy is compiled again from its source to its own place with the successor, and gets a lock
/// just where it had one.
pub proof fn law_recompiled_policies_keep_their_place(
    source: &str,
    output: &str,
    key: &str,
    locked: bool,
    out: Vec<String>,
)
    requires
        call_ensures(recompile_args, (source, output, key, locked), out),
    ensures
        ({
            let l = text::texts(out@);
            &&& l[0] == source@
            &&& l[1] == "--key"@ && l[2] == key@
            &&& l[3] == "--output"@ && l[4] == output@
            &&& l.len() == 5 <==> locked
            &&& !locked ==> l.last() == "--no-lock"@
        }),
{
}

/// A lock is renewed where it pins a template that was signed again, and no other.
pub proof fn law_locks_of_resigned_templates_are_renewed(
    artefact: &str,
    pinned: Option<&[String]>,
    resigned: &[String],
    r: Option<String>,
)
    requires
        call_ensures(lock_pinning, (artefact, pinned, resigned), r),
    ensures
        pinned is None ==> r is None,
        resigned@.len() == 0 ==> r is None,
        r is Some ==> (pinned matches Some(v) && exists|i: int|
            0 <= i < v@.len() && text::texts(resigned@).contains((#[trigger] v@[i])@)),
{
    assert(text::texts(resigned@).len() == resigned@.len());
}

/// Whatever is of another level or without source is told at the end.
pub proof fn law_what_is_owed_is_told(refs: &[SignedRef], p: &RotationPlan, out: Vec<String>, k: int)
    requires
        call_ensures(report_owed, (refs, p), out),
    ensures
        0 <= k < p.foreign@.len() ==> text::told(
            text::texts(out@),
            refs@[p.foreign@[k] as int].path@,
        ),
        0 <= k < p.orphans@.len() ==> text::told(
            text::texts(out@),
            refs@[p.orphans@[k] as int].path@,
        ),
        p.foreign@.len() == 0 && p.orphans@.len() == 0 ==> out@.len() == 0,
{
    let all = text::texts(out@);
    assert(all.len() == out@.len());
    let f = p.foreign@.map_values(|i: usize| owed_text(refs@[i as int]));
    let o = p.orphans@.map_values(|i: usize| owed_text(refs@[i as int]));
    if 0 <= k < p.foreign@.len() {
        lemma_owed(refs@[p.foreign@[k] as int]);
        assert(all[2 + k] == f[k]);
        assert(text::holds(all[2 + k], refs@[p.foreign@[k] as int].path@));
    }
    if 0 <= k < p.orphans@.len() {
        lemma_owed(refs@[p.orphans@[k] as int]);
        assert(all[2 + f.len() + k] == o[k]);
        assert(text::holds(all[2 + f.len() + k], refs@[p.orphans@[k] as int].path@));
    }
}

proof fn lemma_owed(r: SignedRef)
    ensures
        text::holds(owed_text(r), r.path@),
{
    let lead = "  "@ + layout::left(r.kind.text(), 9) + " "@ + layout::left(r.name@, 28) + " ["@
        + r.tier@ + " tier] "@;
    let end = " — recompile/re-pin under a key that signs there"@;
    assert(owed_text(r) == lead + r.path@ + end);
    text::lemma_holds(lead, r.path@, end);
}

/// Nothing that was not confirmed is done.
pub proof fn law_unconfirmed_rotations_stop(yes: bool, r: Option<u8>)
    requires
        call_ensures(unconfirmed, (yes,), r),
    ensures
        r is None <==> yes,
        r matches Some(c) ==> c != 0,
{
}

/// Every public key of a store is listed, in the order of the names.
pub proof fn law_store_lists_every_key(names: &[String], out: Vec<String>, i: int)
    requires
        call_ensures(store_keys, (names,), out),
        0 <= i < names@.len(),
        path::extension_of(text::texts(names@)[i]) == Some("pub"@),
    ensures
        text::texts(out@).contains(path::stem_of(text::texts(names@)[i])),
        order::is_ascending(text::texts(out@)),
{
    let all = text::texts(names@);
    assert(all.len() == names@.len());
    shared::lemma_pub_ids(all, i);
    order::law_ascending(shared::pub_ids(all));
}

/// A key that is shown tells its fingerprint, and its private half just where it is there.
pub proof fn law_private_half_is_told_where_it_is(k: &TierKey, fingerprint: &str, out: Vec<String>)
    requires
        call_ensures(key_lines, (k, fingerprint), out),
    ensures
        text::told(text::texts(out@), fingerprint@),
        out@.len() == 3 <==> k.mine,
        out@.len() == 2 <==> !k.mine,
{
    let all = text::texts(out@);
    assert(all.len() == out@.len());
    let lead = k.name@ + " ["@ + k.tier@ + " tier] "@;
    text::lemma_holds(lead, fingerprint@, seq![]);
    assert(all[0] =~= lead + fingerprint@ + seq![]);
    assert(text::holds(all[0], fingerprint@));
}

/// The source of a policy is looked for beside it first.
pub proof fn law_source_is_looked_for_beside_first<F: Fn(&str) -> bool>(
    settled: &str,
    dirs: &[String],
    is_file: &F,
    r: Option<String>,
    d: Seq<char>,
)
    requires
        call_ensures(job_source::<F>, (settled, dirs, is_file), r),
        path::parent_of(settled@) == Some(d),
    ensures
        r is None ==> shared::says(*is_file, path::joined(d, "policy.toml"@), false),
        r matches Some(p) ==> shared::says(*is_file, p@, true) && (p@ == path::joined(
            d,
            "policy.toml"@,
        ) || shared::says(*is_file, path::joined(d, "policy.toml"@), false)),
{
    let places = job_places(settled@, text::texts(dirs@));
    let first = path::joined(d, "policy.toml"@);
    assert(places[0] == first);
    if let Some(p) = r {
        let i = choose|i: int| shared::first_at(*is_file, places, i) && p@ == #[trigger] places[i];
        assert(shared::says(*is_file, places[i], true));
        if i > 0 {
            assert(shared::says(*is_file, places[0], false));
        }
    } else {
        assert(shared::says(*is_file, places[0], false));
    }
}

/// The fingerprint is the second word of what was printed.
pub proof fn law_fingerprint_is_the_second_word(
    printed: &str,
    r: Option<String>,
    a: Seq<char>,
    b: Seq<char>,
    rest: Seq<char>,
)
    requires
        call_ensures(fingerprint_in, (printed,), r),
        words::is_word(a),
        words::is_word(b),
        printed@ == a + seq![' '] + (b + seq![' '] + rest),
    ensures
        r matches Some(f) && f@ == b,
{
    words::lemma_first_word(a, ' ', b + seq![' '] + rest);
    words::lemma_first_word(b, ' ', rest);
}

} // verus!
