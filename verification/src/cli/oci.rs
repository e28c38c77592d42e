//! The `oci` verbs: the store of named images, and what building, updating and reverting an entry
//! of it writes.
//!
//! An entry is one directory below the store: the unpacked image, its configuration, the digest it
//! was pulled from, and the policy that the operator completes and signs.

use super::args;
use super::args::{all_of, is_given, last_of, scan, word_at};
use super::report;
use super::report::guard;
use super::run;
use super::run::separator_at;
use super::shared;
use crate::decimal;
use crate::decimal::dec_text;
use crate::entry;
use crate::entry::env_deny;
use crate::layout;
use crate::layout::{copy_opt, push_line, push_lines};
use crate::order;
use crate::order::ranking;
use crate::path;
use crate::path::{components_of, is_absolute, join, strip_base};
use crate::text;
use crate::text::{
    chars_of, concat2, concat3, concat4, concat5, concat7, copy_all, has_char, has_text,
    is_control, is_whitespace, same,
};
use crate::words;
use crate::words::{split_on, split_once, trim_end, trim_start, trimmed};
use vstd::prelude::*;
use vstd::string::*;

verus! {

// ---- the store -----------------------------------------------------------------

/// The directory of the store: below `xdg` where it is set and not empty, else below `home`.
pub fn store_root(xdg: Option<&str>, home: Option<&str>) -> (r: Result<String, String>)
    ensures
        match (xdg, home) {
            (Some(x), _) if x@.len() > 0 => r matches Ok(p) && p@ == path::joined(
                x@,
                "kennel/images"@,
            ),
            (_, Some(h)) if h@.len() > 0 => r matches Ok(p) && p@ == path::joined(
                h@,
                ".local/share/kennel/images"@,
            ),
            _ => r matches Err(m) && m@
                == "neither XDG_DATA_HOME nor HOME is set; cannot locate the image store"@,
        },
{
    if let Some(x) = xdg {
        if x.unicode_len() > 0 {
            return Ok(join(x, "kennel/images"));
        }
    }
    if let Some(h) = home {
        if h.unicode_len() > 0 {
            return Ok(join(h, ".local/share/kennel/images"));
        }
    }
    Err("neither XDG_DATA_HOME nor HOME is set; cannot locate the image store".to_owned())
}

/// Whether a character may not stand in the name of an entry.
pub open spec fn is_unsafe_char(c: char) -> bool {
    text::is_ctrl(c) || text::is_white(c)
}

/// What is wrong with the name of an entry.
pub open spec fn name_fault(name: Seq<char>) -> Option<Seq<char>> {
    if name.len() == 0 {
        Some("image name is empty"@)
    } else if name == "."@ || name == ".."@ {
        Some("image name `"@ + name + "` is not a valid entry"@)
    } else if name.contains('/') || name.contains('\\') {
        Some("image name `"@ + name + "` must be a single path component (no `/`)"@)
    } else if exists|i: int| 0 <= i < name.len() && is_unsafe_char(#[trigger] name[i]) {
        Some("image name `"@ + name + "` contains control or whitespace characters"@)
    } else if name[0] == '.' {
        Some("image name `"@ + name + "` must not start with `.`"@)
    } else {
        None
    }
}

/// Whether the name of an entry is one safe path component.
pub fn validate_name(name: &str) -> (r: Result<(), String>)
    ensures
        match name_fault(name@) {
            None => r is Ok,
            Some(f) => r matches Err(m) && m@ == f,
        },
{
    let cs = chars_of(name);
    if cs.len() == 0 {
        return Err("image name is empty".to_owned());
    }
    if same(name, ".") || same(name, "..") {
        return Err(concat3("image name `", name, "` is not a valid entry"));
    }
    if has_char(name, '/') || has_char(name, '\\') {
        return Err(
            concat3("image name `", name, "` must be a single path component (no `/`)"),
        );
    }
    let mut i: usize = 0;
    while i < cs.len()
        invariant
            i <= cs@.len(),
            cs@ == name@,
            name@.len() > 0,
            name@ != "."@,
            name@ != ".."@,
            !name@.contains('/'),
            !name@.contains('\\'),
            forall|j: int| 0 <= j < i ==> !is_unsafe_char(#[trigger] name@[j]),
        decreases cs@.len() - i,
    {
        if is_control(cs[i]) || is_whitespace(cs[i]) {
            assert(is_unsafe_char(name@[i as int]));
            return Err(
                concat3(
                    "image name `",
                    name,
                    "` contains control or whitespace characters",
                ),
            );
        }
        i = i + 1;
    }
    if cs[0] == '.' {
        return Err(concat3("image name `", name, "` must not start with `.`"));
    }
    Ok(())
}

/// An entry of the store.
#[derive(Debug)]
pub struct StoreEntry {
    dir: String,
}

impl StoreEntry {
    /// The directory of the entry.
    pub closed spec fn place(self) -> Seq<char> {
        self.dir@
    }

    /// The directory of the entry.
    pub fn dir(&self) -> (r: &str)
        ensures
            r@ == self.place(),
    {
        self.dir.as_str()
    }

    /// The unpacked image.
    pub fn rootfs(&self) -> (r: String)
        ensures
            r@ == path::joined(self.place(), "rootfs"@),
    {
        join(self.dir.as_str(), "rootfs")
    }

    /// The configuration of the image.
    pub fn config(&self) -> (r: String)
        ensures
            r@ == path::joined(self.place(), "config.json"@),
    {
        join(self.dir.as_str(), "config.json")
    }

    /// The file that holds the digest.
    pub fn digest_path(&self) -> (r: String)
        ensures
            r@ == path::joined(self.place(), "digest"@),
    {
        join(self.dir.as_str(), "digest")
    }

    /// The policy of the entry.
    pub fn policy(&self) -> (r: String)
        ensures
            r@ == path::joined(self.place(), "policy.toml"@),
    {
        join(self.dir.as_str(), "policy.toml")
    }

    /// The changes that runs have left.
    pub fn upper(&self) -> (r: String)
        ensures
            r@ == path::joined(self.place(), "upper"@),
    {
        join(self.dir.as_str(), "upper")
    }

    /// The working directory beside them.
    pub fn work(&self) -> (r: String)
        ensures
            r@ == path::joined(self.place(), "work"@),
    {
        join(self.dir.as_str(), "work")
    }

    /// Whether the entry is built: whether the unpacked image is there, as `is_dir` tells.
    pub fn is_built<F: Fn(&str) -> bool>(&self, is_dir: &F) -> (r: bool)
        requires
            forall|s: &str| call_requires(*is_dir, (s,)),
        ensures
            shared::says(*is_dir, path::joined(self.place(), "rootfs"@), r),
    {
        let p = self.rootfs();
        let s = p.as_str();
        let r = is_dir(s);
        assert(call_ensures(*is_dir, (s,), r));
        r
    }

    /// The digest that the text of the digest's file records.
    pub fn read_digest(&self, content: &str) -> (r: String)
        ensures
            r@ == words::trim(content@),
    {
        trimmed(content).to_owned()
    }

    /// The text of the digest's file for an image.
    pub fn write_digest(&self, image: &str) -> (r: String)
        ensures
            r@ == words::trim(image@) + "\n"@,
    {
        concat2(trimmed(image), "\n")
    }
}

/// The digest is read back as it was recorded, without what surrounds it.
pub proof fn law_digest_reads_back(image: Seq<char>)
    ensures
        words::trim(words::trim(image) + "\n"@) == words::trim(image),
{
    reveal_strlit("\n");
    let t = words::trim(image);
    words::law_trim_idempotent(image);
    words::lemma_trim_with_white(t, '\n');
    assert(t + "\n"@ =~= t.push('\n'));
}

/// The store.
#[derive(Debug)]
pub struct Store {
    root: String,
}

impl Store {
    /// The directory of the store.
    pub closed spec fn place(self) -> Seq<char> {
        self.root@
    }

    /// The operator's own store.
    pub fn open(xdg: Option<&str>, home: Option<&str>) -> (r: Result<Store, String>)
        ensures
            match (xdg, home) {
                (Some(x), _) if x@.len() > 0 => r matches Ok(s) && s.place() == path::joined(
                    x@,
                    "kennel/images"@,
                ),
                (_, Some(h)) if h@.len() > 0 => r matches Ok(s) && s.place() == path::joined(
                    h@,
                    ".local/share/kennel/images"@,
                ),
                _ => r matches Err(m) && m@
                    == "neither XDG_DATA_HOME nor HOME is set; cannot locate the image store"@,
            },
    {
        match store_root(xdg, home) {
            Err(e) => Err(e),
            Ok(root) => Ok(Store { root }),
        }
    }

    /// The store at a directory.
    pub fn at(root: String) -> (s: Store)
        ensures
            s.place() == root@,
    {
        Store { root }
    }

    /// The directory of the store.
    pub fn root(&self) -> (r: &str)
        ensures
            r@ == self.place(),
    {
        self.root.as_str()
    }

    /// The entry of a name.
    pub fn entry(&self, name: &str) -> (r: Result<StoreEntry, String>)
        ensures
            match name_fault(name@) {
                None => r matches Ok(e) && e.place() == path::joined(self.place(), name@),
                Some(f) => r matches Err(m) && m@ == f,
            },
    {
        match validate_name(name) {
            Err(e) => Err(e),
            Ok(()) => Ok(StoreEntry { dir: join(self.root.as_str(), name) }),
        }
    }
}

/// A name that is accepted is always one directory of the store: the entry's last component is the
/// name, what lies over it is the store's root, and entries of different names are different
/// directories.
pub proof fn law_entry_is_one_directory(root: Seq<char>, name: Seq<char>, other: Seq<char>)
    requires
        name_fault(name) is None,
        name_fault(other) is None,
    ensures
        path::file_name_of(path::joined(root, name)) == Some(name),
        path::parent_of(path::joined(root, name)) == Some(path::trimmed(root)),
        path::rooted(path::trimmed(root)) == path::rooted(root),
        path::dotted(path::trimmed(root)) == path::dotted(root),
        path::components(path::trimmed(root)) == path::components(root),
        name != other ==> path::joined(root, name) != path::joined(root, other),
{
    reveal_strlit(".");
    reveal_strlit("..");
    assert(seq!['.'] =~= "."@);
    assert(seq!['.', '.'] =~= ".."@);
    path::law_join_file_name(root, name);
    path::law_join_file_name(root, other);
    path::law_join_parent(root, name);
}

// ---- the closure lock ----------------------------------------------------------

/// The directories that hold what an image executes.
pub const FHS_CLOSURE: [&'static str; 7] = [
    "/usr",
    "/bin",
    "/sbin",
    "/lib",
    "/lib64",
    "/lib32",
    "/libx32",
];

/// Whether the user of an image is not root: `uid`, `uid:gid`, `user` or `user:group`, whose first
/// part is neither `0` nor `root`.
pub open spec fn runs_nonroot(user: Option<Seq<char>>) -> bool {
    match user {
        None => false,
        Some(u) => {
            let t = words::trim(u);
            let first = match words::cut(t, ':') {
                Some((a, _)) => a,
                None => t,
            };
            t.len() > 0 && first != "0"@ && first != "root"@
        },
    }
}

/// The lock that a build derives from the user of the image.
pub open spec fn base_lock(user: Option<Seq<char>>) -> Seq<Seq<char>> {
    if runs_nonroot(user) {
        text::strs(FHS_CLOSURE@)
    } else {
        seq![]
    }
}

/// The text behind a reference, where there is one.
pub open spec fn seen(s: Option<&str>) -> Option<Seq<char>> {
    match s {
        Some(t) => Some(t@),
        None => None,
    }
}

/// The lock that a build derives from the user of the image.
pub fn derive_closure_readonly(config_user: Option<&str>) -> (out: Vec<String>)
    ensures
        text::texts(out@) == base_lock(seen(config_user)),
{
    let mut out: Vec<String> = Vec::new();
    assert(text::texts(out@) =~= seq![]);
    if let Some(u) = config_user {
        let t = trimmed(u);
        if t.unicode_len() > 0 {
            let first = match split_once(t, ':') {
                Some((a, _)) => a,
                None => t,
            };
            if !same(first, "0") && !same(first, "root") {
                let all: &[&'static str] = &FHS_CLOSURE;
                let ghost want = text::strs(FHS_CLOSURE@);
                let mut i: usize = 0;
                assert(want.take(0) =~= seq![]);
                while i < all.len()
                    invariant
                        i <= all@.len(),
                        all@ == FHS_CLOSURE@,
                        want == text::strs(FHS_CLOSURE@),
                        text::texts(out@) == want.take(i as int),
                    decreases all@.len() - i,
                {
                    push_line(&mut out, all[i].to_owned());
                    i = i + 1;
                    assert(text::texts(out@) =~= want.take(i as int));
                }
                assert(want.take(want.len() as int) =~= want);
            }
        }
    }
    out
}

/// The directories of the executable closure.
pub open spec fn closure() -> Seq<Seq<char>> {
    seq!["/usr"@, "/bin"@, "/sbin"@, "/lib"@, "/lib64"@, "/lib32"@, "/libx32"@]
}

/// Whether an image names a user, and one that is not root: a user that is given by number or by
/// name, alone or ahead of `:` and a group.
pub open spec fn names_other_than_root(user: Option<Seq<char>>) -> bool {
    match user {
        None => false,
        Some(u) => {
            let t = words::trim(u);
            &&& t.len() > 0
            &&& t != "0"@
            &&& t != "root"@
            &&& !"0:"@.is_prefix_of(t)
            &&& !"root:"@.is_prefix_of(t)
        },
    }
}

proof fn lemma_user_before_colon(t: Seq<char>, name: Seq<char>, led: Seq<char>)
    requires
        led == name + seq![':'],
        !name.contains(':'),
    ensures
        (match words::cut(t, ':') {
            Some((a, _)) => a,
            None => t,
        }) == name <==> t == name || led.is_prefix_of(t),
{
    let k = text::until(t, ':');
    text::lemma_until(t, ':');
    if k < t.len() {
        assert(t.contains(t[k]));
        if t.take(k) == name {
            assert(t.take(k + 1) =~= led);
        }
        if led.is_prefix_of(t) {
            let n = name.len() as int;
            assert(t[n] == led[n]);
            assert forall|j: int| 0 <= j < n implies t[j] != ':' by {
                assert(t[j] == led[j]);
                assert(name.contains(name[j]));
            }
            text::lemma_until_is(t, ':', n);
            assert(t.take(n) =~= name);
        }
    } else if led.is_prefix_of(t) {
        assert(t[name.len() as int] == led[name.len() as int]);
        assert(t.contains(':'));
    }
}

proof fn lemma_base_lock(user: Option<Seq<char>>)
    ensures
        base_lock(user) == if names_other_than_root(user) {
            closure()
        } else {
            seq![]
        },
{
    reveal_strlit("0");
    reveal_strlit("root");
    reveal_strlit("0:");
    reveal_strlit("root:");
    assert("0:"@ =~= "0"@ + seq![':']);
    assert("root:"@ =~= "root"@ + seq![':']);
    if let Some(u) = user {
        lemma_user_before_colon(words::trim(u), "0"@, "0:"@);
        lemma_user_before_colon(words::trim(u), "root"@, "root:"@);
    }
    assert(text::strs(FHS_CLOSURE@) =~= closure());
}

/// The whole executable closure is locked where the image names a user other than root, and nothing
/// where it names none or root.
pub proof fn law_closure_is_locked_for_other_users(config_user: Option<&str>, out: Vec<String>)
    requires
        call_ensures(derive_closure_readonly, (config_user,), out),
    ensures
        text::texts(out@) == if names_other_than_root(
            match config_user {
                Some(u) => Some(u@),
                None => None,
            },
        ) {
            closure()
        } else {
            seq![]
        },
{
    lemma_base_lock(seen(config_user));
}

/// The text that the JSON in `bytes` holds under `outer` and, in it, under `inner`.
pub uninterp spec fn json_text(bytes: Seq<u8>, outer: Seq<char>, inner: Seq<char>) -> Option<
    Seq<char>,
>;

/// `serde_json::from_slice` into a `Value`, `Value::get` twice and `Value::as_str`: the string that
/// stands under `outer` and then `inner`, nothing where the bytes are no JSON or no string stands
/// there. The result depends on the arguments alone; what it is takes the JSON grammar to say.
#[verifier::external_body]
fn json_text_at(bytes: &[u8], outer: &str, inner: &str) -> (r: Option<String>)
    ensures
        layout::opt(r) == json_text(bytes@, outer@, inner@),
{
    let v: serde_json::Value = serde_json::from_slice(bytes).ok()?;
    v.get(outer)?.get(inner)?.as_str().map(str::to_owned)
}

/// The user that the configuration of an image names.
pub open spec fn image_user(config: Option<Seq<u8>>) -> Option<Seq<char>> {
    match config {
        Some(b) => json_text(b, "config"@, "User"@),
        None => None,
    }
}

/// The bytes behind a reference, where there are any.
pub open spec fn held(b: Option<&[u8]>) -> Option<Seq<u8>> {
    match b {
        Some(x) => Some(x@),
        None => None,
    }
}

/// The user that the configuration of an image names, where the configuration could be read.
pub fn read_image_user(config: Option<&[u8]>) -> (r: Option<String>)
    ensures
        layout::opt(r) == image_user(held(config)),
{
    match config {
        Some(b) => json_text_at(b, "config", "User"),
        None => None,
    }
}

fn lock_of(config: Option<&[u8]>) -> (out: Vec<String>)
    ensures
        text::texts(out@) == base_lock(image_user(held(config))),
{
    match read_image_user(config) {
        Some(u) => derive_closure_readonly(Some(u.as_str())),
        None => derive_closure_readonly(None),
    }
}

/// `old` entries that the old lock did not derive, behind the new lock, each once.
pub open spec fn preserved(
    old_readonly: Seq<Seq<char>>,
    old_base: Seq<Seq<char>>,
    new_base: Seq<Seq<char>>,
) -> Seq<Seq<char>>
    decreases old_readonly.len(),
{
    if old_readonly.len() == 0 {
        new_base
    } else {
        let front = preserved(old_readonly.drop_last(), old_base, new_base);
        let p = old_readonly.last();
        if old_base.contains(p) || front.contains(p) {
            front
        } else {
            front.push(p)
        }
    }
}

/// The lock for a new image: what it derives, and then what the operator has added by hand.
pub fn preserve_closure(
    old_readonly: &[String],
    old_base: &[String],
    new_base: &[String],
) -> (out: Vec<String>)
    ensures
        text::texts(out@) == preserved(
            text::texts(old_readonly@),
            text::texts(old_base@),
            text::texts(new_base@),
        ),
{
    let ghost all = text::texts(old_readonly@);
    let mut out = copy_all(new_base);
    let mut i: usize = 0;
    assert(all.take(0) =~= seq![]);
    while i < old_readonly.len()
        invariant
            i <= old_readonly@.len(),
            all == text::texts(old_readonly@),
            text::texts(out@) == preserved(
                all.take(i as int),
                text::texts(old_base@),
                text::texts(new_base@),
            ),
        decreases old_readonly@.len() - i,
    {
        proof {
            assert(all.take(i + 1).drop_last() =~= all.take(i as int));
            assert(all.take(i + 1).last() == old_readonly@[i as int]@);
        }
        let p = old_readonly[i].as_str();
        if !has_text(old_base, p) && !has_text(out.as_slice(), p) {
            push_line(&mut out, p.to_owned());
        }
        i = i + 1;
    }
    assert(all.take(all.len() as int) =~= all);
    out
}

/// An update keeps the operator's carve-outs: the new lock starts with what the new image derives,
/// holds every entry that the old image had not derived, and nothing else.
pub proof fn law_carve_outs_are_preserved(
    old_readonly: Seq<Seq<char>>,
    old_base: Seq<Seq<char>>,
    new_base: Seq<Seq<char>>,
    p: Seq<char>,
)
    ensures
        new_base.is_prefix_of(preserved(old_readonly, old_base, new_base)),
        preserved(old_readonly, old_base, new_base).contains(p) <==> new_base.contains(p) || (
        old_readonly.contains(p) && !old_base.contains(p)),
    decreases old_readonly.len(),
{
    let r = preserved(old_readonly, old_base, new_base);
    if old_readonly.len() > 0 {
        let init = old_readonly.drop_last();
        let last = old_readonly.last();
        let front = preserved(init, old_base, new_base);
        law_carve_outs_are_preserved(init, old_base, new_base, p);
        law_carve_outs_are_preserved(init, old_base, new_base, last);
        assert(old_readonly.contains(p) <==> init.contains(p) || p == last) by {
            assert(old_readonly =~= init.push(last));
            if init.contains(p) {
                let i = choose|i: int| 0 <= i < init.len() && init[i] == p;
                assert(old_readonly[i] == p);
            }
            if p == last {
                assert(old_readonly[old_readonly.len() - 1] == p);
            }
            if old_readonly.contains(p) && p != last {
                let i = choose|i: int| 0 <= i < old_readonly.len() && old_readonly[i] == p;
                assert(init[i] == p);
            }
        }
        if !(old_base.contains(last) || front.contains(last)) {
            assert(r == front.push(last));
            assert(r.contains(p) <==> front.contains(p) || p == last) by {
                if front.contains(p) {
                    let i = choose|i: int| 0 <= i < front.len() && front[i] == p;
                    assert(r[i] == p);
                }
                if p == last {
                    assert(r[r.len() - 1] == p);
                }
                if r.contains(p) && p != last {
                    let i = choose|i: int| 0 <= i < r.len() && r[i] == p;
                    assert(front[i] == p);
                }
            }
            assert(new_base =~= r.take(new_base.len() as int));
        }
    } else {
        assert(new_base =~= r.take(new_base.len() as int));
    }
}

// ---- texts of a policy ---------------------------------------------------------

/// Texts in double quotes, one after the other.
pub open spec fn quoted(v: Seq<Seq<char>>) -> Seq<char> {
    words::joined(v.map_values(|p: Seq<char>| "\""@ + p + "\""@), ", "@)
}

fn quoted_text(v: &[String]) -> (r: String)
    ensures
        r@ == quoted(text::texts(v@)),
{
    let ghost want = text::texts(v@).map_values(|p: Seq<char>| "\""@ + p + "\""@);
    let mut out: Vec<String> = Vec::new();
    let mut i: usize = 0;
    assert(text::texts(out@) =~= want.take(0));
    while i < v.len()
        invariant
            i <= v@.len(),
            want == text::texts(v@).map_values(|p: Seq<char>| "\""@ + p + "\""@),
            text::texts(out@) == want.take(i as int),
        decreases v@.len() - i,
    {
        push_line(&mut out, concat3("\"", v[i].as_str(), "\""));
        i = i + 1;
        assert(text::texts(out@) =~= want.take(i as int));
    }
    assert(want.take(want.len() as int) =~= want);
    words::join(out.as_slice(), ", ")
}

/// The line of a policy that locks directories.
pub open spec fn lock_line(readonly: Seq<Seq<char>>) -> Seq<char> {
    if readonly.len() == 0 {
        "# readonly = [\"/usr\", \"/lib\"]   # closure-lock: build derived none (all-root image)\n"@
    } else {
        "readonly = ["@ + quoted(readonly)
            + "]   # closure-lock (build-derived, §7.11.4c); review + sign\n"@
    }
}

/// The policy that a build writes for a new entry: confined, with the image as its root, the lock
/// that was derived, and the variables that the image may not set.
pub open spec fn scaffold(
    name: Seq<char>,
    rootfs: Seq<char>,
    image: Seq<char>,
    readonly: Seq<Seq<char>>,
) -> Seq<char> {
    "# Scaffolded by `kennel oci build "@ + name
        + "`. Complete `reason`, then sign:\n#   kennel policy sign "@ + name
        + " --key <key>\nname = \""@ + name
        + "\"\ntemplate_base = \"base-confined@v1\"\n\n[rootfs]\npath   = \""@ + rootfs
        + "\"\nimage  = \""@ + image
        + "\"\nreason = \"TODO: why this image is trusted as the kennel substrate\"\n"@ + lock_line(
        readonly,
    )
        + "# persistence = \"discard\"  # discard (default) | persist\n# writable = [\"/usr/lib/python3.12\"]  # carve a hole back out of readonly (loud)\n\n# Loader/runtime/shell-injection env denied (mirrors the launcher's env_strip, §7.11.6):\n# the launcher strips these from the image Env; denying them here also covers any\n# [env].pass you add. The image's own benign Env still merges (sanitised) via the launcher.\n[env]\ndeny = ["@
        + quoted(entry::deny_globs())
        + "]\n\n# Additive grants bind on top of the image, e.g.:\n# [fs]\n# write = [\"~/code/"@ + name
        + "/**\"]\n\n# Entrypoint comes from the image config via the launcher.\n# [workload] is not valid in an OCI policy — the digest is the provenance anchor.\n"@
}

/// The policy that a build writes for a new entry.
pub fn scaffold_policy(name: &str, rootfs_path: &str, image: &str, readonly: &[String]) -> (r: String)
    ensures
        r@ == scaffold(name@, rootfs_path@, image@, text::texts(readonly@)),
{
    let lock = if readonly.len() == 0 {
        "# readonly = [\"/usr\", \"/lib\"]   # closure-lock: build derived none (all-root image)\n".to_owned()
    } else {
        let list = quoted_text(readonly);
        concat3(
            "readonly = [",
            list.as_str(),
            "]   # closure-lock (build-derived, §7.11.4c); review + sign\n",
        )
    };
    assert(text::texts(readonly@).len() == readonly@.len());
    let deny = env_deny();
    let deny_list = quoted_text(deny.as_slice());
    let a = concat7(
        "# Scaffolded by `kennel oci build ",
        name,
        "`. Complete `reason`, then sign:\n#   kennel policy sign ",
        name,
        " --key <key>\nname = \"",
        name,
        "\"\ntemplate_base = \"base-confined@v1\"\n\n[rootfs]\npath   = \"",
    );
    let b = concat7(
        a.as_str(),
        rootfs_path,
        "\"\nimage  = \"",
        image,
        "\"\nreason = \"TODO: why this image is trusted as the kennel substrate\"\n",
        lock.as_str(),
        "# persistence = \"discard\"  # discard (default) | persist\n# writable = [\"/usr/lib/python3.12\"]  # carve a hole back out of readonly (loud)\n\n# Loader/runtime/shell-injection env denied (mirrors the launcher's env_strip, §7.11.6):\n# the launcher strips these from the image Env; denying them here also covers any\n# [env].pass you add. The image's own benign Env still merges (sanitised) via the launcher.\n[env]\ndeny = [",
    );
    concat5(
        b.as_str(),
        deny_list.as_str(),
        "]\n\n# Additive grants bind on top of the image, e.g.:\n# [fs]\n# write = [\"~/code/",
        name,
        "/**\"]\n\n# Entrypoint comes from the image config via the launcher.\n# [workload] is not valid in an OCI policy — the digest is the provenance anchor.\n",
    )
}

/// Whether a glob of a policy covers a name: a trailing `*` stands for any rest.
pub open spec fn covers(glob: Seq<char>, name: Seq<char>) -> bool {
    if glob.len() > 0 && glob.last() == '*' {
        glob.drop_last().is_prefix_of(name)
    } else {
        glob == name
    }
}

/// The policy of a new entry denies just the variables that the launcher drops.
pub proof fn law_scaffold_mirrors_the_launcher(name: Seq<char>)
    ensures
        (exists|i: int|
            0 <= i < entry::deny_globs().len() && covers(#[trigger] entry::deny_globs()[i], name))
            <==> entry::barred(name),
{
    let ps = text::strs(entry::STRIP_PREFIXES@);
    let es = text::strs(entry::STRIP_EXACT@);
    let gs = entry::deny_globs();
    reveal_strlit("*");
    assert(ps.len() == 2 && es.len() == 30 && gs.len() == 32);
    assert forall|i: int| 0 <= i < 2 implies covers(gs[i], name) == (#[trigger] ps[i]).is_prefix_of(
        name,
    ) by {
        assert(gs[i] == ps[i] + "*"@);
        assert(gs[i].drop_last() =~= ps[i]);
    }
    assert forall|i: int| 0 <= i < 30 implies covers(gs[i + 2], name) == (#[trigger] es[i] == name) by {
        assert(gs[i + 2] == es[i]);
        lemma_no_star(i);
    }
    if exists|i: int| 0 <= i < gs.len() && covers(#[trigger] gs[i], name) {
        let i = choose|i: int| 0 <= i < gs.len() && covers(#[trigger] gs[i], name);
        if i < 2 {
            assert(ps[i].is_prefix_of(name));
        } else {
            assert(es[i - 2] == name);
        }
    }
    if entry::barred(name) {
        if exists|i: int| 0 <= i < 2 && (#[trigger] ps[i]).is_prefix_of(name) {
            let i = choose|i: int| 0 <= i < 2 && (#[trigger] ps[i]).is_prefix_of(name);
            assert(covers(gs[i], name));
        } else {
            let i = choose|i: int| 0 <= i < es.len() && es[i] == name;
            assert(covers(gs[i + 2], name));
        }
    }
}

proof fn lemma_no_star(i: int)
    requires
        0 <= i < 30,
    ensures
        text::strs(entry::STRIP_EXACT@)[i].len() > 0,
        text::strs(entry::STRIP_EXACT@)[i].last() != '*',
{
    reveal_strlit("GCONV_PATH");
    reveal_strlit("GETCONF_DIR");
    reveal_strlit("HOSTALIASES");
    reveal_strlit("LOCALDOMAIN");
    reveal_strlit("LOCPATH");
    reveal_strlit("MALLOC_TRACE");
    reveal_strlit("NIS_PATH");
    reveal_strlit("NLSPATH");
    reveal_strlit("RESOLV_HOST_CONF");
    reveal_strlit("RES_OPTIONS");
    reveal_strlit("TMPDIR");
    reveal_strlit("TZDIR");
    reveal_strlit("NODE_OPTIONS");
    reveal_strlit("NODE_PATH");
    reveal_strlit("PYTHONPATH");
    reveal_strlit("PYTHONHOME");
    reveal_strlit("PYTHONSTARTUP");
    reveal_strlit("PERL5LIB");
    reveal_strlit("PERL5OPT");
    reveal_strlit("PERLLIB");
    reveal_strlit("RUBYLIB");
    reveal_strlit("RUBYOPT");
    reveal_strlit("CLASSPATH");
    reveal_strlit("JAVA_TOOL_OPTIONS");
    reveal_strlit("_JAVA_OPTIONS");
    reveal_strlit("JDK_JAVA_OPTIONS");
    reveal_strlit("BASH_ENV");
    reveal_strlit("ENV");
    reveal_strlit("SHELLOPTS");
    reveal_strlit("BASHOPTS");
}


// ---- arguments -----------------------------------------------------------------

/// The verbs.
#[derive(Debug, Clone, Copy, PartialEq, Eq, Structural)]
pub enum Verb {
    /// Fetch an image into an entry.
    Build,
    /// Run an entry.
    Run,
    /// Restore an entry toward its image.
    Revert,
    /// Replace the image of an entry.
    Update,
}

/// The verb of `kennel oci` and whether it is one.
pub fn dispatch(args: &[String]) -> (r: Result<Verb, String>)
    ensures
        if args@.len() == 0 {
            r matches Err(m) && m@ == "usage: kennel oci <build|run> <name> [...]"@
        } else if args@[0]@ == "build"@ {
            r == Ok::<Verb, String>(Verb::Build)
        } else if args@[0]@ == "run"@ {
            r == Ok::<Verb, String>(Verb::Run)
        } else if args@[0]@ == "revert"@ {
            r == Ok::<Verb, String>(Verb::Revert)
        } else if args@[0]@ == "update"@ {
            r == Ok::<Verb, String>(Verb::Update)
        } else {
            r matches Err(m) && m@ == "unknown `kennel oci` verb `"@ + args@[0]@
                + "` (expected build|run|revert|update)"@
        },
{
    if args.len() == 0 {
        return Err("usage: kennel oci <build|run> <name> [...]".to_owned());
    }
    let verb = args[0].as_str();
    if same(verb, "build") {
        Ok(Verb::Build)
    } else if same(verb, "run") {
        Ok(Verb::Run)
    } else if same(verb, "revert") {
        Ok(Verb::Revert)
    } else if same(verb, "update") {
        Ok(Verb::Update)
    } else {
        Err(
            concat3(
                "unknown `kennel oci` verb `",
                verb,
                "` (expected build|run|revert|update)",
            ),
        )
    }
}

/// What `kennel oci build` is asked for.
#[derive(Debug)]
pub struct BuildArgs {
    /// The store entry.
    pub name: String,
    /// The image.
    pub image: Option<String>,
    /// Whether an entry that is there is overwritten.
    pub force: bool,
    /// Whether the image is not fetched.
    pub no_fetch: bool,
    /// The signing key.
    pub key: Option<String>,
    /// Template directories searched first.
    pub template_dirs: Vec<String>,
    /// Trust directories searched first.
    pub trust_dirs: Vec<String>,
}

/// The command line of `kennel oci build`.
pub open spec fn build_shape() -> args::Shape {
    args::Shape {
        switches: seq!["--force"@, "--no-fetch"@],
        options: seq!["--image"@, "--key"@, "--template-dir"@, "--trust-dir"@],
        room: 1,
        extra: "unexpected extra argument"@,
    }
}

impl BuildArgs {
    /// Whether these are the arguments that the parts of the command line give.
    pub open spec fn reads(self, ps: Seq<args::Part>) -> bool {
        &&& args::word(ps, 0) == Some(self.name@)
        &&& layout::opt(self.image) == args::chosen(ps, "--image"@)
        &&& self.force == args::given(ps, "--force"@)
        &&& self.no_fetch == args::given(ps, "--no-fetch"@)
        &&& layout::opt(self.key) == args::chosen(ps, "--key"@)
        &&& text::texts(self.template_dirs@) == args::values(ps, "--template-dir"@)
        &&& text::texts(self.trust_dirs@) == args::values(ps, "--trust-dir"@)
    }
}

/// What `kennel oci build` is asked for, or what is wrong with its arguments.
pub fn build_args(list: &[String]) -> (r: Result<BuildArgs, String>)
    ensures
        match args::scanned(text::texts(list@), build_shape()) {
            Err(e) => r matches Err(m) && m@ == e,
            Ok(ps) => if args::words(ps).len() == 0 {
                r matches Err(m) && m@ == "usage: kennel oci build <name> --image <ref> [--no-fetch] [--force] [--key K]"@
            } else {
                r matches Ok(a) && a.reads(ps)
            },
        },
{
    let sw: [&str; 2] = ["--force", "--no-fetch"];
    let op: [&str; 4] = ["--image", "--key", "--template-dir", "--trust-dir"];
    proof {
        assert(text::strs(sw@) =~= build_shape().switches);
        assert(text::strs(op@) =~= build_shape().options);
    }
    let items = match scan(list, &sw, &op, 1, "unexpected extra argument") {
        Err(e) => {
            return Err(e);
        },
        Ok(items) => items,
    };
    let items = items.as_slice();
    let name = match word_at(items, 0) {
        None => {
            return Err("usage: kennel oci build <name> --image <ref> [--no-fetch] [--force] [--key K]".to_owned());
        },
        Some(w) => w,
    };
    Ok(
        BuildArgs {
            name,
            image: last_of(items, "--image"),
            force: is_given(items, "--force"),
            no_fetch: is_given(items, "--no-fetch"),
            key: last_of(items, "--key"),
            template_dirs: all_of(items, "--template-dir"),
            trust_dirs: all_of(items, "--trust-dir"),
        },
    )
}

/// What `kennel oci update` before the separator is asked for.
#[derive(Debug)]
pub struct UpdateArgs {
    /// The store entry.
    pub name: String,
    /// Whether the persisted state is kept.
    pub keep_state: bool,
    /// Whether the image is not fetched.
    pub no_fetch: bool,
    /// The signing key.
    pub key: Option<String>,
    /// Template directories searched first.
    pub template_dirs: Vec<String>,
    /// Trust directories searched first.
    pub trust_dirs: Vec<String>,
}

/// The command line of `kennel oci update` before the separator.
pub open spec fn update_shape() -> args::Shape {
    args::Shape {
        switches: seq!["--keep-state"@, "--no-fetch"@],
        options: seq!["--key"@, "--template-dir"@, "--trust-dir"@],
        room: 1,
        extra: "unexpected extra argument before `--`"@,
    }
}

impl UpdateArgs {
    /// Whether these are the arguments that the parts of the command line give.
    pub open spec fn reads(self, ps: Seq<args::Part>) -> bool {
        &&& args::word(ps, 0) == Some(self.name@)
        &&& self.keep_state == args::given(ps, "--keep-state"@)
        &&& self.no_fetch == args::given(ps, "--no-fetch"@)
        &&& layout::opt(self.key) == args::chosen(ps, "--key"@)
        &&& text::texts(self.template_dirs@) == args::values(ps, "--template-dir"@)
        &&& text::texts(self.trust_dirs@) == args::values(ps, "--trust-dir"@)
    }
}

/// What `kennel oci update` before the separator is asked for, or what is wrong with its arguments.
fn update_head(list: &[String]) -> (r: Result<UpdateArgs, String>)
    ensures
        match args::scanned(text::texts(list@), update_shape()) {
            Err(e) => r matches Err(m) && m@ == e,
            Ok(ps) => if args::words(ps).len() == 0 {
                r matches Err(m) && m@ == "usage: kennel oci update <name> [--keep-state] -- <new-image-ref>"@
            } else {
                r matches Ok(a) && a.reads(ps)
            },
        },
{
    let sw: [&str; 2] = ["--keep-state", "--no-fetch"];
    let op: [&str; 3] = ["--key", "--template-dir", "--trust-dir"];
    proof {
        assert(text::strs(sw@) =~= update_shape().switches);
        assert(text::strs(op@) =~= update_shape().options);
    }
    let items = match scan(list, &sw, &op, 1, "unexpected extra argument before `--`") {
        Err(e) => {
            return Err(e);
        },
        Ok(items) => items,
    };
    let items = items.as_slice();
    let name = match word_at(items, 0) {
        None => {
            return Err("usage: kennel oci update <name> [--keep-state] -- <new-image-ref>".to_owned());
        },
        Some(w) => w,
    };
    Ok(
        UpdateArgs {
            name,
            keep_state: is_given(items, "--keep-state"),
            no_fetch: is_given(items, "--no-fetch"),
            key: last_of(items, "--key"),
            template_dirs: all_of(items, "--template-dir"),
            trust_dirs: all_of(items, "--trust-dir"),
        },
    )
}

/// What `kennel oci revert` before the separator is asked for.
#[derive(Debug)]
pub struct RevertArgs {
    /// The store entry.
    pub name: String,
    /// Whether the changes are only listed.
    pub list: bool,
}

/// The command line of `kennel oci revert` before the separator.
pub open spec fn revert_shape() -> args::Shape {
    args::Shape {
        switches: seq!["--list"@],
        options: seq![],
        room: 1,
        extra: "unexpected extra argument before `--`"@,
    }
}

impl RevertArgs {
    /// Whether these are the arguments that the parts of the command line give.
    pub open spec fn reads(self, ps: Seq<args::Part>) -> bool {
        &&& args::word(ps, 0) == Some(self.name@)
        &&& self.list == args::given(ps, "--list"@)
    }
}

/// What `kennel oci revert` before the separator is asked for, or what is wrong with its arguments.
fn revert_head(list: &[String]) -> (r: Result<RevertArgs, String>)
    ensures
        match args::scanned(text::texts(list@), revert_shape()) {
            Err(e) => r matches Err(m) && m@ == e,
            Ok(ps) => if args::words(ps).len() == 0 {
                r matches Err(m) && m@ == "usage: kennel oci revert <name> [--list] [-- <path>…]"@
            } else {
                r matches Ok(a) && a.reads(ps)
            },
        },
{
    let sw: [&str; 1] = ["--list"];
    let op: [&str; 0] = [];
    proof {
        assert(text::strs(sw@) =~= revert_shape().switches);
        assert(text::strs(op@) =~= revert_shape().options);
    }
    let items = match scan(list, &sw, &op, 1, "unexpected extra argument before `--`") {
        Err(e) => {
            return Err(e);
        },
        Ok(items) => items,
    };
    let items = items.as_slice();
    let name = match word_at(items, 0) {
        None => {
            return Err("usage: kennel oci revert <name> [--list] [-- <path>…]".to_owned());
        },
        Some(w) => w,
    };
    Ok(
        RevertArgs {
            name,
            list: is_given(items, "--list"),
        },
    )
}

/// What `kennel oci run` before the separator is asked for.
#[derive(Debug)]
pub struct OciRunArgs {
    /// The store entry.
    pub name: String,
    /// Whether a pinned workload may be overridden.
    pub force: bool,
    /// The signing key.
    pub key: Option<String>,
}

/// The command line of `kennel oci run` before the separator.
pub open spec fn run_shape() -> args::Shape {
    args::Shape {
        switches: seq!["--force"@],
        options: seq!["--key"@],
        room: 1,
        extra: "unexpected extra argument before `--`"@,
    }
}

impl OciRunArgs {
    /// Whether these are the arguments that the parts of the command line give.
    pub open spec fn reads(self, ps: Seq<args::Part>) -> bool {
        &&& args::word(ps, 0) == Some(self.name@)
        &&& self.force == args::given(ps, "--force"@)
        &&& layout::opt(self.key) == args::chosen(ps, "--key"@)
    }
}

/// What `kennel oci run` before the separator is asked for, or what is wrong with its arguments.
fn run_head(list: &[String]) -> (r: Result<OciRunArgs, String>)
    ensures
        match args::scanned(text::texts(list@), run_shape()) {
            Err(e) => r matches Err(m) && m@ == e,
            Ok(ps) => if args::words(ps).len() == 0 {
                r matches Err(m) && m@ == "usage: kennel oci run <name> [--key K] [--force] [-- <cmd...>]"@
            } else {
                r matches Ok(a) && a.reads(ps)
            },
        },
{
    let sw: [&str; 1] = ["--force"];
    let op: [&str; 1] = ["--key"];
    proof {
        assert(text::strs(sw@) =~= run_shape().switches);
        assert(text::strs(op@) =~= run_shape().options);
    }
    let items = match scan(list, &sw, &op, 1, "unexpected extra argument before `--`") {
        Err(e) => {
            return Err(e);
        },
        Ok(items) => items,
    };
    let items = items.as_slice();
    let name = match word_at(items, 0) {
        None => {
            return Err("usage: kennel oci run <name> [--key K] [--force] [-- <cmd...>]".to_owned());
        },
        Some(w) => w,
    };
    Ok(
        OciRunArgs {
            name,
            force: is_given(items, "--force"),
            key: last_of(items, "--key"),
        },
    )
}

/// The arguments before the first `--`.
pub open spec fn head_of(list: Seq<Seq<char>>) -> Seq<Seq<char>> {
    list.take(run::separator(list) as int)
}

/// The arguments behind the first `--`.
pub open spec fn tail_of(list: Seq<Seq<char>>) -> Seq<Seq<char>> {
    if run::separator(list) < list.len() {
        list.skip(run::separator(list) as int + 1)
    } else {
        seq![]
    }
}

fn head(list: &[String]) -> (r: &[String])
    ensures
        text::texts(r@) == head_of(text::texts(list@)),
{
    let cut: usize = separator_at(list);
    let r = vstd::slice::slice_subrange(list, 0, cut);
    assert(text::texts(r@) =~= text::texts(list@).take(cut as int));
    r
}

fn tail(list: &[String]) -> (out: Vec<String>)
    ensures
        text::texts(out@) == tail_of(text::texts(list@)),
{
    let cut: usize = separator_at(list);
    let n: usize = list.len();
    if cut < n {
        let r = vstd::slice::slice_subrange(list, cut + 1, n);
        assert(text::texts(r@) =~= text::texts(list@).skip(cut + 1));
        copy_all(r)
    } else {
        let out: Vec<String> = Vec::new();
        assert(text::texts(out@) =~= seq![]);
        out
    }
}

/// What `kennel oci revert` is asked for, and the paths behind the separator.
pub fn revert_args(list: &[String]) -> (r: Result<(RevertArgs, Vec<String>), String>)
    ensures
        match args::scanned(head_of(text::texts(list@)), revert_shape()) {
            Err(e) => r matches Err(m) && m@ == e,
            Ok(ps) => if args::words(ps).len() == 0 {
                r matches Err(m) && m@ == "usage: kennel oci revert <name> [--list] [-- <path>…]"@
            } else {
                r matches Ok(a) && a.0.reads(ps) && text::texts(a.1@) == tail_of(
                    text::texts(list@),
                )
            },
        },
{
    match revert_head(head(list)) {
        Err(e) => Err(e),
        Ok(a) => Ok((a, tail(list))),
    }
}

/// What `kennel oci update` is asked for, and the image behind the separator.
pub fn update_args(list: &[String]) -> (r: Result<(UpdateArgs, String), String>)
    ensures
        match args::scanned(head_of(text::texts(list@)), update_shape()) {
            Err(e) => r matches Err(m) && m@ == e,
            Ok(ps) => if args::words(ps).len() == 0 {
                r matches Err(m) && m@
                    == "usage: kennel oci update <name> [--keep-state] -- <new-image-ref>"@
            } else if tail_of(text::texts(list@)).len() == 0 {
                r matches Err(m) && m@ == "`kennel oci update` needs `-- <new-image-ref>`"@
            } else {
                r matches Ok(a) && a.0.reads(ps) && a.1@ == tail_of(text::texts(list@))[0]
            },
        },
{
    match update_head(head(list)) {
        Err(e) => Err(e),
        Ok(a) => {
            let t = tail(list);
            assert(text::texts(t@).len() == t@.len());
            if t.len() == 0 {
                return Err("`kennel oci update` needs `-- <new-image-ref>`".to_owned());
            }
            assert(text::texts(t@)[0] == t@[0]@);
            Ok((a, t[0].clone()))
        },
    }
}

/// What `kennel oci run` is asked for, and the command behind the separator.
pub fn run_args(list: &[String]) -> (r: Result<(OciRunArgs, Vec<String>), String>)
    ensures
        match args::scanned(head_of(text::texts(list@)), run_shape()) {
            Err(e) => r matches Err(m) && m@ == e,
            Ok(ps) => if args::words(ps).len() == 0 {
                r matches Err(m) && m@
                    == "usage: kennel oci run <name> [--key K] [--force] [-- <cmd...>]"@
            } else {
                r matches Ok(a) && a.0.reads(ps) && text::texts(a.1@) == tail_of(
                    text::texts(list@),
                )
            },
        },
{
    match run_head(head(list)) {
        Err(e) => Err(e),
        Ok(a) => Ok((a, tail(list))),
    }
}

/// The image that a build is asked for.
pub fn wanted_image(a: &BuildArgs) -> (r: Result<String, String>)
    ensures
        match a.image {
            Some(i) => r matches Ok(s) && s@ == i@,
            None => r matches Err(m) && m@
                == "`kennel oci build` needs --image <ref> (the image[@sha256] to pull)"@,
        },
{
    match &a.image {
        Some(i) => Ok(i.clone()),
        None => Err(
            "`kennel oci build` needs --image <ref> (the image[@sha256] to pull)".to_owned(),
        ),
    }
}

// ---- refusals ------------------------------------------------------------------

/// Whether an entry may be changed while these kennels run.
pub fn refuse_if_running(name: &str, running: &[String]) -> (r: Result<(), String>)
    ensures
        if text::texts(running@).contains(name@) {
            r matches Err(m) && m@ == "kennel `"@ + name@ + "` is running; stop it (`kennel stop "@
                + name@ + "`) before this operation"@
        } else {
            r is Ok
        },
{
    if has_text(running, name) {
        Err(
            concat5(
                "kennel `",
                name,
                "` is running; stop it (`kennel stop ",
                name,
                "`) before this operation",
            ),
        )
    } else {
        Ok(())
    }
}

/// Whether a build may write an entry.
pub fn build_refusal(e: &StoreEntry, name: &str, built: bool, force: bool) -> (r: Result<(), String>)
    ensures
        if built && !force {
            r matches Err(m) && m@ == "store entry `"@ + name@ + "` already exists at "@ + e.place()
                + "; pass --force to overwrite"@
        } else {
            r is Ok
        },
{
    if built && !force {
        Err(
            concat5(
                "store entry `",
                name,
                "` already exists at ",
                e.dir(),
                "; pass --force to overwrite",
            ),
        )
    } else {
        Ok(())
    }
}

/// Whether a verb finds the entry that it works on.
pub fn entry_refusal(e: &StoreEntry, verb: Verb, name: &str, built: bool) -> (r: Result<(), String>)
    ensures
        if built || verb == Verb::Build {
            r is Ok
        } else {
            r matches Err(m) && m@ == match verb {
                Verb::Revert => "store entry `"@ + name@ + "` is not built"@,
                Verb::Update => "store entry `"@ + name@
                    + "` does not exist; use `kennel oci build "@ + name@ + "` to create it"@,
                _ => "store entry `"@ + name@ + "` is not built (no rootfs at "@ + path::joined(
                    e.place(),
                    "rootfs"@,
                ) + "); run `kennel oci build "@ + name@ + " …` first"@,
            }
        },
{
    if built {
        return Ok(());
    }
    match verb {
        Verb::Build => Ok(()),
        Verb::Revert => Err(concat3("store entry `", name, "` is not built")),
        Verb::Update => Err(
            concat5(
                "store entry `",
                name,
                "` does not exist; use `kennel oci build ",
                name,
                "` to create it",
            ),
        ),
        Verb::Run => {
            let rootfs = e.rootfs();
            Err(
                concat7(
                    "store entry `",
                    name,
                    "` is not built (no rootfs at ",
                    rootfs.as_str(),
                    "); run `kennel oci build ",
                    name,
                    " …` first",
                ),
            )
        },
    }
}

// ---- what runs have left -------------------------------------------------------

/// What stands in the changes that runs have left.
#[derive(Debug, Clone, Copy, PartialEq, Eq, Structural)]
pub enum UpperKind {
    /// A character device, with its number: number zero deletes a file of the image.
    Device(u64),
    /// A directory, which is walked.
    Directory,
    /// Anything else.
    Other,
}

/// The mark of a change: `D` a file of the image is deleted, `M` a file is added or replaced; a
/// directory is no change.
pub fn upper_mark(kind: UpperKind) -> (r: Option<&'static str>)
    ensures
        match kind {
            UpperKind::Device(0) => r matches Some(m) && m@ == "D"@,
            UpperKind::Directory => r is None,
            _ => r matches Some(m) && m@ == "M"@,
        },
{
    match kind {
        UpperKind::Device(n) => if n == 0 {
            Some("D")
        } else {
            Some("M")
        },
        UpperKind::Directory => None,
        UpperKind::Other => Some("M"),
    }
}

/// The lines that list changes, as paths and marks, in the order `p`.
pub open spec fn upper_listing(name: Seq<char>, changes: Seq<(String, String)>, p: Seq<usize>) -> Seq<
    Seq<char>,
> {
    if changes.len() == 0 {
        seq!["kennel: `"@ + name + "` upper is empty — the merged root equals the image"@]
    } else {
        seq![
            "kennel: persisted changes in `"@ + name + "` (the diff against the image pin):"@,
        ] + order::arranged(changes, p).map_values(
            |c: (String, String)| "  "@ + c.1@ + " "@ + c.0@,
        ) + seq![
            "  restore some: kennel oci revert "@ + name
                + " -- <path>…    all: kennel oci revert "@ + name,
        ]
    }
}

/// The lines that list the changes that runs have left, ordered by their paths.
pub fn list_upper(name: &str, changes: &[(String, String)]) -> (out: Vec<String>)
    ensures
        exists|p: Seq<usize>| #[trigger]
            order::is_ranking(changes@, p) && text::texts(out@) == upper_listing(
                name@,
                changes@,
                p,
            ),
{
    let p = ranking(changes);
    let mut out: Vec<String> = Vec::new();
    if changes.len() == 0 {
        push_line(
            &mut out,
            concat3("kennel: `", name, "` upper is empty — the merged root equals the image"),
        );
        assert(text::texts(out@) =~= upper_listing(name@, changes@, p@));
        return out;
    }
    push_line(
        &mut out,
        concat3(
            "kennel: persisted changes in `",
            name,
            "` (the diff against the image pin):",
        ),
    );
    let ghost base = text::texts(out@);
    let ghost want = order::arranged(changes@, p@).map_values(
        |c: (String, String)| "  "@ + c.1@ + " "@ + c.0@,
    );
    let mut i: usize = 0;
    assert(text::texts(out@) =~= base + want.take(0));
    while i < p.len()
        invariant
            i <= p@.len(),
            order::is_ranking(changes@, p@),
            want == order::arranged(changes@, p@).map_values(
                |c: (String, String)| "  "@ + c.1@ + " "@ + c.0@,
            ),
            text::texts(out@) == base + want.take(i as int),
        decreases p@.len() - i,
    {
        let c = &changes[p[i]];
        push_line(&mut out, concat4("  ", c.1.as_str(), " ", c.0.as_str()));
        i = i + 1;
        assert(text::texts(out@) =~= base + want.take(i as int));
    }
    push_line(
        &mut out,
        concat4(
            "  restore some: kennel oci revert ",
            name,
            " -- <path>…    all: kennel oci revert ",
            name,
        ),
    );
    proof {
        assert(want.take(want.len() as int) =~= want);
        assert(text::texts(out@) =~= upper_listing(name@, changes@, p@));
    }
    out
}

/// A path of an image below the changes, or why it is none.
pub open spec fn relative(raw: Seq<char>) -> Result<Seq<char>, Seq<char>> {
    let cs = path::components(raw);
    if cs.contains(".."@) {
        Err("`"@ + raw + "` must not contain `..`"@)
    } else if cs.len() == 0 {
        Err("`"@ + raw + "` is not a path within the image"@)
    } else {
        Ok(words::joined(cs, "/"@))
    }
}

/// A path of an image as one below the changes: without its leading `/` and without `.`; `..` is
/// refused.
pub fn sanitize_rel(raw: &str) -> (r: Result<String, String>)
    ensures
        match relative(raw@) {
            Ok(p) => r matches Ok(s) && s@ == p,
            Err(e) => r matches Err(m) && m@ == e,
        },
{
    let cs = components_of(raw);
    if has_text(cs.as_slice(), "..") {
        return Err(concat3("`", raw, "` must not contain `..`"));
    }
    assert(text::texts(cs@).len() == cs@.len());
    if cs.len() == 0 {
        return Err(concat3("`", raw, "` is not a path within the image"));
    }
    Ok(words::join(cs.as_slice(), "/"))
}

/// A path that is accepted stays below the changes: the place that is removed lies in their
/// directory, by the same components that were given, and none of them leads out.
pub proof fn law_revert_stays_below(upper: Seq<char>, raw: Seq<char>)
    requires
        path::rooted(upper),
        relative(raw) is Ok,
    ensures
        path::lies_under(path::joined(upper, relative(raw)->Ok_0), upper),
        path::components(path::joined(upper, relative(raw)->Ok_0)) == path::components(upper)
            + path::components(raw),
        !path::components(raw).contains(".."@),
{
    reveal_strlit("/");
    assert("/"@ =~= seq!['/']);
    let p = relative(raw)->Ok_0;
    path::law_components_rejoin(raw);
    path::law_join_components(upper, p);
    let cs = path::components(path::joined(upper, p));
    assert(cs.take(path::components(upper).len() as int) =~= path::components(upper));
}

/// What became of a path that was to be restored.
#[derive(Debug, Clone, Copy, PartialEq, Eq, Structural)]
pub enum Restored {
    /// Its change was removed.
    Removed,
    /// There was none.
    Absent,
}

/// The line that says what became of a path.
pub fn restored_line(rel: &str, what: Restored) -> (r: String)
    ensures
        r@ == match what {
            Restored::Removed => "  restored /"@ + rel@ + " to the image"@,
            Restored::Absent => "  /"@ + rel@
                + " is not persisted (already at the image) — skipped"@,
        },
{
    match what {
        Restored::Removed => concat3("  restored /", rel, " to the image"),
        Restored::Absent => concat3(
            "  /",
            rel,
            " is not persisted (already at the image) — skipped",
        ),
    }
}

/// How many changes were removed.
pub open spec fn removed_count(whats: Seq<Restored>) -> nat
    decreases whats.len(),
{
    if whats.len() == 0 {
        0
    } else {
        removed_count(whats.drop_last()) + if whats.last() == Restored::Removed {
            1nat
        } else {
            0nat
        }
    }
}

/// The line that sums up a restoration of paths.
pub fn reverted_text(name: &str, whats: &[Restored]) -> (r: String)
    ensures
        r@ == "kennel: reverted "@ + decimal::dec(removed_count(whats@)) + " path(s) in `"@ + name@
            + "` toward the image pin"@,
{
    let mut n: u64 = 0;
    let mut i: usize = 0;
    assert(whats@.take(0) =~= seq![]);
    while i < whats.len()
        invariant
            i <= whats@.len(),
            n == removed_count(whats@.take(i as int)),
            n <= i,
        decreases whats@.len() - i,
    {
        proof {
            assert(whats@.take(i + 1).drop_last() =~= whats@.take(i as int));
        }
        if let Restored::Removed = whats[i] {
            n = n + 1;
        }
        i = i + 1;
    }
    assert(whats@.take(whats@.len() as int) =~= whats@);
    let t = dec_text(n);
    concat5("kennel: reverted ", t.as_str(), " path(s) in `", name, "` toward the image pin")
}

/// The line of an entry whose runs have left nothing: listing it, restoring paths of it (an error),
/// or restoring all of it.
pub fn no_upper_text(name: &str, list: bool, paths: bool) -> (r: String)
    ensures
        r@ == if list {
            "kennel: `"@ + name@
                + "` has no persisted upper (discard/readonly) — nothing persisted"@
        } else if paths {
            "`"@ + name@ + "` has no persisted upper (discard/readonly) — nothing to revert"@
        } else {
            "kennel: `"@ + name@
                + "` has no persisted upper (discard/readonly) — nothing to revert"@
        },
{
    if list {
        concat3(
            "kennel: `",
            name,
            "` has no persisted upper (discard/readonly) — nothing persisted",
        )
    } else if paths {
        concat3(
            "`",
            name,
            "` has no persisted upper (discard/readonly) — nothing to revert",
        )
    } else {
        concat3(
            "kennel: `",
            name,
            "` has no persisted upper (discard/readonly) — nothing to revert",
        )
    }
}

/// The line that says that everything was restored.
pub fn reverted_all_text(name: &str) -> (r: String)
    ensures
        r@ == "kennel: reverted the entire persisted upper for `"@ + name@
            + "` (mutable state cleared)"@,
{
    concat3(
        "kennel: reverted the entire persisted upper for `",
        name,
        "` (mutable state cleared)",
    )
}

// ---- updating ------------------------------------------------------------------

/// What the root of an entry's policy says.
#[derive(Debug)]
pub struct RootfsRender {
    /// The unpacked image.
    pub path: String,
    /// The image it came from.
    pub image: String,
    /// Why it is trusted.
    pub reason: Option<String>,
    /// What becomes of changes.
    pub persistence: Option<String>,
    /// The directories that are locked.
    pub readonly: Vec<String>,
    /// The holes in the lock.
    pub writable: Vec<String>,
}

/// A text as a TOML value.
pub open spec fn toml_value(s: Seq<char>) -> Seq<char> {
    "\""@ + report::guarded(s) + "\""@
}

/// A text as a TOML value.
pub fn toml_quote(s: &str) -> (r: String)
    ensures
        r@ == toml_value(s@),
{
    let g = guard(s);
    concat3("\"", g.as_str(), "\"")
}

/// Texts as the elements of a TOML list.
pub open spec fn toml_list(v: Seq<Seq<char>>) -> Seq<char> {
    words::joined(v.map_values(|p: Seq<char>| toml_value(p)), ", "@)
}

fn toml_list_text(v: &[String]) -> (r: String)
    ensures
        r@ == toml_list(text::texts(v@)),
{
    let ghost want = text::texts(v@).map_values(|p: Seq<char>| toml_value(p));
    let mut out: Vec<String> = Vec::new();
    let mut i: usize = 0;
    assert(text::texts(out@) =~= want.take(0));
    while i < v.len()
        invariant
            i <= v@.len(),
            want == text::texts(v@).map_values(|p: Seq<char>| toml_value(p)),
            text::texts(out@) == want.take(i as int),
        decreases v@.len() - i,
    {
        push_line(&mut out, toml_quote(v[i].as_str()));
        i = i + 1;
        assert(text::texts(out@) =~= want.take(i as int));
    }
    assert(want.take(want.len() as int) =~= want);
    words::join(out.as_slice(), ", ")
}

impl RootfsRender {
    /// The persistence that is written, where there is one.
    pub open spec fn persists(self) -> Option<Seq<char>> {
        match self.persistence {
            Some(p) if p@.len() > 0 => Some(p@),
            _ => None,
        }
    }

    /// The rows of the table.
    pub open spec fn rows(self) -> Seq<Seq<char>> {
        seq![
            "[rootfs]"@,
            "# Regenerated by `kennel oci update`: closure-lock re-derived from the new image, operator"@,
            "# carve-outs preserved (§7.11.4c). Review the diff, then re-sign."@,
            "path   = "@ + toml_value(self.path@),
            "image  = "@ + toml_value(self.image@),
            "reason = "@ + toml_value(
                match self.reason {
                    Some(t) => t@,
                    None => "TODO: why this image is trusted"@,
                },
            ),
            if self.readonly@.len() == 0 {
                "# readonly = []   # closure-lock: build-derived none (all-root image)"@
            } else {
                "readonly = ["@ + toml_list(text::texts(self.readonly@))
                    + "]   # closure-lock (build-derived + preserved carve-outs, §7.11.4c)"@
            },
        ] + (match self.persists() {
            Some(p) => seq!["persistence = "@ + toml_value(p)],
            None => seq![],
        }) + layout::line_if(
            self.writable@.len() > 0,
            "writable = ["@ + toml_list(text::texts(self.writable@))
                + "]   # operator carve-out, preserved"@,
        )
    }
}

impl RootfsRender {
    /// The table as text.
    pub open spec fn block(self) -> Seq<char> {
        words::joined(self.rows(), "\n"@) + "\n"@
    }

    /// The lines of the table: a value that holds a line end takes several.
    pub open spec fn lines(self) -> Seq<Seq<char>> {
        rows_of(self.block()).map_values(|r: Seq<char>| text::without_end(r, "\r"@))
    }
}

fn table_lines(r: &RootfsRender) -> (out: Vec<String>)
    ensures
        text::texts(out@) == r.lines(),
{
    let block = render_rootfs_block(r);
    let all = rows(block.as_str());
    let ghost want = r.lines();
    let mut out: Vec<String> = Vec::new();
    let mut i: usize = 0;
    assert(text::texts(out@) =~= want.take(0));
    while i < all.len()
        invariant
            i <= all@.len(),
            text::texts(all@) == rows_of(r.block()),
            want == r.lines(),
            text::texts(out@) == want.take(i as int),
        decreases all@.len() - i,
    {
        assert(text::texts(all@)[i as int] == all@[i as int]@);
        push_line(&mut out, text::cut_end(all[i].as_str(), "\r"));
        i = i + 1;
        assert(text::texts(out@) =~= want.take(i as int));
    }
    assert(text::texts(all@).len() == all@.len());
    assert(want.take(want.len() as int) =~= want);
    out
}

/// The table starts with its header.
proof fn lemma_table_header(r: RootfsRender)
    ensures
        r.lines().len() > 0,
        r.lines()[0] == "[rootfs]"@,
        is_header("[rootfs]"@),
{
    let head = "[rootfs]"@;
    let rows = r.rows();
    reveal_strlit("[rootfs]");
    reveal_strlit("\n");
    reveal_strlit("\r");
    assert("\n"@ =~= seq!['\n']);
    assert(rows[0] == head);
    let rest = words::lemma_joined_first(rows, "\n"@);
    let more = rest + "\n"@;
    assert(r.block() =~= head + seq!['\n'] + more);
    assert(!head.contains('\n'));
    words::law_pieces_concat(head, more, '\n');
    words::law_join_pieces(seq![head], '\n');
    assert(words::joined(seq![head], seq!['\n']) =~= head);
    let ps = words::pieces(r.block(), '\n');
    assert(ps[0] == head);
    assert(words::pieces(more, '\n').len() >= 1);
    assert(rows_of(r.block())[0] == head);
    assert(!"\r"@.is_suffix_of(head)) by {
        assert(head.last() != '\r');
        if "\r"@.is_suffix_of(head) {
            assert(head.subrange(head.len() - 1, head.len() as int)[0] == '\r');
        }
    }
}

fn rootfs_rows(r: &RootfsRender) -> (out: Vec<String>)
    ensures
        text::texts(out@) == r.rows(),
{
    let path = toml_quote(r.path.as_str());
    let image = toml_quote(r.image.as_str());
    let reason = toml_quote(
        match &r.reason {
            Some(t) => t.as_str(),
            None => "TODO: why this image is trusted",
        },
    );
    let mut out: Vec<String> = Vec::new();
    push_line(&mut out, "[rootfs]".to_owned());
    push_line(
        &mut out,
        "# Regenerated by `kennel oci update`: closure-lock re-derived from the new image, operator".to_owned(),
    );
    push_line(
        &mut out,
        "# carve-outs preserved (§7.11.4c). Review the diff, then re-sign.".to_owned(),
    );
    push_line(&mut out, concat2("path   = ", path.as_str()));
    push_line(&mut out, concat2("image  = ", image.as_str()));
    push_line(&mut out, concat2("reason = ", reason.as_str()));
    if r.readonly.len() == 0 {
        push_line(
            &mut out,
            "# readonly = []   # closure-lock: build-derived none (all-root image)".to_owned(),
        );
    } else {
        let list = toml_list_text(r.readonly.as_slice());
        push_line(
            &mut out,
            concat3(
                "readonly = [",
                list.as_str(),
                "]   # closure-lock (build-derived + preserved carve-outs, §7.11.4c)",
            ),
        );
    }
    let ghost fixed = text::texts(out@);
    if let Some(p) = &r.persistence {
        if p.as_str().unicode_len() > 0 {
            let v = toml_quote(p.as_str());
            push_line(&mut out, concat2("persistence = ", v.as_str()));
        }
    }
    assert(text::texts(out@) =~= fixed + match r.persists() {
        Some(p) => seq!["persistence = "@ + toml_value(p)],
        None => seq![],
    });
    if r.writable.len() > 0 {
        let list = toml_list_text(r.writable.as_slice());
        push_line(
            &mut out,
            concat3("writable = [", list.as_str(), "]   # operator carve-out, preserved"),
        );
    }
    assert(text::texts(out@) =~= r.rows());
    out
}

/// The table that a policy's root becomes.
pub fn render_rootfs_block(r: &RootfsRender) -> (out: String)
    ensures
        out@ == r.block(),
{
    let rows = rootfs_rows(r);
    let body = words::join(rows.as_slice(), "\n");
    concat2(body.as_str(), "\n")
}

/// The rows of a text: each ends at a line feed, and a final line feed starts no further row.
pub open spec fn rows_of(s: Seq<char>) -> Seq<Seq<char>> {
    let ps = words::pieces(s, '\n');
    if ps.last().len() == 0 {
        ps.drop_last()
    } else {
        ps
    }
}

fn rows(s: &str) -> (out: Vec<String>)
    ensures
        text::texts(out@) == rows_of(s@),
{
    let mut out = split_on(s, '\n');
    proof {
        assert(text::texts(out@).len() == out@.len());
        assert(words::pieces(s@, '\n').len() >= 1);
    }
    let n: usize = out.len();
    assert(text::texts(out@).last() == out@.last()@);
    if out[n - 1].as_str().unicode_len() == 0 {
        let ghost before = out@;
        let _ = out.pop();
        assert(text::texts(out@) =~= text::texts(before).drop_last());
    }
    out
}

/// Whether a row starts a section.
pub open spec fn is_header(row: Seq<char>) -> bool {
    row.len() > 0 && row[0] == '['
}

fn starts_section(row: &str) -> (r: bool)
    ensures
        r == is_header(row@),
{
    row.unicode_len() > 0 && row.get_char(0) == '['
}

/// Whether a row belongs to the content of a table: neither blank nor a comment.
pub open spec fn is_content(row: Seq<char>) -> bool {
    let t = words::trim_front(row);
    t.len() > 0 && t[0] != '#'
}

fn has_content(row: &str) -> (r: bool)
    ensures
        r == is_content(row@),
{
    let t = trim_start(row);
    t.unicode_len() > 0 && t.get_char(0) != '#'
}

/// The first row from `from` on that reads `want`, without what trails it.
pub open spec fn row_at(rows: Seq<Seq<char>>, want: Seq<char>) -> int
    decreases rows.len(),
{
    if rows.len() == 0 || words::trim_back(rows[0]) == want {
        0
    } else {
        1 + row_at(rows.drop_first(), want)
    }
}

/// The first row from `from` on that starts a section.
pub open spec fn section_from(rows: Seq<Seq<char>>, from: int) -> int
    decreases rows.len() - from,
{
    if from >= rows.len() || is_header(rows[from]) {
        from
    } else {
        section_from(rows, from + 1)
    }
}

/// Where the content of rows `from..to` ends.
pub open spec fn content_end(rows: Seq<Seq<char>>, from: int, to: int) -> int
    decreases to - from,
{
    if to <= from || is_content(rows[to - 1]) {
        to
    } else {
        content_end(rows, from, to - 1)
    }
}

/// Whether the last row lies in a section `[signature]`.
pub open spec fn signs(rows: Seq<Seq<char>>) -> bool
    decreases rows.len(),
{
    if rows.len() == 0 {
        false
    } else if is_header(rows.last()) {
        words::trim_back(rows.last()) == "[signature]"@
    } else {
        signs(rows.drop_last())
    }
}

/// The rows that lie in no section `[signature]`.
pub open spec fn unsigned(rows: Seq<Seq<char>>) -> Seq<Seq<char>>
    decreases rows.len(),
{
    if rows.len() == 0 {
        seq![]
    } else if signs(rows) {
        unsigned(rows.drop_last())
    } else {
        unsigned(rows.drop_last()).push(rows.last())
    }
}

/// The rows without blank ones at their end.
pub open spec fn closed(rows: Seq<Seq<char>>) -> Seq<Seq<char>>
    decreases rows.len(),
{
    if rows.len() > 0 && words::trim(rows.last()).len() == 0 {
        closed(rows.drop_last())
    } else {
        rows
    }
}

/// The rows without their sections `[signature]`, and without the blank rows that a removed one
/// leaves at the end.
pub open spec fn cleared(rows: Seq<Seq<char>>) -> Seq<Seq<char>> {
    if unsigned(rows).len() < rows.len() {
        closed(unsigned(rows))
    } else {
        rows
    }
}

/// The rows with the table `[rootfs]` replaced: from its header to the end of its content, so that
/// comments ahead of the next section stay.
pub open spec fn replaced(rows: Seq<Seq<char>>, table: Seq<Seq<char>>) -> Seq<Seq<char>> {
    let at = row_at(rows, "[rootfs]"@);
    let end = content_end(rows, at + 1, section_from(rows, at + 1));
    rows.take(at) + table + rows.skip(end)
}

proof fn lemma_sections(rows: Seq<Seq<char>>, from: int, to: int)
    requires
        0 <= from <= rows.len(),
        from <= to,
    ensures
        from <= section_from(rows, from) <= rows.len(),
        from <= content_end(rows, from, to) <= to,
    decreases rows.len() - from, to - from,
{
    if from < rows.len() && !is_header(rows[from]) {
        lemma_sections(rows, from + 1, from + 1);
    }
    if to > from && !is_content(rows[to - 1]) {
        lemma_content(rows, from, to);
    }
}

proof fn lemma_content(rows: Seq<Seq<char>>, from: int, to: int)
    requires
        from <= to,
    ensures
        from <= content_end(rows, from, to) <= to,
    decreases to - from,
{
    if to > from && !is_content(rows[to - 1]) {
        lemma_content(rows, from, to - 1);
    }
}

proof fn lemma_unsigned_len(rows: Seq<Seq<char>>)
    ensures
        unsigned(rows).len() <= rows.len(),
        unsigned(rows).len() == rows.len() ==> unsigned(rows) == rows,
    decreases rows.len(),
{
    if rows.len() > 0 {
        lemma_unsigned_len(rows.drop_last());
        if !signs(rows) && unsigned(rows).len() == rows.len() {
            assert(rows.drop_last().push(rows.last()) =~= rows);
        }
    }
}

fn find_row(rows: &[String], want: &str) -> (r: usize)
    ensures
        r <= rows@.len(),
        r == row_at(text::texts(rows@), want@),
{
    let ghost all = text::texts(rows@);
    let mut i: usize = 0;
    assert(all.skip(0) =~= all);
    while i < rows.len() && !same(trim_end(rows[i].as_str()), want)
        invariant
            i <= rows@.len(),
            all == text::texts(rows@),
            i + row_at(all.skip(i as int), want@) == row_at(all, want@),
        decreases rows@.len() - i,
    {
        proof {
            assert(all.skip(i as int)[0] == rows@[i as int]@);
            assert(all.skip(i as int).drop_first() =~= all.skip(i + 1));
        }
        i = i + 1;
    }
    proof {
        if i < rows@.len() {
            assert(all.skip(i as int)[0] == rows@[i as int]@);
        }
    }
    i
}

fn find_section(rows: &[String], from: usize) -> (r: usize)
    requires
        from <= rows@.len(),
    ensures
        from <= r <= rows@.len(),
        r == section_from(text::texts(rows@), from as int),
{
    let ghost all = text::texts(rows@);
    let mut i: usize = from;
    while i < rows.len() && !starts_section(rows[i].as_str())
        invariant
            from <= i <= rows@.len(),
            all == text::texts(rows@),
            section_from(all, i as int) == section_from(all, from as int),
        decreases rows@.len() - i,
    {
        assert(all[i as int] == rows@[i as int]@);
        i = i + 1;
    }
    proof {
        if i < rows@.len() {
            assert(all[i as int] == rows@[i as int]@);
        }
    }
    i
}

fn end_of_content(rows: &[String], from: usize, to: usize) -> (r: usize)
    requires
        from <= to <= rows@.len(),
    ensures
        from <= r <= to,
        r == content_end(text::texts(rows@), from as int, to as int),
{
    let ghost all = text::texts(rows@);
    let mut i: usize = to;
    while i > from && !has_content(rows[i - 1].as_str())
        invariant
            from <= i <= to <= rows@.len(),
            all == text::texts(rows@),
            content_end(all, from as int, i as int) == content_end(all, from as int, to as int),
        decreases i,
    {
        assert(all[i - 1] == rows@[i - 1]@);
        i = i - 1;
    }
    proof {
        if i > from {
            assert(all[i - 1] == rows@[i - 1]@);
        }
    }
    i
}

fn clear(rows: &[String]) -> (out: Vec<String>)
    ensures
        text::texts(out@) == cleared(text::texts(rows@)),
{
    let ghost all = text::texts(rows@);
    let mut out: Vec<String> = Vec::new();
    let mut inside = false;
    let mut i: usize = 0;
    proof {
        assert(all.take(0) =~= seq![]);
        assert(text::texts(out@) =~= seq![]);
    }
    while i < rows.len()
        invariant
            i <= rows@.len(),
            all == text::texts(rows@),
            inside == signs(all.take(i as int)),
            text::texts(out@) == unsigned(all.take(i as int)),
        decreases rows@.len() - i,
    {
        proof {
            assert(all.take(i + 1).drop_last() =~= all.take(i as int));
            assert(all.take(i + 1).last() == rows@[i as int]@);
        }
        let row = rows[i].as_str();
        if starts_section(row) {
            inside = same(trim_end(row), "[signature]");
        }
        if !inside {
            push_line(&mut out, row.to_owned());
        }
        i = i + 1;
    }
    proof {
        assert(all.take(all.len() as int) =~= all);
        assert(text::texts(out@).len() == out@.len());
        lemma_unsigned_len(all);
    }
    if out.len() < rows.len() {
        let ghost goal = closed(text::texts(out@));
        let mut done = false;
        while out.len() > 0 && !done
            invariant
                closed(text::texts(out@)) == goal,
                done ==> text::texts(out@) == goal,
            decreases out@.len() + if done { 0int } else { 1int },
        {
            let n: usize = out.len();
            proof {
                assert(text::texts(out@).len() == out@.len());
                assert(text::texts(out@).last() == out@.last()@);
            }
            if trimmed(out[n - 1].as_str()).unicode_len() == 0 {
                let ghost before = out@;
                let _ = out.pop();
                assert(text::texts(out@) =~= text::texts(before).drop_last());
            } else {
                done = true;
            }
        }
        proof {
            assert(text::texts(out@).len() == out@.len());
        }
    }
    out
}

/// The policy of an entry for another image: the table `[rootfs]` replaced in place, every section
/// `[signature]` dropped, and every other row as it was.
pub fn rewrite_oci_policy(policy: &str, render: &RootfsRender) -> (r: Result<String, String>)
    ensures
        if row_at(rows_of(policy@), "[rootfs]"@) >= rows_of(policy@).len() {
            r matches Err(m) && m@ == "the policy has no [rootfs] table to rewrite"@
        } else {
            r matches Ok(s) && s@ == words::joined(
                cleared(replaced(rows_of(policy@), render.lines())),
                "\n"@,
            ) + "\n"@
        },
{
    let all = rows(policy);
    let ghost rs = text::texts(all@);
    let n: usize = all.len();
    let at: usize = find_row(all.as_slice(), "[rootfs]");
    assert(rs.len() == n);
    if at >= n {
        return Err("the policy has no [rootfs] table to rewrite".to_owned());
    }
    let next: usize = find_section(all.as_slice(), at + 1);
    let end: usize = end_of_content(all.as_slice(), at + 1, next);
    let table = table_lines(render);
    let mut out: Vec<String> = Vec::new();
    assert(text::texts(out@) =~= seq![]);
    let before = vstd::slice::slice_subrange(all.as_slice(), 0, at);
    let behind = vstd::slice::slice_subrange(all.as_slice(), end, n);
    proof {
        assert(text::texts(before@) =~= rs.take(at as int));
        assert(text::texts(behind@) =~= rs.skip(end as int));
    }
    push_lines(&mut out, before);
    push_lines(&mut out, table.as_slice());
    push_lines(&mut out, behind);
    assert(text::texts(out@) =~= replaced(rs, render.lines()));
    let done = clear(out.as_slice());
    let body = words::join(done.as_slice(), "\n");
    Ok(concat2(body.as_str(), "\n"))
}

/// An update leaves no signature: no row of what it writes starts a section `[signature]`.
pub proof fn law_update_clears_the_signature(rows: Seq<Seq<char>>, table: Seq<Seq<char>>)
    ensures
        forall|i: int|
            0 <= i < cleared(replaced(rows, table)).len() ==> !(is_header(
                #[trigger] cleared(replaced(rows, table))[i],
            ) && words::trim_back(cleared(replaced(rows, table))[i]) == "[signature]"@),
{
    let all = replaced(rows, table);
    lemma_unsigned(all);
    lemma_unsigned_len(all);
    lemma_closed(unsigned(all));
    let c = cleared(all);
    assert forall|i: int| 0 <= i < c.len() implies !(is_header(#[trigger] c[i]) && words::trim_back(
        c[i],
    ) == "[signature]"@) by {
        assert(c[i] == unsigned(all)[i]);
    }
}

proof fn lemma_unsigned(rows: Seq<Seq<char>>)
    ensures
        forall|i: int|
            0 <= i < unsigned(rows).len() ==> !(is_header(#[trigger] unsigned(rows)[i])
                && words::trim_back(unsigned(rows)[i]) == "[signature]"@),
    decreases rows.len(),
{
    if rows.len() > 0 {
        let front = unsigned(rows.drop_last());
        lemma_unsigned(rows.drop_last());
        assert forall|i: int| 0 <= i < unsigned(rows).len() implies !(is_header(
            #[trigger] unsigned(rows)[i],
        ) && words::trim_back(unsigned(rows)[i]) == "[signature]"@) by {
            if i < front.len() {
                assert(unsigned(rows)[i] == front[i]);
            }
        }
    }
}

proof fn lemma_closed(rows: Seq<Seq<char>>)
    ensures
        closed(rows).len() <= rows.len(),
        closed(rows) == rows.take(closed(rows).len() as int),
    decreases rows.len(),
{
    if rows.len() > 0 && words::trim(rows.last()).len() == 0 {
        lemma_closed(rows.drop_last());
        let n = closed(rows).len() as int;
        assert(rows.drop_last().take(n) =~= rows.take(n));
    } else {
        assert(rows.take(rows.len() as int) =~= rows);
    }
}

proof fn lemma_unsigned_concat(a: Seq<Seq<char>>, b: Seq<Seq<char>>)
    requires
        b.len() == 0 || is_header(b[0]),
    ensures
        unsigned(a + b) == unsigned(a) + unsigned(b),
        b.len() > 0 ==> signs(a + b) == signs(b),
    decreases b.len(),
{
    let all = a + b;
    if b.len() == 0 {
        assert(all =~= a);
        assert(unsigned(a) + unsigned(b) =~= unsigned(a));
    } else {
        let front = b.drop_last();
        assert(all.drop_last() =~= a + front);
        assert(all.last() == b.last());
        if front.len() > 0 {
            assert(front[0] == b[0]);
        }
        lemma_unsigned_concat(a, front);
        assert(unsigned(all) =~= unsigned(a) + unsigned(b));
    }
}

/// An update touches nothing but `[rootfs]` and `[signature]`: but for blank rows at the end, what
/// it writes starts with the rows ahead of the table and ends with the rows from the next section
/// on, each without signatures.
pub proof fn law_update_keeps_other_sections(rows: Seq<Seq<char>>, table: RootfsRender)
    requires
        0 <= row_at(rows, "[rootfs]"@) < rows.len(),
    ensures
        ({
            let at = row_at(rows, "[rootfs]"@);
            let written = unsigned(replaced(rows, table.lines()));
            &&& unsigned(rows.take(at)).is_prefix_of(written)
            &&& unsigned(rows.skip(section_from(rows, at + 1))).is_suffix_of(written)
            &&& cleared(replaced(rows, table.lines())) == written || cleared(
                replaced(rows, table.lines()),
            ) == closed(written)
        }),
{
    let at = row_at(rows, "[rootfs]"@);
    lemma_sections(rows, at + 1, at + 1);
    let next = section_from(rows, at + 1);
    lemma_content(rows, at + 1, next);
    let end = content_end(rows, at + 1, next);
    let ts = table.lines();
    let out = replaced(rows, ts);
    let ahead = rows.take(at);
    let tail = rows.skip(next);
    let written = unsigned(out);
    lemma_table_header(table);
    lemma_section_is_header(rows, at + 1);
    let behind = ts + rows.skip(end);
    assert(behind[0] == ts[0]);
    assert(out =~= ahead + behind);
    lemma_unsigned_concat(ahead, behind);
    assert(written.take(unsigned(ahead).len() as int) =~= unsigned(ahead));
    let front = ahead + ts + rows.subrange(end, next);
    assert(out =~= front + tail);
    if tail.len() > 0 {
        assert(tail[0] == rows[next]);
    }
    lemma_unsigned_concat(front, tail);
    let k = unsigned(tail).len();
    assert(written.subrange(written.len() - k, written.len() as int) =~= unsigned(tail));
    lemma_unsigned_len(out);
}

proof fn lemma_section_is_header(rows: Seq<Seq<char>>, from: int)
    requires
        0 <= from <= rows.len(),
    ensures
        section_from(rows, from) < rows.len() ==> is_header(rows[section_from(rows, from)]),
    decreases rows.len() - from,
{
    if from < rows.len() && !is_header(rows[from]) {
        lemma_section_is_header(rows, from + 1);
    }
}

/// What an entry's policy said before the update.
#[derive(Debug)]
pub struct Baseline {
    /// The image.
    pub old_image: String,
    /// The directories that are locked.
    pub old_readonly: Vec<String>,
    /// The holes in the lock.
    pub writable: Vec<String>,
    /// Why the image is trusted.
    pub reason: Option<String>,
    /// What becomes of changes.
    pub persistence: Option<String>,
    /// The unpacked image.
    pub path: String,
    /// The lock that the old image derived.
    pub old_base: Vec<String>,
}

/// The texts of `a` that are not among `b`.
pub open spec fn missing(a: Seq<Seq<char>>, b: Seq<Seq<char>>) -> Seq<Seq<char>>
    decreases a.len(),
{
    if a.len() == 0 {
        seq![]
    } else if b.contains(a.last()) {
        missing(a.drop_last(), b)
    } else {
        missing(a.drop_last(), b).push(a.last())
    }
}

fn not_among(a: &[String], b: &[String]) -> (out: Vec<String>)
    ensures
        text::texts(out@) == missing(text::texts(a@), text::texts(b@)),
{
    let ghost all = text::texts(a@);
    let mut out: Vec<String> = Vec::new();
    let mut i: usize = 0;
    proof {
        assert(all.take(0) =~= seq![]);
        assert(text::texts(out@) =~= seq![]);
    }
    while i < a.len()
        invariant
            i <= a@.len(),
            all == text::texts(a@),
            text::texts(out@) == missing(all.take(i as int), text::texts(b@)),
        decreases a@.len() - i,
    {
        proof {
            assert(all.take(i + 1).drop_last() =~= all.take(i as int));
            assert(all.take(i + 1).last() == a@[i as int]@);
        }
        if !has_text(b, a[i].as_str()) {
            push_line(&mut out, a[i].clone());
        }
        i = i + 1;
    }
    assert(all.take(all.len() as int) =~= all);
    out
}

/// The lines that say what an update changed.
pub open spec fn update_diff(
    name: Seq<char>,
    old_image: Seq<char>,
    new_image: Seq<char>,
    old_readonly: Seq<Seq<char>>,
    new_readonly: Seq<Seq<char>>,
    writable: Seq<Seq<char>>,
) -> Seq<Seq<char>> {
    let added = missing(new_readonly, old_readonly);
    let gone = missing(old_readonly, new_readonly);
    seq![
        "kennel: updated `"@ + name + "`"@,
        "  image:  "@ + old_image,
        "       -> "@ + new_image,
    ] + (if added.len() == 0 && gone.len() == 0 {
        seq!["  closure-lock (readonly): unchanged"@]
    } else {
        seq!["  closure-lock (readonly):"@] + added.map_values(|p: Seq<char>| "    + "@ + p)
            + gone.map_values(|p: Seq<char>| "    - "@ + p)
    }) + layout::line_if(
        writable.len() > 0,
        "  writable carve-outs preserved: "@ + words::joined(writable, ", "@),
    )
}

fn push_marked(out: &mut Vec<String>, mark: &str, v: &[String])
    ensures
        text::texts(final(out)@) == text::texts(old(out)@) + text::texts(v@).map_values(
            |p: Seq<char>| mark@ + p,
        ),
{
    let ghost base = text::texts(out@);
    let ghost want = text::texts(v@).map_values(|p: Seq<char>| mark@ + p);
    let mut i: usize = 0;
    assert(text::texts(out@) =~= base + want.take(0));
    while i < v.len()
        invariant
            i <= v@.len(),
            want == text::texts(v@).map_values(|p: Seq<char>| mark@ + p),
            text::texts(out@) == base + want.take(i as int),
        decreases v@.len() - i,
    {
        push_line(out, concat2(mark, v[i].as_str()));
        i = i + 1;
        assert(text::texts(out@) =~= base + want.take(i as int));
    }
    assert(want.take(want.len() as int) =~= want);
}

/// The lines that say what an update changed: the image, and the directories that are locked now
/// and no longer.
pub fn print_update_diff(
    name: &str,
    old_image: &str,
    new_image: &str,
    old_readonly: &[String],
    new_readonly: &[String],
    writable: &[String],
) -> (out: Vec<String>)
    ensures
        text::texts(out@) == update_diff(
            name@,
            old_image@,
            new_image@,
            text::texts(old_readonly@),
            text::texts(new_readonly@),
            text::texts(writable@),
        ),
{
    let mut out: Vec<String> = Vec::new();
    push_line(&mut out, concat3("kennel: updated `", name, "`"));
    push_line(&mut out, concat2("  image:  ", old_image));
    push_line(&mut out, concat2("       -> ", new_image));
    let ghost first = text::texts(out@);
    let added = not_among(new_readonly, old_readonly);
    let gone = not_among(old_readonly, new_readonly);
    proof {
        assert(text::texts(added@).len() == added@.len());
        assert(text::texts(gone@).len() == gone@.len());
        assert(text::texts(writable@).len() == writable@.len());
    }
    if added.len() == 0 && gone.len() == 0 {
        push_line(&mut out, "  closure-lock (readonly): unchanged".to_owned());
    } else {
        push_line(&mut out, "  closure-lock (readonly):".to_owned());
        push_marked(&mut out, "    + ", added.as_slice());
        push_marked(&mut out, "    - ", gone.as_slice());
    }
    let ghost second = text::texts(out@);
    if writable.len() > 0 {
        let list = words::join(writable, ", ");
        push_line(&mut out, concat2("  writable carve-outs preserved: ", list.as_str()));
    }
    proof {
        assert(first =~= seq![
            "kennel: updated `"@ + name@ + "`"@,
            "  image:  "@ + old_image@,
            "       -> "@ + new_image@,
        ]);
        assert(text::texts(out@) =~= update_diff(
            name@,
            old_image@,
            new_image@,
            text::texts(old_readonly@),
            text::texts(new_readonly@),
            text::texts(writable@),
        ));
    }
    out
}

/// The lock that an update writes.
pub open spec fn updated_lock(base: Baseline, config: Option<Seq<u8>>) -> Seq<Seq<char>> {
    preserved(
        text::texts(base.old_readonly@),
        text::texts(base.old_base@),
        base_lock(image_user(config)),
    )
}

impl RootfsRender {
    /// Whether the table is what an update to the image `recorded` makes of `base`.
    pub open spec fn updates(self, base: Baseline, recorded: Seq<char>, lock: Seq<Seq<char>>) -> bool {
        &&& self.path@ == base.path@
        &&& self.image@ == recorded
        &&& layout::opt(self.reason) == layout::opt(base.reason)
        &&& layout::opt(self.persistence) == layout::opt(base.persistence)
        &&& text::texts(self.readonly@) == lock
        &&& text::texts(self.writable@) == text::texts(base.writable@)
    }
}

/// The table that an update writes: the image and the lock are new, all else is the operator's.
pub fn updated_table(base: &Baseline, recorded: &str, lock: &[String]) -> (t: RootfsRender)
    ensures
        t.updates(*base, recorded@, text::texts(lock@)),
{
    RootfsRender {
        path: base.path.clone(),
        image: recorded.to_owned(),
        reason: copy_opt(&base.reason),
        persistence: copy_opt(&base.persistence),
        readonly: copy_all(lock),
        writable: copy_all(base.writable.as_slice()),
    }
}

/// What an update writes and says.
#[derive(Debug)]
pub struct Updated {
    /// The policy.
    pub policy: String,
    /// The lines.
    pub lines: Vec<String>,
}

/// The lines of an update.
pub open spec fn updated_lines(
    name: Seq<char>,
    policy_path: Seq<char>,
    base: Baseline,
    recorded: Seq<char>,
    lock: Seq<Seq<char>>,
    keep_state: bool,
) -> Seq<Seq<char>> {
    layout::line_if(
        keep_state,
        "kennel: kept the persisted upper for `"@ + name
            + "` — review for a rebase hazard against the new image"@,
    ) + update_diff(
        name,
        base.old_image@,
        recorded,
        text::texts(base.old_readonly@),
        lock,
        text::texts(base.writable@),
    ) + seq![
        "  signature CLEARED — review the policy and re-sign:"@,
        "    kennel policy sign "@ + policy_path + " --key <key>"@,
    ]
}

/// What an update writes and says, once the new image is in place: the lock is derived anew from
/// its configuration, the operator's carve-outs are kept, and the signature is cleared.
pub fn finish_update(
    name: &str,
    policy_path: &str,
    policy: &str,
    base: &Baseline,
    recorded: &str,
    config: Option<&[u8]>,
    keep_state: bool,
) -> (r: Result<Updated, String>)
    ensures
        if row_at(rows_of(policy@), "[rootfs]"@) >= rows_of(policy@).len() {
            r matches Err(m) && m@ == "the policy has no [rootfs] table to rewrite"@
        } else {
            r matches Ok(u) && text::texts(u.lines@) == updated_lines(
                name@,
                policy_path@,
                *base,
                recorded@,
                updated_lock(*base, held(config)),
                keep_state,
            ) && exists|t: RootfsRender| #[trigger]
                t.updates(*base, recorded@, updated_lock(*base, held(config))) && u.policy@
                    == words::joined(cleared(replaced(rows_of(policy@), t.lines())), "\n"@) + "\n"@
        },
{
    let new_base = lock_of(config);
    let lock = preserve_closure(
        base.old_readonly.as_slice(),
        base.old_base.as_slice(),
        new_base.as_slice(),
    );
    let t = updated_table(base, recorded, lock.as_slice());
    let written = match rewrite_oci_policy(policy, &t) {
        Err(e) => {
            return Err(e);
        },
        Ok(s) => s,
    };
    let mut lines: Vec<String> = Vec::new();
    if keep_state {
        push_line(
            &mut lines,
            concat3(
                "kennel: kept the persisted upper for `",
                name,
                "` — review for a rebase hazard against the new image",
            ),
        );
    }
    let ghost first = text::texts(lines@);
    assert(first =~= layout::line_if(
        keep_state,
        "kennel: kept the persisted upper for `"@ + name@
            + "` — review for a rebase hazard against the new image"@,
    ));
    let diff = print_update_diff(
        name,
        base.old_image.as_str(),
        recorded,
        base.old_readonly.as_slice(),
        lock.as_slice(),
        base.writable.as_slice(),
    );
    push_lines(&mut lines, diff.as_slice());
    let ghost second = text::texts(lines@);
    push_line(&mut lines, "  signature CLEARED — review the policy and re-sign:".to_owned());
    push_line(&mut lines, concat3("    kennel policy sign ", policy_path, " --key <key>"));
    assert(text::texts(lines@) =~= second + seq![
        "  signature CLEARED — review the policy and re-sign:"@,
        "    kennel policy sign "@ + policy_path@ + " --key <key>"@,
    ]);
    Ok(Updated { policy: written, lines })
}

/// The lock that an update writes holds every directory of the executable closure just where the
/// configuration of the new image names a user other than root, whatever the old image derived, and
/// besides these just the directories that the operator had added; the rest of the table is the
/// operator's, with the new image.
pub proof fn law_update_locks_the_closure_of_the_new_image(
    name: &str,
    policy_path: &str,
    policy: &str,
    base: &Baseline,
    recorded: &str,
    config: Option<&[u8]>,
    keep_state: bool,
    r: Result<Updated, String>,
) -> (t: RootfsRender)
    requires
        call_ensures(
            finish_update,
            (name, policy_path, policy, base, recorded, config, keep_state),
            r,
        ),
        r is Ok,
    ensures
        r->Ok_0.policy@ == words::joined(cleared(replaced(rows_of(policy@), t.lines())), "\n"@)
            + "\n"@,
        ({
            let user = match config {
                Some(b) => json_text(b@, "config"@, "User"@),
                None => None,
            };
            let old_readonly = text::texts(base.old_readonly@);
            let old_base = text::texts(base.old_base@);
            let lock = text::texts(t.readonly@);
            &&& names_other_than_root(user) ==> forall|d: Seq<char>|
                closure().contains(d) ==> #[trigger] lock.contains(d)
            &&& forall|d: Seq<char>| #[trigger]
                lock.contains(d) <==> (names_other_than_root(user) && closure().contains(d)) || (
                old_readonly.contains(d) && !old_base.contains(d))
        }),
        t.image@ == recorded@,
        t.path@ == base.path@,
        text::texts(t.writable@) == text::texts(base.writable@),
        layout::opt(t.reason) == layout::opt(base.reason),
        layout::opt(t.persistence) == layout::opt(base.persistence),
{
    let lock = updated_lock(*base, held(config));
    let t = choose|t: RootfsRender| #[trigger]
        t.updates(*base, recorded@, lock) && r->Ok_0.policy@ == words::joined(
            cleared(replaced(rows_of(policy@), t.lines())),
            "\n"@,
        ) + "\n"@;
    lemma_base_lock(image_user(held(config)));
    let new_base = base_lock(image_user(held(config)));
    assert forall|d: Seq<char>| #[trigger]
        lock.contains(d) <==> new_base.contains(d) || (text::texts(base.old_readonly@).contains(d)
            && !text::texts(base.old_base@).contains(d)) by {
        law_carve_outs_are_preserved(
            text::texts(base.old_readonly@),
            text::texts(base.old_base@),
            new_base,
            d,
        );
    }
    t
}

proof fn lemma_rows_read_back(rows: Seq<Seq<char>>)
    requires
        rows.len() > 0,
        forall|i: int| 0 <= i < rows.len() ==> !(#[trigger] rows[i]).contains('\n'),
    ensures
        rows_of(words::joined(rows, "\n"@) + "\n"@) == rows,
{
    reveal_strlit("\n");
    assert("\n"@ =~= seq!['\n']);
    let none: Seq<char> = seq![];
    let body = words::joined(rows, seq!['\n']);
    words::law_join_pieces(rows, '\n');
    words::law_pieces_concat(body, none, '\n');
    assert(body + seq!['\n'] + none =~= body + seq!['\n']);
    let ps = words::pieces(body + seq!['\n'], '\n');
    assert(words::pieces(none, '\n') =~= seq![none]);
    assert(ps =~= rows.push(none));
    assert(ps.drop_last() =~= rows);
}

proof fn lemma_rows_free(s: Seq<char>)
    ensures
        forall|i: int| 0 <= i < rows_of(s).len() ==> !(#[trigger] rows_of(s)[i]).contains('\n'),
{
    words::lemma_pieces_free(s, '\n');
    assert forall|i: int| 0 <= i < rows_of(s).len() implies !(#[trigger] rows_of(s)[i]).contains(
        '\n',
    ) by {
        assert(rows_of(s)[i] == words::pieces(s, '\n')[i]);
    }
}

proof fn lemma_cleared_free(rows: Seq<Seq<char>>)
    requires
        forall|i: int| 0 <= i < rows.len() ==> !(#[trigger] rows[i]).contains('\n'),
    ensures
        forall|i: int|
            0 <= i < cleared(rows).len() ==> !(#[trigger] cleared(rows)[i]).contains('\n'),
{
    lemma_unsigned_free(rows);
    lemma_closed(unsigned(rows));
    let c = cleared(rows);
    assert forall|i: int| 0 <= i < c.len() implies !(#[trigger] c[i]).contains('\n') by {
        if unsigned(rows).len() < rows.len() {
            assert(c[i] == unsigned(rows)[i]);
        }
    }
}

proof fn lemma_unsigned_free(rows: Seq<Seq<char>>)
    requires
        forall|i: int| 0 <= i < rows.len() ==> !(#[trigger] rows[i]).contains('\n'),
    ensures
        forall|i: int|
            0 <= i < unsigned(rows).len() ==> !(#[trigger] unsigned(rows)[i]).contains('\n'),
    decreases rows.len(),
{
    if rows.len() > 0 {
        let front = rows.drop_last();
        assert forall|i: int| 0 <= i < front.len() implies !(#[trigger] front[i]).contains('\n') by {
            assert(front[i] == rows[i]);
        }
        lemma_unsigned_free(front);
        assert(!rows[rows.len() - 1].contains('\n'));
        assert forall|i: int| 0 <= i < unsigned(rows).len() implies !(#[trigger] unsigned(
            rows,
        )[i]).contains('\n') by {
            if i < unsigned(front).len() {
                assert(unsigned(rows)[i] == unsigned(front)[i]);
            }
        }
    }
}

proof fn lemma_cleared_header(ahead: Seq<Seq<char>>, head: Seq<char>, behind: Seq<Seq<char>>)
    requires
        is_header(head),
        words::trim_back(head) != "[signature]"@,
        words::trim(head).len() > 0,
    ensures
        cleared(ahead + seq![head] + behind).contains(head),
        cleared(ahead + seq![head] + behind).len() > 0,
    decreases behind.len(),
{
    let all = ahead + seq![head] + behind;
    lemma_kept_row(ahead, head, behind);
    let u = unsigned(all);
    let k = choose|k: int| 0 <= k < u.len() && u[k] == head;
    lemma_closed_keeps(u, k);
    lemma_closed(u);
    lemma_unsigned_len(all);
    assert(closed(u)[k] == u[k]);
    if u.len() == all.len() {
        assert(all[ahead.len() as int] == head);
    }
}

proof fn lemma_kept_row(ahead: Seq<Seq<char>>, head: Seq<char>, behind: Seq<Seq<char>>)
    requires
        is_header(head),
        words::trim_back(head) != "[signature]"@,
    ensures
        unsigned(ahead + seq![head] + behind).contains(head),
    decreases behind.len(),
{
    let all = ahead + seq![head] + behind;
    if behind.len() == 0 {
        assert(all =~= ahead.push(head));
        assert(all.last() == head);
        assert(unsigned(all) == unsigned(all.drop_last()).push(head));
        assert(unsigned(all).last() == head);
    } else {
        let rest = behind.drop_last();
        assert(all.drop_last() =~= ahead + seq![head] + rest);
        lemma_kept_row(ahead, head, rest);
        let v = unsigned(all.drop_last());
        let k = choose|k: int| 0 <= k < v.len() && v[k] == head;
        assert(unsigned(all)[k] == head);
    }
}

proof fn lemma_closed_keeps(rows: Seq<Seq<char>>, k: int)
    requires
        0 <= k < rows.len(),
        words::trim(rows[k]).len() > 0,
    ensures
        closed(rows).len() > k,
    decreases rows.len(),
{
    if words::trim(rows.last()).len() == 0 {
        assert(k < rows.len() - 1);
        assert(rows.drop_last()[k] == rows[k]);
        lemma_closed_keeps(rows.drop_last(), k);
    }
}

/// The policy that an update writes still has its table `[rootfs]` and no section `[signature]`: an
/// update never leaves a signature over a policy that it changed.
pub proof fn law_updated_policy_is_unsigned(
    policy: &str,
    render: &RootfsRender,
    r: Result<String, String>,
)
    requires
        call_ensures(rewrite_oci_policy, (policy, render), r),
    ensures
        r is Err <==> forall|i: int|
            0 <= i < rows_of(policy@).len() ==> words::trim_back(#[trigger] rows_of(policy@)[i])
                != "[rootfs]"@,
        r matches Ok(s) ==> {
            &&& rows_of(s@).contains("[rootfs]"@)
            &&& forall|i: int|
                0 <= i < rows_of(s@).len() ==> words::trim_back(#[trigger] rows_of(s@)[i])
                    != "[signature]"@
        },
{
    let rows = rows_of(policy@);
    lemma_row_at(rows, "[rootfs]"@);
    if let Ok(s) = r {
        let at = row_at(rows, "[rootfs]"@);
        let table = render.lines();
        let all = replaced(rows, table);
        let c = cleared(all);
        lemma_sections(rows, at + 1, at + 1);
        let next = section_from(rows, at + 1);
        lemma_content(rows, at + 1, next);
        let end = content_end(rows, at + 1, next);
        lemma_rows_free(policy@);
        lemma_rows_free(render.block());
        assert forall|i: int| 0 <= i < all.len() implies !(#[trigger] all[i]).contains('\n') by {
            if i < at {
                assert(all[i] == rows[i]);
            } else if i < at + table.len() {
                let b = rows_of(render.block());
                assert(all[i] == table[i - at]);
                assert(table[i - at] == text::without_end(b[i - at], "\r"@));
                assert(!b[i - at].contains('\n'));
                lemma_shorter_free(b[i - at]);
            } else {
                assert(all[i] == rows[i - at - table.len() + end]);
            }
        }
        lemma_table_header(*render);
        reveal_strlit("[rootfs]");
        reveal_strlit("[signature]");
        let head = "[rootfs]"@;
        assert(table =~= seq![head] + table.drop_first());
        assert(all =~= rows.take(at) + seq![head] + (table.drop_first() + rows.skip(end)));
        lemma_untrimmed(head);
        assert(head.len() != "[signature]"@.len());
        lemma_cleared_header(rows.take(at), head, table.drop_first() + rows.skip(end));
        lemma_cleared_free(all);
        lemma_rows_read_back(c);
        law_update_clears_the_signature(rows, table);
        assert forall|i: int| 0 <= i < rows_of(s@).len() implies words::trim_back(
            #[trigger] rows_of(s@)[i],
        ) != "[signature]"@ by {
            assert(rows_of(s@)[i] == c[i]);
            if words::trim_back(c[i]) == "[signature]"@ {
                lemma_trimmed_head(c[i]);
                assert(is_header(c[i]));
            }
        }
    }
}

proof fn lemma_shorter_free(s: Seq<char>)
    requires
        !s.contains('\n'),
    ensures
        !text::without_end(s, "\r"@).contains('\n'),
{
    let t = text::without_end(s, "\r"@);
    if t.contains('\n') {
        let i = choose|i: int| 0 <= i < t.len() && t[i] == '\n';
        assert(s[i] == '\n');
    }
}

proof fn lemma_untrimmed(head: Seq<char>)
    requires
        head == "[rootfs]"@,
    ensures
        words::trim_back(head) == head,
        words::trim(head) == head,
{
    reveal_strlit("[rootfs]");
    assert(!text::is_white('['));
    assert(!text::is_white(']'));
}

proof fn lemma_trimmed_head(row: Seq<char>)
    ensures
        words::trim_back(row).len() <= row.len(),
        words::trim_back(row).len() > 0 ==> words::trim_back(row)[0] == row[0],
    decreases row.len(),
{
    if row.len() > 0 && text::is_white(row.last()) {
        lemma_trimmed_head(row.drop_last());
    }
}

proof fn lemma_row_at(rows: Seq<Seq<char>>, want: Seq<char>)
    ensures
        0 <= row_at(rows, want) <= rows.len(),
        row_at(rows, want) < rows.len() ==> words::trim_back(rows[row_at(rows, want)]) == want,
        row_at(rows, want) >= rows.len() <==> forall|i: int|
            0 <= i < rows.len() ==> words::trim_back(#[trigger] rows[i]) != want,
    decreases rows.len(),
{
    if rows.len() > 0 {
        if words::trim_back(rows[0]) != want {
            let rest = rows.drop_first();
            lemma_row_at(rest, want);
            let k = row_at(rest, want);
            if k < rest.len() {
                assert(rest[k] == rows[k + 1]);
            } else {
                assert forall|i: int| 0 <= i < rows.len() implies words::trim_back(
                    #[trigger] rows[i],
                ) != want by {
                    if i > 0 {
                        assert(rows[i] == rest[i - 1]);
                    }
                }
            }
        }
    }
}

/// The lock that an image with this configuration has derived: the one an update is held against.
pub fn derived_lock(config: Option<&[u8]>) -> (out: Vec<String>)
    ensures
        text::texts(out@) == base_lock(image_user(held(config))),
{
    lock_of(config)
}

/// The image table of a source policy.
#[derive(Debug)]
pub struct ImageTable {
    /// The unpacked image.
    pub path: Option<String>,
    /// The image.
    pub image: Option<String>,
    /// Why it is trusted.
    pub reason: Option<String>,
    /// What becomes of changes.
    pub persistence: Option<String>,
    /// The directories that are locked.
    pub readonly: Option<Vec<String>>,
    /// The holes in the lock.
    pub writable: Option<Vec<String>>,
}

/// The texts of a list, none where it is not given.
pub open spec fn given_texts(v: Option<Vec<String>>) -> Seq<Seq<char>> {
    match v {
        Some(v) => text::texts(v@),
        None => seq![],
    }
}

fn given(v: Option<Vec<String>>) -> (out: Vec<String>)
    ensures
        text::texts(out@) == given_texts(v),
{
    match v {
        Some(v) => v,
        None => {
            let out: Vec<String> = Vec::new();
            assert(text::texts(out@) =~= seq![]);
            out
        },
    }
}

/// What an update is held against: the image table of the entry's policy, which has to be there, and
/// the lock that the image derived. What the table does not give is empty, but the unpacked image,
/// which is then the entry's.
pub fn update_baseline(
    policy_path: &str,
    table: Option<ImageTable>,
    entry: &StoreEntry,
    config: Option<&[u8]>,
) -> (r: Result<Baseline, String>)
    ensures
        match (table, r) {
            (None, Err(m)) => m@ == policy_path@ + " has no [rootfs] — not an OCI entry"@,
            (Some(t), Ok(b)) => {
                &&& b.old_image@ == layout::opt(t.image).unwrap_or(""@)
                &&& text::texts(b.old_readonly@) == given_texts(t.readonly)
                &&& text::texts(b.writable@) == given_texts(t.writable)
                &&& layout::opt(b.reason) == layout::opt(t.reason)
                &&& layout::opt(b.persistence) == layout::opt(t.persistence)
                &&& b.path@ == layout::opt(t.path).unwrap_or(path::joined(entry.place(), "rootfs"@))
                &&& text::texts(b.old_base@) == base_lock(image_user(held(config)))
            },
            _ => false,
        },
{
    match table {
        None => Err(concat2(policy_path, " has no [rootfs] — not an OCI entry")),
        Some(t) => {
            let old_image = match t.image {
                Some(s) => s,
                None => "".to_owned(),
            };
            let place = match t.path {
                Some(s) => s,
                None => entry.rootfs(),
            };
            Ok(
                Baseline {
                    old_image,
                    old_readonly: given(t.readonly),
                    writable: given(t.writable),
                    reason: t.reason,
                    persistence: t.persistence,
                    path: place,
                    old_base: derived_lock(config),
                },
            )
        },
    }
}

// ---- fetching ------------------------------------------------------------------

/// The program that fetches and unpacks an image: its first argument is the image, its second the
/// entry.
pub const FETCH_SCRIPT: &'static str = "\nref=\"$1\"; entry=\"$2\"\nlayout=\"$entry/.layout\"; bundle=\"$entry/.bundle\"; err=\"$entry/.fetch.err\"\nrm -rf \"$layout\" \"$bundle\"\nif ! skopeo copy --insecure-policy --digestfile \"$entry/.digest\" \"docker://$ref\" \"oci:$layout:img\" 2>\"$err\"; then exit 1; fi\nif ! skopeo inspect --insecure-policy --config \"oci:$layout:img\" >\"$entry/config.json\" 2>>\"$err\"; then exit 1; fi\nif ! umoci unpack --rootless --image \"$layout:img\" \"$bundle\" 2>>\"$err\"; then exit 1; fi\nrm -rf \"$entry/rootfs\"\nmv \"$bundle/rootfs\" \"$entry/rootfs\"\ndig=$(cat \"$entry/.digest\")\ncase \"$ref\" in\n  *@*) printf '%s\\n' \"$ref\" > \"$entry/digest\" ;;\n  *) printf '%s@%s\\n' \"$ref\" \"$dig\" > \"$entry/digest\" ;;\nesac\nrm -rf \"$layout\" \"$bundle\" \"$entry/.digest\" \"$err\"\n";

/// What a fetch runs with.
#[derive(Debug)]
pub struct Fetch {
    /// The policy of the fetch, over the signed one that grants its egress.
    pub leaf: String,
    /// The name of the kennel.
    pub instance: String,
    /// The command.
    pub argv: Vec<String>,
}

/// The directory of an entry as the fetch is granted it, and as it sees it: below the home where
/// it lies there, as it is written there, and otherwise at its own place.
pub open spec fn fetch_places(dir: Seq<char>, home: Seq<char>) -> (Seq<char>, Seq<char>) {
    match path::relative_to(dir, home) {
        Some(rel) if path::rooted(dir) == path::rooted(home) => (
            "~/"@ + rel,
            "/home/kennel/"@ + rel,
        ),
        _ => (dir, dir),
    }
}

/// What a fetch runs with: it may write the entry and nothing else. A store below the operator's
/// home is seen below the home of the kennel.
pub fn fetch_plan(name: &str, dir: &str, home: &str, image: &str) -> (f: Fetch)
    ensures
        f.leaf@ == "name = \""@ + name@
            + "-fetch\"\ntemplate_base = \"oci-fetch@v1\"\n[fs]\nwrite = [\""@ + fetch_places(
            dir@,
            home@,
        ).0 + "\"]\n"@,
        f.instance@ == name@ + "-fetch"@,
        text::texts(f.argv@) == seq![
            "/bin/sh"@,
            "-c"@,
            FETCH_SCRIPT@,
            "sh"@,
            image@,
            fetch_places(dir@, home@).1,
        ],
{
    let mut grant = dir.to_owned();
    let mut view = dir.to_owned();
    if is_absolute(dir) == is_absolute(home) {
        if let Some(rel) = strip_base(dir, home) {
            grant = concat2("~/", rel.as_str());
            view = concat2("/home/kennel/", rel.as_str());
        }
    }
    let leaf = concat5(
        "name = \"",
        name,
        "-fetch\"\ntemplate_base = \"oci-fetch@v1\"\n[fs]\nwrite = [\"",
        grant.as_str(),
        "\"]\n",
    );
    let mut argv: Vec<String> = Vec::new();
    push_line(&mut argv, "/bin/sh".to_owned());
    push_line(&mut argv, "-c".to_owned());
    push_line(&mut argv, FETCH_SCRIPT.to_owned());
    push_line(&mut argv, "sh".to_owned());
    push_line(&mut argv, image.to_owned());
    push_line(&mut argv, view);
    assert(text::texts(argv@) =~= seq![
        "/bin/sh"@,
        "-c"@,
        FETCH_SCRIPT@,
        "sh"@,
        image@,
        fetch_places(dir@, home@).1,
    ]);
    Fetch { leaf, instance: concat2(name, "-fetch"), argv }
}

/// The line ahead of a fetch.
pub fn fetching_text(image: &str) -> (r: String)
    ensures
        r@ == "kennel: fetching `"@ + image@ + "` confined under oci-fetch@v1 …"@,
{
    concat3("kennel: fetching `", image, "` confined under oci-fetch@v1 …")
}

/// Whether a fetch has populated the entry: the image, its configuration and its digest are there;
/// else why, by what it wrote to its error file.
pub fn fetched(
    name: &str,
    rootfs: bool,
    config: bool,
    digest: bool,
    detail: &str,
) -> (r: Result<(), String>)
    ensures
        if rootfs && config && digest {
            r is Ok
        } else {
            r matches Err(m) && m@ == "the confined fetch did not populate `"@ + name@ + "` — "@ + (
            if words::trim(detail@).len() == 0 {
                "skopeo/umoci failed inside the kennel (the host needs both, and the registry must be in oci-fetch@v1's allowlist)"@
            } else {
                words::trim(detail@)
            })
        },
{
    if rootfs && config && digest {
        return Ok(());
    }
    let t = trimmed(detail);
    let hint = if t.unicode_len() == 0 {
        "skopeo/umoci failed inside the kennel (the host needs both, and the registry must be in oci-fetch@v1's allowlist)"
    } else {
        t
    };
    Err(concat4("the confined fetch did not populate `", name, "` — ", hint))
}

/// What a build writes and says.
#[derive(Debug)]
pub struct Built {
    /// The policy, where it is to be written.
    pub policy: Option<String>,
    /// The lines.
    pub lines: Vec<String>,
}

/// What a build writes and says, once the image is in place: a policy is written where there is
/// none or the build is forced, with the image as it was recorded and the lock of its user.
pub fn finish_build(
    e: &StoreEntry,
    name: &str,
    recorded: &str,
    config: Option<&[u8]>,
    has_policy: bool,
    force: bool,
) -> (b: Built)
    ensures
        layout::opt(b.policy) == if !has_policy || force {
            Some(
                scaffold(
                    name@,
                    path::joined(e.place(), "rootfs"@),
                    recorded@,
                    base_lock(image_user(held(config))),
                ),
            )
        } else {
            None::<Seq<char>>
        },
        text::texts(b.lines@) == seq![
            "kennel: built store entry `"@ + name@ + "` at "@ + e.place(),
            "  digest: "@ + recorded@,
            "  policy: "@ + path::joined(e.place(), "policy.toml"@)
                + " (complete `reason`, then `kennel policy sign`)"@,
            "  rootfs: "@ + path::joined(e.place(), "rootfs"@),
        ],
{
    let rootfs = e.rootfs();
    let place = e.policy();
    let policy = if !has_policy || force {
        let lock = lock_of(config);
        Some(scaffold_policy(name, rootfs.as_str(), recorded, lock.as_slice()))
    } else {
        None
    };
    let mut lines: Vec<String> = Vec::new();
    push_line(&mut lines, concat4("kennel: built store entry `", name, "` at ", e.dir()));
    push_line(&mut lines, concat2("  digest: ", recorded));
    push_line(
        &mut lines,
        concat3(
            "  policy: ",
            place.as_str(),
            " (complete `reason`, then `kennel policy sign`)",
        ),
    );
    push_line(&mut lines, concat2("  rootfs: ", rootfs.as_str()));
    assert(text::texts(lines@) =~= seq![
        "kennel: built store entry `"@ + name@ + "` at "@ + e.place(),
        "  digest: "@ + recorded@,
        "  policy: "@ + path::joined(e.place(), "policy.toml"@)
            + " (complete `reason`, then `kennel policy sign`)"@,
        "  rootfs: "@ + path::joined(e.place(), "rootfs"@),
    ]);
    Built { policy, lines }
}

/// A build writes a policy just where there is none or it is forced, and that policy locks the whole
/// executable closure just where the configuration of the image names a user other than root.
pub proof fn law_build_locks_the_closure(
    e: &StoreEntry,
    name: &str,
    recorded: &str,
    config: Option<&[u8]>,
    has_policy: bool,
    force: bool,
    b: Built,
)
    requires
        call_ensures(finish_build, (e, name, recorded, config, has_policy, force), b),
    ensures
        b.policy is None <==> has_policy && !force,
        ({
            let user = match config {
                Some(x) => json_text(x@, "config"@, "User"@),
                None => None,
            };
            b.policy is Some ==> b.policy->0@ == scaffold(
                name@,
                path::joined(e.place(), "rootfs"@),
                recorded@,
                if names_other_than_root(user) {
                    closure()
                } else {
                    seq![]
                },
            )
        }),
{
    lemma_base_lock(image_user(held(config)));
}

// ---- command lines --------------------------------------------------------------

/// A lone word is what `kennel oci build` works on, with no flag set and no option given.
pub proof fn law_build_takes_a_lone_word(
    list: &[String],
    w: Seq<char>,
    r: Result<BuildArgs, String>,
)
    requires
        call_ensures(build_args, (list,), r),
        text::texts(list@) == seq![w],
        !"--"@.is_prefix_of(w),
    ensures
        r matches Ok(x) && x.name@ == w && x.image is None && !x.force && !x.no_fetch && x.key is None && x.template_dirs@.len() == 0 && x.trust_dirs@.len() == 0,
{
    let shape = build_shape();
    reveal_strlit("--");
    reveal_strlit("--force");
    reveal_strlit("--no-fetch");
    reveal_strlit("--image");
    reveal_strlit("--key");
    reveal_strlit("--template-dir");
    reveal_strlit("--trust-dir");
    assert("--"@.is_prefix_of("--force"@)) by {
        assert("--"@ =~= "--force"@.subrange(0, 2));
    }
    assert("--"@.is_prefix_of("--no-fetch"@)) by {
        assert("--"@ =~= "--no-fetch"@.subrange(0, 2));
    }
    assert("--"@.is_prefix_of("--image"@)) by {
        assert("--"@ =~= "--image"@.subrange(0, 2));
    }
    assert("--"@.is_prefix_of("--key"@)) by {
        assert("--"@ =~= "--key"@.subrange(0, 2));
    }
    assert("--"@.is_prefix_of("--template-dir"@)) by {
        assert("--"@ =~= "--template-dir"@.subrange(0, 2));
    }
    assert("--"@.is_prefix_of("--trust-dir"@)) by {
        assert("--"@ =~= "--trust-dir"@.subrange(0, 2));
    }
    args::lemma_scan_word(w, shape);
    let ps = seq![args::Part::Word(w)];
    assert(args::words(ps)[0] == w);
    assert(args::values(ps, "--image"@).len() == 0);
    assert(args::values(ps, "--key"@).len() == 0);
    assert(args::values(ps, "--template-dir"@).len() == 0);
    assert(args::values(ps, "--trust-dir"@).len() == 0);
    assert(!args::given(ps, "--force"@));
    assert(!args::given(ps, "--no-fetch"@));
    if r is Ok {
        assert(text::texts(r->Ok_0.template_dirs@).len() == r->Ok_0.template_dirs@.len());
        assert(text::texts(r->Ok_0.trust_dirs@).len() == r->Ok_0.trust_dirs@.len());
    }
}

/// A flag more on the command line of `kennel oci build` sets that flag, and all else stays as it was.
pub proof fn law_build_takes_a_flag(
    a: &[String],
    b: &[String],
    x: BuildArgs,
    y: BuildArgs,
    flag: Seq<char>,
)
    requires
        call_ensures(build_args, (a,), Ok::<BuildArgs, String>(x)),
        call_ensures(build_args, (b,), Ok::<BuildArgs, String>(y)),
        text::texts(b@) == text::texts(a@).push(flag),
        "--"@.is_prefix_of(flag),
    ensures
        y.name@ == x.name@,
        layout::opt(y.image) == layout::opt(x.image),
        y.force == (x.force || flag == "--force"@),
        y.no_fetch == (x.no_fetch || flag == "--no-fetch"@),
        layout::opt(y.key) == layout::opt(x.key),
        text::texts(y.template_dirs@) == text::texts(x.template_dirs@),
        text::texts(y.trust_dirs@) == text::texts(x.trust_dirs@),
{
    args::lemma_scan_switch(text::texts(a@), build_shape(), flag);
    let ps = args::scanned(text::texts(a@), build_shape())->Ok_0;
    args::lemma_part_push(ps, args::Part::Switch(flag), "--force"@);
    args::lemma_part_push(ps, args::Part::Switch(flag), "--no-fetch"@);
    args::lemma_part_push(ps, args::Part::Switch(flag), "--image"@);
    args::lemma_part_push(ps, args::Part::Switch(flag), "--key"@);
    args::lemma_part_push(ps, args::Part::Switch(flag), "--template-dir"@);
    args::lemma_part_push(ps, args::Part::Switch(flag), "--trust-dir"@);
}

/// An option more on the command line of `kennel oci build` gives that option its value, and all else stays as
/// it was.
pub proof fn law_build_takes_an_option(
    a: &[String],
    b: &[String],
    x: BuildArgs,
    y: BuildArgs,
    o: Seq<char>,
    v: Seq<char>,
)
    requires
        call_ensures(build_args, (a,), Ok::<BuildArgs, String>(x)),
        call_ensures(build_args, (b,), Ok::<BuildArgs, String>(y)),
        text::texts(b@) == text::texts(a@).push(o).push(v),
        o == "--image"@ || o == "--key"@ || o == "--template-dir"@ || o == "--trust-dir"@,
    ensures
        y.name@ == x.name@,
        layout::opt(y.image) == if o == "--image"@ {
            Some(v)
        } else {
            layout::opt(x.image)
        },
        y.force == x.force,
        y.no_fetch == x.no_fetch,
        layout::opt(y.key) == if o == "--key"@ {
            Some(v)
        } else {
            layout::opt(x.key)
        },
        text::texts(y.template_dirs@) == if o == "--template-dir"@ {
            text::texts(x.template_dirs@).push(v)
        } else {
            text::texts(x.template_dirs@)
        },
        text::texts(y.trust_dirs@) == if o == "--trust-dir"@ {
            text::texts(x.trust_dirs@).push(v)
        } else {
            text::texts(x.trust_dirs@)
        },
{
    let shape = build_shape();
    reveal_strlit("--force");
    reveal_strlit("--no-fetch");
    reveal_strlit("--image");
    reveal_strlit("--key");
    reveal_strlit("--template-dir");
    reveal_strlit("--trust-dir");
    assert("--image"@[2] != "--force"@[2]);
    assert("--image"@.len() != "--no-fetch"@.len());
    assert("--key"@.len() != "--force"@.len());
    assert("--key"@.len() != "--no-fetch"@.len());
    assert("--template-dir"@.len() != "--force"@.len());
    assert("--template-dir"@.len() != "--no-fetch"@.len());
    assert("--trust-dir"@.len() != "--force"@.len());
    assert("--trust-dir"@.len() != "--no-fetch"@.len());
    assert(shape.options[0] == "--image"@);
    assert(shape.options[1] == "--key"@);
    assert(shape.options[2] == "--template-dir"@);
    assert(shape.options[3] == "--trust-dir"@);
    assert(shape.options.contains(o));
    assert(!shape.switches.contains(o));
    args::lemma_scan_option(text::texts(a@), shape, o, v);
    let ps = args::scanned(text::texts(a@), shape)->Ok_0;
    args::lemma_part_push(ps, args::Part::Value(o, v), "--force"@);
    args::lemma_part_push(ps, args::Part::Value(o, v), "--no-fetch"@);
    args::lemma_part_push(ps, args::Part::Value(o, v), "--image"@);
    args::lemma_part_push(ps, args::Part::Value(o, v), "--key"@);
    args::lemma_part_push(ps, args::Part::Value(o, v), "--template-dir"@);
    args::lemma_part_push(ps, args::Part::Value(o, v), "--trust-dir"@);
}

// ---- what holds of the whole ----------------------------------------------------

proof fn lemma_unsigned_table(a: Seq<Seq<char>>, t: Seq<Seq<char>>)
    requires
        t.len() > 0,
        is_header(t[0]),
        words::trim_back(t[0]) != "[signature]"@,
        forall|i: int| 0 < i < t.len() ==> !is_header(#[trigger] t[i]),
    ensures
        unsigned(a + t) == unsigned(a) + t,
        !signs(a + t),
    decreases t.len(),
{
    let all = a + t;
    let front = t.drop_last();
    assert(all.drop_last() =~= a + front);
    assert(all.last() == t.last());
    if t.len() == 1 {
        assert(a + front =~= a);
        assert(unsigned(all) =~= unsigned(a) + t);
    } else {
        assert(!is_header(t[t.len() - 1]));
        assert forall|i: int| 0 < i < front.len() implies !is_header(#[trigger] front[i]) by {
            assert(front[i] == t[i]);
        }
        lemma_unsigned_table(a, front);
        assert(unsigned(all) =~= unsigned(a) + t);
    }
}

proof fn lemma_unsigned_front(x: Seq<Seq<char>>, c: Seq<Seq<char>>)
    ensures
        unsigned(x).is_prefix_of(unsigned(x + c)),
    decreases c.len(),
{
    if c.len() == 0 {
        assert(x + c =~= x);
    } else {
        lemma_unsigned_front(x, c.drop_last());
        assert((x + c).drop_last() =~= x + c.drop_last());
        let u = unsigned(x);
        let v = unsigned(x + c.drop_last());
        let w = unsigned(x + c);
        assert(v.subrange(0, u.len() as int) == u);
        assert(w.subrange(0, u.len() as int) =~= v.subrange(0, u.len() as int));
    }
}

/// The policy that an update writes holds every row of the table that was made for it.
pub proof fn law_updated_policy_holds_the_table(
    policy: &str,
    render: &RootfsRender,
    r: Result<String, String>,
    s: String,
    i: int,
)
    requires
        call_ensures(rewrite_oci_policy, (policy, render), r),
        r == Ok::<String, String>(s),
        0 <= i < render.lines().len(),
        words::trim(render.lines()[i]).len() > 0,
        forall|k: int| 0 < k < render.lines().len() ==> !is_header(#[trigger] render.lines()[k]),
    ensures
        text::holds(s@, render.lines()[i]),
{
    let rows = rows_of(policy@);
    let at = row_at(rows, "[rootfs]"@);
    let table = render.lines();
    lemma_table_header(*render);
    reveal_strlit("[rootfs]");
    reveal_strlit("[signature]");
    lemma_untrimmed("[rootfs]"@);
    assert("[rootfs]"@.len() != "[signature]"@.len());
    let end = content_end(rows, at + 1, section_from(rows, at + 1));
    let a = rows.take(at);
    let c = rows.skip(end);
    let all = replaced(rows, table);
    assert(all == a + table + c);
    lemma_unsigned_table(a, table);
    lemma_unsigned_front(a + table, c);
    let u = unsigned(all);
    let x = unsigned(a) + table;
    let k = unsigned(a).len() + i;
    assert(u[k] == x[k]) by {
        assert(u.subrange(0, x.len() as int) == x);
        assert(u.subrange(0, x.len() as int)[k] == x[k]);
    }
    assert(x[k] == table[i]);
    let done = cleared(all);
    lemma_unsigned_len(all);
    if u.len() < all.len() {
        lemma_closed_keeps(u, k);
        lemma_closed(u);
        assert(done[k] == u[k]);
    } else {
        assert(done == all);
        assert(u == all);
    }
    words::lemma_joined_holds(done, "\n"@, k);
    text::lemma_held_in_either(words::joined(done, "\n"@), "\n"@, table[i]);
}

/// Whether a line of the text sets the key to something that holds `p`.
pub open spec fn sets(s: Seq<char>, key: Seq<char>, line: Seq<char>, p: Seq<char>) -> bool {
    text::holds(s, line) && key.is_prefix_of(line) && text::holds(line, p)
}

proof fn lemma_table_row(r: RootfsRender, k: int)
    requires
        0 <= k < r.rows().len(),
    ensures
        text::holds(r.block(), r.rows()[k]),
{
    words::lemma_joined_holds(r.rows(), "\n"@, k);
    text::lemma_held_in_either(words::joined(r.rows(), "\n"@), "\n"@, r.rows()[k]);
}

proof fn lemma_list_row(lead: Seq<char>, v: Seq<Seq<char>>, end: Seq<char>, i: int)
    requires
        0 <= i < v.len(),
    ensures
        text::holds(lead + toml_list(v) + end, toml_value(v[i])),
        lead.is_prefix_of(lead + toml_list(v) + end),
{
    let q = v.map_values(|p: Seq<char>| toml_value(p));
    words::lemma_joined_holds(q, ", "@, i);
    text::lemma_held_within(lead, toml_list(v), end, q[i]);
    let s = lead + toml_list(v) + end;
    assert(s.subrange(0, lead.len() as int) =~= lead);
}

/// The table that is written sets the path, the image and the reason that it was made for, and every
/// path that is locked and every one that is carved out, each as what it is.
pub proof fn law_table_says_what_it_was_made_for(r: &RootfsRender, out: String, i: int, j: int)
    requires
        call_ensures(render_rootfs_block, (r,), out),
    ensures
        text::holds(out@, "path   = "@ + toml_value(r.path@)),
        text::holds(out@, "image  = "@ + toml_value(r.image@)),
        r.reason matches Some(t) ==> text::holds(out@, "reason = "@ + toml_value(t@)),
        r.persistence matches Some(p) ==> (p@.len() > 0 ==> text::holds(
            out@,
            "persistence = "@ + toml_value(p@),
        )),
        0 <= i < r.readonly@.len() ==> exists|l: Seq<char>| #[trigger]
            sets(out@, "readonly = ["@, l, toml_value(text::texts(r.readonly@)[i])),
        0 <= j < r.writable@.len() ==> exists|l: Seq<char>| #[trigger]
            sets(out@, "writable = ["@, l, toml_value(text::texts(r.writable@)[j])),
{
    let rows = r.rows();
    lemma_table_row(*r, 3);
    lemma_table_row(*r, 4);
    lemma_table_row(*r, 5);
    lemma_table_row(*r, 6);
    if let Some(p) = r.persistence {
        if p@.len() > 0 {
            assert(rows[7] == "persistence = "@ + toml_value(p@));
            lemma_table_row(*r, 7);
        }
    }
    if 0 <= i < r.readonly@.len() {
        let v = text::texts(r.readonly@);
        let end = "]   # closure-lock (build-derived + preserved carve-outs, §7.11.4c)"@;
        lemma_list_row("readonly = ["@, v, end, i);
        assert(rows[6] == "readonly = ["@ + toml_list(v) + end);
        assert(sets(out@, "readonly = ["@, rows[6], toml_value(v[i])));
    }
    if 0 <= j < r.writable@.len() {
        let v = text::texts(r.writable@);
        let end = "]   # operator carve-out, preserved"@;
        let k = rows.len() - 1;
        lemma_list_row("writable = ["@, v, end, j);
        assert(rows[k] == "writable = ["@ + toml_list(v) + end);
        lemma_table_row(*r, k);
        assert(sets(out@, "writable = ["@, rows[k], toml_value(v[j])));
    }
}

proof fn lemma_missing(a: Seq<Seq<char>>, b: Seq<Seq<char>>, p: Seq<char>)
    ensures
        missing(a, b).contains(p) <==> a.contains(p) && !b.contains(p),
    decreases a.len(),
{
    if a.len() > 0 {
        let front = a.drop_last();
        lemma_missing(front, b, p);
        let m = missing(a, b);
        let n = missing(front, b);
        if front.contains(p) {
            let k = choose|k: int| 0 <= k < front.len() && front[k] == p;
            assert(a[k] == p);
        }
        if a.contains(p) && p != a.last() {
            let k = choose|k: int| 0 <= k < a.len() && a[k] == p;
            assert(front[k] == p);
        }
        if p == a.last() {
            assert(a[a.len() - 1] == p);
        }
        if n.contains(p) {
            let k = choose|k: int| 0 <= k < n.len() && n[k] == p;
            assert(m[k] == p);
        }
        if m.contains(p) {
            let k = choose|k: int| 0 <= k < m.len() && m[k] == p;
            if k < n.len() {
                assert(n[k] == p);
            }
        }
        if m.len() == n.len() + 1 {
            assert(m[m.len() - 1] == a.last());
        }
    }
}

/// An update tells the images, every path that the lock gained and every one that it lost.
pub proof fn law_lock_changes_are_told(
    name: &str,
    old_image: &str,
    new_image: &str,
    old_readonly: &[String],
    new_readonly: &[String],
    writable: &[String],
    out: Vec<String>,
    p: Seq<char>,
)
    requires
        call_ensures(
            print_update_diff,
            (name, old_image, new_image, old_readonly, new_readonly, writable),
            out,
        ),
    ensures
        ({
            let before = text::texts(old_readonly@).contains(p);
            let after = text::texts(new_readonly@).contains(p);
            let lines = text::texts(out@);
            &&& after && !before ==> lines.contains("    + "@ + p)
            &&& before && !after ==> lines.contains("    - "@ + p)
            &&& lines.contains("  image:  "@ + old_image@)
            &&& lines.contains("       -> "@ + new_image@)
        }),
{
    let o = text::texts(old_readonly@);
    let n = text::texts(new_readonly@);
    lemma_missing(n, o, p);
    lemma_missing(o, n, p);
    let added = missing(n, o);
    let gone = missing(o, n);
    let lines = text::texts(out@);
    let head = seq![
        "kennel: updated `"@ + name@ + "`"@,
        "  image:  "@ + old_image@,
        "       -> "@ + new_image@,
    ];
    assert(lines[1] == head[1] && lines[2] == head[2]);
    let plus = added.map_values(|p: Seq<char>| "    + "@ + p);
    let minus = gone.map_values(|p: Seq<char>| "    - "@ + p);
    if n.contains(p) && !o.contains(p) {
        let k = choose|k: int| 0 <= k < added.len() && added[k] == p;
        assert(lines[4 + k] == plus[k]);
    }
    if o.contains(p) && !n.contains(p) {
        let k = choose|k: int| 0 <= k < gone.len() && gone[k] == p;
        assert(lines[4 + plus.len() + k] == minus[k]);
    }
}

/// The parts of a store entry stand in its directory under names of their own.
pub proof fn law_parts_stand_in_the_entry(
    e: &StoreEntry,
    rootfs: String,
    config: String,
    digest: String,
    policy: String,
    upper: String,
    work: String,
)
    requires
        call_ensures(StoreEntry::rootfs, (e,), rootfs),
        call_ensures(StoreEntry::config, (e,), config),
        call_ensures(StoreEntry::digest_path, (e,), digest),
        call_ensures(StoreEntry::policy, (e,), policy),
        call_ensures(StoreEntry::upper, (e,), upper),
        call_ensures(StoreEntry::work, (e,), work),
    ensures
        path::file_name_of(rootfs@) == Some("rootfs"@),
        path::file_name_of(config@) == Some("config.json"@),
        path::file_name_of(digest@) == Some("digest"@),
        path::file_name_of(policy@) == Some("policy.toml"@),
        path::file_name_of(upper@) == Some("upper"@),
        path::file_name_of(work@) == Some("work"@),
        e.place().is_prefix_of(rootfs@) && e.place().is_prefix_of(config@) && e.place().is_prefix_of(
            digest@,
        ) && e.place().is_prefix_of(policy@) && e.place().is_prefix_of(upper@)
            && e.place().is_prefix_of(work@),
{
    reveal_strlit("rootfs");
    reveal_strlit("config.json");
    reveal_strlit("digest");
    reveal_strlit("policy.toml");
    reveal_strlit("upper");
    reveal_strlit("work");
    lemma_part(e.place(), "rootfs"@);
    lemma_part(e.place(), "config.json"@);
    lemma_part(e.place(), "digest"@);
    lemma_part(e.place(), "policy.toml"@);
    lemma_part(e.place(), "upper"@);
    lemma_part(e.place(), "work"@);
}

proof fn lemma_part(d: Seq<char>, n: Seq<char>)
    requires
        n.len() > 2,
        !n.contains('/'),
    ensures
        path::file_name_of(path::joined(d, n)) == Some(n),
        d.is_prefix_of(path::joined(d, n)),
{
    path::law_join_file_name(d, n);
    if path::rooted(n) {
        assert(n[0] == '/');
    }
    assert(path::joined(d, n).subrange(0, d.len() as int) =~= d);
}

/// Each verb is its own word, and nothing else is a verb.
pub proof fn law_verbs_are_their_words(args: &[String], r: Result<Verb, String>)
    requires
        call_ensures(dispatch, (args,), r),
        args@.len() > 0,
    ensures
        r == Ok::<Verb, String>(Verb::Build) <==> text::texts(args@)[0] == "build"@,
        r == Ok::<Verb, String>(Verb::Run) <==> text::texts(args@)[0] == "run"@,
        r == Ok::<Verb, String>(Verb::Revert) <==> text::texts(args@)[0] == "revert"@,
        r == Ok::<Verb, String>(Verb::Update) <==> text::texts(args@)[0] == "update"@,
{
    reveal_strlit("build");
    reveal_strlit("run");
    reveal_strlit("revert");
    reveal_strlit("update");
    assert("build"@.len() == 5 && "run"@.len() == 3 && "revert"@.len() == 6 && "update"@.len() == 6);
    assert("revert"@[0] == 'r' && "update"@[0] == 'u');
}

/// A kennel that runs is left alone, one that is built is built again by force alone, and nothing is
/// done with one that is not, but building it.
pub proof fn law_entries_are_not_pulled_away(
    e: &StoreEntry,
    name: &str,
    running: &[String],
    built: bool,
    force: bool,
    verb: Verb,
    a: Result<(), String>,
    b: Result<(), String>,
    c: Result<(), String>,
)
    requires
        call_ensures(refuse_if_running, (name, running), a),
        call_ensures(build_refusal, (e, name, built, force), b),
        call_ensures(entry_refusal, (e, verb, name, built), c),
    ensures
        a is Err <==> text::texts(running@).contains(name@),
        b is Err <==> built && !force,
        c is Err <==> !built && verb != Verb::Build,
{
}

/// A fetch counts only where all three parts of an entry came.
pub proof fn law_fetch_is_whole(
    name: &str,
    rootfs: bool,
    config: bool,
    digest: bool,
    detail: &str,
    r: Result<(), String>,
)
    requires
        call_ensures(fetched, (name, rootfs, config, digest, detail), r),
    ensures
        r is Ok <==> rootfs && config && digest,
{
}

/// An image is fetched into its entry by its reference, under an instance of its own.
pub proof fn law_fetch_names_its_image(name: &str, dir: &str, home: &str, image: &str, f: Fetch)
    requires
        call_ensures(fetch_plan, (name, dir, home, image), f),
    ensures
        text::texts(f.argv@).contains(image@),
        name@.is_prefix_of(f.instance@),
        f.instance@ != name@,
        text::holds(f.leaf@, "name = \""@ + f.instance@ + "\""@),
        path::relative_to(dir@, home@) is None ==> text::texts(f.argv@).last() == dir@ && text::holds(
            f.leaf@,
            "write = [\""@ + dir@ + "\"]"@,
        ),
{
    let argv = text::texts(f.argv@);
    assert(argv[4] == image@);
    reveal_strlit("-fetch");
    assert(f.instance@.subrange(0, name@.len() as int) =~= name@);
    assert(f.instance@.len() > name@.len());
    let mid = "-fetch\"\ntemplate_base = \"oci-fetch@v1\"\n[fs]\nwrite = [\""@;
    reveal_strlit("-fetch\"\ntemplate_base = \"oci-fetch@v1\"\n[fs]\nwrite = [\"");
    reveal_strlit("\"");
    reveal_strlit("write = [\"");
    reveal_strlit("\"]");
    reveal_strlit("\"]\n");
    let place = fetch_places(dir@, home@).0;
    let p = "name = \""@ + f.instance@ + "\""@;
    let rest = mid.skip(7) + place + "\"]\n"@;
    assert(mid =~= "-fetch"@ + "\""@ + mid.skip(7));
    assert(f.leaf@ =~= seq![] + p + rest);
    text::lemma_holds(seq![], p, rest);
    if path::relative_to(dir@, home@) is None {
        let w = "write = [\""@ + dir@ + "\"]"@;
        let n = mid.len() - "write = [\""@.len();
        assert(mid =~= mid.take(n) + "write = [\""@);
        let front = "name = \""@ + name@ + mid.take(n);
        assert("\"]\n"@ =~= "\"]"@ + seq!['\n']);
        assert(f.leaf@ =~= front + w + seq!['\n']);
        text::lemma_holds(front, w, seq!['\n']);
    }
}

/// What an update starts from is what the policy says, with the lock of the image that is there.
pub proof fn law_update_starts_from_the_policy(
    policy_path: &str,
    table: ImageTable,
    entry: &StoreEntry,
    config: Option<&[u8]>,
    r: Result<Baseline, String>,
    b: Baseline,
)
    requires
        call_ensures(update_baseline, (policy_path, Some(table), entry, config), r),
        r == Ok::<Baseline, String>(b),
    ensures
        table.image matches Some(i) ==> b.old_image@ == i@,
        table.path matches Some(p) ==> b.path@ == p@,
        table.reason matches Some(t) ==> (b.reason matches Some(x) && x@ == t@),
        table.persistence matches Some(t) ==> (b.persistence matches Some(x) && x@ == t@),
        table.readonly matches Some(v) ==> text::texts(b.old_readonly@) == text::texts(v@),
        table.writable matches Some(v) ==> text::texts(b.writable@) == text::texts(v@),
        ({
            let user = match config {
                Some(x) => json_text(x@, "config"@, "User"@),
                None => None,
            };
            text::texts(b.old_base@) == if names_other_than_root(user) {
                closure()
            } else {
                seq![]
            }
        }),
{
    lemma_base_lock(image_user(held(config)));
}

/// The store is in the data directory that is named, and else in the home directory; an empty name is
/// none.
pub proof fn law_store_is_in_the_data_directory(
    xdg: Option<&str>,
    home: Option<&str>,
    r: Result<String, String>,
)
    requires
        call_ensures(store_root, (xdg, home), r),
    ensures
        ({
            let x = xdg matches Some(d) && d@.len() > 0;
            let h = home matches Some(d) && d@.len() > 0;
            &&& r is Ok <==> x || h
            &&& x ==> xdg->0@.is_prefix_of(r->Ok_0@)
            &&& !x && h ==> home->0@.is_prefix_of(r->Ok_0@)
        }),
{
    reveal_strlit("kennel/images");
    reveal_strlit(".local/share/kennel/images");
    let x = xdg matches Some(d) && d@.len() > 0;
    let h = home matches Some(d) && d@.len() > 0;
    if x {
        assert(r->Ok_0@.subrange(0, xdg->0@.len() as int) =~= xdg->0@);
    } else if h {
        assert(r->Ok_0@.subrange(0, home->0@.len() as int) =~= home->0@);
    }
}

/// The paths that differ from the image are all told, each with its mark.
pub proof fn law_every_persisted_change_is_told(
    name: &str,
    changes: &[(String, String)],
    out: Vec<String>,
    i: int,
)
    requires
        call_ensures(list_upper, (name, changes), out),
        0 <= i < changes@.len() <= usize::MAX,
    ensures
        text::texts(out@).contains("  "@ + changes@[i].1@ + " "@ + changes@[i].0@),
        out@.len() == changes@.len() + 2,
{
    let p = choose|p: Seq<usize>| #[trigger]
        order::is_ranking(changes@, p) && text::texts(out@) == upper_listing(name@, changes@, p);
    order::lemma_in_arrangement(p, changes@.len(), i as usize);
    let k = choose|k: int| 0 <= k < p.len() && p[k] == i as usize;
    let all = text::texts(out@);
    assert(all.len() == out@.len());
    assert(order::arranged(changes@, p)[k] == changes@[i]);
    assert(all[k + 1] == "  "@ + changes@[i].1@ + " "@ + changes@[i].0@);
}

/// A new policy has the name, the image and the root directory that it was made for.
pub proof fn law_scaffold_names_its_image(
    name: &str,
    rootfs_path: &str,
    image: &str,
    readonly: &[String],
    r: String,
)
    requires
        call_ensures(scaffold_policy, (name, rootfs_path, image, readonly), r),
    ensures
        text::holds(r@, "name = \""@ + name@ + "\"\n"@),
        text::holds(r@, "path   = \""@ + rootfs_path@ + "\"\n"@),
        text::holds(r@, "image  = \""@ + image@ + "\"\n"@),
{
    lemma_scaffold(name@, rootfs_path@, image@, text::texts(readonly@));
}

proof fn lemma_between(a: Seq<char>, ak: Seq<char>, v: Seq<char>, b: Seq<char>, bk: Seq<char>, p: Seq<char>, z: Seq<char>)
    requires
        ak.is_suffix_of(a),
        bk.is_prefix_of(b),
        p == ak + v + bk,
    ensures
        text::holds(a + v + b + z, p),
{
    let a0 = a.take(a.len() - ak.len());
    let b1 = b.skip(bk.len() as int);
    assert(a =~= a0 + ak);
    assert(b =~= bk + b1);
    assert(a + v + b + z =~= a0 + p + (b1 + z));
    text::lemma_holds(a0, p, b1 + z);
}

proof fn lemma_suffix(x: Seq<char>, c: Seq<char>, k: Seq<char>)
    requires
        k.is_suffix_of(c),
    ensures
        k.is_suffix_of(x + c),
{
    let s = x + c;
    let n = s.len() as int;
    assert(c.subrange(c.len() - k.len(), c.len() as int) == k);
    assert(s.subrange(n - k.len(), n) =~= c.subrange(c.len() - k.len(), c.len() as int));
}

proof fn lemma_scaffold(name: Seq<char>, rootfs: Seq<char>, image: Seq<char>, readonly: Seq<Seq<char>>)
    ensures
        text::holds(scaffold(name, rootfs, image, readonly), "name = \""@ + name + "\"\n"@),
        text::holds(scaffold(name, rootfs, image, readonly), "path   = \""@ + rootfs + "\"\n"@),
        text::holds(scaffold(name, rootfs, image, readonly), "image  = \""@ + image + "\"\n"@),
{
    let c = " --key <key>\nname = \""@;
    let d = "\"\ntemplate_base = \"base-confined@v1\"\n\n[rootfs]\npath   = \""@;
    let e = "\"\nimage  = \""@;
    let f = "\"\nreason = \"TODO: why this image is trusted as the kennel substrate\"\n"@;
    let (kn, kp, ki, q) = ("name = \""@, "path   = \""@, "image  = \""@, "\"\n"@);
    reveal_strlit(" --key <key>\nname = \"");
    reveal_strlit("\"\ntemplate_base = \"base-confined@v1\"\n\n[rootfs]\npath   = \"");
    reveal_strlit("\"\nimage  = \"");
    reveal_strlit("\"\nreason = \"TODO: why this image is trusted as the kennel substrate\"\n");
    reveal_strlit("name = \"");
    reveal_strlit("path   = \"");
    reveal_strlit("image  = \"");
    reveal_strlit("\"\n");
    assert(c.subrange(c.len() - kn.len(), c.len() as int) =~= kn);
    assert(d.subrange(d.len() - kp.len(), d.len() as int) =~= kp);
    assert(e.subrange(e.len() - ki.len(), e.len() as int) =~= ki);
    assert(d.subrange(0, 2) =~= q && e.subrange(0, 2) =~= q && f.subrange(0, 2) =~= q);
    let x1 = "# Scaffolded by `kennel oci build "@ + name
        + "`. Complete `reason`, then sign:\n#   kennel policy sign "@ + name;
    let x2 = x1 + c;
    let x4 = x2 + name + d;
    let x6 = x4 + rootfs + e;
    let x8 = x6 + image + f;
    lemma_suffix(x1, c, kn);
    lemma_suffix(x2 + name, d, kp);
    lemma_suffix(x4 + rootfs, e, ki);
    let z: Seq<char> = seq![];
    let (pn, pp, pi) = (kn + name + q, kp + rootfs + q, ki + image + q);
    lemma_between(x2, kn, name, d, q, pn, z);
    assert(x2 + name + d + z =~= x4);
    lemma_between(x4, kp, rootfs, e, q, pp, z);
    assert(x4 + rootfs + e + z =~= x6);
    lemma_between(x6, ki, image, f, q, pi, z);
    assert(x6 + image + f + z =~= x8);
    text::lemma_held_in_either(x4, rootfs, pn);
    text::lemma_held_in_either(x4 + rootfs, e, pn);
    text::lemma_held_in_either(x6, image, pn);
    text::lemma_held_in_either(x6 + image, f, pn);
    text::lemma_held_in_either(x6, image, pp);
    text::lemma_held_in_either(x6 + image, f, pp);
    lemma_scaffold_end(x8, name, readonly, pn);
    lemma_scaffold_end(x8, name, readonly, pp);
    lemma_scaffold_end(x8, name, readonly, pi);
}

proof fn lemma_scaffold_end(x: Seq<char>, name: Seq<char>, readonly: Seq<Seq<char>>, p: Seq<char>)
    requires
        text::holds(x, p),
    ensures
        text::holds(
            x + lock_line(readonly)
                + "# persistence = \"discard\"  # discard (default) | persist\n# writable = [\"/usr/lib/python3.12\"]  # carve a hole back out of readonly (loud)\n\n# Loader/runtime/shell-injection env denied (mirrors the launcher's env_strip, §7.11.6):\n# the launcher strips these from the image Env; denying them here also covers any\n# [env].pass you add. The image's own benign Env still merges (sanitised) via the launcher.\n[env]\ndeny = ["@
                + quoted(entry::deny_globs())
                + "]\n\n# Additive grants bind on top of the image, e.g.:\n# [fs]\n# write = [\"~/code/"@ + name
                + "/**\"]\n\n# Entrypoint comes from the image config via the launcher.\n# [workload] is not valid in an OCI policy — the digest is the provenance anchor.\n"@,
            p,
        ),
{
    let g = "# persistence = \"discard\"  # discard (default) | persist\n# writable = [\"/usr/lib/python3.12\"]  # carve a hole back out of readonly (loud)\n\n# Loader/runtime/shell-injection env denied (mirrors the launcher's env_strip, §7.11.6):\n# the launcher strips these from the image Env; denying them here also covers any\n# [env].pass you add. The image's own benign Env still merges (sanitised) via the launcher.\n[env]\ndeny = ["@;
    let q = quoted(entry::deny_globs());
    let h = "]\n\n# Additive grants bind on top of the image, e.g.:\n# [fs]\n# write = [\"~/code/"@;
    let i = "/**\"]\n\n# Entrypoint comes from the image config via the launcher.\n# [workload] is not valid in an OCI policy — the digest is the provenance anchor.\n"@;
    let l = lock_line(readonly);
    text::lemma_held_in_either(x, l, p);
    text::lemma_held_in_either(x + l, g, p);
    text::lemma_held_in_either(x + l + g, q, p);
    text::lemma_held_in_either(x + l + g + q, h, p);
    text::lemma_held_in_either(x + l + g + q + h, name, p);
    text::lemma_held_in_either(x + l + g + q + h + name, i, p);
}

proof fn lemma_parted(head: Seq<Seq<char>>, tail: Seq<Seq<char>>)
    requires
        forall|i: int| 0 <= i < head.len() ==> #[trigger] head[i] != "--"@,
        tail.len() > 0 ==> tail[0] == "--"@,
    ensures
        head_of(head + tail) == head,
        tail_of(head + tail) == if tail.len() > 0 {
            tail.skip(1)
        } else {
            seq![]
        },
{
    let all = head + tail;
    run::lemma_separator(head, tail);
    assert(all.take(head.len() as int) =~= head);
    if tail.len() > 0 {
        assert(all.skip(head.len() as int + 1) =~= tail.skip(1));
    }
}

/// A name alone before the separator is the name of the entry, and what stands behind it is taken as
/// it is.
pub proof fn law_update_takes_what_is_behind_the_separator(
    list: &[String],
    w: Seq<char>,
    tail: Seq<Seq<char>>,
    r: Result<(UpdateArgs, String), String>,
)
    requires
        call_ensures(update_args, (list,), r),
        text::texts(list@) == seq![w] + tail,
        !"--"@.is_prefix_of(w),
        tail.len() > 0,
        tail[0] == "--"@,
        tail.len() > 1,
    ensures
        r matches Ok(x) && x.0.name@ == w && !x.0.keep_state && !x.0.no_fetch && x.0.key is None && x.0.template_dirs@.len() == 0 && x.0.trust_dirs@.len() == 0 && x.1@ == tail[1],
{
    reveal_strlit("--");
    reveal_strlit("--keep-state");
    reveal_strlit("--no-fetch");
    reveal_strlit("--key");
    reveal_strlit("--template-dir");
    reveal_strlit("--trust-dir");
    assert("--"@ =~= "--keep-state"@.subrange(0, 2));
    assert("--"@ =~= "--no-fetch"@.subrange(0, 2));
    assert("--"@ =~= "--key"@.subrange(0, 2));
    assert("--"@ =~= "--template-dir"@.subrange(0, 2));
    assert("--"@ =~= "--trust-dir"@.subrange(0, 2));
    assert("--"@.is_prefix_of("--"@)) by {
        assert("--"@ =~= "--"@.subrange(0, 2));
    }
    lemma_parted(seq![w], tail);
    args::lemma_scan_word(w, update_shape());
    if let Ok(x) = r {
        assert(text::texts(x.0.template_dirs@).len() == x.0.template_dirs@.len());
        assert(text::texts(x.0.trust_dirs@).len() == x.0.trust_dirs@.len());
    }
}

/// One flag more changes one thing.
pub proof fn law_update_takes_a_flag(
    a: &[String],
    b: &[String],
    head: Seq<Seq<char>>,
    tail: Seq<Seq<char>>,
    flag: Seq<char>,
    x: (UpdateArgs, String),
    y: (UpdateArgs, String),
)
    requires
        call_ensures(update_args, (a,), Ok::<(UpdateArgs, String), String>(x)),
        call_ensures(update_args, (b,), Ok::<(UpdateArgs, String), String>(y)),
        text::texts(a@) == head + tail,
        text::texts(b@) == head.push(flag) + tail,
        forall|i: int| 0 <= i < head.len() ==> #[trigger] head[i] != "--"@,
        tail.len() > 0 ==> tail[0] == "--"@,
        "--"@.is_prefix_of(flag),
        flag != "--"@,
    ensures
        y.0.keep_state == (x.0.keep_state || flag == "--keep-state"@),
        y.0.no_fetch == (x.0.no_fetch || flag == "--no-fetch"@),
        y.0.name@ == x.0.name@,
        layout::opt(y.0.key) == layout::opt(x.0.key),
        text::texts(y.0.template_dirs@) == text::texts(x.0.template_dirs@),
        text::texts(y.0.trust_dirs@) == text::texts(x.0.trust_dirs@),
        y.1@ == x.1@,
        flag == "--keep-state"@ || flag == "--no-fetch"@,
{
    reveal_strlit("--");
    reveal_strlit("--keep-state");
    reveal_strlit("--no-fetch");
    reveal_strlit("--key");
    reveal_strlit("--template-dir");
    reveal_strlit("--trust-dir");
    let more = head.push(flag);
    assert forall|i: int| 0 <= i < more.len() implies #[trigger] more[i] != "--"@ by {
        if i < head.len() {
            assert(more[i] == head[i]);
        }
    }
    lemma_parted(head, tail);
    lemma_parted(more, tail);
    let shape = update_shape();
    args::lemma_scan_switch(head, shape, flag);
    let ps = args::scanned(head, shape)->Ok_0;
    let p = args::Part::Switch(flag);
    args::lemma_part_push(ps, p, "--keep-state"@);
    args::lemma_part_push(ps, p, "--no-fetch"@);
    args::lemma_part_push(ps, p, "--key"@);
    args::lemma_part_push(ps, p, "--template-dir"@);
    args::lemma_part_push(ps, p, "--trust-dir"@);
}

/// One option more changes one thing.
pub proof fn law_update_takes_an_option(
    a: &[String],
    b: &[String],
    head: Seq<Seq<char>>,
    tail: Seq<Seq<char>>,
    o: Seq<char>,
    v: Seq<char>,
    x: (UpdateArgs, String),
    y: (UpdateArgs, String),
)
    requires
        call_ensures(update_args, (a,), Ok::<(UpdateArgs, String), String>(x)),
        call_ensures(update_args, (b,), Ok::<(UpdateArgs, String), String>(y)),
        text::texts(a@) == head + tail,
        text::texts(b@) == head.push(o).push(v) + tail,
        forall|i: int| 0 <= i < head.len() ==> #[trigger] head[i] != "--"@,
        tail.len() > 0 ==> tail[0] == "--"@,
        v != "--"@,
        o == "--key"@ || o == "--template-dir"@ || o == "--trust-dir"@,
    ensures
        y.0.name@ == x.0.name@,
        y.0.keep_state == x.0.keep_state,
        y.0.no_fetch == x.0.no_fetch,
        layout::opt(y.0.key) == (if o == "--key"@ {
            Some(v)
        } else {
            layout::opt(x.0.key)
        }),
        text::texts(y.0.template_dirs@) == (if o == "--template-dir"@ {
            text::texts(x.0.template_dirs@).push(v)
        } else {
            text::texts(x.0.template_dirs@)
        }),
        text::texts(y.0.trust_dirs@) == (if o == "--trust-dir"@ {
            text::texts(x.0.trust_dirs@).push(v)
        } else {
            text::texts(x.0.trust_dirs@)
        }),
        y.1@ == x.1@,
{
    reveal_strlit("--");
    reveal_strlit("--keep-state");
    reveal_strlit("--no-fetch");
    reveal_strlit("--key");
    reveal_strlit("--template-dir");
    reveal_strlit("--trust-dir");
    assert("--keep-state"@.len() != "--no-fetch"@.len());
    assert("--keep-state"@.len() != "--key"@.len());
    assert("--keep-state"@.len() != "--template-dir"@.len());
    assert("--keep-state"@.len() != "--trust-dir"@.len());
    assert("--no-fetch"@.len() != "--key"@.len());
    assert("--no-fetch"@.len() != "--template-dir"@.len());
    assert("--no-fetch"@.len() != "--trust-dir"@.len());
    assert("--key"@.len() != "--template-dir"@.len());
    assert("--key"@.len() != "--trust-dir"@.len());
    assert("--template-dir"@.len() != "--trust-dir"@.len());
    let more = head.push(o).push(v);
    assert("--"@.len() == 2);
    assert forall|i: int| 0 <= i < more.len() implies #[trigger] more[i] != "--"@ by {
        if i < head.len() {
            assert(more[i] == head[i]);
        }
    }
    lemma_parted(head, tail);
    lemma_parted(more, tail);
    let shape = update_shape();
    assert(shape.options.contains(o)) by {
        assert(shape.options[0] == "--key"@);
        assert(shape.options[1] == "--template-dir"@);
        assert(shape.options[2] == "--trust-dir"@);
    }
    args::lemma_scan_option(head, shape, o, v);
    let ps = args::scanned(head, shape)->Ok_0;
    let p = args::Part::Value(o, v);
    args::lemma_part_push(ps, p, "--keep-state"@);
    args::lemma_part_push(ps, p, "--no-fetch"@);
    args::lemma_part_push(ps, p, "--key"@);
    args::lemma_part_push(ps, p, "--template-dir"@);
    args::lemma_part_push(ps, p, "--trust-dir"@);
}

/// A name alone before the separator is the name of the entry, and what stands behind it is taken as
/// it is.
pub proof fn law_revert_takes_what_is_behind_the_separator(
    list: &[String],
    w: Seq<char>,
    tail: Seq<Seq<char>>,
    r: Result<(RevertArgs, Vec<String>), String>,
)
    requires
        call_ensures(revert_args, (list,), r),
        text::texts(list@) == seq![w] + tail,
        !"--"@.is_prefix_of(w),
        tail.len() > 0,
        tail[0] == "--"@,
    ensures
        r matches Ok(x) && x.0.name@ == w && !x.0.list && text::texts(x.1@) == tail.skip(1),
{
    reveal_strlit("--");
    reveal_strlit("--list");
    assert("--"@ =~= "--list"@.subrange(0, 2));
    assert("--"@.is_prefix_of("--"@)) by {
        assert("--"@ =~= "--"@.subrange(0, 2));
    }
    lemma_parted(seq![w], tail);
    args::lemma_scan_word(w, revert_shape());
    if let Ok(x) = r {
    }
}

/// One flag more changes one thing.
pub proof fn law_revert_takes_a_flag(
    a: &[String],
    b: &[String],
    head: Seq<Seq<char>>,
    tail: Seq<Seq<char>>,
    flag: Seq<char>,
    x: (RevertArgs, Vec<String>),
    y: (RevertArgs, Vec<String>),
)
    requires
        call_ensures(revert_args, (a,), Ok::<(RevertArgs, Vec<String>), String>(x)),
        call_ensures(revert_args, (b,), Ok::<(RevertArgs, Vec<String>), String>(y)),
        text::texts(a@) == head + tail,
        text::texts(b@) == head.push(flag) + tail,
        forall|i: int| 0 <= i < head.len() ==> #[trigger] head[i] != "--"@,
        tail.len() > 0 ==> tail[0] == "--"@,
        "--"@.is_prefix_of(flag),
        flag != "--"@,
    ensures
        y.0.list == (x.0.list || flag == "--list"@),
        y.0.name@ == x.0.name@,
        text::texts(y.1@) == text::texts(x.1@),
        flag == "--list"@,
{
    reveal_strlit("--");
    reveal_strlit("--list");
    let more = head.push(flag);
    assert forall|i: int| 0 <= i < more.len() implies #[trigger] more[i] != "--"@ by {
        if i < head.len() {
            assert(more[i] == head[i]);
        }
    }
    lemma_parted(head, tail);
    lemma_parted(more, tail);
    let shape = revert_shape();
    args::lemma_scan_switch(head, shape, flag);
    let ps = args::scanned(head, shape)->Ok_0;
    let p = args::Part::Switch(flag);
    args::lemma_part_push(ps, p, "--list"@);
}

/// A name alone before the separator is the name of the entry, and what stands behind it is taken as
/// it is.
pub proof fn law_run_takes_what_is_behind_the_separator(
    list: &[String],
    w: Seq<char>,
    tail: Seq<Seq<char>>,
    r: Result<(OciRunArgs, Vec<String>), String>,
)
    requires
        call_ensures(run_args, (list,), r),
        text::texts(list@) == seq![w] + tail,
        !"--"@.is_prefix_of(w),
        tail.len() > 0,
        tail[0] == "--"@,
    ensures
        r matches Ok(x) && x.0.name@ == w && !x.0.force && x.0.key is None && text::texts(x.1@) == tail.skip(1),
{
    reveal_strlit("--");
    reveal_strlit("--force");
    reveal_strlit("--key");
    assert("--"@ =~= "--force"@.subrange(0, 2));
    assert("--"@ =~= "--key"@.subrange(0, 2));
    assert("--"@.is_prefix_of("--"@)) by {
        assert("--"@ =~= "--"@.subrange(0, 2));
    }
    lemma_parted(seq![w], tail);
    args::lemma_scan_word(w, run_shape());
    if let Ok(x) = r {
    }
}

/// One flag more changes one thing.
pub proof fn law_run_takes_a_flag(
    a: &[String],
    b: &[String],
    head: Seq<Seq<char>>,
    tail: Seq<Seq<char>>,
    flag: Seq<char>,
    x: (OciRunArgs, Vec<String>),
    y: (OciRunArgs, Vec<String>),
)
    requires
        call_ensures(run_args, (a,), Ok::<(OciRunArgs, Vec<String>), String>(x)),
        call_ensures(run_args, (b,), Ok::<(OciRunArgs, Vec<String>), String>(y)),
        text::texts(a@) == head + tail,
        text::texts(b@) == head.push(flag) + tail,
        forall|i: int| 0 <= i < head.len() ==> #[trigger] head[i] != "--"@,
        tail.len() > 0 ==> tail[0] == "--"@,
        "--"@.is_prefix_of(flag),
        flag != "--"@,
    ensures
        y.0.force == (x.0.force || flag == "--force"@),
        y.0.name@ == x.0.name@,
        layout::opt(y.0.key) == layout::opt(x.0.key),
        text::texts(y.1@) == text::texts(x.1@),
        flag == "--force"@,
{
    reveal_strlit("--");
    reveal_strlit("--force");
    reveal_strlit("--key");
    let more = head.push(flag);
    assert forall|i: int| 0 <= i < more.len() implies #[trigger] more[i] != "--"@ by {
        if i < head.len() {
            assert(more[i] == head[i]);
        }
    }
    lemma_parted(head, tail);
    lemma_parted(more, tail);
    let shape = run_shape();
    args::lemma_scan_switch(head, shape, flag);
    let ps = args::scanned(head, shape)->Ok_0;
    let p = args::Part::Switch(flag);
    args::lemma_part_push(ps, p, "--force"@);
    args::lemma_part_push(ps, p, "--key"@);
}

/// One option more changes one thing.
pub proof fn law_run_takes_an_option(
    a: &[String],
    b: &[String],
    head: Seq<Seq<char>>,
    tail: Seq<Seq<char>>,
    o: Seq<char>,
    v: Seq<char>,
    x: (OciRunArgs, Vec<String>),
    y: (OciRunArgs, Vec<String>),
)
    requires
        call_ensures(run_args, (a,), Ok::<(OciRunArgs, Vec<String>), String>(x)),
        call_ensures(run_args, (b,), Ok::<(OciRunArgs, Vec<String>), String>(y)),
        text::texts(a@) == head + tail,
        text::texts(b@) == head.push(o).push(v) + tail,
        forall|i: int| 0 <= i < head.len() ==> #[trigger] head[i] != "--"@,
        tail.len() > 0 ==> tail[0] == "--"@,
        v != "--"@,
        o == "--key"@,
    ensures
        y.0.name@ == x.0.name@,
        y.0.force == x.0.force,
        layout::opt(y.0.key) == (if o == "--key"@ {
            Some(v)
        } else {
            layout::opt(x.0.key)
        }),
        text::texts(y.1@) == text::texts(x.1@),
{
    reveal_strlit("--");
    reveal_strlit("--force");
    reveal_strlit("--key");
    assert("--force"@.len() != "--key"@.len());
    let more = head.push(o).push(v);
    assert("--"@.len() == 2);
    assert forall|i: int| 0 <= i < more.len() implies #[trigger] more[i] != "--"@ by {
        if i < head.len() {
            assert(more[i] == head[i]);
        }
    }
    lemma_parted(head, tail);
    lemma_parted(more, tail);
    let shape = run_shape();
    assert(shape.options.contains(o)) by {
        assert(shape.options[0] == "--key"@);
    }
    args::lemma_scan_option(head, shape, o, v);
    let ps = args::scanned(head, shape)->Ok_0;
    let p = args::Part::Value(o, v);
    args::lemma_part_push(ps, p, "--force"@);
    args::lemma_part_push(ps, p, "--key"@);
}

/// A name of an entry is one component that is not hidden, and a name that is one is taken.
pub proof fn law_entry_names_are_components(name: &str, r: Result<(), String>)
    requires
        call_ensures(validate_name, (name,), r),
    ensures
        r is Ok ==> name@.len() > 0 && !name@.contains('/') && !name@.contains('\\') && name@[0] != '.',
        r is Ok ==> forall|i: int|
            0 <= i < name@.len() ==> !text::is_white(#[trigger] name@[i]) && !text::is_ctrl(name@[i]),
        name@.len() > 0 && name@[0] != '.' && !name@.contains('/') && !name@.contains('\\') && (
        forall|i: int|
            0 <= i < name@.len() ==> !text::is_white(#[trigger] name@[i]) && !text::is_ctrl(name@[i]))
            ==> r is Ok,
{
    reveal_strlit(".");
    reveal_strlit("..");
    if r is Ok {
        assert forall|i: int| 0 <= i < name@.len() implies !text::is_white(#[trigger] name@[i])
            && !text::is_ctrl(name@[i]) by {
            assert(!is_unsafe_char(name@[i]));
        }
    }
}

/// A deleted file is marked so, a changed one as changed, and a directory has no mark of its own.
pub proof fn law_deletions_are_marked(kind: UpperKind, r: Option<&'static str>)
    requires
        call_ensures(upper_mark, (kind,), r),
    ensures
        r is None <==> kind is Directory,
        r matches Some(m) ==> (m@ == "D"@ <==> kind == UpperKind::Device(0)),
        r matches Some(m) ==> (m@ == "M"@ <==> kind != UpperKind::Device(0)),
{
    reveal_strlit("D");
    reveal_strlit("M");
    assert("D"@[0] != "M"@[0]);
}

/// What is restored is told as that, and what was not there as that.
pub proof fn law_restored_paths_are_told(rel: &str, what: Restored, r: String)
    requires
        call_ensures(restored_line, (rel, what), r),
    ensures
        text::holds(r@, "/"@ + rel@),
        "  restored"@.is_prefix_of(r@) <==> what == Restored::Removed,
{
    reveal_strlit("  restored /");
    reveal_strlit("  restored");
    reveal_strlit("  /");
    reveal_strlit("/");
    let p = "/"@ + rel@;
    match what {
        Restored::Removed => {
            let a = "  restored "@;
            reveal_strlit("  restored ");
            assert(r@ =~= a + p + " to the image"@);
            text::lemma_holds(a, p, " to the image"@);
            assert(r@.subrange(0, 10) =~= "  restored"@);
        },
        Restored::Absent => {
            let e = " is not persisted (already at the image) — skipped"@;
            reveal_strlit("  ");
            assert(r@ =~= "  "@ + p + e);
            text::lemma_holds("  "@, p, e);
            assert(r@[2] == '/');
            if "  restored"@.is_prefix_of(r@) {
                assert(r@.subrange(0, 10)[2] == "  restored"@[2]);
            }
        },
    }
}

/// The digest that is written is the one that is read: the image without the space around it, on a
/// line of its own.
pub proof fn law_written_digest_is_read(e: &StoreEntry, image: &str, file: String, content: &str, r: String)
    requires
        call_ensures(StoreEntry::write_digest, (e, image), file),
        call_ensures(StoreEntry::read_digest, (e, content), r),
        content@ == file@,
        words::trim(image@) == image@,
    ensures
        r@ == image@,
        file@.len() == image@.len() + 1,
        file@.last() == '\n',
{
    law_digest_reads_back(image@);
    reveal_strlit("\n");
}

/// An image is built by the reference that was given, and none without.
pub proof fn law_image_is_named(a: &BuildArgs, r: Result<String, String>)
    requires
        call_ensures(wanted_image, (a,), r),
    ensures
        r is Ok <==> a.image is Some,
        r matches Ok(s) ==> s@ == a.image->0@,
{
}

/// The table of an update keeps what the policy said and takes the new image and its lock.
pub proof fn law_update_keeps_what_was_said(
    base: &Baseline,
    recorded: &str,
    lock: &[String],
    t: RootfsRender,
)
    requires
        call_ensures(updated_table, (base, recorded, lock), t),
    ensures
        t.image@ == recorded@,
        t.path@ == base.path@,
        text::texts(t.readonly@) == text::texts(lock@),
        text::texts(t.writable@) == text::texts(base.writable@),
        base.reason matches Some(x) ==> (t.reason matches Some(y) && y@ == x@),
        base.persistence matches Some(x) ==> (t.persistence matches Some(y) && y@ == x@),
{
}

proof fn lemma_removed_count(whats: Seq<Restored>)
    ensures
        removed_count(whats) <= whats.len(),
        (forall|i: int| 0 <= i < whats.len() ==> #[trigger] whats[i] == Restored::Removed)
            ==> removed_count(whats) == whats.len(),
        (forall|i: int| 0 <= i < whats.len() ==> #[trigger] whats[i] != Restored::Removed)
            ==> removed_count(whats) == 0,
    decreases whats.len(),
{
    if whats.len() > 0 {
        let front = whats.drop_last();
        lemma_removed_count(front);
        if forall|i: int| 0 <= i < whats.len() ==> #[trigger] whats[i] == Restored::Removed {
            assert forall|i: int| 0 <= i < front.len() implies #[trigger] front[i]
                == Restored::Removed by {
                assert(front[i] == whats[i]);
            }
            assert(whats[whats.len() - 1] == Restored::Removed);
        }
        if forall|i: int| 0 <= i < whats.len() ==> #[trigger] whats[i] != Restored::Removed {
            assert forall|i: int| 0 <= i < front.len() implies #[trigger] front[i]
                != Restored::Removed by {
                assert(front[i] == whats[i]);
            }
            assert(whats[whats.len() - 1] != Restored::Removed);
        }
    }
}

/// The count of what was reverted leaves out what was not there.
pub proof fn law_reverted_paths_are_counted(name: &str, whats: &[Restored], r: String)
    requires
        call_ensures(reverted_text, (name, whats), r),
    ensures
        (forall|i: int| 0 <= i < whats@.len() ==> #[trigger] whats@[i] == Restored::Removed) ==> (
        "kennel: reverted "@ + decimal::dec(whats@.len()) + " path(s)"@).is_prefix_of(r@),
        (forall|i: int| 0 <= i < whats@.len() ==> #[trigger] whats@[i] != Restored::Removed) ==> (
        "kennel: reverted "@ + decimal::dec(0) + " path(s)"@).is_prefix_of(r@),
{
    lemma_removed_count(whats@);
    reveal_strlit(" path(s) in `");
    reveal_strlit(" path(s)");
    let n = removed_count(whats@);
    let p = "kennel: reverted "@ + decimal::dec(n) + " path(s)"@;
    assert(" path(s) in `"@.subrange(0, 8) =~= " path(s)"@);
    assert(r@.subrange(0, p.len() as int) =~= p);
}

} // verus!
