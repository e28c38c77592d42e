//! What the verbs share: names, search paths, signing keys and exit codes.

use crate::layout;
use crate::layout::push_line;
use crate::order;
use crate::order::ascending_texts;
use crate::path;
use crate::path::{file_name, has_any_extension, has_extension, join, parent, stem};
use crate::text;
use crate::text::{
    concat2, concat3, concat5, concat7, cut_end, has_char, has_no_white, has_piece, same,
};
use crate::words;
use vstd::prelude::*;
use vstd::string::*;

verus! {

/// Whether help is asked for anywhere in the arguments.
pub fn wants_help(args: &[String]) -> (r: bool)
    ensures
        r == (text::texts(args@).contains("--help"@) || text::texts(args@).contains("-h"@)),
{
    text::has_text(args, "--help") || text::has_text(args, "-h")
}

/// The exit status of a process that stands for the code that the daemon reports: the code itself
/// where a status can hold it, and 1 otherwise.
pub open spec fn status(code: i32) -> int {
    if 0 <= code <= 255 {
        code as int
    } else {
        1
    }
}

/// The exit status of a process that stands for the code that the daemon reports.
pub fn exit_code(code: i32) -> (r: u8)
    ensures
        r == status(code),
{
    if 0 <= code && code <= 255 {
        code as u8
    } else {
        1
    }
}

// ---- names ---------------------------------------------------------------------

/// Whether the text can name a policy: not empty, no separator, no `..`, no white space.
pub open spec fn names_policy(name: Seq<char>) -> bool {
    name.len() > 0 && !name.contains('/') && text::find(name, ".."@) is None && text::no_white(name)
}

/// Whether the text can name a policy.
pub fn is_valid_policy_name(name: &str) -> (r: bool)
    ensures
        r == names_policy(name@),
{
    name.unicode_len() > 0 && !has_char(name, '/') && !has_piece(name, "..") && has_no_white(name)
}

/// A policy's name taken relative to a directory is the last component of the path: it leads
/// neither out of the directory nor further down. (`.` passes as a name, but is no component.)
pub proof fn law_policy_name_is_a_component(base: Seq<char>, name: Seq<char>)
    requires
        names_policy(name),
        name != seq!['.'],
    ensures
        path::file_name_of(path::joined(base, name)) == Some(name),
{
    reveal_strlit("..");
    if name == seq!['.', '.'] {
        assert("..".view() =~= name);
        assert("..".view().is_prefix_of(name));
    }
    path::law_join_file_name(base, name);
}

/// Whether a character may stand in a key id.
pub open spec fn key_id_char(c: char) -> bool {
    'a' <= c <= 'z' || 'A' <= c <= 'Z' || '0' <= c <= '9' || c == '.' || c == '-' || c == '_'
}

/// Whether the text can be a key id: 1 to 64 letters, digits, `.`, `-` and `_`, other than the
/// two directory names.
pub open spec fn names_key(s: Seq<char>) -> bool {
    1 <= s.len() <= 64 && s != seq!['.'] && s != seq!['.', '.'] && forall|i: int|
        0 <= i < s.len() ==> key_id_char(#[trigger] s[i])
}

/// Whether the text can be a key id, which is both a file name and the name in a signature.
pub fn is_valid_key_id(s: &str) -> (r: bool)
    ensures
        r == names_key(s@),
{
    let cs = text::chars_of(s);
    proof {
        if s@.len() == 1 && s@[0] == '.' {
            assert(s@ =~= seq!['.']);
        }
        if s@.len() == 2 && s@[0] == '.' && s@[1] == '.' {
            assert(s@ =~= seq!['.', '.']);
        }
    }
    if cs.len() < 1 || cs.len() > 64 || (cs.len() == 1 && cs[0] == '.') || (cs.len() == 2 && cs[0]
        == '.' && cs[1] == '.') {
        return false;
    }
    proof {
        if s@ == seq!['.'] {
            assert(s@[0] == '.');
        }
        if s@ == seq!['.', '.'] {
            assert(s@[0] == '.' && s@[1] == '.');
        }
    }
    let mut i: usize = 0;
    while i < cs.len()
        invariant
            i <= cs@.len(),
            cs@ == s@,
            forall|j: int| 0 <= j < i ==> key_id_char(#[trigger] s@[j]),
        decreases cs@.len() - i,
    {
        let c = cs[i];
        if !(('a' <= c && c <= 'z') || ('A' <= c && c <= 'Z') || ('0' <= c && c <= '9') || c == '.'
            || c == '-' || c == '_') {
            assert(!key_id_char(s@[i as int]));
            return false;
        }
        i = i + 1;
    }
    true
}

/// A key id taken relative to a directory is the last component of the path.
pub proof fn law_key_id_is_a_component(base: Seq<char>, id: Seq<char>)
    requires
        names_key(id),
    ensures
        path::file_name_of(path::joined(base, id)) == Some(id),
{
    assert(!id.contains('/')) by {
        if id.contains('/') {
            let i = choose|i: int| 0 <= i < id.len() && id[i] == '/';
            assert(key_id_char(id[i]));
        }
    }
    path::law_join_file_name(base, id);
}

/// The name that a policy's file stands for: the directory's for a `policy.toml`, and otherwise
/// the file's own without `.settled`.
pub open spec fn name_of_file(p: Seq<char>) -> Seq<char> {
    let own = match path::file_name_of(p) {
        Some(f) => path::stem_of(f),
        None => "kennel"@,
    };
    let up = match path::parent_of(p) {
        Some(d) => path::file_name_of(d),
        None => None,
    };
    match up {
        Some(dir) if own == "policy"@ => dir,
        _ => text::without_end(own, ".settled"@),
    }
}

/// The name that a policy's file stands for.
pub fn policy_name_from_path(p: &str) -> (r: String)
    ensures
        r@ == name_of_file(p@),
{
    let own = match file_name(p) {
        Some(f) => stem(f.as_str()),
        None => "kennel".to_owned(),
    };
    if same(own.as_str(), "policy") {
        if let Some(d) = parent(p) {
            if let Some(dir) = file_name(d.as_str()) {
                return dir;
            }
        }
    }
    cut_end(own.as_str(), ".settled")
}

/// The directory of a file.
pub open spec fn dir_of(p: Seq<char>) -> Seq<char> {
    match path::parent_of(p) {
        Some(d) => d,
        None => "."@,
    }
}

/// The directory of a file.
pub fn directory_of(p: &str) -> (r: String)
    ensures
        r@ == dir_of(p@),
{
    match parent(p) {
        Some(d) => d,
        None => ".".to_owned(),
    }
}

/// Where the settled form of the policy at `policy_path` goes: beside it, under the policy's name.
pub fn default_settled_path(policy_path: &str, name: &str) -> (r: String)
    ensures
        r@ == path::joined(dir_of(policy_path@), name@ + ".settled.toml"@),
{
    let dir = directory_of(policy_path);
    join(dir.as_str(), concat2(name, ".settled.toml").as_str())
}

/// A settled form lies beside its policy, is named after it, and stands for it: its path gives the
/// name back.
pub proof fn law_settled_path_reads_back(policy_path: Seq<char>, name: Seq<char>)
    requires
        names_policy(name),
        path::parent_of(policy_path) is Some,
    ensures
        ({
            let settled = path::joined(dir_of(policy_path), name + ".settled.toml"@);
            &&& path::parent_of(settled) == path::parent_of(policy_path)
            &&& path::file_name_of(settled) == Some(name + ".settled.toml"@)
            &&& name_of_file(settled) == name
        }),
{
    let dir = dir_of(policy_path);
    let file = name + ".settled.toml"@;
    let own = name + ".settled"@;
    reveal_strlit(".settled.toml");
    reveal_strlit(".settled");
    reveal_strlit("policy");
    assert(!file.contains('/')) by {
        if file.contains('/') {
            let i = choose|i: int| 0 <= i < file.len() && file[i] == '/';
            if i < name.len() {
                assert(name[i] == '/');
                assert(name.contains('/'));
            } else {
                assert(file[i] == ".settled.toml"@[i - name.len()]);
            }
        }
    }
    assert(file.len() > 2);
    path::law_join_file_name(dir, file);
    path::law_join_parent(dir, file);
    path::law_parent_is_trimmed(policy_path);
    path::lemma_last_dot(file, file.len() - 5);
    assert(path::stem_of(file) =~= own);
    assert(own.last() == 'd' && "policy"@.last() == 'y');
    assert(".settled"@.is_suffix_of(own)) by {
        assert(own.subrange(own.len() - 8, own.len() as int) =~= ".settled"@);
    }
    assert(text::without_end(own, ".settled"@) =~= name);
}

/// The directory `kennel/<leaf>` below the user's configuration: `xdg` where it is set and not
/// empty, else `.config` below `home`, else below the working directory.
pub fn config_dir(xdg: Option<&str>, home: Option<&str>, leaf: &str) -> (r: String)
    ensures
        r@ == path::joined(
            path::joined(
                match (xdg, home) {
                    (Some(x), _) if x@.len() > 0 => x@,
                    (_, Some(h)) => path::joined(h@, ".config"@),
                    _ => ".config"@,
                },
                "kennel"@,
            ),
            leaf@,
        ),
{
    let fallback = match home {
        Some(h) => join(h, ".config"),
        None => ".config".to_owned(),
    };
    let base = match xdg {
        Some(x) => if x.unicode_len() > 0 {
            x.to_owned()
        } else {
            fallback
        },
        None => fallback,
    };
    join(join(base.as_str(), "kennel").as_str(), leaf)
}

// ---- searching -----------------------------------------------------------------

/// Whether `f` can answer `b` for the text `t`.
pub open spec fn says<F: Fn(&str) -> bool>(f: F, t: Seq<char>, b: bool) -> bool {
    exists|s: &str| s@ == t && #[trigger] call_ensures(f, (s,), b)
}

/// Whether `f` answered yes for the place at `i` and no for those before it.
pub open spec fn first_at<F: Fn(&str) -> bool>(f: F, places: Seq<Seq<char>>, i: int) -> bool {
    &&& 0 <= i < places.len()
    &&& says(f, places[i], true)
    &&& forall|j: int| 0 <= j < i ==> says(f, #[trigger] places[j], false)
}

/// Whether `f` answered no for every place.
pub open spec fn nowhere<F: Fn(&str) -> bool>(f: F, places: Seq<Seq<char>>) -> bool {
    forall|j: int| 0 <= j < places.len() ==> says(f, #[trigger] places[j], false)
}

/// The first of `places` that is there, as `is_file` tells.
pub fn first_present<F: Fn(&str) -> bool>(places: &[String], is_file: &F) -> (r: Option<usize>)
    requires
        forall|s: &str| call_requires(*is_file, (s,)),
    ensures
        match r {
            Some(i) => first_at(*is_file, text::texts(places@), i as int),
            None => nowhere(*is_file, text::texts(places@)),
        },
{
    let ghost all = text::texts(places@);
    let mut i: usize = 0;
    while i < places.len()
        invariant
            i <= places@.len(),
            all == text::texts(places@),
            forall|s: &str| call_requires(*is_file, (s,)),
            forall|j: int| 0 <= j < i ==> says(*is_file, #[trigger] all[j], false),
        decreases places@.len() - i,
    {
        let s = places[i].as_str();
        let there = is_file(s);
        proof {
            assert(all[i as int] == s@);
            assert(call_ensures(*is_file, (s,), there));
            assert(says(*is_file, all[i as int], there));
        }
        if there {
            return Some(i);
        }
        i = i + 1;
    }
    None
}

/// Where the settled form of a named policy stands below a directory.
pub open spec fn settled_in(dir: Seq<char>, name: Seq<char>) -> Seq<char> {
    path::joined(path::joined(dir, name), name + ".settled.toml"@)
}

/// Where the settled form of a named policy stands below a directory.
pub fn settled_place(dir: &str, name: &str) -> (r: String)
    ensures
        r@ == settled_in(dir@, name@),
{
    join(join(dir, name).as_str(), concat2(name, ".settled.toml").as_str())
}

/// Where the source of a named object stands below a directory.
pub open spec fn source_in(dir: Seq<char>, name: Seq<char>) -> Seq<char> {
    path::joined(path::joined(dir, name), "policy.toml"@)
}

/// Where the source of a named object stands below a directory.
pub fn source_place(dir: &str, name: &str) -> (r: String)
    ensures
        r@ == source_in(dir@, name@),
{
    join(join(dir, name).as_str(), "policy.toml")
}

/// Where a named policy is looked for: in each directory its two forms, the preferred one first.
pub open spec fn policy_places(dirs: Seq<Seq<char>>, name: Seq<char>, settled_first: bool) -> Seq<
    Seq<char>,
>
    decreases dirs.len(),
{
    if dirs.len() == 0 {
        seq![]
    } else {
        let (a, b) = (settled_in(dirs.last(), name), source_in(dirs.last(), name));
        policy_places(dirs.drop_last(), name, settled_first) + if settled_first {
            seq![a, b]
        } else {
            seq![b, a]
        }
    }
}

/// Where a named policy is looked for.
pub fn places_of_policy(dirs: &[String], name: &str, settled_first: bool) -> (out: Vec<String>)
    ensures
        text::texts(out@) == policy_places(text::texts(dirs@), name@, settled_first),
{
    let ghost ds = text::texts(dirs@);
    let mut out: Vec<String> = Vec::new();
    let mut i: usize = 0;
    assert(ds.take(0) =~= seq![]);
    assert(text::texts(out@) =~= seq![]);
    while i < dirs.len()
        invariant
            i <= dirs@.len(),
            ds == text::texts(dirs@),
            text::texts(out@) == policy_places(ds.take(i as int), name@, settled_first),
        decreases dirs@.len() - i,
    {
        let ghost before = text::texts(out@);
        let dir = dirs[i].as_str();
        proof {
            assert(ds.take(i + 1).drop_last() =~= ds.take(i as int));
            assert(ds.take(i + 1).last() == dir@);
        }
        let a = settled_place(dir, name);
        let b = source_place(dir, name);
        let ghost (ga, gb) = (a@, b@);
        if settled_first {
            push_line(&mut out, a);
            push_line(&mut out, b);
            assert(text::texts(out@) =~= before + seq![ga, gb]);
        } else {
            push_line(&mut out, b);
            push_line(&mut out, a);
            assert(text::texts(out@) =~= before + seq![gb, ga]);
        }
        i = i + 1;
    }
    assert(ds.take(ds.len() as int) =~= ds);
    out
}

/// Where a named template is looked for: in each directory as a file of its own, then as the
/// source in a directory of its own.
pub open spec fn template_places(dirs: Seq<Seq<char>>, name: Seq<char>) -> Seq<Seq<char>>
    decreases dirs.len(),
{
    if dirs.len() == 0 {
        seq![]
    } else {
        template_places(dirs.drop_last(), name) + seq![
            path::joined(dirs.last(), name + ".toml"@),
            source_in(dirs.last(), name),
        ]
    }
}

/// Where a named template is looked for.
pub fn places_of_template(dirs: &[String], name: &str) -> (out: Vec<String>)
    ensures
        text::texts(out@) == template_places(text::texts(dirs@), name@),
{
    let ghost ds = text::texts(dirs@);
    let mut out: Vec<String> = Vec::new();
    let mut i: usize = 0;
    assert(ds.take(0) =~= seq![]);
    assert(text::texts(out@) =~= seq![]);
    while i < dirs.len()
        invariant
            i <= dirs@.len(),
            ds == text::texts(dirs@),
            text::texts(out@) == template_places(ds.take(i as int), name@),
        decreases dirs@.len() - i,
    {
        let ghost before = text::texts(out@);
        let dir = dirs[i].as_str();
        proof {
            assert(ds.take(i + 1).drop_last() =~= ds.take(i as int));
            assert(ds.take(i + 1).last() == dir@);
        }
        let a = join(dir, concat2(name, ".toml").as_str());
        let b = source_place(dir, name);
        let ghost (ga, gb) = (a@, b@);
        push_line(&mut out, a);
        push_line(&mut out, b);
        assert(text::texts(out@) =~= before + seq![ga, gb]);
        i = i + 1;
    }
    assert(ds.take(ds.len() as int) =~= ds);
    out
}

/// The file and the name that a policy argument stands for: itself where it is a path that is
/// there (`literal`), and otherwise the first place of its name below `dirs`.
pub fn resolve_policy<F: Fn(&str) -> bool>(
    arg: &str,
    prefer_settled: bool,
    literal: bool,
    dirs: &[String],
    is_file: &F,
) -> (r: Result<(String, String), String>)
    requires
        forall|s: &str| call_requires(*is_file, (s,)),
    ensures
        literal ==> (r matches Ok(p) && p.0@ == arg@ && p.1@ == name_of_file(arg@)),
        !literal && !names_policy(arg@) ==> (r matches Err(m) && m@ == "`"@ + arg@
            + "` is not an existing file, and not a valid policy name (no `/`, `..`, or whitespace)"@),
        !literal && names_policy(arg@) ==> ({
            let places = policy_places(text::texts(dirs@), arg@, prefer_settled);
            match r {
                Ok(p) => p.1@ == arg@ && exists|i: int|
                    first_at(*is_file, places, i) && p.0@ == #[trigger] places[i],
                Err(m) => nowhere(*is_file, places) && m@ == "no policy named `"@ + arg@
                    + "` (searched `policies/` under ~/.config/kennel, /etc/kennel, /usr/lib/kennel); pass a path, or compile one with `kennel compile`"@,
            }
        }),
{
    if literal {
        return Ok((arg.to_owned(), policy_name_from_path(arg)));
    }
    if !is_valid_policy_name(arg) {
        return Err(
            concat3(
                "`",
                arg,
                "` is not an existing file, and not a valid policy name (no `/`, `..`, or whitespace)",
            ),
        );
    }
    let places = places_of_policy(dirs, arg, prefer_settled);
    match first_present(places.as_slice(), is_file) {
        Some(i) => {
            let ghost all = text::texts(places@);
            assert(all[i as int] == places@[i as int]@);
            Ok((places[i].clone(), arg.to_owned()))
        },
        None => Err(
            concat3(
                "no policy named `",
                arg,
                "` (searched `policies/` under ~/.config/kennel, /etc/kennel, /usr/lib/kennel); pass a path, or compile one with `kennel compile`",
            ),
        ),
    }
}

/// What a refused template argument is answered.
pub open spec fn no_template(arg: Seq<char>) -> Seq<char> {
    if names_policy(arg) {
        "no template named `"@ + arg
            + "` (searched `templates/` under ~/.config/kennel, /etc/kennel, /usr/lib/kennel); pass a path to a template file"@
    } else {
        "`"@ + arg
            + "` is not an existing file, and not a valid template name (no `/`, `..`, or whitespace)"@
    }
}

/// The file and the name that a template argument stands for: the first place of its name below
/// `dirs`, and otherwise itself, where it is a path that is there (`literal`).
pub fn resolve_template<F: Fn(&str) -> bool>(
    arg: &str,
    literal: bool,
    dirs: &[String],
    is_file: &F,
) -> (r: Result<(String, String), String>)
    requires
        forall|s: &str| call_requires(*is_file, (s,)),
    ensures
        names_policy(arg@) ==> ({
            let places = template_places(text::texts(dirs@), arg@);
            match r {
                Ok(p) => {
                    ||| p.1@ == arg@ && exists|i: int|
                        first_at(*is_file, places, i) && p.0@ == #[trigger] places[i]
                    ||| nowhere(*is_file, places) && literal && p.0@ == arg@ && p.1@
                        == name_of_file(arg@)
                },
                Err(m) => nowhere(*is_file, places) && !literal && m@ == no_template(arg@),
            }
        }),
        !names_policy(arg@) ==> match r {
            Ok(p) => literal && p.0@ == arg@ && p.1@ == name_of_file(arg@),
            Err(m) => !literal && m@ == no_template(arg@),
        },
{
    if is_valid_policy_name(arg) {
        let places = places_of_template(dirs, arg);
        if let Some(i) = first_present(places.as_slice(), is_file) {
            let ghost all = text::texts(places@);
            assert(all[i as int] == places@[i as int]@);
            return Ok((places[i].clone(), arg.to_owned()));
        }
        if !literal {
            return Err(
                concat3(
                    "no template named `",
                    arg,
                    "` (searched `templates/` under ~/.config/kennel, /etc/kennel, /usr/lib/kennel); pass a path to a template file",
                ),
            );
        }
    } else if !literal {
        return Err(
            concat3(
                "`",
                arg,
                "` is not an existing file, and not a valid template name (no `/`, `..`, or whitespace)",
            ),
        );
    }
    Ok((arg.to_owned(), policy_name_from_path(arg)))
}

// ---- keys ----------------------------------------------------------------------

/// Whether a file holds a public key, by its name.
pub open spec fn is_pub(f: Seq<char>) -> bool {
    path::extension_of(f) == Some("pub"@)
}

/// The key ids of the public keys among a directory's file names, in their order.
pub open spec fn pub_ids(names: Seq<Seq<char>>) -> Seq<Seq<char>>
    decreases names.len(),
{
    if names.len() == 0 {
        seq![]
    } else if is_pub(names.last()) {
        pub_ids(names.drop_last()).push(path::stem_of(names.last()))
    } else {
        pub_ids(names.drop_last())
    }
}

/// The key ids of the public keys among a directory's file names, in their order.
pub fn pub_key_ids(names: &[String]) -> (out: Vec<String>)
    ensures
        text::texts(out@) == pub_ids(text::texts(names@)),
{
    let ghost ns = text::texts(names@);
    let mut out: Vec<String> = Vec::new();
    let mut i: usize = 0;
    assert(ns.take(0) =~= seq![]);
    assert(text::texts(out@) =~= seq![]);
    while i < names.len()
        invariant
            i <= names@.len(),
            ns == text::texts(names@),
            text::texts(out@) == pub_ids(ns.take(i as int)),
        decreases names@.len() - i,
    {
        proof {
            assert(ns.take(i + 1).drop_last() =~= ns.take(i as int));
            assert(ns.take(i + 1).last() == names@[i as int]@);
        }
        if has_extension(names[i].as_str(), "pub") {
            push_line(&mut out, stem(names[i].as_str()));
        }
        i = i + 1;
    }
    assert(ns.take(ns.len() as int) =~= ns);
    out
}

/// What is said where a `--key` value names no key: the keys that are there.
pub open spec fn no_such_key(arg: Seq<char>, dir: Seq<char>, names: Seq<Seq<char>>) -> Seq<char> {
    let ids = order::ascending(pub_ids(names));
    "no signing key `"@ + arg + "`: not a key in "@ + dir + " and not a file (available: "@ + (
    if ids.len() == 0 {
        "none — generate one with `kennel keygen <key-id>`"@
    } else {
        words::joined(ids, ", "@)
    }) + ")"@
}

/// The file that a `--key` value stands for: a key of the key directory, else a path. `in_dir` and
/// `literal` tell which of the two is a file, `names` are the directory's file names.
pub fn resolve_key_arg(arg: &str, dir: &str, in_dir: bool, literal: bool, names: &[String]) -> (r:
    Result<String, String>)
    ensures
        match r {
            Ok(p) => (in_dir || literal) && p@ == if in_dir {
                path::joined(dir@, arg@)
            } else {
                arg@
            },
            Err(m) => !in_dir && !literal && m@ == no_such_key(arg@, dir@, text::texts(names@)),
        },
{
    if in_dir {
        return Ok(join(dir, arg));
    }
    if literal {
        return Ok(arg.to_owned());
    }
    let ids = ascending_texts(pub_key_ids(names).as_slice());
    let avail = if ids.len() == 0 {
        "none — generate one with `kennel keygen <key-id>`".to_owned()
    } else {
        words::join(ids.as_slice(), ", ")
    };
    assert(text::texts(ids@).len() == ids@.len());
    Err(
        concat7(
            "no signing key `",
            arg,
            "`: not a key in ",
            dir,
            " and not a file (available: ",
            avail.as_str(),
            ")",
        ),
    )
}

/// A file of the key directory.
#[derive(Debug)]
pub struct KeyFile {
    /// Its name.
    pub name: String,
    /// Whether it is a file that holds an OpenSSH private key.
    pub private: bool,
}

/// The names of the files that are signing keys: private keys without extension.
pub open spec fn signing_names(files: Seq<KeyFile>) -> Seq<Seq<char>>
    decreases files.len(),
{
    if files.len() == 0 {
        seq![]
    } else {
        let f = files.last();
        if path::extension_of(f.name@) is None && f.private {
            signing_names(files.drop_last()).push(f.name@)
        } else {
            signing_names(files.drop_last())
        }
    }
}

/// The names of the files in the key format that is no longer read.
pub open spec fn legacy_names(files: Seq<KeyFile>) -> Seq<Seq<char>>
    decreases files.len(),
{
    if files.len() == 0 {
        seq![]
    } else {
        let f = files.last();
        if path::extension_of(f.name@) == Some("key"@) {
            legacy_names(files.drop_last()).push(f.name@)
        } else {
            legacy_names(files.drop_last())
        }
    }
}

/// The signing key that is used where none is named: the only one in the key directory.
pub fn default_signing_key(dir: &str, files: &[KeyFile]) -> (r: Result<String, String>)
    ensures
        ({
            let found = order::ascending(signing_names(files@));
            let legacy = order::ascending(legacy_names(files@));
            if found.len() == 1 {
                r matches Ok(p) && p@ == path::joined(dir@, found[0])
            } else {
                r matches Err(m) && m@ == if found.len() > 1 {
                    "multiple signing keys in "@ + dir@ + " ("@ + words::joined(found, ", "@)
                        + "); pass --key <name> to choose one of them"@
                } else if legacy.len() > 0 {
                    "no OpenSSH signing key in "@ + dir@ + ", only legacy raw-base64 key(s) ("@
                        + words::joined(legacy, ", "@)
                        + ") — the format was removed in 0.6.0: regenerate with `kennel keygen <key-id>`, or convert once with 0.5.x's `kennel keygen migrate`"@
                } else {
                    "no signing key in "@ + dir@
                        + " — generate one with `kennel keygen <key-id>`, or pass --key <path>"@
                }
            }
        }),
{
    let mut found: Vec<String> = Vec::new();
    let mut legacy: Vec<String> = Vec::new();
    let mut i: usize = 0;
    assert(files@.take(0) =~= seq![]);
    assert(text::texts(found@) =~= seq![]);
    while i < files.len()
        invariant
            i <= files@.len(),
            text::texts(found@) == signing_names(files@.take(i as int)),
            text::texts(legacy@) == legacy_names(files@.take(i as int)),
        decreases files@.len() - i,
    {
        proof {
            assert(files@.take(i + 1).drop_last() =~= files@.take(i as int));
            assert(files@.take(i + 1).last() == files@[i as int]);
        }
        let name = files[i].name.as_str();
        if has_extension(name, "key") {
            push_line(&mut legacy, name.to_owned());
        } else if !has_any_extension(name) && files[i].private {
            push_line(&mut found, name.to_owned());
        }
        i = i + 1;
    }
    assert(files@.take(files@.len() as int) =~= files@);
    let found = ascending_texts(found.as_slice());
    let legacy = ascending_texts(legacy.as_slice());
    proof {
        assert(text::texts(found@).len() == found@.len());
        assert(text::texts(legacy@).len() == legacy@.len());
    }
    if found.len() == 1 {
        assert(text::texts(found@)[0] == found@[0]@);
        return Ok(join(dir, found[0].as_str()));
    }
    if found.len() > 1 {
        let ids = words::join(found.as_slice(), ", ");
        return Err(
            concat5(
                "multiple signing keys in ",
                dir,
                " (",
                ids.as_str(),
                "); pass --key <name> to choose one of them",
            ),
        );
    }
    if legacy.len() > 0 {
        let ids = words::join(legacy.as_slice(), ", ");
        return Err(
            concat5(
                "no OpenSSH signing key in ",
                dir,
                ", only legacy raw-base64 key(s) (",
                ids.as_str(),
                ") — the format was removed in 0.6.0: regenerate with `kennel keygen <key-id>`, or convert once with 0.5.x's `kennel keygen migrate`",
            ),
        );
    }
    Err(
        concat3(
            "no signing key in ",
            dir,
            " — generate one with `kennel keygen <key-id>`, or pass --key <path>",
        ),
    )
}

/// Why a public-key file of a trust store is refused, `None` where it is not: it must hold an
/// OpenSSH line (`openssh`), and one in the key format that is no longer read (`legacy`) is told
/// what to do.
pub fn refused_public_key(path: &str, openssh: bool, legacy: bool) -> (r: Option<String>)
    ensures
        match r {
            None => openssh,
            Some(m) => !openssh && m@ == "key "@ + path@ + if legacy {
                ": legacy raw-base64 public key (format removed in 0.6.0) — regenerate with `kennel keygen`, or convert the pair once with 0.5.x's `kennel keygen migrate`"@
            } else {
                ": not an OpenSSH ed25519 public key"@
            },
        },
{
    if openssh {
        return None;
    }
    Some(
        concat3(
            "key ",
            path,
            if legacy {
                ": legacy raw-base64 public key (format removed in 0.6.0) — regenerate with `kennel keygen`, or convert the pair once with 0.5.x's `kennel keygen migrate`"
            } else {
                ": not an OpenSSH ed25519 public key"
            },
        ),
    )
}

/// A file of a trust store.
#[derive(Debug)]
pub struct TrustFile {
    /// Its name.
    pub name: String,
    /// The public key that it holds, where it holds one.
    pub key: Option<Vec<u8>>,
}

/// Whether a file of a trust store holds the public key.
pub open spec fn holds_key(f: TrustFile, key: Seq<u8>) -> bool {
    is_pub(f.name@) && match f.key {
        Some(k) => k@ == key,
        None => false,
    }
}

/// Whether the file at `j` is the first, by name, of those that hold the public key.
pub open spec fn first_holder(store: Seq<TrustFile>, key: Seq<u8>, j: int) -> bool {
    &&& 0 <= j < store.len()
    &&& holds_key(store[j], key)
    &&& forall|k: int|
        0 <= k < store.len() && holds_key(#[trigger] store[k], key) ==> !order::lex(
            store[k].name@,
            store[j].name@,
        )
}

/// Whether no file of a trust store holds the public key.
pub open spec fn no_holder(store: Seq<TrustFile>, key: Seq<u8>) -> bool {
    forall|k: int| 0 <= k < store.len() ==> !holds_key(#[trigger] store[k], key)
}

fn same_bytes(a: &[u8], b: &[u8]) -> (r: bool)
    ensures
        r == (a@ == b@),
{
    if a.len() != b.len() {
        return false;
    }
    let mut i: usize = 0;
    while i < a.len()
        invariant
            i <= a@.len(),
            a@.len() == b@.len(),
            forall|j: int| 0 <= j < i ==> a@[j] == b@[j],
        decreases a@.len() - i,
    {
        if a[i] != b[i] {
            return false;
        }
        i = i + 1;
    }
    assert(a@ =~= b@);
    true
}

fn find_holder(store: &[TrustFile], key: &[u8]) -> (r: Option<usize>)
    ensures
        match r {
            Some(j) => first_holder(store@, key@, j as int),
            None => no_holder(store@, key@),
        },
{
    let mut best: Option<usize> = None;
    let mut i: usize = 0;
    while i < store.len()
        invariant
            i <= store@.len(),
            match best {
                Some(j) => j < i && holds_key(store@[j as int], key@) && forall|k: int|
                    0 <= k < i && holds_key(#[trigger] store@[k], key@) ==> !order::lex(
                        store@[k].name@,
                        store@[j as int].name@,
                    ),
                None => forall|k: int| 0 <= k < i ==> !holds_key(#[trigger] store@[k], key@),
            },
        decreases store@.len() - i,
    {
        let f = &store[i];
        let hit = has_extension(f.name.as_str(), "pub") && match &f.key {
            Some(k) => same_bytes(k.as_slice(), key),
            None => false,
        };
        assert(hit == holds_key(store@[i as int], key@));
        if hit {
            proof {
                order::law_text_order(f.name@, f.name@, f.name@);
            }
            match best {
                None => {
                    best = Some(i);
                },
                Some(j) => {
                    if order::precedes(f.name.as_str(), store[j].name.as_str()) {
                        proof {
                            assert forall|k: int|
                                0 <= k < i + 1 && holds_key(
                                    #[trigger] store@[k],
                                    key@,
                                ) implies !order::lex(store@[k].name@, f.name@) by {
                                if k < i {
                                    let (a, b, c) = (
                                        store@[k].name@,
                                        f.name@,
                                        store@[j as int].name@,
                                    );
                                    order::law_text_order(a, b, c);
                                }
                            }
                        }
                        best = Some(i);
                    }
                },
            }
        }
        i = i + 1;
    }
    best
}

/// The key id under which a public key is trusted: the stem of the first file, by name, of the
/// first store that holds it. A file whose content is no public key never matches.
pub fn resolve_key_id(stores: &[Vec<TrustFile>], pubkey: &[u8]) -> (r: Option<String>)
    ensures
        match r {
            Some(id) => exists|i: int, j: int|
                0 <= i < stores@.len() && #[trigger] first_holder(stores@[i]@, pubkey@, j) && id@
                    == path::stem_of(stores@[i]@[j].name@) && forall|k: int|
                    0 <= k < i ==> no_holder(#[trigger] stores@[k]@, pubkey@),
            None => forall|k: int| 0 <= k < stores@.len() ==> no_holder(
                #[trigger] stores@[k]@,
                pubkey@,
            ),
        },
{
    let mut i: usize = 0;
    while i < stores.len()
        invariant
            i <= stores@.len(),
            forall|k: int| 0 <= k < i ==> no_holder(#[trigger] stores@[k]@, pubkey@),
        decreases stores@.len() - i,
    {
        if let Some(j) = find_holder(stores[i].as_slice(), pubkey) {
            assert(first_holder(stores@[i as int]@, pubkey@, j as int));
            return Some(stem(stores[i][j].name.as_str()));
        }
        i = i + 1;
    }
    None
}

/// The key id that a signature is stamped with: the one asked for, else the one under which the
/// signing key is trusted. With the first comes a warning where the two differ.
pub fn stamped_key_id(asked: Option<&str>, matched: Option<&str>, key: &str) -> (r: Result<
    (String, Option<String>),
    String,
>)
    ensures
        match (asked, matched) {
            (Some(id), Some(found)) => r matches Ok(p) && p.0@ == id@ && layout::opt(p.1)
                == if found@ == id@ {
                None::<Seq<char>>
            } else {
                Some(
                    "warning: --key-id `"@ + id@ + "`, but this key is trusted as `"@ + found@
                        + "` in the trust store"@,
                )
            },
            (Some(id), None) => r matches Ok(p) && p.0@ == id@ && p.1 is None,
            (None, Some(found)) => r matches Ok(p) && p.0@ == found@ && p.1 is None,
            (None, None) => r matches Err(m) && m@
                == "the signing key's public half is not in any trust dir, so its key_id cannot be resolved; install its `.pub` in a trust dir or pass --key-id <id> (key: `"@
                + key@ + "`)"@,
        },
{
    match (asked, matched) {
        (Some(id), Some(found)) => {
            if same(found, id) {
                Ok((id.to_owned(), None))
            } else {
                let w = concat5(
                    "warning: --key-id `",
                    id,
                    "`, but this key is trusted as `",
                    found,
                    "` in the trust store",
                );
                Ok((id.to_owned(), Some(w)))
            }
        },
        (Some(id), None) => Ok((id.to_owned(), None)),
        (None, Some(found)) => Ok((found.to_owned(), None)),
        (None, None) => Err(
            concat3(
                "the signing key's public half is not in any trust dir, so its key_id cannot be resolved; install its `.pub` in a trust dir or pass --key-id <id> (key: `",
                key,
                "`)",
            ),
        ),
    }
}

/// The host's trust directory: the first of the system's that is not the vendor's.
pub fn host_trust_dir(system: &[String], vendor: &str) -> (r: Option<usize>)
    ensures
        match r {
            Some(i) => i < system@.len() && system@[i as int]@ != vendor@ && forall|j: int|
                0 <= j < i ==> #[trigger] system@[j]@ == vendor@,
            None => forall|j: int| 0 <= j < system@.len() ==> #[trigger] system@[j]@ == vendor@,
        },
{
    let mut i: usize = 0;
    while i < system.len()
        invariant
            i <= system@.len(),
            forall|j: int| 0 <= j < i ==> #[trigger] system@[j]@ == vendor@,
        decreases system@.len() - i,
    {
        if !same(system[i].as_str(), vendor) {
            return Some(i);
        }
        i = i + 1;
    }
    None
}

// ---- exit codes ----------------------------------------------------------------

/// Why a policy did not compile.
#[derive(Clone, Copy, Debug, PartialEq, Eq, Structural)]
pub enum PolicyErrorKind {
    /// A signature does not verify.
    Signature,
    /// A reference is not what the lock file pins.
    LockMismatch,
    /// The source does not parse.
    Parse,
    /// There is no canonical form.
    Canonical,
    /// The schema is newer than this build.
    UnsupportedSchemaVersion,
    /// The schema is no longer read.
    ObsoleteSchemaVersion,
    /// Invariants are violated.
    InvariantViolations,
    /// The source is not valid.
    SourceValidation,
    /// A reference does not resolve.
    Resolution,
    /// The source has no settled form.
    Translation,
    /// Two composed fragments conflict.
    Conflict,
    /// A change to an inherited list does not apply.
    Patch,
    /// A spawn rule is wrong.
    Spawn,
}

/// The exit status for a policy that did not compile: 6 where integrity failed, 3 otherwise.
pub fn policy_error_code(kind: PolicyErrorKind) -> (r: u8)
    ensures
        r == if kind is Signature || kind is LockMismatch {
            6int
        } else {
            3
        },
{
    match kind {
        PolicyErrorKind::Signature | PolicyErrorKind::LockMismatch => 6,
        _ => 3,
    }
}

// ---- what holds of the whole -------------------------------------------------------

/// A code that a status can hold is kept, and no other code is reported as success.
pub proof fn law_exit_codes_are_kept(code: i32, r: u8)
    requires
        call_ensures(exit_code, (code,), r),
    ensures
        0 <= code <= 255 ==> r == code,
        r == 0 <==> code == 0,
{
}

/// Help is asked for by `--help` or `-h` anywhere, and by nothing else.
pub proof fn law_help_is_asked_for_anywhere(args: &[String], r: bool)
    requires
        call_ensures(wants_help, (args,), r),
    ensures
        r <==> exists|i: int|
            0 <= i < args@.len() && ((#[trigger] args@[i])@ == "--help"@ || args@[i]@ == "-h"@),
{
    let all = text::texts(args@);
    if all.contains("--help"@) {
        let i = choose|i: int| 0 <= i < all.len() && all[i] == "--help"@;
        assert(args@[i]@ == "--help"@);
    }
    if all.contains("-h"@) {
        let i = choose|i: int| 0 <= i < all.len() && all[i] == "-h"@;
        assert(args@[i]@ == "-h"@);
    }
    if exists|i: int|
        0 <= i < args@.len() && ((#[trigger] args@[i])@ == "--help"@ || args@[i]@ == "-h"@) {
        let i = choose|i: int|
            0 <= i < args@.len() && ((#[trigger] args@[i])@ == "--help"@ || args@[i]@ == "-h"@);
        assert(all[i] == args@[i]@);
    }
}

/// A policy's name is just a text that is not empty and holds no separator, no `..` and no white space.
pub proof fn law_policy_names(name: &str, r: bool)
    requires
        call_ensures(is_valid_policy_name, (name,), r),
    ensures
        r <==> {
            &&& name@.len() > 0
            &&& forall|i: int|
                0 <= i < name@.len() ==> (#[trigger] name@[i]) != '/' && !text::is_white(name@[i])
            &&& forall|i: int|
                0 <= i < name@.len() - 1 ==> !((#[trigger] name@[i]) == '.' && name@[i + 1] == '.')
        },
{
    let s = name@;
    reveal_strlit("..");
    text::lemma_find(s, ".."@);
    if text::find(s, ".."@) is None {
        assert forall|i: int| 0 <= i < s.len() - 1 implies !((#[trigger] s[i]) == '.' && s[i + 1]
            == '.') by {
            if s[i] == '.' && s[i + 1] == '.' {
                assert(s.skip(i).subrange(0, 2) =~= ".."@);
                assert(".."@.is_prefix_of(s.skip(i)));
            }
        }
    } else {
        let i = text::find(s, ".."@)->0;
        let t = s.skip(i);
        assert(".."@.is_prefix_of(t));
        assert(t.subrange(0, 2)[0] == '.' && t.subrange(0, 2)[1] == '.');
        assert(t[0] == s[i] && t[1] == s[i + 1]);
    }
    if s.contains('/') {
        let i = choose|i: int| 0 <= i < s.len() && s[i] == '/';
        assert(s[i] == '/');
    }
    if !s.contains('/') {
        assert forall|i: int| 0 <= i < s.len() implies (#[trigger] s[i]) != '/' by {
            assert(s.contains(s[i]));
        }
    }
}

/// A key id holds ASCII letters, digits, dots, dashes and underscores alone, at most 64 of them, so
/// that it leads nowhere as a file name.
pub proof fn law_key_ids(s: &str, r: bool)
    requires
        call_ensures(is_valid_key_id, (s,), r),
    ensures
        r ==> 1 <= s@.len() <= 64,
        r ==> forall|i: int|
            0 <= i < s@.len() ==> {
                let c = #[trigger] s@[i];
                ||| 'a' <= c <= 'z'
                ||| 'A' <= c <= 'Z'
                ||| '0' <= c <= '9'
                ||| c == '.' || c == '-' || c == '_'
            },
        s@ == seq!['.'] || s@ == seq!['.', '.'] ==> !r,
        1 <= s@.len() <= 64 && (forall|i: int|
            0 <= i < s@.len() ==> {
                let c = #[trigger] s@[i];
                ||| 'a' <= c <= 'z'
                ||| 'A' <= c <= 'Z'
                ||| '0' <= c <= '9'
                ||| c == '-' || c == '_'
            }) ==> r,
{
    if 1 <= s@.len() <= 64 && (forall|i: int|
        0 <= i < s@.len() ==> {
            let c = #[trigger] s@[i];
            ||| 'a' <= c <= 'z'
            ||| 'A' <= c <= 'Z'
            ||| '0' <= c <= '9'
            ||| c == '-' || c == '_'
        }) {
        assert(s@[0] != '.');
        assert(s@ != seq!['.']) by {
            assert(seq!['.'][0] == '.');
        }
        assert(s@ != seq!['.', '.']) by {
            assert(seq!['.', '.'][0] == '.');
        }
        assert forall|i: int| 0 <= i < s@.len() implies key_id_char(#[trigger] s@[i]) by {}
    }
}

/// A policy that stands as `policy.toml` in a directory of its own is named after the directory.
pub proof fn law_policies_are_named_after_their_directory(
    p: &str,
    r: String,
    dir: Seq<char>,
    name: Seq<char>,
)
    requires
        call_ensures(policy_name_from_path, (p,), r),
        p@ == path::joined(path::joined(dir, name), "policy.toml"@),
        name.len() > 0,
        !name.contains('/'),
        name != seq!['.'],
        name != seq!['.', '.'],
    ensures
        r@ == name,
{
    let d = path::joined(dir, name);
    let f = "policy.toml"@;
    reveal_strlit("policy.toml");
    reveal_strlit("policy");
    assert(!f.contains('/'));
    assert(f.len() == 11);
    path::law_join_file_name(d, f);
    path::law_join_parent(d, f);
    path::law_join_file_name(dir, name);
    path::lemma_last_dot(f, 6);
    assert(path::stem_of(f) =~= "policy"@);
    path::lemma_trimmed_file_name(d);
}

proof fn lemma_policy_places(dirs: Seq<Seq<char>>, name: Seq<char>, settled_first: bool)
    ensures
        policy_places(dirs, name, settled_first).len() == 2 * dirs.len(),
        forall|i: int|
            0 <= i < dirs.len() ==> {
                let a = path::joined(path::joined(#[trigger] dirs[i], name), name + ".settled.toml"@);
                let b = path::joined(path::joined(dirs[i], name), "policy.toml"@);
                let ps = policy_places(dirs, name, settled_first);
                if settled_first {
                    ps[2 * i] == a && ps[2 * i + 1] == b
                } else {
                    ps[2 * i] == b && ps[2 * i + 1] == a
                }
            },
    decreases dirs.len(),
{
    if dirs.len() > 0 {
        let front = dirs.drop_last();
        lemma_policy_places(front, name, settled_first);
        let ps = policy_places(dirs, name, settled_first);
        let qs = policy_places(front, name, settled_first);
        assert forall|i: int| 0 <= i < dirs.len() implies ({
            let a = path::joined(path::joined(#[trigger] dirs[i], name), name + ".settled.toml"@);
            let b = path::joined(path::joined(dirs[i], name), "policy.toml"@);
            if settled_first {
                ps[2 * i] == a && ps[2 * i + 1] == b
            } else {
                ps[2 * i] == b && ps[2 * i + 1] == a
            }
        }) by {
            if i < front.len() {
                assert(dirs[i] == front[i]);
                assert(ps[2 * i] == qs[2 * i] && ps[2 * i + 1] == qs[2 * i + 1]);
            }
        }
    }
}

/// A policy is looked for in the directories in their order, in each in both forms, of which the one
/// that is preferred comes first.
pub proof fn law_policies_are_looked_for_in_order(
    dirs: &[String],
    name: &str,
    settled_first: bool,
    out: Vec<String>,
)
    requires
        call_ensures(places_of_policy, (dirs, name, settled_first), out),
    ensures
        out@.len() == 2 * dirs@.len(),
        forall|i: int|
            0 <= i < dirs@.len() ==> {
                let a = path::joined(
                    path::joined(#[trigger] dirs@[i]@, name@),
                    name@ + ".settled.toml"@,
                );
                let b = path::joined(path::joined(dirs@[i]@, name@), "policy.toml"@);
                if settled_first {
                    out@[2 * i]@ == a && out@[2 * i + 1]@ == b
                } else {
                    out@[2 * i]@ == b && out@[2 * i + 1]@ == a
                }
            },
{
    let ds = text::texts(dirs@);
    let ps = text::texts(out@);
    lemma_policy_places(ds, name@, settled_first);
    assert(ps.len() == out@.len());
    assert forall|i: int| 0 <= i < dirs@.len() implies ({
        let a = path::joined(path::joined(#[trigger] dirs@[i]@, name@), name@ + ".settled.toml"@);
        let b = path::joined(path::joined(dirs@[i]@, name@), "policy.toml"@);
        if settled_first {
            out@[2 * i]@ == a && out@[2 * i + 1]@ == b
        } else {
            out@[2 * i]@ == b && out@[2 * i + 1]@ == a
        }
    }) by {
        assert(ds[i] == dirs@[i]@);
        assert(ps[2 * i] == out@[2 * i]@ && ps[2 * i + 1] == out@[2 * i + 1]@);
    }
}

/// A key is taken from the key directory where it is there, else as a path where that is there, and
/// nothing else is a key.
pub proof fn law_keys_of_the_directory_come_first(
    arg: &str,
    dir: &str,
    in_dir: bool,
    literal: bool,
    names: &[String],
    r: Result<String, String>,
)
    requires
        call_ensures(resolve_key_arg, (arg, dir, in_dir, literal, names), r),
    ensures
        in_dir ==> (r matches Ok(p) && p@ == path::joined(dir@, arg@)),
        !in_dir && literal ==> (r matches Ok(p) && p@ == arg@),
        !in_dir && !literal ==> r is Err,
{
}

proof fn lemma_signing_names(files: Seq<KeyFile>, n: Seq<char>)
    ensures
        signing_names(files).contains(n) <==> exists|i: int|
            0 <= i < files.len() && (#[trigger] files[i]).name@ == n && files[i].private
                && path::extension_of(n) is None,
    decreases files.len(),
{
    if files.len() > 0 {
        let front = files.drop_last();
        let f = files.last();
        lemma_signing_names(front, n);
        let was = signing_names(front);
        let is = signing_names(files);
        if was.contains(n) {
            let k = choose|k: int| 0 <= k < was.len() && was[k] == n;
            assert(is[k] == n);
            let i = choose|i: int|
                0 <= i < front.len() && (#[trigger] front[i]).name@ == n && front[i].private
                    && path::extension_of(n) is None;
            assert(files[i] == front[i]);
        }
        if f.name@ == n && f.private && path::extension_of(n) is None {
            assert(is[is.len() - 1] == n);
            assert(files[files.len() - 1] == f);
        }
        if is.contains(n) && !was.contains(n) {
            let k = choose|k: int| 0 <= k < is.len() && is[k] == n;
            if k < was.len() {
                assert(was[k] == n);
            }
            assert(files[files.len() - 1] == f);
        }
        if exists|i: int|
            0 <= i < files.len() && (#[trigger] files[i]).name@ == n && files[i].private
                && path::extension_of(n) is None {
            let i = choose|i: int|
                0 <= i < files.len() && (#[trigger] files[i]).name@ == n && files[i].private
                    && path::extension_of(n) is None;
            if i < front.len() {
                assert(front[i] == files[i]);
            }
        }
    }
}

/// The signing key that is used where none is named is the only private key of the directory: it is
/// one, and there is no other of another name; where there are two, none is picked.
pub proof fn law_no_key_is_picked_out_of_several(dir: &str, files: &[KeyFile], r: Result<String, String>)
    requires
        call_ensures(default_signing_key, (dir, files), r),
    ensures
        r matches Ok(p) ==> exists|i: int|
            0 <= i < files@.len() && (#[trigger] files@[i]).private && path::extension_of(
                files@[i].name@,
            ) is None && p@ == path::joined(dir@, files@[i].name@) && forall|j: int|
                0 <= j < files@.len() && (#[trigger] files@[j]).private && path::extension_of(
                    files@[j].name@,
                ) is None ==> files@[j].name@ == files@[i].name@,
        (exists|i: int, j: int|
            0 <= i < files@.len() && 0 <= j < files@.len() && (#[trigger] files@[i]).private && (
            #[trigger] files@[j]).private && path::extension_of(files@[i].name@) is None
                && path::extension_of(files@[j].name@) is None && files@[i].name@
                != files@[j].name@) ==> r is Err,
{
    let names = signing_names(files@);
    let found = order::ascending(names);
    order::law_ascending(names);
    if found.len() == 1 {
        let n = found[0];
        assert(found.contains(n));
        lemma_signing_names(files@, n);
        let i = choose|i: int|
            0 <= i < files@.len() && (#[trigger] files@[i]).name@ == n && files@[i].private
                && path::extension_of(n) is None;
        assert forall|j: int|
            0 <= j < files@.len() && (#[trigger] files@[j]).private && path::extension_of(
                files@[j].name@,
            ) is None implies files@[j].name@ == n by {
            lemma_signing_names(files@, files@[j].name@);
            assert(found.contains(files@[j].name@));
        }
        assert(files@[i].name@ == n);
    }
}

/// A key is trusted under an id only where a file of a store says so: the id is the stem of a `.pub`
/// file that holds just that key; where none is told, no store holds it.
pub proof fn law_key_ids_are_found_in_the_stores(
    stores: &[Vec<TrustFile>],
    pubkey: &[u8],
    r: Option<String>,
)
    requires
        call_ensures(resolve_key_id, (stores, pubkey), r),
    ensures
        r is Some ==> exists|i: int, j: int|
            #![trigger stores@[i]@[j]]
            0 <= i < stores@.len() && 0 <= j < stores@[i]@.len() && stores@[i]@[j].key is Some
                && stores@[i]@[j].key->0@ == pubkey@ && r->0@ == path::stem_of(
                stores@[i]@[j].name@,
            ) && path::extension_of(stores@[i]@[j].name@) == Some("pub"@),
        r is None ==> forall|i: int, j: int|
            #![trigger stores@[i]@[j]]
            0 <= i < stores@.len() && 0 <= j < stores@[i]@.len() ==> !(path::extension_of(
                stores@[i]@[j].name@,
            ) == Some("pub"@) && stores@[i]@[j].key is Some && stores@[i]@[j].key->0@ == pubkey@),
{
    if r is Some {
        let (i, j) = choose|i: int, j: int|
            0 <= i < stores@.len() && #[trigger] first_holder(stores@[i]@, pubkey@, j) && r->0@
                == path::stem_of(stores@[i]@[j].name@) && forall|k: int|
                0 <= k < i ==> no_holder(#[trigger] stores@[k]@, pubkey@);
        assert(holds_key(stores@[i]@[j], pubkey@));
    } else {
        assert forall|i: int, j: int|
            #![trigger stores@[i]@[j]]
            0 <= i < stores@.len() && 0 <= j < stores@[i]@.len() implies !(path::extension_of(
            stores@[i]@[j].name@,
        ) == Some("pub"@) && stores@[i]@[j].key is Some && stores@[i]@[j].key->0@ == pubkey@) by {
            assert(no_holder(stores@[i]@, pubkey@));
            assert(!holds_key(stores@[i]@[j], pubkey@));
        }
    }
}

/// A signature is stamped with the id that was asked for, else with the one that the key is trusted
/// under, and with none where there is neither; a warning comes just where the two differ.
pub proof fn law_the_id_asked_for_is_stamped(
    asked: Option<&str>,
    matched: Option<&str>,
    key: &str,
    r: Result<(String, Option<String>), String>,
)
    requires
        call_ensures(stamped_key_id, (asked, matched, key), r),
    ensures
        asked is Some ==> r is Ok && r->Ok_0.0@ == asked->0@,
        asked is None && matched is Some ==> r is Ok && r->Ok_0.0@ == matched->0@,
        asked is None && matched is None ==> r is Err,
        r is Ok ==> (r->Ok_0.1 is Some <==> asked is Some && matched is Some && asked->0@
            != matched->0@),
{
}

/// The host's trust directory is one of the system's and never the vendor's; the vendor's alone stand
/// before it.
pub proof fn law_host_trust_is_not_the_vendors(system: &[String], vendor: &str, r: Option<usize>)
    requires
        call_ensures(host_trust_dir, (system, vendor), r),
        r is Some,
    ensures
        r->0 < system@.len(),
        system@[r->0 as int]@ != vendor@,
{
}

/// Failed integrity, a bad signature or a reference that is not what the lock pins, has a status of
/// its own, which no other error has and which is not success.
pub proof fn law_integrity_has_its_own_status(
    a: PolicyErrorKind,
    b: PolicyErrorKind,
    x: u8,
    y: u8,
)
    requires
        call_ensures(policy_error_code, (a,), x),
        call_ensures(policy_error_code, (b,), y),
    ensures
        x == y <==> ((a == PolicyErrorKind::Signature || a == PolicyErrorKind::LockMismatch) <==> (b
            == PolicyErrorKind::Signature || b == PolicyErrorKind::LockMismatch)),
        x != 0,
{
}

/// A public key of a trust store is refused just where it is no OpenSSH line.
pub proof fn law_only_openssh_keys_are_trusted(path: &str, openssh: bool, legacy: bool, r: Option<String>)
    requires
        call_ensures(refused_public_key, (path, openssh, legacy), r),
    ensures
        r is None <==> openssh,
{
}

// ---- what is looked for, and where ---------------------------------------------------

proof fn lemma_template_places(dirs: Seq<Seq<char>>, name: Seq<char>)
    ensures
        template_places(dirs, name).len() == 2 * dirs.len(),
        forall|i: int|
            0 <= i < dirs.len() ==> template_places(dirs, name)[2 * i] == path::joined(
                #[trigger] dirs[i],
                name + ".toml"@,
            ) && template_places(dirs, name)[2 * i + 1] == source_in(dirs[i], name),
    decreases dirs.len(),
{
    if dirs.len() > 0 {
        let front = dirs.drop_last();
        lemma_template_places(front, name);
        let ps = template_places(dirs, name);
        let qs = template_places(front, name);
        assert forall|i: int| 0 <= i < dirs.len() implies ps[2 * i] == path::joined(
            #[trigger] dirs[i],
            name + ".toml"@,
        ) && ps[2 * i + 1] == source_in(dirs[i], name) by {
            if i < front.len() {
                assert(front[i] == dirs[i]);
                assert(ps[2 * i] == qs[2 * i] && ps[2 * i + 1] == qs[2 * i + 1]);
            }
        }
    }
}

/// A template is looked for in the directories in their order, in each as a file before a directory.
pub proof fn law_templates_are_looked_for_in_order(
    dirs: &[String],
    name: &str,
    out: Vec<String>,
    i: int,
)
    requires
        call_ensures(places_of_template, (dirs, name), out),
        0 <= i < dirs@.len(),
    ensures
        text::texts(out@).len() == 2 * dirs@.len(),
        text::texts(out@)[2 * i] == path::joined(text::texts(dirs@)[i], name@ + ".toml"@),
        text::texts(out@)[2 * i + 1] == path::joined(
            path::joined(text::texts(dirs@)[i], name@),
            "policy.toml"@,
        ),
{
    let ds = text::texts(dirs@);
    assert(ds.len() == dirs@.len());
    lemma_template_places(ds, name@);
    assert(ds[i] == dirs@[i]@);
}

/// A file that is given is taken as it is; a name that is none is refused, and one that is found is
/// found under that name.
pub proof fn law_given_files_are_taken<F: Fn(&str) -> bool>(
    arg: &str,
    prefer_settled: bool,
    literal: bool,
    dirs: &[String],
    is_file: &F,
    r: Result<(String, String), String>,
)
    requires
        call_ensures(resolve_policy::<F>, (arg, prefer_settled, literal, dirs, is_file), r),
    ensures
        literal ==> (r matches Ok(p) && p.0@ == arg@),
        !literal && (arg@.len() == 0 || arg@.contains('/')) ==> r is Err,
        !literal ==> (r matches Ok(p) ==> p.1@ == arg@ && says(*is_file, p.0@, true)),
        !literal && dirs@.len() == 0 ==> r is Err,
{
    if !literal && names_policy(arg@) {
        let ds = text::texts(dirs@);
        assert(ds.len() == dirs@.len());
        if let Ok(p) = r {
            let places = policy_places(ds, arg@, prefer_settled);
            let i = choose|i: int| first_at(*is_file, places, i) && p.0@ == #[trigger] places[i];
            assert(says(*is_file, places[i], true));
        }
    }
}

/// The id of every public key is among the ids.
pub proof fn lemma_pub_ids(names: Seq<Seq<char>>, i: int)
    requires
        0 <= i < names.len(),
        is_pub(names[i]),
    ensures
        pub_ids(names).contains(path::stem_of(names[i])),
    decreases names.len(),
{
    let front = names.drop_last();
    let all = pub_ids(names);
    if i < front.len() {
        assert(front[i] == names[i]);
        lemma_pub_ids(front, i);
        let rest = pub_ids(front);
        let k = choose|k: int| 0 <= k < rest.len() && rest[k] == path::stem_of(names[i]);
        assert(all[k] == rest[k]);
    } else {
        assert(all.last() == path::stem_of(names[i]));
    }
}

/// Every public key of a directory is known by its file's name.
pub proof fn law_every_public_key_is_listed(names: &[String], out: Vec<String>, i: int)
    requires
        call_ensures(pub_key_ids, (names,), out),
        0 <= i < names@.len(),
        path::extension_of(text::texts(names@)[i]) == Some("pub"@),
    ensures
        text::texts(out@).contains(path::stem_of(text::texts(names@)[i])),
{
    let all = text::texts(names@);
    assert(all.len() == names@.len());
    lemma_pub_ids(all, i);
}

/// A configuration directory that is named is taken before the one in the home directory.
pub proof fn law_named_configuration_is_taken(
    xdg: Option<&str>,
    home: Option<&str>,
    leaf: &str,
    r: String,
)
    requires
        call_ensures(config_dir, (xdg, home, leaf), r),
        leaf@.len() > 2,
        !leaf@.contains('/'),
    ensures
        path::file_name_of(r@) == Some(leaf@),
        xdg matches Some(x) ==> (x@.len() > 0 ==> x@.is_prefix_of(r@)),
        !(xdg matches Some(x) && x@.len() > 0) ==> (home matches Some(h) ==> h@.is_prefix_of(r@)),
{
    reveal_strlit("kennel");
    reveal_strlit(".config");
    let base = match (xdg, home) {
        (Some(x), _) if x@.len() > 0 => x@,
        (_, Some(h)) => path::joined(h@, ".config"@),
        _ => ".config"@,
    };
    let d = path::joined(base, "kennel"@);
    path::law_join_file_name(d, leaf@);
    if path::rooted(leaf@) {
        assert(leaf@[0] == '/');
    }
    assert("kennel"@[0] == 'k' && ".config"@[0] == '.');
    if let Some(x) = xdg {
        if x@.len() > 0 {
            assert(r@.subrange(0, x@.len() as int) =~= x@);
        }
    }
    if !(xdg matches Some(x) && x@.len() > 0) {
        if let Some(h) = home {
            assert(r@.subrange(0, h@.len() as int) =~= h@);
        }
    }
}

} // verus!
