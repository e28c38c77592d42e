//! What carries a key's signature among the policies and templates on disk.
//!
//! A settled policy carries the key that signed it, a lock the keys of what it pins, and the source
//! of a template the key of the block that was appended to it.

use super::key::{policy_file, PolicyFile, RefKind, SignedRef};
use crate::layout;
use crate::layout::copy_opt;
use crate::path;
use crate::path::{has_extension, join, parent};
use crate::text::{concat2, concat3};
use vstd::prelude::*;
use vstd::string::*;

verus! {

/// Something that carries a key's signature, as texts.
#[verifier::ext_equal]
pub struct Reference {
    /// What it is.
    pub kind: RefKind,
    /// Its name.
    pub name: Seq<char>,
    /// Its file.
    pub path: Seq<char>,
    /// The level of its file.
    pub tier: Seq<char>,
    /// The key.
    pub key_id: Seq<char>,
    /// The source of a settled policy, where it is found.
    pub source: Option<Seq<char>>,
    /// Whether a lock stands beside a settled policy.
    pub locked: bool,
}

/// Something that carries a key's signature, as texts.
pub open spec fn reference(r: SignedRef) -> Reference {
    Reference {
        kind: r.kind,
        name: r.name@,
        path: r.path@,
        tier: r.tier@,
        key_id: r.key_id@,
        source: layout::opt(r.source),
        locked: r.locked,
    }
}

/// What carries a key's signature, as texts.
pub open spec fn references(v: Seq<SignedRef>) -> Seq<Reference> {
    v.map_values(|r: SignedRef| reference(r))
}

/// A file in a directory of policies, with what reading it gave.
#[derive(Debug)]
pub struct FoundFile {
    /// The name of the file.
    pub file: String,
    /// The file.
    pub path: String,
    /// The level of the file.
    pub tier: String,
    /// The key that signed a settled policy; nothing where the file is none.
    pub key_id: Option<String>,
    /// What a lock pins, with the keys that signed it; nothing where the file is none.
    pub pins: Option<Vec<(String, String)>>,
    /// The source of a settled policy, where it is found.
    pub source: Option<String>,
    /// Whether a lock stands beside a settled policy.
    pub locked: bool,
}

/// The name of the policy whose settled form is in a file of that name.
pub open spec fn settled_stem(file: Seq<char>) -> Option<Seq<char>> {
    if ".settled.toml"@.is_suffix_of(file) {
        Some(file.take(file.len() - ".settled.toml"@.len()))
    } else {
        None
    }
}

/// The name of the policy whose lock is in a file of that name.
pub open spec fn lock_stem(file: Seq<char>) -> Option<Seq<char>> {
    if settled_stem(file) is None && ".lock"@.is_suffix_of(file) {
        Some(file.take(file.len() - ".lock"@.len()))
    } else {
        None
    }
}

/// What a pin of a lock refers to; a pin without a key refers to nothing.
pub open spec fn pin_references(
    pins: Seq<(String, String)>,
    stem: Seq<char>,
    at: Seq<char>,
    tier: Seq<char>,
) -> Seq<Reference>
    decreases pins.len(),
{
    if pins.len() == 0 {
        seq![]
    } else {
        let front = pin_references(pins.drop_last(), stem, at, tier);
        let (name, id) = pins.last();
        if id@.len() == 0 {
            front
        } else {
            front.push(
                Reference {
                    kind: RefKind::LockPin,
                    name: stem + " → "@ + name@,
                    path: at,
                    tier,
                    key_id: id@,
                    source: None,
                    locked: false,
                },
            )
        }
    }
}

/// What a file in a directory of policies refers to.
pub open spec fn file_references(f: FoundFile) -> Seq<Reference> {
    match settled_stem(f.file@) {
        Some(stem) => match f.key_id {
            Some(id) => if id@.len() == 0 {
                seq![]
            } else {
                seq![
                    Reference {
                        kind: RefKind::Settled,
                        name: stem,
                        path: f.path@,
                        tier: f.tier@,
                        key_id: id@,
                        source: layout::opt(f.source),
                        locked: f.locked,
                    },
                ]
            },
            None => seq![],
        },
        None => match (lock_stem(f.file@), f.pins) {
            (Some(stem), Some(pins)) => pin_references(pins@, stem, f.path@, f.tier@),
            _ => seq![],
        },
    }
}

proof fn lemma_stem(file: Seq<char>, stem: Seq<char>, suffix: Seq<char>)
    requires
        file == stem + suffix,
    ensures
        suffix.is_suffix_of(file),
        file.take(file.len() - suffix.len()) == stem,
{
    assert(file.skip(file.len() - suffix.len()) =~= suffix);
    assert(file.take(file.len() - suffix.len()) =~= stem);
}

/// What the pins of a lock refer to.
fn pin_refs(pins: &[(String, String)], stem: &str, at: &str, tier: &str) -> (out: Vec<SignedRef>)
    ensures
        references(out@) == pin_references(pins@, stem@, at@, tier@),
{
    let mut out: Vec<SignedRef> = Vec::new();
    let mut i: usize = 0;
    assert(pins@.take(0) =~= seq![]);
    assert(references(out@) =~= seq![]);
    while i < pins.len()
        invariant
            i <= pins@.len(),
            references(out@) == pin_references(pins@.take(i as int), stem@, at@, tier@),
        decreases pins@.len() - i,
    {
        proof {
            assert(pins@.take(i + 1).drop_last() =~= pins@.take(i as int));
            assert(pins@.take(i + 1).last() == pins@[i as int]);
        }
        let id = &pins[i].1;
        if id.as_str().unicode_len() > 0 {
            let ghost before = references(out@);
            let r = SignedRef {
                kind: RefKind::LockPin,
                name: concat3(stem, " → ", pins[i].0.as_str()),
                path: at.to_owned(),
                tier: tier.to_owned(),
                key_id: id.clone(),
                source: None,
                locked: false,
            };
            out.push(r);
            assert(references(out@) =~= before.push(reference(r)));
        }
        i = i + 1;
    }
    assert(pins@.take(pins@.len() as int) =~= pins@);
    out
}

/// What a file in a directory of policies refers to: the key of a settled policy, the keys of what a
/// lock pins, and nothing where no key is named.
pub fn file_refs(f: &FoundFile) -> (out: Vec<SignedRef>)
    ensures
        references(out@) == file_references(*f),
{
    let mut out: Vec<SignedRef> = Vec::new();
    assert(references(out@) =~= seq![]);
    match policy_file(f.file.as_str()) {
        PolicyFile::Settled(stem) => {
            proof {
                lemma_stem(f.file@, stem@, ".settled.toml"@);
            }
            if let Some(id) = &f.key_id {
                if id.as_str().unicode_len() > 0 {
                    let r = SignedRef {
                        kind: RefKind::Settled,
                        name: stem,
                        path: f.path.clone(),
                        tier: f.tier.clone(),
                        key_id: id.clone(),
                        source: copy_opt(&f.source),
                        locked: f.locked,
                    };
                    out.push(r);
                    assert(references(out@) =~= seq![reference(r)]);
                }
            }
        },
        PolicyFile::Lock(stem) => {
            proof {
                lemma_stem(f.file@, stem@, ".lock"@);
            }
            if let Some(pins) = &f.pins {
                out = pin_refs(pins.as_slice(), stem.as_str(), f.path.as_str(), f.tier.as_str());
            }
        },
        PolicyFile::Other => {},
    }
    out
}

/// Whatever a scan of the policies finds names a key.
pub proof fn law_references_name_a_key(f: FoundFile, i: int)
    requires
        0 <= i < file_references(f).len(),
    ensures
        file_references(f)[i].key_id.len() > 0,
        file_references(f)[i].path == f.path@,
{
    if settled_stem(f.file@) is None && lock_stem(f.file@) is Some && f.pins is Some {
        lemma_pins_name_a_key(f.pins->0@, lock_stem(f.file@)->0, f.path@, f.tier@, i);
    }
}

proof fn lemma_pins_name_a_key(
    pins: Seq<(String, String)>,
    stem: Seq<char>,
    at: Seq<char>,
    tier: Seq<char>,
    i: int,
)
    requires
        0 <= i < pin_references(pins, stem, at, tier).len(),
    ensures
        pin_references(pins, stem, at, tier)[i].key_id.len() > 0,
        pin_references(pins, stem, at, tier)[i].path == at,
    decreases pins.len(),
{
    if pins.len() > 0 {
        let front = pin_references(pins.drop_last(), stem, at, tier);
        if i < front.len() {
            lemma_pins_name_a_key(pins.drop_last(), stem, at, tier, i);
        }
    }
}

/// Whether a directory of policies is looked into at a depth.
pub fn descends(depth: u8) -> (r: bool)
    ensures
        r == (depth < 2),
{
    depth < 2
}

/// The lock that belongs to a settled policy of that name.
pub fn settled_lock(settled: &str, name: &str) -> (r: Option<String>)
    ensures
        layout::opt(r) == match path::parent_of(settled@) {
            Some(d) => Some(path::joined(d, name@ + ".lock"@)),
            None => None,
        },
{
    match parent(settled) {
        Some(d) => Some(join(d.as_str(), concat2(name, ".lock").as_str())),
        None => None,
    }
}

/// Where the source of a template is, given an entry of a directory of templates.
pub open spec fn template_file(entry: Seq<char>, is_dir: bool) -> Option<Seq<char>> {
    if is_dir {
        Some(path::joined(entry, "policy.toml"@))
    } else {
        match path::file_name_of(entry) {
            Some(n) => if path::extension_of(n) == Some("toml"@) {
                Some(entry)
            } else {
                None
            },
            None => None,
        }
    }
}

/// Where the source of a template is, given an entry of a directory of templates: in a directory, or
/// a TOML file itself.
pub fn template_source(entry: &str, is_dir: bool) -> (r: Option<String>)
    ensures
        layout::opt(r) == template_file(entry@, is_dir),
{
    if is_dir {
        return Some(join(entry, "policy.toml"));
    }
    match path::file_name(entry) {
        None => None,
        Some(n) => if has_extension(n.as_str(), "toml") {
            Some(entry.to_owned())
        } else {
            None
        },
    }
}

/// The name that the source of a template goes by.
pub open spec fn template_title(template_name: Option<String>, name: Option<String>) -> Seq<char> {
    match (template_name, name) {
        (Some(n), _) => n@,
        (None, Some(n)) => n@,
        (None, None) => "?"@,
    }
}

/// What the source of a template refers to, where it is signed.
pub fn template_ref(
    at: &str,
    tier: &str,
    key_id: &Option<String>,
    template_name: &Option<String>,
    name: &Option<String>,
) -> (r: Option<SignedRef>)
    ensures
        match *key_id {
            Some(id) => r matches Some(s) && reference(s) == (Reference {
                kind: RefKind::Template,
                name: template_title(*template_name, *name),
                path: at@,
                tier: tier@,
                key_id: id@,
                source: None,
                locked: false,
            }),
            None => r is None,
        },
{
    match key_id {
        None => None,
        Some(id) => {
            let title = match template_name {
                Some(n) => n.clone(),
                None => match name {
                    Some(n) => n.clone(),
                    None => "?".to_owned(),
                },
            };
            Some(
                SignedRef {
                    kind: RefKind::Template,
                    name: title,
                    path: at.to_owned(),
                    tier: tier.to_owned(),
                    key_id: id.clone(),
                    source: None,
                    locked: false,
                },
            )
        },
    }
}

// ---- what holds of the whole ----------------------------------------------------

/// A settled policy is found under its name with the key that signed it and its source, and one that
/// no key signed is passed over.
pub proof fn law_settled_policy_is_found(f: &FoundFile, out: Vec<SignedRef>, stem: Seq<char>)
    requires
        call_ensures(file_refs, (f,), out),
        f.file@ == stem + ".settled.toml"@,
    ensures
        out@.len() == 1 <==> (f.key_id matches Some(id) && id@.len() > 0),
        out@.len() <= 1,
        out@.len() == 1 ==> out@[0].kind == RefKind::Settled && out@[0].name@ == stem
            && out@[0].path@ == f.path@ && out@[0].tier@ == f.tier@ && out@[0].key_id@
            == f.key_id->0@ && layout::opt(out@[0].source) == layout::opt(f.source),
{
    let e = ".settled.toml"@;
    let n = f.file@.len() as int;
    assert(f.file@.subrange(n - e.len(), n) =~= e);
    assert(e.is_suffix_of(f.file@));
    assert(f.file@.take(n - e.len()) =~= stem);
    let all = references(out@);
    assert(all.len() == out@.len());
    if out@.len() == 1 {
        assert(all[0] == reference(out@[0]));
    }
}

/// The scan goes down two levels and no further.
pub proof fn law_scan_goes_two_levels_down(depth: u8, r: bool)
    requires
        call_ensures(descends, (depth,), r),
    ensures
        r <==> (depth == 0 || depth == 1),
{
}

/// A template is found with the key that signed it, by its own name first; one that no key signed is
/// passed over.
pub proof fn law_template_is_found_by_its_name(
    at: &str,
    tier: &str,
    key_id: &Option<String>,
    template_name: &Option<String>,
    name: &Option<String>,
    r: Option<SignedRef>,
)
    requires
        call_ensures(template_ref, (at, tier, key_id, template_name, name), r),
    ensures
        r is Some <==> key_id is Some,
        r matches Some(s) ==> s.kind == RefKind::Template && s.path@ == at@ && s.tier@ == tier@
            && s.key_id@ == key_id->0@,
        r matches Some(s) ==> (template_name matches Some(n) ==> s.name@ == n@),
        r matches Some(s) ==> (template_name is None ==> (name matches Some(n) ==> s.name@ == n@)),
{
    if let Some(s) = r {
        let v = reference(s);
    }
}

/// A template is the policy in its directory, or a file of the right kind itself.
pub proof fn law_templates_are_directories_or_files(entry: &str, is_dir: bool, r: Option<String>)
    requires
        call_ensures(template_source, (entry, is_dir), r),
    ensures
        is_dir ==> (r matches Some(p) && path::file_name_of(p@) == Some("policy.toml"@)),
        !is_dir ==> (r matches Some(p) ==> p@ == entry@),
        !is_dir ==> (r is Some <==> (path::file_name_of(entry@) matches Some(n) && path::extension_of(n)
            == Some("toml"@))),
{
    reveal_strlit("policy.toml");
    if is_dir {
        assert(!"policy.toml"@.contains('/'));
        path::law_join_file_name(entry@, "policy.toml"@);
    }
}

} // verus!
