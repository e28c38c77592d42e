//! Installing, cloning and signing: the source of an object is placed, renamed and signed.

use super::policy;
use super::policy::House;
use super::run;
use super::shared;
use super::shared::{first_present, is_valid_policy_name};
use crate::layout;
use crate::layout::push_line;
use crate::path;
use crate::path::{join, parent};
use crate::text;
use crate::text::{
    chars_of, concat2, concat3, concat4, concat5, concat7, has_char, matches_at, same, starts_with,
    text_of,
};
use crate::words;
use vstd::prelude::*;
use vstd::string::*;

verus! {

// ---- authority -----------------------------------------------------------------

/// The level at which a key signs.
#[derive(Clone, Copy, Debug, PartialEq, Eq, Structural)]
pub enum Tier {
    /// A user's own.
    User,
    /// The host's.
    Host,
    /// The vendor's.
    Vendor,
}

impl Tier {
    /// How much authority the level has.
    pub open spec fn rank(self) -> int {
        match self {
            Tier::User => 0,
            Tier::Host => 1,
            Tier::Vendor => 2,
        }
    }

    /// Whether the level has more authority than `other`.
    pub fn is_above(self, other: Tier) -> (r: bool)
        ensures
            r == (self.rank() > other.rank()),
    {
        match (self, other) {
            (Tier::Host, Tier::User) => true,
            (Tier::Vendor, Tier::User) => true,
            (Tier::Vendor, Tier::Host) => true,
            _ => false,
        }
    }
}

/// A name that an object provides, and the level that the name is reserved for.
#[derive(Debug)]
pub struct Provided {
    /// The name.
    pub name: String,
    /// The level that it takes, where it is reserved.
    pub required: Option<Tier>,
}

/// Whether a key of the level may not sign the name.
pub open spec fn violates(p: Provided, at: Tier) -> bool {
    match p.required {
        Some(t) => t.rank() > at.rank(),
        None => false,
    }
}

/// The names that a key of the level may not sign.
pub open spec fn violations(ps: Seq<Provided>, at: Tier) -> Seq<Seq<char>>
    decreases ps.len(),
{
    if ps.len() == 0 {
        seq![]
    } else if violates(ps.last(), at) {
        violations(ps.drop_last(), at).push(ps.last().name@)
    } else {
        violations(ps.drop_last(), at)
    }
}

/// The names that a key of the declaring level may not sign.
pub fn reserved_violations(provides: &[Provided], declaring: Tier) -> (out: Vec<String>)
    ensures
        text::texts(out@) == violations(provides@, declaring),
{
    let mut out: Vec<String> = Vec::new();
    let mut i: usize = 0;
    assert(provides@.take(0) =~= seq![]);
    assert(text::texts(out@) =~= seq![]);
    while i < provides.len()
        invariant
            i <= provides@.len(),
            text::texts(out@) == violations(provides@.take(i as int), declaring),
        decreases provides@.len() - i,
    {
        proof {
            assert(provides@.take(i + 1).drop_last() =~= provides@.take(i as int));
            assert(provides@.take(i + 1).last() == provides@[i as int]);
        }
        if let Some(t) = provides[i].required {
            if t.is_above(declaring) {
                push_line(&mut out, provides[i].name.clone());
            }
        }
        i = i + 1;
    }
    assert(provides@.take(provides@.len() as int) =~= provides@);
    out
}

/// More authority never forbids more: what a key of a level may sign, a key of a higher one may.
pub proof fn law_authority_is_monotone(ps: Seq<Provided>, low: Tier, high: Tier)
    requires
        low.rank() <= high.rank(),
        violations(ps, low).len() == 0,
    ensures
        violations(ps, high).len() == 0,
    decreases ps.len(),
{
    if ps.len() > 0 {
        law_authority_is_monotone(ps.drop_last(), low, high);
    }
}

// ---- installing ----------------------------------------------------------------

/// What the source of an object declares.
#[derive(Debug)]
pub struct SourceMeta {
    /// Its name as a template.
    pub template_name: Option<String>,
    /// Its name as a policy or fragment.
    pub name: Option<String>,
    /// Whether it is a leaf, which is run.
    pub leaf: bool,
    /// What it provides.
    pub provides: Vec<Provided>,
}

impl SourceMeta {
    /// The name of the object.
    pub open spec fn object_name(self) -> Option<Seq<char>> {
        match self.template_name {
            Some(n) => Some(n@),
            None => layout::opt(self.name),
        }
    }

    /// Whether the object is signed when it is compiled, rather than as source.
    pub open spec fn compiles(self) -> bool {
        self.template_name is None && self.leaf
    }
}

/// What is known of a file that is to be installed.
#[derive(Debug)]
pub struct InstallFacts {
    /// Whether it is a settled form.
    pub settled: bool,
    /// What its source declares, or why it does not parse.
    pub source: Result<SourceMeta, String>,
    /// Whether the caller is root.
    pub root: bool,
    /// The user's key directory, where there is one.
    pub user_key_dir: Option<String>,
}

/// Where the objects of a house stand at a level.
pub open spec fn repo_root(house: House, host: bool, user_key_dir: Option<Seq<char>>) -> Option<
    Seq<char>,
> {
    if host {
        Some(path::joined("/etc/kennel"@, house.leaf_text()))
    } else {
        match user_key_dir {
            None => None,
            Some(d) => match path::parent_of(d) {
                None => None,
                Some(up) => Some(path::joined(up, house.leaf_text())),
            },
        }
    }
}

/// What is said of names that a key of the level may not sign.
pub open spec fn reserved_text(file: Seq<char>, host: bool, names: Seq<Seq<char>>) -> Seq<char> {
    file + " carries reserved [[provides]] claims a "@ + (if host {
        "host"@
    } else {
        "user"@
    }) + "-tier key cannot sign ("@ + words::joined(names, ", "@)
        + ") — reserved names belong to the tier that owns them; derive from the signed base instead (`kennel policy generate --from <template>`)"@
}

/// The name and the directory that a file is installed as, or the first reason why it is not: it
/// must be source, of this house, with a name, of names that its level may sign, by root where it
/// goes to the host.
pub open spec fn install_outcome(
    house: House,
    file: Seq<char>,
    host: bool,
    facts: InstallFacts,
) -> Result<(Seq<char>, Seq<char>), Seq<char>> {
    if facts.settled {
        Err(
            file
                + " is a compiled (settled) artefact, not source. A higher-tier-signed artefact verifies wherever it is placed — copy it into a `policies/` repo directly. `install` places and signs SOURCE at your tier"@,
        )
    } else {
        match facts.source {
            Err(e) => Err(file + " is not a source policy/template: "@ + e@),
            Ok(s) => {
                let names = violations(
                    s.provides@,
                    if host {
                        Tier::Host
                    } else {
                        Tier::User
                    },
                );
                if house is Policy && s.template_name is Some {
                    Err(
                        file
                            + " is a template (a shared base) — install it with `kennel template install "@
                            + file + "`"@,
                    )
                } else if house is Template && s.compiles() {
                    Err(
                        file + " is a leaf policy — install it with `kennel policy install "@ + file
                            + "`"@,
                    )
                } else {
                    match s.object_name() {
                        None => Err(file + " has no `name`/`template_name`"@),
                        Some(name) => if !shared::names_policy(name) {
                            Err("`"@ + name + "` is not a valid object name"@)
                        } else if names.len() > 0 {
                            Err(reserved_text(file, host, names))
                        } else if host && !facts.root {
                            Err("`--host` installs into /etc/kennel and needs root"@)
                        } else {
                            match repo_root(house, host, layout::opt(facts.user_key_dir)) {
                                None => Err("cannot resolve ~/.config/kennel (HOME unset)"@),
                                Some(root) => Ok((name, path::joined(root, name))),
                            }
                        },
                    }
                }
            },
        }
    }
}

/// What a file is installed as.
#[derive(Debug)]
pub struct InstallTarget {
    /// The name of the object.
    pub name: String,
    /// Its directory.
    pub dest: String,
}

fn find_repo_root(house: House, host: bool, user_key_dir: &Option<String>) -> (r: Option<String>)
    ensures
        layout::opt(r) == repo_root(house, host, layout::opt(*user_key_dir)),
{
    if host {
        return Some(join("/etc/kennel", house.repo_leaf()));
    }
    match user_key_dir {
        None => None,
        Some(d) => match parent(d.as_str()) {
            None => None,
            Some(up) => Some(join(up.as_str(), house.repo_leaf())),
        },
    }
}

/// What a file is installed as, or why it is not.
pub fn install_check(house: House, file: &str, host: bool, facts: &InstallFacts) -> (r: Result<
    InstallTarget,
    String,
>)
    ensures
        match install_outcome(house, file@, host, *facts) {
            Ok(p) => r matches Ok(t) && t.name@ == p.0 && t.dest@ == p.1,
            Err(e) => r matches Err(m) && m@ == e,
        },
{
    if facts.settled {
        return Err(
            concat2(
                file,
                " is a compiled (settled) artefact, not source. A higher-tier-signed artefact verifies wherever it is placed — copy it into a `policies/` repo directly. `install` places and signs SOURCE at your tier",
            ),
        );
    }
    let source = match &facts.source {
        Err(e) => {
            return Err(concat3(file, " is not a source policy/template: ", e.as_str()));
        },
        Ok(s) => s,
    };
    let is_template = source.template_name.is_some();
    match house {
        House::Policy => if is_template {
            return Err(
                concat4(
                    file,
                    " is a template (a shared base) — install it with `kennel template install ",
                    file,
                    "`",
                ),
            );
        },
        House::Template => if !is_template && source.leaf {
            return Err(
                concat4(
                    file,
                    " is a leaf policy — install it with `kennel policy install ",
                    file,
                    "`",
                ),
            );
        },
    }
    let name = match &source.template_name {
        Some(n) => n.clone(),
        None => match &source.name {
            Some(n) => n.clone(),
            None => {
                return Err(concat2(file, " has no `name`/`template_name`"));
            },
        },
    };
    if !is_valid_policy_name(name.as_str()) {
        return Err(concat3("`", name.as_str(), "` is not a valid object name"));
    }
    let tier = if host {
        Tier::Host
    } else {
        Tier::User
    };
    let names = reserved_violations(source.provides.as_slice(), tier);
    assert(text::texts(names@).len() == names@.len());
    if names.len() > 0 {
        let list = words::join(names.as_slice(), ", ");
        let a = concat4(
            file,
            " carries reserved [[provides]] claims a ",
            if host {
                "host"
            } else {
                "user"
            },
            "-tier key cannot sign (",
        );
        return Err(
            concat3(
                a.as_str(),
                list.as_str(),
                ") — reserved names belong to the tier that owns them; derive from the signed base instead (`kennel policy generate --from <template>`)",
            ),
        );
    }
    if host && !facts.root {
        return Err("`--host` installs into /etc/kennel and needs root".to_owned());
    }
    match find_repo_root(house, host, &facts.user_key_dir) {
        None => Err("cannot resolve ~/.config/kennel (HOME unset)".to_owned()),
        Some(root) => {
            let dest = join(root.as_str(), name.as_str());
            Ok(InstallTarget { name, dest })
        },
    }
}

/// Nothing is installed whose reserved names the destination's level may not sign.
pub proof fn law_install_never_places_reserved_names(
    house: House,
    file: Seq<char>,
    host: bool,
    facts: InstallFacts,
)
    requires
        install_outcome(house, file, host, facts) is Ok,
    ensures
        facts.source matches Ok(s) && violations(
            s.provides@,
            if host {
                Tier::Host
            } else {
                Tier::User
            },
        ).len() == 0,
        host ==> facts.root,
{
}

/// Each house installs its own: what one house takes, the other refuses, but for fragments.
pub proof fn law_houses_refuse_each_other(file: Seq<char>, host: bool, facts: InstallFacts)
    requires
        install_outcome(House::Policy, file, host, facts) is Ok,
        install_outcome(House::Template, file, host, facts) is Ok,
    ensures
        facts.source matches Ok(s) && s.template_name is None && !s.leaf,
{
}

/// Why an object is not placed where one is already (`there`).
pub fn collision(target: &InstallTarget, there: bool, force: bool) -> (r: Option<String>)
    ensures
        layout::opt(r) == if there && !force {
            Some(
                "`"@ + target.name@ + "` already exists at "@ + target.dest@
                    + " — pass --force to replace it"@,
            )
        } else {
            None
        },
{
    if there && !force {
        Some(
            concat5(
                "`",
                target.name.as_str(),
                "` already exists at ",
                target.dest.as_str(),
                " — pass --force to replace it",
            ),
        )
    } else {
        None
    }
}

/// The key that signs what is installed: the one named, else the host's at the host level, else
/// (`None`) the user's only one. `trust_dir` holds the host's key, `there` tells whether it does.
pub fn install_key(key: &Option<String>, host: bool, trust_dir: &str, there: bool) -> (r: Result<
    Option<String>,
    String,
>)
    ensures
        match layout::opt(*key) {
            Some(k) => r matches Ok(o) && layout::opt(o) == Some(k),
            None => if !host {
                r matches Ok(None)
            } else if there {
                r matches Ok(o) && layout::opt(o) == Some(path::joined(trust_dir@, "kennel-host"@))
            } else {
                r matches Err(m) && m@ == "no host signing key at "@ + path::joined(
                    trust_dir@,
                    "kennel-host"@,
                ) + " (install.sh provisions it); pass --key"@
            },
        },
{
    match key {
        Some(k) => Ok(Some(k.clone())),
        None => {
            if !host {
                return Ok(None);
            }
            let place = join(trust_dir, "kennel-host");
            if there {
                Ok(Some(place))
            } else {
                Err(
                    concat3(
                        "no host signing key at ",
                        place.as_str(),
                        " (install.sh provisions it); pass --key",
                    ),
                )
            }
        },
    }
}

/// How what is installed is signed.
#[derive(Clone, Copy, Debug, PartialEq, Eq, Structural)]
pub enum SignStep {
    /// As source.
    Source,
    /// By compiling it.
    Compile,
}

/// How what is installed is signed: a leaf by compiling it, anything else as source.
pub fn sign_step(meta: &SourceMeta) -> (r: SignStep)
    ensures
        r == if meta.compiles() {
            SignStep::Compile
        } else {
            SignStep::Source
        },
{
    if meta.template_name.is_some() || !meta.leaf {
        SignStep::Source
    } else {
        SignStep::Compile
    }
}

/// What is said when signing failed: an object that was not there before is removed again, one that
/// was replaced stays.
pub fn rollback_text(fresh: bool, what: &str, target: &InstallTarget) -> (r: String)
    ensures
        r@ == if fresh {
            "kennel: install rolled back ("@ + what@ + "); "@ + target.dest@ + " removed"@
        } else {
            "kennel: "@ + what@ + "; `"@ + target.name@ + "` at "@ + target.dest@
                + " was replaced but not re-signed — fix and re-run install"@
        },
{
    if fresh {
        concat5(
            "kennel: install rolled back (",
            what,
            "); ",
            target.dest.as_str(),
            " removed",
        )
    } else {
        concat7(
            "kennel: ",
            what,
            "; `",
            target.name.as_str(),
            "` at ",
            target.dest.as_str(),
            " was replaced but not re-signed — fix and re-run install",
        )
    }
}

/// What is said when an object was installed, and what comes next.
pub fn installed_lines(target: &InstallTarget, host: bool, step: SignStep) -> (r: (String, String))
    ensures
        r.0@ == "kennel: installed `"@ + target.name@ + "` at the "@ + (if host {
            "host"@
        } else {
            "user"@
        }) + " tier ("@ + target.dest@ + ")"@,
        r.1@ == match step {
            SignStep::Source => "  next: derive a leaf from it — `kennel policy generate --from "@
                + target.name@ + "`"@,
            SignStep::Compile => "  next: `kennel run "@ + target.name@ + "`"@,
        },
{
    let first = concat7(
        "kennel: installed `",
        target.name.as_str(),
        "` at the ",
        if host {
            "host"
        } else {
            "user"
        },
        " tier (",
        target.dest.as_str(),
        ")",
    );
    let next = match step {
        SignStep::Source => concat3(
            "  next: derive a leaf from it — `kennel policy generate --from ",
            target.name.as_str(),
            "`",
        ),
        SignStep::Compile => concat3("  next: `kennel run ", target.name.as_str(), "`"),
    };
    (first, next)
}

// ---- cloning -------------------------------------------------------------------

/// Why an object is not cloned, `None` where it is: it must be named rather than given as a path,
/// of names that a user's key may sign, and the copy must have a valid name.
pub open spec fn clone_fault(
    house: House,
    name: Seq<char>,
    target: Seq<char>,
    provides: Seq<Provided>,
) -> Option<Seq<char>> {
    let names = violations(provides, Tier::User);
    if name.contains('/') {
        Some(
            "`clone` takes an object NAME from the "@ + house.leaf_text()
                + " cascade, not a path — `install` places a file you already hold"@,
        )
    } else if names.len() > 0 {
        Some(
            "`"@ + name + "` carries reserved [[provides]] claims ("@ + words::joined(names, ", "@)
                + ") — the claim lives in the content, and a user key cannot re-sign it under any name. Not clonable; derive from it where it stands instead: `kennel policy generate --from "@
                + name + "`"@,
        )
    } else if !shared::names_policy(target) {
        Some("`"@ + target + "` is not a valid object name"@)
    } else {
        None
    }
}

/// Why an object is not cloned.
pub fn clone_refusal(
    house: House,
    name: &str,
    target: &str,
    provides: &[Provided],
) -> (r: Option<String>)
    ensures
        layout::opt(r) == clone_fault(house, name@, target@, provides@),
{
    if has_char(name, '/') {
        return Some(
            concat3(
                "`clone` takes an object NAME from the ",
                house.repo_leaf(),
                " cascade, not a path — `install` places a file you already hold",
            ),
        );
    }
    let names = reserved_violations(provides, Tier::User);
    assert(text::texts(names@).len() == names@.len());
    if names.len() > 0 {
        let list = words::join(names.as_slice(), ", ");
        return Some(
            concat7(
                "`",
                name,
                "` carries reserved [[provides]] claims (",
                list.as_str(),
                ") — the claim lives in the content, and a user key cannot re-sign it under any name. Not clonable; derive from it where it stands instead: `kennel policy generate --from ",
                name,
                "`",
            ),
        );
    }
    if !is_valid_policy_name(target) {
        return Some(concat3("`", target, "` is not a valid object name"));
    }
    None
}

/// Renaming is no way around reserved names: an object that provides what a user's key may not sign
/// is installed for no user, whatever file it comes from.
pub proof fn law_renaming_is_no_escape(ps: Seq<Provided>, house: House, facts: InstallFacts)
    requires
        violations(ps, Tier::User).len() > 0,
        facts.source matches Ok(s) && s.provides@ == ps,
    ensures
        forall|file: Seq<char>| #[trigger] install_outcome(house, file, false, facts) is Err,
{
}

/// What is said where the copy hides the object that it was made of.
pub fn shadow_text(house: House, name: &str, target: &str, tier: &str) -> (r: Option<String>)
    ensures
        layout::opt(r) == if tier@ != "user"@ && target@ == name@ {
            Some(
                "  note: your clone shadows the "@ + tier@ + " `"@ + name@
                    + "` for your user (resolution is user-first; `kennel "@ + house.noun_text()
                    + " list` marks it)"@,
            )
        } else {
            None
        },
{
    if !same(tier, "user") && same(target, name) {
        Some(
            concat7(
                "  note: your clone shadows the ",
                tier,
                " `",
                name,
                "` for your user (resolution is user-first; `kennel ",
                house.noun(),
                " list` marks it)",
            ),
        )
    } else {
        None
    }
}

/// The source that a policy's name stands for when it is cloned, along the search path: a settled
/// form alone is not clonable.
pub fn resolve_clonable_policy_source<F: Fn(&str) -> bool>(
    name: &str,
    dirs: &[String],
    is_file: &F,
) -> (r: Result<String, String>)
    requires
        forall|s: &str| call_requires(*is_file, (s,)),
    ensures
        ({
            let sources = run::source_places(text::texts(dirs@), name@);
            let settled = run::settled_places(text::texts(dirs@), name@);
            match r {
                Ok(p) => exists|i: int|
                    shared::first_at(*is_file, sources, i) && p@ == #[trigger] sources[i],
                Err(m) => shared::nowhere(*is_file, sources) && {
                    ||| exists|i: int|
                        shared::first_at(*is_file, settled, i) && m@ == "`"@ + name@
                            + "` exists only as compiled artefacts (e.g. "@ + (#[trigger] settled[i])
                            + ") — a settled artefact is derived, not clonable source, and no tier in the cascade ships this policy's source"@
                    ||| shared::nowhere(*is_file, settled) && m@ == "no policy named `"@ + name@
                        + "` in the policies cascade (`kennel policy list` shows what is there)"@
                },
            }
        }),
{
    let sources = run::all_sources(dirs, name);
    if let Some(i) = first_present(sources.as_slice(), is_file) {
        let ghost all = text::texts(sources@);
        assert(all[i as int] == sources@[i as int]@);
        return Ok(sources[i].clone());
    }
    let settled = run::all_settled(dirs, name);
    if let Some(i) = first_present(settled.as_slice(), is_file) {
        let ghost all = text::texts(settled@);
        assert(all[i as int] == settled@[i as int]@);
        return Err(
            concat5(
                "`",
                name,
                "` exists only as compiled artefacts (e.g. ",
                settled[i].as_str(),
                ") — a settled artefact is derived, not clonable source, and no tier in the cascade ships this policy's source",
            ),
        );
    }
    Err(
        concat3(
            "no policy named `",
            name,
            "` in the policies cascade (`kennel policy list` shows what is there)",
        ),
    )
}

// ---- renaming ------------------------------------------------------------------

/// The field that a line of a source gives its identity with.
pub open spec fn identity_field(line: Seq<char>) -> Option<Seq<char>> {
    let t = words::trim_front(line);
    if "template_name ="@.is_prefix_of(t) {
        Some("template_name"@)
    } else if "name ="@.is_prefix_of(t) {
        Some("name"@)
    } else {
        None
    }
}

/// How many lines stand before the first table: a line that starts with `[`.
pub open spec fn top_level(lines: Seq<Seq<char>>) -> int
    decreases lines.len(),
{
    if lines.len() == 0 || (lines[0].len() > 0 && lines[0][0] == '[') {
        0
    } else {
        1 + top_level(lines.drop_first())
    }
}

/// A line that gives the identity, with the name `target`; a carriage return at its end stays.
pub open spec fn renamed_line(line: Seq<char>, target: Seq<char>) -> Seq<char> {
    match identity_field(line) {
        Some(f) => f + " = \""@ + target + "\""@ + if line.len() > 0 && line.last() == '\r' {
            seq!['\r']
        } else {
            seq![]
        },
        None => line,
    }
}

/// Lines with the name `target` in those that give the identity.
pub open spec fn renamed(lines: Seq<Seq<char>>, target: Seq<char>) -> Seq<Seq<char>> {
    lines.map_values(|l: Seq<char>| renamed_line(l, target))
}

/// How many lines give the identity.
pub open spec fn identities(lines: Seq<Seq<char>>) -> nat
    decreases lines.len(),
{
    if lines.len() == 0 {
        0
    } else {
        identities(lines.drop_last()) + if identity_field(lines.last()) is Some {
            1nat
        } else {
            0
        }
    }
}

fn field_of(line: &str) -> (r: Option<&'static str>)
    ensures
        match r {
            Some(f) => identity_field(line@) == Some(f@),
            None => identity_field(line@) is None,
        },
{
    let t = words::trim_start(line);
    if starts_with(t, "template_name =") {
        Some("template_name")
    } else if starts_with(t, "name =") {
        Some("name")
    } else {
        None
    }
}

fn top_level_lines(lines: &[String]) -> (n: usize)
    ensures
        n <= lines@.len(),
        n == top_level(text::texts(lines@)),
{
    let ghost all = text::texts(lines@);
    let mut i: usize = 0;
    assert(all.skip(0) =~= all);
    while i < lines.len() && !(lines[i].as_str().unicode_len() > 0 && lines[i].as_str().get_char(0)
        == '[')
        invariant
            i <= lines@.len(),
            all == text::texts(lines@),
            i + top_level(all.skip(i as int)) == top_level(all),
        decreases lines@.len() - i,
    {
        proof {
            assert(all.skip(i as int)[0] == lines@[i as int]@);
            assert(all.skip(i as int).drop_first() =~= all.skip(i + 1));
        }
        i = i + 1;
    }
    proof {
        if i < lines@.len() {
            assert(all.skip(i as int)[0] == lines@[i as int]@);
        }
    }
    i
}

/// A source under the name `target`: the one line before all tables that gives its identity is
/// rewritten, and every other byte stays.
pub open spec fn renamed_source(source: Seq<char>, target: Seq<char>) -> Result<
    Seq<char>,
    Seq<char>,
> {
    let lines = words::pieces(source, '\n');
    let n = top_level(lines);
    let count = identities(lines.take(n));
    if count == 0 {
        Err("no top-level `name`/`template_name` line to rename"@)
    } else if count == 1 {
        Ok(words::joined(renamed(lines.take(n), target) + lines.skip(n), seq!['\n']))
    } else {
        Err("more than one top-level `name`/`template_name` line to rename"@)
    }
}

/// The source `text` under the name `target`: the one line before all tables that gives its
/// identity is rewritten, and every other byte stays.
pub fn rename_source_object(source: &str, target: &str) -> (r: Result<String, String>)
    ensures
        match renamed_source(source@, target@) {
            Ok(t) => r matches Ok(s) && s@ == t,
            Err(e) => r matches Err(m) && m@ == e,
        },
{
    let lines = words::split_on(source, '\n');
    let ghost all = text::texts(lines@);
    let n: usize = top_level_lines(lines.as_slice());
    let ghost head = all.take(n as int);
    let mut out: Vec<String> = Vec::new();
    let mut count: usize = 0;
    let mut i: usize = 0;
    proof {
        assert(head.take(0) =~= seq![]);
        assert(text::texts(out@) =~= renamed(head, target@).take(0));
    }
    while i < n
        invariant
            i <= n <= lines@.len(),
            all == text::texts(lines@),
            head == all.take(n as int),
            count <= i,
            count == identities(head.take(i as int)),
            text::texts(out@) == renamed(head, target@).take(i as int),
        decreases n - i,
    {
        let line = lines[i].as_str();
        proof {
            assert(head.take(i + 1).drop_last() =~= head.take(i as int));
            assert(head.take(i + 1).last() == line@);
            assert(head[i as int] == line@);
        }
        match field_of(line) {
            Some(f) => {
                let mut new = concat4(f, " = \"", target, "\"");
                let len: usize = line.unicode_len();
                let ghost plain = new@;
                if len > 0 && line.get_char(len - 1) == '\r' {
                    new.push('\r');
                    assert(new@ =~= plain + seq!['\r']);
                } else {
                    assert(plain + seq![] =~= plain);
                }
                count = count + 1;
                push_line(&mut out, new);
            },
            None => {
                push_line(&mut out, line.to_owned());
            },
        }
        i = i + 1;
        assert(text::texts(out@) =~= renamed(head, target@).take(i as int));
    }
    assert(head.take(n as int) =~= head);
    if count == 0 {
        return Err("no top-level `name`/`template_name` line to rename".to_owned());
    }
    if count > 1 {
        return Err("more than one top-level `name`/`template_name` line to rename".to_owned());
    }
    let ghost front = renamed(head, target@);
    assert(text::texts(out@) =~= front + all.subrange(n as int, n as int));
    while i < lines.len()
        invariant
            n <= i <= lines@.len(),
            all == text::texts(lines@),
            text::texts(out@) == front + all.subrange(n as int, i as int),
        decreases lines@.len() - i,
    {
        push_line(&mut out, lines[i].clone());
        i = i + 1;
        assert(text::texts(out@) =~= front + all.subrange(n as int, i as int));
    }
    assert(all.subrange(n as int, all.len() as int) =~= all.skip(n as int));
    proof {
        reveal_strlit("\n");
        assert("\n"@ =~= seq!['\n']);
    }
    Ok(words::join(out.as_slice(), "\n"))
}

// ---- signing -------------------------------------------------------------------

/// The key that signs a source, or why the source is not signed here: a leaf is signed when it is
/// compiled, and a key must be named.
pub fn sign_check(
    file: &str,
    arg: &str,
    leaf: bool,
    name: &Option<String>,
    key: &Option<String>,
) -> (r: Result<String, String>)
    ensures
        if leaf {
            r matches Err(m) && m@ == file@
                + " is a leaf policy, not a template — sign it by compiling it: `kennel policy compile "@
                + (match layout::opt(*name) {
                Some(n) => n,
                None => arg@,
            }) + " --key <key>`"@
        } else {
            match layout::opt(*key) {
                Some(k) => r matches Ok(s) && s@ == k,
                None => r matches Err(m) && m@ == "template sign needs --key <name-or-path>"@,
            }
        },
{
    if leaf {
        return Err(
            concat4(
                file,
                " is a leaf policy, not a template — sign it by compiling it: `kennel policy compile ",
                match name {
                    Some(n) => n.as_str(),
                    None => arg,
                },
                " --key <key>`",
            ),
        );
    }
    match key {
        Some(k) => Ok(k.clone()),
        None => Err("template sign needs --key <name-or-path>".to_owned()),
    }
}

/// What is said of a source that is signed already.
pub fn already_signed_text(file: &str) -> (r: String)
    ensures
        r@ == file@ + " already carries a [signature]; remove it before re-signing"@,
{
    concat2(file, " already carries a [signature]; remove it before re-signing")
}

/// `s` on one line: a backslash before every backslash, and `\n` for every line feed.
pub open spec fn one_line(s: Seq<char>) -> Seq<char>
    decreases s.len(),
{
    if s.len() == 0 {
        seq![]
    } else {
        let c = s.last();
        one_line(s.drop_last()) + if c == '\\' {
            seq!['\\', '\\']
        } else if c == '\n' {
            seq!['\\', 'n']
        } else {
            seq![c]
        }
    }
}

fn to_one_line(s: &str) -> (r: String)
    ensures
        r@ == one_line(s@),
{
    let cs = chars_of(s);
    let mut r = String::new();
    let mut i: usize = 0;
    assert(cs@.take(0) =~= seq![]);
    while i < cs.len()
        invariant
            i <= cs@.len(),
            cs@ == s@,
            r@ == one_line(cs@.take(i as int)),
        decreases cs@.len() - i,
    {
        proof {
            assert(cs@.take(i + 1).drop_last() =~= cs@.take(i as int));
            assert(cs@.take(i + 1).last() == cs@[i as int]);
        }
        let ghost before = r@;
        if cs[i] == '\\' {
            r.push('\\');
            r.push('\\');
            assert(r@ =~= before + seq!['\\', '\\']);
        } else if cs[i] == '\n' {
            r.push('\\');
            r.push('n');
            assert(r@ =~= before + seq!['\\', 'n']);
        } else {
            r.push(cs[i]);
            assert(r@ =~= before + seq![cs@[i as int]]);
        }
        i = i + 1;
    }
    assert(cs@.take(cs@.len() as int) =~= cs@);
    r
}

/// The block that signs a source, behind it.
pub open spec fn block(key_id: Seq<char>, armor: Seq<char>) -> Seq<char> {
    "\n[signature]\n"@ + ("algorithm = \"sshsig\""@ + "\n"@ + ("key_id = \""@ + key_id + "\""@ + "\n"@
        + ("signature = \""@ + one_line(armor) + "\""@ + "\n"@)))
}

/// The block that signs a source, which goes behind it.
pub fn signature_block(key_id: &str, armor: &str) -> (r: String)
    ensures
        r@ == block(key_id@, armor@),
{
    let one = to_one_line(armor);
    let c = concat4("signature = \"", one.as_str(), "\"", "\n");
    let b = concat5("key_id = \"", key_id, "\"", "\n", c.as_str());
    let a = concat3("algorithm = \"sshsig\"", "\n", b.as_str());
    let r = concat2("\n[signature]\n", a.as_str());
    proof {
        assert("key_id = \""@ + key_id@ + "\""@ + "\n"@ + c@ =~= "key_id = \""@ + key_id@ + "\""@
            + "\n"@ + ("signature = \""@ + one_line(armor@) + "\""@ + "\n"@));
        assert(r@ =~= block(key_id@, armor@));
    }
    r
}

/// Where `p` stands last in `s`.
pub open spec fn find_last(s: Seq<char>, p: Seq<char>) -> Option<int>
    decreases s.len(),
{
    if p.is_suffix_of(s) {
        Some(s.len() - p.len())
    } else if s.len() == 0 {
        None
    } else {
        find_last(s.drop_last(), p)
    }
}

/// Where the signing block of a source starts: behind the line feed before its last header, or at
/// the front.
pub open spec fn block_start(s: Seq<char>) -> Option<int> {
    match find_last(s, "\n[signature]\n"@) {
        Some(i) => Some(i + 1),
        None => if "[signature]\n"@.is_prefix_of(s) {
            Some(0)
        } else {
            None
        },
    }
}

/// Whether a line may stand in a signing block: empty, or one of its three assignments.
pub open spec fn block_line(l: Seq<char>) -> bool {
    words::trim(l).len() == 0 || "algorithm = "@.is_prefix_of(l) || "key_id = "@.is_prefix_of(l)
        || "signature = "@.is_prefix_of(l)
}

/// Whether there is nothing but the signing block.
pub open spec fn pure_block(tail: Seq<char>) -> bool {
    forall|i: int|
        1 <= i < words::lines(tail).len() ==> block_line(#[trigger] words::lines(tail)[i])
}

/// A source without its signing block, or why it cannot be taken off.
pub open spec fn stripped(s: Seq<char>) -> Result<Seq<char>, Seq<char>> {
    match block_start(s) {
        None => Err("carries no [signature] block to replace"@),
        Some(i) => if pure_block(s.skip(i)) {
            Ok(s.take(i))
        } else {
            Err(
                "its [signature] is not the appended-last block `template sign` writes — remove it by hand and re-sign"@,
            )
        },
    }
}

proof fn lemma_find_last(s: Seq<char>, p: Seq<char>, i: int)
    requires
        0 <= i,
        i + p.len() <= s.len(),
        p.is_prefix_of(s.skip(i)),
        forall|j: int| i < j <= s.len() - p.len() ==> !p.is_prefix_of(#[trigger] s.skip(j)),
    ensures
        find_last(s, p) == Some(i),
    decreases s.len(),
{
    let n = s.len() - p.len();
    if i == n {
        assert(s.skip(i).subrange(0, p.len() as int) =~= s.subrange(n, s.len() as int));
        assert(p.is_suffix_of(s));
    } else {
        if p.is_suffix_of(s) {
            assert(s.skip(n).subrange(0, p.len() as int) =~= s.subrange(n, s.len() as int));
            assert(p.is_prefix_of(s.skip(n)));
        }
        let t = s.drop_last();
        assert(t.skip(i).subrange(0, p.len() as int) =~= s.skip(i).subrange(0, p.len() as int));
        assert forall|j: int| i < j <= t.len() - p.len() implies !p.is_prefix_of(
            #[trigger] t.skip(j),
        ) by {
            assert(!p.is_prefix_of(s.skip(j)));
            assert(t.skip(j).subrange(0, p.len() as int) =~= s.skip(j).subrange(0, p.len() as int));
        }
        lemma_find_last(t, p, i);
    }
}

proof fn lemma_find_none(s: Seq<char>, p: Seq<char>)
    requires
        forall|j: int| 0 <= j <= s.len() - p.len() ==> !p.is_prefix_of(#[trigger] s.skip(j)),
    ensures
        find_last(s, p) is None,
    decreases s.len(),
{
    let n = s.len() - p.len();
    if p.is_suffix_of(s) {
        assert(s.skip(n).subrange(0, p.len() as int) =~= s.subrange(n, s.len() as int));
        assert(p.is_prefix_of(s.skip(n)));
    }
    if s.len() > 0 {
        let t = s.drop_last();
        assert forall|j: int| 0 <= j <= t.len() - p.len() implies !p.is_prefix_of(
            #[trigger] t.skip(j),
        ) by {
            assert(!p.is_prefix_of(s.skip(j)));
            assert(t.skip(j).subrange(0, p.len() as int) =~= s.skip(j).subrange(0, p.len() as int));
        }
        lemma_find_none(t, p);
    }
}

fn find_text_last(a: &[char], p: &[char]) -> (r: Option<usize>)
    requires
        p@.len() > 0,
    ensures
        match r {
            Some(i) => find_last(a@, p@) == Some(i as int) && i + p@.len() <= a@.len(),
            None => find_last(a@, p@) is None,
        },
{
    if p.len() > a.len() {
        proof {
            lemma_find_none(a@, p@);
        }
        return None;
    }
    let mut i: usize = a.len() - p.len() + 1;
    while i > 0
        invariant
            0 < p@.len() <= a@.len(),
            i <= a@.len() - p@.len() + 1,
            forall|j: int| i <= j <= a@.len() - p@.len() ==> !p@.is_prefix_of(#[trigger] a@.skip(j)),
        decreases i,
    {
        i = i - 1;
        if matches_at(a, i, p) {
            proof {
                lemma_find_last(a@, p@, i as int);
            }
            return Some(i);
        }
    }
    proof {
        lemma_find_none(a@, p@);
    }
    None
}

fn is_block_line(l: &str) -> (r: bool)
    ensures
        r == block_line(l@),
{
    words::trimmed(l).unicode_len() == 0 || starts_with(l, "algorithm = ") || starts_with(
        l,
        "key_id = ",
    ) || starts_with(l, "signature = ")
}

/// A source without its signing block, or why it cannot be taken off: there must be one, with
/// nothing behind it.
pub fn strip_signature(source: &str) -> (r: Result<String, String>)
    ensures
        match stripped(source@) {
            Ok(s) => r matches Ok(t) && t@ == s,
            Err(e) => r matches Err(m) && m@ == e,
        },
{
    let cs = chars_of(source);
    let header = chars_of("\n[signature]\n");
    proof {
        reveal_strlit("\n[signature]\n");
    }
    let start: usize = match find_text_last(cs.as_slice(), header.as_slice()) {
        Some(i) => {
            let n: usize = cs.len();
            assert(i < n);
            i + 1
        },
        None => {
            if !starts_with(source, "[signature]\n") {
                return Err("carries no [signature] block to replace".to_owned());
            }
            0
        },
    };
    let tail = text_of(cs.as_slice(), start, cs.len());
    assert(tail@ =~= source@.skip(start as int));
    let lines = words::lines_of(tail.as_str());
    let ghost ls = words::lines(tail@);
    let mut i: usize = 1;
    while i < lines.len()
        invariant
            1 <= i,
            text::texts(lines@) == ls,
            ls == words::lines(source@.skip(start as int)),
            block_start(source@) == Some(start as int),
            forall|j: int| 1 <= j < i && j < ls.len() ==> block_line(#[trigger] ls[j]),
        decreases lines@.len() - i,
    {
        assert(ls[i as int] == lines@[i as int]@);
        if !is_block_line(lines[i].as_str()) {
            assert(!block_line(ls[i as int]));
            return Err(
                "its [signature] is not the appended-last block `template sign` writes — remove it by hand and re-sign".to_owned(),
            );
        }
        i = i + 1;
    }
    proof {
        assert(ls.len() == lines@.len());
        assert(pure_block(source@.skip(start as int)));
    }
    let head = text_of(cs.as_slice(), 0, start);
    assert(head@ =~= source@.take(start as int));
    Ok(head)
}

/// Whether no line of `s` but the first starts with `[`.
pub open spec fn no_header_below(s: Seq<char>) -> bool {
    forall|k: int| 0 <= k < s.len() - 1 && #[trigger] s[k] == '\n' ==> s[k + 1] != '['
}

proof fn lemma_no_header(a: Seq<char>, b: Seq<char>)
    requires
        no_header_below(a),
        no_header_below(b),
        b.len() > 0 ==> b[0] != '[',
    ensures
        no_header_below(a + b),
{
    let s = a + b;
    assert forall|k: int| 0 <= k < s.len() - 1 && #[trigger] s[k] == '\n' implies s[k + 1] != '[' by {
        if k < a.len() {
            assert(s[k] == a[k]);
            if k + 1 < a.len() {
                assert(s[k + 1] == a[k + 1]);
            } else {
                assert(s[k + 1] == b[0]);
            }
        } else {
            assert(s[k] == b[k - a.len()]);
            assert(s[k + 1] == b[k + 1 - a.len()]);
        }
    }
}

proof fn lemma_one_line(s: Seq<char>)
    ensures
        !one_line(s).contains('\n'),
    decreases s.len(),
{
    if s.len() > 0 {
        lemma_one_line(s.drop_last());
        let a = one_line(s.drop_last());
        let c = s.last();
        let b: Seq<char> = if c == '\\' {
            seq!['\\', '\\']
        } else if c == '\n' {
            seq!['\\', 'n']
        } else {
            seq![c]
        };
        assert(one_line(s) == a + b);
        if (a + b).contains('\n') {
            let k = choose|k: int| 0 <= k < (a + b).len() && (a + b)[k] == '\n';
            if k < a.len() {
                assert(a[k] == '\n');
                assert(a.contains('\n'));
            } else {
                assert(b[k - a.len()] == '\n');
            }
        }
    }
}

/// The lines of a line without line feed and what follows.
proof fn lemma_lines_front(l: Seq<char>, rest: Seq<char>)
    requires
        !l.contains('\n'),
    ensures
        words::lines(l + "\n"@ + rest) == seq![words::without_cr(l)] + words::lines(rest),
{
    reveal_strlit("\n");
    let s = l + "\n"@ + rest;
    assert forall|j: int| 0 <= j < l.len() implies s[j] != '\n' by {
        assert(s[j] == l[j]);
        assert(l.contains(l[j]));
    }
    assert(s[l.len() as int] == '\n');
    text::lemma_until_is(s, '\n', l.len() as int);
    assert(s.take(l.len() as int) =~= l);
    assert(s.skip(l.len() as int + 1) =~= rest);
}

proof fn lemma_prefix_line(lead: Seq<char>, mid: Seq<char>)
    requires
        !lead.contains('\n'),
        !mid.contains('\n'),
    ensures
        ({
            let l = lead + mid + "\""@;
            &&& !l.contains('\n')
            &&& words::without_cr(l) == l
            &&& lead.is_prefix_of(l)
        }),
{
    reveal_strlit("\"");
    let l = lead + mid + "\""@;
    assert(l.last() == '"');
    assert(l.subrange(0, lead.len() as int) =~= lead);
    if l.contains('\n') {
        let k = choose|k: int| 0 <= k < l.len() && l[k] == '\n';
        if k < lead.len() {
            assert(lead[k] == '\n');
        } else if k < lead.len() + mid.len() {
            assert(mid[k - lead.len()] == '\n');
        } else {
            assert(l[k] == '"');
        }
    }
}

proof fn lemma_own_block_is_pure(key_id: Seq<char>, armor: Seq<char>)
    requires
        !key_id.contains('\n'),
    ensures
        pure_block(block(key_id, armor).skip(1)),
{
    let one = one_line(armor);
    lemma_one_line(armor);
    reveal_strlit("\n[signature]\n");
    reveal_strlit("\n");
    reveal_strlit("[signature]");
    reveal_strlit("algorithm = \"sshsig\"");
    reveal_strlit("algorithm = ");
    reveal_strlit("key_id = \"");
    reveal_strlit("key_id = ");
    reveal_strlit("signature = \"");
    reveal_strlit("signature = ");
    let l2 = "key_id = \""@ + key_id + "\""@;
    let l3 = "signature = \""@ + one + "\""@;
    let r3 = l3 + "\n"@;
    let r2 = l2 + "\n"@ + r3;
    let r1 = "algorithm = \"sshsig\""@ + "\n"@ + r2;
    let tail = "[signature]"@ + "\n"@ + r1;
    assert(block(key_id, armor) =~= "\n[signature]\n"@ + r1);
    assert(block(key_id, armor).skip(1) =~= tail);
    lemma_prefix_line("key_id = \""@, key_id);
    lemma_prefix_line("signature = \""@, one);
    assert(r3 =~= l3 + "\n"@ + seq![]);
    lemma_lines_front(l3, seq![]);
    lemma_lines_front(l2, r3);
    lemma_lines_front("algorithm = \"sshsig\""@, r2);
    lemma_lines_front("[signature]"@, r1);
    assert(words::lines(seq![]) =~= seq![]);
    let all = words::lines(tail);
    assert(all =~= seq!["[signature]"@, "algorithm = \"sshsig\""@, l2, l3]);
    assert("algorithm = "@.is_prefix_of("algorithm = \"sshsig\""@));
    assert("key_id = "@.is_prefix_of(l2)) by {
        assert(l2.subrange(0, "key_id = "@.len() as int) =~= "key_id = "@);
    }
    assert("signature = "@.is_prefix_of(l3)) by {
        assert(l3.subrange(0, "signature = "@.len() as int) =~= "signature = "@);
    }
    assert forall|i: int| 1 <= i < all.len() implies block_line(#[trigger] all[i]) by {
        assert(all[1] == "algorithm = \"sshsig\""@);
        assert(all[2] == l2);
        assert(all[3] == l3);
    }
}

proof fn lemma_block_has_one_header(key_id: Seq<char>, armor: Seq<char>)
    requires
        !key_id.contains('\n'),
    ensures
        no_header_below(block(key_id, armor).skip(1)),
{
    let one = one_line(armor);
    lemma_one_line(armor);
    reveal_strlit("\n[signature]\n");
    reveal_strlit("[signature]\n");
    reveal_strlit("algorithm = \"sshsig\"");
    reveal_strlit("\n");
    reveal_strlit("\"");
    reveal_strlit("\"\n");
    reveal_strlit("key_id = \"");
    reveal_strlit("signature = \"");
    let head = "[signature]\n"@;
    let r1 = "algorithm = \"sshsig\""@ + "\n"@;
    let r2 = "key_id = \""@ + key_id + "\""@ + "\n"@;
    let r3 = "signature = \""@ + one + "\""@ + "\n"@;
    assert(block(key_id, armor).skip(1) =~= head + r1 + r2 + r3);
    assert(no_header_below(r2)) by {
        assert forall|k: int| 0 <= k < r2.len() - 1 && #[trigger] r2[k] == '\n' implies r2[k + 1]
            != '[' by {
            if 10 <= k < 10 + key_id.len() {
                assert(key_id[k - 10] == '\n');
            }
        }
    }
    assert(no_header_below(r3)) by {
        assert forall|k: int| 0 <= k < r3.len() - 1 && #[trigger] r3[k] == '\n' implies r3[k + 1]
            != '[' by {
            if 13 <= k < 13 + one.len() {
                assert(one[k - 13] == '\n');
            }
        }
    }
    assert(no_header_below(head));
    assert(no_header_below(r1));
    lemma_no_header(head, r1);
    lemma_no_header(head + r1, r2);
    lemma_no_header(head + r1 + r2, r3);
}

/// Signing is undone by taking the block off: a source that was signed, with a key id on one line,
/// is given back, with the line feed that set the block apart.
pub proof fn law_strip_undoes_signing(source: Seq<char>, key_id: Seq<char>, armor: Seq<char>)
    requires
        !key_id.contains('\n'),
    ensures
        stripped(source + block(key_id, armor)) == Ok::<Seq<char>, Seq<char>>(source + seq!['\n']),
{
    let b = block(key_id, armor);
    let s = source + b;
    let p = "\n[signature]\n"@;
    let n = source.len() as int;
    reveal_strlit("\n[signature]\n");
    lemma_block_has_one_header(key_id, armor);
    lemma_own_block_is_pure(key_id, armor);
    assert(b.take(p.len() as int) =~= p);
    assert(s.skip(n) =~= b);
    assert(s.skip(n).subrange(0, p.len() as int) =~= p);
    assert(p.is_prefix_of(s.skip(n)));
    assert forall|j: int| n < j <= s.len() - p.len() implies !p.is_prefix_of(#[trigger] s.skip(j)) by {
        let t = b.skip(1);
        let k = j - n - 1;
        if p.is_prefix_of(s.skip(j)) {
            assert(s.skip(j)[0] == p[0]);
            assert(s.skip(j)[1] == p[1]);
            assert(s.skip(j)[0] == s[j] && s[j] == b[j - n] && b[j - n] == t[k]);
            assert(s.skip(j)[1] == s[j + 1] && s[j + 1] == b[j + 1 - n] && b[j + 1 - n] == t[k + 1]);
            assert(t[k] == '\n' && t[k + 1] == '[');
        }
    }
    lemma_find_last(s, p, n);
    assert(s.skip(n + 1) =~= b.skip(1));
    assert(s.take(n + 1) =~= source + seq!['\n']);
}

// ---- what holds of the whole ----------------------------------------------------

/// Whether a key of the level may sign a name that is reserved for the level `required`: the
/// vendor's is signed by the vendor alone, the host's by the host and the vendor.
pub open spec fn may_sign(at: Tier, required: Option<Tier>) -> bool {
    ||| required is None
    ||| required == Some(Tier::User)
    ||| required == Some(Tier::Host) && at != Tier::User
    ||| required == Some(Tier::Vendor) && at == Tier::Vendor
}

/// Whether a name is provided that a key of the level may not sign.
pub open spec fn is_barred(ps: Seq<Provided>, at: Tier, name: Seq<char>) -> bool {
    exists|i: int|
        0 <= i < ps.len() && !may_sign(at, (#[trigger] ps[i]).required) && ps[i].name@ == name
}

pub proof fn lemma_violations(ps: Seq<Provided>, at: Tier)
    ensures
        forall|i: int|
            0 <= i < ps.len() && !may_sign(at, (#[trigger] ps[i]).required) ==> violations(
                ps,
                at,
            ).contains(ps[i].name@),
        forall|k: int|
            0 <= k < violations(ps, at).len() ==> is_barred(ps, at, #[trigger] violations(ps, at)[k]),
    decreases ps.len(),
{
    if ps.len() > 0 {
        let front = ps.drop_last();
        lemma_violations(front, at);
        let v = violations(ps, at);
        let w = violations(front, at);
        assert forall|i: int|
            0 <= i < ps.len() && !may_sign(at, (#[trigger] ps[i]).required) implies v.contains(
            ps[i].name@,
        ) by {
            if i < front.len() {
                assert(front[i] == ps[i]);
                assert(w.contains(ps[i].name@));
                let k = choose|k: int| 0 <= k < w.len() && w[k] == ps[i].name@;
                assert(v[k] == w[k]);
            } else {
                assert(v.last() == ps[i].name@);
            }
        }
        assert forall|k: int| 0 <= k < v.len() implies is_barred(ps, at, #[trigger] v[k]) by {
            if k < w.len() {
                assert(w[k] == v[k]);
                let i = choose|i: int|
                    0 <= i < front.len() && !may_sign(at, (#[trigger] front[i]).required)
                        && front[i].name@ == w[k];
                assert(ps[i] == front[i]);
            } else {
                assert(ps[ps.len() - 1].name@ == v[k]);
            }
        }
    }
}

/// A key signs the names that its level has authority over, and no others: every name above its
/// level is told, and nothing else is.
pub proof fn law_reserved_names_are_signed_by_their_own(
    provides: &[Provided],
    declaring: Tier,
    out: Vec<String>,
)
    requires
        call_ensures(reserved_violations, (provides, declaring), out),
    ensures
        forall|i: int|
            0 <= i < provides@.len() && !may_sign(declaring, (#[trigger] provides@[i]).required)
                ==> text::texts(out@).contains(provides@[i].name@),
        forall|k: int|
            0 <= k < text::texts(out@).len() ==> is_barred(
                provides@,
                declaring,
                #[trigger] text::texts(out@)[k],
            ),
{
    lemma_violations(provides@, declaring);
}

/// Whether a source may be installed at the level: it names nothing that is reserved for another.
pub open spec fn signable(s: SourceMeta, host: bool) -> bool {
    forall|i: int|
        0 <= i < s.provides@.len() ==> may_sign(
            if host {
                Tier::Host
            } else {
                Tier::User
            },
            (#[trigger] s.provides@[i]).required,
        )
}

/// What is installed is source with a name, of the house that it is installed in, with names that its
/// level may sign, by root where it goes to the host; and what is all that is installed, under its
/// own name: the template's first.
pub proof fn law_only_fitting_source_is_installed(
    house: House,
    file: &str,
    host: bool,
    facts: &InstallFacts,
    s: SourceMeta,
    r: Result<InstallTarget, String>,
)
    requires
        call_ensures(install_check, (house, file, host, facts), r),
        facts.source == Ok::<SourceMeta, String>(s),
    ensures
        facts.settled ==> r is Err,
        host && !facts.root ==> r is Err,
        !signable(s, host) ==> r is Err,
        house == House::Policy && s.template_name is Some ==> r is Err,
        house == House::Template && s.template_name is None && s.leaf ==> r is Err,
        s.template_name is None && s.name is None ==> r is Err,
        r matches Ok(t) ==> (s.template_name matches Some(n) ==> t.name@ == n@),
        r matches Ok(t) ==> (s.template_name is None ==> (s.name matches Some(n) && t.name@ == n@)),
        r matches Ok(t) ==> !t.name@.contains('/') && t.name@.len() > 0,
        r matches Ok(t) ==> (t.name@ != seq!['.'] ==> path::file_name_of(t.dest@) == Some(t.name@)),
        r matches Ok(t) ==> (host ==> "/etc/kennel/"@.is_prefix_of(t.dest@)),
        r matches Ok(t) ==> (!host ==> facts.user_key_dir is Some),
{
    lemma_violations(
        s.provides@,
        if host {
            Tier::Host
        } else {
            Tier::User
        },
    );
    let at = if host {
        Tier::Host
    } else {
        Tier::User
    };
    if !signable(s, host) {
        let i = choose|i: int|
            0 <= i < s.provides@.len() && !may_sign(at, (#[trigger] s.provides@[i]).required);
        assert(violations(s.provides@, at).contains(s.provides@[i].name@));
    }
    if let Ok(t) = r {
        let root = repo_root(house, host, layout::opt(facts.user_key_dir))->0;
        if t.name@ != seq!['.'] {
            shared::law_policy_name_is_a_component(root, t.name@);
        }
        if host {
            reveal_strlit("/etc/kennel");
            reveal_strlit("/etc/kennel/");
            reveal_strlit("policies");
            reveal_strlit("templates");
            let base = path::joined("/etc/kennel"@, house.leaf_text());
            assert(base =~= "/etc/kennel/"@ + house.leaf_text());
            assert(!path::rooted(t.name@)) by {
                if path::rooted(t.name@) {
                    assert(t.name@[0] == '/');
                }
            }
            assert(t.dest@.subrange(0, "/etc/kennel/"@.len() as int) =~= "/etc/kennel/"@);
        }
    }
}

/// A source that fits is installed: one that is a policy or fragment of its own name, that reserves
/// nothing, by a user with a key directory or by root.
pub proof fn law_fitting_source_is_installed(
    house: House,
    file: &str,
    host: bool,
    facts: &InstallFacts,
    s: SourceMeta,
    r: Result<InstallTarget, String>,
)
    requires
        call_ensures(install_check, (house, file, host, facts), r),
        facts.source == Ok::<SourceMeta, String>(s),
        !facts.settled,
        signable(s, host),
        (house == House::Policy && s.template_name is None) || (house == House::Template && (
        s.template_name is Some || !s.leaf)),
        match s.template_name {
            Some(n) => shared::names_policy(n@),
            None => s.name matches Some(n) && shared::names_policy(n@),
        },
        host ==> facts.root,
        !host ==> (facts.user_key_dir matches Some(d) && path::parent_of(d@) is Some),
    ensures
        r is Ok,
{
    let at = if host {
        Tier::Host
    } else {
        Tier::User
    };
    lemma_violations(s.provides@, at);
    let v = violations(s.provides@, at);
    if v.len() > 0 {
        assert(v[0] == v[0]);
        let i = choose|i: int|
            0 <= i < s.provides@.len() && !may_sign(at, (#[trigger] s.provides@[i]).required)
                && s.provides@[i].name@ == v[0];
        assert(false);
    }
}

/// An object that is there is replaced by force alone; where none is, nothing stands in the way.
pub proof fn law_force_alone_replaces(target: &InstallTarget, there: bool, force: bool, r: Option<String>)
    requires
        call_ensures(collision, (target, there, force), r),
    ensures
        r is Some <==> (there && !force),
{
}

/// A key that is named signs; else the host's signs at the host level, where it is there, and none is
/// named at the user's.
pub proof fn law_named_key_signs(
    key: &Option<String>,
    host: bool,
    trust_dir: &str,
    there: bool,
    r: Result<Option<String>, String>,
)
    requires
        call_ensures(install_key, (key, host, trust_dir, there), r),
    ensures
        key matches Some(k) ==> r matches Ok(Some(n)) && n@ == k@,
        key is None && !host ==> r matches Ok(None),
        key is None && host ==> (r is Ok <==> there),
        key is None && host && there ==> (r matches Ok(Some(n)) && path::file_name_of(n@) == Some(
            "kennel-host"@,
        )),
{
    reveal_strlit("kennel-host");
    if key is None && host && there {
        let n = "kennel-host"@;
        assert(!n.contains('/'));
        path::law_join_file_name(trust_dir@, n);
    }
}

/// A leaf is signed by compiling it, and nothing else is.
pub proof fn law_leaves_are_compiled(meta: &SourceMeta, r: SignStep)
    requires
        call_ensures(sign_step, (meta,), r),
    ensures
        r == SignStep::Compile <==> (meta.leaf && meta.template_name is None),
        r == SignStep::Source <==> !(meta.leaf && meta.template_name is None),
{
}

/// What is cloned is named rather than given as a path, has a valid new name, and names nothing that
/// a user's key may not sign.
pub proof fn law_only_user_names_are_cloned(
    house: House,
    name: &str,
    target: &str,
    provides: &[Provided],
    r: Option<String>,
)
    requires
        call_ensures(clone_refusal, (house, name, target, provides), r),
    ensures
        name@.contains('/') ==> r is Some,
        target@.len() == 0 || target@.contains('/') ==> r is Some,
        (exists|i: int|
            0 <= i < provides@.len() && !may_sign(Tier::User, (#[trigger] provides@[i]).required))
            ==> r is Some,
        !name@.contains('/') && shared::names_policy(target@) && (forall|i: int|
            0 <= i < provides@.len() ==> may_sign(Tier::User, (#[trigger] provides@[i]).required))
            ==> r is None,
{
    lemma_violations(provides@, Tier::User);
    let v = violations(provides@, Tier::User);
    if v.len() > 0 {
        assert(v[0] == v[0]);
        let i = choose|i: int|
            0 <= i < provides@.len() && !may_sign(Tier::User, (#[trigger] provides@[i]).required)
                && provides@[i].name@ == v[0];
        assert(!may_sign(Tier::User, provides@[i].required));
    }
    if exists|i: int|
        0 <= i < provides@.len() && !may_sign(Tier::User, (#[trigger] provides@[i]).required) {
        let i = choose|i: int|
            0 <= i < provides@.len() && !may_sign(Tier::User, (#[trigger] provides@[i]).required);
        assert(v.contains(provides@[i].name@));
    }
}

proof fn lemma_one_identity(lines: Seq<Seq<char>>) -> (i: int)
    requires
        identities(lines) == 1,
    ensures
        0 <= i < lines.len(),
        identity_field(lines[i]) is Some,
        forall|j: int| 0 <= j < lines.len() && j != i ==> identity_field(#[trigger] lines[j]) is None,
    decreases lines.len(),
{
    let front = lines.drop_last();
    if identity_field(lines.last()) is Some {
        lemma_no_identity(front);
        assert forall|j: int| 0 <= j < lines.len() && j != lines.len() - 1 implies identity_field(
            #[trigger] lines[j],
        ) is None by {
            assert(front[j] == lines[j]);
        }
        lines.len() - 1
    } else {
        let i = lemma_one_identity(front);
        assert(front[i] == lines[i]);
        assert forall|j: int| 0 <= j < lines.len() && j != i implies identity_field(
            #[trigger] lines[j],
        ) is None by {
            if j < front.len() {
                assert(front[j] == lines[j]);
            }
        }
        i
    }
}

proof fn lemma_no_identity(lines: Seq<Seq<char>>)
    requires
        identities(lines) == 0,
    ensures
        forall|j: int| 0 <= j < lines.len() ==> identity_field(#[trigger] lines[j]) is None,
    decreases lines.len(),
{
    if lines.len() > 0 {
        let front = lines.drop_last();
        lemma_no_identity(front);
        assert forall|j: int| 0 <= j < lines.len() implies identity_field(#[trigger] lines[j]) is None by {
            if j < front.len() {
                assert(front[j] == lines[j]);
            }
        }
    }
}

proof fn lemma_top_level(lines: Seq<Seq<char>>)
    ensures
        0 <= top_level(lines) <= lines.len(),
        forall|j: int|
            0 <= j < top_level(lines) ==> !((#[trigger] lines[j]).len() > 0 && lines[j][0] == '['),
    decreases lines.len(),
{
    if !(lines.len() == 0 || (lines[0].len() > 0 && lines[0][0] == '[')) {
        let rest = lines.drop_first();
        lemma_top_level(rest);
        assert forall|j: int| 0 <= j < top_level(lines) implies !((#[trigger] lines[j]).len() > 0
            && lines[j][0] == '[') by {
            if j > 0 {
                assert(rest[j - 1] == lines[j]);
            }
        }
    }
}

/// Renaming changes one line, before all tables, which gives the name afterwards, and leaves every
/// other line as it was.
pub proof fn law_renaming_changes_the_name_alone(
    source: &str,
    target: &str,
    r: Result<String, String>,
    new: String,
) -> (i: int)
    requires
        call_ensures(rename_source_object, (source, target), r),
        r == Ok::<String, String>(new),
        !target@.contains('\n'),
    ensures
        ({
            let before = words::pieces(source@, '\n');
            let after = words::pieces(new@, '\n');
            &&& 0 <= i < before.len()
            &&& before.len() == after.len()
            &&& forall|j: int| 0 <= j < before.len() && j != i ==> #[trigger] after[j] == before[j]
            &&& forall|j: int|
                0 <= j <= i ==> !((#[trigger] before[j]).len() > 0 && before[j][0] == '[')
            &&& words::trim(after[i]) == "name = \""@ + target@ + "\""@ || words::trim(after[i])
                == "template_name = \""@ + target@ + "\""@
        }),
{
    let lines = words::pieces(source@, '\n');
    let n = top_level(lines);
    let head = lines.take(n);
    lemma_top_level(lines);
    let i = lemma_one_identity(head);
    let f = identity_field(head[i])->0;
    let end: Seq<char> = if head[i].len() > 0 && head[i].last() == '\r' {
        seq!['\r']
    } else {
        seq![]
    };
    let core = f + " = \""@ + target@ + "\""@;
    let new_lines = renamed(head, target@) + lines.skip(n);
    let after = lines.update(i, core + end);
    assert(new_lines =~= after) by {
        assert forall|j: int| 0 <= j < lines.len() implies new_lines[j] == after[j] by {
            if j < n {
                assert(head[j] == lines[j]);
            }
        }
    }
    reveal_strlit(" = \"");
    reveal_strlit("\"");
    reveal_strlit("name");
    reveal_strlit("template_name");
    reveal_strlit("name = \"");
    reveal_strlit("template_name = \"");
    words::lemma_pieces_free(source@, '\n');
    assert forall|j: int| 0 <= j < after.len() implies !(#[trigger] after[j]).contains('\n') by {
        if j == i {
            let l = core + end;
            assert forall|k: int| 0 <= k < l.len() implies l[k] != '\n' by {
                if f.len() + 4 <= k < f.len() + 4 + target@.len() {
                    assert(l[k] == target@[k - f.len() - 4]);
                }
            }
        } else {
            assert(after[j] == lines[j]);
        }
    }
    assert(lines.len() >= 1);
    words::law_join_pieces(after, '\n');
    assert(words::pieces(new@, '\n') == after);
    assert(core[0] == 'n' || core[0] == 't');
    assert(core.last() == '"');
    lemma_ended(core);
    if end.len() > 0 {
        assert(core + end =~= core.push('\r'));
        words::lemma_trim_with_white(core, '\r');
    } else {
        assert(core + end =~= core);
    }
    assert(core =~= "name = \""@ + target@ + "\""@ || core =~= "template_name = \""@ + target@ + "\""@);
    i
}

/// A text between two characters that are not white is trimmed already.
proof fn lemma_ended(s: Seq<char>)
    requires
        s.len() > 0,
        s[0] == 'n' || s[0] == 't',
        s.last() == '"',
    ensures
        words::trim(s) == s,
{
    assert(!text::is_white('n') && !text::is_white('t') && !text::is_white('"'));
    assert(words::trim_front(s) == s);
    assert(words::trim_back(s) == s);
}

/// A source is signed under the key that is named, and a leaf under none.
pub proof fn law_source_is_signed_with_the_named_key(
    file: &str,
    arg: &str,
    leaf: bool,
    name: &Option<String>,
    key: &Option<String>,
    r: Result<String, String>,
)
    requires
        call_ensures(sign_check, (file, arg, leaf, name, key), r),
    ensures
        r is Ok <==> (!leaf && key is Some),
        r matches Ok(k) ==> key matches Some(n) && k@ == n@,
{
}

/// A text read back: `\n` is a line feed, and a backslash before anything else stands for that.
pub open spec fn read_back(s: Seq<char>) -> Seq<char>
    decreases s.len(),
{
    if s.len() == 0 {
        seq![]
    } else if s[0] == '\\' && s.len() > 1 {
        seq![
            if s[1] == 'n' {
                '\n'
            } else {
                s[1]
            },
        ] + read_back(s.skip(2))
    } else {
        seq![s[0]] + read_back(s.skip(1))
    }
}

proof fn lemma_read_back(a: Seq<char>, t: Seq<char>)
    ensures
        read_back(one_line(a) + t) == a + read_back(t),
    decreases a.len(),
{
    if a.len() == 0 {
        assert(one_line(a) + t =~= t);
        assert(a + read_back(t) =~= read_back(t));
    } else {
        let c = a.last();
        let e: Seq<char> = if c == '\\' {
            seq!['\\', '\\']
        } else if c == '\n' {
            seq!['\\', 'n']
        } else {
            seq![c]
        };
        let front = a.drop_last();
        assert(one_line(a) + t =~= one_line(front) + (e + t));
        lemma_read_back(front, e + t);
        assert((e + t).skip(e.len() as int) =~= t);
        assert(read_back(e + t) =~= seq![c] + read_back(t));
        assert(front + (seq![c] + read_back(t)) =~= a + read_back(t));
    }
}

/// The block that signs a source names the key and holds the signature, on one line, which reads back
/// as it was made.
pub proof fn law_block_holds_key_and_signature(key_id: &str, armor: &str, r: String) -> (one: Seq<char>)
    requires
        call_ensures(signature_block, (key_id, armor), r),
    ensures
        "\n[signature]\n"@.is_prefix_of(r@),
        text::holds(r@, "\nkey_id = \""@ + key_id@ + "\"\n"@),
        text::holds(r@, "\nsignature = \""@ + one + "\"\n"@),
        !one.contains('\n'),
        read_back(one) == armor@,
{
    let one = one_line(armor@);
    lemma_one_line(armor@);
    lemma_read_back(armor@, seq![]);
    assert(one + seq![] =~= one);
    assert(armor@ + read_back(seq![]) =~= armor@);
    reveal_strlit("\n[signature]\n");
    reveal_strlit("algorithm = \"sshsig\"");
    reveal_strlit("\n");
    reveal_strlit("\"");
    reveal_strlit("\"\n");
    reveal_strlit("key_id = \"");
    reveal_strlit("\nkey_id = \"");
    reveal_strlit("signature = \"");
    reveal_strlit("\nsignature = \"");
    let head = "\n[signature]\n"@ + "algorithm = \"sshsig\""@;
    let l2 = "\nkey_id = \""@ + key_id@ + "\"\n"@;
    let l3 = "signature = \""@ + one + "\"\n"@;
    assert(r@ =~= head + l2 + l3);
    text::lemma_holds(head, l2, l3);
    let h3 = head + "\nkey_id = \""@ + key_id@ + "\""@;
    let m3 = "\nsignature = \""@ + one + "\"\n"@;
    assert(r@ =~= h3 + m3 + seq![]);
    text::lemma_holds(h3, m3, seq![]);
    assert(r@.subrange(0, "\n[signature]\n"@.len() as int) =~= "\n[signature]\n"@);
    one
}

/// Taking a signing block off leaves the front of the source, and takes the block with its header.
pub proof fn law_stripping_takes_the_block_alone(source: &str, r: Result<String, String>)
    requires
        call_ensures(strip_signature, (source,), r),
    ensures
        r matches Ok(t) ==> t@.is_prefix_of(source@) && "[signature]\n"@.is_prefix_of(
            source@.skip(t@.len() as int),
        ),
        !text::holds(source@, "[signature]\n"@) ==> r is Err,
{
    let p = "\n[signature]\n"@;
    let q = "[signature]\n"@;
    reveal_strlit("\n[signature]\n");
    reveal_strlit("[signature]\n");
    lemma_found_last(source@, p);
    if let Some(i) = find_last(source@, p) {
        assert(source@.subrange(i + 1, i + 1 + q.len()) =~= q) by {
            assert(source@.subrange(i, i + p.len()) == p);
            assert forall|k: int| 0 <= k < q.len() implies source@[i + 1 + k] == q[k] by {
                assert(source@.subrange(i, i + p.len())[k + 1] == p[k + 1]);
            }
        }
        assert(source@.skip(i + 1).subrange(0, q.len() as int) =~= source@.subrange(
            i + 1,
            i + 1 + q.len(),
        ));
    } else if q.is_prefix_of(source@) {
        assert(source@.subrange(0int, 0int + q.len()) == q);
        assert(source@.skip(0) =~= source@);
    }
    if let Ok(t) = r {
        assert(source@.subrange(0, t@.len() as int) =~= t@);
    }
}

proof fn lemma_found_last(s: Seq<char>, p: Seq<char>)
    ensures
        find_last(s, p) matches Some(i) ==> 0 <= i <= s.len() - p.len() && s.subrange(
            i,
            i + p.len(),
        ) == p,
    decreases s.len(),
{
    if p.is_suffix_of(s) {
    } else if s.len() > 0 {
        let t = s.drop_last();
        lemma_found_last(t, p);
        if let Some(i) = find_last(t, p) {
            assert(s.subrange(i, i + p.len()) =~= t.subrange(i, i + p.len()));
        }
    }
}

} // verus!
