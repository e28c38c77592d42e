//! Installing and cloning, step by step: an object is placed, signed, and taken away again where
//! signing fails.

use super::ceremony;
use super::ceremony::{
    clone_refusal, collision, install_check, installed_lines, rename_source_object, rollback_text,
    sign_step, InstallFacts, InstallTarget, Provided, SignStep,
};
use super::policy::{House, InstallArgs};
use super::shared;
use crate::layout;
use crate::layout::push_line;
use crate::path;
use crate::path::join;
use crate::text;
use crate::text::{same, text_lossy};
use vstd::prelude::*;
use vstd::string::*;

verus! {

// ---- installing ----------------------------------------------------------------

/// Where an object is placed, and how it is signed there.
#[derive(Debug)]
pub struct Placement {
    /// What the file is installed as.
    pub target: InstallTarget,
    /// The file that its source is written to.
    pub placed: String,
    /// How it is signed.
    pub step: SignStep,
    /// Whether no object stands there yet.
    pub fresh: bool,
}

impl Placement {
    /// Whether the placement puts the object into its directory, signed as its kind is.
    pub open spec fn puts(self, name: Seq<char>, dest: Seq<char>, compiles: bool, there: bool) -> bool {
        &&& self.target.name@ == name
        &&& self.target.dest@ == dest
        &&& self.placed@ == path::joined(dest, "policy.toml"@)
        &&& self.step == (if compiles {
            SignStep::Compile
        } else {
            SignStep::Source
        })
        &&& self.fresh == !there
    }
}

/// What is said of an object that stands where another is to be placed.
pub open spec fn taken_text(name: Seq<char>, dest: Seq<char>) -> Seq<char> {
    "`"@ + name + "` already exists at "@ + dest + " — pass --force to replace it"@
}

/// Where the object in a file is placed, or why it is not: `is_there` tells whether its directory
/// is there already, and only force replaces what is.
pub fn install_object<F: Fn(&str) -> bool>(
    a: &InstallArgs,
    house: House,
    facts: &InstallFacts,
    is_there: &F,
) -> (r: Result<Placement, String>)
    requires
        forall|s: &str| call_requires(*is_there, (s,)),
    ensures
        match ceremony::install_outcome(house, a.file@, a.host, *facts) {
            Err(e) => r matches Err(m) && m@ == e,
            Ok(p) => match r {
                Ok(pl) => exists|there: bool| #[trigger]
                    shared::says(*is_there, p.1, there) && (there ==> a.force)
                        && facts.source is Ok && pl.puts(
                        p.0,
                        p.1,
                        facts.source->Ok_0.compiles(),
                        there,
                    ),
                Err(m) => shared::says(*is_there, p.1, true) && !a.force && m@ == taken_text(
                    p.0,
                    p.1,
                ),
            },
        },
{
    let target = install_check(house, a.file.as_str(), a.host, facts)?;
    let step = match &facts.source {
        Ok(meta) => sign_step(meta),
        Err(_) => SignStep::Source,
    };
    let there = is_there(target.dest.as_str());
    assert(shared::says(*is_there, target.dest@, there));
    if let Some(m) = collision(&target, there, a.force) {
        return Err(m);
    }
    let placed = join(target.dest.as_str(), "policy.toml");
    Ok(Placement { target, placed, step, fresh: !there })
}

/// The arguments that sign what was placed.
pub fn sign_list(placed: &str, key: &str) -> (out: Vec<String>)
    ensures
        text::texts(out@) == seq![placed@, "--key"@, key@],
{
    let mut out: Vec<String> = Vec::new();
    push_line(&mut out, placed.to_owned());
    push_line(&mut out, "--key".to_owned());
    push_line(&mut out, key.to_owned());
    assert(text::texts(out@) =~= seq![placed@, "--key"@, key@]);
    out
}

/// How an installation ends.
#[derive(Debug)]
pub struct InstallEnd {
    /// The directory that is taken away again.
    pub remove: Option<String>,
    /// What is told.
    pub lines: Vec<String>,
}

/// The directory that is taken away again: that of an object that was not there before and that
/// could not be signed.
pub open spec fn taken_away(p: Placement, signed: bool) -> Option<Seq<char>> {
    if !signed && p.fresh {
        Some(p.target.dest@)
    } else {
        None
    }
}

/// What is told at the end of an installation.
pub open spec fn end_text(p: Placement, host: bool, signed: bool) -> Seq<Seq<char>> {
    let name = p.target.name@;
    let dest = p.target.dest@;
    if signed {
        seq![
            "kennel: installed `"@ + name + "` at the "@ + (if host {
                "host"@
            } else {
                "user"@
            }) + " tier ("@ + dest + ")"@,
            match p.step {
                SignStep::Source => "  next: derive a leaf from it — `kennel policy generate --from "@
                    + name + "`"@,
                SignStep::Compile => "  next: `kennel run "@ + name + "`"@,
            },
        ]
    } else if p.fresh {
        seq!["kennel: install rolled back (the sign step failed); "@ + dest + " removed"@]
    } else {
        seq![
            "kennel: the sign step failed; `"@ + name + "` at "@ + dest
                + " was replaced but not re-signed — fix and re-run install"@,
        ]
    }
}

proof fn lemma_rollback_texts(name: Seq<char>, dest: Seq<char>)
    ensures
        "kennel: install rolled back ("@ + "the sign step failed"@ + "); "@ + dest + " removed"@
            == "kennel: install rolled back (the sign step failed); "@ + dest + " removed"@,
        "kennel: "@ + "the sign step failed"@ + "; `"@ + name + "` at "@ + dest
            + " was replaced but not re-signed — fix and re-run install"@
            == "kennel: the sign step failed; `"@ + name + "` at "@ + dest
            + " was replaced but not re-signed — fix and re-run install"@,
{
    reveal_strlit("kennel: install rolled back (");
    reveal_strlit("the sign step failed");
    reveal_strlit("); ");
    reveal_strlit("kennel: install rolled back (the sign step failed); ");
    reveal_strlit("kennel: ");
    reveal_strlit("; `");
    reveal_strlit("kennel: the sign step failed; `");
    assert("kennel: install rolled back ("@ + "the sign step failed"@ + "); "@
        =~= "kennel: install rolled back (the sign step failed); "@);
    assert("kennel: "@ + "the sign step failed"@ + "; `"@ =~= "kennel: the sign step failed; `"@);
}

/// How an installation ends, given whether the object could be signed.
pub fn install_end(p: &Placement, host: bool, signed: bool) -> (r: InstallEnd)
    ensures
        layout::opt(r.remove) == taken_away(*p, signed),
        text::texts(r.lines@) == end_text(*p, host, signed),
{
    let mut lines: Vec<String> = Vec::new();
    if signed {
        let (first, next) = installed_lines(&p.target, host, p.step);
        push_line(&mut lines, first);
        push_line(&mut lines, next);
    } else {
        proof {
            lemma_rollback_texts(p.target.name@, p.target.dest@);
        }
        push_line(&mut lines, rollback_text(p.fresh, "the sign step failed", &p.target));
    }
    assert(text::texts(lines@) =~= end_text(*p, host, signed));
    let remove = if !signed && p.fresh {
        Some(p.target.dest.clone())
    } else {
        None
    };
    InstallEnd { remove, lines }
}

/// How an installation ends whose source could not be written, with the error; `None` where it was
/// written, and the installation goes on.
pub fn after_write(p: &Placement, written: Result<(), String>) -> (r: Option<(InstallEnd, String)>)
    ensures
        match written {
            Ok(_) => r is None,
            Err(e) => r matches Some(stop) && stop.1@ == e@ && layout::opt(stop.0.remove)
                == taken_away(*p, false) && stop.0.lines@.len() == 0,
        },
{
    match written {
        Ok(()) => None,
        Err(e) => {
            let remove = if p.fresh {
                Some(p.target.dest.clone())
            } else {
                None
            };
            Some((InstallEnd { remove, lines: Vec::new() }, e))
        },
    }
}

/// What happens once the key that signs has been looked for.
#[derive(Debug)]
pub enum KeyTurn {
    /// The object is signed with these arguments.
    Sign(Vec<String>),
    /// The installation ends so, with this error.
    Stop(InstallEnd, String),
}

/// What happens to a placed object once its key has been looked for: with a key it is signed, and
/// without one the installation ends as one that could not sign.
pub fn after_key(p: &Placement, host: bool, key: Result<String, String>) -> (r: KeyTurn)
    ensures
        match key {
            Ok(k) => r matches KeyTurn::Sign(list) && text::texts(list@) == seq![
                p.placed@,
                "--key"@,
                k@,
            ],
            Err(e) => r matches KeyTurn::Stop(end, m) && m@ == e@ && layout::opt(end.remove)
                == taken_away(*p, false) && text::texts(end.lines@) == end_text(*p, host, false),
        },
{
    match key {
        Ok(k) => KeyTurn::Sign(sign_list(p.placed.as_str(), k.as_str())),
        Err(e) => KeyTurn::Stop(install_end(p, host, false), e),
    }
}

/// The directories that hold an object once an installation has placed its own and ended so.
pub open spec fn objects_after(
    before: Set<Seq<char>>,
    p: Placement,
    remove: Option<Seq<char>>,
) -> Set<Seq<char>> {
    let placed = before.insert(p.target.dest@);
    match remove {
        Some(d) => placed.remove(d),
        None => placed,
    }
}

/// What an installation that placed its object takes away again: what it is told to where it stops
/// for want of a key, and otherwise what its end says, by whether the object could be signed.
pub open spec fn removes(p: Placement, turn: KeyTurn, signed: bool) -> Option<Seq<char>> {
    match turn {
        KeyTurn::Sign(_) => taken_away(p, signed),
        KeyTurn::Stop(end, _) => layout::opt(end.remove),
    }
}

/// Placing and signing are one step to whoever looks on: an installation that could not write its
/// source, that found no key, or that could not sign with the one it found, leaves the same objects
/// as before, and no half of a new one.
pub proof fn law_failed_install_adds_nothing(
    before: Set<Seq<char>>,
    p: Placement,
    host: bool,
    written: Result<(), String>,
    stop: Option<(InstallEnd, String)>,
    key: Result<String, String>,
    turn: KeyTurn,
    signed: bool,
)
    requires
        p.fresh == !before.contains(p.target.dest@),
        call_ensures(after_write, (&p, written), stop),
        call_ensures(after_key, (&p, host, key), turn),
    ensures
        written is Err ==> (stop matches Some(s) && objects_after(
            before,
            p,
            layout::opt(s.0.remove),
        ) == before),
        key is Err || !signed ==> objects_after(before, p, removes(p, turn, signed)) == before,
        key is Ok && signed ==> objects_after(before, p, removes(p, turn, signed)) == before.insert(
            p.target.dest@,
        ),
{
    assert(objects_after(before, p, taken_away(p, false)) =~= before);
}

// ---- cloning -------------------------------------------------------------------

/// A copy of an object, before it is installed.
#[derive(Debug)]
pub struct Cloned {
    /// Its name.
    pub target: String,
    /// Its source.
    pub content: String,
}

/// The source of a copy: under its own name it is what was read, under another one it is renamed.
pub open spec fn cloned_source(source: Seq<char>, name: Seq<char>, target: Seq<char>) -> Result<
    Seq<char>,
    Seq<char>,
> {
    if target == name {
        Ok(source)
    } else {
        ceremony::renamed_source(source, target)
    }
}

/// The copy of an object whose source is given, or why there is none: an object is cloned by its
/// name, and only where a user's key may sign what it provides.
pub fn clone_text(
    house: House,
    name: &str,
    new_name: &Option<String>,
    source: &str,
    provides: &[Provided],
) -> (r: Result<Cloned, String>)
    ensures
        ({
            let target = match layout::opt(*new_name) {
                Some(n) => n,
                None => name@,
            };
            match ceremony::clone_fault(house, name@, target, provides@) {
                Some(e) => r matches Err(m) && m@ == e,
                None => match cloned_source(source@, name@, target) {
                    Ok(s) => r matches Ok(c) && c.target@ == target && c.content@ == s,
                    Err(e) => r matches Err(m) && m@ == e,
                },
            }
        }),
{
    let target = match new_name {
        Some(n) => n.clone(),
        None => name.to_owned(),
    };
    if let Some(m) = clone_refusal(house, name, target.as_str(), provides) {
        return Err(m);
    }
    let content = if same(target.as_str(), name) {
        source.to_owned()
    } else {
        rename_source_object(source, target.as_str())?
    };
    Ok(Cloned { target, content })
}

/// The copy of an object whose source was read, or why there is none.
pub fn clone_object(
    house: House,
    name: &str,
    new_name: &Option<String>,
    bytes: &[u8],
    provides: &[Provided],
) -> (r: Result<Cloned, String>)
    ensures
        ({
            let target = match layout::opt(*new_name) {
                Some(n) => n,
                None => name@,
            };
            match ceremony::clone_fault(house, name@, target, provides@) {
                Some(e) => r matches Err(m) && m@ == e,
                None => match cloned_source(text::lossy_text(bytes@), name@, target) {
                    Ok(s) => r matches Ok(c) && c.target@ == target && c.content@ == s,
                    Err(e) => r matches Err(m) && m@ == e,
                },
            }
        }),
{
    let source = text_lossy(bytes);
    clone_text(house, name, new_name, source.as_str(), provides)
}

/// Renaming is no way around reserved names: an object that provides what a user's key may not sign
/// is not cloned under any name.
pub proof fn law_no_name_makes_it_clonable(
    house: House,
    name: Seq<char>,
    target: Seq<char>,
    provides: Seq<Provided>,
)
    requires
        ceremony::violations(provides, ceremony::Tier::User).len() > 0,
    ensures
        ceremony::clone_fault(house, name, target, provides) is Some,
{
}

// ---- what holds of the whole ----------------------------------------------------

/// An object is placed as `policy.toml` in its own directory, over another one by force alone, and is
/// signed as its kind is: a leaf by compiling it, anything else as source.
pub proof fn law_object_is_placed_in_its_directory<F: Fn(&str) -> bool>(
    a: &InstallArgs,
    house: House,
    facts: &InstallFacts,
    is_there: &F,
    r: Result<Placement, String>,
    pl: Placement,
    s: ceremony::SourceMeta,
)
    requires
        call_ensures(install_object::<F>, (a, house, facts, is_there), r),
        r == Ok::<Placement, String>(pl),
        facts.source == Ok::<ceremony::SourceMeta, String>(s),
    ensures
        path::file_name_of(pl.placed@) == Some("policy.toml"@),
        pl.target.dest@.is_prefix_of(pl.placed@),
        !a.force ==> pl.fresh,
        pl.step == SignStep::Compile <==> (s.leaf && s.template_name is None),
        s.template_name matches Some(n) ==> pl.target.name@ == n@,
        s.template_name is None ==> (s.name matches Some(n) && pl.target.name@ == n@),
{
    reveal_strlit("policy.toml");
    let n = "policy.toml"@;
    assert(!n.contains('/'));
    assert(n[0] == 'p');
    path::law_join_file_name(pl.target.dest@, n);
    assert(pl.placed@.subrange(0, pl.target.dest@.len() as int) =~= pl.target.dest@);
}

/// What was placed is signed with the key that was found, and without one nothing is.
pub proof fn law_what_was_placed_is_signed(
    p: &Placement,
    host: bool,
    key: Result<String, String>,
    r: KeyTurn,
)
    requires
        call_ensures(after_key, (p, host, key), r),
    ensures
        r is Sign <==> key is Ok,
        r matches KeyTurn::Sign(list) ==> list@.len() == 3 && text::texts(list@)[0] == p.placed@
            && text::texts(list@)[1] == "--key"@ && text::texts(list@)[2] == key->Ok_0@,
        key matches Err(e) ==> r->Stop_1@ == e@,
{
    if let KeyTurn::Sign(list) = r {
        assert(text::texts(list@).len() == list@.len());
    }
}

/// An installation takes away what it placed just where it could not sign it and nothing stood there
/// before; the directory is told either way, and it is called installed only where it was signed.
pub proof fn law_unsigned_object_is_taken_away(p: &Placement, host: bool, signed: bool, r: InstallEnd)
    requires
        call_ensures(install_end, (p, host, signed), r),
    ensures
        r.remove is Some <==> (!signed && p.fresh),
        r.remove matches Some(d) ==> d@ == p.target.dest@,
        r.lines@.len() > 0,
        text::holds(text::texts(r.lines@)[0], p.target.dest@),
        "kennel: installed `"@.is_prefix_of(text::texts(r.lines@)[0]) <==> signed,
{
    reveal_strlit("kennel: installed `");
    reveal_strlit("kennel: install rolled back (the sign step failed); ");
    reveal_strlit("kennel: the sign step failed; `");
    let name = p.target.name@;
    let dest = p.target.dest@;
    let l = end_text(*p, host, signed)[0];
    let lead = "kennel: installed `"@;
    assert(text::texts(r.lines@).len() == r.lines@.len());
    if signed {
        let front = lead + name + "` at the "@ + (if host {
            "host"@
        } else {
            "user"@
        }) + " tier ("@;
        text::lemma_holds(front, dest, ")"@);
        assert(l =~= front + dest + ")"@);
        assert(l.subrange(0, lead.len() as int) =~= lead);
    } else if p.fresh {
        text::lemma_holds("kennel: install rolled back (the sign step failed); "@, dest, " removed"@);
        assert(l[15] == ' ');
        assert(lead[15] == 'e');
        if lead.is_prefix_of(l) {
            assert(l.subrange(0, lead.len() as int)[15] == lead[15]);
        }
    } else {
        let end = " was replaced but not re-signed — fix and re-run install"@;
        text::lemma_holds("kennel: the sign step failed; `"@ + name + "` at "@, dest, end);
        assert(l[8] == 't');
        assert(lead[8] == 'i');
        if lead.is_prefix_of(l) {
            assert(l.subrange(0, lead.len() as int)[8] == lead[8]);
        }
    }
}

/// A copy without a name of its own keeps the name and every byte of the source; one with another name
/// goes by that name.
pub proof fn law_copy_is_the_source(
    house: House,
    name: &str,
    new_name: &Option<String>,
    source: &str,
    provides: &[Provided],
    r: Result<Cloned, String>,
    c: Cloned,
)
    requires
        call_ensures(clone_text, (house, name, new_name, source, provides), r),
        r == Ok::<Cloned, String>(c),
    ensures
        new_name is None ==> c.target@ == name@ && c.content@ == source@,
        new_name matches Some(n) ==> c.target@ == n@,
        !name@.contains('/'),
        forall|i: int|
            0 <= i < provides@.len() ==> ceremony::may_sign(
                ceremony::Tier::User,
                (#[trigger] provides@[i]).required,
            ),
{
    ceremony::lemma_violations(provides@, ceremony::Tier::User);
}

} // verus!
