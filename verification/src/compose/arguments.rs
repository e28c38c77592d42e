//! The command line of the composer, and where the program that it names is.

use super::probe;
use super::probe::path_candidates;
use crate::cli::shared;
use crate::cli::shared::first_present;
use crate::layout;
use crate::layout::push_line;
use crate::path;
use crate::path::is_absolute;
use crate::text;
use crate::text::{concat2, concat3, has_char, same, starts_with};
use vstd::prelude::*;
use vstd::string::*;

verus! {

/// The lines that say how the composer is called.
pub const USAGE: [&'static str; 15] = [
    "usage: kennel-compose <name> <binary>              probe a binary/script",
    "       kennel-compose <name> --compose             interactive composer",
    "       kennel-compose --no-prompts <name> <binary> non-interactive (CI)",
    "",
    "options:",
    "  --output <path>        write to file (default: stdout)",
    "  --template-dir <dir>   additional template search directory",
    "  --no-prompts           all defaults, maximally restrictive",
    "  -h, --help             print this help",
    "",
    "Template/fragment search path:",
    "  ~/.config/kennel/templates/   (user)",
    "  /etc/kennel/templates/        (system)",
    "  /usr/lib/kennel/templates/    (vendor)",
    "  (same pattern for fragments/)",
];

/// What the composer is asked for.
#[derive(Debug)]
pub struct Args {
    /// The kennel.
    pub name: String,
    /// The program to probe, as it was given.
    pub binary: Option<String>,
    /// Whether templates are composed.
    pub compose: bool,
    /// Whether nothing is asked.
    pub no_prompts: bool,
    /// The file to write.
    pub output: Option<String>,
    /// Template directories searched first.
    pub template_dirs: Vec<String>,
    /// Whether more words were given than a name and a program.
    pub surplus: bool,
}

/// What a command line asks for.
#[derive(Debug)]
pub enum Asked {
    /// How the composer is called.
    Help,
    /// A policy.
    Policy(Args),
}

/// What the arguments that were read so far say.
pub struct Reading {
    /// Whether nothing is asked.
    pub no_prompts: bool,
    /// Whether templates are composed.
    pub compose: bool,
    /// The file to write.
    pub output: Option<Seq<char>>,
    /// Template directories.
    pub dirs: Seq<Seq<char>>,
    /// The words that are no options.
    pub words: Seq<Seq<char>>,
}

/// What reading the arguments ends with.
pub enum Outcome {
    /// Help was asked for.
    Help,
    /// An error.
    Fault(Seq<char>),
    /// All were read.
    Done(Reading),
}

/// Reads the arguments one after the other.
pub open spec fn read(list: Seq<Seq<char>>, acc: Reading) -> Outcome
    decreases list.len(),
{
    if list.len() == 0 {
        Outcome::Done(acc)
    } else {
        let a = list[0];
        let rest = list.drop_first();
        if a == "--no-prompts"@ {
            read(rest, Reading { no_prompts: true, ..acc })
        } else if a == "--compose"@ {
            read(rest, Reading { compose: true, ..acc })
        } else if a == "--output"@ {
            if rest.len() == 0 {
                Outcome::Fault("--output needs a value"@)
            } else {
                read(rest.drop_first(), Reading { output: Some(rest[0]), ..acc })
            }
        } else if a == "--template-dir"@ {
            if rest.len() == 0 {
                Outcome::Fault("--template-dir needs a value"@)
            } else {
                read(rest.drop_first(), Reading { dirs: acc.dirs.push(rest[0]), ..acc })
            }
        } else if a == "--help"@ || a == "-h"@ {
            Outcome::Help
        } else if "--"@.is_prefix_of(a) {
            Outcome::Fault("unknown flag `"@ + a + "`"@)
        } else {
            read(rest, Reading { words: acc.words.push(a), ..acc })
        }
    }
}

/// Nothing read.
pub open spec fn blank() -> Reading {
    Reading { no_prompts: false, compose: false, output: None, dirs: seq![], words: seq![] }
}

/// What is wrong with what was read.
pub open spec fn fault(r: Reading) -> Option<Seq<char>> {
    if r.words.len() == 0 {
        Some("missing kennel name"@)
    } else if r.compose && r.words.len() > 1 {
        Some("--compose does not take a binary argument"@)
    } else if !r.compose && r.words.len() < 2 {
        Some("missing binary path (or use --compose)"@)
    } else {
        None
    }
}

impl Args {
    /// Whether this is what was read.
    pub open spec fn holds(self, r: Reading) -> bool {
        &&& self.name@ == r.words[0]
        &&& layout::opt(self.binary) == if r.compose {
            None::<Seq<char>>
        } else {
            Some(r.words[1])
        }
        &&& self.compose == r.compose
        &&& self.no_prompts == r.no_prompts
        &&& layout::opt(self.output) == r.output
        &&& text::texts(self.template_dirs@) == r.dirs
        &&& self.surplus == (r.words.len() > 2)
    }
}

/// What the arguments ask for. The program is not looked up, and whether words are left over is
/// told after that (see [`check_surplus`]).
pub fn parse_args(raw: &[String]) -> (r: Result<Asked, String>)
    ensures
        if raw@.len() == 0 {
            r matches Err(m) && m@ == "no arguments"@
        } else {
            match read(text::texts(raw@), blank()) {
                Outcome::Help => r matches Ok(Asked::Help),
                Outcome::Fault(e) => r matches Err(m) && m@ == e,
                Outcome::Done(d) => match fault(d) {
                    Some(e) => r matches Err(m) && m@ == e,
                    None => r matches Ok(Asked::Policy(a)) && a.holds(d),
                },
            }
        },
{
    if raw.len() == 0 {
        return Err("no arguments".to_owned());
    }
    let ghost all = text::texts(raw@);
    let mut no_prompts = false;
    let mut compose = false;
    let mut output: Option<String> = None;
    let mut dirs: Vec<String> = Vec::new();
    let mut ws: Vec<String> = Vec::new();
    let mut i: usize = 0;
    let n: usize = raw.len();
    proof {
        assert(all.skip(0) =~= all);
        assert(text::texts(dirs@) =~= seq![]);
        assert(text::texts(ws@) =~= seq![]);
    }
    while i < n
        invariant
            i <= n,
            n == raw@.len(),
            n > 0,
            all == text::texts(raw@),
            read(
                all.skip(i as int),
                (Reading {
                    no_prompts,
                    compose,
                    output: layout::opt(output),
                    dirs: text::texts(dirs@),
                    words: text::texts(ws@),
                }),
            ) == read(all, blank()),
        decreases n - i,
    {
        let a = raw[i].as_str();
        proof {
            assert(all.skip(i as int)[0] == a@);
            assert(all.skip(i as int).drop_first() =~= all.skip(i + 1));
            if i + 1 < n {
                assert(all.skip(i + 1)[0] == raw@[i + 1]@);
                assert(all.skip(i + 1).drop_first() =~= all.skip(i + 2));
            }
        }
        if same(a, "--no-prompts") {
            no_prompts = true;
        } else if same(a, "--compose") {
            compose = true;
        } else if same(a, "--output") {
            i = i + 1;
            if i >= n {
                return Err("--output needs a value".to_owned());
            }
            output = Some(raw[i].clone());
        } else if same(a, "--template-dir") {
            i = i + 1;
            if i >= n {
                return Err("--template-dir needs a value".to_owned());
            }
            push_line(&mut dirs, raw[i].clone());
        } else if same(a, "--help") || same(a, "-h") {
            return Ok(Asked::Help);
        } else if starts_with(a, "--") {
            return Err(concat3("unknown flag `", a, "`"));
        } else {
            push_line(&mut ws, a.to_owned());
        }
        i = i + 1;
    }
    proof {
        assert(all.skip(n as int) =~= seq![]);
        assert(text::texts(ws@).len() == ws@.len());
    }
    if ws.len() == 0 {
        return Err("missing kennel name".to_owned());
    }
    assert(text::texts(ws@)[0] == ws@[0]@);
    let binary = if compose {
        if ws.len() > 1 {
            return Err("--compose does not take a binary argument".to_owned());
        }
        None
    } else {
        if ws.len() < 2 {
            return Err("missing binary path (or use --compose)".to_owned());
        }
        assert(text::texts(ws@)[1] == ws@[1]@);
        Some(ws[1].clone())
    };
    Ok(
        Asked::Policy(
            Args {
                name: ws[0].clone(),
                binary,
                compose,
                no_prompts,
                output,
                template_dirs: dirs,
                surplus: ws.len() > 2,
            },
        ),
    )
}

proof fn lemma_read_on(list: Seq<Seq<char>>, tail: Seq<Seq<char>>, acc: Reading)
    requires
        read(list, acc) is Done,
    ensures
        read(list + tail, acc) == read(tail, read(list, acc)->Done_0),
    decreases list.len(),
{
    let all = list + tail;
    if list.len() == 0 {
        assert(all =~= tail);
    } else {
        let a = list[0];
        let rest = list.drop_first();
        assert(all[0] == a);
        assert(all.drop_first() =~= rest + tail);
        if a == "--no-prompts"@ {
            lemma_read_on(rest, tail, Reading { no_prompts: true, ..acc });
        } else if a == "--compose"@ {
            lemma_read_on(rest, tail, Reading { compose: true, ..acc });
        } else if a == "--output"@ {
            assert((rest + tail)[0] == rest[0]);
            assert((rest + tail).drop_first() =~= rest.drop_first() + tail);
            lemma_read_on(rest.drop_first(), tail, Reading { output: Some(rest[0]), ..acc });
        } else if a == "--template-dir"@ {
            assert((rest + tail)[0] == rest[0]);
            assert((rest + tail).drop_first() =~= rest.drop_first() + tail);
            lemma_read_on(rest.drop_first(), tail, Reading { dirs: acc.dirs.push(rest[0]), ..acc });
        } else {
            lemma_read_on(rest, tail, Reading { words: acc.words.push(a), ..acc });
        }
    }
}

proof fn lemma_flags_differ()
    ensures
        "--no-prompts"@ != "--compose"@,
        "--no-prompts"@ != "--output"@,
        "--no-prompts"@ != "--template-dir"@,
        "--compose"@ != "--output"@,
        "--compose"@ != "--template-dir"@,
        "--output"@ != "--template-dir"@,
{
    reveal_strlit("--no-prompts");
    reveal_strlit("--compose");
    reveal_strlit("--output");
    reveal_strlit("--template-dir");
    assert("--no-prompts"@.len() == 12);
    assert("--compose"@.len() == 9);
    assert("--output"@.len() == 8);
    assert("--template-dir"@.len() == 14);
}

/// A name and a program alone are probed, with questions and to the terminal.
pub proof fn law_a_name_and_a_program_are_probed(
    raw: &[String],
    r: Result<Asked, String>,
    name: Seq<char>,
    program: Seq<char>,
)
    requires
        call_ensures(parse_args, (raw,), r),
        text::texts(raw@) == seq![name, program],
        !"--"@.is_prefix_of(name) && name != "-h"@,
        !"--"@.is_prefix_of(program) && program != "-h"@,
    ensures
        r matches Ok(Asked::Policy(a)) && a.name@ == name && layout::opt(a.binary) == Some(program)
            && !a.compose && !a.no_prompts && a.output is None && a.template_dirs@.len() == 0
            && !a.surplus,
{
    reveal_strlit("--");
    reveal_strlit("--no-prompts");
    reveal_strlit("--compose");
    reveal_strlit("--output");
    reveal_strlit("--template-dir");
    reveal_strlit("--help");
    assert("--"@ =~= "--no-prompts"@.subrange(0, 2));
    assert("--"@ =~= "--compose"@.subrange(0, 2));
    assert("--"@ =~= "--output"@.subrange(0, 2));
    assert("--"@ =~= "--template-dir"@.subrange(0, 2));
    assert("--"@ =~= "--help"@.subrange(0, 2));
    let all = seq![name, program];
    assert(text::texts(raw@).len() == raw@.len());
    assert(all.drop_first() =~= seq![program]);
    assert(seq![program].drop_first() =~= seq![]);
    let one = Reading { words: blank().words.push(name), ..blank() };
    let two = Reading { words: one.words.push(program), ..one };
    assert(read(all, blank()) == read(seq![program], one));
    assert(read(seq![program], one) == read(seq![], two));
    assert(read(Seq::<Seq<char>>::empty(), two) == Outcome::Done(two));
    assert(two.words =~= seq![name, program]);
    if let Ok(Asked::Policy(a)) = r {
        assert(text::texts(a.template_dirs@).len() == a.template_dirs@.len());
    }
}

/// A flag or an option behind a command line that is accepted sets what it is for, and all else stays
/// as it was.
pub proof fn law_one_option_more_changes_one_thing(
    a: &[String],
    b: &[String],
    x: Args,
    y: Args,
    v: Seq<char>,
)
    requires
        call_ensures(parse_args, (a,), Ok::<Asked, String>(Asked::Policy(x))),
        call_ensures(parse_args, (b,), Ok::<Asked, String>(Asked::Policy(y))),
    ensures
        text::texts(b@) == text::texts(a@) + seq!["--no-prompts"@] ==> y.no_prompts && y.name@
            == x.name@ && layout::opt(y.binary) == layout::opt(x.binary) && y.compose == x.compose
            && layout::opt(y.output) == layout::opt(x.output) && text::texts(y.template_dirs@)
            == text::texts(x.template_dirs@) && y.surplus == x.surplus,
        text::texts(b@) == text::texts(a@) + seq!["--compose"@] ==> y.compose && y.binary is None
            && y.name@ == x.name@ && y.no_prompts == x.no_prompts && layout::opt(y.output)
            == layout::opt(x.output) && text::texts(y.template_dirs@) == text::texts(
            x.template_dirs@,
        ),
        text::texts(b@) == text::texts(a@) + seq!["--output"@, v] ==> layout::opt(y.output) == Some(
            v,
        ) && y.name@ == x.name@ && layout::opt(y.binary) == layout::opt(x.binary) && y.compose
            == x.compose && y.no_prompts == x.no_prompts && text::texts(y.template_dirs@)
            == text::texts(x.template_dirs@) && y.surplus == x.surplus,
        text::texts(b@) == text::texts(a@) + seq!["--template-dir"@, v] ==> text::texts(
            y.template_dirs@,
        ) == text::texts(x.template_dirs@).push(v) && y.name@ == x.name@ && layout::opt(y.binary)
            == layout::opt(x.binary) && y.compose == x.compose && y.no_prompts == x.no_prompts
            && layout::opt(y.output) == layout::opt(x.output) && y.surplus == x.surplus,
{
    lemma_flags_differ();
    let all = text::texts(a@);
    assert(all.len() == a@.len());
    assert(text::texts(b@).len() == b@.len());
    let d = read(all, blank())->Done_0;
    let none: Seq<Seq<char>> = seq![];
    lemma_read_on(all, seq!["--no-prompts"@], blank());
    assert(seq!["--no-prompts"@].drop_first() =~= none);
    assert(read(seq!["--no-prompts"@], d) == read(none, Reading { no_prompts: true, ..d }));
    lemma_read_on(all, seq!["--compose"@], blank());
    assert(seq!["--compose"@].drop_first() =~= none);
    assert(read(seq!["--compose"@], d) == read(none, Reading { compose: true, ..d }));
    lemma_read_on(all, seq!["--output"@, v], blank());
    assert(seq!["--output"@, v].drop_first() =~= seq![v]);
    assert(seq![v].drop_first() =~= none);
    assert(read(seq!["--output"@, v], d) == read(none, Reading { output: Some(v), ..d }));
    lemma_read_on(all, seq!["--template-dir"@, v], blank());
    assert(seq!["--template-dir"@, v].drop_first() =~= seq![v]);
    assert(read(seq!["--template-dir"@, v], d) == read(
        none,
        Reading { dirs: d.dirs.push(v), ..d },
    ));
}

/// Whether no words are left over.
pub fn check_surplus(a: &Args) -> (r: Result<(), String>)
    ensures
        if a.surplus {
            r matches Err(m) && m@ == "too many positional arguments"@
        } else {
            r is Ok
        },
{
    if a.surplus {
        Err("too many positional arguments".to_owned())
    } else {
        Ok(())
    }
}

/// Where a program is.
#[derive(Debug)]
pub enum Resolved {
    /// At this absolute path.
    AsIs(String),
    /// At what this path leads to.
    Canonical(String),
}

/// Where the program of the command line is: an absolute path stands for itself and must be there,
/// a relative one is taken from the current directory, and a bare name is searched along
/// `path_var`.
pub fn resolve_binary<E: Fn(&str) -> bool, F: Fn(&str) -> bool>(
    raw: &str,
    path_var: &str,
    exists_at: &E,
    is_file: &F,
) -> (r: Result<Resolved, String>)
    requires
        forall|s: &str| call_requires(*exists_at, (s,)),
        forall|s: &str| call_requires(*is_file, (s,)),
    ensures
        if path::rooted(raw@) {
            match r {
                Ok(Resolved::AsIs(p)) => p@ == raw@ && shared::says(*exists_at, raw@, true),
                Ok(Resolved::Canonical(_)) => false,
                Err(m) => m@ == raw@ + ": not found"@ && shared::says(*exists_at, raw@, false),
            }
        } else if raw@.contains('/') {
            r matches Ok(Resolved::Canonical(p)) && p@ == raw@
        } else {
            match r {
                Ok(Resolved::AsIs(_)) => false,
                Ok(Resolved::Canonical(p)) => exists|i: int| #[trigger]
                    shared::first_at(*is_file, probe::search_places(path_var@, raw@), i) && p@
                        == probe::search_places(path_var@, raw@)[i],
                Err(m) => m@ == "`"@ + raw@ + "` not found on $PATH"@ && shared::nowhere(
                    *is_file,
                    probe::search_places(path_var@, raw@),
                ),
            }
        },
{
    if is_absolute(raw) {
        let there = exists_at(raw);
        assert(call_ensures(*exists_at, (raw,), there));
        if there {
            return Ok(Resolved::AsIs(raw.to_owned()));
        }
        return Err(concat2(raw, ": not found"));
    }
    if has_char(raw, '/') {
        return Ok(Resolved::Canonical(raw.to_owned()));
    }
    let places = path_candidates(path_var, raw);
    match first_present(places.as_slice(), is_file) {
        Some(i) => {
            let ghost all = text::texts(places@);
            assert(all[i as int] == places@[i as int]@);
            Ok(Resolved::Canonical(places[i].clone()))
        },
        None => Err(concat3("`", raw, "` not found on $PATH")),
    }
}

/// A program that is given by an absolute path is taken as it is, and never searched for; one that is
/// given by a bare name is never taken from the current directory.
pub proof fn law_absolute_programs_are_not_searched_for<
    E: Fn(&str) -> bool,
    F: Fn(&str) -> bool,
>(raw: &str, path_var: &str, exists_at: &E, is_file: &F, r: Result<Resolved, String>)
    requires
        call_ensures(resolve_binary::<E, F>, (raw, path_var, exists_at, is_file), r),
    ensures
        raw@.len() > 0 && raw@[0] == '/' && r is Ok ==> (r->Ok_0 matches Resolved::AsIs(p) && p@
            == raw@),
        raw@.len() > 0 && raw@[0] != '/' && raw@.contains('/') ==> (r matches Ok(Resolved::Canonical(
            p,
        )) && p@ == raw@),
        !raw@.contains('/') && r is Ok ==> (r->Ok_0 matches Resolved::Canonical(p)
            && probe::search_places(path_var@, raw@).contains(p@)),
{
    if raw@.len() > 0 && raw@[0] == '/' {
        assert(raw@.contains('/'));
    }
    if !raw@.contains('/') {
        if raw@.len() > 0 {
            assert(raw@.contains(raw@[0]));
        }
    }
}

} // verus!
