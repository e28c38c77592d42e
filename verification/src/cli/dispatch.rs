//! Where a command line goes: to help, to the usage of a verb, or to the verb.

use super::options;
use super::options::{usage_of, CommandSpec};
use super::shared::wants_help;
use crate::text;
use crate::text::{among, concat3, same};
use vstd::prelude::*;
use vstd::string::*;

verus! {

/// The programs that take verbs.
#[derive(Debug, Clone, Copy, PartialEq, Eq, Structural)]
pub enum Unit {
    /// The command line as a whole.
    Host,
    /// Its `policy` verbs.
    Policy,
    /// The program of the `policy` verbs.
    PolicyTool,
    /// The program of the verbs on running kennels.
    RunTool,
    /// The program of the smaller verbs.
    MiscTool,
}

/// The verbs of the command line.
pub const HOST_VERBS: [&'static str; 11] = [
    "run",
    "attach",
    "review",
    "release",
    "oci",
    "stop",
    "list",
    "daemon-reload",
    "policy",
    "keygen",
    "audit",
];

/// The `policy` verbs of the command line.
pub const POLICY_HOST_VERBS: [&'static str; 11] = [
    "list",
    "show",
    "edit",
    "generate",
    "compile",
    "validate",
    "sign",
    "lint",
    "risks",
    "diff",
    "inspect",
];

/// The verbs of the program of the `policy` verbs.
pub const POLICY_TOOL_VERBS: [&'static str; 11] = [
    "list",
    "show",
    "edit",
    "generate",
    "compile",
    "validate",
    "sign",
    "lint",
    "risks",
    "diff",
    "upgrade",
];

/// The verbs on running kennels.
pub const RUN_TOOL_VERBS: [&'static str; 7] = [
    "run",
    "attach",
    "stop",
    "list",
    "review",
    "release",
    "daemon-reload",
];

/// The smaller verbs.
pub const MISC_TOOL_VERBS: [&'static str; 3] = ["keygen", "subkennel", "audit"];

/// The verbs of a program.
pub open spec fn verbs(u: Unit) -> Seq<Seq<char>> {
    match u {
        Unit::Host => text::strs(HOST_VERBS@),
        Unit::Policy => text::strs(POLICY_HOST_VERBS@),
        Unit::PolicyTool => text::strs(POLICY_TOOL_VERBS@),
        Unit::RunTool => text::strs(RUN_TOOL_VERBS@),
        Unit::MiscTool => text::strs(MISC_TOOL_VERBS@),
    }
}

fn is_verb(u: Unit, t: &str) -> (r: bool)
    ensures
        r == verbs(u).contains(t@),
{
    match u {
        Unit::Host => among(&HOST_VERBS, t),
        Unit::Policy => among(&POLICY_HOST_VERBS, t),
        Unit::PolicyTool => among(&POLICY_TOOL_VERBS, t),
        Unit::RunTool => among(&RUN_TOOL_VERBS, t),
        Unit::MiscTool => among(&MISC_TOOL_VERBS, t),
    }
}

/// Whether a table has the verb.
pub open spec fn tabled(table: Seq<CommandSpec>, verb: Seq<char>) -> bool {
    exists|i: int| 0 <= i < table.len() && (#[trigger] table[i]).name@ == verb
}

fn is_tabled(table: &[CommandSpec], verb: &str) -> (r: bool)
    ensures
        r == tabled(table@, verb@),
{
    let mut i: usize = 0;
    while i < table.len()
        invariant
            i <= table@.len(),
            forall|j: int| 0 <= j < i ==> (#[trigger] table@[j]).name@ != verb@,
        decreases table@.len() - i,
    {
        if same(table[i].name, verb) {
            assert(table@[i as int].name@ == verb@);
            return true;
        }
        i = i + 1;
    }
    false
}

/// Where a command line goes.
#[derive(Debug)]
pub enum Route {
    /// To the help of the program.
    Help,
    /// To the usage of a verb.
    Usage(String),
    /// To the verb, with what is behind it.
    Verb(String),
}

/// Whether the usage of a verb is asked for, and this program gives it: the command line leaves the
/// `policy` verbs to themselves, and what is in no table is only told by the smaller programs.
pub open spec fn gives_usage(u: Unit, list: Seq<Seq<char>>, table: Seq<CommandSpec>) -> bool {
    let rest = list.drop_first();
    &&& rest.contains("--help"@) || rest.contains("-h"@)
    &&& match u {
        Unit::Host => list[0] != "policy"@ && tabled(table, list[0]),
        Unit::Policy | Unit::PolicyTool => tabled(table, list[0]),
        Unit::RunTool | Unit::MiscTool => true,
    }
}

/// What is said to a verb that is none.
pub open spec fn unknown(u: Unit, verb: Seq<char>) -> Seq<char> {
    match u {
        Unit::Policy | Unit::PolicyTool => "unknown policy verb `"@ + verb
            + "` — run `kennel policy --help`"@,
        _ => "unknown command `"@ + verb + "` — run `kennel --help`"@,
    }
}

/// Where a command line goes, with the table that the program has its usages from.
pub fn route(u: Unit, list: &[String], table: &[CommandSpec]) -> (r: Result<Route, String>)
    ensures
        if list@.len() == 0 || list@[0]@ == "help"@ || list@[0]@ == "--help"@ || list@[0]@
            == "-h"@ {
            r matches Ok(Route::Help)
        } else if gives_usage(u, text::texts(list@), table@) {
            r matches Ok(Route::Usage(t)) && t@ == options::usage(table@, list@[0]@)
        } else if verbs(u).contains(list@[0]@) {
            r matches Ok(Route::Verb(t)) && t@ == list@[0]@
        } else {
            r matches Err(m) && m@ == unknown(u, list@[0]@)
        },
{
    let n: usize = list.len();
    if n == 0 {
        return Ok(Route::Help);
    }
    let verb = list[0].as_str();
    if same(verb, "help") || same(verb, "--help") || same(verb, "-h") {
        return Ok(Route::Help);
    }
    let rest = vstd::slice::slice_subrange(list, 1, n);
    proof {
        assert(text::texts(list@)[0] == verb@);
        assert(text::texts(rest@) =~= text::texts(list@).drop_first());
    }
    let here = match u {
        Unit::Host => !same(verb, "policy") && is_tabled(table, verb),
        Unit::Policy | Unit::PolicyTool => is_tabled(table, verb),
        Unit::RunTool | Unit::MiscTool => true,
    };
    if here && wants_help(rest) {
        return Ok(Route::Usage(usage_of(table, verb)));
    }
    if is_verb(u, verb) {
        return Ok(Route::Verb(verb.to_owned()));
    }
    Err(
        match u {
            Unit::Policy | Unit::PolicyTool => concat3(
                "unknown policy verb `",
                verb,
                "` — run `kennel policy --help`",
            ),
            _ => concat3("unknown command `", verb, "` — run `kennel --help`"),
        },
    )
}

// ---- what holds of the whole ----------------------------------------------------

/// A verb is run as it was typed, where the unit has it and no help was asked for first; nothing that
/// the unit does not have is run.
pub proof fn law_only_own_verbs_are_run(
    u: Unit,
    list: &[String],
    table: &[CommandSpec],
    r: Result<Route, String>,
)
    requires
        call_ensures(route, (u, list, table), r),
    ensures
        list@.len() == 0 ==> r matches Ok(Route::Help),
        r matches Ok(Route::Verb(t)) ==> list@.len() > 0 && t@ == text::texts(list@)[0] && verbs(
            u,
        ).contains(t@),
        list@.len() > 0 && (text::texts(list@)[0] == "--help"@ || text::texts(list@)[0] == "-h"@
            || text::texts(list@)[0] == "help"@) ==> r matches Ok(Route::Help),
        (u is RunTool || u is MiscTool) && list@.len() > 0 && (text::texts(
            list@,
        ).drop_first().contains("--help"@) || text::texts(list@).drop_first().contains("-h"@)) ==> !(
        r matches Ok(Route::Verb(_))),
        r is Err ==> list@.len() > 0 && !verbs(u).contains(text::texts(list@)[0]),
{
}

} // verus!
