//! The `policy` and `template` verbs: what they are asked for, where they look and what they say.

use super::args;
use super::args::{all_of, is_given, last_of, scan, word_at};
use super::options;
use super::options::{usage_of, walk, CommandSpec};
use super::shared;
use super::shared::{default_settled_path, directory_of, first_present};
use crate::decimal;
use crate::decimal::dec_text;
use crate::layout;
use crate::layout::push_line;
use crate::order;
use crate::path;
use crate::path::{is_under, join};
use crate::text;
use crate::text::{concat2, concat3, concat5, concat7};
use vstd::prelude::*;
use vstd::string::*;

verus! {

/// Which of the two groups of verbs is asked.
#[derive(Clone, Copy, Debug, PartialEq, Eq, Structural)]
pub enum House {
    /// `kennel policy`: what is run.
    Policy,
    /// `kennel template`: the shared bases.
    Template,
}

impl House {
    /// What an object of the house is called.
    pub open spec fn noun_text(self) -> Seq<char> {
        match self {
            House::Policy => "policy"@,
            House::Template => "template"@,
        }
    }

    /// What an object of the house is called.
    pub fn noun(self) -> (r: &'static str)
        ensures
            r@ == self.noun_text(),
    {
        match self {
            House::Policy => "policy",
            House::Template => "template",
        }
    }

    /// The directory that holds the objects of the house.
    pub open spec fn leaf_text(self) -> Seq<char> {
        match self {
            House::Policy => "policies"@,
            House::Template => "templates"@,
        }
    }

    /// The directory that holds the objects of the house.
    pub fn repo_leaf(self) -> (r: &'static str)
        ensures
            r@ == self.leaf_text(),
    {
        match self {
            House::Policy => "policies",
            House::Template => "templates",
        }
    }
}

// ---- arguments -----------------------------------------------------------------

/// What `kennel policy compile` is asked for.
#[derive(Debug)]
pub struct CompileArgs {
    /// The policy.
    pub policy: String,
    /// Where the settled form goes.
    pub output: Option<String>,
    /// The signing key.
    pub key: Option<String>,
    /// The key id to stamp.
    pub key_id: Option<String>,
    /// Whether the settled form stays unsigned.
    pub unsigned: bool,
    /// Whether unsigned templates are refused.
    pub require_signed: bool,
    /// Whether no lock file is kept.
    pub no_lock: bool,
    /// Template directories searched first.
    pub template_dirs: Vec<String>,
    /// Trust directories searched first.
    pub trust_dirs: Vec<String>,
}

/// The command line of `kennel policy compile`.
pub open spec fn compile_shape() -> args::Shape {
    args::Shape {
        switches: seq!["--unsigned"@, "--require-signed"@, "--no-lock"@],
        options: seq!["--output"@, "--key"@, "--key-id"@, "--template-dir"@, "--trust-dir"@],
        room: 1,
        extra: "only one <policy> may be given"@,
    }
}

impl CompileArgs {
    /// Whether these are the arguments that the parts of the command line give.
    pub open spec fn reads(self, ps: Seq<args::Part>) -> bool {
        &&& args::word(ps, 0) == Some(self.policy@)
        &&& layout::opt(self.output) == args::chosen(ps, "--output"@)
        &&& layout::opt(self.key) == args::chosen(ps, "--key"@)
        &&& layout::opt(self.key_id) == args::chosen(ps, "--key-id"@)
        &&& self.unsigned == args::given(ps, "--unsigned"@)
        &&& self.require_signed == args::given(ps, "--require-signed"@)
        &&& self.no_lock == args::given(ps, "--no-lock"@)
        &&& text::texts(self.template_dirs@) == args::values(ps, "--template-dir"@)
        &&& text::texts(self.trust_dirs@) == args::values(ps, "--trust-dir"@)
    }
}

/// What `kennel policy compile` is asked for, or what is wrong with its arguments.
pub fn compile_args(list: &[String]) -> (r: Result<CompileArgs, String>)
    ensures
        match args::scanned(text::texts(list@), compile_shape()) {
            Err(e) => r matches Err(m) && m@ == e,
            Ok(ps) => if args::words(ps).len() == 0 {
                r matches Err(m) && m@ == "usage: kennel policy compile <policy> [--output P] [--key K | --unsigned] [--key-id ID] [--require-signed] [--no-lock] [--template-dir D]... [--trust-dir D]..."@
            } else {
                r matches Ok(a) && a.reads(ps)
            },
        },
{
    let sw: [&str; 3] = ["--unsigned", "--require-signed", "--no-lock"];
    let op: [&str; 5] = ["--output", "--key", "--key-id", "--template-dir", "--trust-dir"];
    proof {
        assert(text::strs(sw@) =~= compile_shape().switches);
        assert(text::strs(op@) =~= compile_shape().options);
    }
    let items = match scan(list, &sw, &op, 1, "only one <policy> may be given") {
        Err(e) => {
            return Err(e);
        },
        Ok(items) => items,
    };
    let items = items.as_slice();
    let policy = match word_at(items, 0) {
        None => {
            return Err("usage: kennel policy compile <policy> [--output P] [--key K | --unsigned] [--key-id ID] [--require-signed] [--no-lock] [--template-dir D]... [--trust-dir D]...".to_owned());
        },
        Some(w) => w,
    };
    Ok(
        CompileArgs {
            policy,
            output: last_of(items, "--output"),
            key: last_of(items, "--key"),
            key_id: last_of(items, "--key-id"),
            unsigned: is_given(items, "--unsigned"),
            require_signed: is_given(items, "--require-signed"),
            no_lock: is_given(items, "--no-lock"),
            template_dirs: all_of(items, "--template-dir"),
            trust_dirs: all_of(items, "--trust-dir"),
        },
    )
}

/// What `kennel policy validate` is asked for.
#[derive(Debug)]
pub struct ValidateArgs {
    /// The policy.
    pub policy: String,
    /// Whether unsigned templates are refused.
    pub require_signed: bool,
    /// Template directories searched first.
    pub template_dirs: Vec<String>,
    /// Trust directories searched first.
    pub trust_dirs: Vec<String>,
}

/// The command line of `kennel policy validate`.
pub open spec fn validate_shape() -> args::Shape {
    args::Shape {
        switches: seq!["--require-signed"@],
        options: seq!["--template-dir"@, "--trust-dir"@],
        room: 1,
        extra: "only one <policy> may be given"@,
    }
}

impl ValidateArgs {
    /// Whether these are the arguments that the parts of the command line give.
    pub open spec fn reads(self, ps: Seq<args::Part>) -> bool {
        &&& args::word(ps, 0) == Some(self.policy@)
        &&& self.require_signed == args::given(ps, "--require-signed"@)
        &&& text::texts(self.template_dirs@) == args::values(ps, "--template-dir"@)
        &&& text::texts(self.trust_dirs@) == args::values(ps, "--trust-dir"@)
    }
}

/// What `kennel policy validate` is asked for, or what is wrong with its arguments.
pub fn validate_args(list: &[String]) -> (r: Result<ValidateArgs, String>)
    ensures
        match args::scanned(text::texts(list@), validate_shape()) {
            Err(e) => r matches Err(m) && m@ == e,
            Ok(ps) => if args::words(ps).len() == 0 {
                r matches Err(m) && m@ == "usage: kennel policy validate <policy> [--template-dir D] [--require-signed]"@
            } else {
                r matches Ok(a) && a.reads(ps)
            },
        },
{
    let sw: [&str; 1] = ["--require-signed"];
    let op: [&str; 2] = ["--template-dir", "--trust-dir"];
    proof {
        assert(text::strs(sw@) =~= validate_shape().switches);
        assert(text::strs(op@) =~= validate_shape().options);
    }
    let items = match scan(list, &sw, &op, 1, "only one <policy> may be given") {
        Err(e) => {
            return Err(e);
        },
        Ok(items) => items,
    };
    let items = items.as_slice();
    let policy = match word_at(items, 0) {
        None => {
            return Err("usage: kennel policy validate <policy> [--template-dir D] [--require-signed]".to_owned());
        },
        Some(w) => w,
    };
    Ok(
        ValidateArgs {
            policy,
            require_signed: is_given(items, "--require-signed"),
            template_dirs: all_of(items, "--template-dir"),
            trust_dirs: all_of(items, "--trust-dir"),
        },
    )
}

/// What `kennel policy risks` is asked for.
#[derive(Debug)]
pub struct RisksArgs {
    /// The policy.
    pub policy: String,
    /// Whether the report is JSON.
    pub json: bool,
    /// Template directories searched first.
    pub template_dirs: Vec<String>,
    /// Trust directories searched first.
    pub trust_dirs: Vec<String>,
}

/// The command line of `kennel policy risks`.
pub open spec fn risks_shape() -> args::Shape {
    args::Shape {
        switches: seq!["--json"@],
        options: seq!["--template-dir"@, "--trust-dir"@],
        room: 1,
        extra: "only one <policy> may be given"@,
    }
}

impl RisksArgs {
    /// Whether these are the arguments that the parts of the command line give.
    pub open spec fn reads(self, ps: Seq<args::Part>) -> bool {
        &&& args::word(ps, 0) == Some(self.policy@)
        &&& self.json == args::given(ps, "--json"@)
        &&& text::texts(self.template_dirs@) == args::values(ps, "--template-dir"@)
        &&& text::texts(self.trust_dirs@) == args::values(ps, "--trust-dir"@)
    }
}

/// What `kennel policy risks` is asked for, or what is wrong with its arguments.
pub fn risks_args(list: &[String]) -> (r: Result<RisksArgs, String>)
    ensures
        match args::scanned(text::texts(list@), risks_shape()) {
            Err(e) => r matches Err(m) && m@ == e,
            Ok(ps) => if args::words(ps).len() == 0 {
                r matches Err(m) && m@ == "usage: kennel policy risks <policy> [--template-dir D]... [--trust-dir D]... [--json]"@
            } else {
                r matches Ok(a) && a.reads(ps)
            },
        },
{
    let sw: [&str; 1] = ["--json"];
    let op: [&str; 2] = ["--template-dir", "--trust-dir"];
    proof {
        assert(text::strs(sw@) =~= risks_shape().switches);
        assert(text::strs(op@) =~= risks_shape().options);
    }
    let items = match scan(list, &sw, &op, 1, "only one <policy> may be given") {
        Err(e) => {
            return Err(e);
        },
        Ok(items) => items,
    };
    let items = items.as_slice();
    let policy = match word_at(items, 0) {
        None => {
            return Err("usage: kennel policy risks <policy> [--template-dir D]... [--trust-dir D]... [--json]".to_owned());
        },
        Some(w) => w,
    };
    Ok(
        RisksArgs {
            policy,
            json: is_given(items, "--json"),
            template_dirs: all_of(items, "--template-dir"),
            trust_dirs: all_of(items, "--trust-dir"),
        },
    )
}

/// What `kennel policy diff` is asked for.
#[derive(Debug)]
pub struct DiffArgs {
    /// The policy.
    pub policy: String,
    /// The policy to compare with.
    pub other: Option<String>,
    /// Whether the difference is JSON.
    pub json: bool,
    /// Template directories searched first.
    pub template_dirs: Vec<String>,
    /// Trust directories searched first.
    pub trust_dirs: Vec<String>,
}

/// The command line of `kennel policy diff`.
pub open spec fn diff_shape() -> args::Shape {
    args::Shape {
        switches: seq!["--json"@],
        options: seq!["--template-dir"@, "--trust-dir"@],
        room: 2,
        extra: "at most two policies may be given"@,
    }
}

impl DiffArgs {
    /// Whether these are the arguments that the parts of the command line give.
    pub open spec fn reads(self, ps: Seq<args::Part>) -> bool {
        &&& args::word(ps, 0) == Some(self.policy@)
        &&& layout::opt(self.other) == args::word(ps, 1)
        &&& self.json == args::given(ps, "--json"@)
        &&& text::texts(self.template_dirs@) == args::values(ps, "--template-dir"@)
        &&& text::texts(self.trust_dirs@) == args::values(ps, "--trust-dir"@)
    }
}

/// What `kennel policy diff` is asked for, or what is wrong with its arguments.
pub fn diff_args(list: &[String]) -> (r: Result<DiffArgs, String>)
    ensures
        match args::scanned(text::texts(list@), diff_shape()) {
            Err(e) => r matches Err(m) && m@ == e,
            Ok(ps) => if args::words(ps).len() == 0 {
                r matches Err(m) && m@ == "usage: kennel policy diff <policy> [<other>] [--template-dir D]... [--trust-dir D]... [--json]"@
            } else {
                r matches Ok(a) && a.reads(ps)
            },
        },
{
    let sw: [&str; 1] = ["--json"];
    let op: [&str; 2] = ["--template-dir", "--trust-dir"];
    proof {
        assert(text::strs(sw@) =~= diff_shape().switches);
        assert(text::strs(op@) =~= diff_shape().options);
    }
    let items = match scan(list, &sw, &op, 2, "at most two policies may be given") {
        Err(e) => {
            return Err(e);
        },
        Ok(items) => items,
    };
    let items = items.as_slice();
    let policy = match word_at(items, 0) {
        None => {
            return Err("usage: kennel policy diff <policy> [<other>] [--template-dir D]... [--trust-dir D]... [--json]".to_owned());
        },
        Some(w) => w,
    };
    Ok(
        DiffArgs {
            policy,
            other: word_at(items, 1),
            json: is_given(items, "--json"),
            template_dirs: all_of(items, "--template-dir"),
            trust_dirs: all_of(items, "--trust-dir"),
        },
    )
}

/// What `kennel template sign` is asked for.
#[derive(Debug)]
pub struct SignArgs {
    /// The template.
    pub template: String,
    /// The signing key.
    pub key: Option<String>,
    /// The key id to stamp.
    pub key_id: Option<String>,
    /// Where the signed source goes.
    pub output: Option<String>,
}

/// The command line of `kennel template sign`.
pub open spec fn sign_shape() -> args::Shape {
    args::Shape {
        switches: seq![],
        options: seq!["--key"@, "--key-id"@, "--output"@],
        room: 1,
        extra: "only one <template> may be given"@,
    }
}

impl SignArgs {
    /// Whether these are the arguments that the parts of the command line give.
    pub open spec fn reads(self, ps: Seq<args::Part>) -> bool {
        &&& args::word(ps, 0) == Some(self.template@)
        &&& layout::opt(self.key) == args::chosen(ps, "--key"@)
        &&& layout::opt(self.key_id) == args::chosen(ps, "--key-id"@)
        &&& layout::opt(self.output) == args::chosen(ps, "--output"@)
    }
}

/// What `kennel template sign` is asked for, or what is wrong with its arguments.
pub fn sign_args(list: &[String]) -> (r: Result<SignArgs, String>)
    ensures
        match args::scanned(text::texts(list@), sign_shape()) {
            Err(e) => r matches Err(m) && m@ == e,
            Ok(ps) => if args::words(ps).len() == 0 {
                r matches Err(m) && m@ == "usage: kennel template sign <template> --key <key> [--key-id <id>] [--output <path>]"@
            } else {
                r matches Ok(a) && a.reads(ps)
            },
        },
{
    let sw: [&str; 0] = [];
    let op: [&str; 3] = ["--key", "--key-id", "--output"];
    proof {
        assert(text::strs(sw@) =~= sign_shape().switches);
        assert(text::strs(op@) =~= sign_shape().options);
    }
    let items = match scan(list, &sw, &op, 1, "only one <template> may be given") {
        Err(e) => {
            return Err(e);
        },
        Ok(items) => items,
    };
    let items = items.as_slice();
    let template = match word_at(items, 0) {
        None => {
            return Err("usage: kennel template sign <template> --key <key> [--key-id <id>] [--output <path>]".to_owned());
        },
        Some(w) => w,
    };
    Ok(
        SignArgs {
            template,
            key: last_of(items, "--key"),
            key_id: last_of(items, "--key-id"),
            output: last_of(items, "--output"),
        },
    )
}

/// What `install` is asked for.
#[derive(Debug)]
pub struct InstallArgs {
    /// The source file.
    pub file: String,
    /// Whether the object goes to the host tier.
    pub host: bool,
    /// Whether an object that is there is replaced.
    pub force: bool,
    /// The signing key.
    pub key: Option<String>,
}

/// The command line of `install`.
pub open spec fn install_shape() -> args::Shape {
    args::Shape {
        switches: seq!["--host"@, "--force"@],
        options: seq!["--key"@],
        room: 1,
        extra: "only one <file.toml> may be given"@,
    }
}

impl InstallArgs {
    /// Whether these are the arguments that the parts of the command line give.
    pub open spec fn reads(self, ps: Seq<args::Part>) -> bool {
        &&& args::word(ps, 0) == Some(self.file@)
        &&& self.host == args::given(ps, "--host"@)
        &&& self.force == args::given(ps, "--force"@)
        &&& layout::opt(self.key) == args::chosen(ps, "--key"@)
    }
}

/// What `install` is asked for, or what is wrong with its arguments.
pub fn install_args(list: &[String], house: House) -> (r: Result<InstallArgs, String>)
    ensures
        match args::scanned(text::texts(list@), install_shape()) {
            Err(e) => r matches Err(m) && m@ == e,
            Ok(ps) => if args::words(ps).len() == 0 {
                r matches Err(m) && m@ == "usage: kennel "@ + house.noun_text() + " install <file.toml> [--host] [--force] [--key K]"@
            } else {
                r matches Ok(a) && a.reads(ps)
            },
        },
{
    let sw: [&str; 2] = ["--host", "--force"];
    let op: [&str; 1] = ["--key"];
    proof {
        assert(text::strs(sw@) =~= install_shape().switches);
        assert(text::strs(op@) =~= install_shape().options);
    }
    let items = match scan(list, &sw, &op, 1, "only one <file.toml> may be given") {
        Err(e) => {
            return Err(e);
        },
        Ok(items) => items,
    };
    let items = items.as_slice();
    let file = match word_at(items, 0) {
        None => {
            return Err(concat3("usage: kennel ", house.noun(), " install <file.toml> [--host] [--force] [--key K]"));
        },
        Some(w) => w,
    };
    Ok(
        InstallArgs {
            file,
            host: is_given(items, "--host"),
            force: is_given(items, "--force"),
            key: last_of(items, "--key"),
        },
    )
}

/// What `clone` is asked for.
#[derive(Debug)]
pub struct CloneArgs {
    /// The object.
    pub name: String,
    /// The name of the copy.
    pub new_name: Option<String>,
    /// The signing key.
    pub key: Option<String>,
}

/// The command line of `clone`.
pub open spec fn clone_shape() -> args::Shape {
    args::Shape {
        switches: seq![],
        options: seq!["--key"@],
        room: 2,
        extra: "at most <name> and <new-name> may be given"@,
    }
}

impl CloneArgs {
    /// Whether these are the arguments that the parts of the command line give.
    pub open spec fn reads(self, ps: Seq<args::Part>) -> bool {
        &&& args::word(ps, 0) == Some(self.name@)
        &&& layout::opt(self.new_name) == args::word(ps, 1)
        &&& layout::opt(self.key) == args::chosen(ps, "--key"@)
    }
}

/// What `clone` is asked for, or what is wrong with its arguments.
pub fn clone_args(list: &[String], house: House) -> (r: Result<CloneArgs, String>)
    ensures
        match args::scanned(text::texts(list@), clone_shape()) {
            Err(e) => r matches Err(m) && m@ == e,
            Ok(ps) => if args::words(ps).len() == 0 {
                r matches Err(m) && m@ == "usage: kennel "@ + house.noun_text() + " clone <name> [<new-name>] [--key K]"@
            } else {
                r matches Ok(a) && a.reads(ps)
            },
        },
{
    let sw: [&str; 0] = [];
    let op: [&str; 1] = ["--key"];
    proof {
        assert(text::strs(sw@) =~= clone_shape().switches);
        assert(text::strs(op@) =~= clone_shape().options);
    }
    let items = match scan(list, &sw, &op, 2, "at most <name> and <new-name> may be given") {
        Err(e) => {
            return Err(e);
        },
        Ok(items) => items,
    };
    let items = items.as_slice();
    let name = match word_at(items, 0) {
        None => {
            return Err(concat3("usage: kennel ", house.noun(), " clone <name> [<new-name>] [--key K]"));
        },
        Some(w) => w,
    };
    Ok(
        CloneArgs {
            name,
            new_name: word_at(items, 1),
            key: last_of(items, "--key"),
        },
    )
}

/// What `show` is asked for.
#[derive(Debug)]
pub struct ShowArgs {
    /// The object.
    pub name: String,
    /// Template directories searched first.
    pub template_dirs: Vec<String>,
    /// Trust directories searched first.
    pub trust_dirs: Vec<String>,
}

/// The command line of `show`.
pub open spec fn show_form(table: Seq<CommandSpec>) -> options::Form {
    options::Form {
        switches: seq![],
        options: seq!["template-dir"@, "trust-dir"@],
        room: 1,
        table,
        verb: "show"@,
    }
}

/// What `show` is asked for, or what is wrong with its arguments.
pub fn show_args(list: &[String], table: &[CommandSpec]) -> (r: Result<ShowArgs, String>)
    ensures
        match options::walked(text::texts(list@), options::Held::Nothing, show_form(table@)) {
            Err(e) => r matches Err(m) && m@ == e,
            Ok(ps) => match args::word(ps, 0) {
                None => r matches Err(m) && m@ == options::usage(table@, "show"@),
                Some(name) => r matches Ok(a) && a.name@ == name && text::texts(a.template_dirs@)
                    == args::values(ps, "template-dir"@) && text::texts(a.trust_dirs@)
                    == args::values(ps, "trust-dir"@),
            },
        },
{
    let sw: [&str; 0] = [];
    let op: [&str; 2] = ["template-dir", "trust-dir"];
    proof {
        assert(text::strs(sw@) =~= show_form(table@).switches);
        assert(text::strs(op@) =~= show_form(table@).options);
    }
    let items = match walk(list, &sw, &op, 1, table, "show") {
        Err(e) => {
            return Err(e);
        },
        Ok(items) => items,
    };
    let items = items.as_slice();
    match word_at(items, 0) {
        None => Err(usage_of(table, "show")),
        Some(name) => Ok(
            ShowArgs {
                name,
                template_dirs: all_of(items, "template-dir"),
                trust_dirs: all_of(items, "trust-dir"),
            },
        ),
    }
}

/// What `kennel policy generate` is asked for.
#[derive(Debug)]
pub struct GenerateArgs {
    /// The new policy.
    pub name: String,
    /// The template that it inherits.
    pub from: String,
}

/// The command line of `kennel policy generate`.
pub open spec fn generate_form(table: Seq<CommandSpec>) -> options::Form {
    options::Form {
        switches: seq![],
        options: seq!["from"@],
        room: 1,
        table,
        verb: "generate"@,
    }
}

/// What `kennel policy generate` is asked for, or what is wrong with its arguments.
pub fn generate_args(list: &[String], table: &[CommandSpec]) -> (r: Result<GenerateArgs, String>)
    ensures
        match options::walked(text::texts(list@), options::Held::Nothing, generate_form(table@)) {
            Err(e) => r matches Err(m) && m@ == e,
            Ok(ps) => match args::word(ps, 0) {
                None => r matches Err(m) && m@ == options::usage(table@, "generate"@),
                Some(name) => if !shared::names_policy(name) {
                    r matches Err(m) && m@ == "`"@ + name + "` is not a valid policy name"@
                } else {
                    r matches Ok(a) && a.name@ == name && a.from@ == match args::chosen(
                        ps,
                        "from"@,
                    ) {
                        Some(f) => f,
                        None => "base-confined"@,
                    }
                },
            },
        },
{
    let sw: [&str; 0] = [];
    let op: [&str; 1] = ["from"];
    proof {
        assert(text::strs(sw@) =~= generate_form(table@).switches);
        assert(text::strs(op@) =~= generate_form(table@).options);
    }
    let items = match walk(list, &sw, &op, 1, table, "generate") {
        Err(e) => {
            return Err(e);
        },
        Ok(items) => items,
    };
    let items = items.as_slice();
    let name = match word_at(items, 0) {
        None => {
            return Err(usage_of(table, "generate"));
        },
        Some(name) => name,
    };
    if !shared::is_valid_policy_name(name.as_str()) {
        return Err(concat3("`", name.as_str(), "` is not a valid policy name"));
    }
    let from = match last_of(items, "from") {
        Some(f) => f,
        None => "base-confined".to_owned(),
    };
    Ok(GenerateArgs { name, from })
}

/// What `kennel template lint` is asked for.
#[derive(Debug)]
pub struct LintArgs {
    /// Template directories searched first.
    pub template_dirs: Vec<String>,
    /// Trust directories searched first.
    pub trust_dirs: Vec<String>,
}

/// The command line of `kennel template lint`.
pub open spec fn lint_form(table: Seq<CommandSpec>) -> options::Form {
    options::Form {
        switches: seq![],
        options: seq!["template-dir"@, "trust-dir"@],
        room: 0,
        table,
        verb: "lint"@,
    }
}

/// What `kennel template lint` is asked for, or what is wrong with its arguments.
pub fn lint_args(list: &[String], table: &[CommandSpec]) -> (r: Result<LintArgs, String>)
    ensures
        match options::walked(text::texts(list@), options::Held::Nothing, lint_form(table@)) {
            Err(e) => r matches Err(m) && m@ == e,
            Ok(ps) => r matches Ok(a) && text::texts(a.template_dirs@) == args::values(
                ps,
                "template-dir"@,
            ) && text::texts(a.trust_dirs@) == args::values(ps, "trust-dir"@),
        },
{
    let sw: [&str; 0] = [];
    let op: [&str; 2] = ["template-dir", "trust-dir"];
    proof {
        assert(text::strs(sw@) =~= lint_form(table@).switches);
        assert(text::strs(op@) =~= lint_form(table@).options);
    }
    match walk(list, &sw, &op, 0, table, "lint") {
        Err(e) => Err(e),
        Ok(items) => Ok(
            LintArgs {
                template_dirs: all_of(items.as_slice(), "template-dir"),
                trust_dirs: all_of(items.as_slice(), "trust-dir"),
            },
        ),
    }
}

/// The command line of `kennel policy inspect`.
pub open spec fn inspect_form(table: Seq<CommandSpec>) -> options::Form {
    options::Form {
        switches: seq!["unix"@],
        options: seq!["template-dir"@, "trust-dir"@],
        room: 1,
        table,
        verb: "inspect"@,
    }
}

/// What `kennel policy inspect` is asked for, or what is wrong with its arguments: without `--unix`
/// there is nothing to inspect.
pub fn inspect_args(list: &[String], table: &[CommandSpec]) -> (r: Result<ShowArgs, String>)
    ensures
        match options::walked(text::texts(list@), options::Held::Nothing, inspect_form(table@)) {
            Err(e) => r matches Err(m) && m@ == e,
            Ok(ps) => match args::word(ps, 0) {
                None => r matches Err(m) && m@ == options::usage(table@, "inspect"@),
                Some(name) => if !args::given(ps, "unix"@) {
                    r matches Err(m) && m@
                        == "no grant filter specified — use --unix to inspect AF_UNIX grants"@
                } else {
                    r matches Ok(a) && a.name@ == name && text::texts(a.template_dirs@)
                        == args::values(ps, "template-dir"@) && text::texts(a.trust_dirs@)
                        == args::values(ps, "trust-dir"@)
                },
            },
        },
{
    let sw: [&str; 1] = ["unix"];
    let op: [&str; 2] = ["template-dir", "trust-dir"];
    proof {
        assert(text::strs(sw@) =~= inspect_form(table@).switches);
        assert(text::strs(op@) =~= inspect_form(table@).options);
    }
    let items = match walk(list, &sw, &op, 1, table, "inspect") {
        Err(e) => {
            return Err(e);
        },
        Ok(items) => items,
    };
    let items = items.as_slice();
    let name = match word_at(items, 0) {
        None => {
            return Err(usage_of(table, "inspect"));
        },
        Some(name) => name,
    };
    if !is_given(items, "unix") {
        return Err(
            "no grant filter specified — use --unix to inspect AF_UNIX grants".to_owned(),
        );
    }
    Ok(
        ShowArgs {
            name,
            template_dirs: all_of(items, "template-dir"),
            trust_dirs: all_of(items, "trust-dir"),
        },
    )
}

// ---- compiling -----------------------------------------------------------------

/// What contradicts itself in what `compile` is asked for.
pub fn compile_conflict(a: &CompileArgs) -> (r: Option<String>)
    ensures
        layout::opt(r) == if a.key is Some && a.unsigned {
            Some("--key and --unsigned are mutually exclusive"@)
        } else if a.key_id is Some && a.unsigned {
            Some("--key-id and --unsigned are mutually exclusive"@)
        } else {
            None
        },
{
    if a.key.is_some() && a.unsigned {
        Some("--key and --unsigned are mutually exclusive".to_owned())
    } else if a.key_id.is_some() && a.unsigned {
        Some("--key-id and --unsigned are mutually exclusive".to_owned())
    } else {
        None
    }
}

/// Where the files of a compiled policy go: the settled form, the keys minted for it, and its lock.
#[derive(Debug)]
pub struct CompileOutput {
    /// The settled form.
    pub settled: String,
    /// The directory of the minted keys.
    pub ssh_dir: String,
    /// The lock file.
    pub lock: String,
}

/// Where the lock of a policy goes: beside its settled form.
pub fn lock_path_for(output: &str, name: &str) -> (r: String)
    ensures
        r@ == path::joined(shared::dir_of(output@), name@ + ".lock"@),
{
    let dir = directory_of(output);
    join(dir.as_str(), concat2(name, ".lock").as_str())
}

/// Where the files of the compiled policy `name` go: the settled form as asked for or beside the
/// source, the rest beside the settled form.
pub fn compile_output(a: &CompileArgs, policy_path: &str, name: &str) -> (r: CompileOutput)
    ensures
        r.settled@ == match layout::opt(a.output) {
            Some(o) => o,
            None => path::joined(shared::dir_of(policy_path@), name@ + ".settled.toml"@),
        },
        r.ssh_dir@ == path::joined(shared::dir_of(r.settled@), "ssh"@),
        r.lock@ == path::joined(shared::dir_of(r.settled@), name@ + ".lock"@),
{
    let settled = match &a.output {
        Some(o) => o.clone(),
        None => default_settled_path(policy_path, name),
    };
    let dir = directory_of(settled.as_str());
    let ssh_dir = join(dir.as_str(), "ssh");
    let lock = lock_path_for(settled.as_str(), name);
    CompileOutput { settled, ssh_dir, lock }
}

/// The key that signs a compiled policy.
#[derive(Debug)]
pub enum SigningKey {
    /// None: the settled form stays unsigned.
    Unsigned,
    /// The one that is named.
    Named(String),
    /// The only one in the key directory.
    Default,
}

/// The key that signs a compiled policy.
pub fn signing_key(a: &CompileArgs) -> (r: SigningKey)
    ensures
        match r {
            SigningKey::Unsigned => a.unsigned,
            SigningKey::Named(k) => !a.unsigned && layout::opt(a.key) == Some(k@),
            SigningKey::Default => !a.unsigned && a.key is None,
        },
{
    if a.unsigned {
        return SigningKey::Unsigned;
    }
    match &a.key {
        Some(k) => SigningKey::Named(k.clone()),
        None => SigningKey::Default,
    }
}

/// What is said of a policy that was compiled.
pub fn compiled_text(name: &str, out: &str, unsigned: bool) -> (r: String)
    ensures
        r@ == "compiled `"@ + name@ + "` -> "@ + out@ + if unsigned {
            " (unsigned development build)"@
        } else {
            ""@
        },
{
    concat5(
        "compiled `",
        name,
        "` -> ",
        out,
        if unsigned {
            " (unsigned development build)"
        } else {
            ""
        },
    )
}

/// What is said of a policy that is valid, with its references and its substitutions left to run
/// time.
pub fn valid_text(name: &str, references: usize, deferred: usize) -> (r: String)
    ensures
        r@ == "valid: `"@ + name@ + "` resolves cleanly ("@ + decimal::dec(references as nat)
            + " references, "@ + decimal::dec(deferred as nat) + " deferred substitutions)"@,
{
    let a = dec_text(references as u64);
    let b = dec_text(deferred as u64);
    concat7(
        "valid: `",
        name,
        "` resolves cleanly (",
        a.as_str(),
        " references, ",
        b.as_str(),
        " deferred substitutions)",
    )
}

/// The warnings of a compile, as they are printed.
pub fn warning_lines(warnings: &[String]) -> (out: Vec<String>)
    ensures
        text::texts(out@) == text::texts(warnings@).map_values(
            |w: Seq<char>| "kennel: warning: "@ + w,
        ),
{
    let ghost want = text::texts(warnings@).map_values(|w: Seq<char>| "kennel: warning: "@ + w);
    let mut out: Vec<String> = Vec::new();
    let mut i: usize = 0;
    assert(text::texts(out@) =~= want.take(0));
    while i < warnings.len()
        invariant
            i <= warnings@.len(),
            want == text::texts(warnings@).map_values(|w: Seq<char>| "kennel: warning: "@ + w),
            text::texts(out@) == want.take(i as int),
        decreases warnings@.len() - i,
    {
        push_line(&mut out, concat2("kennel: warning: ", warnings[i].as_str()));
        i = i + 1;
        assert(text::texts(out@) =~= want.take(i as int));
    }
    assert(want.take(want.len() as int) =~= want);
    out
}

/// A settled policy that is on disk only as long as a run needs it.
#[derive(Debug)]
pub struct TempSettled {
    path: String,
}

/// The place of a temporary settled policy: in `dir`, by the kennel and the process.
pub open spec fn temp_place(dir: Seq<char>, name: Seq<char>, pid: u32) -> Seq<char> {
    path::joined(dir, "kennel-run-"@ + name + "-"@ + decimal::dec(pid as nat) + ".settled"@)
}

impl TempSettled {
    /// Where it is.
    pub closed spec fn place(self) -> Seq<char> {
        self.path@
    }

    /// Where it is written: below the runtime directory where there is one, else below the
    /// directory for temporary files.
    pub fn write(runtime_dir: Option<&str>, temp_dir: &str, name: &str, pid: u32) -> (t: TempSettled)
        ensures
            t.place() == temp_place(
                match runtime_dir {
                    Some(d) => d@,
                    None => temp_dir@,
                },
                name@,
                pid,
            ),
    {
        match runtime_dir {
            Some(d) => TempSettled::write_in(d, name, pid),
            None => TempSettled::write_in(temp_dir, name, pid),
        }
    }

    /// Where it is written in a directory, beside what the daemon finds relative to it.
    pub fn write_in(dir: &str, name: &str, pid: u32) -> (t: TempSettled)
        ensures
            t.place() == temp_place(dir@, name@, pid),
    {
        let n = dec_text(pid as u64);
        let leaf = concat5("kennel-run-", name, "-", n.as_str(), ".settled");
        TempSettled { path: join(dir, leaf.as_str()) }
    }

    /// Where it is.
    pub fn path(&self) -> (r: &str)
        ensures
            r@ == self.place(),
    {
        self.path.as_str()
    }
}

/// Where templates are read from.
#[derive(Debug)]
pub struct FsTemplateSource {
    /// The template directories, first one first.
    pub dirs: Vec<String>,
}

/// Where the settled form of a named template is looked for: in each directory as a file of its
/// own, then in a directory of its own.
pub open spec fn settled_template_places(dirs: Seq<Seq<char>>, name: Seq<char>) -> Seq<Seq<char>>
    decreases dirs.len(),
{
    if dirs.len() == 0 {
        seq![]
    } else {
        settled_template_places(dirs.drop_last(), name) + seq![
            path::joined(dirs.last(), name + ".settled.toml"@),
            shared::settled_in(dirs.last(), name),
        ]
    }
}

impl FsTemplateSource {
    /// Where the source of a named template is looked for; the first that can be read counts.
    pub fn fetch_places(&self, name: &str) -> (out: Vec<String>)
        ensures
            text::texts(out@) == shared::template_places(text::texts(self.dirs@), name@),
    {
        shared::places_of_template(self.dirs.as_slice(), name)
    }

    /// Where the settled form of a named template is looked for; the first that can be read counts.
    pub fn fetch_settled_places(&self, name: &str) -> (out: Vec<String>)
        ensures
            text::texts(out@) == settled_template_places(text::texts(self.dirs@), name@),
    {
        let dirs = self.dirs.as_slice();
        let ghost ds = text::texts(dirs@);
        let mut out: Vec<String> = Vec::new();
        let mut i: usize = 0;
        assert(ds.take(0) =~= seq![]);
        assert(text::texts(out@) =~= seq![]);
        while i < dirs.len()
            invariant
                i <= dirs@.len(),
                ds == text::texts(dirs@),
                text::texts(out@) == settled_template_places(ds.take(i as int), name@),
            decreases dirs@.len() - i,
        {
            let ghost before = text::texts(out@);
            let dir = dirs[i].as_str();
            proof {
                assert(ds.take(i + 1).drop_last() =~= ds.take(i as int));
                assert(ds.take(i + 1).last() == dir@);
            }
            let a = join(dir, concat2(name, ".settled.toml").as_str());
            let b = shared::settled_place(dir, name);
            let ghost (ga, gb) = (a@, b@);
            push_line(&mut out, a);
            push_line(&mut out, b);
            assert(text::texts(out@) =~= before + seq![ga, gb]);
            i = i + 1;
        }
        assert(ds.take(ds.len() as int) =~= ds);
        out
    }
}

// ---- kinds and places ----------------------------------------------------------

/// What the source of a policy is, by its identity: `parsed` tells whether it parses, the next two
/// which names it has, `based` whether it inherits, `additive` whether it only adds. A name with
/// nothing inherited and only additions is a fragment, any other name a leaf.
pub fn policy_kind(parsed: bool, template_name: bool, name: bool, based: bool, additive: bool) -> (r:
    &'static str)
    ensures
        r@ == if !parsed {
            "source"@
        } else if template_name {
            "template"@
        } else if !name {
            "source"@
        } else if !based && additive {
            "fragment"@
        } else {
            "leaf"@
        },
{
    if !parsed {
        "source"
    } else if template_name {
        "template"
    } else if !name {
        "source"
    } else if !based && additive {
        "fragment"
    } else {
        "leaf"
    }
}

/// Where the threat catalogue is looked for: the host's, then the vendor's.
pub open spec fn catalogue_places() -> Seq<Seq<char>> {
    seq![
        path::joined(path::joined("/etc/kennel"@, "threats"@), "catalogue.toml"@),
        path::joined(path::joined("/usr/lib/kennel"@, "threats"@), "catalogue.toml"@),
    ]
}

/// The threat catalogue on disk; `None` where the built-in one is used.
pub fn catalogue_path<F: Fn(&str) -> bool>(is_file: &F) -> (r: Option<String>)
    requires
        forall|s: &str| call_requires(*is_file, (s,)),
    ensures
        match r {
            Some(p) => exists|i: int|
                shared::first_at(*is_file, catalogue_places(), i) && p@
                    == #[trigger] catalogue_places()[i],
            None => shared::nowhere(*is_file, catalogue_places()),
        },
{
    let mut places: Vec<String> = Vec::new();
    push_line(&mut places, join(join("/etc/kennel", "threats").as_str(), "catalogue.toml"));
    push_line(&mut places, join(join("/usr/lib/kennel", "threats").as_str(), "catalogue.toml"));
    assert(text::texts(places@) =~= catalogue_places());
    match first_present(places.as_slice(), is_file) {
        Some(i) => {
            assert(catalogue_places()[i as int] == places@[i as int]@);
            Some(places[i].clone())
        },
        None => None,
    }
}

/// Whether a path lies below a directory that the operator does not edit.
pub open spec fn in_system_dir(p: Seq<char>) -> bool {
    path::lies_under(p, "/etc/kennel"@) || path::lies_under(p, "/usr/lib/kennel"@)
}

/// The file that is edited for the policy `name` whose source is at `source`: a source that the
/// operator does not edit is copied below `own` first, and the copy is edited.
pub open spec fn edited(source: Seq<char>, own: Seq<char>, name: Seq<char>) -> Seq<char> {
    if in_system_dir(source) {
        shared::source_in(own, name)
    } else {
        source
    }
}

/// An edit never changes the system's copy of a policy: what is edited is outside of the system's
/// directories wherever the operator's own directory is.
pub proof fn law_edits_spare_the_system_copy(source: Seq<char>, own: Seq<char>, name: Seq<char>)
    requires
        !in_system_dir(shared::source_in(own, name)),
    ensures
        !in_system_dir(edited(source, own, name)),
        in_system_dir(source) ==> edited(source, own, name) != source,
{
}

/// The file that is edited for the policy `name` whose source is at `source`.
pub fn edit_target(source: &str, own: &str, name: &str) -> (r: String)
    ensures
        r@ == edited(source@, own@, name@),
{
    if is_under(source, "/etc/kennel") || is_under(source, "/usr/lib/kennel") {
        shared::source_place(own, name)
    } else {
        source.to_owned()
    }
}

// ---- generating, linting and comparing -----------------------------------------

/// The source of a new policy.
pub fn scaffold(name: &str, from: &str) -> (r: String)
    ensures
        r@ == "# Leaf policy `"@ + name@ + "` — see `kennel policy show "@ + name@
            + "` for what it resolves to.\nname = \""@ + name@ + "\"\ntemplate_base = \""@ + from@
            + "\"\n\n# The command this kennel runs (optional — omit to pass `-- <cmd>` at run time).\n# [workload]\n# argv = [\"/bin/bash\"]\n# pinned = false          # refuse a `-- <cmd>` override unless --force\n# sha256 = []             # accepted binary digests (empty = no pin)\n"@,
{
    let head = concat7(
        "# Leaf policy `",
        name,
        "` — see `kennel policy show ",
        name,
        "` for what it resolves to.\nname = \"",
        name,
        "\"\ntemplate_base = \"",
    );
    concat3(
        head.as_str(),
        from,
        "\"\n\n# The command this kennel runs (optional — omit to pass `-- <cmd>` at run time).\n# [workload]\n# argv = [\"/bin/bash\"]\n# pinned = false          # refuse a `-- <cmd>` override unless --force\n# sha256 = []             # accepted binary digests (empty = no pin)\n",
    )
}

/// What is said when a file that is there would be overwritten.
pub fn exists_text(dest: &str) -> (r: String)
    ensures
        r@ == dest@ + " already exists; refusing to overwrite"@,
{
    concat2(dest, " already exists; refusing to overwrite")
}

/// The templates that are linted: every name that was found, once, in the order of texts.
pub fn lint_names(found: &[String]) -> (out: Vec<String>)
    ensures
        text::texts(out@) == order::ascending(text::texts(found@)),
{
    order::ascending_texts(found)
}

/// What came of linting one template.
#[derive(Debug)]
pub enum LintOutcome {
    /// It did not compile; the error.
    Broken(String),
    /// It compiled; what was found.
    Checked(Vec<String>),
}

/// How many findings there are: one for a template that does not compile.
pub open spec fn findings(outcomes: Seq<LintOutcome>) -> nat
    decreases outcomes.len(),
{
    if outcomes.len() == 0 {
        0
    } else {
        findings(outcomes.drop_last()) + match outcomes.last() {
            LintOutcome::Broken(_) => 1nat,
            LintOutcome::Checked(fs) => fs@.len(),
        }
    }
}

/// How many templates compiled.
pub open spec fn compiled(outcomes: Seq<LintOutcome>) -> nat
    decreases outcomes.len(),
{
    if outcomes.len() == 0 {
        0
    } else {
        compiled(outcomes.drop_last()) + match outcomes.last() {
            LintOutcome::Broken(_) => 0nat,
            LintOutcome::Checked(_) => 1,
        }
    }
}

/// `n`, or the largest count where it is larger.
pub open spec fn capped(n: nat) -> nat {
    if n > usize::MAX {
        usize::MAX as nat
    } else {
        n
    }
}

/// The last line of a lint run and its exit status: 0 where all is clean, 7 otherwise.
pub fn lint_summary(outcomes: &[LintOutcome]) -> (r: (String, u8))
    ensures
        ({
            let total = capped(findings(outcomes@));
            let linted = decimal::dec(compiled(outcomes@));
            if total == 0 {
                r.0@ == "lint: "@ + linted + " template(s) clean"@ && r.1 == 0
            } else {
                r.0@ == "lint: "@ + decimal::dec(total) + " finding(s) across "@ + linted
                    + " template(s)"@ && r.1 == 7
            }
        }),
{
    let mut total: usize = 0;
    let mut linted: usize = 0;
    let mut i: usize = 0;
    assert(outcomes@.take(0) =~= seq![]);
    while i < outcomes.len()
        invariant
            i <= outcomes@.len(),
            linted <= i,
            total == capped(findings(outcomes@.take(i as int))),
            linted == compiled(outcomes@.take(i as int)),
        decreases outcomes@.len() - i,
    {
        proof {
            assert(outcomes@.take(i + 1).drop_last() =~= outcomes@.take(i as int));
            assert(outcomes@.take(i + 1).last() == outcomes@[i as int]);
        }
        match &outcomes[i] {
            LintOutcome::Broken(_) => {
                total = total.saturating_add(1);
            },
            LintOutcome::Checked(fs) => {
                linted = linted + 1;
                total = total.saturating_add(fs.len());
            },
        }
        i = i + 1;
    }
    assert(outcomes@.take(outcomes@.len() as int) =~= outcomes@);
    let n = dec_text(linted as u64);
    if total == 0 {
        (concat3("lint: ", n.as_str(), " template(s) clean"), 0)
    } else {
        let t = dec_text(total as u64);
        (concat5("lint: ", t.as_str(), " finding(s) across ", n.as_str(), " template(s)"), 7)
    }
}

/// What two policies, or a policy and its base, are compared as: what stands for the old side and
/// for the new side, and how they are labelled.
#[derive(Debug)]
pub enum Comparison {
    /// The two policies.
    Policies {
        /// The label of the first.
        old: String,
        /// The label of the second.
        new: String,
    },
    /// The base, as it is referred to, and the policy.
    Base {
        /// The base.
        reference: String,
        /// The label of the base.
        old: String,
        /// The label of the policy.
        new: String,
    },
}

/// The label of a policy: its own name where it has one, else what it was asked for as.
pub open spec fn label_of(name: Option<Seq<char>>, arg: Seq<char>) -> Seq<char> {
    match name {
        Some(n) => n,
        None => arg,
    }
}

fn label(name: &Option<String>, arg: &str) -> (r: String)
    ensures
        r@ == label_of(layout::opt(*name), arg@),
{
    match name {
        Some(n) => n.clone(),
        None => arg.to_owned(),
    }
}

/// What is compared: with a second policy the two, else the policy with the template that it
/// inherits, which it must have. `name` and `base` are what the policy declares, `other_name` what
/// the second one does.
pub fn comparison(
    a: &DiffArgs,
    name: &Option<String>,
    base: &Option<String>,
    other_name: &Option<String>,
) -> (r: Result<Comparison, String>)
    ensures
        ({
            let mine = label_of(layout::opt(*name), a.policy@);
            match (layout::opt(a.other), layout::opt(*base)) {
                (Some(other), _) => r matches Ok(Comparison::Policies { old, new }) && old@ == mine
                    && new@ == label_of(layout::opt(*other_name), other),
                (None, Some(b)) => r matches Ok(Comparison::Base { reference, old, new })
                    && reference@ == b && old@ == b + " (baseline)"@ && new@ == mine,
                (None, None) => r matches Err(m) && m@ == "`"@ + mine
                    + "` has no `template_base` to diff against; pass a second policy to compare two"@,
            }
        }),
{
    let mine = label(name, a.policy.as_str());
    match &a.other {
        Some(other) => Ok(
            Comparison::Policies { old: mine, new: label(other_name, other.as_str()) },
        ),
        None => match base {
            Some(b) => Ok(
                Comparison::Base {
                    reference: b.clone(),
                    old: concat2(b.as_str(), " (baseline)"),
                    new: mine,
                },
            ),
            None => Err(
                concat3(
                    "`",
                    mine.as_str(),
                    "` has no `template_base` to diff against; pass a second policy to compare two",
                ),
            ),
        },
    }
}

/// What is said where an object was asked for in the wrong house: `None` where it is in neither, in
/// which case the first error stands.
pub fn other_house_text(house: House, name: &str, in_other: bool) -> (r: Option<String>)
    ensures
        layout::opt(r) == if !in_other {
            None
        } else {
            Some(
                match house {
                    House::Policy => "`"@ + name@
                        + "` is a template — the shared-base house; show it with `kennel template show "@
                        + name@ + "`"@,
                    House::Template => "`"@ + name@
                        + "` is a policy, not a template — show it with `kennel policy show "@
                        + name@ + "`"@,
                },
            )
        },
{
    if !in_other {
        return None;
    }
    match house {
        House::Policy => Some(
            concat5(
                "`",
                name,
                "` is a template — the shared-base house; show it with `kennel template show ",
                name,
                "`",
            ),
        ),
        House::Template => Some(
            concat5(
                "`",
                name,
                "` is a policy, not a template — show it with `kennel policy show ",
                name,
                "`",
            ),
        ),
    }
}

// ---- command lines --------------------------------------------------------------

/// A lone word is what `kennel policy compile` works on, with no flag set and no option given.
pub proof fn law_compile_takes_a_lone_word(
    list: &[String],
    w: Seq<char>,
    r: Result<CompileArgs, String>,
)
    requires
        call_ensures(compile_args, (list,), r),
        text::texts(list@) == seq![w],
        !"--"@.is_prefix_of(w),
    ensures
        r matches Ok(x) && x.policy@ == w && x.output is None && x.key is None && x.key_id is None && !x.unsigned && !x.require_signed && !x.no_lock && x.template_dirs@.len() == 0 && x.trust_dirs@.len() == 0,
{
    let shape = compile_shape();
    reveal_strlit("--");
    reveal_strlit("--unsigned");
    reveal_strlit("--require-signed");
    reveal_strlit("--no-lock");
    reveal_strlit("--output");
    reveal_strlit("--key");
    reveal_strlit("--key-id");
    reveal_strlit("--template-dir");
    reveal_strlit("--trust-dir");
    assert("--"@.is_prefix_of("--unsigned"@)) by {
        assert("--"@ =~= "--unsigned"@.subrange(0, 2));
    }
    assert("--"@.is_prefix_of("--require-signed"@)) by {
        assert("--"@ =~= "--require-signed"@.subrange(0, 2));
    }
    assert("--"@.is_prefix_of("--no-lock"@)) by {
        assert("--"@ =~= "--no-lock"@.subrange(0, 2));
    }
    assert("--"@.is_prefix_of("--output"@)) by {
        assert("--"@ =~= "--output"@.subrange(0, 2));
    }
    assert("--"@.is_prefix_of("--key"@)) by {
        assert("--"@ =~= "--key"@.subrange(0, 2));
    }
    assert("--"@.is_prefix_of("--key-id"@)) by {
        assert("--"@ =~= "--key-id"@.subrange(0, 2));
    }
    assert("--"@.is_prefix_of("--template-dir"@)) by {
        assert("--"@ =~= "--template-dir"@.subrange(0, 2));
    }
    assert("--"@.is_prefix_of("--trust-dir"@)) by {
        assert("--"@ =~= "--trust-dir"@.subrange(0, 2));
    }
    args::lemma_scan_word(w, shape);
    let ps = seq![args::Part::Word(w)];
    assert(args::words(ps)[0] == w);
    assert(args::values(ps, "--output"@).len() == 0);
    assert(args::values(ps, "--key"@).len() == 0);
    assert(args::values(ps, "--key-id"@).len() == 0);
    assert(args::values(ps, "--template-dir"@).len() == 0);
    assert(args::values(ps, "--trust-dir"@).len() == 0);
    assert(!args::given(ps, "--unsigned"@));
    assert(!args::given(ps, "--require-signed"@));
    assert(!args::given(ps, "--no-lock"@));
    if r is Ok {
        assert(text::texts(r->Ok_0.template_dirs@).len() == r->Ok_0.template_dirs@.len());
        assert(text::texts(r->Ok_0.trust_dirs@).len() == r->Ok_0.trust_dirs@.len());
    }
}

/// A flag more on the command line of `kennel policy compile` sets that flag, and all else stays as it was.
pub proof fn law_compile_takes_a_flag(
    a: &[String],
    b: &[String],
    x: CompileArgs,
    y: CompileArgs,
    flag: Seq<char>,
)
    requires
        call_ensures(compile_args, (a,), Ok::<CompileArgs, String>(x)),
        call_ensures(compile_args, (b,), Ok::<CompileArgs, String>(y)),
        text::texts(b@) == text::texts(a@).push(flag),
        "--"@.is_prefix_of(flag),
    ensures
        y.policy@ == x.policy@,
        layout::opt(y.output) == layout::opt(x.output),
        layout::opt(y.key) == layout::opt(x.key),
        layout::opt(y.key_id) == layout::opt(x.key_id),
        y.unsigned == (x.unsigned || flag == "--unsigned"@),
        y.require_signed == (x.require_signed || flag == "--require-signed"@),
        y.no_lock == (x.no_lock || flag == "--no-lock"@),
        text::texts(y.template_dirs@) == text::texts(x.template_dirs@),
        text::texts(y.trust_dirs@) == text::texts(x.trust_dirs@),
{
    args::lemma_scan_switch(text::texts(a@), compile_shape(), flag);
    let ps = args::scanned(text::texts(a@), compile_shape())->Ok_0;
    args::lemma_part_push(ps, args::Part::Switch(flag), "--unsigned"@);
    args::lemma_part_push(ps, args::Part::Switch(flag), "--require-signed"@);
    args::lemma_part_push(ps, args::Part::Switch(flag), "--no-lock"@);
    args::lemma_part_push(ps, args::Part::Switch(flag), "--output"@);
    args::lemma_part_push(ps, args::Part::Switch(flag), "--key"@);
    args::lemma_part_push(ps, args::Part::Switch(flag), "--key-id"@);
    args::lemma_part_push(ps, args::Part::Switch(flag), "--template-dir"@);
    args::lemma_part_push(ps, args::Part::Switch(flag), "--trust-dir"@);
}

/// An option more on the command line of `kennel policy compile` gives that option its value, and all else stays as
/// it was.
pub proof fn law_compile_takes_an_option(
    a: &[String],
    b: &[String],
    x: CompileArgs,
    y: CompileArgs,
    o: Seq<char>,
    v: Seq<char>,
)
    requires
        call_ensures(compile_args, (a,), Ok::<CompileArgs, String>(x)),
        call_ensures(compile_args, (b,), Ok::<CompileArgs, String>(y)),
        text::texts(b@) == text::texts(a@).push(o).push(v),
        o == "--output"@ || o == "--key"@ || o == "--key-id"@ || o == "--template-dir"@ || o == "--trust-dir"@,
    ensures
        y.policy@ == x.policy@,
        layout::opt(y.output) == if o == "--output"@ {
            Some(v)
        } else {
            layout::opt(x.output)
        },
        layout::opt(y.key) == if o == "--key"@ {
            Some(v)
        } else {
            layout::opt(x.key)
        },
        layout::opt(y.key_id) == if o == "--key-id"@ {
            Some(v)
        } else {
            layout::opt(x.key_id)
        },
        y.unsigned == x.unsigned,
        y.require_signed == x.require_signed,
        y.no_lock == x.no_lock,
        text::texts(y.template_dirs@) == if o == "--template-dir"@ {
            text::texts(x.template_dirs@).push(v)
        } else {
            text::texts(x.template_dirs@)
        },
        text::texts(y.trust_dirs@) == if o == "--trust-dir"@ {
            text::texts(x.trust_dirs@).push(v)
        } else {
            text::texts(x.trust_dirs@)
        },
{
    let shape = compile_shape();
    reveal_strlit("--unsigned");
    reveal_strlit("--require-signed");
    reveal_strlit("--no-lock");
    reveal_strlit("--output");
    reveal_strlit("--key");
    reveal_strlit("--key-id");
    reveal_strlit("--template-dir");
    reveal_strlit("--trust-dir");
    assert("--output"@.len() != "--unsigned"@.len());
    assert("--output"@.len() != "--require-signed"@.len());
    assert("--output"@.len() != "--no-lock"@.len());
    assert("--key"@.len() != "--unsigned"@.len());
    assert("--key"@.len() != "--require-signed"@.len());
    assert("--key"@.len() != "--no-lock"@.len());
    assert("--key-id"@.len() != "--unsigned"@.len());
    assert("--key-id"@.len() != "--require-signed"@.len());
    assert("--key-id"@.len() != "--no-lock"@.len());
    assert("--template-dir"@.len() != "--unsigned"@.len());
    assert("--template-dir"@.len() != "--require-signed"@.len());
    assert("--template-dir"@.len() != "--no-lock"@.len());
    assert("--trust-dir"@.len() != "--unsigned"@.len());
    assert("--trust-dir"@.len() != "--require-signed"@.len());
    assert("--trust-dir"@.len() != "--no-lock"@.len());
    assert(shape.options[0] == "--output"@);
    assert(shape.options[1] == "--key"@);
    assert(shape.options[2] == "--key-id"@);
    assert(shape.options[3] == "--template-dir"@);
    assert(shape.options[4] == "--trust-dir"@);
    assert(shape.options.contains(o));
    assert(!shape.switches.contains(o));
    args::lemma_scan_option(text::texts(a@), shape, o, v);
    let ps = args::scanned(text::texts(a@), shape)->Ok_0;
    args::lemma_part_push(ps, args::Part::Value(o, v), "--unsigned"@);
    args::lemma_part_push(ps, args::Part::Value(o, v), "--require-signed"@);
    args::lemma_part_push(ps, args::Part::Value(o, v), "--no-lock"@);
    args::lemma_part_push(ps, args::Part::Value(o, v), "--output"@);
    args::lemma_part_push(ps, args::Part::Value(o, v), "--key"@);
    args::lemma_part_push(ps, args::Part::Value(o, v), "--key-id"@);
    args::lemma_part_push(ps, args::Part::Value(o, v), "--template-dir"@);
    args::lemma_part_push(ps, args::Part::Value(o, v), "--trust-dir"@);
}

/// A lone word is what `kennel policy validate` works on, with no flag set and no option given.
pub proof fn law_validate_takes_a_lone_word(
    list: &[String],
    w: Seq<char>,
    r: Result<ValidateArgs, String>,
)
    requires
        call_ensures(validate_args, (list,), r),
        text::texts(list@) == seq![w],
        !"--"@.is_prefix_of(w),
    ensures
        r matches Ok(x) && x.policy@ == w && !x.require_signed && x.template_dirs@.len() == 0 && x.trust_dirs@.len() == 0,
{
    let shape = validate_shape();
    reveal_strlit("--");
    reveal_strlit("--require-signed");
    reveal_strlit("--template-dir");
    reveal_strlit("--trust-dir");
    assert("--"@.is_prefix_of("--require-signed"@)) by {
        assert("--"@ =~= "--require-signed"@.subrange(0, 2));
    }
    assert("--"@.is_prefix_of("--template-dir"@)) by {
        assert("--"@ =~= "--template-dir"@.subrange(0, 2));
    }
    assert("--"@.is_prefix_of("--trust-dir"@)) by {
        assert("--"@ =~= "--trust-dir"@.subrange(0, 2));
    }
    args::lemma_scan_word(w, shape);
    let ps = seq![args::Part::Word(w)];
    assert(args::words(ps)[0] == w);
    assert(args::values(ps, "--template-dir"@).len() == 0);
    assert(args::values(ps, "--trust-dir"@).len() == 0);
    assert(!args::given(ps, "--require-signed"@));
    if r is Ok {
        assert(text::texts(r->Ok_0.template_dirs@).len() == r->Ok_0.template_dirs@.len());
        assert(text::texts(r->Ok_0.trust_dirs@).len() == r->Ok_0.trust_dirs@.len());
    }
}

/// A flag more on the command line of `kennel policy validate` sets that flag, and all else stays as it was.
pub proof fn law_validate_takes_a_flag(
    a: &[String],
    b: &[String],
    x: ValidateArgs,
    y: ValidateArgs,
    flag: Seq<char>,
)
    requires
        call_ensures(validate_args, (a,), Ok::<ValidateArgs, String>(x)),
        call_ensures(validate_args, (b,), Ok::<ValidateArgs, String>(y)),
        text::texts(b@) == text::texts(a@).push(flag),
        "--"@.is_prefix_of(flag),
    ensures
        y.policy@ == x.policy@,
        y.require_signed == (x.require_signed || flag == "--require-signed"@),
        text::texts(y.template_dirs@) == text::texts(x.template_dirs@),
        text::texts(y.trust_dirs@) == text::texts(x.trust_dirs@),
{
    args::lemma_scan_switch(text::texts(a@), validate_shape(), flag);
    let ps = args::scanned(text::texts(a@), validate_shape())->Ok_0;
    args::lemma_part_push(ps, args::Part::Switch(flag), "--require-signed"@);
    args::lemma_part_push(ps, args::Part::Switch(flag), "--template-dir"@);
    args::lemma_part_push(ps, args::Part::Switch(flag), "--trust-dir"@);
}

/// An option more on the command line of `kennel policy validate` gives that option its value, and all else stays as
/// it was.
pub proof fn law_validate_takes_an_option(
    a: &[String],
    b: &[String],
    x: ValidateArgs,
    y: ValidateArgs,
    o: Seq<char>,
    v: Seq<char>,
)
    requires
        call_ensures(validate_args, (a,), Ok::<ValidateArgs, String>(x)),
        call_ensures(validate_args, (b,), Ok::<ValidateArgs, String>(y)),
        text::texts(b@) == text::texts(a@).push(o).push(v),
        o == "--template-dir"@ || o == "--trust-dir"@,
    ensures
        y.policy@ == x.policy@,
        y.require_signed == x.require_signed,
        text::texts(y.template_dirs@) == if o == "--template-dir"@ {
            text::texts(x.template_dirs@).push(v)
        } else {
            text::texts(x.template_dirs@)
        },
        text::texts(y.trust_dirs@) == if o == "--trust-dir"@ {
            text::texts(x.trust_dirs@).push(v)
        } else {
            text::texts(x.trust_dirs@)
        },
{
    let shape = validate_shape();
    reveal_strlit("--require-signed");
    reveal_strlit("--template-dir");
    reveal_strlit("--trust-dir");
    assert("--template-dir"@.len() != "--require-signed"@.len());
    assert("--trust-dir"@.len() != "--require-signed"@.len());
    assert(shape.options[0] == "--template-dir"@);
    assert(shape.options[1] == "--trust-dir"@);
    assert(shape.options.contains(o));
    assert(!shape.switches.contains(o));
    args::lemma_scan_option(text::texts(a@), shape, o, v);
    let ps = args::scanned(text::texts(a@), shape)->Ok_0;
    args::lemma_part_push(ps, args::Part::Value(o, v), "--require-signed"@);
    args::lemma_part_push(ps, args::Part::Value(o, v), "--template-dir"@);
    args::lemma_part_push(ps, args::Part::Value(o, v), "--trust-dir"@);
}

/// A lone word is what `kennel policy risks` works on, with no flag set and no option given.
pub proof fn law_risks_takes_a_lone_word(
    list: &[String],
    w: Seq<char>,
    r: Result<RisksArgs, String>,
)
    requires
        call_ensures(risks_args, (list,), r),
        text::texts(list@) == seq![w],
        !"--"@.is_prefix_of(w),
    ensures
        r matches Ok(x) && x.policy@ == w && !x.json && x.template_dirs@.len() == 0 && x.trust_dirs@.len() == 0,
{
    let shape = risks_shape();
    reveal_strlit("--");
    reveal_strlit("--json");
    reveal_strlit("--template-dir");
    reveal_strlit("--trust-dir");
    assert("--"@.is_prefix_of("--json"@)) by {
        assert("--"@ =~= "--json"@.subrange(0, 2));
    }
    assert("--"@.is_prefix_of("--template-dir"@)) by {
        assert("--"@ =~= "--template-dir"@.subrange(0, 2));
    }
    assert("--"@.is_prefix_of("--trust-dir"@)) by {
        assert("--"@ =~= "--trust-dir"@.subrange(0, 2));
    }
    args::lemma_scan_word(w, shape);
    let ps = seq![args::Part::Word(w)];
    assert(args::words(ps)[0] == w);
    assert(args::values(ps, "--template-dir"@).len() == 0);
    assert(args::values(ps, "--trust-dir"@).len() == 0);
    assert(!args::given(ps, "--json"@));
    if r is Ok {
        assert(text::texts(r->Ok_0.template_dirs@).len() == r->Ok_0.template_dirs@.len());
        assert(text::texts(r->Ok_0.trust_dirs@).len() == r->Ok_0.trust_dirs@.len());
    }
}

/// A flag more on the command line of `kennel policy risks` sets that flag, and all else stays as it was.
pub proof fn law_risks_takes_a_flag(
    a: &[String],
    b: &[String],
    x: RisksArgs,
    y: RisksArgs,
    flag: Seq<char>,
)
    requires
        call_ensures(risks_args, (a,), Ok::<RisksArgs, String>(x)),
        call_ensures(risks_args, (b,), Ok::<RisksArgs, String>(y)),
        text::texts(b@) == text::texts(a@).push(flag),
        "--"@.is_prefix_of(flag),
    ensures
        y.policy@ == x.policy@,
        y.json == (x.json || flag == "--json"@),
        text::texts(y.template_dirs@) == text::texts(x.template_dirs@),
        text::texts(y.trust_dirs@) == text::texts(x.trust_dirs@),
{
    args::lemma_scan_switch(text::texts(a@), risks_shape(), flag);
    let ps = args::scanned(text::texts(a@), risks_shape())->Ok_0;
    args::lemma_part_push(ps, args::Part::Switch(flag), "--json"@);
    args::lemma_part_push(ps, args::Part::Switch(flag), "--template-dir"@);
    args::lemma_part_push(ps, args::Part::Switch(flag), "--trust-dir"@);
}

/// An option more on the command line of `kennel policy risks` gives that option its value, and all else stays as
/// it was.
pub proof fn law_risks_takes_an_option(
    a: &[String],
    b: &[String],
    x: RisksArgs,
    y: RisksArgs,
    o: Seq<char>,
    v: Seq<char>,
)
    requires
        call_ensures(risks_args, (a,), Ok::<RisksArgs, String>(x)),
        call_ensures(risks_args, (b,), Ok::<RisksArgs, String>(y)),
        text::texts(b@) == text::texts(a@).push(o).push(v),
        o == "--template-dir"@ || o == "--trust-dir"@,
    ensures
        y.policy@ == x.policy@,
        y.json == x.json,
        text::texts(y.template_dirs@) == if o == "--template-dir"@ {
            text::texts(x.template_dirs@).push(v)
        } else {
            text::texts(x.template_dirs@)
        },
        text::texts(y.trust_dirs@) == if o == "--trust-dir"@ {
            text::texts(x.trust_dirs@).push(v)
        } else {
            text::texts(x.trust_dirs@)
        },
{
    let shape = risks_shape();
    reveal_strlit("--json");
    reveal_strlit("--template-dir");
    reveal_strlit("--trust-dir");
    assert("--template-dir"@.len() != "--json"@.len());
    assert("--trust-dir"@.len() != "--json"@.len());
    assert(shape.options[0] == "--template-dir"@);
    assert(shape.options[1] == "--trust-dir"@);
    assert(shape.options.contains(o));
    assert(!shape.switches.contains(o));
    args::lemma_scan_option(text::texts(a@), shape, o, v);
    let ps = args::scanned(text::texts(a@), shape)->Ok_0;
    args::lemma_part_push(ps, args::Part::Value(o, v), "--json"@);
    args::lemma_part_push(ps, args::Part::Value(o, v), "--template-dir"@);
    args::lemma_part_push(ps, args::Part::Value(o, v), "--trust-dir"@);
}

/// A lone word is what `kennel policy diff` works on, with no flag set and no option given.
pub proof fn law_diff_takes_a_lone_word(
    list: &[String],
    w: Seq<char>,
    r: Result<DiffArgs, String>,
)
    requires
        call_ensures(diff_args, (list,), r),
        text::texts(list@) == seq![w],
        !"--"@.is_prefix_of(w),
    ensures
        r matches Ok(x) && x.policy@ == w && x.other is None && !x.json && x.template_dirs@.len() == 0 && x.trust_dirs@.len() == 0,
{
    let shape = diff_shape();
    reveal_strlit("--");
    reveal_strlit("--json");
    reveal_strlit("--template-dir");
    reveal_strlit("--trust-dir");
    assert("--"@.is_prefix_of("--json"@)) by {
        assert("--"@ =~= "--json"@.subrange(0, 2));
    }
    assert("--"@.is_prefix_of("--template-dir"@)) by {
        assert("--"@ =~= "--template-dir"@.subrange(0, 2));
    }
    assert("--"@.is_prefix_of("--trust-dir"@)) by {
        assert("--"@ =~= "--trust-dir"@.subrange(0, 2));
    }
    args::lemma_scan_word(w, shape);
    let ps = seq![args::Part::Word(w)];
    assert(args::words(ps)[0] == w);
    assert(args::values(ps, "--template-dir"@).len() == 0);
    assert(args::values(ps, "--trust-dir"@).len() == 0);
    assert(!args::given(ps, "--json"@));
    if r is Ok {
        assert(text::texts(r->Ok_0.template_dirs@).len() == r->Ok_0.template_dirs@.len());
        assert(text::texts(r->Ok_0.trust_dirs@).len() == r->Ok_0.trust_dirs@.len());
    }
}

/// A flag more on the command line of `kennel policy diff` sets that flag, and all else stays as it was.
pub proof fn law_diff_takes_a_flag(
    a: &[String],
    b: &[String],
    x: DiffArgs,
    y: DiffArgs,
    flag: Seq<char>,
)
    requires
        call_ensures(diff_args, (a,), Ok::<DiffArgs, String>(x)),
        call_ensures(diff_args, (b,), Ok::<DiffArgs, String>(y)),
        text::texts(b@) == text::texts(a@).push(flag),
        "--"@.is_prefix_of(flag),
    ensures
        y.policy@ == x.policy@,
        layout::opt(y.other) == layout::opt(x.other),
        y.json == (x.json || flag == "--json"@),
        text::texts(y.template_dirs@) == text::texts(x.template_dirs@),
        text::texts(y.trust_dirs@) == text::texts(x.trust_dirs@),
{
    args::lemma_scan_switch(text::texts(a@), diff_shape(), flag);
    let ps = args::scanned(text::texts(a@), diff_shape())->Ok_0;
    args::lemma_part_push(ps, args::Part::Switch(flag), "--json"@);
    args::lemma_part_push(ps, args::Part::Switch(flag), "--template-dir"@);
    args::lemma_part_push(ps, args::Part::Switch(flag), "--trust-dir"@);
}

/// An option more on the command line of `kennel policy diff` gives that option its value, and all else stays as
/// it was.
pub proof fn law_diff_takes_an_option(
    a: &[String],
    b: &[String],
    x: DiffArgs,
    y: DiffArgs,
    o: Seq<char>,
    v: Seq<char>,
)
    requires
        call_ensures(diff_args, (a,), Ok::<DiffArgs, String>(x)),
        call_ensures(diff_args, (b,), Ok::<DiffArgs, String>(y)),
        text::texts(b@) == text::texts(a@).push(o).push(v),
        o == "--template-dir"@ || o == "--trust-dir"@,
    ensures
        y.policy@ == x.policy@,
        layout::opt(y.other) == layout::opt(x.other),
        y.json == x.json,
        text::texts(y.template_dirs@) == if o == "--template-dir"@ {
            text::texts(x.template_dirs@).push(v)
        } else {
            text::texts(x.template_dirs@)
        },
        text::texts(y.trust_dirs@) == if o == "--trust-dir"@ {
            text::texts(x.trust_dirs@).push(v)
        } else {
            text::texts(x.trust_dirs@)
        },
{
    let shape = diff_shape();
    reveal_strlit("--json");
    reveal_strlit("--template-dir");
    reveal_strlit("--trust-dir");
    assert("--template-dir"@.len() != "--json"@.len());
    assert("--trust-dir"@.len() != "--json"@.len());
    assert(shape.options[0] == "--template-dir"@);
    assert(shape.options[1] == "--trust-dir"@);
    assert(shape.options.contains(o));
    assert(!shape.switches.contains(o));
    args::lemma_scan_option(text::texts(a@), shape, o, v);
    let ps = args::scanned(text::texts(a@), shape)->Ok_0;
    args::lemma_part_push(ps, args::Part::Value(o, v), "--json"@);
    args::lemma_part_push(ps, args::Part::Value(o, v), "--template-dir"@);
    args::lemma_part_push(ps, args::Part::Value(o, v), "--trust-dir"@);
}

/// A lone word is what `kennel template sign` works on, with no flag set and no option given.
pub proof fn law_sign_takes_a_lone_word(
    list: &[String],
    w: Seq<char>,
    r: Result<SignArgs, String>,
)
    requires
        call_ensures(sign_args, (list,), r),
        text::texts(list@) == seq![w],
        !"--"@.is_prefix_of(w),
    ensures
        r matches Ok(x) && x.template@ == w && x.key is None && x.key_id is None && x.output is None,
{
    let shape = sign_shape();
    reveal_strlit("--");
    reveal_strlit("--key");
    reveal_strlit("--key-id");
    reveal_strlit("--output");
    assert("--"@.is_prefix_of("--key"@)) by {
        assert("--"@ =~= "--key"@.subrange(0, 2));
    }
    assert("--"@.is_prefix_of("--key-id"@)) by {
        assert("--"@ =~= "--key-id"@.subrange(0, 2));
    }
    assert("--"@.is_prefix_of("--output"@)) by {
        assert("--"@ =~= "--output"@.subrange(0, 2));
    }
    args::lemma_scan_word(w, shape);
    let ps = seq![args::Part::Word(w)];
    assert(args::words(ps)[0] == w);
    assert(args::values(ps, "--key"@).len() == 0);
    assert(args::values(ps, "--key-id"@).len() == 0);
    assert(args::values(ps, "--output"@).len() == 0);
}

/// An option more on the command line of `kennel template sign` gives that option its value, and all else stays as
/// it was.
pub proof fn law_sign_takes_an_option(
    a: &[String],
    b: &[String],
    x: SignArgs,
    y: SignArgs,
    o: Seq<char>,
    v: Seq<char>,
)
    requires
        call_ensures(sign_args, (a,), Ok::<SignArgs, String>(x)),
        call_ensures(sign_args, (b,), Ok::<SignArgs, String>(y)),
        text::texts(b@) == text::texts(a@).push(o).push(v),
        o == "--key"@ || o == "--key-id"@ || o == "--output"@,
    ensures
        y.template@ == x.template@,
        layout::opt(y.key) == if o == "--key"@ {
            Some(v)
        } else {
            layout::opt(x.key)
        },
        layout::opt(y.key_id) == if o == "--key-id"@ {
            Some(v)
        } else {
            layout::opt(x.key_id)
        },
        layout::opt(y.output) == if o == "--output"@ {
            Some(v)
        } else {
            layout::opt(x.output)
        },
{
    let shape = sign_shape();
    reveal_strlit("--key");
    reveal_strlit("--key-id");
    reveal_strlit("--output");
    assert(shape.options[0] == "--key"@);
    assert(shape.options[1] == "--key-id"@);
    assert(shape.options[2] == "--output"@);
    assert(shape.options.contains(o));
    assert(!shape.switches.contains(o));
    args::lemma_scan_option(text::texts(a@), shape, o, v);
    let ps = args::scanned(text::texts(a@), shape)->Ok_0;
    args::lemma_part_push(ps, args::Part::Value(o, v), "--key"@);
    args::lemma_part_push(ps, args::Part::Value(o, v), "--key-id"@);
    args::lemma_part_push(ps, args::Part::Value(o, v), "--output"@);
}

/// A lone word is what `install` works on, with no flag set and no option given.
pub proof fn law_install_takes_a_lone_word(
    list: &[String],
    house: House,
    w: Seq<char>,
    r: Result<InstallArgs, String>,
)
    requires
        call_ensures(install_args, (list, house), r),
        text::texts(list@) == seq![w],
        !"--"@.is_prefix_of(w),
    ensures
        r matches Ok(x) && x.file@ == w && !x.host && !x.force && x.key is None,
{
    let shape = install_shape();
    reveal_strlit("--");
    reveal_strlit("--host");
    reveal_strlit("--force");
    reveal_strlit("--key");
    assert("--"@.is_prefix_of("--host"@)) by {
        assert("--"@ =~= "--host"@.subrange(0, 2));
    }
    assert("--"@.is_prefix_of("--force"@)) by {
        assert("--"@ =~= "--force"@.subrange(0, 2));
    }
    assert("--"@.is_prefix_of("--key"@)) by {
        assert("--"@ =~= "--key"@.subrange(0, 2));
    }
    args::lemma_scan_word(w, shape);
    let ps = seq![args::Part::Word(w)];
    assert(args::words(ps)[0] == w);
    assert(args::values(ps, "--key"@).len() == 0);
    assert(!args::given(ps, "--host"@));
    assert(!args::given(ps, "--force"@));
}

/// A flag more on the command line of `install` sets that flag, and all else stays as it was.
pub proof fn law_install_takes_a_flag(
    a: &[String],
    b: &[String],
    house: House,
    x: InstallArgs,
    y: InstallArgs,
    flag: Seq<char>,
)
    requires
        call_ensures(install_args, (a, house), Ok::<InstallArgs, String>(x)),
        call_ensures(install_args, (b, house), Ok::<InstallArgs, String>(y)),
        text::texts(b@) == text::texts(a@).push(flag),
        "--"@.is_prefix_of(flag),
    ensures
        y.file@ == x.file@,
        y.host == (x.host || flag == "--host"@),
        y.force == (x.force || flag == "--force"@),
        layout::opt(y.key) == layout::opt(x.key),
{
    args::lemma_scan_switch(text::texts(a@), install_shape(), flag);
    let ps = args::scanned(text::texts(a@), install_shape())->Ok_0;
    args::lemma_part_push(ps, args::Part::Switch(flag), "--host"@);
    args::lemma_part_push(ps, args::Part::Switch(flag), "--force"@);
    args::lemma_part_push(ps, args::Part::Switch(flag), "--key"@);
}

/// An option more on the command line of `install` gives that option its value, and all else stays as
/// it was.
pub proof fn law_install_takes_an_option(
    a: &[String],
    b: &[String],
    house: House,
    x: InstallArgs,
    y: InstallArgs,
    o: Seq<char>,
    v: Seq<char>,
)
    requires
        call_ensures(install_args, (a, house), Ok::<InstallArgs, String>(x)),
        call_ensures(install_args, (b, house), Ok::<InstallArgs, String>(y)),
        text::texts(b@) == text::texts(a@).push(o).push(v),
        o == "--key"@,
    ensures
        y.file@ == x.file@,
        y.host == x.host,
        y.force == x.force,
        layout::opt(y.key) == if o == "--key"@ {
            Some(v)
        } else {
            layout::opt(x.key)
        },
{
    let shape = install_shape();
    reveal_strlit("--host");
    reveal_strlit("--force");
    reveal_strlit("--key");
    assert("--key"@.len() != "--host"@.len());
    assert("--key"@.len() != "--force"@.len());
    assert(shape.options[0] == "--key"@);
    assert(shape.options.contains(o));
    assert(!shape.switches.contains(o));
    args::lemma_scan_option(text::texts(a@), shape, o, v);
    let ps = args::scanned(text::texts(a@), shape)->Ok_0;
    args::lemma_part_push(ps, args::Part::Value(o, v), "--host"@);
    args::lemma_part_push(ps, args::Part::Value(o, v), "--force"@);
    args::lemma_part_push(ps, args::Part::Value(o, v), "--key"@);
}

/// A lone word is what `clone` works on, with no flag set and no option given.
pub proof fn law_clone_takes_a_lone_word(
    list: &[String],
    house: House,
    w: Seq<char>,
    r: Result<CloneArgs, String>,
)
    requires
        call_ensures(clone_args, (list, house), r),
        text::texts(list@) == seq![w],
        !"--"@.is_prefix_of(w),
    ensures
        r matches Ok(x) && x.name@ == w && x.new_name is None && x.key is None,
{
    let shape = clone_shape();
    reveal_strlit("--");
    reveal_strlit("--key");
    assert("--"@.is_prefix_of("--key"@)) by {
        assert("--"@ =~= "--key"@.subrange(0, 2));
    }
    args::lemma_scan_word(w, shape);
    let ps = seq![args::Part::Word(w)];
    assert(args::words(ps)[0] == w);
    assert(args::values(ps, "--key"@).len() == 0);
}

/// An option more on the command line of `clone` gives that option its value, and all else stays as
/// it was.
pub proof fn law_clone_takes_an_option(
    a: &[String],
    b: &[String],
    house: House,
    x: CloneArgs,
    y: CloneArgs,
    o: Seq<char>,
    v: Seq<char>,
)
    requires
        call_ensures(clone_args, (a, house), Ok::<CloneArgs, String>(x)),
        call_ensures(clone_args, (b, house), Ok::<CloneArgs, String>(y)),
        text::texts(b@) == text::texts(a@).push(o).push(v),
        o == "--key"@,
    ensures
        y.name@ == x.name@,
        layout::opt(y.new_name) == layout::opt(x.new_name),
        layout::opt(y.key) == if o == "--key"@ {
            Some(v)
        } else {
            layout::opt(x.key)
        },
{
    let shape = clone_shape();
    reveal_strlit("--key");
    assert(shape.options[0] == "--key"@);
    assert(shape.options.contains(o));
    assert(!shape.switches.contains(o));
    args::lemma_scan_option(text::texts(a@), shape, o, v);
    let ps = args::scanned(text::texts(a@), shape)->Ok_0;
    args::lemma_part_push(ps, args::Part::Value(o, v), "--key"@);
}

// ---- what holds of the whole ----------------------------------------------------

/// A development build is made without a key; any other with the one that is named, else with the
/// user's only one.
pub proof fn law_unsigned_builds_have_no_key(a: &CompileArgs, conflict: Option<String>, key: SigningKey)
    requires
        call_ensures(compile_conflict, (a,), conflict),
        call_ensures(signing_key, (a,), key),
    ensures
        conflict is Some <==> a.unsigned && (a.key is Some || a.key_id is Some),
        key is Unsigned <==> a.unsigned,
        !a.unsigned && a.key is None ==> key is Default,
        !a.unsigned ==> (a.key matches Some(k) ==> key matches SigningKey::Named(n) && n@ == k@),
{
}

/// The lock and the keys of a policy stand in the directory of its settled form, which goes where it
/// was asked to go.
pub proof fn law_output_stands_together(
    a: &CompileArgs,
    policy_path: &str,
    name: &str,
    r: CompileOutput,
)
    requires
        call_ensures(compile_output, (a, policy_path, name), r),
        shared::names_policy(name@),
    ensures
        a.output matches Some(o) ==> r.settled@ == o@,
        path::file_name_of(r.ssh_dir@) == Some("ssh"@),
        path::file_name_of(r.lock@) == Some(name@ + ".lock"@),
        a.output is None ==> path::file_name_of(r.settled@) == Some(name@ + ".settled.toml"@),
        shared::dir_of(r.settled@).is_prefix_of(r.lock@),
        shared::dir_of(r.settled@).is_prefix_of(r.ssh_dir@),
{
    reveal_strlit("ssh");
    reveal_strlit(".lock");
    reveal_strlit(".settled.toml");
    let d = shared::dir_of(r.settled@);
    let s = "ssh"@;
    assert(!s.contains('/'));
    path::law_join_file_name(d, s);
    let l = name@ + ".lock"@;
    assert(!l.contains('/')) by {
        if l.contains('/') {
            let i = choose|i: int| 0 <= i < l.len() && l[i] == '/';
            if i < name@.len() {
                assert(name@[i] == '/');
            }
        }
    }
    path::law_join_file_name(d, l);
    let t = name@ + ".settled.toml"@;
    assert(!t.contains('/')) by {
        if t.contains('/') {
            let i = choose|i: int| 0 <= i < t.len() && t[i] == '/';
            if i < name@.len() {
                assert(name@[i] == '/');
            }
        }
    }
    if a.output is None {
        path::law_join_file_name(shared::dir_of(policy_path@), t);
    }
    assert(l[0] == name@[0]);
    assert(r.lock@.subrange(0, d.len() as int) =~= d);
    assert(r.ssh_dir@.subrange(0, d.len() as int) =~= d);
}

/// A source in a system directory is edited as a copy in the user's own; any other is edited where it
/// stands.
pub proof fn law_system_sources_are_not_edited(source: &str, own: &str, name: &str, r: String)
    requires
        call_ensures(edit_target, (source, own, name), r),
        shared::names_policy(name@),
    ensures
        ({
            let system = path::lies_under(source@, "/etc/kennel"@) || path::lies_under(
                source@,
                "/usr/lib/kennel"@,
            );
            &&& !system ==> r@ == source@
            &&& system ==> own@.is_prefix_of(r@) && path::file_name_of(r@) == Some("policy.toml"@)
        }),
{
    reveal_strlit("policy.toml");
    let n = "policy.toml"@;
    assert(!n.contains('/'));
    assert(n[0] == 'p');
    let d = path::joined(own@, name@);
    path::law_join_file_name(d, n);
    if path::rooted(name@) {
        assert(name@[0] == '/');
    }
    if in_system_dir(source@) {
        assert(r@.subrange(0, own@.len() as int) =~= own@);
    }
}

/// A new leaf has the name that it was given and builds on the template that was named.
pub proof fn law_new_leaf_builds_on_its_template(name: &str, from: &str, r: String)
    requires
        call_ensures(scaffold, (name, from), r),
    ensures
        text::holds(r@, "name = \""@ + name@ + "\"\n"@),
        text::holds(r@, "template_base = \""@ + from@ + "\"\n"@),
{
    let a = "# Leaf policy `"@ + name@ + "` — see `kennel policy show "@ + name@;
    let b = "` for what it resolves to.\nname = \""@;
    let c = "\"\ntemplate_base = \""@;
    let e = "\"\n\n# The command this kennel runs (optional — omit to pass `-- <cmd>` at run time).\n# [workload]\n# argv = [\"/bin/bash\"]\n# pinned = false          # refuse a `-- <cmd>` override unless --force\n# sha256 = []             # accepted binary digests (empty = no pin)\n"@;
    reveal_strlit("` for what it resolves to.\nname = \"");
    reveal_strlit("\"\ntemplate_base = \"");
    reveal_strlit("name = \"");
    reveal_strlit("\"\n");
    reveal_strlit("template_base = \"");
    reveal_strlit(
        "\"\n\n# The command this kennel runs (optional — omit to pass `-- <cmd>` at run time).\n# [workload]\n# argv = [\"/bin/bash\"]\n# pinned = false          # refuse a `-- <cmd>` override unless --force\n# sha256 = []             # accepted binary digests (empty = no pin)\n",
    );
    let p = "name = \""@ + name@ + "\"\n"@;
    let q = "template_base = \""@ + from@ + "\"\n"@;
    let bn = "name = \""@.len() as int;
    let b0 = b.take(b.len() - bn);
    assert(b =~= b0 + "name = \""@);
    let rest = c.skip(2) + from@ + e;
    assert(c =~= "\"\n"@ + c.skip(2));
    assert(r@ =~= (a + b0) + p + rest);
    text::lemma_holds(a + b0, p, rest);
    assert(c.skip(2) =~= "template_base = \""@);
    assert(e =~= "\"\n"@ + e.skip(2));
    let lead = a + b + name@ + "\"\n"@;
    assert(r@ =~= lead + q + e.skip(2));
    text::lemma_holds(lead, q, e.skip(2));
}

proof fn lemma_findings(outcomes: Seq<LintOutcome>)
    ensures
        findings(outcomes) == 0 <==> forall|i: int|
            0 <= i < outcomes.len() ==> ((#[trigger] outcomes[i]) matches LintOutcome::Checked(f)
                && f@.len() == 0),
    decreases outcomes.len(),
{
    if outcomes.len() > 0 {
        let front = outcomes.drop_last();
        lemma_findings(front);
        if findings(outcomes) == 0 {
            assert forall|i: int| 0 <= i < outcomes.len() implies ((
            #[trigger] outcomes[i]) matches LintOutcome::Checked(f) && f@.len() == 0) by {
                if i < front.len() {
                    assert(front[i] == outcomes[i]);
                }
            }
        }
        if forall|i: int|
            0 <= i < outcomes.len() ==> ((#[trigger] outcomes[i]) matches LintOutcome::Checked(f)
                && f@.len() == 0) {
            assert forall|i: int| 0 <= i < front.len() implies ((
            #[trigger] front[i]) matches LintOutcome::Checked(f) && f@.len() == 0) by {
                assert(front[i] == outcomes[i]);
            }
            assert(outcomes[outcomes.len() - 1] matches LintOutcome::Checked(f) && f@.len() == 0);
        }
    }
}

/// A check is clean just where every template compiled and nothing was found in any.
pub proof fn law_any_finding_fails_the_check(outcomes: &[LintOutcome], r: (String, u8))
    requires
        call_ensures(lint_summary, (outcomes,), r),
    ensures
        r.1 == 0 <==> forall|i: int|
            0 <= i < outcomes@.len() ==> ((#[trigger] outcomes@[i]) matches LintOutcome::Checked(f)
                && f@.len() == 0),
        r.1 == 0 || r.1 == 7,
{
    lemma_findings(outcomes@);
}

/// Each warning is told, in its order.
pub proof fn law_every_warning_is_told(warnings: &[String], out: Vec<String>)
    requires
        call_ensures(warning_lines, (warnings,), out),
    ensures
        out@.len() == warnings@.len(),
        forall|i: int|
            0 <= i < text::texts(warnings@).len() ==> text::holds(
                text::texts(out@)[i],
                #[trigger] text::texts(warnings@)[i],
            ),
{
    assert(text::texts(out@).len() == out@.len());
    assert(text::texts(warnings@).len() == warnings@.len());
    assert forall|i: int| 0 <= i < text::texts(warnings@).len() implies text::holds(
        text::texts(out@)[i],
        #[trigger] text::texts(warnings@)[i],
    ) by {
        let w = text::texts(warnings@)[i];
        text::lemma_holds("kennel: warning: "@, w, seq![]);
        assert(text::texts(out@)[i] =~= "kennel: warning: "@ + w + seq![]);
    }
}

/// Two policies are compared where a second one is given, and else a policy with what it builds on.
pub proof fn law_second_policy_is_compared(
    a: &DiffArgs,
    name: &Option<String>,
    base: &Option<String>,
    other_name: &Option<String>,
    r: Result<Comparison, String>,
)
    requires
        call_ensures(comparison, (a, name, base, other_name), r),
    ensures
        r is Err <==> (a.other is None && base is None),
        a.other is Some ==> r matches Ok(Comparison::Policies { old: _, new: _ }),
        a.other is None ==> (base matches Some(b) ==> r matches Ok(
            Comparison::Base { reference, old: _, new: _ },
        ) && reference@ == b@),
        name matches Some(n) ==> (r matches Ok(Comparison::Policies { old, new: _ }) ==> old@ == n@),
        name matches Some(n) ==> (r matches Ok(Comparison::Base { reference: _, old: _, new }) ==> new@
            == n@),
        other_name matches Some(n) ==> (r matches Ok(Comparison::Policies { old: _, new }) ==> new@
            == n@),
{
}

/// A command line of a word, an option with a value and nothing else.
proof fn lemma_word_and_option(
    w: Seq<char>,
    flag: Seq<char>,
    name: Seq<char>,
    v: Seq<char>,
    other: Seq<char>,
    form: options::Form,
)
    requires
        w.len() > 0,
        w[0] != '-',
        flag == seq!['-', '-'] + name,
        name.len() > 0,
        !name.contains('='),
        form.room == 1,
        form.options.contains(name),
        !form.switches.contains(name),
    ensures
        options::walked(seq![w, flag, v], options::Held::Nothing, form) == Ok::<
            Seq<args::Part>,
            Seq<char>,
        >(seq![args::Part::Word(w), args::Part::Value(name, v)]),
        args::words(seq![args::Part::Word(w), args::Part::Value(name, v)]) == seq![w],
        args::values(seq![args::Part::Word(w), args::Part::Value(name, v)], name) == seq![v],
        other != name ==> args::values(
            seq![args::Part::Word(w), args::Part::Value(name, v)],
            other,
        ).len() == 0,
{
    let rest = seq![flag, v];
    let less = options::Form { room: 0, ..form };
    assert(seq![w, flag, v] =~= seq![w] + rest);
    options::law_plain_words_are_words(w, rest, form);
    assert(rest =~= seq![flag, v] + seq![]);
    options::law_equals_sign_joins_a_value(name, v, seq![], less);
    options::lemma_walked_out(less);
    let one = seq![args::Part::Value(name, v)];
    let ps = seq![args::Part::Word(w), args::Part::Value(name, v)];
    assert(one + seq![] =~= one);
    assert(seq![args::Part::Word(w)] + one =~= ps);
    let first = seq![args::Part::Word(w)];
    let none: Seq<args::Part> = seq![];
    assert(none.push(args::Part::Word(w)) =~= first);
    assert(first.push(args::Part::Value(name, v)) =~= ps);
    args::lemma_part_push(none, args::Part::Word(w), name);
    args::lemma_part_push(first, args::Part::Value(name, v), name);
    assert(args::words(none) =~= seq![]);
    assert(args::words(ps) =~= seq![w]);
    assert(args::values(none, name) =~= seq![]);
    assert(args::values(ps, name) =~= seq![v]);
    args::lemma_part_push(none, args::Part::Word(w), other);
    args::lemma_part_push(first, args::Part::Value(name, v), other);
    assert(args::values(none, other) =~= seq![]);
}

/// A policy is shown by its name, with the directories that are named for its templates and for its
/// keys, each as what it is.
pub proof fn law_show_takes_its_directories(
    list: &[String],
    table: &[CommandSpec],
    r: Result<ShowArgs, String>,
    w: Seq<char>,
    o: Seq<char>,
    v: Seq<char>,
)
    requires
        call_ensures(show_args, (list, table), r),
        text::texts(list@) == seq![w, o, v],
        w.len() > 0,
        w[0] != '-',
        o == "--template-dir"@ || o == "--trust-dir"@,
    ensures
        r matches Ok(a) && a.name@ == w && text::texts(a.template_dirs@) == (if o
            == "--template-dir"@ {
            seq![v]
        } else {
            seq![]
        }) && text::texts(a.trust_dirs@) == (if o == "--trust-dir"@ {
            seq![v]
        } else {
            seq![]
        }),
{
    reveal_strlit("--template-dir");
    reveal_strlit("--trust-dir");
    reveal_strlit("template-dir");
    reveal_strlit("trust-dir");
    assert("--template-dir"@ =~= seq!['-', '-'] + "template-dir"@);
    assert("--trust-dir"@ =~= seq!['-', '-'] + "trust-dir"@);
    assert("--template-dir"@.len() != "--trust-dir"@.len());
    assert("template-dir"@.len() != "trust-dir"@.len());
    let form = show_form(table@);
    assert(form.options[0] == "template-dir"@ && form.options[1] == "trust-dir"@);
    let name = if o == "--template-dir"@ {
        "template-dir"@
    } else {
        "trust-dir"@
    };
    let other = if o == "--template-dir"@ {
        "trust-dir"@
    } else {
        "template-dir"@
    };
    lemma_word_and_option(w, o, name, v, other, form);
    let ps = seq![args::Part::Word(w), args::Part::Value(name, v)];
    assert(args::word(ps, 0) == Some(w));
    assert(args::values(ps, "template-dir"@) =~= if o == "--template-dir"@ {
        seq![v]
    } else {
        seq![]
    });
    assert(args::values(ps, "trust-dir"@) =~= if o == "--trust-dir"@ {
        seq![v]
    } else {
        seq![]
    });
}

/// A new policy is made under its name, from the template that is named.
pub proof fn law_generate_takes_its_template(
    list: &[String],
    table: &[CommandSpec],
    r: Result<GenerateArgs, String>,
    w: Seq<char>,
    v: Seq<char>,
)
    requires
        call_ensures(generate_args, (list, table), r),
        text::texts(list@) == seq![w, "--from"@, v],
        w[0] != '-',
        shared::names_policy(w),
    ensures
        r matches Ok(a) && a.name@ == w && a.from@ == v,
{
    reveal_strlit("--from");
    reveal_strlit("from");
    assert("--from"@ =~= seq!['-', '-'] + "from"@);
    let form = generate_form(table@);
    assert(form.options[0] == "from"@);
    lemma_word_and_option(w, "--from"@, "from"@, v, "from"@, form);
    let ps = seq![args::Part::Word(w), args::Part::Value("from"@, v)];
    assert(args::word(ps, 0) == Some(w));
    assert(args::chosen(ps, "from"@) == Some(v));
}

/// Sockets are inspected where they are asked for, and nothing is otherwise.
pub proof fn law_inspection_names_its_subject(
    list: &[String],
    table: &[CommandSpec],
    r: Result<ShowArgs, String>,
    w: Seq<char>,
)
    requires
        call_ensures(inspect_args, (list, table), r),
        w.len() > 0,
        w[0] != '-',
    ensures
        text::texts(list@) == seq![w, "--unix"@] ==> (r matches Ok(a) && a.name@ == w),
        text::texts(list@) == seq![w] ==> r is Err,
{
    reveal_strlit("--unix");
    reveal_strlit("unix");
    assert("--unix"@ =~= seq!['-', '-'] + "unix"@);
    let form = inspect_form(table@);
    let less = options::Form { room: 0, ..form };
    assert(form.switches[0] == "unix"@);
    assert(less.switches.contains("unix"@));
    options::lemma_walked_out(less);
    let none: Seq<args::Part> = seq![];
    let first = seq![args::Part::Word(w)];
    assert(none.push(args::Part::Word(w)) =~= first);
    args::lemma_part_push(none, args::Part::Word(w), "unix"@);
    assert(args::words(none) =~= seq![]);
    assert(args::words(first) =~= seq![w]);
    if text::texts(list@) == seq![w] {
        options::law_plain_words_are_words(w, seq![], form);
        assert(seq![w] + seq![] =~= seq![w]);
        assert(first + none =~= first);
    }
    if text::texts(list@) == seq![w, "--unix"@] {
        let rest = seq!["--unix"@];
        assert(seq![w, "--unix"@] =~= seq![w] + rest);
        options::law_plain_words_are_words(w, rest, form);
        assert(rest =~= seq!["--unix"@] + seq![]);
        options::law_switches_are_switches("unix"@, seq![], less);
        let one = seq![args::Part::Switch("unix"@)];
        assert(one + none =~= one);
        let ps = first + one;
        assert(first.push(args::Part::Switch("unix"@)) =~= ps);
        args::lemma_part_push(first, args::Part::Switch("unix"@), "unix"@);
        assert(args::words(ps) =~= seq![w]);
    }
}

/// What is told of an object of the other house is told just where it is there.
pub proof fn law_other_house_is_pointed_to(house: House, name: &str, in_other: bool, r: Option<String>)
    requires
        call_ensures(other_house_text, (house, name, in_other), r),
    ensures
        r is Some <==> in_other,
{
}

/// What kind of object a source is: a template by its name as one, and a leaf where it has a name and
/// builds on something or is no addition alone.
pub proof fn law_kinds_of_sources(
    parsed: bool,
    template_name: bool,
    name: bool,
    based: bool,
    additive: bool,
    r: &'static str,
)
    requires
        call_ensures(policy_kind, (parsed, template_name, name, based, additive), r),
    ensures
        r@ == "template"@ <==> parsed && template_name,
        r@ == "leaf"@ <==> parsed && !template_name && name && (based || !additive),
        r@ == "fragment"@ <==> parsed && !template_name && name && !based && additive,
{
    reveal_strlit("source");
    reveal_strlit("template");
    reveal_strlit("leaf");
    reveal_strlit("fragment");
    assert("source"@.len() == 6 && "template"@.len() == 8 && "leaf"@.len() == 4 && "fragment"@.len()
        == 8);
    assert("template"@[0] == 't' && "fragment"@[0] == 'f');
}

proof fn lemma_settled_template_places(dirs: Seq<Seq<char>>, name: Seq<char>)
    ensures
        settled_template_places(dirs, name).len() == 2 * dirs.len(),
        forall|i: int|
            0 <= i < dirs.len() ==> settled_template_places(dirs, name)[2 * i] == path::joined(
                #[trigger] dirs[i],
                name + ".settled.toml"@,
            ) && settled_template_places(dirs, name)[2 * i + 1] == shared::settled_in(dirs[i], name),
    decreases dirs.len(),
{
    if dirs.len() > 0 {
        let front = dirs.drop_last();
        lemma_settled_template_places(front, name);
        let ps = settled_template_places(dirs, name);
        let qs = settled_template_places(front, name);
        assert forall|i: int| 0 <= i < dirs.len() implies ps[2 * i] == path::joined(
            #[trigger] dirs[i],
            name + ".settled.toml"@,
        ) && ps[2 * i + 1] == shared::settled_in(dirs[i], name) by {
            if i < front.len() {
                assert(front[i] == dirs[i]);
                assert(ps[2 * i] == qs[2 * i] && ps[2 * i + 1] == qs[2 * i + 1]);
            }
        }
    }
}

/// A template's compiled form is looked for in the directories in their order, in each as a file
/// before a directory.
pub proof fn law_settled_templates_are_looked_for_in_order(
    source: &FsTemplateSource,
    name: &str,
    out: Vec<String>,
    i: int,
)
    requires
        call_ensures(FsTemplateSource::fetch_settled_places, (source, name), out),
        0 <= i < source.dirs@.len(),
    ensures
        text::texts(out@).len() == 2 * source.dirs@.len(),
        text::texts(out@)[2 * i] == path::joined(
            text::texts(source.dirs@)[i],
            name@ + ".settled.toml"@,
        ),
        text::texts(out@)[2 * i + 1] == path::joined(
            path::joined(text::texts(source.dirs@)[i], name@),
            name@ + ".settled.toml"@,
        ),
{
    let ds = text::texts(source.dirs@);
    assert(ds.len() == source.dirs@.len());
    lemma_settled_template_places(ds, name@);
    assert(ds[i] == source.dirs@[i]@);
}

/// The host's catalogue of threats is taken before the vendor's.
pub proof fn law_host_catalogue_comes_first<F: Fn(&str) -> bool>(is_file: &F, r: Option<String>)
    requires
        call_ensures(catalogue_path::<F>, (is_file,), r),
    ensures
        ({
            let host = path::joined(path::joined("/etc/kennel"@, "threats"@), "catalogue.toml"@);
            let vendor = path::joined(path::joined("/usr/lib/kennel"@, "threats"@), "catalogue.toml"@);
            &&& r is None ==> shared::says(*is_file, host, false) && shared::says(
                *is_file,
                vendor,
                false,
            )
            &&& r matches Some(p) ==> p@ == host || (p@ == vendor && shared::says(*is_file, host, false))
            &&& r matches Some(p) ==> shared::says(*is_file, p@, true)
        }),
{
    let places = catalogue_places();
    if let Some(p) = r {
        let i = choose|i: int| shared::first_at(*is_file, places, i) && p@ == #[trigger] places[i];
        assert(i == 0 || i == 1);
        if i == 1 {
            assert(shared::says(*is_file, places[0], false));
        }
    } else {
        assert(shared::says(*is_file, places[0], false));
        assert(shared::says(*is_file, places[1], false));
    }
}

/// The templates that are checked are those that were found, in the order of their names.
pub proof fn law_every_template_is_checked(found: &[String], out: Vec<String>, x: Seq<char>)
    requires
        call_ensures(lint_names, (found,), out),
    ensures
        order::is_ascending(text::texts(out@)),
        text::texts(out@).contains(x) <==> text::texts(found@).contains(x),
{
    order::law_ascending(text::texts(found@));
}

} // verus!
