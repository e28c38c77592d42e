//! The audit event as a source builds it: tokens, levels and the typed value model.

use crate::text::same;
use vstd::prelude::*;
use vstd::string::*;

verus! {

/// A value carried by one audit field.
///
/// Only the difference between [`Value::Untrusted`] and the rest matters to the writer: untrusted
/// strings are cleaned exactly once before any sink sees them.
#[derive(Debug, PartialEq, Eq)]
pub enum Value {
    /// A trusted string: an internal token or a value the project formatted itself.
    Str(String),
    /// An untrusted string: a path, a hostname, `comm`, an `argv` element.
    Untrusted(String),
    /// A signed integer.
    Int(i64),
    /// An unsigned integer.
    Uint(u64),
    /// A boolean.
    Bool(bool),
    /// Not applicable.
    Null,
    /// An ordered array of values.
    Array(Vec<Value>),
    /// An ordered object of named values; the names are internal literals.
    Object(Vec<(&'static str, Value)>),
}

impl Value {
    /// A trusted string value.
    pub fn str(s: &str) -> (r: Value)
        ensures
            r matches Value::Str(t) && t@ == s@,
    {
        Value::Str(s.to_owned())
    }

    /// An untrusted string value.
    pub fn untrusted(s: &str) -> (r: Value)
        ensures
            r matches Value::Untrusted(t) && t@ == s@,
    {
        Value::Untrusted(s.to_owned())
    }

    /// An object value from ordered named fields.
    pub fn object(fields: Vec<(&'static str, Value)>) -> (r: Value)
        ensures
            r == Value::Object(fields),
    {
        Value::Object(fields)
    }
}

/// The resource class of an event.
#[derive(Clone, Copy, Debug, PartialEq, Eq, Structural)]
pub enum Resource {
    /// Network: connect and bind decisions, proxy egress.
    Net,
    /// Filesystem denials and scrub hits.
    Fs,
    /// Binary execution.
    Exec,
    /// `AF_UNIX` connections.
    Unix,
    /// D-Bus method calls.
    Dbus,
    /// Privileged-helper invocations and refusals.
    Priv,
    /// Kennel and daemon lifecycle.
    Lifecycle,
}

impl Resource {
    /// The stable `resource` token.
    pub open spec fn token_text(self) -> Seq<char> {
        match self {
            Resource::Net => "net"@,
            Resource::Fs => "fs"@,
            Resource::Exec => "exec"@,
            Resource::Unix => "unix"@,
            Resource::Dbus => "dbus"@,
            Resource::Priv => "priv"@,
            Resource::Lifecycle => "lifecycle"@,
        }
    }

    /// The stable `resource` token.
    pub fn token(self) -> (r: &'static str)
        ensures
            r@ == self.token_text(),
    {
        match self {
            Resource::Net => "net",
            Resource::Fs => "fs",
            Resource::Exec => "exec",
            Resource::Unix => "unix",
            Resource::Dbus => "dbus",
            Resource::Priv => "priv",
            Resource::Lifecycle => "lifecycle",
        }
    }

    /// The file-name stem of the class file.
    pub open spec fn stem_text(self) -> Seq<char> {
        match self {
            Resource::Net => "network"@,
            Resource::Fs => "filesystem"@,
            Resource::Exec => "exec"@,
            Resource::Unix => "unix"@,
            Resource::Dbus => "dbus"@,
            Resource::Priv => "priv"@,
            Resource::Lifecycle => "lifecycle"@,
        }
    }

    /// The file-name stem of the class file.
    pub fn file_stem(self) -> (r: &'static str)
        ensures
            r@ == self.stem_text(),
    {
        match self {
            Resource::Net => "network",
            Resource::Fs => "filesystem",
            Resource::Exec => "exec",
            Resource::Unix => "unix",
            Resource::Dbus => "dbus",
            Resource::Priv => "priv",
            Resource::Lifecycle => "lifecycle",
        }
    }

    /// Whether events of this class are emitted whatever the audit level.
    pub open spec fn is_always(self) -> bool {
        self is Priv || self is Lifecycle
    }

    /// Whether events of this class are emitted whatever the audit level.
    pub fn always_emitted(self) -> (r: bool)
        ensures
            r == self.is_always(),
    {
        match self {
            Resource::Priv | Resource::Lifecycle => true,
            _ => false,
        }
    }
}

/// Two classes never share a token, and never share a class file.
pub proof fn law_resource_tokens_distinct(a: Resource, b: Resource)
    ensures
        a.token_text() == b.token_text() ==> a == b,
        a.stem_text() == b.stem_text() ==> a == b,
{
    reveal_strlit("net");
    reveal_strlit("fs");
    reveal_strlit("exec");
    reveal_strlit("unix");
    reveal_strlit("dbus");
    reveal_strlit("priv");
    reveal_strlit("lifecycle");
    reveal_strlit("network");
    reveal_strlit("filesystem");
    if a.token_text() == b.token_text() {
        assert(a.token_text()[0] == b.token_text()[0]);
    }
    if a.stem_text() == b.stem_text() {
        assert(a.stem_text()[0] == b.stem_text()[0]);
    }
}

/// The outcome of the audited action.
#[derive(Clone, Copy, Debug, PartialEq, Eq, Structural)]
pub enum Outcome {
    /// The action was permitted.
    Allow,
    /// The action was refused.
    Deny,
    /// No decision, information only.
    Info,
    /// An error occurred handling the action.
    Error,
}

impl Outcome {
    /// The stable `outcome` token.
    pub open spec fn token_text(self) -> Seq<char> {
        match self {
            Outcome::Allow => "allow"@,
            Outcome::Deny => "deny"@,
            Outcome::Info => "info"@,
            Outcome::Error => "error"@,
        }
    }

    /// The stable `outcome` token.
    pub fn token(self) -> (r: &'static str)
        ensures
            r@ == self.token_text(),
    {
        match self {
            Outcome::Allow => "allow",
            Outcome::Deny => "deny",
            Outcome::Info => "info",
            Outcome::Error => "error",
        }
    }

    /// The RFC 5424 severity: informational for allow and info, warning for deny, error for error.
    pub open spec fn level(self) -> u8 {
        match self {
            Outcome::Allow => 6,
            Outcome::Info => 6,
            Outcome::Deny => 4,
            Outcome::Error => 3,
        }
    }

    /// The RFC 5424 severity of this outcome.
    pub fn severity(self) -> (r: u8)
        ensures
            r == self.level(),
    {
        match self {
            Outcome::Allow | Outcome::Info => 6,
            Outcome::Deny => 4,
            Outcome::Error => 3,
        }
    }
}

/// The component an event originates from.
#[derive(Clone, Copy, Debug, PartialEq, Eq, Structural)]
pub enum Source {
    /// A kernel LSM hook.
    Kernel,
    /// A cgroup BPF program.
    Bpf,
    /// The per-kennel egress proxy.
    Proxy,
    /// The D-Bus proxy.
    DbusProxy,
    /// The spawn wrapper.
    KennelSpawn,
    /// The daemon itself.
    Kenneld,
    /// The privileged helper.
    Privhelper,
}

impl Source {
    /// The stable `source` token.
    pub open spec fn token_text(self) -> Seq<char> {
        match self {
            Source::Kernel => "kernel"@,
            Source::Bpf => "bpf"@,
            Source::Proxy => "proxy"@,
            Source::DbusProxy => "dbus-proxy"@,
            Source::KennelSpawn => "kennel-spawn"@,
            Source::Kenneld => "kenneld"@,
            Source::Privhelper => "privhelper"@,
        }
    }

    /// The stable `source` token.
    pub fn token(self) -> (r: &'static str)
        ensures
            r@ == self.token_text(),
    {
        match self {
            Source::Kernel => "kernel",
            Source::Bpf => "bpf",
            Source::Proxy => "proxy",
            Source::DbusProxy => "dbus-proxy",
            Source::KennelSpawn => "kennel-spawn",
            Source::Kenneld => "kenneld",
            Source::Privhelper => "privhelper",
        }
    }
}

/// One audit event, before the writer stamps the envelope and renders it.
#[derive(Debug, PartialEq, Eq)]
pub struct Event {
    /// The event-type identifier, an internal literal such as `net.connect-deny`.
    pub event: &'static str,
    /// The resource class.
    pub resource: Resource,
    /// The outcome.
    pub outcome: Outcome,
    /// The originating component.
    pub source: Source,
    /// The workload PID, if the event is tied to one.
    pub pid: Option<u32>,
    /// The workload `comm`, if known; untrusted.
    pub comm: Option<String>,
    /// The summary key: at the summary level the first allow per class and target is emitted.
    /// Not itself emitted.
    pub target: Option<String>,
    /// Event-specific fields, in the order in which they render after the envelope.
    pub fields: Vec<(&'static str, Value)>,
}

impl Event {
    /// Starts an event with the four discriminators that every event has.
    pub fn new(event: &'static str, resource: Resource, outcome: Outcome, source: Source) -> (r:
        Event)
        ensures
            r.event@ == event@,
            r.resource == resource,
            r.outcome == outcome,
            r.source == source,
            r.pid is None,
            r.comm is None,
            r.target is None,
            r.fields@.len() == 0,
    {
        Event {
            event,
            resource,
            outcome,
            source,
            pid: None,
            comm: None,
            target: None,
            fields: Vec::new(),
        }
    }

    /// Sets the workload PID.
    pub fn pid(self, pid: u32) -> (r: Event)
        ensures
            r == (Event { pid: Some(pid), ..self }),
    {
        Event { pid: Some(pid), ..self }
    }

    /// Sets the workload `comm` (untrusted).
    pub fn comm(self, comm: &str) -> (r: Event)
        ensures
            r.comm matches Some(c) && c@ == comm@,
            r == (Event { comm: r.comm, ..self }),
    {
        Event { comm: Some(comm.to_owned()), ..self }
    }

    /// Sets the summary key.
    pub fn target(self, target: &str) -> (r: Event)
        ensures
            r.target matches Some(t) && t@ == target@,
            r == (Event { target: r.target, ..self }),
    {
        Event { target: Some(target.to_owned()), ..self }
    }

    /// Appends an event-specific field.
    pub fn field(self, key: &'static str, value: Value) -> (r: Event)
        ensures
            r.fields@ == self.fields@.push((key, value)),
            r == (Event { fields: r.fields, ..self }),
    {
        let mut fields = self.fields;
        fields.push((key, value));
        Event {
            event: self.event,
            resource: self.resource,
            outcome: self.outcome,
            source: self.source,
            pid: self.pid,
            comm: self.comm,
            target: self.target,
            fields,
        }
    }
}

/// Which events of a class are emitted.
#[derive(Clone, Copy, Debug, PartialEq, Eq, Structural)]
pub enum Level {
    /// Nothing.
    Off,
    /// Denies only.
    DeniesOnly,
    /// Everything but repeated allows of one target. The default.
    Summary,
    /// Every event.
    Full,
}

impl Default for Level {
    fn default() -> (r: Level)
        ensures
            r == Level::Summary,
    {
        Level::Summary
    }
}

impl Level {
    /// The stable token of this level.
    pub open spec fn token_text(self) -> Seq<char> {
        match self {
            Level::Off => "off"@,
            Level::DeniesOnly => "denies-only"@,
            Level::Summary => "summary"@,
            Level::Full => "full"@,
        }
    }

    /// The level that a token names, `None` for an unknown token.
    pub fn parse(s: &str) -> (r: Option<Level>)
        ensures
            match r {
                Some(l) => s@ == l.token_text(),
                None => forall|k: Level| s@ != #[trigger] k.token_text(),
            },
    {
        if same(s, "off") {
            Some(Level::Off)
        } else if same(s, "denies-only") {
            Some(Level::DeniesOnly)
        } else if same(s, "summary") {
            Some(Level::Summary)
        } else if same(s, "full") {
            Some(Level::Full)
        } else {
            None
        }
    }

    /// The stable token of this level.
    pub fn token(self) -> (r: &'static str)
        ensures
            r@ == self.token_text(),
    {
        match self {
            Level::Off => "off",
            Level::DeniesOnly => "denies-only",
            Level::Summary => "summary",
            Level::Full => "full",
        }
    }
}

/// Two levels never share a token, so parsing a token gives back the level that wrote it.
pub proof fn law_level_tokens_distinct(a: Level, b: Level)
    ensures
        a.token_text() == b.token_text() ==> a == b,
{
    reveal_strlit("off");
    reveal_strlit("denies-only");
    reveal_strlit("summary");
    reveal_strlit("full");
    if a.token_text() == b.token_text() {
        assert(a.token_text()[0] == b.token_text()[0]);
    }
}

// ---- what holds of the whole ----------------------------------------------------

/// Outcomes have tokens of their own, and the graver is the lower: an error before a denial, a denial
/// before what is allowed or told.
pub proof fn law_graver_outcomes_rank_lower(a: Outcome, b: Outcome, s: u8, t: u8)
    requires
        call_ensures(Outcome::severity, (a,), s),
        call_ensures(Outcome::severity, (b,), t),
    ensures
        a.token_text() == b.token_text() ==> a == b,
        a == Outcome::Error && b != Outcome::Error ==> s < t,
        a == Outcome::Deny && (b == Outcome::Allow || b == Outcome::Info) ==> s < t,
        a == Outcome::Allow && b == Outcome::Info ==> s == t,
        s < 8,
{
    reveal_strlit("allow");
    reveal_strlit("deny");
    reveal_strlit("info");
    reveal_strlit("error");
    assert("allow"@[0] == 'a' && "deny"@[0] == 'd' && "info"@[0] == 'i' && "error"@[0] == 'e');
}

/// Sources have tokens of their own.
pub proof fn law_source_tokens_distinct(a: Source, b: Source)
    ensures
        a.token_text() == b.token_text() ==> a == b,
{
    reveal_strlit("kernel");
    reveal_strlit("bpf");
    reveal_strlit("proxy");
    reveal_strlit("dbus-proxy");
    reveal_strlit("kennel-spawn");
    reveal_strlit("kenneld");
    reveal_strlit("privhelper");
    assert("kernel"@.len() == 6 && "bpf"@.len() == 3 && "proxy"@.len() == 5 && "dbus-proxy"@.len()
        == 10 && "kennel-spawn"@.len() == 12 && "kenneld"@.len() == 7 && "privhelper"@.len() == 10);
    assert("dbus-proxy"@[0] == 'd' && "privhelper"@[0] == 'p');
}

/// A level is read back from its token.
pub proof fn law_levels_read_back(level: Level, token: &'static str, r: Option<Level>)
    requires
        call_ensures(Level::token, (level,), token),
        call_ensures(Level::parse, (token,), r),
    ensures
        r == Some(level),
{
    if let Some(l) = r {
        law_level_tokens_distinct(l, level);
    } else {
        assert(token@ == level.token_text());
    }
}

/// The changes of a host's authority and of a kennel's life are recorded at any level, and nothing
/// else is.
pub proof fn law_authority_and_life_are_always_recorded(r: Resource, always: bool)
    requires
        call_ensures(Resource::always_emitted, (r,), always),
    ensures
        always <==> (r == Resource::Priv || r == Resource::Lifecycle),
{
}

} // verus!
