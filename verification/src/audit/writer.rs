//! The unified writer: the seam between event sources and sinks.
//!
//! [`Writer::emit`] applies the level of the event's class, stamps the envelope, has every
//! untrusted string cleaned once and hands the record to each sink. A sink that fails is reported
//! to the other sinks, never to itself; what no sink took is kept as a diagnostic line for the
//! daemon's own stderr.

use super::event::{Event, Level, Outcome, Resource, Value};
use super::render::{Record, Rendered};
use super::time;
use super::time::{format_rfc3339_micros, Clock, SystemClock};
use crate::text;
use crate::text::{concat4, has_text, same};
use vstd::prelude::*;
use vstd::string::*;

verus! {

/// The audit schema version.
pub const SCHEMA_VERSION: u64 = 1;

/// The largest rendered event for the line-oriented sinks: a write of at most this many bytes is
/// atomic.
pub const MAX_EVENT_BYTES: usize = 4096;

/// What the writer stamps onto every event of a kennel.
#[derive(Debug)]
pub struct WriterContext {
    /// The kennel name.
    pub kennel: String,
    /// The per-instance identifier that groups one kennel lifetime.
    pub kennel_uuid: String,
    /// The host name at construction time.
    pub host: String,
}

/// The audit level of each class. Lifecycle and privileged events ignore it.
#[derive(Clone, Copy, Debug, PartialEq, Eq, Structural)]
pub struct Levels {
    /// Level of the `net` class.
    pub net: Level,
    /// Level of the `fs` class.
    pub fs: Level,
    /// Level of the `exec` class.
    pub execution: Level,
    /// Level of the `unix` class.
    pub unix: Level,
    /// Level of the `dbus` class.
    pub dbus: Level,
}

impl Default for Levels {
    /// Summary everywhere, but denies only for the high-volume filesystem class.
    fn default() -> (r: Levels)
        ensures
            r == (Levels {
                net: Level::Summary,
                fs: Level::DeniesOnly,
                execution: Level::Summary,
                unix: Level::Summary,
                dbus: Level::Summary,
            }),
    {
        Levels {
            net: Level::Summary,
            fs: Level::DeniesOnly,
            execution: Level::Summary,
            unix: Level::Summary,
            dbus: Level::Summary,
        }
    }
}

impl Levels {
    /// The level of a class; full for the classes that are always emitted.
    pub open spec fn level_of(self, resource: Resource) -> Level {
        match resource {
            Resource::Net => self.net,
            Resource::Fs => self.fs,
            Resource::Exec => self.execution,
            Resource::Unix => self.unix,
            Resource::Dbus => self.dbus,
            Resource::Priv => Level::Full,
            Resource::Lifecycle => Level::Full,
        }
    }

    /// The level of a class.
    pub fn for_resource(self, resource: Resource) -> (r: Level)
        ensures
            r == self.level_of(resource),
    {
        match resource {
            Resource::Net => self.net,
            Resource::Fs => self.fs,
            Resource::Exec => self.execution,
            Resource::Unix => self.unix,
            Resource::Dbus => self.dbus,
            Resource::Priv | Resource::Lifecycle => Level::Full,
        }
    }
}

/// What one sink reports when it cannot emit a record.
#[derive(Debug)]
pub struct SinkError {
    /// The sink that failed.
    pub sink: &'static str,
    /// A human-readable cause.
    pub message: String,
}

impl SinkError {
    /// The error as one line.
    pub fn describe(&self) -> (r: String)
        ensures
            r@ == "audit sink "@ + self.sink@ + ": "@ + self.message@,
    {
        concat4("audit sink ", self.sink, ": ", self.message.as_str())
    }
}

/// An output target for the event stream.
pub trait Sink {
    /// The stable sink name.
    fn name(&self) -> &'static str;

    /// Emits one rendered record.
    fn write(&self, record: &Record) -> Result<(), SinkError>;
}

// ---- the level filter ----------------------------------------------------------

/// What identifies an allow for the summary level: its class and its target.
pub open spec fn summary_key(resource: Resource, target: Seq<char>) -> Seq<char> {
    resource.token_text() + seq!['\0'] + target
}

/// Whether the summary level looks at what was emitted before: an allow with a target, of a class
/// at that level.
pub open spec fn is_deduped(levels: Levels, event: Event) -> bool {
    levels.level_of(event.resource) is Summary && event.outcome is Allow && event.target is Some
}

/// Whether an event passes the level of its class, when the allows in `seen` were emitted before.
pub open spec fn passes(levels: Levels, seen: Seq<Seq<char>>, event: Event) -> bool {
    match levels.level_of(event.resource) {
        Level::Off => false,
        Level::DeniesOnly => event.outcome is Deny,
        Level::Full => true,
        Level::Summary => is_deduped(levels, event) ==> !seen.contains(
            summary_key(event.resource, event.target->0@),
        ),
    }
}

/// The allows emitted so far, once the event has been filtered.
pub open spec fn seen_after(levels: Levels, seen: Seq<Seq<char>>, event: Event) -> Seq<Seq<char>> {
    if is_deduped(levels, event) && passes(levels, seen, event) {
        seen.push(summary_key(event.resource, event.target->0@))
    } else {
        seen
    }
}

/// At the summary level an allow passes once: after it has, another allow of the same class and
/// target does not, while one of another class or target is unaffected.
pub proof fn law_summary_emits_an_allow_once(
    levels: Levels,
    seen: Seq<Seq<char>>,
    first: Event,
    second: Event,
)
    requires
        is_deduped(levels, first),
        is_deduped(levels, second),
    ensures
        first.resource == second.resource && first.target->0@ == second.target->0@ ==> !passes(
            levels,
            seen_after(levels, seen, first),
            second,
        ),
        first.resource != second.resource || first.target->0@ != second.target->0@ ==> passes(
            levels,
            seen_after(levels, seen, first),
            second,
        ) == passes(levels, seen, second),
{
    let k1 = summary_key(first.resource, first.target->0@);
    let k2 = summary_key(second.resource, second.target->0@);
    if !seen.contains(k1) {
        let after = seen.push(k1);
        assert(after[seen.len() as int] == k1);
        if seen.contains(k2) {
            let i = choose|i: int| 0 <= i < seen.len() && seen[i] == k2;
            assert(after[i] == k2);
        }
        if after.contains(k2) && !seen.contains(k2) {
            let i = choose|i: int| 0 <= i < after.len() && after[i] == k2;
            if i < seen.len() {
                assert(seen[i] == k2);
            }
            assert(k1 == k2);
        }
    }
    if k1 == k2 {
        lemma_summary_key(first.resource, first.target->0@, second.resource, second.target->0@);
    }
}

proof fn lemma_summary_key(a: Resource, x: Seq<char>, b: Resource, y: Seq<char>)
    requires
        summary_key(a, x) == summary_key(b, y),
    ensures
        a == b,
        x == y,
{
    reveal_strlit("net");
    reveal_strlit("fs");
    reveal_strlit("exec");
    reveal_strlit("unix");
    reveal_strlit("dbus");
    reveal_strlit("priv");
    reveal_strlit("lifecycle");
    let k = summary_key(a, x);
    assert(k[0] == a.token_text()[0]);
    assert(k[0] == b.token_text()[0]);
    let n = a.token_text().len() as int + 1;
    assert(k.skip(n) =~= x);
    assert(k.skip(n) =~= y);
}

/// Lifecycle and privileged events pass at every level.
pub proof fn law_some_classes_always_pass(levels: Levels, seen: Seq<Seq<char>>, event: Event)
    requires
        event.resource.is_always(),
    ensures
        passes(levels, seen, event),
{
}

/// The level of a class is the one that was set for it, and full for the classes that are always
/// emitted.
pub proof fn law_each_class_has_its_own_level(levels: Levels, resource: Resource, r: Level)
    requires
        call_ensures(Levels::for_resource, (levels, resource), r),
    ensures
        resource == Resource::Net ==> r == levels.net,
        resource == Resource::Fs ==> r == levels.fs,
        resource == Resource::Exec ==> r == levels.execution,
        resource == Resource::Unix ==> r == levels.unix,
        resource == Resource::Dbus ==> r == levels.dbus,
        resource == Resource::Priv || resource == Resource::Lifecycle ==> r == Level::Full,
{
}

/// Each class is filtered by its own level: an event passes just as it does under levels that agree on
/// its class, whatever they are for the other classes.
pub proof fn law_other_classes_do_not_matter(
    levels: Levels,
    others: Levels,
    seen: Seq<Seq<char>>,
    event: Event,
)
    requires
        event.resource == Resource::Net ==> levels.net == others.net,
        event.resource == Resource::Fs ==> levels.fs == others.fs,
        event.resource == Resource::Exec ==> levels.execution == others.execution,
        event.resource == Resource::Unix ==> levels.unix == others.unix,
        event.resource == Resource::Dbus ==> levels.dbus == others.dbus,
    ensures
        passes(levels, seen, event) == passes(others, seen, event),
        seen_after(levels, seen, event) == seen_after(others, seen, event),
{
}

/// Whether the level set for the class of the event is `level`.
pub open spec fn set_to(levels: Levels, resource: Resource, level: Level) -> bool {
    ||| resource == Resource::Net && levels.net == level
    ||| resource == Resource::Fs && levels.fs == level
    ||| resource == Resource::Exec && levels.execution == level
    ||| resource == Resource::Unix && levels.unix == level
    ||| resource == Resource::Dbus && levels.dbus == level
}

/// What a writer emits, by what is set for the class: nothing when it is off, denies when it is
/// denies only, everything when it is full, and at the summary level everything but an allow of a
/// target of that class that was emitted before. Lifecycle and privileged events are emitted whatever
/// is set.
pub proof fn law_emission_follows_the_level_of_the_class<
    S: Sink,
    C: Clock,
    F: Fn(&str) -> String,
>(w: &mut Writer<S, C, F>, event: &Event, r: bool)
    requires
        call_ensures(Writer::<S, C, F>::emit, (w, event), r),
    ensures
        ({
            let levels = old(w).level_set();
            let class = event.resource;
            &&& class == Resource::Priv || class == Resource::Lifecycle ==> r
            &&& set_to(levels, class, Level::Off) ==> !r
            &&& set_to(levels, class, Level::DeniesOnly) ==> r == (event.outcome == Outcome::Deny)
            &&& set_to(levels, class, Level::Full) ==> r
            &&& set_to(levels, class, Level::Summary) && event.outcome != Outcome::Allow ==> r
            &&& set_to(levels, class, Level::Summary) && event.target is None ==> r
            &&& set_to(levels, class, Level::Summary) && event.outcome == Outcome::Allow
                && event.target is Some ==> r == !old(w).emitted().contains(
                class.token_text() + seq!['\0'] + event.target->0@,
            )
            &&& set_to(levels, class, Level::Summary) && event.outcome == Outcome::Allow
                && event.target is Some ==> final(w).emitted().contains(
                class.token_text() + seq!['\0'] + event.target->0@,
            )
            &&& forall|k: Seq<char>|
                old(w).emitted().contains(k) ==> #[trigger] final(w).emitted().contains(k)
            &&& final(w).level_set() == levels
            &&& !r ==> final(w).emitted() == old(w).emitted()
        }),
{
    let seen = old(w).emitted();
    let after = final(w).emitted();
    if is_deduped(old(w).level_set(), *event) {
        let k = summary_key(event.resource, event.target->0@);
        if !seen.contains(k) {
            assert(after == seen.push(k));
            assert(after[seen.len() as int] == k);
        }
    }
    assert forall|k: Seq<char>| seen.contains(k) implies #[trigger] after.contains(k) by {
        let i = choose|i: int| 0 <= i < seen.len() && seen[i] == k;
        assert(after[i] == k);
    }
}

/// A level lets through whatever the next lower one lets through.
pub proof fn law_levels_are_ordered(resource: Resource, seen: Seq<Seq<char>>, event: Event)
    requires
        event.resource == resource,
        !resource.is_always(),
    ensures
        passes(uniform(Level::Off), seen, event) ==> passes(
            uniform(Level::DeniesOnly),
            seen,
            event,
        ),
        passes(uniform(Level::DeniesOnly), seen, event) ==> passes(
            uniform(Level::Summary),
            seen,
            event,
        ),
        passes(uniform(Level::Summary), seen, event) ==> passes(
            uniform(Level::Full),
            seen,
            event,
        ),
{
}

/// The same level for every class.
pub open spec fn uniform(level: Level) -> Levels {
    Levels { net: level, fs: level, execution: level, unix: level, dbus: level }
}

// ---- cleaning ------------------------------------------------------------------

/// Whether `out` is something that the cleaner `f` makes of the text `s`.
pub open spec fn cleans_to<F: Fn(&str) -> String>(f: F, s: Seq<char>, out: Seq<char>) -> bool {
    exists|x: &str, y: String|
        x@ == s && y@ == out && #[trigger] call_ensures(f, (x,), y)
}

/// Whether `r` renders `v`: cleaned where it is untrusted, unchanged otherwise.
pub open spec fn renders<F: Fn(&str) -> String>(f: F, v: Value, r: Rendered) -> bool
    decreases v,
{
    match (v, r) {
        (Value::Str(s), Rendered::Str(t)) => t@ == s@,
        (Value::Untrusted(s), Rendered::Str(t)) => cleans_to(f, s@, t@),
        (Value::Int(a), Rendered::Int(b)) => a == b,
        (Value::Uint(a), Rendered::Uint(b)) => a == b,
        (Value::Bool(a), Rendered::Bool(b)) => a == b,
        (Value::Null, Rendered::Null) => true,
        (Value::Array(a), Rendered::Array(b)) => renders_items(f, a@, b@),
        (Value::Object(a), Rendered::Object(b)) => renders_entries(f, a@, b@),
        _ => false,
    }
}

/// `renders`, item by item.
pub open spec fn renders_items<F: Fn(&str) -> String>(
    f: F,
    a: Seq<Value>,
    b: Seq<Rendered>,
) -> bool
    decreases a,
{
    if a.len() == 0 || b.len() == 0 {
        a.len() == b.len()
    } else {
        renders_items(f, a.drop_last(), b.drop_last()) && renders(f, a.last(), b.last())
    }
}

/// `renders`, entry by entry, under the same names.
pub open spec fn renders_entries<F: Fn(&str) -> String>(
    f: F,
    a: Seq<(&'static str, Value)>,
    b: Seq<(&'static str, Rendered)>,
) -> bool
    decreases a,
{
    if a.len() == 0 || b.len() == 0 {
        a.len() == b.len()
    } else {
        renders_entries(f, a.drop_last(), b.drop_last()) && b.last().0@ == a.last().0@ && renders(
            f,
            a.last().1,
            b.last().1,
        )
    }
}

/// Whether cleaning changed an untrusted string anywhere in `v`, when `r` renders it.
pub open spec fn altered(v: Value, r: Rendered) -> bool
    decreases v,
{
    match (v, r) {
        (Value::Untrusted(s), Rendered::Str(t)) => t@ != s@,
        (Value::Array(a), Rendered::Array(b)) => altered_items(a@, b@),
        (Value::Object(a), Rendered::Object(b)) => altered_entries(a@, b@),
        _ => false,
    }
}

/// Whether cleaning changed any of the items.
pub open spec fn altered_items(a: Seq<Value>, b: Seq<Rendered>) -> bool
    decreases a,
{
    a.len() > 0 && b.len() > 0 && (altered_items(a.drop_last(), b.drop_last()) || altered(
        a.last(),
        b.last(),
    ))
}

/// Whether cleaning changed any of the entries.
pub open spec fn altered_entries(
    a: Seq<(&'static str, Value)>,
    b: Seq<(&'static str, Rendered)>,
) -> bool
    decreases a,
{
    a.len() > 0 && b.len() > 0 && (altered_entries(a.drop_last(), b.drop_last()) || altered(
        a.last().1,
        b.last().1,
    ))
}

/// Has `f` clean `s`, and notes in `changed` when that changed it.
fn cleaned<F: Fn(&str) -> String>(f: &F, s: &str, changed: &mut bool) -> (r: String)
    requires
        forall|x: &str| call_requires(*f, (x,)),
    ensures
        cleans_to(*f, s@, r@),
        *final(changed) == (*old(changed) || r@ != s@),
{
    let clean = f(s);
    if !same(clean.as_str(), s) {
        *changed = true;
    }
    clean
}

/// Renders one value, and notes in `changed` when cleaning changed anything in it.
fn render_value<F: Fn(&str) -> String>(f: &F, value: &Value, changed: &mut bool) -> (r: Rendered)
    requires
        forall|x: &str| call_requires(*f, (x,)),
    ensures
        renders(*f, *value, r),
        *final(changed) == (*old(changed) || altered(*value, r)),
    decreases value,
{
    match value {
        Value::Str(s) => Rendered::Str(s.clone()),
        Value::Untrusted(s) => Rendered::Str(cleaned(f, s.as_str(), changed)),
        Value::Int(i) => Rendered::Int(*i),
        Value::Uint(u) => Rendered::Uint(*u),
        Value::Bool(b) => Rendered::Bool(*b),
        Value::Null => Rendered::Null,
        Value::Array(items) => Rendered::Array(render_items(f, items, changed)),
        Value::Object(entries) => Rendered::Object(render_entries(f, entries, changed)),
    }
}

fn render_items<F: Fn(&str) -> String>(f: &F, items: &Vec<Value>, changed: &mut bool) -> (out: Vec<
    Rendered,
>)
    requires
        forall|x: &str| call_requires(*f, (x,)),
    ensures
        renders_items(*f, items@, out@),
        *final(changed) == (*old(changed) || altered_items(items@, out@)),
    decreases items,
{
    let ghost before = *changed;
    let mut out: Vec<Rendered> = Vec::new();
    let mut i: usize = 0;
    while i < items.len()
        invariant
            i <= items@.len(),
            forall|x: &str| call_requires(*f, (x,)),
            out@.len() == i,
            renders_items(*f, items@.take(i as int), out@),
            *changed == (before || altered_items(items@.take(i as int), out@)),
        decreases items@.len() - i,
    {
        proof {
            assert(decreases_to!(items => items@[i as int]));
        }
        let r = render_value(f, &items[i], changed);
        let ghost prev = out@;
        out.push(r);
        proof {
            assert(items@.take(i + 1).drop_last() =~= items@.take(i as int));
            assert(out@.drop_last() =~= prev);
        }
        i = i + 1;
    }
    assert(items@.take(items@.len() as int) =~= items@);
    out
}

fn render_entries<F: Fn(&str) -> String>(
    f: &F,
    entries: &Vec<(&'static str, Value)>,
    changed: &mut bool,
) -> (out: Vec<(&'static str, Rendered)>)
    requires
        forall|x: &str| call_requires(*f, (x,)),
    ensures
        renders_entries(*f, entries@, out@),
        out@.len() == entries@.len(),
        *final(changed) == (*old(changed) || altered_entries(entries@, out@)),
    decreases entries,
{
    let ghost before = *changed;
    let mut out: Vec<(&'static str, Rendered)> = Vec::new();
    let mut i: usize = 0;
    while i < entries.len()
        invariant
            i <= entries@.len(),
            forall|x: &str| call_requires(*f, (x,)),
            out@.len() == i,
            renders_entries(*f, entries@.take(i as int), out@),
            *changed == (before || altered_entries(entries@.take(i as int), out@)),
        decreases entries@.len() - i,
    {
        proof {
            assert(decreases_to!(entries => entries@[i as int].1));
        }
        let r = render_value(f, &entries[i].1, changed);
        let ghost prev = out@;
        out.push((entries[i].0, r));
        proof {
            assert(entries@.take(i + 1).drop_last() =~= entries@.take(i as int));
            assert(out@.drop_last() =~= prev);
        }
        i = i + 1;
    }
    assert(entries@.take(entries@.len() as int) =~= entries@);
    out
}

// ---- records -------------------------------------------------------------------

/// Whether a field is the string `value` under the name `key`.
pub open spec fn is_text(field: (&'static str, Rendered), key: Seq<char>, value: Seq<char>) -> bool {
    field.0@ == key && (field.1 matches Rendered::Str(s) && s@ == value)
}

/// Whether a field is the unsigned number `value` under the name `key`.
pub open spec fn is_uint(field: (&'static str, Rendered), key: Seq<char>, value: int) -> bool {
    field.0@ == key && (field.1 matches Rendered::Uint(u) && u == value)
}

/// Whether the fields are the envelope of an event: the nine stamped fields in their order, then
/// the PID and the cleaned `comm` where the event has them.
pub open spec fn is_envelope_of<F: Fn(&str) -> String>(
    fields: Seq<(&'static str, Rendered)>,
    ctx: WriterContext,
    event: Event,
    ts: Seq<char>,
    f: F,
) -> bool {
    let p = if event.pid is Some {
        1int
    } else {
        0int
    };
    let c = if event.comm is Some {
        1int
    } else {
        0int
    };
    &&& fields.len() == 9 + p + c
    &&& is_uint(fields[0], "schema_version"@, SCHEMA_VERSION as int)
    &&& is_text(fields[1], "ts"@, ts)
    &&& is_text(fields[2], "kennel"@, ctx.kennel@)
    &&& is_text(fields[3], "kennel_uuid"@, ctx.kennel_uuid@)
    &&& is_text(fields[4], "event"@, event.event@)
    &&& is_text(fields[5], "resource"@, event.resource.token_text())
    &&& is_text(fields[6], "outcome"@, event.outcome.token_text())
    &&& is_text(fields[7], "source"@, event.source.token_text())
    &&& is_text(fields[8], "host"@, ctx.host@)
    &&& p == 1 ==> is_uint(fields[9], "pid"@, event.pid->0 as int)
    &&& c == 1 ==> fields[9 + p].0@ == "comm"@ && (fields[9 + p].1 matches Rendered::Str(s)
        && cleans_to(f, event.comm->0@, s@))
}

/// Whether cleaning changed the `comm` that the envelope carries.
pub open spec fn comm_altered(fields: Seq<(&'static str, Rendered)>, event: Event) -> bool {
    event.comm is Some && (fields.last().1 matches Rendered::Str(s) && s@ != event.comm->0@)
}

/// Whether `record` is the event rendered at time `ts`: the envelope, the event's own fields, and
/// a trailing `sanitised` flag exactly when cleaning changed something.
pub open spec fn is_record_of<F: Fn(&str) -> String>(
    record: Record,
    ctx: WriterContext,
    event: Event,
    ts: Seq<char>,
    f: F,
) -> bool {
    exists|head: Seq<(&'static str, Rendered)>, own: Seq<(&'static str, Rendered)>|
        {
            let flag = comm_altered(head, event) || altered_entries(event.fields@, own);
            &&& #[trigger] is_envelope_of(head, ctx, event, ts, f)
            &&& #[trigger] renders_entries(f, event.fields@, own)
            &&& record.fields@.len() == head.len() + own.len() + if flag {
                1int
            } else {
                0int
            }
            &&& record.fields@.take((head.len() + own.len()) as int) == head + own
            &&& flag ==> record.fields@.last() == ("sanitised", Rendered::Bool(true))
            &&& record.resource == event.resource
            &&& record.event_type@ == event.event@
            &&& record.outcome == event.outcome
        }
}

/// Renders an event at time `ts`.
pub fn render_at<F: Fn(&str) -> String>(
    ctx: &WriterContext,
    event: &Event,
    ts: String,
    f: &F,
) -> (record: Record)
    requires
        forall|x: &str| call_requires(*f, (x,)),
    ensures
        is_record_of(record, *ctx, *event, ts@, *f),
{
    let mut changed: bool = false;
    let mut fields: Vec<(&'static str, Rendered)> = Vec::new();
    fields.push(("schema_version", Rendered::Uint(SCHEMA_VERSION)));
    fields.push(("ts", Rendered::Str(ts)));
    fields.push(("kennel", Rendered::Str(ctx.kennel.clone())));
    fields.push(("kennel_uuid", Rendered::Str(ctx.kennel_uuid.clone())));
    fields.push(("event", Rendered::Str(event.event.to_owned())));
    fields.push(("resource", Rendered::Str(event.resource.token().to_owned())));
    fields.push(("outcome", Rendered::Str(event.outcome.token().to_owned())));
    fields.push(("source", Rendered::Str(event.source.token().to_owned())));
    fields.push(("host", Rendered::Str(ctx.host.clone())));
    if let Some(pid) = event.pid {
        fields.push(("pid", Rendered::Uint(pid as u64)));
    }
    if let Some(comm) = &event.comm {
        let text = cleaned(f, comm.as_str(), &mut changed);
        fields.push(("comm", Rendered::Str(text)));
    }
    let ghost head = fields@;
    assert(is_envelope_of(head, *ctx, *event, ts@, *f));
    assert(changed == comm_altered(head, *event));
    let mut own = render_entries(f, &event.fields, &mut changed);
    let ghost ours = own@;
    fields.append(&mut own);
    assert(fields@ =~= head + ours);
    if changed {
        fields.push(("sanitised", Rendered::Bool(true)));
    }
    let record = Record {
        resource: event.resource,
        event_type: event.event,
        outcome: event.outcome,
        fields,
    };
    proof {
        assert(record.fields@.take((head.len() + ours.len()) as int) =~= head + ours);
        assert(is_envelope_of(head, *ctx, *event, ts@, *f) && renders_entries(
            *f,
            event.fields@,
            ours,
        ));
    }
    record
}

/// Whether `record` reports that the sink of `err` failed, in the kennel of `ctx`.
pub open spec fn is_drop_record<F: Fn(&str) -> String>(
    record: Record,
    ctx: WriterContext,
    err: SinkError,
    f: F,
) -> bool {
    &&& record.resource is Lifecycle
    &&& record.event_type@ == "lifecycle.audit-drop"@
    &&& record.outcome is Error
    &&& record.fields@.len() == 8
    &&& is_uint(record.fields@[0], "schema_version"@, SCHEMA_VERSION as int)
    &&& is_text(record.fields@[1], "event"@, "lifecycle.audit-drop"@)
    &&& is_text(record.fields@[2], "resource"@, "lifecycle"@)
    &&& is_text(record.fields@[3], "outcome"@, "error"@)
    &&& is_text(record.fields@[4], "source"@, "kenneld"@)
    &&& is_text(record.fields@[5], "kennel"@, ctx.kennel@)
    &&& is_text(record.fields@[6], "failed_sink"@, err.sink@)
    &&& record.fields@[7].0@ == "reason"@
    &&& record.fields@[7].1 matches Rendered::Str(s) && cleans_to(f, err.message@, s@)
}

/// The record that reports a failed sink to the others.
pub fn drop_record<F: Fn(&str) -> String>(ctx: &WriterContext, err: &SinkError, f: &F) -> (record:
    Record)
    requires
        forall|x: &str| call_requires(*f, (x,)),
    ensures
        is_drop_record(record, *ctx, *err, *f),
{
    let mut changed: bool = false;
    let reason = cleaned(f, err.message.as_str(), &mut changed);
    let mut fields: Vec<(&'static str, Rendered)> = Vec::new();
    fields.push(("schema_version", Rendered::Uint(SCHEMA_VERSION)));
    fields.push(("event", Rendered::Str("lifecycle.audit-drop".to_owned())));
    fields.push(("resource", Rendered::Str("lifecycle".to_owned())));
    fields.push(("outcome", Rendered::Str("error".to_owned())));
    fields.push(("source", Rendered::Str("kenneld".to_owned())));
    fields.push(("kennel", Rendered::Str(ctx.kennel.clone())));
    fields.push(("failed_sink", Rendered::Str(err.sink.to_owned())));
    fields.push(("reason", Rendered::Str(reason)));
    Record {
        resource: Resource::Lifecycle,
        event_type: "lifecycle.audit-drop",
        outcome: Outcome::Error,
        fields,
    }
}

/// The line for the daemon's stderr when no other sink took the report of a failed one.
pub open spec fn undelivered(err: SinkError) -> Seq<char> {
    "kennel-audit: sink "@ + err.sink@ + " failed and no other sink accepted the drop record: "@
        + err.message@
}

// ---- the writer ----------------------------------------------------------------

/// Whether a sink can answer a record so: by taking it, or by refusing it.
pub open spec fn can_answer<S: Sink>(sink: S, record: Record, took: bool) -> bool {
    exists|answer: Result<(), SinkError>|
        #[trigger] call_ensures(S::write, (&sink, &record), answer) && took == answer.is_ok()
}

/// What became of a record at a sink.
pub enum Fate {
    /// The sink took it.
    Took,
    /// The sink failed, and whether another one took the report of that.
    Failed(SinkError, bool),
}

/// The lines for the daemon's stderr: the failures whose report no other sink took, in order.
pub open spec fn lost(fates: Seq<Fate>) -> Seq<Seq<char>>
    decreases fates.len(),
{
    if fates.len() == 0 {
        seq![]
    } else {
        match fates.last() {
            Fate::Failed(err, false) => lost(fates.drop_last()).push(undelivered(err)),
            _ => lost(fates.drop_last()),
        }
    }
}

/// The unified audit writer, over sinks of type `S`, a clock and a cleaner for untrusted strings.
pub struct Writer<S: Sink, C: Clock, F: Fn(&str) -> String> {
    ctx: WriterContext,
    levels: Levels,
    sinks: Vec<S>,
    clock: C,
    clean: F,
    seen: Vec<String>,
    diagnostics: Vec<String>,
}

impl<S: Sink, F: Fn(&str) -> String> Writer<S, SystemClock, F> {
    /// A writer over the system clock.
    pub fn new(ctx: WriterContext, levels: Levels, sinks: Vec<S>, clean: F) -> (w: Self)
        requires
            forall|x: &str| call_requires(clean, (x,)),
        ensures
            w.wf(),
            w.context() == ctx,
            w.level_set() == levels,
            w.targets() == sinks@,
            w.cleaner() == clean,
            w.emitted() == Seq::<Seq<char>>::empty(),
            w.pending() == Seq::<Seq<char>>::empty(),
    {
        Writer::with_clock(ctx, levels, sinks, SystemClock, clean)
    }
}

impl<S: Sink, C: Clock, F: Fn(&str) -> String> Writer<S, C, F> {
    /// The context stamped onto every record.
    pub closed spec fn context(&self) -> WriterContext {
        self.ctx
    }

    /// The level of each class.
    pub closed spec fn level_set(&self) -> Levels {
        self.levels
    }

    /// The sinks, in the order in which they are served.
    pub closed spec fn targets(&self) -> Seq<S> {
        self.sinks@
    }

    /// The clock.
    pub closed spec fn time_source(&self) -> C {
        self.clock
    }

    /// The cleaner of untrusted strings.
    pub closed spec fn cleaner(&self) -> F {
        self.clean
    }

    /// The keys of the allows emitted at the summary level, in order.
    pub closed spec fn emitted(&self) -> Seq<Seq<char>> {
        text::texts(self.seen@)
    }

    /// The diagnostic lines not taken yet, in order.
    pub closed spec fn pending(&self) -> Seq<Seq<char>> {
        text::texts(self.diagnostics@)
    }

    /// Whether the cleaner takes every text.
    pub open spec fn wf(&self) -> bool {
        forall|x: &str| call_requires(self.cleaner(), (x,))
    }

    /// Whether nothing but the emitted keys and the pending diagnostics differs.
    pub open spec fn same_setup(&self, other: &Self) -> bool {
        &&& self.context() == other.context()
        &&& self.level_set() == other.level_set()
        &&& self.targets() == other.targets()
        &&& self.time_source() == other.time_source()
        &&& self.cleaner() == other.cleaner()
    }

    /// A writer with an explicit clock.
    pub fn with_clock(ctx: WriterContext, levels: Levels, sinks: Vec<S>, clock: C, clean: F) -> (w:
        Self)
        requires
            forall|x: &str| call_requires(clean, (x,)),
        ensures
            w.wf(),
            w.context() == ctx,
            w.level_set() == levels,
            w.targets() == sinks@,
            w.time_source() == clock,
            w.cleaner() == clean,
            w.emitted() == Seq::<Seq<char>>::empty(),
            w.pending() == Seq::<Seq<char>>::empty(),
    {
        let w = Writer {
            ctx,
            levels,
            sinks,
            clock,
            clean,
            seen: Vec::new(),
            diagnostics: Vec::new(),
        };
        proof {
            assert(w.emitted() =~= Seq::<Seq<char>>::empty());
            assert(w.pending() =~= Seq::<Seq<char>>::empty());
        }
        w
    }

    /// Emits one event: filters it by the level of its class, renders it and offers it to every
    /// sink. Says whether it passed the filter.
    pub fn emit(&mut self, event: &Event) -> (r: bool)
        requires
            old(self).wf(),
        ensures
            r == passes(old(self).level_set(), old(self).emitted(), *event),
            final(self).emitted() == seen_after(
                old(self).level_set(),
                old(self).emitted(),
                *event,
            ),
            final(self).same_setup(old(self)),
            final(self).wf(),
            !r ==> final(self).pending() == old(self).pending(),
            r ==> exists|record: Record, now: (i64, u32), fates: Seq<Fate>|
                {
                    &&& #[trigger] call_ensures(
                        C::now_unix_micros,
                        (&old(self).time_source(),),
                        now,
                    )
                    &&& is_record_of(
                        record,
                        old(self).context(),
                        *event,
                        time::rfc3339(now.0 as int, now.1 as int),
                        old(self).cleaner(),
                    )
                    &&& #[trigger] old(self).served(record, fates)
                    &&& final(self).pending() == old(self).pending() + lost(fates)
                },
    {
        let pass = self.should_emit(event);
        if !pass {
            return false;
        }
        let (secs, micros) = self.clock.now_unix_micros();
        let ts = format_rfc3339_micros(secs, micros);
        let record = render_at(&self.ctx, event, ts, &self.clean);
        let ghost this = *self;
        self.fan_out(&record);
        proof {
            let fates = choose|fates: Seq<Fate>| #[trigger]
                this.served(record, fates) && self.pending() == this.pending() + lost(fates);
            this.lemma_served(old(self), record, fates);
            assert(call_ensures(C::now_unix_micros, (&old(self).time_source(),), (secs, micros)));
            assert(old(self).served(record, fates));
        }
        true
    }

    /// Whether the failure of the sink at `failed` was reported to every other sink; `told` says
    /// whether one of them took the report.
    pub open spec fn was_reported(&self, err: SinkError, failed: int, told: bool) -> bool {
        exists|record: Record, took: Seq<bool>|
            {
                &&& #[trigger] is_drop_record(record, self.context(), err, self.cleaner())
                &&& #[trigger] self.was_offered_to_others(record, failed, took)
                &&& told == took.contains(true)
            }
    }

    /// Whether that became of the record at the sink `i`: it answered so, and where it failed, that
    /// was reported to the others.
    pub open spec fn fared(&self, record: Record, i: int, fate: Fate) -> bool {
        match fate {
            Fate::Took => call_ensures(
                S::write,
                (&self.targets()[i], &record),
                Ok::<(), SinkError>(()),
            ),
            Fate::Failed(err, told) => call_ensures(
                S::write,
                (&self.targets()[i], &record),
                Err::<(), SinkError>(err),
            ) && self.was_reported(err, i, told),
        }
    }

    /// Whether that became of the record at the sinks, each of which was offered it.
    pub open spec fn served(&self, record: Record, fates: Seq<Fate>) -> bool {
        &&& fates.len() == self.targets().len()
        &&& forall|i: int| 0 <= i < fates.len() ==> self.fared(record, i, #[trigger] fates[i])
    }

    /// Whether every sink but the one at `skip` was offered the record, and `took` says which of
    /// them took it.
    pub open spec fn was_offered_to_others(&self, record: Record, skip: int, took: Seq<bool>) -> bool {
        &&& took.len() == self.targets().len()
        &&& forall|i: int|
            #![trigger took[i]]
            0 <= i < took.len() && i != skip ==> can_answer(self.targets()[i], record, took[i])
        &&& 0 <= skip < took.len() ==> !took[skip]
    }

    proof fn lemma_reported(&self, other: &Self, err: SinkError, failed: int, told: bool)
        requires
            self.same_setup(other),
            self.was_reported(err, failed, told),
        ensures
            other.was_reported(err, failed, told),
    {
        let (record, took) = choose|record: Record, took: Seq<bool>|
            {
                &&& #[trigger] is_drop_record(record, self.context(), err, self.cleaner())
                &&& #[trigger] self.was_offered_to_others(record, failed, took)
                &&& told == took.contains(true)
            };
        assert(is_drop_record(record, other.context(), err, other.cleaner()));
        assert(other.was_offered_to_others(record, failed, took));
    }

    proof fn lemma_served(&self, other: &Self, record: Record, fates: Seq<Fate>)
        requires
            self.same_setup(other),
            self.served(record, fates),
        ensures
            other.served(record, fates),
    {
        assert forall|i: int| 0 <= i < fates.len() implies other.fared(
            record,
            i,
            #[trigger] fates[i],
        ) by {
            assert(self.fared(record, i, fates[i]));
            if let Fate::Failed(err, told) = fates[i] {
                self.lemma_reported(other, err, i, told);
            }
        }
    }

    /// Applies the level of the event's class, and remembers a first allow.
    pub fn should_emit(&mut self, event: &Event) -> (r: bool)
        ensures
            r == passes(old(self).level_set(), old(self).emitted(), *event),
            final(self).emitted() == seen_after(
                old(self).level_set(),
                old(self).emitted(),
                *event,
            ),
            final(self).same_setup(old(self)),
            final(self).pending() == old(self).pending(),
    {
        match self.levels.for_resource(event.resource) {
            Level::Off => false,
            Level::DeniesOnly => event.outcome == Outcome::Deny,
            Level::Full => true,
            Level::Summary => {
                if event.outcome != Outcome::Allow {
                    return true;
                }
                match &event.target {
                    None => true,
                    Some(target) => {
                        let mut key = String::from_str(event.resource.token());
                        key.push('\0');
                        key.append(target.as_str());
                        assert(key@ =~= summary_key(event.resource, target@));
                        if has_text(&self.seen, key.as_str()) {
                            false
                        } else {
                            let ghost before = self.seen@;
                            self.seen.push(key);
                            assert(text::texts(self.seen@) =~= text::texts(before).push(key@));
                            true
                        }
                    },
                }
            },
        }
    }

    /// Offers the record to every sink in turn; the failure of one is reported to the others
    /// before the next is served.
    fn fan_out(&mut self, record: &Record)
        requires
            old(self).wf(),
        ensures
            final(self).same_setup(old(self)),
            final(self).emitted() == old(self).emitted(),
            final(self).wf(),
            exists|fates: Seq<Fate>| #[trigger]
                old(self).served(*record, fates) && final(self).pending() == old(self).pending()
                    + lost(fates),
    {
        let ghost mut fates: Seq<Fate> = seq![];
        let mut i: usize = 0;
        assert(old(self).pending() + lost(fates) =~= old(self).pending());
        while i < self.sinks.len()
            invariant
                i <= self.sinks@.len(),
                self.same_setup(old(self)),
                self.emitted() == old(self).emitted(),
                self.wf(),
                fates.len() == i,
                forall|k: int|
                    0 <= k < fates.len() ==> old(self).fared(*record, k, #[trigger] fates[k]),
                self.pending() == old(self).pending() + lost(fates),
            decreases self.sinks@.len() - i,
        {
            let answer = self.sinks[i].write(record);
            assert(call_ensures(S::write, (&old(self).targets()[i as int], record), answer));
            let ghost before = fates;
            let ghost this = *self;
            match answer {
                Ok(u) => {
                    proof {
                        assert(u == ());
                        fates = fates.push(Fate::Took);
                    }
                },
                Err(err) => {
                    let told = self.report_drop(&err, i);
                    proof {
                        this.lemma_reported(old(self), err, i as int, told);
                        fates = fates.push(Fate::Failed(err, told));
                    }
                },
            }
            proof {
                assert(fates.drop_last() =~= before);
                assert(self.pending() =~= old(self).pending() + lost(fates));
                assert(old(self).fared(*record, i as int, fates[i as int]));
                assert forall|k: int| 0 <= k < fates.len() implies old(self).fared(
                    *record,
                    k,
                    #[trigger] fates[k],
                ) by {
                    if k < before.len() {
                        assert(fates[k] == before[k]);
                    }
                }
            }
            i = i + 1;
        }
        assert(old(self).served(*record, fates));
    }

    /// Offers a record to every sink but the one at `skip`: which of them took it.
    fn offer(&self, record: &Record, skip: usize) -> (took: Vec<bool>)
        ensures
            self.was_offered_to_others(*record, skip as int, took@),
    {
        let mut took: Vec<bool> = Vec::new();
        let mut i: usize = 0;
        while i < self.sinks.len()
            invariant
                i <= self.sinks@.len(),
                took@.len() == i,
                forall|k: int|
                    #![trigger took@[k]]
                    0 <= k < i && k != skip ==> can_answer(
                        self.targets()[k],
                        *record,
                        took@[k],
                    ),
                skip < i ==> !took@[skip as int],
            decreases self.sinks@.len() - i,
        {
            if i == skip {
                took.push(false);
            } else {
                let answer = self.sinks[i].write(record);
                assert(call_ensures(S::write, (&self.targets()[i as int], record), answer));
                assert(can_answer(self.targets()[i as int], *record, answer.is_ok()));
                took.push(answer.is_ok());
            }
            i = i + 1;
        }
        took
    }

    /// Reports a failed sink to all others, and keeps a diagnostic line when none of them took
    /// the report; says whether one did.
    fn report_drop(&mut self, err: &SinkError, failed: usize) -> (told: bool)
        requires
            old(self).wf(),
        ensures
            final(self).same_setup(old(self)),
            final(self).emitted() == old(self).emitted(),
            final(self).wf(),
            old(self).was_reported(*err, failed as int, told),
            final(self).pending() == if told {
                old(self).pending()
            } else {
                old(self).pending().push(undelivered(*err))
            },
    {
        assert(self.cleaner() == self.clean);
        let record = drop_record(&self.ctx, err, &self.clean);
        let took = self.offer(&record, failed);
        let mut delivered: bool = false;
        let mut i: usize = 0;
        while i < took.len()
            invariant
                i <= took@.len(),
                delivered == took@.take(i as int).contains(true),
            decreases took@.len() - i,
        {
            proof {
                let t = took@.take(i + 1);
                assert(t =~= took@.take(i as int).push(took@[i as int]));
                if took@.take(i as int).contains(true) {
                    let k = choose|k: int| 0 <= k < i && took@.take(i as int)[k];
                    assert(t[k]);
                }
                if took@[i as int] {
                    assert(t[i as int]);
                }
            }
            delivered = delivered || took[i];
            i = i + 1;
        }
        proof {
            assert(took@.take(i as int) =~= took@);
            assert(is_drop_record(record, old(self).context(), *err, old(self).cleaner()));
            assert(old(self).was_offered_to_others(record, failed as int, took@));
        }
        if delivered {
            assert(self.pending() == old(self).pending());
            return true;
        }
        let line = concat4(
            "kennel-audit: sink ",
            err.sink,
            " failed and no other sink accepted the drop record: ",
            err.message.as_str(),
        );
        let ghost before = self.diagnostics@;
        self.diagnostics.push(line);
        assert(text::texts(self.diagnostics@) =~= text::texts(before).push(line@));
        false
    }

    /// Takes the diagnostic lines that are waiting.
    pub fn take_diagnostics(&mut self) -> (lines: Vec<String>)
        ensures
            text::texts(lines@) == old(self).pending(),
            final(self).pending() == Seq::<Seq<char>>::empty(),
            final(self).same_setup(old(self)),
            final(self).emitted() == old(self).emitted(),
    {
        let mut lines: Vec<String> = Vec::new();
        lines.append(&mut self.diagnostics);
        assert(lines@ =~= old(self).diagnostics@);
        assert(self.pending() =~= Seq::<Seq<char>>::empty());
        lines
    }
}

// ---- what a record holds ---------------------------------------------------------

/// Without settings each class tells what is new, but for the files, which tell denials alone.
pub proof fn law_files_alone_are_quiet_by_default(levels: Levels, class: Resource, r: Level)
    requires
        call_ensures(Levels::default, (), levels),
        call_ensures(Levels::for_resource, (levels, class), r),
    ensures
        class == Resource::Fs ==> r == Level::DeniesOnly,
        class == Resource::Priv || class == Resource::Lifecycle ==> r == Level::Full,
        class == Resource::Net || class == Resource::Exec || class == Resource::Unix || class
            == Resource::Dbus ==> r == Level::Summary,
{
}

proof fn lemma_rendered<F: Fn(&str) -> String>(
    f: F,
    a: Seq<(&'static str, Value)>,
    b: Seq<(&'static str, Rendered)>,
    i: int,
)
    requires
        renders_entries(f, a, b),
        0 <= i < a.len(),
    ensures
        a.len() == b.len(),
        b[i].0@ == a[i].0@,
        renders(f, a[i].1, b[i].1),
        altered(a[i].1, b[i].1) ==> altered_entries(a, b),
    decreases a.len(),
{
    lemma_rendered_len(f, a, b);
    if i < a.len() - 1 {
        lemma_rendered(f, a.drop_last(), b.drop_last(), i);
    }
}

proof fn lemma_rendered_len<F: Fn(&str) -> String>(
    f: F,
    a: Seq<(&'static str, Value)>,
    b: Seq<(&'static str, Rendered)>,
)
    requires
        renders_entries(f, a, b),
    ensures
        a.len() == b.len(),
    decreases a.len(),
{
    if a.len() > 0 && b.len() > 0 {
        lemma_rendered_len(f, a.drop_last(), b.drop_last());
    }
}

/// Whether a field has the key and the text.
pub open spec fn says(field: (&'static str, Rendered), key: Seq<char>, value: Seq<char>) -> bool {
    field.0@ == key && (field.1 matches Rendered::Str(s) && s@ == value)
}

/// A record tells what happened, when, in which kennel and on which host, each under its own key, and
/// the process where it is known.
pub proof fn law_record_tells_what_happened<F: Fn(&str) -> String>(
    ctx: &WriterContext,
    event: &Event,
    ts: String,
    f: &F,
    record: Record,
)
    requires
        call_ensures(render_at::<F>, (ctx, event, ts, f), record),
    ensures
        record.fields@.len() >= 9,
        says(record.fields@[1], "ts"@, ts@),
        says(record.fields@[2], "kennel"@, ctx.kennel@),
        says(record.fields@[3], "kennel_uuid"@, ctx.kennel_uuid@),
        says(record.fields@[4], "event"@, event.event@),
        says(record.fields@[5], "resource"@, event.resource.token_text()),
        says(record.fields@[6], "outcome"@, event.outcome.token_text()),
        says(record.fields@[7], "source"@, event.source.token_text()),
        says(record.fields@[8], "host"@, ctx.host@),
        record.resource == event.resource,
        record.outcome == event.outcome,
        event.pid matches Some(p) ==> record.fields@.len() >= 10 && record.fields@[9].0@ == "pid"@ && (
        record.fields@[9].1 matches Rendered::Uint(u) && u == p),
{
    let (head, own) = choose|head: Seq<(&'static str, Rendered)>, own: Seq<(&'static str, Rendered)>|
        {
            let flag = comm_altered(head, *event) || altered_entries(event.fields@, own);
            &&& #[trigger] is_envelope_of(head, *ctx, *event, ts@, *f)
            &&& #[trigger] renders_entries(*f, event.fields@, own)
            &&& record.fields@.len() == head.len() + own.len() + if flag {
                1int
            } else {
                0int
            }
            &&& record.fields@.take((head.len() + own.len()) as int) == head + own
            &&& flag ==> record.fields@.last() == ("sanitised", Rendered::Bool(true))
            &&& record.resource == event.resource
            &&& record.event_type@ == event.event@
            &&& record.outcome == event.outcome
        };
    let front = record.fields@.take((head.len() + own.len()) as int);
    assert forall|k: int| 0 <= k < head.len() implies #[trigger] record.fields@[k] == head[k] by {
        assert(front[k] == (head + own)[k]);
    }
}

/// The fields of an event follow in its record in their order under their keys: a text that is trusted
/// stays as it is, one that is not is cleaned, and where cleaning changed one the record says so.
pub proof fn law_record_keeps_the_fields<F: Fn(&str) -> String>(
    ctx: &WriterContext,
    event: &Event,
    ts: String,
    f: &F,
    record: Record,
    i: int,
)
    requires
        call_ensures(render_at::<F>, (ctx, event, ts, f), record),
        0 <= i < event.fields@.len(),
    ensures
        ({
            let k = 9 + (if event.pid is Some {
                1int
            } else {
                0int
            }) + (if event.comm is Some {
                1int
            } else {
                0int
            }) + i;
            let made = record.fields@[k];
            &&& k < record.fields@.len()
            &&& made.0@ == event.fields@[i].0@
            &&& event.fields@[i].1 matches Value::Str(s) ==> (made.1 matches Rendered::Str(t) && t@ == s@)
            &&& event.fields@[i].1 matches Value::Int(n) ==> (made.1 matches Rendered::Int(m) && m == n)
            &&& event.fields@[i].1 matches Value::Uint(n) ==> (made.1 matches Rendered::Uint(m) && m
                == n)
            &&& event.fields@[i].1 matches Value::Bool(n) ==> (made.1 matches Rendered::Bool(m) && m
                == n)
            &&& event.fields@[i].1 matches Value::Untrusted(s) ==> (made.1 matches Rendered::Str(t)
                && cleans_to(*f, s@, t@) && (t@ != s@ ==> record.fields@.last() == (
                "sanitised",
                Rendered::Bool(true),
            )))
        }),
{
    let (head, own) = choose|head: Seq<(&'static str, Rendered)>, own: Seq<(&'static str, Rendered)>|
        {
            let flag = comm_altered(head, *event) || altered_entries(event.fields@, own);
            &&& #[trigger] is_envelope_of(head, *ctx, *event, ts@, *f)
            &&& #[trigger] renders_entries(*f, event.fields@, own)
            &&& record.fields@.len() == head.len() + own.len() + if flag {
                1int
            } else {
                0int
            }
            &&& record.fields@.take((head.len() + own.len()) as int) == head + own
            &&& flag ==> record.fields@.last() == ("sanitised", Rendered::Bool(true))
            &&& record.resource == event.resource
            &&& record.event_type@ == event.event@
            &&& record.outcome == event.outcome
        };
    lemma_rendered(*f, event.fields@, own, i);
    let front = record.fields@.take((head.len() + own.len()) as int);
    let k = head.len() + i;
    assert(front[k] == (head + own)[k]);
    assert(record.fields@[k] == own[i]);
}

/// A sink that failed is told to the others by its name, in the kennel's own record of an error.
pub proof fn law_failed_sink_is_recorded<F: Fn(&str) -> String>(
    ctx: &WriterContext,
    err: &SinkError,
    f: &F,
    record: Record,
)
    requires
        call_ensures(drop_record::<F>, (ctx, err, f), record),
    ensures
        record.outcome == Outcome::Error,
        record.resource == Resource::Lifecycle,
        exists|k: int|
            0 <= k < record.fields@.len() && says(#[trigger] record.fields@[k], "failed_sink"@, err.sink@),
        exists|k: int|
            0 <= k < record.fields@.len() && says(#[trigger] record.fields@[k], "kennel"@, ctx.kennel@),
{
    assert(says(record.fields@[6], "failed_sink"@, err.sink@));
    assert(says(record.fields@[5], "kennel"@, ctx.kennel@));
}

} // verus!
