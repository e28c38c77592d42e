//! What the systemd-journald sink submits for a record.

use super::message_ids;
use super::message_ids::for_event;
use super::render;
use super::render::{scalar_text, Record, Rendered};
use crate::decimal;
use crate::decimal::dec_text;
use crate::text;
use crate::text::{ascii_upper, chars_of, concat2, concat3};
use vstd::prelude::*;
use vstd::string::*;

verus! {

/// Emits events to systemd-journald.
#[derive(Debug, Clone, Copy, Default)]
pub struct JournaldSink;

impl JournaldSink {
    /// The sink; there is no connection that could fail at construction.
    pub fn new() -> (r: Self)
        ensures
            r == JournaldSink,
    {
        JournaldSink
    }
}

/// The journal field of a record field: `KENNEL_` and the upper-cased key.
pub open spec fn journal_key(key: Seq<char>) -> Seq<char> {
    "KENNEL_"@ + key.map_values(|c: char| text::upper(c))
}

/// The journal field of a record field.
pub fn journal_name(key: &str) -> (r: String)
    ensures
        r@ == journal_key(key@),
{
    let cs = chars_of(key);
    let mut name = String::from_str("KENNEL_");
    let mut i: usize = 0;
    let ghost mapped = cs@.map_values(|c: char| text::upper(c));
    assert(name@ =~= "KENNEL_"@ + mapped.take(0));
    while i < cs.len()
        invariant
            i <= cs@.len(),
            mapped == cs@.map_values(|c: char| text::upper(c)),
            name@ == "KENNEL_"@ + mapped.take(i as int),
        decreases cs@.len() - i,
    {
        name.push(ascii_upper(cs[i]));
        assert(name@ =~= "KENNEL_"@ + mapped.take(i + 1));
        i = i + 1;
    }
    assert(mapped.take(cs@.len() as int) =~= mapped);
    name
}

/// The journal entries of one record field: one for a scalar, one for each scalar of an array
/// under the same name, none for null and objects.
pub open spec fn journal_entries(key: Seq<char>, value: Rendered) -> Seq<Seq<char>>
    decreases value,
{
    match value {
        Rendered::Array(items) => journal_items(key, items@),
        _ => match render::scalar(value) {
            Some(t) => seq![journal_key(key) + "="@ + t],
            None => seq![],
        },
    }
}

/// The journal entries of the items of an array.
pub open spec fn journal_items(key: Seq<char>, items: Seq<Rendered>) -> Seq<Seq<char>>
    decreases items,
{
    if items.len() == 0 {
        seq![]
    } else {
        journal_items(key, items.drop_last()) + journal_entries(key, items.last())
    }
}

/// The journal entries of all fields of a record.
pub open spec fn all_entries(fields: Seq<(&'static str, Rendered)>) -> Seq<Seq<char>>
    decreases fields.len(),
{
    if fields.len() == 0 {
        seq![]
    } else {
        all_entries(fields.drop_last()) + journal_entries(fields.last().0@, fields.last().1)
    }
}

/// Appends the journal entries of one record field.
pub fn append_journal_fields(out: &mut Vec<String>, key: &str, value: &Rendered)
    ensures
        text::texts(final(out)@) == text::texts(old(out)@) + journal_entries(key@, *value),
    decreases value,
{
    match value {
        Rendered::Array(items) => append_items(out, key, items),
        _ => {
            if let Some(t) = scalar_text(value) {
                let name = journal_name(key);
                out.push(concat3(name.as_str(), "=", t.as_str()));
            }
            assert(text::texts(out@) =~= text::texts(old(out)@) + journal_entries(key@, *value));
        },
    }
}

fn append_items(out: &mut Vec<String>, key: &str, items: &Vec<Rendered>)
    ensures
        text::texts(final(out)@) == text::texts(old(out)@) + journal_items(key@, items@),
    decreases items,
{
    let ghost start = text::texts(out@);
    let mut i: usize = 0;
    assert(items@.take(0) =~= seq![]);
    assert(start + journal_items(key@, seq![]) =~= start);
    while i < items.len()
        invariant
            i <= items@.len(),
            text::texts(out@) == start + journal_items(key@, items@.take(i as int)),
        decreases items@.len() - i,
    {
        proof {
            assert(decreases_to!(items => items@[i as int]));
        }
        append_journal_fields(out, key, &items[i]);
        proof {
            let t = items@.take(i + 1);
            assert(t.drop_last() =~= items@.take(i as int));
            assert(text::texts(out@) =~= start + journal_items(key@, t));
        }
        i = i + 1;
    }
    assert(items@.take(items@.len() as int) =~= items@);
}

/// The last entry for an event type that has a `MESSAGE_ID`, nothing for one that has none.
pub open spec fn is_id_entry(event: Seq<char>, tail: Seq<Seq<char>>) -> bool {
    ||| tail.len() == 0 && forall|i: int|
        0 <= i < message_ids::MESSAGE_IDS@.len() ==> (#[trigger] message_ids::MESSAGE_IDS@[i]).0@
            != event
    ||| exists|i: int| #[trigger]
        message_ids::registered_at(event, i) && tail == seq![
            "MESSAGE_ID="@ + message_ids::undashed(message_ids::MESSAGE_IDS@[i].1@),
        ]
}

/// What is submitted for a record: its fields, the summary, the identifier, the priority, and the
/// message id where the event type has one.
pub fn submission(record: &Record) -> (out: Vec<String>)
    ensures
        ({
            let fixed = all_entries(record.fields@) + seq![
                "MESSAGE="@ + record.summary(),
                "SYSLOG_IDENTIFIER=kennel-audit"@,
                "PRIORITY="@ + decimal::dec(record.outcome.level() as nat),
            ];
            let all = text::texts(out@);
            fixed.is_prefix_of(all) && is_id_entry(
                record.event_type@,
                all.skip(fixed.len() as int),
            )
        }),
{
    let mut out: Vec<String> = Vec::new();
    let mut i: usize = 0;
    assert(record.fields@.take(0) =~= seq![]);
    assert(text::texts(out@) =~= all_entries(seq![]));
    while i < record.fields.len()
        invariant
            i <= record.fields@.len(),
            text::texts(out@) == all_entries(record.fields@.take(i as int)),
        decreases record.fields@.len() - i,
    {
        append_journal_fields(&mut out, record.fields[i].0, &record.fields[i].1);
        assert(record.fields@.take(i + 1).drop_last() =~= record.fields@.take(i as int));
        i = i + 1;
    }
    assert(record.fields@.take(record.fields@.len() as int) =~= record.fields@);
    let msg = record.message();
    let severity = dec_text(record.outcome.severity() as u64);
    out.push(concat2("MESSAGE=", msg.as_str()));
    out.push("SYSLOG_IDENTIFIER=kennel-audit".to_owned());
    out.push(concat2("PRIORITY=", severity.as_str()));
    let ghost fixed = all_entries(record.fields@) + seq![
        "MESSAGE="@ + record.summary(),
        "SYSLOG_IDENTIFIER=kennel-audit"@,
        "PRIORITY="@ + decimal::dec(record.outcome.level() as nat),
    ];
    assert(text::texts(out@) =~= fixed);
    if let Some(id) = for_event(record.event_type) {
        out.push(concat2("MESSAGE_ID=", id.as_str()));
        assert(text::texts(out@) =~= fixed + seq!["MESSAGE_ID="@ + id@]);
    }
    proof {
        let all = text::texts(out@);
        assert(all.take(fixed.len() as int) =~= fixed);
        if all.len() == fixed.len() {
            assert(all.skip(fixed.len() as int) =~= seq![]);
        } else {
            assert(all.skip(fixed.len() as int) =~= seq![all.last()]);
        }
    }
    out
}

// ---- what holds of the whole ----------------------------------------------------

proof fn lemma_entries(fields: Seq<(&'static str, Rendered)>, i: int, v: Seq<char>)
    requires
        0 <= i < fields.len(),
        render::scalar(fields[i].1) == Some(v),
    ensures
        all_entries(fields).contains(journal_key(fields[i].0@) + "="@ + v),
    decreases fields.len(),
{
    let front = fields.drop_last();
    let all = all_entries(fields);
    let e = journal_key(fields[i].0@) + "="@ + v;
    let rest = all_entries(front);
    let last = journal_entries(fields.last().0@, fields.last().1);
    if i < fields.len() - 1 {
        lemma_entries(front, i, v);
        let k = choose|k: int| 0 <= k < rest.len() && rest[k] == e;
        assert(all[k] == e);
    } else {
        assert(last == seq![e]);
        assert(all[rest.len() as int] == last[0]);
    }
}

/// The journal is given every plain field under its name, the message and the severity.
pub proof fn law_journal_gets_every_field(record: &Record, out: Vec<String>, i: int, v: Seq<char>)
    requires
        call_ensures(submission, (record,), out),
        0 <= i < record.fields@.len(),
        render::scalar(record.fields@[i].1) == Some(v),
    ensures
        text::texts(out@).contains(
            "KENNEL_"@ + record.fields@[i].0@.map_values(|c: char| text::upper(c)) + "="@ + v,
        ),
        text::texts(out@).contains("MESSAGE="@ + record.summary()),
        text::texts(out@).contains("PRIORITY="@ + decimal::dec(record.outcome.level() as nat)),
{
    let entries = all_entries(record.fields@);
    let three = seq![
        "MESSAGE="@ + record.summary(),
        "SYSLOG_IDENTIFIER=kennel-audit"@,
        "PRIORITY="@ + decimal::dec(record.outcome.level() as nat),
    ];
    let fixed = entries + three;
    let all = text::texts(out@);
    lemma_entries(record.fields@, i, v);
    let e = journal_key(record.fields@[i].0@) + "="@ + v;
    let k = choose|k: int| 0 <= k < entries.len() && entries[k] == e;
    assert(fixed[k] == e);
    assert(all.subrange(0, fixed.len() as int) == fixed);
    assert(all[k] == fixed[k]) by {
        assert(all.subrange(0, fixed.len() as int)[k] == fixed[k]);
    }
    let n = entries.len() as int;
    assert(fixed[n] == three[0] && fixed[n + 2] == three[2]);
    assert(all[n] == fixed[n]) by {
        assert(all.subrange(0, fixed.len() as int)[n] == fixed[n]);
    }
    assert(all[n + 2] == fixed[n + 2]) by {
        assert(all.subrange(0, fixed.len() as int)[n + 2] == fixed[n + 2]);
    }
}

} // verus!
