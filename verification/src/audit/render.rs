//! The rendered record and the encodings that sinks share.
//!
//! By the time a [`Record`] exists the untrusted strings are clean, so an encoding here is
//! structural only: JSON escaping and the human-readable summary line.

use super::event::{Outcome, Resource};
use crate::decimal;
use crate::decimal::{dec_text, push_dec, signed_text};
use crate::text;
use crate::text::{chars_of, hex_char, same};
use crate::words;
use vstd::prelude::*;
use vstd::string::*;

verus! {

/// A field value after cleaning, ready for a sink's own encoding.
#[derive(Debug, PartialEq, Eq)]
pub enum Rendered {
    /// A string without live control bytes.
    Str(String),
    /// A signed integer.
    Int(i64),
    /// An unsigned integer.
    Uint(u64),
    /// A boolean.
    Bool(bool),
    /// Not applicable.
    Null,
    /// An ordered array.
    Array(Vec<Rendered>),
    /// An ordered object of named values.
    Object(Vec<(&'static str, Rendered)>),
}

/// One fully rendered audit event.
#[derive(Debug, PartialEq, Eq)]
pub struct Record {
    /// Resource class; selects the class file.
    pub resource: Resource,
    /// The event-type identifier.
    pub event_type: &'static str,
    /// The outcome; selects the severity.
    pub outcome: Outcome,
    /// The ordered fields: envelope, event-specific fields, and a trailing `sanitised` flag when
    /// cleaning changed anything.
    pub fields: Vec<(&'static str, Rendered)>,
}

// ---- JSON strings --------------------------------------------------------------

/// How one character is written inside a JSON string.
pub open spec fn escape(c: char) -> Seq<char> {
    if c == '"' {
        seq!['\\', '"']
    } else if c == '\\' {
        seq!['\\', '\\']
    } else if c == '\n' {
        seq!['\\', 'n']
    } else if c == '\r' {
        seq!['\\', 'r']
    } else if c == '\t' {
        seq!['\\', 't']
    } else if (c as u32) < 32 {
        seq!['\\', 'u', '0', '0', text::hex((c as u32 / 16) as int), text::hex((c as u32 % 16) as int)]
    } else {
        seq![c]
    }
}

/// A text with every character written as inside a JSON string.
pub open spec fn escaped(s: Seq<char>) -> Seq<char>
    decreases s.len(),
{
    if s.len() == 0 {
        seq![]
    } else {
        escaped(s.drop_last()) + escape(s.last())
    }
}

/// A text as a JSON string.
pub open spec fn quoted(s: Seq<char>) -> Seq<char> {
    seq!['"'] + escaped(s) + seq!['"']
}

/// Appends `s` as a JSON string.
pub fn push_json_string(out: &mut String, s: &str)
    ensures
        final(out)@ == old(out)@ + quoted(s@),
{
    let cs = chars_of(s);
    out.push('"');
    let ghost start = out@;
    let mut i: usize = 0;
    assert(cs@.take(0) =~= seq![]);
    assert(start + escaped(seq![]) =~= start);
    while i < cs.len()
        invariant
            i <= cs@.len(),
            out@ == start + escaped(cs@.take(i as int)),
        decreases cs@.len() - i,
    {
        let c = cs[i];
        let ghost before = out@;
        if c == '"' {
            out.push('\\');
            out.push('"');
        } else if c == '\\' {
            out.push('\\');
            out.push('\\');
        } else if c == '\n' {
            out.push('\\');
            out.push('n');
        } else if c == '\r' {
            out.push('\\');
            out.push('r');
        } else if c == '\t' {
            out.push('\\');
            out.push('t');
        } else if (c as u32) < 32 {
            let n: u32 = c as u32;
            out.push('\\');
            out.push('u');
            out.push('0');
            out.push('0');
            out.push(hex_char((n / 16) as u8));
            out.push(hex_char((n % 16) as u8));
        } else {
            out.push(c);
        }
        proof {
            assert(out@ =~= before + escape(c));
            let t = cs@.take(i + 1);
            assert(t.drop_last() =~= cs@.take(i as int));
            assert(t.last() == c);
            assert(out@ =~= start + escaped(t));
        }
        i = i + 1;
    }
    out.push('"');
    assert(cs@.take(cs@.len() as int) =~= s@);
    assert(out@ =~= old(out)@ + quoted(s@));
}

// ---- JSON values ---------------------------------------------------------------

/// A value as JSON.
pub open spec fn json(v: Rendered) -> Seq<char>
    decreases v,
{
    match v {
        Rendered::Str(s) => quoted(s@),
        Rendered::Int(i) => decimal::signed(i as int),
        Rendered::Uint(u) => decimal::dec(u as nat),
        Rendered::Bool(b) => bool_text(b),
        Rendered::Null => "null"@,
        Rendered::Array(items) => seq!['['] + json_items(items@) + seq![']'],
        Rendered::Object(entries) => seq!['{'] + json_entries(entries@) + seq!['}'],
    }
}

/// `true` or `false`.
pub open spec fn bool_text(b: bool) -> Seq<char> {
    if b {
        "true"@
    } else {
        "false"@
    }
}

/// The items of an array, separated by commas.
pub open spec fn json_items(items: Seq<Rendered>) -> Seq<char>
    decreases items,
{
    if items.len() == 0 {
        seq![]
    } else if items.len() == 1 {
        json(items[0])
    } else {
        json_items(items.drop_last()) + seq![','] + json(items.last())
    }
}

/// The entries of an object, separated by commas.
pub open spec fn json_entries(entries: Seq<(&'static str, Rendered)>) -> Seq<char>
    decreases entries,
{
    if entries.len() == 0 {
        seq![]
    } else if entries.len() == 1 {
        quoted(entries[0].0@) + seq![':'] + json(entries[0].1)
    } else {
        json_entries(entries.drop_last()) + seq![','] + quoted(entries.last().0@) + seq![':']
            + json(entries.last().1)
    }
}

/// Appends a value as JSON.
pub fn push_value(out: &mut String, value: &Rendered)
    ensures
        final(out)@ == old(out)@ + json(*value),
    decreases value,
{
    match value {
        Rendered::Str(s) => push_json_string(out, s.as_str()),
        Rendered::Int(i) => {
            let t = signed_text(*i);
            out.append(t.as_str());
        },
        Rendered::Uint(u) => push_dec(out, *u),
        Rendered::Bool(b) => out.append(
            if *b {
                "true"
            } else {
                "false"
            },
        ),
        Rendered::Null => out.append("null"),
        Rendered::Array(items) => {
            out.push('[');
            push_items(out, items);
            out.push(']');
            assert(out@ =~= old(out)@ + json(*value));
        },
        Rendered::Object(entries) => {
            out.push('{');
            push_entries(out, entries);
            out.push('}');
            assert(out@ =~= old(out)@ + json(*value));
        },
    }
}

/// Appends the items of an array, separated by commas.
fn push_items(out: &mut String, items: &Vec<Rendered>)
    ensures
        final(out)@ == old(out)@ + json_items(items@),
    decreases items,
{
    let ghost start = out@;
    let mut i: usize = 0;
    assert(items@.take(0) =~= seq![]);
    assert(start + json_items(seq![]) =~= start);
    while i < items.len()
        invariant
            i <= items@.len(),
            out@ == start + json_items(items@.take(i as int)),
        decreases items@.len() - i,
    {
        if i > 0 {
            out.push(',');
        }
        proof {
            assert(decreases_to!(items => items@[i as int]));
        }
        push_value(out, &items[i]);
        proof {
            let t = items@.take(i + 1);
            assert(t.drop_last() =~= items@.take(i as int));
            assert(t.last() == items@[i as int]);
            assert(out@ =~= start + json_items(t));
        }
        i = i + 1;
    }
    assert(items@.take(items@.len() as int) =~= items@);
}

/// Appends the entries of an object, separated by commas.
fn push_entries(out: &mut String, entries: &Vec<(&'static str, Rendered)>)
    ensures
        final(out)@ == old(out)@ + json_entries(entries@),
    decreases entries,
{
    let ghost start = out@;
    let mut i: usize = 0;
    assert(entries@.take(0) =~= seq![]);
    assert(start + json_entries(seq![]) =~= start);
    while i < entries.len()
        invariant
            i <= entries@.len(),
            out@ == start + json_entries(entries@.take(i as int)),
        decreases entries@.len() - i,
    {
        if i > 0 {
            out.push(',');
        }
        push_json_string(out, entries[i].0);
        out.push(':');
        proof {
            assert(decreases_to!(entries => entries@[i as int].1));
        }
        push_value(out, &entries[i].1);
        proof {
            let t = entries@.take(i + 1);
            assert(t.drop_last() =~= entries@.take(i as int));
            assert(t.last() == entries@[i as int]);
            assert(out@ =~= start + json_entries(t));
        }
        i = i + 1;
    }
    assert(entries@.take(entries@.len() as int) =~= entries@);
}

impl Record {
    /// The record as one JSON object.
    pub open spec fn line(self) -> Seq<char> {
        seq!['{'] + json_entries(self.fields@) + seq!['}']
    }

    /// The record as one JSON Lines entry, without the line feed.
    pub fn to_jsonl(&self) -> (out: String)
        ensures
            out@ == self.line(),
    {
        let mut out = String::new();
        out.push('{');
        push_entries(&mut out, &self.fields);
        out.push('}');
        assert(out@ =~= self.line());
        out
    }

    /// The summary line: outcome and event type, then the event-specific scalars.
    pub open spec fn summary(self) -> Seq<char> {
        let head = self.outcome.token_text() + seq![' '] + self.event_type@;
        let items = shown(self.fields@);
        if items.len() == 0 {
            head
        } else {
            head + ": "@ + words::joined(items, ", "@)
        }
    }

    /// A human-readable one-line summary.
    pub fn message(&self) -> (out: String)
        ensures
            out@ == self.summary(),
    {
        let mut out = String::from_str(self.outcome.token());
        out.push(' ');
        out.append(self.event_type);
        assert(out@ =~= self.outcome.token_text() + seq![' '] + self.event_type@);
        let mut items: Vec<String> = Vec::new();
        let mut i: usize = 0;
        assert(self.fields@.take(0) =~= seq![]);
        assert(text::texts(items@) =~= seq![]);
        while i < self.fields.len()
            invariant
                i <= self.fields@.len(),
                text::texts(items@) == shown(self.fields@.take(i as int)),
            decreases self.fields@.len() - i,
        {
            let ghost before = items@;
            let key = self.fields[i].0;
            proof {
                let t = self.fields@.take(i + 1);
                assert(t.drop_last() =~= self.fields@.take(i as int));
                assert(t.last() == self.fields@[i as int]);
            }
            if !is_envelope_key(key) {
                if let Some(scalar) = scalar_text(&self.fields[i].1) {
                    let mut item = String::from_str(key);
                    item.push('=');
                    item.append(scalar.as_str());
                    assert(item@ =~= key@ + seq!['='] + scalar@);
                    items.push(item);
                    assert(text::texts(items@) =~= text::texts(before).push(item@));
                }
            }
            i = i + 1;
        }
        assert(self.fields@.take(self.fields@.len() as int) =~= self.fields@);
        assert(text::texts(items@).len() == items@.len());
        if items.len() > 0 {
            let tail = words::join(&items, ", ");
            out.append(": ");
            out.append(tail.as_str());
        }
        out
    }
}

/// Whether a field belongs to the envelope that every record carries.
pub open spec fn is_envelope(key: Seq<char>) -> bool {
    ||| key == "schema_version"@
    ||| key == "ts"@
    ||| key == "kennel"@
    ||| key == "kennel_uuid"@
    ||| key == "event"@
    ||| key == "resource"@
    ||| key == "outcome"@
    ||| key == "source"@
    ||| key == "host"@
    ||| key == "pid"@
    ||| key == "comm"@
    ||| key == "sanitised"@
}

/// Whether a field belongs to the envelope that every record carries.
pub fn is_envelope_key(key: &str) -> (r: bool)
    ensures
        r == is_envelope(key@),
{
    same(key, "schema_version") || same(key, "ts") || same(key, "kennel") || same(
        key,
        "kennel_uuid",
    ) || same(key, "event") || same(key, "resource") || same(key, "outcome") || same(key, "source")
        || same(key, "host") || same(key, "pid") || same(key, "comm") || same(key, "sanitised")
}

/// The plain text of a scalar; arrays, objects and null have none.
pub open spec fn scalar(v: Rendered) -> Option<Seq<char>> {
    match v {
        Rendered::Str(s) => Some(s@),
        Rendered::Int(i) => Some(decimal::signed(i as int)),
        Rendered::Uint(u) => Some(decimal::dec(u as nat)),
        Rendered::Bool(b) => Some(bool_text(b)),
        _ => None,
    }
}

/// The plain text of a scalar; arrays, objects and null have none.
pub fn scalar_text(value: &Rendered) -> (r: Option<String>)
    ensures
        match r {
            Some(t) => scalar(*value) == Some(t@),
            None => scalar(*value) is None,
        },
{
    match value {
        Rendered::Str(s) => Some(s.clone()),
        Rendered::Int(i) => Some(signed_text(*i)),
        Rendered::Uint(u) => Some(dec_text(*u)),
        Rendered::Bool(b) => Some(bool_string(*b)),
        Rendered::Null | Rendered::Array(_) | Rendered::Object(_) => None,
    }
}

fn bool_string(b: bool) -> (r: String)
    ensures
        r@ == bool_text(b),
{
    if b {
        "true".to_owned()
    } else {
        "false".to_owned()
    }
}

/// The event-specific scalars of a record, each as `key=value`, in field order.
pub open spec fn shown(fields: Seq<(&'static str, Rendered)>) -> Seq<Seq<char>>
    decreases fields.len(),
{
    if fields.len() == 0 {
        seq![]
    } else {
        let rest = shown(fields.drop_last());
        let (key, value) = fields.last();
        match scalar(value) {
            Some(t) => if is_envelope(key@) {
                rest
            } else {
                rest.push(key@ + seq!['='] + t)
            },
            None => rest,
        }
    }
}

// ---- what a reader gets back ---------------------------------------------------

/// The value of a lower-case hexadecimal digit.
pub open spec fn unhex(c: char) -> int {
    if c <= '9' {
        (c as u32) - 48
    } else {
        (c as u32) - 87
    }
}

/// Reads one character of a JSON string: the character, and how much of the text it takes. A quote
/// or a control character is none, and of the numbered characters only those below 256 are read.
pub open spec fn read_char(t: Seq<char>) -> Option<(char, int)> {
    if t.len() == 0 || t[0] == '"' || (t[0] as u32) < 32 {
        None
    } else if t[0] != '\\' {
        Some((t[0], 1))
    } else if t.len() < 2 {
        None
    } else if t[1] == '"' || t[1] == '\\' || t[1] == '/' {
        Some((t[1], 2))
    } else if t[1] == 'n' {
        Some(('\n', 2))
    } else if t[1] == 'r' {
        Some(('\r', 2))
    } else if t[1] == 't' {
        Some(('\t', 2))
    } else if t[1] == 'u' && t.len() >= 6 && t[2] == '0' && t[3] == '0' {
        Some(((16 * unhex(t[4]) + unhex(t[5])) as char, 6))
    } else {
        None
    }
}

/// Reads the characters of a JSON string up to its closing quote: the text, and what follows.
pub open spec fn read_string(t: Seq<char>) -> Option<(Seq<char>, Seq<char>)>
    decreases t.len(),
{
    if t.len() > 0 && t[0] == '"' {
        Some((seq![], t.skip(1)))
    } else {
        match read_char(t) {
            Some((c, used)) => match read_string(t.skip(used)) {
                Some(r) => Some((seq![c] + r.0, r.1)),
                None => None,
            },
            None => None,
        }
    }
}

proof fn lemma_escaped_front(s: Seq<char>)
    requires
        s.len() > 0,
    ensures
        escaped(s) == escape(s[0]) + escaped(s.drop_first()),
    decreases s.len(),
{
    if s.len() == 1 {
        assert(s.drop_last() =~= seq![]);
        assert(s.drop_first() =~= seq![]);
        assert(escaped(s) =~= escape(s[0]) + escaped(s.drop_first()));
    } else {
        lemma_escaped_front(s.drop_last());
        assert(s.drop_last().drop_first() =~= s.drop_first().drop_last());
        assert(s.drop_first().last() == s.last());
        assert(escaped(s) =~= escape(s[0]) + escaped(s.drop_first()));
    }
}

proof fn lemma_hex_reads_back(c: char)
    requires
        (c as u32) < 32,
    ensures
        ((16 * unhex(text::hex((c as u32 / 16) as int)) + unhex(
            text::hex((c as u32 % 16) as int),
        )) as char) == c,
{
}

/// A reader of a JSON string stops at the quote that closes it and has the text again, whatever
/// the text holds and whatever follows.
pub proof fn law_string_reads_back(s: Seq<char>, rest: Seq<char>)
    ensures
        read_string(escaped(s) + seq!['"'] + rest) == Some((s, rest)),
    decreases s.len(),
{
    let t = escaped(s) + seq!['"'] + rest;
    if s.len() == 0 {
        assert(t.skip(1) =~= rest);
        assert(s =~= seq![]);
    } else {
        let c = s[0];
        let more = escaped(s.drop_first()) + seq!['"'] + rest;
        law_string_reads_back(s.drop_first(), rest);
        lemma_escaped_front(s);
        assert(t =~= escape(c) + more);
        assert(t.skip(escape(c).len() as int) =~= more);
        assert(forall|i: int| 0 <= i < escape(c).len() ==> t[i] == escape(c)[i]);
        assert(t.len() >= escape(c).len());
        assert(seq![c] + s.drop_first() =~= s);
        if (c as u32) < 32 && c != '\n' && c != '\r' && c != '\t' {
            assert(t[4] == text::hex((c as u32 / 16) as int));
            assert(t[5] == text::hex((c as u32 % 16) as int));
            assert(t[1] == 'u');
            lemma_hex_reads_back(c);
        }
    }
}

/// Whether no character of `s` is a control character below the space.
pub open spec fn printable(s: Seq<char>) -> bool {
    forall|i: int| 0 <= i < s.len() ==> (#[trigger] s[i] as u32) >= 32
}

proof fn lemma_dec_printable(n: nat)
    ensures
        printable(decimal::dec(n)),
    decreases n,
{
    if n >= 10 {
        lemma_dec_printable(n / 10);
    }
}

proof fn lemma_escaped_printable(s: Seq<char>)
    ensures
        printable(escaped(s)),
    decreases s.len(),
{
    if s.len() > 0 {
        lemma_escaped_printable(s.drop_last());
    }
}

proof fn lemma_json_printable(v: Rendered)
    ensures
        printable(json(v)),
    decreases v,
{
    reveal_strlit("true");
    reveal_strlit("false");
    reveal_strlit("null");
    match v {
        Rendered::Str(s) => {
            lemma_escaped_printable(s@);
        },
        Rendered::Int(i) => {
            lemma_dec_printable(
                if i < 0 {
                    (-(i as int)) as nat
                } else {
                    i as nat
                },
            );
        },
        Rendered::Uint(u) => {
            lemma_dec_printable(u as nat);
        },
        Rendered::Bool(_) => {},
        Rendered::Null => {},
        Rendered::Array(items) => {
            lemma_items_printable(items@);
        },
        Rendered::Object(entries) => {
            lemma_entries_printable(entries@);
        },
    }
}

proof fn lemma_items_printable(items: Seq<Rendered>)
    ensures
        printable(json_items(items)),
    decreases items,
{
    if items.len() == 1 {
        lemma_json_printable(items[0]);
    } else if items.len() > 1 {
        lemma_items_printable(items.drop_last());
        lemma_json_printable(items.last());
    }
}

proof fn lemma_entries_printable(entries: Seq<(&'static str, Rendered)>)
    ensures
        printable(json_entries(entries)),
    decreases entries,
{
    if entries.len() == 1 {
        lemma_escaped_printable(entries[0].0@);
        lemma_json_printable(entries[0].1);
    } else if entries.len() > 1 {
        lemma_entries_printable(entries.drop_last());
        lemma_escaped_printable(entries.last().0@);
        lemma_json_printable(entries.last().1);
    }
}

/// A record takes one line: its JSON holds no line feed, carriage return or other control
/// character, whatever its fields hold.
pub proof fn law_record_is_one_line(r: Record)
    ensures
        printable(r.line()),
        !r.line().contains('\n'),
{
    lemma_entries_printable(r.fields@);
    assert(printable(r.line()));
    if r.line().contains('\n') {
        let i = choose|i: int| 0 <= i < r.line().len() && r.line()[i] == '\n';
        assert(r.line()[i] as u32 >= 32);
    }
}

// ---- what holds of the whole ----------------------------------------------------

proof fn lemma_shown(fields: Seq<(&'static str, Rendered)>, i: int, v: Seq<char>)
    requires
        0 <= i < fields.len(),
        scalar(fields[i].1) == Some(v),
        !is_envelope(fields[i].0@),
    ensures
        shown(fields).contains(fields[i].0@ + seq!['='] + v),
    decreases fields.len(),
{
    let front = fields.drop_last();
    let all = shown(fields);
    let item = fields[i].0@ + seq!['='] + v;
    if i < fields.len() - 1 {
        lemma_shown(front, i, v);
        let k = choose|k: int| 0 <= k < shown(front).len() && shown(front)[k] == item;
        assert(all[k] == item);
    } else {
        assert(all.last() == item);
    }
}

/// The message of a record starts with its outcome and its event, and holds each plain field that the
/// record has of its own.
pub proof fn law_message_holds_the_fields(record: &Record, out: String, i: int, v: Seq<char>)
    requires
        call_ensures(Record::message, (record,), out),
        0 <= i < record.fields@.len(),
        scalar(record.fields@[i].1) == Some(v),
        !is_envelope(record.fields@[i].0@),
    ensures
        (record.outcome.token_text() + seq![' '] + record.event_type@).is_prefix_of(out@),
        text::holds(out@, record.fields@[i].0@ + seq!['='] + v),
{
    let head = record.outcome.token_text() + seq![' '] + record.event_type@;
    let items = shown(record.fields@);
    let item = record.fields@[i].0@ + seq!['='] + v;
    lemma_shown(record.fields@, i, v);
    let k = choose|k: int| 0 <= k < items.len() && items[k] == item;
    words::lemma_joined_holds(items, ", "@, k);
    let list = words::joined(items, ", "@);
    text::lemma_held_within(head + ": "@, list, seq![], item);
    assert(out@ =~= head + ": "@ + list + seq![]);
    assert(out@.subrange(0, head.len() as int) =~= head);
}

} // verus!
