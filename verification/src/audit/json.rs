//! What a reader of JSON makes of a record.
//!
//! The reader here is that of the JSON grammar, without white space, fractions and exponents: it
//! takes what a record is written as and no text that is no JSON. Whatever the fields of a record
//! hold, it gets them back, so that no value can end its string early or pass for another field.

use super::render;
use super::render::{Record, Rendered};
use crate::decimal;
use crate::text;
use vstd::prelude::*;
use vstd::string::*;

verus! {

/// A JSON value.
pub enum Json {
    /// A string.
    Text(Seq<char>),
    /// A number.
    Number(int),
    /// `true` or `false`.
    Flag(bool),
    /// `null`.
    Nothing,
    /// An array.
    List(Seq<Json>),
    /// An object.
    Table(Seq<(Seq<char>, Json)>),
}

/// The JSON value that a field's value stands for.
pub open spec fn meant(v: Rendered) -> Json
    decreases v,
{
    match v {
        Rendered::Str(s) => Json::Text(s@),
        Rendered::Int(i) => Json::Number(i as int),
        Rendered::Uint(u) => Json::Number(u as int),
        Rendered::Bool(b) => Json::Flag(b),
        Rendered::Null => Json::Nothing,
        Rendered::Array(items) => Json::List(meant_items(items@)),
        Rendered::Object(entries) => Json::Table(meant_entries(entries@)),
    }
}

/// The JSON values that items stand for.
pub open spec fn meant_items(items: Seq<Rendered>) -> Seq<Json>
    decreases items,
{
    if items.len() == 0 {
        seq![]
    } else {
        meant_items(items.drop_last()).push(meant(items.last()))
    }
}

/// The named JSON values that entries stand for.
pub open spec fn meant_entries(entries: Seq<(&'static str, Rendered)>) -> Seq<(Seq<char>, Json)>
    decreases entries,
{
    if entries.len() == 0 {
        seq![]
    } else {
        meant_entries(entries.drop_last()).push((entries.last().0@, meant(entries.last().1)))
    }
}

// ---- the reader ----------------------------------------------------------------

/// How many digits `t` starts with.
pub open spec fn digits(t: Seq<char>) -> nat
    decreases t.len(),
{
    if t.len() > 0 && text::is_dig(t[0]) {
        digits(t.skip(1)) + 1
    } else {
        0
    }
}

/// Reads a number without a sign: digits, of which the first is no zero where there are more.
pub open spec fn read_digits(t: Seq<char>) -> Option<(nat, Seq<char>)> {
    let n = digits(t);
    if n == 0 || (n > 1 && t[0] == '0') {
        None
    } else {
        Some((decimal::value(t.take(n as int)), t.skip(n as int)))
    }
}

/// Reads a value: the value, and what follows.
pub open spec fn read_value(t: Seq<char>) -> Option<(Json, Seq<char>)>
    decreases t.len(), 0nat,
{
    if t.len() == 0 {
        None
    } else if t[0] == '"' {
        match render::read_string(t.skip(1)) {
            Some((s, rest)) => Some((Json::Text(s), rest)),
            None => None,
        }
    } else if t[0] == '[' {
        if t.len() > 1 && t[1] == ']' {
            Some((Json::List(seq![]), t.skip(2)))
        } else {
            match read_items(t.skip(1)) {
                Some((v, rest)) => Some((Json::List(v), rest)),
                None => None,
            }
        }
    } else if t[0] == '{' {
        if t.len() > 1 && t[1] == '}' {
            Some((Json::Table(seq![]), t.skip(2)))
        } else {
            match read_entries(t.skip(1)) {
                Some((v, rest)) => Some((Json::Table(v), rest)),
                None => None,
            }
        }
    } else if "true"@.is_prefix_of(t) {
        Some((Json::Flag(true), t.skip("true"@.len() as int)))
    } else if "false"@.is_prefix_of(t) {
        Some((Json::Flag(false), t.skip("false"@.len() as int)))
    } else if "null"@.is_prefix_of(t) {
        Some((Json::Nothing, t.skip("null"@.len() as int)))
    } else if t[0] == '-' {
        match read_digits(t.skip(1)) {
            Some((n, rest)) => Some((Json::Number(-n), rest)),
            None => None,
        }
    } else {
        match read_digits(t) {
            Some((n, rest)) => Some((Json::Number(n as int), rest)),
            None => None,
        }
    }
}

/// Reads the items of an array up to its closing bracket: the values, and what follows.
pub open spec fn read_items(t: Seq<char>) -> Option<(Seq<Json>, Seq<char>)>
    decreases t.len(), 1nat,
{
    match read_value(t) {
        Some((v, rest)) => if rest.len() == 0 || rest.len() >= t.len() {
            None
        } else if rest[0] == ']' {
            Some((seq![v], rest.skip(1)))
        } else if rest[0] == ',' {
            match read_items(rest.skip(1)) {
                Some((more, after)) => Some((seq![v] + more, after)),
                None => None,
            }
        } else {
            None
        },
        None => None,
    }
}

/// Reads the name of an entry and the colon behind it: the name, and what follows.
pub open spec fn read_name(t: Seq<char>) -> Option<(Seq<char>, Seq<char>)> {
    if t.len() == 0 || t[0] != '"' {
        None
    } else {
        match render::read_string(t.skip(1)) {
            Some((s, rest)) => if rest.len() > 0 && rest[0] == ':' {
                Some((s, rest.skip(1)))
            } else {
                None
            },
            None => None,
        }
    }
}

/// Reads the entries of an object up to its closing brace: the named values, and what follows.
pub open spec fn read_entries(t: Seq<char>) -> Option<(Seq<(Seq<char>, Json)>, Seq<char>)>
    decreases t.len(), 1nat,
{
    match read_name(t) {
        Some((name, behind)) => if behind.len() >= t.len() {
            None
        } else {
            match read_value(behind) {
                Some((v, rest)) => if rest.len() == 0 || rest.len() >= t.len() {
                    None
                } else if rest[0] == '}' {
                    Some((seq![(name, v)], rest.skip(1)))
                } else if rest[0] == ',' {
                    match read_entries(rest.skip(1)) {
                        Some((more, after)) => Some((seq![(name, v)] + more, after)),
                        None => None,
                    }
                } else {
                    None
                },
                None => None,
            }
        },
        None => None,
    }
}

// ---- reading what was written --------------------------------------------------

/// Whether a text does not go on with a digit.
pub open spec fn ends_number(rest: Seq<char>) -> bool {
    rest.len() == 0 || !text::is_dig(rest[0])
}

proof fn lemma_digits(d: Seq<char>, rest: Seq<char>)
    requires
        forall|i: int| 0 <= i < d.len() ==> text::is_dig(#[trigger] d[i]),
        ends_number(rest),
    ensures
        digits(d + rest) == d.len(),
    decreases d.len(),
{
    if d.len() == 0 {
        assert(d + rest =~= rest);
    } else {
        let t = d + rest;
        assert(t.skip(1) =~= d.skip(1) + rest);
        lemma_digits(d.skip(1), rest);
        assert(t[0] == d[0]);
    }
}

proof fn lemma_dec_lead(n: nat)
    ensures
        decimal::dec(n).len() > 1 ==> decimal::dec(n)[0] != '0',
        n > 0 ==> decimal::dec(n)[0] != '0',
        decimal::dec(n).len() > 0,
    decreases n,
{
    if n >= 10 {
        lemma_dec_lead(n / 10);
        assert(decimal::dec(n)[0] == decimal::dec(n / 10)[0]);
    }
}

proof fn lemma_read_digits(n: nat, rest: Seq<char>)
    requires
        ends_number(rest),
    ensures
        read_digits(decimal::dec(n) + rest) == Some((n, rest)),
{
    let d = decimal::dec(n);
    decimal::lemma_dec_digits(n);
    lemma_dec_lead(n);
    lemma_digits(d, rest);
    let t = d + rest;
    assert(t.take(d.len() as int) =~= d);
    assert(t.skip(d.len() as int) =~= rest);
    assert(t[0] == d[0]);
}

proof fn lemma_other_word(w: Seq<char>, t: Seq<char>)
    requires
        w.len() > 0,
        t.len() > 0,
        w[0] != t[0],
    ensures
        !w.is_prefix_of(t),
{
    if w.is_prefix_of(t) {
        assert(t.subrange(0, w.len() as int)[0] == t[0]);
    }
}

proof fn lemma_one_item(items: Seq<Rendered>)
    requires
        items.len() == 1,
    ensures
        meant_items(items) == seq![meant(items[0])],
{
    reveal_with_fuel(meant_items, 2);
    assert(items.drop_last() =~= seq![]);
    assert(meant_items(items) =~= seq![meant(items[0])]);
}

proof fn lemma_one_entry(entries: Seq<(&'static str, Rendered)>)
    requires
        entries.len() == 1,
    ensures
        meant_entries(entries) == seq![(entries[0].0@, meant(entries[0].1))],
{
    reveal_with_fuel(meant_entries, 2);
    assert(entries.drop_last() =~= seq![]);
    assert(meant_entries(entries) =~= seq![(entries[0].0@, meant(entries[0].1))]);
}

/// The items of an array with the first one in front.
proof fn lemma_items_front(items: Seq<Rendered>)
    requires
        items.len() > 1,
    ensures
        render::json_items(items) == render::json(items[0]) + seq![','] + render::json_items(
            items.drop_first(),
        ),
        meant_items(items) == seq![meant(items[0])] + meant_items(items.drop_first()),
    decreases items.len(),
{
    let front = items.drop_last();
    let back = items.drop_first();
    assert(back.last() == items.last());
    assert(back.drop_last() =~= front.drop_first());
    if items.len() == 2 {
        lemma_one_item(front);
        lemma_one_item(back);
        assert(render::json_items(front) == render::json(items[0]));
        assert(render::json_items(back) == render::json(items[1]));
    } else {
        lemma_items_front(front);
        assert(render::json_items(back) == render::json_items(back.drop_last()) + seq![',']
            + render::json(back.last()));
        assert(render::json_items(items) =~= render::json(items[0]) + seq![','] + (
        render::json_items(front.drop_first()) + seq![','] + render::json(items.last())));
    }
    assert(render::json_items(items) =~= render::json(items[0]) + seq![','] + render::json_items(
        back,
    ));
    assert(meant_items(items) =~= seq![meant(items[0])] + meant_items(back));
}

/// The entries of an object with the first one in front.
proof fn lemma_entries_front(entries: Seq<(&'static str, Rendered)>)
    requires
        entries.len() > 1,
    ensures
        render::json_entries(entries) == render::quoted(entries[0].0@) + seq![':'] + render::json(
            entries[0].1,
        ) + seq![','] + render::json_entries(entries.drop_first()),
        meant_entries(entries) == seq![(entries[0].0@, meant(entries[0].1))] + meant_entries(
            entries.drop_first(),
        ),
    decreases entries.len(),
{
    let front = entries.drop_last();
    let back = entries.drop_first();
    let head = render::quoted(entries[0].0@) + seq![':'] + render::json(entries[0].1);
    let tail = seq![','] + render::quoted(entries.last().0@) + seq![':'] + render::json(
        entries.last().1,
    );
    assert(back.last() == entries.last());
    assert(back.drop_last() =~= front.drop_first());
    assert(render::json_entries(entries) =~= render::json_entries(front) + tail);
    if entries.len() == 2 {
        lemma_one_entry(front);
        lemma_one_entry(back);
        assert(render::json_entries(front) == head);
        assert(tail =~= seq![','] + render::json_entries(back));
        assert(render::json_entries(entries) =~= head + seq![','] + render::json_entries(back));
    } else {
        lemma_entries_front(front);
        assert(render::json_entries(back) =~= render::json_entries(front.drop_first()) + tail);
        assert(render::json_entries(entries) =~= head + seq![','] + (render::json_entries(
            front.drop_first(),
        ) + tail));
    }
    assert(meant_entries(entries) =~= seq![(entries[0].0@, meant(entries[0].1))] + meant_entries(
        back,
    ));
}

proof fn lemma_quoted_reads(s: Seq<char>, rest: Seq<char>)
    ensures
        (render::quoted(s) + rest)[0] == '"',
        render::read_string((render::quoted(s) + rest).skip(1)) == Some((s, rest)),
{
    let t = render::quoted(s) + rest;
    assert(t.skip(1) =~= render::escaped(s) + seq!['"'] + rest);
    render::law_string_reads_back(s, rest);
}

proof fn lemma_signed_reads(n: int, rest: Seq<char>)
    requires
        ends_number(rest),
    ensures
        read_value(decimal::signed(n) + rest) == Some((Json::Number(n), rest)),
{
    reveal_strlit("true");
    reveal_strlit("false");
    reveal_strlit("null");
    let t = decimal::signed(n) + rest;
    if n < 0 {
        assert(t[0] == '-');
        assert(t.skip(1) =~= decimal::dec((-n) as nat) + rest);
        lemma_read_digits((-n) as nat, rest);
        lemma_other_word("true"@, t);
        lemma_other_word("false"@, t);
        lemma_other_word("null"@, t);
    } else {
        lemma_read_digits(n as nat, rest);
        decimal::lemma_dec_digits(n as nat);
        assert(t[0] == decimal::dec(n as nat)[0]);
        assert(text::is_dig(t[0]));
        lemma_other_word("true"@, t);
        lemma_other_word("false"@, t);
        lemma_other_word("null"@, t);
    }
}

proof fn lemma_word_reads(v: Rendered, rest: Seq<char>)
    requires
        v is Bool || v is Null,
    ensures
        read_value(render::json(v) + rest) == Some((meant(v), rest)),
{
    reveal_strlit("true");
    reveal_strlit("false");
    reveal_strlit("null");
    let word = render::json(v);
    let t = word + rest;
    assert(t.skip(word.len() as int) =~= rest);
    assert(t.subrange(0, word.len() as int) =~= word);
    assert(word.is_prefix_of(t));
    assert(t[0] == word[0]);
    match v {
        Rendered::Bool(b) => {
            if !b {
                lemma_other_word("true"@, t);
            }
        },
        _ => {
            lemma_other_word("true"@, t);
            lemma_other_word("false"@, t);
        },
    }
}

/// A reader gets back the value that was written, whatever follows it but for a digit behind a
/// number.
pub proof fn law_value_reads_back(v: Rendered, rest: Seq<char>)
    requires
        ends_number(rest),
    ensures
        read_value(render::json(v) + rest) == Some((meant(v), rest)),
        render::json(v).len() > 0,
    decreases v,
{
    let t = render::json(v) + rest;
    reveal_strlit("true");
    reveal_strlit("false");
    reveal_strlit("null");
    match v {
        Rendered::Str(s) => {
            lemma_quoted_reads(s@, rest);
        },
        Rendered::Int(i) => {
            lemma_signed_reads(i as int, rest);
            lemma_dec_lead(
                if i < 0 {
                    (-(i as int)) as nat
                } else {
                    i as nat
                },
            );
        },
        Rendered::Uint(u) => {
            lemma_signed_reads(u as int, rest);
            lemma_dec_lead(u as nat);
        },
        Rendered::Bool(_) | Rendered::Null => {
            lemma_word_reads(v, rest);
        },
        Rendered::Array(items) => {
            assert(t[0] == '[');
            let body = render::json_items(items@) + seq![']'] + rest;
            assert(t.skip(1) =~= body);
            if items@.len() == 0 {
                assert(t[1] == ']');
                assert(t.skip(2) =~= rest);
                assert(meant_items(items@) =~= seq![]);
            } else {
                lemma_items_read(items@, rest);
                lemma_items_start(items@);
                assert(t[1] == render::json_items(items@)[0]);
            }
        },
        Rendered::Object(entries) => {
            assert(t[0] == '{');
            let body = render::json_entries(entries@) + seq!['}'] + rest;
            assert(t.skip(1) =~= body);
            if entries@.len() == 0 {
                assert(t[1] == '}');
                assert(t.skip(2) =~= rest);
                assert(meant_entries(entries@) =~= seq![]);
            } else {
                lemma_entries_read(entries@, rest);
                lemma_entries_start(entries@);
                assert(t[1] == render::json_entries(entries@)[0]);
            }
        },
    }
}

proof fn lemma_value_start(v: Rendered)
    ensures
        render::json(v).len() > 0,
        render::json(v)[0] != ']',
        render::json(v)[0] != '}',
{
    reveal_strlit("true");
    reveal_strlit("false");
    reveal_strlit("null");
    match v {
        Rendered::Int(i) => {
            let n = if i < 0 {
                (-(i as int)) as nat
            } else {
                i as nat
            };
            lemma_dec_lead(n);
            decimal::lemma_dec_digits(n);
            assert(text::is_dig(decimal::dec(n)[0]));
        },
        Rendered::Uint(u) => {
            lemma_dec_lead(u as nat);
            decimal::lemma_dec_digits(u as nat);
            assert(text::is_dig(decimal::dec(u as nat)[0]));
        },
        _ => {},
    }
}

proof fn lemma_items_start(items: Seq<Rendered>)
    requires
        items.len() > 0,
    ensures
        render::json_items(items).len() > 0,
        render::json_items(items)[0] != ']',
{
    lemma_value_start(items[0]);
    if items.len() > 1 {
        lemma_items_front(items);
        assert(render::json_items(items)[0] == render::json(items[0])[0]);
    }
}

proof fn lemma_entries_start(entries: Seq<(&'static str, Rendered)>)
    requires
        entries.len() > 0,
    ensures
        render::json_entries(entries).len() > 0,
        render::json_entries(entries)[0] == '"',
{
    if entries.len() > 1 {
        lemma_entries_front(entries);
    }
}

proof fn lemma_items_read(items: Seq<Rendered>, rest: Seq<char>)
    requires
        items.len() > 0,
    ensures
        read_items(render::json_items(items) + seq![']'] + rest) == Some((meant_items(items), rest)),
    decreases items,
{
    let t = render::json_items(items) + seq![']'] + rest;
    let first = render::json(items[0]);
    if items.len() == 1 {
        let after = seq![']'] + rest;
        assert(t =~= first + after);
        law_value_reads_back(items[0], after);
        assert(after.skip(1) =~= rest);
        lemma_one_item(items);
    } else {
        let back = items.drop_first();
        lemma_items_front(items);
        let next = render::json_items(back) + seq![']'] + rest;
        let after = seq![','] + next;
        assert(t =~= first + after);
        law_value_reads_back(items[0], after);
        assert(after.skip(1) =~= next);
        lemma_items_read(back, rest);
    }
}

proof fn lemma_entries_read(entries: Seq<(&'static str, Rendered)>, rest: Seq<char>)
    requires
        entries.len() > 0,
    ensures
        read_entries(render::json_entries(entries) + seq!['}'] + rest) == Some(
            (meant_entries(entries), rest),
        ),
    decreases entries,
{
    let t = render::json_entries(entries) + seq!['}'] + rest;
    let name = entries[0].0@;
    let first = render::json(entries[0].1);
    let after = if entries.len() == 1 {
        seq!['}'] + rest
    } else {
        seq![','] + (render::json_entries(entries.drop_first()) + seq!['}'] + rest)
    };
    if entries.len() > 1 {
        lemma_entries_front(entries);
    }
    let behind = first + after;
    assert(t =~= render::quoted(name) + (seq![':'] + behind));
    lemma_quoted_reads(name, seq![':'] + behind);
    assert((seq![':'] + behind).skip(1) =~= behind);
    assert(read_name(t) == Some((name, behind)));
    assert(decreases_to!(entries => entries[0].1));
    law_value_reads_back(entries[0].1, after);
    if entries.len() == 1 {
        assert(after.skip(1) =~= rest);
        lemma_one_entry(entries);
    } else {
        let back = entries.drop_first();
        assert(after.skip(1) =~= render::json_entries(back) + seq!['}'] + rest);
        lemma_entries_read(back, rest);
    }
}

/// A record is well-formed JSON: a reader gets one object with the record's fields, by name and in
/// their order, and nothing is left, whatever the fields hold.
pub proof fn law_record_reads_back(r: Record)
    ensures
        read_value(r.line()) == Some((Json::Table(meant_entries(r.fields@)), Seq::<char>::empty())),
{
    let none = Seq::<char>::empty();
    let t = r.line();
    assert(t[0] == '{');
    if r.fields@.len() == 0 {
        assert(t[1] == '}');
        assert(t.skip(2) =~= none);
        assert(meant_entries(r.fields@) =~= seq![]);
    } else {
        lemma_entries_read(r.fields@, none);
        lemma_entries_start(r.fields@);
        assert(t.skip(1) =~= render::json_entries(r.fields@) + seq!['}'] + none);
        assert(t[1] == render::json_entries(r.fields@)[0]);
    }
}

} // verus!
