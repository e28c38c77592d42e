//! Command lines read through `lexopt`: `--name value`, `--name=value`, `-x`, and `--` before words.

use super::args;
use super::args::{push_item, Item, Part};
use crate::layout;
use crate::text;
use crate::text::{among, concat2, concat3};
use crate::words;
use vstd::prelude::*;
use vstd::string::*;

verus! {

/// The argument parser of `lexopt`.
#[verifier::external_type_specification]
#[verifier::external_body]
pub struct ExParser(lexopt::Parser);

/// What a parser has taken from the arguments but not handed out yet.
pub enum Held {
    /// Nothing.
    Nothing,
    /// The value behind the `=` of a long option, with the option as it was written.
    Value(Seq<char>, Seq<char>),
    /// The letters of a cluster of short options that are left, with the last one handed out.
    Letters(Seq<char>, Option<char>),
    /// Nothing, and `--` has been read: what is left are words.
    Finished,
}

/// The arguments that the parser has not taken yet, as text: a replacement character stands for what
/// is none.
pub uninterp spec fn queue(p: lexopt::Parser) -> Seq<Seq<char>>;

/// What the parser has taken but not handed out yet, as text.
pub uninterp spec fn held(p: lexopt::Parser) -> Held;

/// Whether the parser takes an `=` behind a short option as the sign that its value follows, which
/// `lexopt::Parser::set_short_equals` switches.
pub uninterp spec fn reads_equals(p: lexopt::Parser) -> bool;

/// Whether all that the parser has left is text: valid Unicode.
pub uninterp spec fn over_text(p: lexopt::Parser) -> bool;

/// What `lexopt` says where the option that was written as `option` is given a `value` that nobody
/// asked for.
pub uninterp spec fn unexpected_text(option: Seq<char>, value: Seq<char>) -> Seq<char>;

/// What a parser hands out.
#[derive(Debug)]
pub enum Token {
    /// A long option, without its dashes.
    Long(String),
    /// A short option.
    Short(char),
    /// A word.
    Value(String),
}

/// What a parser hands out, as text.
pub enum Mark {
    /// A long option, without its dashes.
    Long(Seq<char>),
    /// A short option.
    Short(char),
    /// A word.
    Value(Seq<char>),
}

impl View for Token {
    type V = Mark;

    open spec fn view(&self) -> Mark {
        match *self {
            Token::Long(s) => Mark::Long(s@),
            Token::Short(c) => Mark::Short(c),
            Token::Value(s) => Mark::Value(s@),
        }
    }
}

/// A step of a parser: what it hands out, and what it is left with.
pub struct Step {
    /// What is handed out: a mark, the end, or an option with a value that nobody asked for.
    pub out: Result<Option<Mark>, (Seq<char>, Seq<char>)>,
    /// The arguments left.
    pub queue: Seq<Seq<char>>,
    /// What is held back.
    pub held: Held,
}

/// The next word of the arguments.
pub open spec fn word_step(q: Seq<Seq<char>>) -> Step {
    if q.len() == 0 {
        Step { out: Ok(None), queue: q, held: Held::Finished }
    } else {
        Step { out: Ok(Some(Mark::Value(q[0]))), queue: q.skip(1), held: Held::Finished }
    }
}

/// The next letter of a cluster that has one left. Where `equals` holds, an `=` behind a letter
/// starts a value that nobody asked for; otherwise it is a letter like any other.
pub open spec fn letter_step(
    q: Seq<Seq<char>>,
    letters: Seq<char>,
    last: Option<char>,
    equals: bool,
) -> Step {
    match last {
        Some(c) => if letters[0] == '=' && equals {
            Step {
                out: Err((seq!['-', c], letters.skip(1))),
                queue: q,
                held: Held::Nothing,
            }
        } else {
            Step {
                out: Ok(Some(Mark::Short(letters[0]))),
                queue: q,
                held: Held::Letters(letters.skip(1), Some(letters[0])),
            }
        },
        None => Step {
            out: Ok(Some(Mark::Short(letters[0]))),
            queue: q,
            held: Held::Letters(letters.skip(1), Some(letters[0])),
        },
    }
}

/// The next argument, with nothing held back.
pub open spec fn fresh_step(q: Seq<Seq<char>>, equals: bool) -> Step {
    if q.len() == 0 {
        Step { out: Ok(None), queue: q, held: Held::Nothing }
    } else if q[0] == seq!['-', '-'] {
        word_step(q.skip(1))
    } else if seq!['-', '-'].is_prefix_of(q[0]) {
        match words::cut(q[0], '=') {
            Some((name, value)) => Step {
                out: Ok(Some(Mark::Long(name.skip(2)))),
                queue: q.skip(1),
                held: Held::Value(name, value),
            },
            None => Step {
                out: Ok(Some(Mark::Long(q[0].skip(2)))),
                queue: q.skip(1),
                held: Held::Nothing,
            },
        }
    } else if q[0].len() > 1 && q[0][0] == '-' {
        letter_step(q.skip(1), q[0].skip(1), None, equals)
    } else {
        Step { out: Ok(Some(Mark::Value(q[0]))), queue: q.skip(1), held: Held::Nothing }
    }
}

/// What the parser hands out next.
pub open spec fn next_step(q: Seq<Seq<char>>, h: Held, equals: bool) -> Step {
    match h {
        Held::Value(option, value) => Step {
            out: Err((option, value)),
            queue: q,
            held: Held::Nothing,
        },
        Held::Letters(letters, last) => if letters.len() == 0 {
            fresh_step(q, equals)
        } else {
            letter_step(q, letters, last, equals)
        },
        Held::Finished => word_step(q),
        Held::Nothing => fresh_step(q, equals),
    }
}

/// The value that the parser gives to the option that it handed out last: what it holds back, and
/// otherwise the next argument; `None` where there is none. An `=` at the start of what is left of a
/// cluster belongs to the value unless `equals` holds. The rest is what the parser is left with.
pub open spec fn value_step(q: Seq<Seq<char>>, h: Held, equals: bool) -> (
    Option<Seq<char>>,
    Seq<Seq<char>>,
    Held,
) {
    let after = if h is Finished {
        Held::Finished
    } else {
        Held::Nothing
    };
    match h {
        Held::Value(_, value) => (Some(value), q, after),
        Held::Letters(letters, _) if letters.len() > 0 => (
            Some(
                if letters[0] == '=' && equals {
                    letters.skip(1)
                } else {
                    letters
                },
            ),
            q,
            after,
        ),
        _ => if q.len() == 0 {
            (None, q, after)
        } else {
            (Some(q[0]), q.skip(1), after)
        },
    }
}

/// `lexopt::Parser::from_args`: a parser that has read none of `args`, which are text, and that
/// takes an `=` behind a short option as the sign of a value.
#[verifier::external_body]
fn parser_of(args: &[String]) -> (p: lexopt::Parser)
    ensures
        queue(p) == text::texts(args@),
        held(p) == Held::Nothing,
        reads_equals(p),
        over_text(p),
{
    lexopt::Parser::from_args(args.iter().cloned())
}

/// `lexopt::Parser::next`, on arguments that are text: hands out the next option or word. `--name`
/// and `--name=value` are long options, the letters behind a single dash are short options, `--`
/// makes all that follows words, and anything else is a word. A value that was written behind `=`
/// and that nobody took is an error, whose text is `lexopt`'s own. What is left stays text, and how
/// the parser takes an `=` stays as it was.
#[verifier::external_body]
fn next_token(p: &mut lexopt::Parser) -> (r: Result<Option<Token>, String>)
    requires
        over_text(*old(p)),
    ensures
        over_text(*final(p)),
        reads_equals(*final(p)) == reads_equals(*old(p)),
        ({
            let step = next_step(queue(*old(p)), held(*old(p)), reads_equals(*old(p)));
            &&& queue(*final(p)) == step.queue
            &&& held(*final(p)) == step.held
            &&& match step.out {
                Ok(Some(m)) => r matches Ok(Some(t)) && t@ == m,
                Ok(None) => r matches Ok(None),
                Err(e) => r matches Err(s) && s@ == unexpected_text(e.0, e.1),
            }
        }),
{
    match p.next() {
        Ok(None) => Ok(None),
        Ok(Some(lexopt::Arg::Long(s))) => Ok(Some(Token::Long(s.to_owned()))),
        Ok(Some(lexopt::Arg::Short(c))) => Ok(Some(Token::Short(c))),
        Ok(Some(lexopt::Arg::Value(v))) => Ok(Some(Token::Value(v.to_string_lossy().into_owned()))),
        Err(e) => Err(e.to_string()),
    }
}

/// `lexopt::Parser::value`: the value of the option handed out last, `None` where the arguments are
/// at their end. What is not text in it is replaced; what is left stays text where all was, and how
/// the parser takes an `=` stays as it was.
#[verifier::external_body]
fn token_value(p: &mut lexopt::Parser) -> (r: Option<String>)
    ensures
        over_text(*old(p)) ==> over_text(*final(p)),
        reads_equals(*final(p)) == reads_equals(*old(p)),
        ({
            let step = value_step(queue(*old(p)), held(*old(p)), reads_equals(*old(p)));
            &&& layout::opt(r) == step.0
            &&& queue(*final(p)) == step.1
            &&& held(*final(p)) == step.2
        }),
{
    p.value().ok().map(|v| v.to_string_lossy().into_owned())
}

/// The value of the option that the parser handed out last.
pub fn lexopt_value(p: &mut lexopt::Parser, flag: &str) -> (r: Result<String, String>)
    ensures
        over_text(*old(p)) ==> over_text(*final(p)),
        reads_equals(*final(p)) == reads_equals(*old(p)),
        ({
            let step = value_step(queue(*old(p)), held(*old(p)), reads_equals(*old(p)));
            &&& queue(*final(p)) == step.1
            &&& held(*final(p)) == step.2
            &&& match step.0 {
                Some(v) => r matches Ok(s) && s@ == v,
                None => r matches Err(m) && m@ == flag@ + " needs a value"@,
            }
        }),
{
    match token_value(p) {
        Some(v) => Ok(v),
        None => Err(concat2(flag, " needs a value")),
    }
}

/// A verb of a command table.
#[derive(Clone, Copy, Debug)]
pub struct CommandSpec {
    /// The verb.
    pub name: &'static str,
    /// What it is for.
    pub summary: &'static str,
    /// How it is written.
    pub usage: &'static str,
}

/// The usage line of a verb.
pub open spec fn usage(table: Seq<CommandSpec>, verb: Seq<char>) -> Seq<char>
    decreases table.len(),
{
    if table.len() == 0 {
        "unknown command `"@ + verb + "` — run `kennel --help`"@
    } else if table[0].name@ == verb {
        "usage: kennel "@ + table[0].usage@
    } else {
        usage(table.drop_first(), verb)
    }
}

/// The usage line of `verb`, from the first entry of `table` with that name.
pub fn usage_of(table: &[CommandSpec], verb: &str) -> (r: String)
    ensures
        r@ == usage(table@, verb@),
{
    let mut i: usize = 0;
    assert(table@.skip(0) =~= table@);
    while i < table.len()
        invariant
            i <= table@.len(),
            usage(table@.skip(i as int), verb@) == usage(table@, verb@),
        decreases table@.len() - i,
    {
        assert(table@.skip(i as int).drop_first() =~= table@.skip(i + 1));
        if text::same(table[i].name, verb) {
            return concat2("usage: kennel ", table[i].usage);
        }
        i = i + 1;
    }
    concat3("unknown command `", verb, "` — run `kennel --help`")
}

/// What is said to a part that the verb does not take.
pub open spec fn unexpected(m: Mark, table: Seq<CommandSpec>, verb: Seq<char>) -> Seq<char> {
    (match m {
        Mark::Long(s) => "unknown flag `--"@ + s + "`"@,
        Mark::Short(c) => "unknown flag `-"@ + seq![c] + "`"@,
        Mark::Value(v) => "unexpected argument `"@ + v + "`"@,
    }) + "\n"@ + usage(table, verb)
}

/// What is said to a part that the verb does not take.
pub fn lexopt_unexpected(token: &Token, table: &[CommandSpec], verb: &str) -> (r: String)
    ensures
        r@ == unexpected(token@, table@, verb@),
{
    let what = match token {
        Token::Long(s) => concat3("unknown flag `--", s.as_str(), "`"),
        Token::Short(c) => {
            let mut one = String::new();
            one.push(*c);
            assert(one@ =~= seq![*c]);
            concat3("unknown flag `-", one.as_str(), "`")
        },
        Token::Value(v) => concat3("unexpected argument `", v.as_str(), "`"),
    };
    let tail = usage_of(table, verb);
    concat3(what.as_str(), "\n", tail.as_str())
}

/// What a command line that `lexopt` reads is made of, and the table and verb that its errors name.
pub struct Form {
    /// The long options without value.
    pub switches: Seq<Seq<char>>,
    /// The long options with a value.
    pub options: Seq<Seq<char>>,
    /// How many words there may be.
    pub room: nat,
    /// The command table.
    pub table: Seq<CommandSpec>,
    /// The verb.
    pub verb: Seq<char>,
}

/// How many characters and arguments the parser has left.
pub open spec fn weight(q: Seq<Seq<char>>, h: Held) -> nat
    decreases q.len(),
{
    if q.len() > 0 {
        1 + q[0].len() + weight(q.skip(1), h)
    } else {
        match h {
            Held::Letters(letters, _) => letters.len(),
            _ => 0,
        }
    }
}

/// The parts of a command line that `lexopt` reads, or what is wrong with the first that is wrong.
pub open spec fn walked(q: Seq<Seq<char>>, h: Held, form: Form) -> Result<Seq<Part>, Seq<char>>
    decreases weight(q, h),
    via walked_decreases
{
    let step = next_step(q, h, true);
    match step.out {
        Err(e) => Err(unexpected_text(e.0, e.1)),
        Ok(None) => Ok(seq![]),
        Ok(Some(Mark::Long(name))) => if form.switches.contains(name) {
            args::behind(seq![Part::Switch(name)], walked(step.queue, step.held, form))
        } else if form.options.contains(name) {
            let (value, q2, h2) = value_step(step.queue, step.held, true);
            match value {
                None => Err("--"@ + name + " needs a value"@),
                Some(v) => args::behind(seq![Part::Value(name, v)], walked(q2, h2, form)),
            }
        } else {
            Err(unexpected(Mark::Long(name), form.table, form.verb))
        },
        Ok(Some(Mark::Value(w))) => if form.room > 0 {
            args::behind(
                seq![Part::Word(w)],
                walked(step.queue, step.held, Form { room: (form.room - 1) as nat, ..form }),
            )
        } else {
            Err(unexpected(Mark::Value(w), form.table, form.verb))
        },
        Ok(Some(m)) => Err(unexpected(m, form.table, form.verb)),
    }
}

#[via_fn]
proof fn walked_decreases(q: Seq<Seq<char>>, h: Held, form: Form) {
    lemma_next_shrinks(q, h);
    let step = next_step(q, h, true);
    lemma_value_shrinks(step.queue, step.held);
}

proof fn lemma_weight_held(q: Seq<Seq<char>>, h: Held, g: Held)
    ensures
        weight(q, h) - weight(q, g) == (match h {
            Held::Letters(l, _) => l.len() as int,
            _ => 0,
        }) - (match g {
            Held::Letters(l, _) => l.len() as int,
            _ => 0,
        }),
    decreases q.len(),
{
    if q.len() > 0 {
        lemma_weight_held(q.skip(1), h, g);
    }
}

proof fn lemma_next_shrinks(q: Seq<Seq<char>>, h: Held)
    ensures
        ({
            let step = next_step(q, h, true);
            step.out matches Ok(Some(_)) ==> weight(step.queue, step.held) < weight(q, h)
        }),
{
    let step = next_step(q, h, true);
    lemma_weight_held(q, h, Held::Nothing);
    lemma_weight_held(q, h, step.held);
    if q.len() > 0 {
        lemma_weight_held(q.skip(1), h, step.held);
        lemma_weight_held(q.skip(1), h, Held::Nothing);
        let r = q.skip(1);
        if r.len() > 0 {
            lemma_weight_held(r.skip(1), h, step.held);
        }
    }
}

proof fn lemma_value_shrinks(q: Seq<Seq<char>>, h: Held)
    ensures
        ({
            let (v, q2, h2) = value_step(q, h, true);
            weight(q2, h2) <= weight(q, h)
        }),
{
    let (v, q2, h2) = value_step(q, h, true);
    lemma_weight_held(q, h, h2);
    if q.len() > 0 {
        lemma_weight_held(q.skip(1), h, h2);
    }
}

proof fn lemma_behind(a: Seq<Part>, p: Part, r: Result<Seq<Part>, Seq<char>>)
    ensures
        args::behind(a.push(p), r) == args::behind(a, args::behind(seq![p], r)),
{
    if r is Ok {
        assert(a.push(p) + r->Ok_0 =~= a + (seq![p] + r->Ok_0));
    }
}

/// Reads a command line through `lexopt`. Switches and options are written without their dashes.
pub fn walk(
    args: &[String],
    switches: &[&str],
    options: &[&str],
    room: usize,
    table: &[CommandSpec],
    verb: &str,
) -> (r: Result<Vec<Item>, String>)
    ensures
        match walked(
            text::texts(args@),
            Held::Nothing,
            (Form {
                switches: text::strs(switches@),
                options: text::strs(options@),
                room: room as nat,
                table: table@,
                verb: verb@,
            }),
        ) {
            Ok(ps) => r matches Ok(items) && args::parts(items@) == ps,
            Err(e) => r matches Err(m) && m@ == e,
        },
{
    let ghost form = Form {
        switches: text::strs(switches@),
        options: text::strs(options@),
        room: room as nat,
        table: table@,
        verb: verb@,
    };
    let ghost goal = walked(text::texts(args@), Held::Nothing, form);
    let mut p = parser_of(args);
    let mut out: Vec<Item> = Vec::new();
    let mut left: usize = room;
    proof {
        assert(args::parts(out@) =~= seq![]);
        if goal is Ok {
            assert(Seq::<Part>::empty() + goal->Ok_0 =~= goal->Ok_0);
        }
    }
    loop
        invariant
            over_text(p),
            reads_equals(p),
            form.switches == text::strs(switches@),
            form.options == text::strs(options@),
            form.table == table@,
            form.verb == verb@,
            args::behind(
                args::parts(out@),
                walked(queue(p), held(p), Form { room: left as nat, ..form }),
            ) == goal,
            goal == walked(
                text::texts(args@),
                Held::Nothing,
                Form {
                    switches: text::strs(switches@),
                    options: text::strs(options@),
                    room: room as nat,
                    table: table@,
                    verb: verb@,
                },
            ),
        decreases weight(queue(p), held(p)),
    {
        let ghost here = Form { room: left as nat, ..form };
        let ghost before = args::parts(out@);
        proof {
            lemma_next_shrinks(queue(p), held(p));
        }
        let token = match next_token(&mut p) {
            Err(e) => {
                return Err(e);
            },
            Ok(None) => {
                assert(args::parts(out@) + seq![] =~= args::parts(out@));
                return Ok(out);
            },
            Ok(Some(t)) => t,
        };
        proof {
            lemma_value_shrinks(queue(p), held(p));
        }
        match token {
            Token::Long(name) => if among(switches, name.as_str()) {
                proof {
                    lemma_behind(before, Part::Switch(name@), walked(queue(p), held(p), here));
                }
                push_item(&mut out, Item::Switch(name));
            } else if among(options, name.as_str()) {
                let flag = concat2("--", name.as_str());
                let v = match lexopt_value(&mut p, flag.as_str()) {
                    Err(e) => {
                        return Err(e);
                    },
                    Ok(v) => v,
                };
                proof {
                    lemma_behind(before, Part::Value(name@, v@), walked(queue(p), held(p), here));
                }
                push_item(&mut out, Item::Value(name, v));
            } else {
                return Err(lexopt_unexpected(&Token::Long(name), table, verb));
            },
            Token::Value(w) => if left > 0 {
                proof {
                    lemma_behind(
                        before,
                        Part::Word(w@),
                        walked(queue(p), held(p), Form { room: (left - 1) as nat, ..form }),
                    );
                }
                push_item(&mut out, Item::Word(w));
                left = left - 1;
            } else {
                return Err(lexopt_unexpected(&Token::Value(w), table, verb));
            },
            Token::Short(c) => {
                return Err(lexopt_unexpected(&Token::Short(c), table, verb));
            },
        }
    }
}

// ---- what holds of the whole ----------------------------------------------------

/// A value behind an equals sign is the value in the next word.
pub proof fn law_equals_sign_joins_a_value(
    name: Seq<char>,
    value: Seq<char>,
    rest: Seq<Seq<char>>,
    form: Form,
)
    requires
        name.len() > 0,
        !name.contains('='),
        form.options.contains(name),
        !form.switches.contains(name),
    ensures
        walked(
            seq![seq!['-', '-'] + name + seq!['='] + value] + rest,
            Held::Nothing,
            form,
        ) == walked(seq![seq!['-', '-'] + name, value] + rest, Held::Nothing, form),
        walked(seq![seq!['-', '-'] + name, value] + rest, Held::Nothing, form) == args::behind(
            seq![Part::Value(name, value)],
            walked(rest, Held::Nothing, form),
        ),
{
    let flag = seq!['-', '-'] + name;
    let one = flag + seq!['='] + value;
    let a = seq![one] + rest;
    let b = seq![flag, value] + rest;
    assert forall|j: int| 0 <= j < flag.len() implies one[j] != '=' by {
        assert(one[j] == flag[j]);
        if j >= 2 {
            assert(flag[j] == name[j - 2]);
            assert(name.contains(name[j - 2]));
        }
    }
    text::lemma_until_is(one, '=', flag.len() as int);
    assert(one.take(flag.len() as int) =~= flag);
    assert(one.skip(flag.len() as int + 1) =~= value);
    assert(one.subrange(0, 2) =~= seq!['-', '-']);
    assert(one.len() > 2 && flag.len() > 2);
    assert(flag.subrange(0, 2) =~= seq!['-', '-']);
    assert(flag.skip(2) =~= name);
    assert(a.skip(1) =~= rest);
    assert(b.skip(1) =~= seq![value] + rest);
    assert((seq![value] + rest).skip(1) =~= rest);
    text::lemma_until(flag, '=');
    if flag.contains('=') {
        let j = choose|j: int| 0 <= j < flag.len() && flag[j] == '=';
        assert(one[j] == '=');
    }
    let k = text::until(flag, '=');
    if k < flag.len() {
        assert(flag[k] == '=');
    }
    assert(words::cut(flag, '=') is None);
    assert(words::cut(one, '=') == Some((flag, value)));
    let sa = next_step(a, Held::Nothing, true);
    let sb = next_step(b, Held::Nothing, true);
    assert(sa.out == Ok::<Option<Mark>, (Seq<char>, Seq<char>)>(Some(Mark::Long(name))));
    assert(sb.out == Ok::<Option<Mark>, (Seq<char>, Seq<char>)>(Some(Mark::Long(name))));
    assert(value_step(sa.queue, sa.held, true) == (Some(value), rest, Held::Nothing));
    assert(value_step(sb.queue, sb.held, true) == (Some(value), rest, Held::Nothing));
}

/// The usage of a command is its own, by its name.
pub proof fn law_usage_is_the_commands_own(table: &[CommandSpec], verb: &str, r: String, i: int)
    requires
        call_ensures(usage_of, (table, verb), r),
        0 <= i < table@.len(),
        table@[i].name@ == verb@,
        forall|j: int| 0 <= j < i ==> (#[trigger] table@[j]).name@ != verb@,
    ensures
        r@ == "usage: kennel "@ + table@[i].usage@,
{
    lemma_usage(table@, verb@, i);
}

proof fn lemma_usage(table: Seq<CommandSpec>, verb: Seq<char>, i: int)
    requires
        0 <= i < table.len(),
        table[i].name@ == verb,
        forall|j: int| 0 <= j < i ==> (#[trigger] table[j]).name@ != verb,
    ensures
        usage(table, verb) == "usage: kennel "@ + table[i].usage@,
    decreases table.len(),
{
    if i > 0 {
        let rest = table.drop_first();
        assert(table[0].name@ != verb);
        assert(rest[i - 1] == table[i]);
        assert forall|j: int| 0 <= j < i - 1 implies (#[trigger] rest[j]).name@ != verb by {
            assert(rest[j] == table[j + 1]);
        }
        lemma_usage(rest, verb, i - 1);
    }
}

/// A word that starts with no dash is a word.
pub proof fn law_plain_words_are_words(w: Seq<char>, rest: Seq<Seq<char>>, form: Form)
    requires
        w.len() > 0,
        w[0] != '-',
        form.room > 0,
    ensures
        walked(seq![w] + rest, Held::Nothing, form) == args::behind(
            seq![Part::Word(w)],
            walked(rest, Held::Nothing, Form { room: (form.room - 1) as nat, ..form }),
        ),
{
    let a = seq![w] + rest;
    assert(a.skip(1) =~= rest);
    if seq!['-', '-'].is_prefix_of(w) {
        assert(w.subrange(0, 2)[0] == '-');
    }
    let s = next_step(a, Held::Nothing, true);
    assert(s.out == Ok::<Option<Mark>, (Seq<char>, Seq<char>)>(Some(Mark::Value(w))));
}

/// A switch is a switch, and stands for itself.
pub proof fn law_switches_are_switches(name: Seq<char>, rest: Seq<Seq<char>>, form: Form)
    requires
        name.len() > 0,
        !name.contains('='),
        form.switches.contains(name),
    ensures
        walked(seq![seq!['-', '-'] + name] + rest, Held::Nothing, form) == args::behind(
            seq![Part::Switch(name)],
            walked(rest, Held::Nothing, form),
        ),
{
    let flag = seq!['-', '-'] + name;
    let a = seq![flag] + rest;
    assert(a.skip(1) =~= rest);
    assert(flag.subrange(0, 2) =~= seq!['-', '-']);
    assert(flag.skip(2) =~= name);
    assert(flag.len() > 2);
    text::lemma_until(flag, '=');
    let k = text::until(flag, '=');
    if k < flag.len() {
        assert(flag[k] == '=');
        assert(name[k - 2] == '=');
        assert(name.contains('='));
    }
    assert(words::cut(flag, '=') is None);
    let s = next_step(a, Held::Nothing, true);
    assert(s.out == Ok::<Option<Mark>, (Seq<char>, Seq<char>)>(Some(Mark::Long(name))));
}

/// An option that is none is refused.
pub proof fn law_unknown_options_are_refused(name: Seq<char>, rest: Seq<Seq<char>>, form: Form)
    requires
        name.len() > 0,
        !name.contains('='),
        !form.switches.contains(name),
        !form.options.contains(name),
    ensures
        walked(seq![seq!['-', '-'] + name] + rest, Held::Nothing, form) is Err,
{
    let flag = seq!['-', '-'] + name;
    let a = seq![flag] + rest;
    assert(flag.subrange(0, 2) =~= seq!['-', '-']);
    assert(flag.skip(2) =~= name);
    assert(flag.len() > 2);
    text::lemma_until(flag, '=');
    let k = text::until(flag, '=');
    if k < flag.len() {
        assert(flag[k] == '=');
        assert(name[k - 2] == '=');
        assert(name.contains('='));
    }
    assert(words::cut(flag, '=') is None);
    let s = next_step(a, Held::Nothing, true);
    assert(s.out == Ok::<Option<Mark>, (Seq<char>, Seq<char>)>(Some(Mark::Long(name))));
}

/// Nothing more is nothing more.
pub proof fn lemma_walked_out(form: Form)
    ensures
        walked(seq![], Held::Nothing, form) == Ok::<Seq<Part>, Seq<char>>(seq![]),
{
}

} // verus!
