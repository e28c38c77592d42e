//! The launcher of an image: its command, and its environment without what steers loaders and
//! interpreters.
//!
//! The image's variables are the floor; the kennel's own are laid over them and win. Only the
//! image's are filtered: an operator who wants a filtered name sets it in the policy.

use crate::layout;
use crate::layout::push_line;
use crate::order;
use crate::order::precedes;
use crate::text;
use crate::text::{among, concat2, starts_with};
use crate::words;
use vstd::prelude::*;
use vstd::string::*;

verus! {

/// Where the image's configuration is bound.
pub const DEFAULT_CONFIG_PATH: &'static str = "/run/kennel/oci-config.json";

/// Names that start so are dropped.
pub const STRIP_PREFIXES: [&'static str; 2] = ["LD_", "GLIBC_"];

/// Names that are dropped.
pub const STRIP_EXACT: [&'static str; 30] = [
    "GCONV_PATH",
    "GETCONF_DIR",
    "HOSTALIASES",
    "LOCALDOMAIN",
    "LOCPATH",
    "MALLOC_TRACE",
    "NIS_PATH",
    "NLSPATH",
    "RESOLV_HOST_CONF",
    "RES_OPTIONS",
    "TMPDIR",
    "TZDIR",
    "NODE_OPTIONS",
    "NODE_PATH",
    "PYTHONPATH",
    "PYTHONHOME",
    "PYTHONSTARTUP",
    "PERL5LIB",
    "PERL5OPT",
    "PERLLIB",
    "RUBYLIB",
    "RUBYOPT",
    "CLASSPATH",
    "JAVA_TOOL_OPTIONS",
    "_JAVA_OPTIONS",
    "JDK_JAVA_OPTIONS",
    "BASH_ENV",
    "ENV",
    "SHELLOPTS",
    "BASHOPTS",
];

/// Whether the image may not set the variable.
pub open spec fn barred(name: Seq<char>) -> bool {
    ||| exists|i: int|
        0 <= i < 2 && (#[trigger] text::strs(STRIP_PREFIXES@)[i]).is_prefix_of(name)
    ||| text::strs(STRIP_EXACT@).contains(name)
}

/// Whether the image may not set the variable.
pub fn is_stripped(name: &str) -> (r: bool)
    ensures
        r == barred(name@),
{
    let prefixes: &[&'static str] = &STRIP_PREFIXES;
    let ghost ps = text::strs(prefixes@);
    assert(ps == text::strs(STRIP_PREFIXES@));
    if starts_with(name, prefixes[0]) {
        assert(ps[0].is_prefix_of(name@));
        return true;
    }
    if starts_with(name, prefixes[1]) {
        assert(ps[1].is_prefix_of(name@));
        return true;
    }
    proof {
        assert forall|i: int| 0 <= i < 2 implies !(#[trigger] ps[i]).is_prefix_of(name@) by {
            assert(i == 0 || i == 1);
        }
    }
    among(&STRIP_EXACT, name)
}

/// The name of an entry `NAME=VALUE`; an entry without `=` is a name.
pub open spec fn name_of(entry: Seq<char>) -> Seq<char> {
    match words::cut(entry, '=') {
        Some((k, _)) => k,
        None => entry,
    }
}

/// The name of an entry.
pub fn env_name(entry: &str) -> (r: &str)
    ensures
        r@ == name_of(entry@),
{
    match words::split_once(entry, '=') {
        Some((k, _)) => k,
        None => entry,
    }
}

/// The entries of the image that are kept, in their order.
pub open spec fn kept(entries: Seq<Seq<char>>) -> Seq<Seq<char>>
    decreases entries.len(),
{
    if entries.len() == 0 {
        seq![]
    } else if barred(name_of(entries.last())) {
        kept(entries.drop_last())
    } else {
        kept(entries.drop_last()).push(entries.last())
    }
}

/// The entries of the image that are kept, in their order.
pub fn strip_image_env(image_env: &[String]) -> (out: Vec<String>)
    ensures
        text::texts(out@) == kept(text::texts(image_env@)),
{
    let ghost all = text::texts(image_env@);
    let mut out: Vec<String> = Vec::new();
    let mut i: usize = 0;
    assert(all.take(0) =~= seq![]);
    assert(text::texts(out@) =~= seq![]);
    while i < image_env.len()
        invariant
            i <= image_env@.len(),
            all == text::texts(image_env@),
            text::texts(out@) == kept(all.take(i as int)),
        decreases image_env@.len() - i,
    {
        proof {
            assert(all.take(i + 1).drop_last() =~= all.take(i as int));
            assert(all.take(i + 1).last() == image_env@[i as int]@);
        }
        if !is_stripped(env_name(image_env[i].as_str())) {
            push_line(&mut out, image_env[i].clone());
        }
        i = i + 1;
    }
    assert(all.take(all.len() as int) =~= all);
    out
}

/// What is kept of the image's entries sets no barred variable.
pub proof fn law_no_barred_name_is_kept(entries: Seq<Seq<char>>)
    ensures
        forall|i: int| 0 <= i < kept(entries).len() ==> !barred(name_of(#[trigger] kept(entries)[i])),
    decreases entries.len(),
{
    if entries.len() > 0 {
        law_no_barred_name_is_kept(entries.drop_last());
        let front = kept(entries.drop_last());
        assert forall|i: int| 0 <= i < kept(entries).len() implies !barred(
            name_of(#[trigger] kept(entries)[i]),
        ) by {
            if i < front.len() {
                assert(kept(entries)[i] == front[i]);
            }
        }
    }
}

// ---- merging -------------------------------------------------------------------

/// Variables in ascending order of their names, with `name` set to `value`.
pub open spec fn with_var(
    vars: Seq<(Seq<char>, Seq<char>)>,
    name: Seq<char>,
    value: Seq<char>,
) -> Seq<(Seq<char>, Seq<char>)>
    decreases vars.len(),
{
    if vars.len() == 0 {
        seq![(name, value)]
    } else if vars[0].0 == name {
        seq![(name, value)] + vars.drop_first()
    } else if order::lex(name, vars[0].0) {
        seq![(name, value)] + vars
    } else {
        seq![vars[0]] + with_var(vars.drop_first(), name, value)
    }
}

/// The variables that entries `NAME=VALUE` set; an entry without `=` sets none.
pub open spec fn floor(entries: Seq<Seq<char>>) -> Seq<(Seq<char>, Seq<char>)>
    decreases entries.len(),
{
    if entries.len() == 0 {
        seq![]
    } else {
        match words::cut(entries.last(), '=') {
            Some((k, v)) => with_var(floor(entries.drop_last()), k, v),
            None => floor(entries.drop_last()),
        }
    }
}

/// Variables laid over others.
pub open spec fn over(base: Seq<(Seq<char>, Seq<char>)>, top: Seq<(Seq<char>, Seq<char>)>) -> Seq<
    (Seq<char>, Seq<char>),
>
    decreases top.len(),
{
    if top.len() == 0 {
        base
    } else {
        with_var(over(base, top.drop_last()), top.last().0, top.last().1)
    }
}

/// The texts of pairs.
pub open spec fn pairs(v: Seq<(String, String)>) -> Seq<(Seq<char>, Seq<char>)> {
    v.map_values(|p: (String, String)| (p.0@, p.1@))
}

/// Whether each name stands before the ones behind it.
pub open spec fn in_name_order(vars: Seq<(Seq<char>, Seq<char>)>) -> bool {
    forall|i: int, j: int|
        0 <= i < j < vars.len() ==> order::lex((#[trigger] vars[i]).0, (#[trigger] vars[j]).0)
}

/// The value of a variable.
pub open spec fn value_of(vars: Seq<(Seq<char>, Seq<char>)>, name: Seq<char>) -> Option<Seq<char>>
    decreases vars.len(),
{
    if vars.len() == 0 {
        None
    } else if vars[0].0 == name {
        Some(vars[0].1)
    } else {
        value_of(vars.drop_first(), name)
    }
}

proof fn lemma_with_var(
    vars: Seq<(Seq<char>, Seq<char>)>,
    name: Seq<char>,
    value: Seq<char>,
    other: Seq<char>,
)
    requires
        in_name_order(vars),
    ensures
        in_name_order(with_var(vars, name, value)),
        value_of(with_var(vars, name, value), other) == if other == name {
            Some(value)
        } else {
            value_of(vars, other)
        },
        forall|i: int|
            0 <= i < with_var(vars, name, value).len() ==> (#[trigger] with_var(
                vars,
                name,
                value,
            )[i]).0 == name || exists|k: int|
                0 <= k < vars.len() && (#[trigger] vars[k]).0 == with_var(vars, name, value)[i].0,
    decreases vars.len(),
{
    let r = with_var(vars, name, value);
    if vars.len() == 0 {
        assert(r.drop_first() =~= seq![]);
    } else if vars[0].0 == name {
        assert(r.drop_first() =~= vars.drop_first());
        assert forall|i: int, j: int| 0 <= i < j < r.len() implies order::lex(
            (#[trigger] r[i]).0,
            (#[trigger] r[j]).0,
        ) by {
            assert(r[i].0 == vars[i].0 && r[j].0 == vars[j].0);
        }
        assert forall|i: int| 0 <= i < r.len() implies (#[trigger] r[i]).0 == name || exists|k: int|
            0 <= k < vars.len() && (#[trigger] vars[k]).0 == r[i].0 by {
            assert(vars[i].0 == r[i].0);
        }
    } else if order::lex(name, vars[0].0) {
        assert(r.drop_first() =~= vars);
        assert forall|i: int, j: int| 0 <= i < j < r.len() implies order::lex(
            (#[trigger] r[i]).0,
            (#[trigger] r[j]).0,
        ) by {
            assert(r[j] == vars[j - 1]);
            if i == 0 {
                if j > 1 {
                    assert(order::lex(vars[0].0, vars[j - 1].0));
                    order::law_text_order(name, vars[0].0, vars[j - 1].0);
                }
            } else {
                assert(r[i] == vars[i - 1]);
            }
        }
        assert forall|i: int| 0 <= i < r.len() implies (#[trigger] r[i]).0 == name || exists|k: int|
            0 <= k < vars.len() && (#[trigger] vars[k]).0 == r[i].0 by {
            if i > 0 {
                assert(vars[i - 1] == r[i]);
            }
        }
        if other != name {
            assert(value_of(r, other) == value_of(r.drop_first(), other));
        }
    } else {
        let rest = vars.drop_first();
        let tail = with_var(rest, name, value);
        assert(in_name_order(rest)) by {
            assert forall|i: int, j: int| 0 <= i < j < rest.len() implies order::lex(
                (#[trigger] rest[i]).0,
                (#[trigger] rest[j]).0,
            ) by {
                assert(rest[i] == vars[i + 1] && rest[j] == vars[j + 1]);
            }
        }
        lemma_with_var(rest, name, value, other);
        assert(r.drop_first() =~= tail);
        order::law_text_order(name, vars[0].0, vars[0].0);
        assert forall|i: int, j: int| 0 <= i < j < r.len() implies order::lex(
            (#[trigger] r[i]).0,
            (#[trigger] r[j]).0,
        ) by {
            assert(r[j] == tail[j - 1]);
            if i == 0 {
                if tail[j - 1].0 != name {
                    let k = choose|k: int|
                        0 <= k < rest.len() && (#[trigger] rest[k]).0 == tail[j - 1].0;
                    assert(rest[k] == vars[k + 1]);
                }
            } else {
                assert(r[i] == tail[i - 1]);
            }
        }
        assert forall|i: int| 0 <= i < r.len() implies (#[trigger] r[i]).0 == name || exists|k: int|
            0 <= k < vars.len() && (#[trigger] vars[k]).0 == r[i].0 by {
            if i == 0 {
                assert(vars[0].0 == r[i].0);
            } else {
                assert(r[i] == tail[i - 1]);
                if tail[i - 1].0 != name {
                    let k = choose|k: int|
                        0 <= k < rest.len() && (#[trigger] rest[k]).0 == tail[i - 1].0;
                    assert(vars[k + 1].0 == r[i].0);
                }
            }
        }
    }
}

proof fn lemma_floor_order(entries: Seq<Seq<char>>)
    ensures
        in_name_order(floor(entries)),
    decreases entries.len(),
{
    if entries.len() > 0 {
        lemma_floor_order(entries.drop_last());
        if let Some((k, v)) = words::cut(entries.last(), '=') {
            lemma_with_var(floor(entries.drop_last()), k, v, k);
        }
    }
}

proof fn lemma_over_order(base: Seq<(Seq<char>, Seq<char>)>, top: Seq<(Seq<char>, Seq<char>)>)
    requires
        in_name_order(base),
    ensures
        in_name_order(over(base, top)),
    decreases top.len(),
{
    if top.len() > 0 {
        lemma_over_order(base, top.drop_last());
        lemma_with_var(over(base, top.drop_last()), top.last().0, top.last().1, top.last().0);
    }
}

/// The environment of an image's workload is in the order of its names, each once, so that it is
/// the same for the same policy and image.
pub proof fn law_environment_is_in_order(
    kennel: Seq<(Seq<char>, Seq<char>)>,
    image: Seq<Seq<char>>,
)
    ensures
        in_name_order(over(floor(kept(image)), kennel)),
{
    lemma_floor_order(kept(image));
    lemma_over_order(floor(kept(image)), kennel);
}

/// What the kennel sets wins: of what it sets for a name, the last counts, whatever the image sets.
pub proof fn law_kennel_wins(
    kennel: Seq<(Seq<char>, Seq<char>)>,
    image: Seq<Seq<char>>,
    i: int,
)
    requires
        0 <= i < kennel.len(),
        forall|j: int| i < j < kennel.len() ==> (#[trigger] kennel[j]).0 != kennel[i].0,
    ensures
        value_of(over(floor(kept(image)), kennel), kennel[i].0) == Some(kennel[i].1),
    decreases kennel.len(),
{
    let base = floor(kept(image));
    let front = kennel.drop_last();
    lemma_floor_order(kept(image));
    lemma_over_order(base, front);
    lemma_with_var(over(base, front), kennel.last().0, kennel.last().1, kennel[i].0);
    if i < kennel.len() - 1 {
        assert(kennel[kennel.len() - 1].0 != kennel[i].0);
        assert(front[i] == kennel[i]);
        assert forall|j: int| i < j < front.len() implies (#[trigger] front[j]).0 != front[i].0 by {
            assert(front[j] == kennel[j]);
        }
        law_kennel_wins(front, image, i);
    }
}

proof fn lemma_floor_unbarred(entries: Seq<Seq<char>>, name: Seq<char>)
    requires
        forall|i: int| 0 <= i < entries.len() ==> !barred(name_of(#[trigger] entries[i])),
        barred(name),
    ensures
        value_of(floor(entries), name) is None,
    decreases entries.len(),
{
    if entries.len() > 0 {
        let front = entries.drop_last();
        assert forall|i: int| 0 <= i < front.len() implies !barred(name_of(#[trigger] front[i])) by {
            assert(front[i] == entries[i]);
        }
        lemma_floor_unbarred(front, name);
        lemma_floor_order(front);
        if let Some((k, v)) = words::cut(entries.last(), '=') {
            assert(!barred(name_of(entries[entries.len() - 1])));
            lemma_with_var(floor(front), k, v, name);
        }
    }
}

/// The image sets no barred variable: where such a name has a value, the kennel has set it.
pub proof fn law_image_sets_no_barred_name(
    kennel: Seq<(Seq<char>, Seq<char>)>,
    image: Seq<Seq<char>>,
    name: Seq<char>,
)
    requires
        barred(name),
        forall|i: int| 0 <= i < kennel.len() ==> (#[trigger] kennel[i]).0 != name,
    ensures
        value_of(over(floor(kept(image)), kennel), name) is None,
    decreases kennel.len(),
{
    let base = floor(kept(image));
    law_no_barred_name_is_kept(image);
    lemma_floor_unbarred(kept(image), name);
    lemma_floor_order(kept(image));
    if kennel.len() > 0 {
        let front = kennel.drop_last();
        assert forall|i: int| 0 <= i < front.len() implies (#[trigger] front[i]).0 != name by {
            assert(front[i] == kennel[i]);
        }
        law_image_sets_no_barred_name(front, image, name);
        lemma_over_order(base, front);
        assert(kennel[kennel.len() - 1].0 != name);
        lemma_with_var(over(base, front), kennel.last().0, kennel.last().1, name);
    }
}

proof fn lemma_var_place(
    vars: Seq<(Seq<char>, Seq<char>)>,
    name: Seq<char>,
    value: Seq<char>,
    i: int,
)
    requires
        0 <= i <= vars.len(),
        forall|j: int| 0 <= j < i ==> (#[trigger] vars[j]).0 != name && !order::lex(name, vars[j].0),
        i < vars.len() ==> vars[i].0 == name || order::lex(name, vars[i].0),
    ensures
        with_var(vars, name, value) == if i < vars.len() && vars[i].0 == name {
            vars.update(i, (name, value))
        } else {
            vars.insert(i, (name, value))
        },
    decreases vars.len(),
{
    if i == 0 {
        if vars.len() == 0 {
            assert(vars.insert(0, (name, value)) =~= seq![(name, value)]);
        } else if vars[0].0 == name {
            assert(vars.update(0, (name, value)) =~= seq![(name, value)] + vars.drop_first());
        } else {
            assert(vars.insert(0, (name, value)) =~= seq![(name, value)] + vars);
        }
    } else {
        let rest = vars.drop_first();
        assert(vars[0].0 != name && !order::lex(name, vars[0].0));
        assert forall|j: int| 0 <= j < i - 1 implies (#[trigger] rest[j]).0 != name && !order::lex(
            name,
            rest[j].0,
        ) by {
            assert(rest[j] == vars[j + 1]);
        }
        lemma_var_place(rest, name, value, i - 1);
        if i < vars.len() && vars[i].0 == name {
            assert(seq![vars[0]] + rest.update(i - 1, (name, value)) =~= vars.update(
                i,
                (name, value),
            ));
        } else {
            assert(seq![vars[0]] + rest.insert(i - 1, (name, value)) =~= vars.insert(
                i,
                (name, value),
            ));
        }
    }
}

fn set_var(vars: &mut Vec<(String, String)>, name: &str, value: &str)
    ensures
        pairs(final(vars)@) == with_var(pairs(old(vars)@), name@, value@),
{
    let ghost ps = pairs(vars@);
    let mut i: usize = 0;
    while i < vars.len() && !text::same(vars[i].0.as_str(), name) && !precedes(
        name,
        vars[i].0.as_str(),
    )
        invariant
            i <= vars@.len(),
            ps == pairs(vars@),
            *vars == *old(vars),
            forall|j: int|
                0 <= j < i ==> (#[trigger] ps[j]).0 != name@ && !order::lex(name@, ps[j].0),
        decreases vars@.len() - i,
    {
        assert(ps[i as int].0 == vars@[i as int].0@);
        i = i + 1;
    }
    proof {
        if i < vars@.len() {
            assert(ps[i as int].0 == vars@[i as int].0@);
        }
        lemma_var_place(ps, name@, value@, i as int);
    }
    if i < vars.len() && text::same(vars[i].0.as_str(), name) {
        vars.set(i, (name.to_owned(), value.to_owned()));
        assert(pairs(vars@) =~= ps.update(i as int, (name@, value@)));
    } else {
        vars.insert(i, (name.to_owned(), value.to_owned()));
        assert(pairs(vars@) =~= ps.insert(i as int, (name@, value@)));
    }
}

/// The environment of an image's workload: the image's variables that are kept, and the kennel's
/// over them, in the order of their names.
pub fn merge_env(kennel_env: &[(String, String)], image_env: &[String]) -> (out: Vec<
    (String, String),
>)
    ensures
        pairs(out@) == over(floor(kept(text::texts(image_env@))), pairs(kennel_env@)),
{
    let mut out: Vec<(String, String)> = Vec::new();
    let floor_env = strip_image_env(image_env);
    let ghost entries = text::texts(floor_env@);
    let mut i: usize = 0;
    assert(entries.take(0) =~= seq![]);
    assert(pairs(out@) =~= seq![]);
    while i < floor_env.len()
        invariant
            i <= floor_env@.len(),
            entries == text::texts(floor_env@),
            pairs(out@) == floor(entries.take(i as int)),
        decreases floor_env@.len() - i,
    {
        proof {
            assert(entries.take(i + 1).drop_last() =~= entries.take(i as int));
            assert(entries.take(i + 1).last() == floor_env@[i as int]@);
        }
        if let Some((k, v)) = words::split_once(floor_env[i].as_str(), '=') {
            set_var(&mut out, k, v);
        }
        i = i + 1;
    }
    assert(entries.take(entries.len() as int) =~= entries);
    let ghost base = floor(entries);
    let ghost top = pairs(kennel_env@);
    let mut j: usize = 0;
    assert(top.take(0) =~= seq![]);
    while j < kennel_env.len()
        invariant
            j <= kennel_env@.len(),
            top == pairs(kennel_env@),
            pairs(out@) == over(base, top.take(j as int)),
        decreases kennel_env@.len() - j,
    {
        proof {
            assert(top.take(j + 1).drop_last() =~= top.take(j as int));
            assert(top.take(j + 1).last() == (kennel_env@[j as int].0@, kennel_env@[j as int].1@));
        }
        set_var(&mut out, kennel_env[j].0.as_str(), kennel_env[j].1.as_str());
        j = j + 1;
    }
    assert(top.take(top.len() as int) =~= top);
    out
}

proof fn lemma_value_at(vars: Seq<(Seq<char>, Seq<char>)>, m: int)
    requires
        in_name_order(vars),
        0 <= m < vars.len(),
    ensures
        value_of(vars, vars[m].0) == Some(vars[m].1),
    decreases vars.len(),
{
    if m > 0 {
        let rest = vars.drop_first();
        assert forall|i: int, j: int| 0 <= i < j < rest.len() implies order::lex(
            (#[trigger] rest[i]).0,
            (#[trigger] rest[j]).0,
        ) by {
            assert(rest[i] == vars[i + 1] && rest[j] == vars[j + 1]);
        }
        assert(order::lex(vars[0].0, vars[m].0));
        order::law_text_order(vars[0].0, vars[m].0, vars[m].0);
        lemma_value_at(rest, m - 1);
        assert(rest[m - 1] == vars[m]);
    }
}

proof fn lemma_value_place(vars: Seq<(Seq<char>, Seq<char>)>, name: Seq<char>) -> (m: int)
    requires
        value_of(vars, name) is Some,
    ensures
        0 <= m < vars.len(),
        vars[m] == (name, value_of(vars, name)->0),
    decreases vars.len(),
{
    if vars[0].0 == name {
        0
    } else {
        let rest = vars.drop_first();
        let k = lemma_value_place(rest, name);
        assert(rest[k] == vars[k + 1]);
        k + 1
    }
}

proof fn lemma_over_leaves(
    base: Seq<(Seq<char>, Seq<char>)>,
    top: Seq<(Seq<char>, Seq<char>)>,
    name: Seq<char>,
)
    requires
        in_name_order(base),
        forall|i: int| 0 <= i < top.len() ==> (#[trigger] top[i]).0 != name,
    ensures
        value_of(over(base, top), name) == value_of(base, name),
    decreases top.len(),
{
    if top.len() > 0 {
        let front = top.drop_last();
        assert forall|i: int| 0 <= i < front.len() implies (#[trigger] front[i]).0 != name by {
            assert(front[i] == top[i]);
        }
        lemma_over_leaves(base, front, name);
        lemma_over_order(base, front);
        assert(top[top.len() - 1].0 != name);
        lemma_with_var(over(base, front), top.last().0, top.last().1, name);
    }
}

/// Where `entry` sets a variable, its name and `=` are what it starts with.
proof fn lemma_cut_name(entry: Seq<char>, name: Seq<char>)
    ensures
        words::cut(entry, '=') matches Some((k, v)) ==> {
            &&& k + seq!['='] + v == entry
            &&& !k.contains('=')
            &&& k == name_of(entry)
            &&& (k + seq!['=']).is_prefix_of(entry)
        },
        words::cut(entry, '=') is None ==> !entry.contains('='),
{
    text::lemma_until(entry, '=');
    if let Some((k, v)) = words::cut(entry, '=') {
        assert(k + seq!['='] + v =~= entry);
        assert(k + seq!['='] =~= entry.take(k.len() as int + 1));
    }
}

proof fn lemma_floor_value(entries: Seq<Seq<char>>, i: int, name: Seq<char>, value: Seq<char>)
    requires
        0 <= i < entries.len(),
        entries[i] == name + seq!['='] + value,
        !name.contains('='),
        !barred(name),
        forall|j: int|
            i < j < entries.len() ==> !(name + seq!['=']).is_prefix_of(#[trigger] entries[j]),
    ensures
        value_of(floor(kept(entries)), name) == Some(value),
    decreases entries.len(),
{
    let e = entries.last();
    let front = entries.drop_last();
    let all = kept(entries);
    lemma_cut_name(e, name);
    lemma_floor_order(kept(front));
    if i == entries.len() - 1 {
        let k = name.len() as int;
        assert(e[k] == '=');
        assert forall|j: int| 0 <= j < k implies e[j] != '=' by {
            assert(e[j] == name[j]);
            assert(name.contains(name[j]));
        }
        text::lemma_until_is(e, '=', k);
        assert(e.take(k) =~= name);
        assert(e.skip(k + 1) =~= value);
        assert(all == kept(front).push(e));
        assert(all.drop_last() =~= kept(front));
        lemma_with_var(floor(kept(front)), name, value, name);
    } else {
        assert forall|j: int| i < j < front.len() implies !(name + seq!['=']).is_prefix_of(
            #[trigger] front[j],
        ) by {
            assert(front[j] == entries[j]);
        }
        lemma_floor_value(front, i, name, value);
        if !barred(name_of(e)) {
            assert(all == kept(front).push(e));
            assert(all.drop_last() =~= kept(front));
            assert(entries[entries.len() - 1] == e);
            if let Some((k, v)) = words::cut(e, '=') {
                assert(k != name);
                lemma_with_var(floor(kept(front)), k, v, name);
            }
        }
    }
}

/// The image's values are kept whole: for a name that is not barred and that the kennel does not set,
/// the merged environment has one value, and it is everything behind the first `=` of the last entry
/// of that name, so that name, `=` and value are that entry again.
pub proof fn law_image_values_are_kept_whole(
    kennel_env: &[(String, String)],
    image_env: &[String],
    out: Vec<(String, String)>,
    i: int,
    k: int,
)
    requires
        call_ensures(merge_env, (kennel_env, image_env), out),
        0 <= i < image_env@.len(),
        0 <= k < image_env@[i]@.len(),
        image_env@[i]@[k] == '=',
        forall|j: int| 0 <= j < k ==> image_env@[i]@[j] != '=',
        !barred(image_env@[i]@.take(k)),
        forall|j: int|
            i < j < image_env@.len() ==> !image_env@[i]@.take(k + 1).is_prefix_of(
                #[trigger] image_env@[j]@,
            ),
        forall|j: int|
            0 <= j < kennel_env@.len() ==> (#[trigger] kennel_env@[j]).0@ != image_env@[i]@.take(k),
    ensures
        exists|m: int|
            0 <= m < out@.len() && (#[trigger] out@[m]).0@ + seq!['='] + out@[m].1@
                == image_env@[i]@ && out@[m].0@ == image_env@[i]@.take(k),
        forall|m: int|
            0 <= m < out@.len() && (#[trigger] out@[m]).0@ == image_env@[i]@.take(k) ==> out@[m].0@
                + seq!['='] + out@[m].1@ == image_env@[i]@,
{
    let e = image_env@[i]@;
    let name = e.take(k);
    let value = e.skip(k + 1);
    let all = text::texts(image_env@);
    let top = pairs(kennel_env@);
    let base = floor(kept(all));
    let vars = over(base, top);
    assert(e =~= name + seq!['='] + value);
    assert(name + seq!['='] =~= e.take(k + 1));
    assert(all[i] == e);
    assert forall|j: int| i < j < all.len() implies !(name + seq!['=']).is_prefix_of(
        #[trigger] all[j],
    ) by {
        assert(all[j] == image_env@[j]@);
    }
    lemma_floor_value(all, i, name, value);
    lemma_floor_order(kept(all));
    assert forall|j: int| 0 <= j < top.len() implies (#[trigger] top[j]).0 != name by {
        assert(top[j].0 == kennel_env@[j].0@);
    }
    lemma_over_leaves(base, top, name);
    lemma_over_order(base, top);
    assert(pairs(out@) == vars);
    let m = lemma_value_place(vars, name);
    assert(pairs(out@)[m] == (out@[m].0@, out@[m].1@));
    assert forall|m: int| 0 <= m < out@.len() && (#[trigger] out@[m]).0@ == name implies out@[m].0@
        + seq!['='] + out@[m].1@ == e by {
        assert(pairs(out@)[m] == (out@[m].0@, out@[m].1@));
        lemma_value_at(vars, m);
    }
}

proof fn lemma_with_var_source(
    vars: Seq<(Seq<char>, Seq<char>)>,
    name: Seq<char>,
    value: Seq<char>,
    m: int,
)
    requires
        0 <= m < with_var(vars, name, value).len(),
    ensures
        with_var(vars, name, value)[m] == (name, value) || vars.contains(
            with_var(vars, name, value)[m],
        ),
    decreases vars.len(),
{
    let r = with_var(vars, name, value);
    if vars.len() > 0 {
        if vars[0].0 == name {
            if m > 0 {
                assert(r[m] == vars[m]);
            }
        } else if order::lex(name, vars[0].0) {
            if m > 0 {
                assert(r[m] == vars[m - 1]);
            }
        } else if m == 0 {
            assert(r[0] == vars[0]);
        } else {
            let rest = vars.drop_first();
            lemma_with_var_source(rest, name, value, m - 1);
            assert(r[m] == with_var(rest, name, value)[m - 1]);
            if rest.contains(r[m]) {
                let j = choose|j: int| 0 <= j < rest.len() && rest[j] == r[m];
                assert(vars[j + 1] == r[m]);
            }
        }
    }
}

proof fn lemma_floor_source(entries: Seq<Seq<char>>, m: int)
    requires
        0 <= m < floor(kept(entries)).len(),
    ensures
        entries.contains(
            floor(kept(entries))[m].0 + seq!['='] + floor(kept(entries))[m].1,
        ),
        !barred(floor(kept(entries))[m].0),
    decreases entries.len(),
{
    if entries.len() > 0 {
        let e = entries.last();
        let front = entries.drop_last();
        let vars = floor(kept(entries));
        let before = floor(kept(front));
        lemma_cut_name(e, e);
        if !barred(name_of(e)) {
            assert(kept(entries).drop_last() =~= kept(front));
        }
        if vars[m].0 + seq!['='] + vars[m].1 == e && !barred(vars[m].0) {
            assert(entries[entries.len() - 1] == e);
        } else {
            if let Some((k, v)) = words::cut(e, '=') {
                if !barred(name_of(e)) {
                    lemma_with_var_source(before, k, v, m);
                }
            }
            assert(before.contains(vars[m])) by {
                if vars == before {
                    assert(before[m] == vars[m]);
                }
            }
            let j = choose|j: int| 0 <= j < before.len() && before[j] == vars[m];
            lemma_floor_source(front, j);
            let x = vars[m].0 + seq!['='] + vars[m].1;
            let n = choose|n: int| 0 <= n < front.len() && front[n] == x;
            assert(entries[n] == x);
        }
    }
}

proof fn lemma_over_source(
    base: Seq<(Seq<char>, Seq<char>)>,
    top: Seq<(Seq<char>, Seq<char>)>,
    m: int,
)
    requires
        0 <= m < over(base, top).len(),
    ensures
        top.contains(over(base, top)[m]) || base.contains(over(base, top)[m]),
    decreases top.len(),
{
    let vars = over(base, top);
    if top.len() > 0 {
        let front = top.drop_last();
        lemma_with_var_source(over(base, front), top.last().0, top.last().1, m);
        if vars[m] == top.last() {
            assert(top[top.len() - 1] == vars[m]);
        } else {
            let before = over(base, front);
            let j = choose|j: int| 0 <= j < before.len() && before[j] == vars[m];
            lemma_over_source(base, front, j);
            if front.contains(vars[m]) {
                let n = choose|n: int| 0 <= n < front.len() && front[n] == vars[m];
                assert(top[n] == vars[m]);
            }
        }
    } else {
        assert(base[m] == vars[m]);
    }
}

/// Nothing is made up: every variable of the merged environment was set so by the kennel, or is
/// written so in an entry of the image, under a name that is not barred.
pub proof fn law_every_variable_was_set(
    kennel_env: &[(String, String)],
    image_env: &[String],
    out: Vec<(String, String)>,
    m: int,
)
    requires
        call_ensures(merge_env, (kennel_env, image_env), out),
        0 <= m < out@.len(),
    ensures
        (exists|j: int|
            0 <= j < kennel_env@.len() && (#[trigger] kennel_env@[j]).0@ == out@[m].0@
                && kennel_env@[j].1@ == out@[m].1@) || (!barred(out@[m].0@) && exists|i: int|
            0 <= i < image_env@.len() && (#[trigger] image_env@[i])@ == out@[m].0@ + seq!['=']
                + out@[m].1@),
{
    let all = text::texts(image_env@);
    let top = pairs(kennel_env@);
    let base = floor(kept(all));
    let x = pairs(out@)[m];
    assert(x == (out@[m].0@, out@[m].1@));
    lemma_over_source(base, top, m);
    if top.contains(x) {
        let j = choose|j: int| 0 <= j < top.len() && top[j] == x;
        assert(top[j] == (kennel_env@[j].0@, kennel_env@[j].1@));
    } else {
        let n = choose|n: int| 0 <= n < base.len() && base[n] == x;
        lemma_floor_source(all, n);
        let t = x.0 + seq!['='] + x.1;
        let i = choose|i: int| 0 <= i < all.len() && all[i] == t;
        assert(all[i] == image_env@[i]@);
    }
}

/// What the kennel sets is in the merged environment: of what it sets for a name the last, and
/// nothing else under that name, whatever the image sets.
pub proof fn law_kennel_values_are_merged(
    kennel_env: &[(String, String)],
    image_env: &[String],
    out: Vec<(String, String)>,
    i: int,
)
    requires
        call_ensures(merge_env, (kennel_env, image_env), out),
        0 <= i < kennel_env@.len(),
        forall|j: int|
            i < j < kennel_env@.len() ==> (#[trigger] kennel_env@[j]).0@ != kennel_env@[i].0@,
    ensures
        exists|m: int| 0 <= m < out@.len() && (#[trigger] out@[m]).0@ == kennel_env@[i].0@,
        forall|m: int|
            0 <= m < out@.len() && (#[trigger] out@[m]).0@ == kennel_env@[i].0@ ==> out@[m].1@
                == kennel_env@[i].1@,
{
    let all = text::texts(image_env@);
    let top = pairs(kennel_env@);
    let vars = over(floor(kept(all)), top);
    let name = kennel_env@[i].0@;
    assert(top[i] == (name, kennel_env@[i].1@));
    assert forall|j: int| i < j < top.len() implies (#[trigger] top[j]).0 != top[i].0 by {
        assert(top[j].0 == kennel_env@[j].0@);
    }
    law_kennel_wins(top, all, i);
    law_environment_is_in_order(top, all);
    let m = lemma_value_place(vars, name);
    assert(pairs(out@)[m].0 == out@[m].0@);
    assert forall|m: int| 0 <= m < out@.len() && (#[trigger] out@[m]).0@ == name implies out@[m].1@
        == kennel_env@[i].1@ by {
        assert(pairs(out@)[m] == (out@[m].0@, out@[m].1@));
        lemma_value_at(vars, m);
    }
}

/// The names of the loader and of the C library are barred, whatever follows their first letters.
pub proof fn law_loader_names_are_barred(name: &str, rest: Seq<char>, r: bool)
    requires
        call_ensures(is_stripped, (name,), r),
        name@ == "LD_"@ + rest || name@ == "GLIBC_"@ + rest,
    ensures
        r,
{
    let ps = text::strs(STRIP_PREFIXES@);
    assert(ps[0] == "LD_"@);
    assert(ps[1] == "GLIBC_"@);
    if name@ == "LD_"@ + rest {
        assert(ps[0].is_prefix_of(name@));
    } else {
        assert(ps[1].is_prefix_of(name@));
    }
}

/// The names by which an image could steer loaders, resolvers, interpreters and shells.
pub open spec fn steering_names() -> Seq<Seq<char>> {
    seq![
        "GCONV_PATH"@,
        "GETCONF_DIR"@,
        "HOSTALIASES"@,
        "LOCALDOMAIN"@,
        "LOCPATH"@,
        "MALLOC_TRACE"@,
        "NIS_PATH"@,
        "NLSPATH"@,
        "RESOLV_HOST_CONF"@,
        "RES_OPTIONS"@,
        "TMPDIR"@,
        "TZDIR"@,
        "NODE_OPTIONS"@,
        "NODE_PATH"@,
        "PYTHONPATH"@,
        "PYTHONHOME"@,
        "PYTHONSTARTUP"@,
        "PERL5LIB"@,
        "PERL5OPT"@,
        "PERLLIB"@,
        "RUBYLIB"@,
        "RUBYOPT"@,
        "CLASSPATH"@,
        "JAVA_TOOL_OPTIONS"@,
        "_JAVA_OPTIONS"@,
        "JDK_JAVA_OPTIONS"@,
        "BASH_ENV"@,
        "ENV"@,
        "SHELLOPTS"@,
        "BASHOPTS"@,
    ]
}

/// Besides the names of the loader and of the C library, just the steering names are barred.
pub proof fn law_steering_names_are_barred(name: &str, r: bool)
    requires
        call_ensures(is_stripped, (name,), r),
    ensures
        r <==> steering_names().contains(name@) || "LD_"@.is_prefix_of(name@)
            || "GLIBC_"@.is_prefix_of(name@),
{
    let ps = text::strs(STRIP_PREFIXES@);
    assert(ps[0] == "LD_"@);
    assert(ps[1] == "GLIBC_"@);
    assert(text::strs(STRIP_EXACT@) =~= steering_names());
    if "LD_"@.is_prefix_of(name@) {
        assert(ps[0].is_prefix_of(name@));
    }
    if "GLIBC_"@.is_prefix_of(name@) {
        assert(ps[1].is_prefix_of(name@));
    }
}

/// A kept environment is the image's without the barred entries: an entry is kept just where its
/// name is not barred.
pub proof fn law_only_barred_entries_are_dropped(image_env: &[String], out: Vec<String>, e: Seq<char>)
    requires
        call_ensures(strip_image_env, (image_env,), out),
    ensures
        text::texts(out@).contains(e) <==> text::texts(image_env@).contains(e) && !barred(
            if e.contains('=') {
                e.take(text::until(e, '='))
            } else {
                e
            },
        ),
{
    lemma_kept_is(text::texts(image_env@), e);
    text::lemma_until(e, '=');
}

proof fn lemma_kept_is(entries: Seq<Seq<char>>, e: Seq<char>)
    ensures
        kept(entries).contains(e) <==> entries.contains(e) && !barred(name_of(e)),
    decreases entries.len(),
{
    if entries.len() > 0 {
        let front = entries.drop_last();
        let k = kept(front);
        lemma_kept_is(front, e);
        assert(entries =~= front.push(entries.last()));
        lemma_push_contains(front, entries.last(), e);
        lemma_push_contains(k, entries.last(), e);
    }
}

proof fn lemma_push_contains(v: Seq<Seq<char>>, x: Seq<char>, e: Seq<char>)
    ensures
        v.push(x).contains(e) <==> v.contains(e) || x == e,
{
    let w = v.push(x);
    if v.contains(e) {
        let i = choose|i: int| 0 <= i < v.len() && v[i] == e;
        assert(w[i] == e);
    }
    if x == e {
        assert(w[v.len() as int] == e);
    }
    if w.contains(e) {
        let i = choose|i: int| 0 <= i < w.len() && w[i] == e;
        if i < v.len() {
            assert(v[i] == e);
        }
    }
}

/// The command of an image: its entry point and then its default arguments; one of them must be
/// there.
pub fn entry_argv(entrypoint: &[String], cmd: &[String]) -> (r: Result<Vec<String>, String>)
    ensures
        match r {
            Ok(argv) => argv@.len() > 0 && text::texts(argv@) == text::texts(entrypoint@)
                + text::texts(cmd@),
            Err(m) => entrypoint@.len() == 0 && cmd@.len() == 0 && m@
                == "image config has neither Entrypoint nor Cmd"@,
        },
{
    let mut argv: Vec<String> = Vec::new();
    assert(text::texts(argv@) =~= seq![]);
    layout::push_lines(&mut argv, entrypoint);
    layout::push_lines(&mut argv, cmd);
    proof {
        assert(text::texts(argv@) =~= text::texts(entrypoint@) + text::texts(cmd@));
        assert(text::texts(argv@).len() == argv@.len());
    }
    if argv.len() == 0 {
        return Err("image config has neither Entrypoint nor Cmd".to_owned());
    }
    Ok(argv)
}

/// The command of an image runs its entry point ahead of its default arguments, none of them twice
/// and none left out; there is none just where the image gives neither.
pub proof fn law_command_is_entry_point_and_arguments(
    entrypoint: &[String],
    cmd: &[String],
    r: Result<Vec<String>, String>,
)
    requires
        call_ensures(entry_argv, (entrypoint, cmd), r),
    ensures
        r is Err <==> entrypoint@.len() + cmd@.len() == 0,
        r matches Ok(argv) ==> {
            &&& argv@.len() == entrypoint@.len() + cmd@.len()
            &&& forall|i: int|
                0 <= i < entrypoint@.len() ==> (#[trigger] argv@[i])@ == entrypoint@[i]@
            &&& forall|i: int|
                0 <= i < cmd@.len() ==> (#[trigger] argv@[entrypoint@.len() + i])@ == cmd@[i]@
        },
{
    if let Ok(argv) = r {
        let a = text::texts(argv@);
        let n = entrypoint@.len() as int;
        assert(a.len() == argv@.len());
        assert forall|i: int| 0 <= i < n implies (#[trigger] argv@[i])@ == entrypoint@[i]@ by {
            assert(a[i] == argv@[i]@);
        }
        assert forall|i: int| 0 <= i < cmd@.len() implies (#[trigger] argv@[n + i])@ == cmd@[i]@ by {
            assert(a[n + i] == argv@[n + i]@);
        }
    }
}

/// The globs that say in a policy which variables the image may not set.
pub open spec fn deny_globs() -> Seq<Seq<char>> {
    text::strs(STRIP_PREFIXES@).map_values(|p: Seq<char>| p + "*"@) + text::strs(STRIP_EXACT@)
}

/// The globs that say in a policy which variables the image may not set.
pub fn env_deny() -> (out: Vec<String>)
    ensures
        text::texts(out@) == deny_globs(),
{
    let prefixes: &[&'static str] = &STRIP_PREFIXES;
    let exact: &[&'static str] = &STRIP_EXACT;
    let mut out: Vec<String> = Vec::new();
    push_line(&mut out, concat2(prefixes[0], "*"));
    push_line(&mut out, concat2(prefixes[1], "*"));
    let ghost base = text::strs(STRIP_PREFIXES@).map_values(|p: Seq<char>| p + "*"@);
    let ghost more = text::strs(STRIP_EXACT@);
    assert(text::texts(out@) =~= base + more.take(0));
    let mut i: usize = 0;
    while i < exact.len()
        invariant
            i <= exact@.len(),
            exact@ == STRIP_EXACT@,
            more == text::strs(STRIP_EXACT@),
            text::texts(out@) == base + more.take(i as int),
        decreases exact@.len() - i,
    {
        push_line(&mut out, exact[i].to_owned());
        i = i + 1;
        assert(text::texts(out@) =~= base + more.take(i as int));
    }
    assert(more.take(more.len() as int) =~= more);
    out
}

} // verus!
