//! Command lines of switches, valued options and words, read from left to right.

use crate::layout;
use crate::text;
use crate::text::{among, concat2, concat3, starts_with};
use vstd::prelude::*;
use vstd::string::*;

verus! {

/// What one part of a command line is.
#[derive(Debug)]
pub enum Item {
    /// A switch.
    Switch(String),
    /// An option and its value.
    Value(String, String),
    /// Any other word.
    Word(String),
}

/// What one part of a command line is, as text.
pub enum Part {
    /// A switch.
    Switch(Seq<char>),
    /// An option and its value.
    Value(Seq<char>, Seq<char>),
    /// Any other word.
    Word(Seq<char>),
}

impl View for Item {
    type V = Part;

    open spec fn view(&self) -> Part {
        match *self {
            Item::Switch(s) => Part::Switch(s@),
            Item::Value(o, v) => Part::Value(o@, v@),
            Item::Word(w) => Part::Word(w@),
        }
    }
}

/// The parts that items stand for.
pub open spec fn parts(items: Seq<Item>) -> Seq<Part> {
    items.map_values(|i: Item| i@)
}

/// What a command line is made of.
pub struct Shape {
    /// The switches.
    pub switches: Seq<Seq<char>>,
    /// The options that take a value.
    pub options: Seq<Seq<char>>,
    /// How many words there may be.
    pub room: nat,
    /// What is said to one word too many.
    pub extra: Seq<char>,
}

/// `r` behind `front`.
pub open spec fn behind(front: Seq<Part>, r: Result<Seq<Part>, Seq<char>>) -> Result<
    Seq<Part>,
    Seq<char>,
> {
    match r {
        Ok(s) => Ok(front + s),
        Err(e) => Err(e),
    }
}

/// The parts of a command line, or what is wrong with the first part that is wrong.
pub open spec fn scanned(args: Seq<Seq<char>>, shape: Shape) -> Result<Seq<Part>, Seq<char>>
    decreases args.len(),
{
    if args.len() == 0 {
        Ok(seq![])
    } else {
        let a = args[0];
        if shape.switches.contains(a) {
            behind(seq![Part::Switch(a)], scanned(args.skip(1), shape))
        } else if shape.options.contains(a) {
            if args.len() == 1 {
                Err(a + " needs a value"@)
            } else {
                behind(seq![Part::Value(a, args[1])], scanned(args.skip(2), shape))
            }
        } else if "--"@.is_prefix_of(a) {
            Err("unknown flag `"@ + a + "`"@)
        } else if shape.room == 0 {
            Err(shape.extra)
        } else {
            behind(
                seq![Part::Word(a)],
                scanned(args.skip(1), Shape { room: (shape.room - 1) as nat, ..shape }),
            )
        }
    }
}

/// Whether the switch is given.
pub open spec fn given(ps: Seq<Part>, name: Seq<char>) -> bool {
    ps.contains(Part::Switch(name))
}

/// The values given to the option, in order.
pub open spec fn values(ps: Seq<Part>, name: Seq<char>) -> Seq<Seq<char>>
    decreases ps.len(),
{
    if ps.len() == 0 {
        seq![]
    } else {
        let front = values(ps.drop_last(), name);
        match ps.last() {
            Part::Value(o, v) => if o == name {
                front.push(v)
            } else {
                front
            },
            _ => front,
        }
    }
}

/// The value given to the option last.
pub open spec fn chosen(ps: Seq<Part>, name: Seq<char>) -> Option<Seq<char>> {
    let vs = values(ps, name);
    if vs.len() == 0 {
        None
    } else {
        Some(vs.last())
    }
}

/// The words, in order.
pub open spec fn words(ps: Seq<Part>) -> Seq<Seq<char>>
    decreases ps.len(),
{
    if ps.len() == 0 {
        seq![]
    } else {
        let front = words(ps.drop_last());
        match ps.last() {
            Part::Word(w) => front.push(w),
            _ => front,
        }
    }
}

/// The word at `i`.
pub open spec fn word(ps: Seq<Part>, i: int) -> Option<Seq<char>> {
    if i < words(ps).len() {
        Some(words(ps)[i])
    } else {
        None
    }
}

/// Appends an item.
pub fn push_item(out: &mut Vec<Item>, item: Item)
    ensures
        parts(final(out)@) == parts(old(out)@).push(item@),
{
    out.push(item);
    assert(parts(out@) =~= parts(old(out)@).push(item@));
}

proof fn lemma_behind(a: Seq<Part>, p: Part, r: Result<Seq<Part>, Seq<char>>)
    ensures
        behind(a.push(p), r) == behind(a, behind(seq![p], r)),
{
    if r is Ok {
        assert(a.push(p) + r->Ok_0 =~= a + (seq![p] + r->Ok_0));
    }
}

/// Reads a command line.
pub fn scan(
    args: &[String],
    switches: &[&str],
    options: &[&str],
    room: usize,
    extra: &str,
) -> (r: Result<Vec<Item>, String>)
    ensures
        match scanned(
            text::texts(args@),
            (Shape {
                switches: text::strs(switches@),
                options: text::strs(options@),
                room: room as nat,
                extra: extra@,
            }),
        ) {
            Ok(ps) => r matches Ok(items) && parts(items@) == ps,
            Err(e) => r matches Err(m) && m@ == e,
        },
{
    let ghost all = text::texts(args@);
    let ghost shape = Shape {
        switches: text::strs(switches@),
        options: text::strs(options@),
        room: room as nat,
        extra: extra@,
    };
    let mut out: Vec<Item> = Vec::new();
    let mut i: usize = 0;
    let mut left: usize = room;
    proof {
        assert(all.skip(0) =~= all);
        assert(parts(out@) =~= seq![]);
        let r = scanned(all, shape);
        if r is Ok {
            assert(Seq::<Part>::empty() + r->Ok_0 =~= r->Ok_0);
        }
    }
    while i < args.len()
        invariant
            i <= args@.len(),
            args.len() == args@.len(),
            all == text::texts(args@),
            shape == (Shape {
                switches: text::strs(switches@),
                options: text::strs(options@),
                room: room as nat,
                extra: extra@,
            }),
            behind(
                parts(out@),
                scanned(all.skip(i as int), Shape { room: left as nat, ..shape }),
            ) == scanned(all, shape),
        decreases args@.len() - i,
    {
        let a = args[i].as_str();
        let ghost here = Shape { room: left as nat, ..shape };
        let ghost rest = all.skip(i as int);
        proof {
            assert(rest[0] == a@);
            assert(rest.skip(1) =~= all.skip(i + 1));
        }
        if among(switches, a) {
            proof {
                lemma_behind(parts(out@), Part::Switch(a@), scanned(rest.skip(1), here));
            }
            push_item(&mut out, Item::Switch(args[i].clone()));
            i = i + 1;
        } else if among(options, a) {
            if i + 1 >= args.len() {
                return Err(concat2(a, " needs a value"));
            }
            proof {
                assert(rest[1] == args@[i + 1]@);
                assert(rest.skip(2) =~= all.skip(i + 2));
                lemma_behind(parts(out@), Part::Value(a@, rest[1]), scanned(rest.skip(2), here));
            }
            push_item(&mut out, Item::Value(args[i].clone(), args[i + 1].clone()));
            i = i + 2;
        } else if starts_with(a, "--") {
            return Err(concat3("unknown flag `", a, "`"));
        } else if left == 0 {
            return Err(extra.to_owned());
        } else {
            proof {
                lemma_behind(
                    parts(out@),
                    Part::Word(a@),
                    scanned(rest.skip(1), Shape { room: (left - 1) as nat, ..shape }),
                );
            }
            push_item(&mut out, Item::Word(args[i].clone()));
            left = left - 1;
            i = i + 1;
        }
    }
    proof {
        assert(all.skip(i as int) =~= seq![]);
        assert(parts(out@) + seq![] =~= parts(out@));
    }
    Ok(out)
}

/// Whether the switch is given.
pub fn is_given(items: &[Item], name: &str) -> (r: bool)
    ensures
        r == given(parts(items@), name@),
{
    let mut i: usize = 0;
    while i < items.len()
        invariant
            i <= items@.len(),
            forall|j: int| 0 <= j < i ==> parts(items@)[j] != Part::Switch(name@),
        decreases items@.len() - i,
    {
        if let Item::Switch(s) = &items[i] {
            if text::same(s.as_str(), name) {
                assert(parts(items@)[i as int] == Part::Switch(name@));
                return true;
            }
        }
        i = i + 1;
    }
    false
}

/// The values given to the option, in order.
pub fn all_of(items: &[Item], name: &str) -> (out: Vec<String>)
    ensures
        text::texts(out@) == values(parts(items@), name@),
{
    let ghost ps = parts(items@);
    let mut out: Vec<String> = Vec::new();
    let mut i: usize = 0;
    assert(ps.take(0) =~= seq![]);
    assert(text::texts(out@) =~= seq![]);
    while i < items.len()
        invariant
            i <= items@.len(),
            ps == parts(items@),
            text::texts(out@) == values(ps.take(i as int), name@),
        decreases items@.len() - i,
    {
        proof {
            assert(ps.take(i + 1).drop_last() =~= ps.take(i as int));
            assert(ps.take(i + 1).last() == items@[i as int]@);
        }
        if let Item::Value(o, v) = &items[i] {
            if text::same(o.as_str(), name) {
                layout::push_line(&mut out, v.clone());
            }
        }
        i = i + 1;
    }
    assert(ps.take(ps.len() as int) =~= ps);
    out
}

/// The value given to the option last.
pub fn last_of(items: &[Item], name: &str) -> (r: Option<String>)
    ensures
        layout::opt(r) == chosen(parts(items@), name@),
{
    let all = all_of(items, name);
    if all.len() == 0 {
        None
    } else {
        let i: usize = all.len() - 1;
        assert(text::texts(all@).last() == all@[i as int]@);
        Some(all[i].clone())
    }
}

/// The words, in order.
pub fn words_of(items: &[Item]) -> (out: Vec<String>)
    ensures
        text::texts(out@) == words(parts(items@)),
{
    let ghost ps = parts(items@);
    let mut out: Vec<String> = Vec::new();
    let mut i: usize = 0;
    assert(ps.take(0) =~= seq![]);
    assert(text::texts(out@) =~= seq![]);
    while i < items.len()
        invariant
            i <= items@.len(),
            ps == parts(items@),
            text::texts(out@) == words(ps.take(i as int)),
        decreases items@.len() - i,
    {
        proof {
            assert(ps.take(i + 1).drop_last() =~= ps.take(i as int));
            assert(ps.take(i + 1).last() == items@[i as int]@);
        }
        if let Item::Word(w) = &items[i] {
            layout::push_line(&mut out, w.clone());
        }
        i = i + 1;
    }
    assert(ps.take(ps.len() as int) =~= ps);
    out
}

/// The word at `i`.
pub fn word_at(items: &[Item], i: usize) -> (r: Option<String>)
    ensures
        layout::opt(r) == word(parts(items@), i as int),
{
    let all = words_of(items);
    if i < all.len() {
        assert(text::texts(all@)[i as int] == all@[i as int]@);
        Some(all[i].clone())
    } else {
        None
    }
}

/// A command line that is accepted holds no more words than there is room for.
pub proof fn law_words_fit(args: Seq<Seq<char>>, shape: Shape)
    ensures
        scanned(args, shape) matches Ok(ps) ==> words(ps).len() <= shape.room,
    decreases args.len(),
{
    if args.len() > 0 {
        let a = args[0];
        if shape.switches.contains(a) {
            law_words_fit(args.skip(1), shape);
            if let Ok(s) = scanned(args.skip(1), shape) {
                lemma_words_front(Part::Switch(a), s);
            }
        } else if shape.options.contains(a) {
            if args.len() > 1 {
                law_words_fit(args.skip(2), shape);
                if let Ok(s) = scanned(args.skip(2), shape) {
                    lemma_words_front(Part::Value(a, args[1]), s);
                }
            }
        } else if shape.room > 0 {
            let rest = Shape { room: (shape.room - 1) as nat, ..shape };
            law_words_fit(args.skip(1), rest);
            if let Ok(s) = scanned(args.skip(1), rest) {
                lemma_words_front(Part::Word(a), s);
            }
        }
    }
}

proof fn lemma_words_front(p: Part, s: Seq<Part>)
    ensures
        words(seq![p] + s) == (match p {
            Part::Word(w) => seq![w],
            _ => seq![],
        }) + words(s),
    decreases s.len(),
{
    if s.len() == 0 {
        assert(seq![p] + s =~= seq![p]);
        assert(seq![p].drop_last() =~= seq![]);
    } else {
        assert((seq![p] + s).drop_last() =~= seq![p] + s.drop_last());
        lemma_words_front(p, s.drop_last());
        assert((seq![p] + s).last() == s.last());
    }
    let front: Seq<Seq<char>> = match p {
        Part::Word(w) => seq![w],
        _ => seq![],
    };
    assert(words(seq![p] + s) =~= front + words(s)) by {
        reveal_with_fuel(words, 2);
    }
}

/// The arguments that parts are written as.
pub open spec fn written(ps: Seq<Part>) -> Seq<Seq<char>>
    decreases ps.len(),
{
    if ps.len() == 0 {
        seq![]
    } else {
        (match ps[0] {
            Part::Switch(s) => seq![s],
            Part::Value(o, v) => seq![o, v],
            Part::Word(w) => seq![w],
        }) + written(ps.drop_first())
    }
}

/// Whether a part is one that the command line may hold.
pub open spec fn fits(p: Part, shape: Shape) -> bool {
    match p {
        Part::Switch(s) => shape.switches.contains(s),
        Part::Value(o, _) => shape.options.contains(o) && !shape.switches.contains(o),
        Part::Word(w) => !shape.switches.contains(w) && !shape.options.contains(w)
            && !"--"@.is_prefix_of(w),
    }
}

/// Nothing of a command line is lost, added or moved: the parts, written one after the other, are the
/// arguments again, and each part is what the command line may hold in its place.
pub proof fn law_parts_are_the_command_line(args: Seq<Seq<char>>, shape: Shape)
    ensures
        scanned(args, shape) matches Ok(ps) ==> written(ps) == args && forall|i: int|
            0 <= i < ps.len() ==> fits(#[trigger] ps[i], shape),
    decreases args.len(),
{
    if args.len() > 0 {
        if let Ok(ps) = scanned(args, shape) {
            let a = args[0];
            let (p, n, left) = if shape.switches.contains(a) {
                (Part::Switch(a), 1int, shape)
            } else if shape.options.contains(a) {
                (Part::Value(a, args[1]), 2int, shape)
            } else {
                (Part::Word(a), 1int, Shape { room: (shape.room - 1) as nat, ..shape })
            };
            let rest = args.skip(n);
            law_parts_are_the_command_line(rest, left);
            let qs = scanned(rest, left)->Ok_0;
            assert(ps == seq![p] + qs);
            assert(ps.drop_first() =~= qs);
            assert(ps[0] == p);
            if n == 1 {
                assert(args =~= seq![a] + rest);
            } else {
                assert(args =~= seq![a, args[1]] + rest);
            }
            assert(written(ps) =~= args);
            assert forall|i: int| 0 <= i < ps.len() implies fits(#[trigger] ps[i], shape) by {
                if i > 0 {
                    assert(ps[i] == qs[i - 1]);
                    assert(fits(qs[i - 1], left));
                }
            }
        }
    }
}

/// A switch behind a command line is a part more.
pub proof fn lemma_scan_switch(args: Seq<Seq<char>>, shape: Shape, flag: Seq<char>)
    requires
        scanned(args, shape) is Ok,
        scanned(args.push(flag), shape) is Ok,
        "--"@.is_prefix_of(flag),
    ensures
        shape.switches.contains(flag),
        scanned(args.push(flag), shape)->Ok_0 == scanned(args, shape)->Ok_0.push(
            Part::Switch(flag),
        ),
    decreases args.len(),
{
    let more = args.push(flag);
    if args.len() == 0 {
        assert(more.skip(1) =~= seq![]);
        reveal_with_fuel(scanned, 2);
        assert(scanned(more, shape)->Ok_0 =~= seq![Part::Switch(flag)]);
    } else {
        let a = args[0];
        assert(more[0] == a);
        if !shape.switches.contains(a) && shape.options.contains(a) {
            assert(more[1] == args[1]);
            assert(more.skip(2) =~= args.skip(2).push(flag));
            lemma_scan_switch(args.skip(2), shape, flag);
        } else {
            let left = if shape.switches.contains(a) {
                shape
            } else {
                Shape { room: (shape.room - 1) as nat, ..shape }
            };
            assert(more.skip(1) =~= args.skip(1).push(flag));
            lemma_scan_switch(args.skip(1), left, flag);
        }
        assert(scanned(more, shape)->Ok_0 =~= scanned(args, shape)->Ok_0.push(Part::Switch(flag)));
    }
}

/// An option and its value behind a command line are a part more.
pub proof fn lemma_scan_option(args: Seq<Seq<char>>, shape: Shape, o: Seq<char>, v: Seq<char>)
    requires
        scanned(args, shape) is Ok,
        shape.options.contains(o),
        !shape.switches.contains(o),
    ensures
        scanned(args.push(o).push(v), shape) is Ok,
        scanned(args.push(o).push(v), shape)->Ok_0 == scanned(args, shape)->Ok_0.push(
            Part::Value(o, v),
        ),
    decreases args.len(),
{
    let more = args.push(o).push(v);
    if args.len() == 0 {
        assert(more.skip(2) =~= seq![]);
        assert(more[0] == o && more[1] == v);
        reveal_with_fuel(scanned, 2);
        assert(scanned(more, shape)->Ok_0 =~= seq![Part::Value(o, v)]);
    } else {
        let a = args[0];
        assert(more[0] == a);
        if !shape.switches.contains(a) && shape.options.contains(a) {
            assert(more[1] == args[1]);
            assert(more.skip(2) =~= args.skip(2).push(o).push(v));
            lemma_scan_option(args.skip(2), shape, o, v);
        } else {
            let left = if shape.switches.contains(a) {
                shape
            } else {
                Shape { room: (shape.room - 1) as nat, ..shape }
            };
            assert(more.skip(1) =~= args.skip(1).push(o).push(v));
            lemma_scan_option(args.skip(1), left, o, v);
        }
        assert(scanned(more, shape)->Ok_0 =~= scanned(args, shape)->Ok_0.push(Part::Value(o, v)));
    }
}

/// A lone word is accepted, where there is room for one.
pub proof fn lemma_scan_word(w: Seq<char>, shape: Shape)
    requires
        shape.room > 0,
        !shape.switches.contains(w),
        !shape.options.contains(w),
        !"--"@.is_prefix_of(w),
    ensures
        scanned(seq![w], shape) is Ok,
        scanned(seq![w], shape)->Ok_0 == seq![Part::Word(w)],
        words(seq![Part::Word(w)]) == seq![w],
        forall|n: Seq<char>| !(#[trigger] given(seq![Part::Word(w)], n)),
        forall|n: Seq<char>| (#[trigger] values(seq![Part::Word(w)], n)).len() == 0,
{
    let all = seq![w];
    let ps = seq![Part::Word(w)];
    assert(all.skip(1) =~= seq![]);
    reveal_with_fuel(scanned, 2);
    assert(scanned(all, shape)->Ok_0 =~= ps);
    assert(ps.drop_last() =~= seq![]);
    assert(words(ps.drop_last()) =~= seq![]);
    assert(words(ps) =~= seq![w]);
    assert forall|n: Seq<char>| !(#[trigger] given(ps, n)) by {}
    assert forall|n: Seq<char>| (#[trigger] values(ps, n)).len() == 0 by {
        assert(values(ps.drop_last(), n) =~= seq![]);
    }
}

/// What one part more makes of the switches, the options and the words.
pub proof fn lemma_part_push(ps: Seq<Part>, p: Part, name: Seq<char>)
    ensures
        given(ps.push(p), name) == (given(ps, name) || p == Part::Switch(name)),
        values(ps.push(p), name) == match p {
            Part::Value(o, v) => if o == name {
                values(ps, name).push(v)
            } else {
                values(ps, name)
            },
            _ => values(ps, name),
        },
        words(ps.push(p)) == match p {
            Part::Word(w) => words(ps).push(w),
            _ => words(ps),
        },
{
    let more = ps.push(p);
    assert(more.drop_last() =~= ps);
    if ps.contains(Part::Switch(name)) {
        let i = choose|i: int| 0 <= i < ps.len() && ps[i] == Part::Switch(name);
        assert(more[i] == Part::Switch(name));
    }
    if p == Part::Switch(name) {
        assert(more[ps.len() as int] == p);
    }
    if more.contains(Part::Switch(name)) && p != Part::Switch(name) {
        let i = choose|i: int| 0 <= i < more.len() && more[i] == Part::Switch(name);
        assert(ps[i] == Part::Switch(name));
    }
}

} // verus!
