//! `list`, `stop` and `daemon-reload`: what is said of the running kennels.

use crate::cli::tree;
use crate::decimal;
use crate::decimal::{dec_text, parse_u16};
use crate::layout;
use crate::layout::{left_text, push_line, right_text};
use crate::order;
use crate::order::ranking;
use crate::text;
use crate::text::{concat2, concat3, concat5, concat7};
use crate::words;
use vstd::prelude::*;
use vstd::string::*;

verus! {

/// A running kennel.
#[derive(Debug)]
pub struct KennelInfo {
    /// Its name.
    pub kennel: String,
    /// Its context number.
    pub ctx: u16,
    /// The process of its workload.
    pub pid: u32,
    /// Whether its workload runs.
    pub running: bool,
    /// Whether a client is attached.
    pub attached: bool,
}

/// The context of the kennel that asked for the kennel of this name: `spawn-<ctx>-<id>`.
pub open spec fn parent_ctx(name: Seq<char>) -> Option<u16> {
    if !"spawn-"@.is_prefix_of(name) {
        None
    } else {
        match words::cut(name.skip("spawn-"@.len() as int), '-') {
            None => None,
            Some((n, _)) => match decimal::within(decimal::number(n), u16::MAX as nat) {
                Some(v) => Some(v as u16),
                None => None,
            },
        }
    }
}

/// The context of the kennel that asked for the kennel of this name.
pub fn spawn_parent_ctx(name: &str) -> (r: Option<u16>)
    ensures
        r == parent_ctx(name@),
{
    match text::strip_prefix(name, "spawn-") {
        None => None,
        Some(rest) => {
            proof {
                assert("spawn-"@.is_prefix_of(name@)) by {
                    assert(name@.subrange(0, "spawn-"@.len() as int) =~= "spawn-"@);
                }
                assert(rest@ =~= name@.skip("spawn-"@.len() as int));
            }
            match words::split_once(rest, '-') {
                None => None,
                Some((n, _)) => parse_u16(n),
            }
        },
    }
}

/// Whether a kennel of the context runs.
pub open spec fn present(ks: Seq<KennelInfo>, ctx: u16) -> bool {
    exists|i: int| 0 <= i < ks.len() && (#[trigger] ks[i]).ctx == ctx
}

/// The place of the first kennel of the context.
pub open spec fn holder(ks: Seq<KennelInfo>, ctx: u16) -> Option<usize>
    decreases ks.len(),
{
    if ks.len() == 0 {
        None
    } else {
        match holder(ks.drop_last(), ctx) {
            Some(i) => Some(i),
            None => if ks.last().ctx == ctx {
                Some((ks.len() - 1) as usize)
            } else {
                None
            },
        }
    }
}

/// The place of the kennel that asked for this one, where it still runs.
pub open spec fn spawner(ks: Seq<KennelInfo>, k: KennelInfo) -> Option<usize> {
    match parent_ctx(k.kennel@) {
        Some(c) => holder(ks, c),
        None => None,
    }
}

/// What spawned what.
pub open spec fn spawners(ks: Seq<KennelInfo>) -> Seq<Option<usize>> {
    ks.map_values(|k: KennelInfo| spawner(ks, k))
}

/// Whether the kennel was spawned by one that is gone.
pub open spec fn is_orphan(ks: Seq<KennelInfo>, k: KennelInfo) -> bool {
    parent_ctx(k.kennel@) matches Some(c) && !present(ks, c)
}

/// The rows of the listing: the kennel's place among those given, what is drawn before its name,
/// and whether it was spawned by a kennel that is gone.
pub open spec fn rows(ks: Seq<KennelInfo>, order: Seq<usize>) -> Seq<(usize, Seq<char>, bool)> {
    tree::drawing(spawners(ks), order).map_values(
        |r: (usize, Seq<char>)| (r.0, r.1, is_orphan(ks, ks[r.0 as int])),
    )
}

/// The context numbers of kennels.
pub open spec fn ctxs(ks: Seq<KennelInfo>) -> Seq<u16> {
    ks.map_values(|k: KennelInfo| k.ctx)
}

/// Whether `out` lists the kennels as `want` says.
pub open spec fn lists(
    ks: Seq<KennelInfo>,
    out: Seq<(usize, &'static str, bool)>,
    want: Seq<(usize, Seq<char>, bool)>,
) -> bool {
    &&& out.len() == want.len()
    &&& forall|i: int|
        0 <= i < out.len() ==> {
            &&& (#[trigger] out[i]).0 == want[i].0
            &&& out[i].1@ == want[i].1
            &&& out[i].2 == want[i].2
            &&& out[i].0 < ks.len()
        }
}

/// A context's holder is the first kennel of it, and there is one where a kennel of it runs.
pub proof fn lemma_holder(ks: Seq<KennelInfo>, ctx: u16)
    requires
        ks.len() <= usize::MAX,
    ensures
        match holder(ks, ctx) {
            Some(i) => {
                &&& i < ks.len()
                &&& ks[i as int].ctx == ctx
                &&& forall|j: int| 0 <= j < i ==> (#[trigger] ks[j]).ctx != ctx
            },
            None => forall|j: int| 0 <= j < ks.len() ==> (#[trigger] ks[j]).ctx != ctx,
        },
        holder(ks, ctx) is Some <==> present(ks, ctx),
    decreases ks.len(),
{
    if ks.len() > 0 {
        let front = ks.drop_last();
        lemma_holder(front, ctx);
        assert forall|j: int| 0 <= j < ks.len() - 1 implies (#[trigger] ks[j]) == front[j] by {}
        if holder(front, ctx) is Some {
            assert(front[holder(front, ctx)->0 as int].ctx == ctx);
        } else if ks.last().ctx == ctx {
            assert(ks[ks.len() - 1].ctx == ctx);
        }
    }
}

fn find_holder(ks: &[KennelInfo], ctx: u16) -> (r: Option<usize>)
    ensures
        r == holder(ks@, ctx),
{
    let n: usize = ks.len();
    proof {
        lemma_holder(ks@, ctx);
    }
    let mut i: usize = 0;
    while i < n
        invariant
            i <= n,
            n == ks@.len(),
            forall|j: int| 0 <= j < i ==> (#[trigger] ks@[j]).ctx != ctx,
            match holder(ks@, ctx) {
                Some(i) => {
                    &&& i < ks@.len()
                    &&& ks@[i as int].ctx == ctx
                    &&& forall|j: int| 0 <= j < i ==> (#[trigger] ks@[j]).ctx != ctx
                },
                None => forall|j: int| 0 <= j < ks@.len() ==> (#[trigger] ks@[j]).ctx != ctx,
            },
        decreases ks@.len() - i,
    {
        if ks[i].ctx == ctx {
            return Some(i);
        }
        i = i + 1;
    }
    None
}

fn find_spawner(ks: &[KennelInfo], k: &KennelInfo) -> (r: Option<usize>)
    ensures
        r == spawner(ks@, *k),
{
    match spawn_parent_ctx(k.kennel.as_str()) {
        Some(c) => find_holder(ks, c),
        None => None,
    }
}

/// The running kennels as a tree of what spawned what: those that nothing running spawned, by
/// context, and under each kennel those that it spawned, by context. Each row gives the kennel's
/// place in `kennels`, what is drawn before its name, and whether what spawned it is gone.
pub fn topology_rows(kennels: &[KennelInfo]) -> (out: Vec<(usize, &'static str, bool)>)
    ensures
        exists|order: Seq<usize>| #[trigger]
            order::is_ranking(ctxs(kennels@), order) && lists(
                kennels@,
                out@,
                rows(kennels@, order),
            ),
{
    let mut keys: Vec<u16> = Vec::new();
    let mut up: Vec<Option<usize>> = Vec::new();
    let mut k: usize = 0;
    while k < kennels.len()
        invariant
            k <= kennels@.len(),
            keys@ =~= ctxs(kennels@).take(k as int),
            up@ =~= spawners(kennels@).take(k as int),
        decreases kennels@.len() - k,
    {
        keys.push(kennels[k].ctx);
        up.push(find_spawner(kennels, &kennels[k]));
        k = k + 1;
    }
    assert(keys@ =~= ctxs(kennels@));
    assert(up@ =~= spawners(kennels@));
    let p = ranking(keys.as_slice());
    let drawn = tree::draw(up.as_slice(), p.as_slice());
    let ghost want = rows(kennels@, p@);
    let mut out: Vec<(usize, &'static str, bool)> = Vec::new();
    let mut i: usize = 0;
    while i < drawn.len()
        invariant
            i <= drawn@.len(),
            want == rows(kennels@, p@),
            tree::drawn(drawn@) == tree::drawing(spawners(kennels@), p@),
            tree::places_fit(drawn@, spawners(kennels@)),
            out@.len() == i,
            lists(kennels@, out@, want.take(i as int)),
        decreases drawn@.len() - i,
    {
        let ghost row = tree::drawing(spawners(kennels@), p@)[i as int];
        assert(tree::drawn(drawn@)[i as int] == row);
        let (at, mark) = drawn[i];
        let kennel = &kennels[at];
        let orphan = match spawn_parent_ctx(kennel.kennel.as_str()) {
            Some(c) => {
                proof {
                    lemma_holder(kennels@, c);
                }
                find_holder(kennels, c).is_none()
            },
            None => false,
        };
        let ghost was = out@;
        out.push((at, mark, orphan));
        assert(want.take(i + 1) =~= want.take(i as int).push(want[i as int]));
        i = i + 1;
    }
    assert(want.take(want.len() as int) =~= want);
    out
}

/// Where no two kennels have one context and none was spawned, by however many steps, by itself,
/// every kennel has exactly one row. Those that nothing running spawned stand by context, with
/// nothing before their names. Every other one comes after the kennel that spawned it, and is drawn
/// as a branch, which the sibling of the highest context closes. Those whose spawner is gone are
/// marked, and no others.
pub proof fn law_topology_is_a_tree(ks: Seq<KennelInfo>, order: Seq<usize>)
    requires
        ks.len() <= usize::MAX,
        order::is_ranking(ctxs(ks), order),
        forall|i: int, j: int|
            0 <= i < j < ks.len() ==> (#[trigger] ks[i]).ctx != (#[trigger] ks[j]).ctx,
        tree::acyclic(spawners(ks)),
    ensures
        order::is_arrangement(
            rows(ks, order).map_values(|r: (usize, Seq<char>, bool)| r.0),
            ks.len(),
        ),
        forall|n: int|
            0 <= n < rows(ks, order).len() ==> {
                let k = ks[(#[trigger] rows(ks, order)[n]).0 as int];
                &&& rows(ks, order)[n].2 == is_orphan(ks, k)
                &&& (parent_ctx(k.kennel@) is None || is_orphan(ks, k)) ==> rows(ks, order)[n].1
                    == ""@
            },
        forall|a: int, b: int|
            0 <= a < b < rows(ks, order).len() && (#[trigger] rows(ks, order)[a]).1 == ""@ && (
            #[trigger] rows(ks, order)[b]).1 == ""@ ==> ks[rows(ks, order)[a].0 as int].ctx
                < ks[rows(ks, order)[b].0 as int].ctx,
        forall|n: int, p: int|
            0 <= n < rows(ks, order).len() && 0 <= p < ks.len() && parent_ctx(
                ks[(#[trigger] rows(ks, order)[n]).0 as int].kennel@,
            ) == Some((#[trigger] ks[p]).ctx) ==> {
                &&& exists|m: int| 0 <= m < n && (#[trigger] rows(ks, order)[m]).0 == p
                &&& rows(ks, order)[n].1 == if has_higher_sibling(ks, rows(ks, order)[n].0 as int) {
                    "├─ "@
                } else {
                    "└─ "@
                }
            },
{
    let up = spawners(ks);
    let drawing = tree::drawing(up, order);
    let rs = rows(ks, order);
    assert forall|i: int| 0 <= i < up.len() implies match #[trigger] up[i] {
        Some(p) => p < up.len(),
        None => true,
    } by {
        if let Some(c) = parent_ctx(ks[i].kennel@) {
            lemma_holder(ks, c);
        }
    }
    tree::law_every_position_is_drawn_once(up, order);
    let places = drawing.map_values(|r: (usize, Seq<char>)| r.0);
    assert(rs.map_values(|r: (usize, Seq<char>, bool)| r.0) =~= places);
    assert forall|n: int| 0 <= n < rs.len() implies (#[trigger] rs[n]).0 < ks.len() && rs[n].0
        == drawing[n].0 && rs[n].1 == drawing[n].1 by {
        assert(places[n] < ks.len());
    }
    assert forall|n: int| 0 <= n < rs.len() implies (up[(#[trigger] rs[n]).0 as int] is None) == (
    parent_ctx(ks[rs[n].0 as int].kennel@) is None || is_orphan(ks, ks[rs[n].0 as int])) by {
        if let Some(c) = parent_ctx(ks[rs[n].0 as int].kennel@) {
            lemma_holder(ks, c);
        }
    }
    reveal_strlit("");
    reveal_strlit("├─ ");
    reveal_strlit("└─ ");
    assert forall|n: int| 0 <= n < rs.len() implies ((#[trigger] rs[n]).1 == ""@) == (up[rs[n].0 as int] is None) by {
        assert(rs[n].1 == drawing[n].1);
        if up[rs[n].0 as int] is Some {
            assert(tree::follows(up, order, drawing, n));
            assert(rs[n].1.len() == 3);
        }
    }
    assert forall|a: int, b: int|
        0 <= a < b < rs.len() && (#[trigger] rs[a]).1 == ""@ && (#[trigger] rs[b]).1 == ""@ implies ks[rs[a].0 as int].ctx
        < ks[rs[b].0 as int].ctx by {
        let (da, db) = (drawing[a], drawing[b]);
        let (i, j) = choose|i: int, j: int|
            0 <= i < j < order.len() && #[trigger] order[i] == da.0 && #[trigger] order[j] == db.0;
        lemma_ranked(ks, order, i, j);
    }
    assert forall|n: int, p: int|
        0 <= n < rs.len() && 0 <= p < ks.len() && parent_ctx(
            ks[(#[trigger] rs[n]).0 as int].kennel@,
        ) == Some((#[trigger] ks[p]).ctx) implies {
        &&& exists|m: int| 0 <= m < n && (#[trigger] rs[m]).0 == p
        &&& rs[n].1 == if has_higher_sibling(ks, rs[n].0 as int) {
            "├─ "@
        } else {
            "└─ "@
        }
    } by {
        let at = rs[n].0;
        lemma_only_holder(ks, p);
        assert(up[at as int] == Some(p as usize));
        assert(drawing[n].0 == at);
        assert(tree::follows(up, order, drawing, n));
        let m = choose|m: int| 0 <= m < n && (#[trigger] drawing[m]).0 == p as usize;
        assert(rs[m].0 == p);
        lemma_last_sibling(ks, order, at, p as usize);
    }
}

/// Whether another kennel with the same spawner has a higher context.
pub open spec fn has_higher_sibling(ks: Seq<KennelInfo>, i: int) -> bool {
    exists|j: int|
        0 <= j < ks.len() && parent_ctx((#[trigger] ks[j]).kennel@) == parent_ctx(ks[i].kennel@)
            && ks[j].ctx > ks[i].ctx
}

proof fn lemma_ranked(ks: Seq<KennelInfo>, order: Seq<usize>, i: int, j: int)
    requires
        order::is_ranking(ctxs(ks), order),
        forall|i: int, j: int|
            0 <= i < j < ks.len() ==> (#[trigger] ks[i]).ctx != (#[trigger] ks[j]).ctx,
        0 <= i < j < order.len(),
    ensures
        ks[order[i] as int].ctx < ks[order[j] as int].ctx,
{
    let (a, b) = (order[i] as int, order[j] as int);
    assert(order::ranks_before(ctxs(ks), a, b));
    assert(order[i] != order[j]);
    if a < b {
        assert(ks[a].ctx != ks[b].ctx);
    } else {
        assert(ks[b].ctx != ks[a].ctx);
    }
}

/// Where no two kennels have one context, each holds its own.
pub proof fn lemma_only_holder(ks: Seq<KennelInfo>, p: int)
    requires
        ks.len() <= usize::MAX,
        forall|i: int, j: int|
            0 <= i < j < ks.len() ==> (#[trigger] ks[i]).ctx != (#[trigger] ks[j]).ctx,
        0 <= p < ks.len(),
    ensures
        holder(ks, ks[p].ctx) == Some(p as usize),
{
    lemma_holder(ks, ks[p].ctx);
    assert(present(ks, ks[p].ctx));
    let h = holder(ks, ks[p].ctx)->0 as int;
    if h < p {
        assert(ks[h].ctx != ks[p].ctx);
    } else if p < h {
        assert(ks[p].ctx != ks[h].ctx);
    }
}

/// The last of the kennels that one spawned is the one of the highest context.
proof fn lemma_last_sibling(ks: Seq<KennelInfo>, order: Seq<usize>, at: usize, p: usize)
    requires
        ks.len() <= usize::MAX,
        order::is_ranking(ctxs(ks), order),
        forall|i: int, j: int|
            0 <= i < j < ks.len() ==> (#[trigger] ks[i]).ctx != (#[trigger] ks[j]).ctx,
        at < ks.len(),
        p < ks.len(),
        parent_ctx(ks[at as int].kennel@) == Some(ks[p as int].ctx),
    ensures
        (tree::kids(spawners(ks), order, Some(p)).last() == at) == !has_higher_sibling(
            ks,
            at as int,
        ),
{
    let up = spawners(ks);
    let list = tree::kids(up, order, Some(p));
    lemma_only_holder(ks, p as int);
    tree::lemma_kids(up, order, Some(p));
    let before = |a: usize, b: usize| ks[a as int].ctx < ks[b as int].ctx;
    assert forall|i: int, j: int| 0 <= i < j < order.len() implies before(
        #[trigger] order[i],
        #[trigger] order[j],
    ) by {
        lemma_ranked(ks, order, i, j);
    }
    tree::lemma_kids_in_order(up, order, Some(p), before);
    order::lemma_in_arrangement(order, ks.len(), at);
    assert(list.contains(at));
    let n = choose|n: int| 0 <= n < list.len() && list[n] == at;
    let last = list[list.len() - 1];
    if last != at {
        assert(before(list[n], list[list.len() - 1]));
        assert(order.contains(last) && up[last as int] == Some(p));
        let i = choose|i: int| 0 <= i < order.len() && order[i] == last;
        assert(order[i] < ks.len());
        let c = parent_ctx(ks[last as int].kennel@)->0;
        lemma_holder(ks, c);
        assert(parent_ctx(ks[last as int].kennel@) == parent_ctx(ks[at as int].kennel@));
        assert(has_higher_sibling(ks, at as int));
    } else if has_higher_sibling(ks, at as int) {
        let j = choose|j: int|
            0 <= j < ks.len() && parent_ctx((#[trigger] ks[j]).kennel@) == parent_ctx(
                ks[at as int].kennel@,
            ) && ks[j].ctx > ks[at as int].ctx;
        order::lemma_in_arrangement(order, ks.len(), j as usize);
        assert(up[j] == Some(p));
        assert(list.contains(j as usize));
        let m = choose|m: int| 0 <= m < list.len() && list[m] == j as usize;
        if m < list.len() - 1 {
            assert(before(list[m], list[list.len() - 1]));
        }
    }
}

/// The row of a kennel as text.
pub open spec fn row_text(k: KennelInfo, prefix: Seq<char>, orphan: bool) -> Seq<char> {
    layout::left(prefix + k.kennel@, 32) + " "@ + layout::right(decimal::dec(k.ctx as nat), 5) + " "@
        + layout::right(decimal::dec(k.pid as nat), 8) + "  "@ + layout::left(
        if k.running {
            "running"@
        } else {
            "starting"@
        },
        8,
    ) + " "@ + (if k.attached {
        "attached"@
    } else {
        "detached"@
    }) + (if orphan {
        "  (orphan spawn)"@
    } else {
        ""@
    })
}

/// The row of a kennel as text.
pub fn print_row(k: &KennelInfo, prefix: &str, orphan: bool) -> (r: String)
    ensures
        r@ == row_text(*k, prefix@, orphan),
{
    let name = left_text(concat2(prefix, k.kennel.as_str()).as_str(), 32);
    let ctx = right_text(dec_text(k.ctx as u64).as_str(), 5);
    let pid = right_text(dec_text(k.pid as u64).as_str(), 8);
    let state = left_text(
        if k.running {
            "running"
        } else {
            "starting"
        },
        8,
    );
    let a = concat7(name.as_str(), " ", ctx.as_str(), " ", pid.as_str(), "  ", state.as_str());
    concat2(
        concat3(
            a.as_str(),
            " ",
            if k.attached {
                "attached"
            } else {
                "detached"
            },
        ).as_str(),
        if orphan {
            "  (orphan spawn)"
        } else {
            ""
        },
    )
}

/// What is said after a reload, with the number of capabilities in the catalogue.
pub fn reloaded_text(catalogued: u64) -> (r: String)
    ensures
        r@ == "reloaded: "@ + decimal::dec(catalogued as nat) + " catalogued capabilit"@ + (if catalogued
            == 1 {
            "y"@
        } else {
            "ies"@
        }),
{
    let n = dec_text(catalogued);
    text::concat4(
        "reloaded: ",
        n.as_str(),
        " catalogued capabilit",
        if catalogued == 1 {
            "y"
        } else {
            "ies"
        },
    )
}

/// A provider of a capability.
#[derive(Debug)]
pub struct MeshProvider {
    /// The capability.
    pub capability: String,
    /// The kennel that provides it.
    pub provider: String,
    /// Whether it is ready.
    pub readiness: String,
    /// What it looks like.
    pub shape: String,
    /// Whether it is enabled.
    pub enablement: String,
    /// The tier that declares it.
    pub tier: String,
}

/// The row of a provider as text.
pub open spec fn mesh_row(
    capability: Seq<char>,
    provider: Seq<char>,
    readiness: Seq<char>,
    shape: Seq<char>,
    enablement: Seq<char>,
    tier: Seq<char>,
) -> Seq<char> {
    layout::left(capability, 32) + " "@ + layout::left(provider, 16) + " "@ + layout::left(
        readiness,
        9,
    ) + " "@ + layout::left(shape, 11) + " "@ + layout::left(enablement, 9) + " "@ + layout::left(
        tier,
        5,
    )
}

fn mesh_line(a: &str, b: &str, c: &str, d: &str, e: &str, f: &str) -> (r: String)
    ensures
        r@ == mesh_row(a@, b@, c@, d@, e@, f@),
{
    let a = left_text(a, 32);
    let b = left_text(b, 16);
    let c = left_text(c, 9);
    let d = left_text(d, 11);
    let e = left_text(e, 9);
    let f = left_text(f, 5);
    let head = concat7(a.as_str(), " ", b.as_str(), " ", c.as_str(), " ", d.as_str());
    concat5(head.as_str(), " ", e.as_str(), " ", f.as_str())
}

/// The row of a provider.
pub open spec fn provider_row(m: MeshProvider) -> Seq<char> {
    mesh_row(m.capability@, m.provider@, m.readiness@, m.shape@, m.enablement@, m.tier@)
}

/// The keys by which providers are sorted.
pub open spec fn mesh_keys(ms: Seq<MeshProvider>, keys: Seq<(String, String)>) -> bool {
    &&& keys.len() == ms.len()
    &&& forall|i: int|
        0 <= i < keys.len() ==> (#[trigger] keys[i]).0@ == ms[i].capability@ && keys[i].1@
            == ms[i].provider@
}

/// The table of the providers, by capability and then by provider.
pub fn print_mesh(providers: &[MeshProvider]) -> (out: Vec<String>)
    ensures
        exists|keys: Seq<(String, String)>, p: Seq<usize>|
            {
                &&& mesh_keys(providers@, keys)
                &&& #[trigger] order::is_ranking(keys, p)
                &&& text::texts(out@) == seq![
                    mesh_row(
                        "CAPABILITY"@,
                        "PROVIDER"@,
                        "READINESS"@,
                        "SHAPE"@,
                        "ENABLE"@,
                        "TIER"@,
                    ),
                ] + p.map_values(|i: usize| provider_row(providers@[i as int]))
            },
{
    let mut keys: Vec<(String, String)> = Vec::new();
    let mut k: usize = 0;
    while k < providers.len()
        invariant
            k <= providers@.len(),
            keys@.len() == k,
            forall|i: int|
                0 <= i < k ==> (#[trigger] keys@[i]).0@ == providers@[i].capability@
                    && keys@[i].1@ == providers@[i].provider@,
        decreases providers@.len() - k,
    {
        keys.push((providers[k].capability.clone(), providers[k].provider.clone()));
        k = k + 1;
    }
    let p = ranking(keys.as_slice());
    let ghost body = p@.map_values(|i: usize| provider_row(providers@[i as int]));
    let ghost head = mesh_row(
        "CAPABILITY"@,
        "PROVIDER"@,
        "READINESS"@,
        "SHAPE"@,
        "ENABLE"@,
        "TIER"@,
    );
    let mut out: Vec<String> = Vec::new();
    push_line(
        &mut out,
        mesh_line("CAPABILITY", "PROVIDER", "READINESS", "SHAPE", "ENABLE", "TIER"),
    );
    let mut i: usize = 0;
    assert(text::texts(out@) =~= seq![head] + body.take(0));
    while i < p.len()
        invariant
            i <= p@.len(),
            keys@.len() == providers@.len(),
            order::is_ranking(keys@, p@),
            body == p@.map_values(|i: usize| provider_row(providers@[i as int])),
            text::texts(out@) == seq![head] + body.take(i as int),
        decreases p@.len() - i,
    {
        let m = &providers[p[i]];
        push_line(
            &mut out,
            mesh_line(
                m.capability.as_str(),
                m.provider.as_str(),
                m.readiness.as_str(),
                m.shape.as_str(),
                m.enablement.as_str(),
                m.tier.as_str(),
            ),
        );
        i = i + 1;
        assert(text::texts(out@) =~= seq![head] + body.take(i as int));
    }
    proof {
        assert(body.take(body.len() as int) =~= body);
        assert(mesh_keys(providers@, keys@));
    }
    out
}

/// The table of the running kennels.
pub fn print_topology(kennels: &[KennelInfo]) -> (out: Vec<String>)
    ensures
        exists|order: Seq<usize>|
            {
                &&& #[trigger] order::is_ranking(ctxs(kennels@), order)
                &&& text::texts(out@) == seq![
                    layout::left("NAME"@, 32) + " "@ + layout::right("CTX"@, 5) + " "@
                        + layout::right("PID"@, 8) + "  "@ + layout::left("STATE"@, 8)
                        + " CLIENT"@,
                ] + rows(kennels@, order).map_values(
                    |r: (usize, Seq<char>, bool)| row_text(kennels@[r.0 as int], r.1, r.2),
                )
            },
{
    let list = topology_rows(kennels);
    let ghost order = choose|order: Seq<usize>| #[trigger]
        order::is_ranking(ctxs(kennels@), order) && lists(
            kennels@,
            list@,
            rows(kennels@, order),
        );
    let ghost want = rows(kennels@, order);
    let ghost body = want.map_values(
        |r: (usize, Seq<char>, bool)| row_text(kennels@[r.0 as int], r.1, r.2),
    );
    let a = left_text("NAME", 32);
    let b = right_text("CTX", 5);
    let c = right_text("PID", 8);
    let d = left_text("STATE", 8);
    let head = concat2(
        concat7(a.as_str(), " ", b.as_str(), " ", c.as_str(), "  ", d.as_str()).as_str(),
        " CLIENT",
    );
    let ghost top = head@;
    let mut out: Vec<String> = Vec::new();
    push_line(&mut out, head);
    let mut i: usize = 0;
    assert(text::texts(out@) =~= seq![top] + body.take(0));
    while i < list.len()
        invariant
            i <= list@.len(),
            lists(kennels@, list@, want),
            body == want.map_values(
                |r: (usize, Seq<char>, bool)| row_text(kennels@[r.0 as int], r.1, r.2),
            ),
            text::texts(out@) == seq![top] + body.take(i as int),
        decreases list@.len() - i,
    {
        let (at, prefix, orphan) = list[i];
        assert(list@[i as int].0 == want[i as int].0);
        push_line(&mut out, print_row(&kennels[at], prefix, orphan));
        i = i + 1;
        assert(text::texts(out@) =~= seq![top] + body.take(i as int));
    }
    assert(body.take(body.len() as int) =~= body);
    out
}

// ---- what holds of the whole ----------------------------------------------------

/// A kennel that another one spawned names the context of that one.
pub proof fn law_spawned_kennel_names_its_spawner(
    name: &str,
    r: Option<u16>,
    ctx: u16,
    rest: Seq<char>,
)
    requires
        call_ensures(spawn_parent_ctx, (name,), r),
    ensures
        name@ == "spawn-"@ + decimal::dec(ctx as nat) + seq!['-'] + rest ==> r == Some(ctx),
        r is Some ==> "spawn-"@.is_prefix_of(name@),
{
    if name@ == "spawn-"@ + decimal::dec(ctx as nat) + seq!['-'] + rest {
        let p = "spawn-"@;
        let d = decimal::dec(ctx as nat);
        assert(name@.subrange(0, p.len() as int) =~= p);
        let t = name@.skip(p.len() as int);
        assert(t =~= d + seq!['-'] + rest);
        decimal::lemma_dec_digits(ctx as nat);
        decimal::law_number_reads_dec(ctx as nat);
        assert forall|j: int| 0 <= j < d.len() implies t[j] != '-' by {
            assert(t[j] == d[j]);
            assert(text::is_dig(d[j]));
        }
        assert(t[d.len() as int] == '-');
        text::lemma_until_is(t, '-', d.len() as int);
        assert(t.take(d.len() as int) =~= d);
    }
}

/// The parts of a row, each behind the one before.
pub open spec fn row_parts(k: KennelInfo, prefix: Seq<char>, orphan: bool) -> Seq<Seq<char>> {
    seq![
        layout::left(prefix + k.kennel@, 32),
        layout::right(decimal::dec(k.ctx as nat), 5),
        layout::right(decimal::dec(k.pid as nat), 8),
        layout::left(
            if k.running {
                "running"@
            } else {
                "starting"@
            },
            8,
        ),
        if k.attached {
            "attached"@
        } else {
            "detached"@
        },
    ]
}

proof fn lemma_row(k: KennelInfo, prefix: Seq<char>, orphan: bool, p: Seq<char>)
    requires
        exists|i: int| 0 <= i < 5 && text::holds(#[trigger] row_parts(k, prefix, orphan)[i], p),
    ensures
        text::holds(row_text(k, prefix, orphan), p),
{
    let w = row_parts(k, prefix, orphan);
    let i = choose|i: int| 0 <= i < 5 && text::holds(#[trigger] row_parts(k, prefix, orphan)[i], p);
    let e = if orphan {
        "  (orphan spawn)"@
    } else {
        ""@
    };
    let a1 = w[0] + " "@;
    let a2 = a1 + w[1];
    let a3 = a2 + " "@;
    let a4 = a3 + w[2];
    let a5 = a4 + "  "@;
    let a6 = a5 + w[3];
    let a7 = a6 + " "@;
    let a8 = a7 + w[4];
    assert(row_text(k, prefix, orphan) == a8 + e);
    if i == 0 {
        text::lemma_held_in_either(w[0], " "@, p);
    }
    if i <= 1 {
        text::lemma_held_in_either(a1, w[1], p);
        text::lemma_held_in_either(a2, " "@, p);
    }
    if i <= 2 {
        text::lemma_held_in_either(a3, w[2], p);
        text::lemma_held_in_either(a4, "  "@, p);
    }
    if i <= 3 {
        text::lemma_held_in_either(a5, w[3], p);
        text::lemma_held_in_either(a6, " "@, p);
    }
    text::lemma_held_in_either(a7, w[4], p);
    text::lemma_held_in_either(a8, e, p);
}

/// A row tells the name, the context and the process of its kennel, and what state it is in.
pub proof fn law_row_tells_its_kennel(k: &KennelInfo, prefix: &str, orphan: bool, r: String)
    requires
        call_ensures(print_row, (k, prefix, orphan), r),
    ensures
        text::holds(r@, prefix@ + k.kennel@),
        text::holds(r@, decimal::dec(k.ctx as nat)),
        text::holds(r@, decimal::dec(k.pid as nat)),
        k.running ==> text::holds(r@, "running"@),
        !k.running ==> text::holds(r@, "starting"@),
        k.attached ==> text::holds(r@, "attached"@),
        !k.attached ==> text::holds(r@, "detached"@),
{
    let w = row_parts(*k, prefix@, orphan);
    let n = prefix@ + k.kennel@;
    let c = decimal::dec(k.ctx as nat);
    let d = decimal::dec(k.pid as nat);
    let st = if k.running {
        "running"@
    } else {
        "starting"@
    };
    text::lemma_held_at_an_end(n, layout::spaces(32 - n.len()));
    assert(text::holds(w[0], n));
    lemma_row(*k, prefix@, orphan, n);
    text::lemma_held_at_an_end(c, layout::spaces(5 - c.len()));
    assert(text::holds(w[1], c));
    lemma_row(*k, prefix@, orphan, c);
    text::lemma_held_at_an_end(d, layout::spaces(8 - d.len()));
    assert(text::holds(w[2], d));
    lemma_row(*k, prefix@, orphan, d);
    text::lemma_held_at_an_end(st, layout::spaces(8 - st.len()));
    assert(text::holds(w[3], st));
    lemma_row(*k, prefix@, orphan, st);
    text::lemma_held_at_an_end(w[4], seq![]);
    assert(text::holds(w[4], w[4]));
    lemma_row(*k, prefix@, orphan, w[4]);
}

proof fn lemma_provider_row(m: MeshProvider)
    ensures
        text::holds(provider_row(m), m.capability@),
        text::holds(provider_row(m), m.provider@),
{
    let a = layout::left(m.capability@, 32);
    let b = layout::left(m.provider@, 16);
    let c = layout::left(m.readiness@, 9);
    let d = layout::left(m.shape@, 11);
    let e = layout::left(m.enablement@, 9);
    let f = layout::left(m.tier@, 5);
    let x2 = a + " "@ + b;
    let x4 = x2 + " "@ + c;
    let x6 = x4 + " "@ + d;
    let x8 = x6 + " "@ + e;
    assert(provider_row(m) == x8 + " "@ + f);
    text::lemma_held_at_an_end(m.capability@, layout::spaces(32 - m.capability@.len()));
    text::lemma_held_at_an_end(m.provider@, layout::spaces(16 - m.provider@.len()));
    text::lemma_held_in_either(a, " "@, m.capability@);
    text::lemma_held_in_either(a + " "@, b, m.capability@);
    text::lemma_held_in_either(a + " "@, b, m.provider@);
    lemma_behind(x2, " "@, c, m.capability@);
    lemma_behind(x2, " "@, c, m.provider@);
    lemma_behind(x4, " "@, d, m.capability@);
    lemma_behind(x4, " "@, d, m.provider@);
    lemma_behind(x6, " "@, e, m.capability@);
    lemma_behind(x6, " "@, e, m.provider@);
    lemma_behind(x8, " "@, f, m.capability@);
    lemma_behind(x8, " "@, f, m.provider@);
}

proof fn lemma_behind(a: Seq<char>, b: Seq<char>, c: Seq<char>, p: Seq<char>)
    requires
        text::holds(a, p),
    ensures
        text::holds(a + b + c, p),
{
    text::lemma_held_in_either(a, b, p);
    text::lemma_held_in_either(a + b, c, p);
}

/// Each provider has a row of its own, below the heading.
pub proof fn law_every_provider_has_a_row(providers: &[MeshProvider], out: Vec<String>, i: int)
    requires
        call_ensures(print_mesh, (providers,), out),
        0 <= i < providers@.len() <= usize::MAX,
    ensures
        out@.len() == providers@.len() + 1,
        text::told(text::texts(out@), providers@[i].capability@),
        text::told(text::texts(out@), providers@[i].provider@),
{
    let head = mesh_row(
        "CAPABILITY"@,
        "PROVIDER"@,
        "READINESS"@,
        "SHAPE"@,
        "ENABLE"@,
        "TIER"@,
    );
    let (keys, p) = choose|keys: Seq<(String, String)>, p: Seq<usize>|
        {
            &&& mesh_keys(providers@, keys)
            &&& #[trigger] order::is_ranking(keys, p)
            &&& text::texts(out@) == seq![head] + p.map_values(
                |i: usize| provider_row(providers@[i as int]),
            )
        };
    order::lemma_in_arrangement(p, providers@.len(), i as usize);
    let k = choose|k: int| 0 <= k < p.len() && p[k] == i as usize;
    let all = text::texts(out@);
    assert(all.len() == out@.len());
    assert(all[k + 1] == provider_row(providers@[i]));
    lemma_provider_row(providers@[i]);
    assert(text::holds(all[k + 1], providers@[i].capability@));
    assert(text::holds(all[k + 1], providers@[i].provider@));
}

} // verus!
