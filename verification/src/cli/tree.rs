//! Trees drawn as rows: what stands under what, each level in a given order.
//!
//! `up[i]` is the position that position `i` stands under, where there is one. The rows go down
//! from the positions that stand under none, and each position is followed by what stands under
//! it.

use crate::order;
use vstd::prelude::*;

verus! {

/// What is drawn before a row: nothing at the top; below it, a branch that the last one closes.
pub open spec fn mark(top: bool, last: bool) -> Seq<char> {
    if top {
        ""@
    } else if last {
        "└─ "@
    } else {
        "├─ "@
    }
}

fn mark_text(top: bool, last: bool) -> (r: &'static str)
    ensures
        r@ == mark(top, last),
{
    if top {
        ""
    } else if last {
        "└─ "
    } else {
        "├─ "
    }
}

/// The positions of `order` that stand directly under `at`; under none, for `None`.
pub open spec fn kids(up: Seq<Option<usize>>, order: Seq<usize>, at: Option<usize>) -> Seq<usize>
    decreases order.len(),
{
    if order.len() == 0 {
        seq![]
    } else if up[order.last() as int] == at {
        kids(up, order.drop_last(), at).push(order.last())
    } else {
        kids(up, order.drop_last(), at)
    }
}

/// The rows of a position and of what stands under it, down to `depth` levels below it.
pub open spec fn branch(
    up: Seq<Option<usize>>,
    order: Seq<usize>,
    at: usize,
    drawn: Seq<char>,
    depth: nat,
) -> Seq<(usize, Seq<char>)>
    decreases depth, 0nat,
{
    if depth == 0 {
        seq![(at, drawn)]
    } else {
        let list = kids(up, order, Some(at));
        seq![(at, drawn)] + branches(up, order, list, false, list.len(), (depth - 1) as nat)
    }
}

/// The rows of the first `n` of the siblings in `list`, each with what stands under it.
pub open spec fn branches(
    up: Seq<Option<usize>>,
    order: Seq<usize>,
    list: Seq<usize>,
    top: bool,
    n: nat,
    depth: nat,
) -> Seq<(usize, Seq<char>)>
    decreases depth, n,
{
    if n == 0 {
        seq![]
    } else {
        branches(up, order, list, top, (n - 1) as nat, depth) + branch(
            up,
            order,
            list[n - 1],
            mark(top, n == list.len()),
            depth,
        )
    }
}

/// All the rows. No position stands deeper than there are positions.
pub open spec fn drawing(up: Seq<Option<usize>>, order: Seq<usize>) -> Seq<(usize, Seq<char>)> {
    let tops = kids(up, order, None);
    branches(up, order, tops, true, tops.len(), up.len())
}

/// Whether every position stands under a position, if under anything.
pub open spec fn well_linked(up: Seq<Option<usize>>) -> bool {
    forall|i: int| 0 <= i < up.len() ==> match #[trigger] up[i] {
        Some(p) => p < up.len(),
        None => true,
    }
}

/// The rows as they are drawn.
pub open spec fn drawn(out: Seq<(usize, &'static str)>) -> Seq<(usize, Seq<char>)> {
    out.map_values(|r: (usize, &'static str)| (r.0, r.1@))
}

/// Whether every row is the row of a position.
pub open spec fn places_fit(out: Seq<(usize, &'static str)>, up: Seq<Option<usize>>) -> bool {
    forall|i: int| 0 <= i < out.len() ==> (#[trigger] out[i]).0 < up.len()
}

fn find_kids(up: &[Option<usize>], order: &[usize], at: Option<usize>) -> (out: Vec<usize>)
    requires
        forall|i: int| 0 <= i < order@.len() ==> (#[trigger] order@[i]) < up@.len(),
    ensures
        out@ == kids(up@, order@, at),
        forall|i: int| 0 <= i < out@.len() ==> (#[trigger] out@[i]) < up@.len(),
{
    let mut out: Vec<usize> = Vec::new();
    let mut i: usize = 0;
    assert(order@.take(0) =~= seq![]);
    while i < order.len()
        invariant
            i <= order@.len(),
            forall|i: int| 0 <= i < order@.len() ==> (#[trigger] order@[i]) < up@.len(),
            out@ == kids(up@, order@.take(i as int), at),
            forall|i: int| 0 <= i < out@.len() ==> (#[trigger] out@[i]) < up@.len(),
        decreases order@.len() - i,
    {
        proof {
            assert(order@.take(i + 1).drop_last() =~= order@.take(i as int));
            assert(order@.take(i + 1).last() == order@[i as int]);
        }
        let hit = match (up[order[i]], at) {
            (None, None) => true,
            (Some(a), Some(b)) => a == b,
            _ => false,
        };
        if hit {
            out.push(order[i]);
        }
        i = i + 1;
    }
    assert(order@.take(order@.len() as int) =~= order@);
    out
}

fn push_branch(
    up: &[Option<usize>],
    order: &[usize],
    at: usize,
    mark: &'static str,
    depth: usize,
    out: &mut Vec<(usize, &'static str)>,
)
    requires
        forall|i: int| 0 <= i < order@.len() ==> (#[trigger] order@[i]) < up@.len(),
        at < up@.len(),
        places_fit(old(out)@, up@),
    ensures
        places_fit(final(out)@, up@),
        drawn(final(out)@) == drawn(old(out)@) + branch(up@, order@, at, mark@, depth as nat),
    decreases depth, 0nat,
{
    let ghost before = drawn(out@);
    out.push((at, mark));
    assert(drawn(out@) =~= before + seq![(at, mark@)]);
    if depth > 0 {
        let list = find_kids(up, order, Some(at));
        push_branches(up, order, list.as_slice(), false, depth - 1, out);
        assert(drawn(out@) =~= before + branch(up@, order@, at, mark@, depth as nat));
    }
}

fn push_branches(
    up: &[Option<usize>],
    order: &[usize],
    list: &[usize],
    top: bool,
    depth: usize,
    out: &mut Vec<(usize, &'static str)>,
)
    requires
        forall|i: int| 0 <= i < order@.len() ==> (#[trigger] order@[i]) < up@.len(),
        forall|i: int| 0 <= i < list@.len() ==> (#[trigger] list@[i]) < up@.len(),
        places_fit(old(out)@, up@),
    ensures
        places_fit(final(out)@, up@),
        drawn(final(out)@) == drawn(old(out)@) + branches(
            up@,
            order@,
            list@,
            top,
            list@.len(),
            depth as nat,
        ),
    decreases depth, 1nat,
{
    let ghost before = drawn(out@);
    let mut i: usize = 0;
    assert(before =~= before + branches(up@, order@, list@, top, 0, depth as nat));
    while i < list.len()
        invariant
            i <= list@.len(),
            forall|i: int| 0 <= i < order@.len() ==> (#[trigger] order@[i]) < up@.len(),
            forall|i: int| 0 <= i < list@.len() ==> (#[trigger] list@[i]) < up@.len(),
            places_fit(out@, up@),
            drawn(out@) == before + branches(up@, order@, list@, top, i as nat, depth as nat),
        decreases list@.len() - i,
    {
        let m = mark_text(top, i + 1 == list.len());
        push_branch(up, order, list[i], m, depth, out);
        i = i + 1;
        assert(drawn(out@) =~= before + branches(
            up@,
            order@,
            list@,
            top,
            i as nat,
            depth as nat,
        ));
    }
}

/// All the rows.
pub fn draw(up: &[Option<usize>], order: &[usize]) -> (out: Vec<(usize, &'static str)>)
    requires
        forall|i: int| 0 <= i < order@.len() ==> (#[trigger] order@[i]) < up@.len(),
    ensures
        drawn(out@) == drawing(up@, order@),
        places_fit(out@, up@),
{
    let mut out: Vec<(usize, &'static str)> = Vec::new();
    let tops = find_kids(up, order, None);
    push_branches(up, order, tops.as_slice(), true, up.len(), &mut out);
    assert(drawn(out@) =~= drawing(up@, order@));
    out
}

// ---- levels --------------------------------------------------------------------

/// Whether the position stands `level` steps below one that stands under none.
pub open spec fn at_level(up: Seq<Option<usize>>, at: usize, level: nat) -> bool
    decreases level,
{
    match up[at as int] {
        None => level == 0,
        Some(p) => level > 0 && at_level(up, p, (level - 1) as nat),
    }
}

/// What the position stands under by `n` steps.
pub open spec fn above(up: Seq<Option<usize>>, at: usize, n: nat) -> Option<usize>
    decreases n,
{
    if n == 0 {
        Some(at)
    } else {
        match up[at as int] {
            None => None,
            Some(p) => above(up, p, (n - 1) as nat),
        }
    }
}

/// Whether nothing stands, by however many steps, under itself.
pub open spec fn acyclic(up: Seq<Option<usize>>) -> bool {
    forall|at: usize, n: nat|
        at < up.len() && n > 0 ==> #[trigger] above(up, at, n) != Some(at)
}

proof fn lemma_above_steps(up: Seq<Option<usize>>, at: usize, a: nat, b: nat)
    requires
        above(up, at, a) is Some,
    ensures
        above(up, at, a + b) == above(up, above(up, at, a)->0, b),
    decreases a,
{
    if a > 0 {
        lemma_above_steps(up, up[at as int]->0, (a - 1) as nat, b);
    }
}

/// Going up from a position passes positions only.
proof fn lemma_above_fits(up: Seq<Option<usize>>, at: usize, n: nat)
    requires
        well_linked(up),
        at < up.len(),
    ensures
        above(up, at, n) matches Some(p) ==> p < up.len(),
    decreases n,
{
    if n > 0 && up[at as int] is Some {
        lemma_above_fits(up, up[at as int]->0, (n - 1) as nat);
    }
}

/// Where going up ends, there is a level.
proof fn lemma_level_ends(up: Seq<Option<usize>>, at: usize, n: nat) -> (level: nat)
    requires
        above(up, at, n) is None,
    ensures
        at_level(up, at, level),
    decreases n,
{
    match up[at as int] {
        None => 0,
        Some(p) => {
            let l = lemma_level_ends(up, p, (n - 1) as nat);
            l + 1
        },
    }
}

/// Where nothing stands under itself, going up ends everywhere.
proof fn lemma_has_level(up: Seq<Option<usize>>, at: usize) -> (level: nat)
    requires
        well_linked(up),
        acyclic(up),
        at < up.len(),
    ensures
        at_level(up, at, level),
{
    let n = up.len();
    if above(up, at, n) is Some {
        let chain = Seq::new(n + 1, |i: int| above(up, at, i as nat)->0 as int);
        assert forall|i: int| 0 <= i < chain.len() implies above(up, at, i as nat) is Some
            && 0 <= #[trigger] chain[i] < n by {
            if above(up, at, i as nat) is None {
                lemma_stays_none(up, at, i as nat, n);
            }
            lemma_above_fits(up, at, i as nat);
        }
        assert forall|i: int, j: int| 0 <= i < j < chain.len() implies chain[i] != chain[j] by {
            if chain[i] == chain[j] {
                let x = above(up, at, i as nat)->0;
                lemma_above_steps(up, at, i as nat, (j - i) as nat);
                lemma_above_fits(up, at, i as nat);
                assert(above(up, x, (j - i) as nat) != Some(x));
            }
        }
        assert(chain.no_duplicates());
        chain.unique_seq_to_set();
        let all = vstd::set_lib::set_int_range(0, n as int);
        vstd::set_lib::lemma_int_range(0, n as int);
        assert(chain.to_set().subset_of(all)) by {
            assert forall|v: int| chain.to_set().contains(v) implies all.contains(v) by {
                let i = choose|i: int| 0 <= i < chain.len() && chain[i] == v;
                assert(0 <= chain[i] < n);
            }
        }
        vstd::set_lib::lemma_len_subset(chain.to_set(), all);
        assert(false);
        0
    } else {
        let level = lemma_level_ends(up, at, n);
        level
    }
}

/// Whether going up from the position ends at one that stands under none.
pub open spec fn has_level(up: Seq<Option<usize>>, at: usize) -> bool {
    exists|level: nat| #[trigger] at_level(up, at, level)
}

proof fn lemma_above_level(up: Seq<Option<usize>>, at: usize, n: nat, level: nat)
    requires
        at_level(up, at, level),
        above(up, at, n) is Some,
    ensures
        n <= level,
        at_level(up, above(up, at, n)->0, (level - n) as nat),
    decreases n,
{
    if n > 0 {
        lemma_above_level(up, up[at as int]->0, (n - 1) as nat, (level - 1) as nat);
    }
}

/// Nothing stands under itself just where going up ends everywhere.
pub proof fn law_no_cycle_is_levels(up: Seq<Option<usize>>)
    requires
        well_linked(up),
    ensures
        acyclic(up) <==> forall|at: usize| at < up.len() ==> #[trigger] has_level(up, at),
{
    if acyclic(up) {
        assert forall|at: usize| at < up.len() implies #[trigger] has_level(up, at) by {
            let level = lemma_has_level(up, at);
        }
    }
    if forall|at: usize| at < up.len() ==> #[trigger] has_level(up, at) {
        assert forall|at: usize, n: nat| at < up.len() && n > 0 implies #[trigger] above(up, at, n)
            != Some(at) by {
            assert(has_level(up, at));
            let level = choose|level: nat| #[trigger] at_level(up, at, level);
            if above(up, at, n) == Some(at) {
                lemma_above_level(up, at, n, level);
                lemma_level_unique(up, at, level, (level - n) as nat);
            }
        }
    }
}

proof fn lemma_stays_none(up: Seq<Option<usize>>, at: usize, a: nat, b: nat)
    requires
        above(up, at, a) is None,
        a <= b,
    ensures
        above(up, at, b) is None,
    decreases a,
{
    if up[at as int] is Some {
        lemma_stays_none(up, up[at as int]->0, (a - 1) as nat, (b - 1) as nat);
    }
}

/// Whether `at` is `over`, or stands under it by at most `depth` steps.
pub open spec fn under(up: Seq<Option<usize>>, at: usize, over: usize, depth: nat) -> bool
    decreases depth,
{
    at == over || (depth > 0 && (up[at as int] matches Some(p) && under(
        up,
        p,
        over,
        (depth - 1) as nat,
    )))
}

proof fn lemma_level_unique(up: Seq<Option<usize>>, at: usize, a: nat, b: nat)
    requires
        at_level(up, at, a),
        at_level(up, at, b),
    ensures
        a == b,
    decreases a,
{
    if let Some(p) = up[at as int] {
        lemma_level_unique(up, p, (a - 1) as nat, (b - 1) as nat);
    }
}

/// What stands under a position has a level, a deeper one unless it is that position.
proof fn lemma_level_under(
    up: Seq<Option<usize>>,
    at: usize,
    over: usize,
    depth: nat,
    level: nat,
) -> (deep: nat)
    requires
        under(up, at, over, depth),
        at_level(up, over, level),
    ensures
        at_level(up, at, deep),
        deep >= level,
        at != over ==> deep > level,
    decreases depth,
{
    if at == over {
        level
    } else {
        let p = up[at as int]->0;
        let d = lemma_level_under(up, p, over, (depth - 1) as nat, level);
        d + 1
    }
}

/// A position stands under at most one position of each level.
proof fn lemma_one_over(
    up: Seq<Option<usize>>,
    at: usize,
    a: usize,
    b: usize,
    depth: nat,
    level: nat,
)
    requires
        under(up, at, a, depth),
        under(up, at, b, depth),
        at_level(up, a, level),
        at_level(up, b, level),
    ensures
        a == b,
    decreases depth,
{
    if at == a && at != b {
        let d = lemma_level_under(up, at, b, depth, level);
        lemma_level_unique(up, at, d, level);
    } else if at == b && at != a {
        let d = lemma_level_under(up, at, a, depth, level);
        lemma_level_unique(up, at, d, level);
    } else if at != a && at != b {
        lemma_one_over(up, up[at as int]->0, a, b, (depth - 1) as nat, level);
    }
}

/// What stands under a position is it, or stands under one that stands directly under it.
proof fn lemma_under_by(up: Seq<Option<usize>>, at: usize, over: usize, depth: nat) -> (mid: usize)
    requires
        well_linked(up),
        at < up.len(),
        under(up, at, over, depth),
        at != over,
    ensures
        depth > 0,
        mid < up.len(),
        up[mid as int] == Some(over),
        under(up, at, mid, (depth - 1) as nat),
    decreases depth,
{
    let p = up[at as int]->0;
    if p == over {
        at
    } else {
        let mid = lemma_under_by(up, p, over, (depth - 1) as nat);
        mid
    }
}

/// What stands under a position stands under the one above it.
proof fn lemma_under_above(
    up: Seq<Option<usize>>,
    at: usize,
    mid: usize,
    over: usize,
    depth: nat,
)
    requires
        under(up, at, mid, depth),
        up[mid as int] == Some(over),
    ensures
        under(up, at, over, depth + 1),
    decreases depth,
{
    if at == mid {
        assert(under(up, over, over, depth));
    } else {
        lemma_under_above(up, up[at as int]->0, mid, over, (depth - 1) as nat);
    }
}

/// A position of a level stands under a position that stands under none.
proof fn lemma_has_top(up: Seq<Option<usize>>, at: usize, level: nat) -> (top: usize)
    requires
        well_linked(up),
        at < up.len(),
        at_level(up, at, level),
    ensures
        top < up.len(),
        up[top as int] is None,
        under(up, at, top, level),
    decreases level,
{
    match up[at as int] {
        None => at,
        Some(p) => {
            let top = lemma_has_top(up, p, (level - 1) as nat);
            top
        },
    }
}

proof fn lemma_deeper(up: Seq<Option<usize>>, at: usize, over: usize, a: nat, b: nat)
    requires
        under(up, at, over, a),
        a <= b,
    ensures
        under(up, at, over, b),
    decreases a,
{
    if at != over {
        lemma_deeper(up, up[at as int]->0, over, (a - 1) as nat, (b - 1) as nat);
    }
}

/// No level is as deep as there are positions.
proof fn lemma_level_bound(up: Seq<Option<usize>>, at: usize, level: nat)
    requires
        well_linked(up),
        at < up.len(),
        at_level(up, at, level),
    ensures
        level < up.len(),
{
    let chain = lemma_chain(up, at, level);
    assert forall|i: int, j: int| 0 <= i < chain.len() && 0 <= j < chain.len() && i != j implies chain[i]
        != chain[j] by {
        if chain[i] == chain[j] {
            lemma_level_unique(up, chain[i] as usize, i as nat, j as nat);
        }
    }
    assert(chain.no_duplicates());
    chain.unique_seq_to_set();
    let all = vstd::set_lib::set_int_range(0, up.len() as int);
    vstd::set_lib::lemma_int_range(0, up.len() as int);
    assert(chain.to_set().subset_of(all)) by {
        assert forall|v: int| chain.to_set().contains(v) implies all.contains(v) by {
            let i = choose|i: int| 0 <= i < chain.len() && chain[i] == v;
            assert(at_level(up, chain[i] as usize, i as nat));
        }
    }
    vstd::set_lib::lemma_len_subset(chain.to_set(), all);
}

/// The positions over one of a level, one of each level.
proof fn lemma_chain(up: Seq<Option<usize>>, at: usize, level: nat) -> (chain: Seq<int>)
    requires
        well_linked(up),
        at < up.len(),
        at_level(up, at, level),
    ensures
        chain.len() == level + 1,
        forall|i: int|
            0 <= i < chain.len() ==> 0 <= #[trigger] chain[i] < up.len() && at_level(
                up,
                chain[i] as usize,
                i as nat,
            ),
    decreases level,
{
    match up[at as int] {
        None => seq![at as int],
        Some(p) => {
            let over = lemma_chain(up, p, (level - 1) as nat);
            over.push(at as int)
        },
    }
}

// ---- what the rows hold --------------------------------------------------------

/// What stands directly under a position, and nothing else, is listed as that.
pub proof fn lemma_kids(up: Seq<Option<usize>>, order: Seq<usize>, at: Option<usize>)
    ensures
        forall|i: int|
            0 <= i < kids(up, order, at).len() ==> order.contains(
                #[trigger] kids(up, order, at)[i],
            ) && up[kids(up, order, at)[i] as int] == at,
        forall|x: usize| #[trigger]
            order.contains(x) && up[x as int] == at ==> kids(up, order, at).contains(x),
    decreases order.len(),
{
    if order.len() > 0 {
        let front = order.drop_last();
        let was = kids(up, front, at);
        let now = kids(up, order, at);
        lemma_kids(up, front, at);
        assert(order =~= front.push(order.last()));
        assert forall|i: int| 0 <= i < now.len() implies order.contains(#[trigger] now[i])
            && up[now[i] as int] == at by {
            if i < was.len() {
                assert(now[i] == was[i]);
                assert(front.contains(was[i]));
                let n = choose|n: int| 0 <= n < front.len() && front[n] == was[i];
                assert(order[n] == was[i]);
            } else {
                assert(order[order.len() - 1] == now[i]);
            }
        }
        assert forall|x: usize| #[trigger] order.contains(x) && up[x as int] == at implies now.contains(
            x,
        ) by {
            let n = choose|n: int| 0 <= n < order.len() && order[n] == x;
            if n < front.len() {
                assert(front[n] == x);
                assert(front.contains(x));
                let m = choose|m: int| 0 <= m < was.len() && was[m] == x;
                assert(now[m] == x);
            } else {
                assert(now[now.len() - 1] == x);
            }
        }
    }
}

/// Whatever holds of each two positions of `order`, the earlier one first, holds of each two that
/// stand directly under one.
pub proof fn lemma_kids_in_order(
    up: Seq<Option<usize>>,
    order: Seq<usize>,
    at: Option<usize>,
    before: spec_fn(usize, usize) -> bool,
)
    requires
        forall|i: int, j: int|
            0 <= i < j < order.len() ==> before(#[trigger] order[i], #[trigger] order[j]),
    ensures
        forall|i: int, j: int|
            0 <= i < j < kids(up, order, at).len() ==> before(
                #[trigger] kids(up, order, at)[i],
                #[trigger] kids(up, order, at)[j],
            ),
    decreases order.len(),
{
    if order.len() > 0 {
        let front = order.drop_last();
        let was = kids(up, front, at);
        let now = kids(up, order, at);
        lemma_kids_in_order(up, front, at, before);
        lemma_kids(up, front, at);
        assert forall|i: int, j: int| 0 <= i < j < now.len() implies before(
            #[trigger] now[i],
            #[trigger] now[j],
        ) by {
            if j < was.len() {
                assert(before(was[i], was[j]));
            } else {
                assert(front.contains(was[i]));
                let n = choose|n: int| 0 <= n < front.len() && front[n] == was[i];
                assert(before(order[n], order[order.len() - 1]));
            }
        }
    }
}

/// Whether row `n` follows the row of what its position stands under, and is drawn as a branch
/// that the last of the siblings closes.
pub open spec fn follows(
    up: Seq<Option<usize>>,
    order: Seq<usize>,
    rows: Seq<(usize, Seq<char>)>,
    n: int,
) -> bool {
    match up[rows[n].0 as int] {
        Some(p) => {
            &&& exists|m: int| 0 <= m < n && (#[trigger] rows[m]).0 == p
            &&& rows[n].1 == mark(false, kids(up, order, Some(p)).last() == rows[n].0)
        },
        None => false,
    }
}

/// Whether every position has one row at most, and none is the row of anything else.
pub open spec fn once(up: Seq<Option<usize>>, rows: Seq<(usize, Seq<char>)>) -> bool {
    &&& forall|n: int| 0 <= n < rows.len() ==> (#[trigger] rows[n]).0 < up.len()
    &&& forall|a: int, b: int|
        0 <= a < b < rows.len() ==> (#[trigger] rows[a]).0 != (#[trigger] rows[b]).0
}

spec fn branch_holds(
    up: Seq<Option<usize>>,
    order: Seq<usize>,
    at: usize,
    drawn: Seq<char>,
    depth: nat,
) -> bool {
    let rows = branch(up, order, at, drawn, depth);
    &&& once(up, rows)
    &&& rows.len() > 0
    &&& rows[0] == (at, drawn)
    &&& forall|n: int| 0 <= n < rows.len() ==> under(up, (#[trigger] rows[n]).0, at, depth)
    &&& forall|j: usize|
        j < up.len() && #[trigger] under(up, j, at, depth) ==> exists|n: int|
            0 <= n < rows.len() && (#[trigger] rows[n]).0 == j
    &&& forall|n: int| 1 <= n < rows.len() ==> #[trigger] follows(up, order, rows, n)
}

spec fn among(
    up: Seq<Option<usize>>,
    list: Seq<usize>,
    n: nat,
    at: usize,
    depth: nat,
) -> bool {
    exists|q: int| 0 <= q < n && under(up, at, #[trigger] list[q], depth)
}

spec fn heads(list: Seq<usize>, top: bool, row: (usize, Seq<char>)) -> bool {
    exists|q: int|
        0 <= q < list.len() && row.0 == #[trigger] list[q] && row.1 == mark(
            top,
            q == list.len() - 1,
        )
}

spec fn branches_hold(
    up: Seq<Option<usize>>,
    order: Seq<usize>,
    list: Seq<usize>,
    top: bool,
    n: nat,
    depth: nat,
) -> bool {
    let rows = branches(up, order, list, top, n, depth);
    &&& once(up, rows)
    &&& forall|k: int| 0 <= k < rows.len() ==> among(up, list, n, (#[trigger] rows[k]).0, depth)
    &&& forall|j: usize|
        j < up.len() && #[trigger] among(up, list, n, j, depth) ==> exists|k: int|
            0 <= k < rows.len() && (#[trigger] rows[k]).0 == j
    &&& forall|k: int|
        0 <= k < rows.len() ==> heads(list, top, #[trigger] rows[k]) || follows(up, order, rows, k)
    &&& forall|a: int, b: int, p: int, q: int|
        #![trigger rows[a], rows[b], list[p], list[q]]
        0 <= a < b < rows.len() && 0 <= p < list.len() && 0 <= q < list.len() && rows[a].0
            == list[p] && rows[b].0 == list[q] ==> p < q
}

proof fn lemma_branch(
    up: Seq<Option<usize>>,
    order: Seq<usize>,
    at: usize,
    drawn: Seq<char>,
    level: nat,
    depth: nat,
)
    requires
        well_linked(up),
        order::is_arrangement(order, up.len()),
        at < up.len(),
        at_level(up, at, level),
    ensures
        branch_holds(up, order, at, drawn, depth),
    decreases depth, 0nat,
{
    let rows = branch(up, order, at, drawn, depth);
    if depth > 0 {
        let list = kids(up, order, Some(at));
        let d = (depth - 1) as nat;
        let rest = branches(up, order, list, false, list.len(), d);
        lemma_kids(up, order, Some(at));
        lemma_kids_in_order(up, order, Some(at), |a: usize, b: usize| a != b);
        assert forall|i: int| 0 <= i < list.len() implies (#[trigger] list[i]) < up.len()
            && at_level(up, list[i], level + 1) by {
            assert(order.contains(list[i]));
            let n = choose|n: int| 0 <= n < order.len() && order[n] == list[i];
            assert(order[n] < up.len());
        }
        lemma_branches(up, order, list, false, list.len(), level + 1, d);
        assert forall|k: int| 0 <= k < rest.len() implies under(up, (#[trigger] rest[k]).0, at, depth)
            && rest[k].0 != at by {
            assert(among(up, list, list.len(), rest[k].0, d));
            let q = choose|q: int| 0 <= q < list.len() && under(up, rest[k].0, #[trigger] list[q], d);
            lemma_under_above(up, rest[k].0, list[q], at, d);
            let deep = lemma_level_under(up, rest[k].0, list[q], d, level + 1);
            if rest[k].0 == at {
                lemma_level_unique(up, at, deep, level);
            }
        }
        assert forall|n: int| 0 <= n < rows.len() implies under(up, (#[trigger] rows[n]).0, at, depth) by {
            if n > 0 {
                assert(rows[n] == rest[n - 1]);
            }
        }
        assert(once(up, rows)) by {
            assert forall|n: int| 0 <= n < rows.len() implies (#[trigger] rows[n]).0 < up.len() by {
                if n > 0 {
                    assert(rows[n] == rest[n - 1]);
                }
            }
            assert forall|a: int, b: int| 0 <= a < b < rows.len() implies (#[trigger] rows[a]).0
                != (#[trigger] rows[b]).0 by {
                assert(rows[b] == rest[b - 1]);
                if a > 0 {
                    assert(rows[a] == rest[a - 1]);
                }
            }
        }
        assert forall|j: usize| j < up.len() && #[trigger] under(up, j, at, depth) implies exists|n: int|
            0 <= n < rows.len() && (#[trigger] rows[n]).0 == j by {
            if j == at {
                assert(rows[0].0 == j);
            } else {
                let mid = lemma_under_by(up, j, at, depth);
                order::lemma_in_arrangement(order, up.len(), mid);
                assert(list.contains(mid));
                let q = choose|q: int| 0 <= q < list.len() && list[q] == mid;
                assert(under(up, j, list[q], d));
                assert(among(up, list, list.len(), j, d));
                let k = choose|k: int| 0 <= k < rest.len() && (#[trigger] rest[k]).0 == j;
                assert(rows[k + 1] == rest[k]);
            }
        }
        assert forall|n: int| 1 <= n < rows.len() implies #[trigger] follows(up, order, rows, n) by {
            assert(rows[n] == rest[n - 1]);
            assert(rows[0].0 == at);
            assert(heads(list, false, rest[n - 1]) || follows(up, order, rest, n - 1));
            if heads(list, false, rest[n - 1]) {
                let q = choose|q: int|
                    0 <= q < list.len() && rest[n - 1].0 == #[trigger] list[q] && rest[n - 1].1
                        == mark(false, q == list.len() - 1);
                assert(up[list[q] as int] == Some(at));
                assert((q == list.len() - 1) == (list[list.len() - 1] == list[q]));
            } else {
                let over = up[rest[n - 1].0 as int]->0;
                let m = choose|m: int| 0 <= m < n - 1 && (#[trigger] rest[m]).0 == over;
                assert(rows[m + 1] == rest[m]);
            }
        }
    } else {
        assert forall|j: usize| j < up.len() && #[trigger] under(up, j, at, depth) implies exists|n: int|
            0 <= n < rows.len() && (#[trigger] rows[n]).0 == j by {
            assert(rows[0].0 == j);
        }
    }
}

#[verifier::spinoff_prover]
proof fn lemma_branches(
    up: Seq<Option<usize>>,
    order: Seq<usize>,
    list: Seq<usize>,
    top: bool,
    n: nat,
    level: nat,
    depth: nat,
)
    requires
        well_linked(up),
        order::is_arrangement(order, up.len()),
        forall|i: int|
            0 <= i < list.len() ==> (#[trigger] list[i]) < up.len() && at_level(up, list[i], level),
        forall|i: int, j: int| 0 <= i < j < list.len() ==> list[i] != list[j],
        n <= list.len(),
    ensures
        branches_hold(up, order, list, top, n, depth),
    decreases depth, n,
{
    let rows = branches(up, order, list, top, n, depth);
    if n == 0 {
        assert forall|j: usize| j < up.len() && #[trigger] among(up, list, n, j, depth) implies exists|
            k: int,
        | 0 <= k < rows.len() && (#[trigger] rows[k]).0 == j by {}
    } else {
        let head = list[n - 1];
        let a = branches(up, order, list, top, (n - 1) as nat, depth);
        let b = branch(up, order, head, mark(top, n == list.len()), depth);
        lemma_branches(up, order, list, top, (n - 1) as nat, level, depth);
        lemma_branch(up, order, head, mark(top, n == list.len()), level, depth);
        assert(rows == a + b);
        assert forall|i: int, q: int|
            0 <= i < a.len() && 0 <= q < list.len() && (#[trigger] a[i]).0 == #[trigger] list[q] implies q
            < n - 1 by {
            assert(among(up, list, (n - 1) as nat, a[i].0, depth));
            let p = choose|p: int| 0 <= p < n - 1 && under(up, a[i].0, #[trigger] list[p], depth);
            lemma_one_over(up, list[q], list[q], list[p], depth, level);
        }
        assert forall|i: int, q: int|
            0 <= i < b.len() && 0 <= q < list.len() && (#[trigger] b[i]).0 == #[trigger] list[q] implies q
            == n - 1 by {
            lemma_one_over(up, list[q], list[q], head, depth, level);
        }
        assert forall|i: int, j: int| 0 <= i < a.len() && 0 <= j < b.len() implies (#[trigger] a[i]).0
            != (#[trigger] b[j]).0 by {
            if a[i].0 == b[j].0 {
                assert(among(up, list, (n - 1) as nat, a[i].0, depth));
                let p = choose|p: int| 0 <= p < n - 1 && under(up, a[i].0, #[trigger] list[p], depth);
                lemma_one_over(up, a[i].0, list[p], head, depth, level);
            }
        }
        assert(once(up, rows)) by {
            assert forall|k: int| 0 <= k < rows.len() implies (#[trigger] rows[k]).0 < up.len() by {
                if k < a.len() {
                    assert(rows[k] == a[k]);
                } else {
                    assert(rows[k] == b[k - a.len()]);
                }
            }
            assert forall|i: int, j: int| 0 <= i < j < rows.len() implies (#[trigger] rows[i]).0
                != (#[trigger] rows[j]).0 by {
                if j < a.len() {
                    assert(a[i].0 != a[j].0);
                } else if i >= a.len() {
                    assert(b[i - a.len()].0 != b[j - a.len()].0);
                } else {
                    assert(a[i].0 != b[j - a.len()].0);
                }
            }
        }
        assert forall|k: int| 0 <= k < rows.len() implies among(
            up,
            list,
            n,
            (#[trigger] rows[k]).0,
            depth,
        ) by {
            if k < a.len() {
                assert(among(up, list, (n - 1) as nat, a[k].0, depth));
                let p = choose|p: int| 0 <= p < n - 1 && under(up, a[k].0, #[trigger] list[p], depth);
                assert(under(up, rows[k].0, list[p], depth));
            } else {
                assert(under(up, b[k - a.len()].0, list[n - 1], depth));
            }
        }
        assert forall|j: usize| j < up.len() && #[trigger] among(up, list, n, j, depth) implies exists|
            k: int,
        | 0 <= k < rows.len() && (#[trigger] rows[k]).0 == j by {
            let q = choose|q: int| 0 <= q < n && under(up, j, #[trigger] list[q], depth);
            if q < n - 1 {
                assert(among(up, list, (n - 1) as nat, j, depth));
                let k = choose|k: int| 0 <= k < a.len() && (#[trigger] a[k]).0 == j;
                assert(rows[k].0 == j);
            } else {
                let k = choose|k: int| 0 <= k < b.len() && (#[trigger] b[k]).0 == j;
                assert(rows[a.len() + k].0 == j);
            }
        }
        assert forall|k: int| 0 <= k < rows.len() implies heads(list, top, #[trigger] rows[k])
            || follows(up, order, rows, k) by {
            if k < a.len() {
                assert(rows[k] == a[k]);
                if !heads(list, top, a[k]) {
                    assert(follows(up, order, a, k));
                    let over = up[a[k].0 as int]->0;
                    let m = choose|m: int| 0 <= m < k && (#[trigger] a[m]).0 == over;
                    assert(rows[m] == a[m]);
                }
            } else {
                let i = k - a.len();
                assert(rows[k] == b[i]);
                if i == 0 {
                    assert(rows[k].0 == list[n - 1]);
                } else {
                    assert(follows(up, order, b, i));
                    let over = up[b[i].0 as int]->0;
                    let m = choose|m: int| 0 <= m < i && (#[trigger] b[m]).0 == over;
                    assert(rows[a.len() + m] == b[m]);
                }
            }
        }
        assert forall|i: int, j: int, p: int, q: int|
            #![trigger rows[i], rows[j], list[p], list[q]]
            0 <= i < j < rows.len() && 0 <= p < list.len() && 0 <= q < list.len() && rows[i].0
                == list[p] && rows[j].0 == list[q] implies p < q by {
            if j < a.len() {
                assert(a[i].0 == list[p] && a[j].0 == list[q]);
            } else if i >= a.len() {
                assert(b[i - a.len()].0 == list[p] && b[j - a.len()].0 == list[q]);
            } else {
                assert(a[i].0 == list[p] && b[j - a.len()].0 == list[q]);
            }
        }
    }
}

/// Where nothing stands under itself, the rows list every position once. Those that stand under
/// none are drawn with nothing before them and in the order given; every other one follows what it
/// stands under, and is drawn as a branch, which the last of its siblings closes.
pub proof fn law_every_position_is_drawn_once(up: Seq<Option<usize>>, order: Seq<usize>)
    requires
        well_linked(up),
        acyclic(up),
        up.len() <= usize::MAX,
        order::is_arrangement(order, up.len()),
    ensures
        order::is_arrangement(
            drawing(up, order).map_values(|r: (usize, Seq<char>)| r.0),
            up.len(),
        ),
        forall|n: int|
            #![trigger drawing(up, order)[n]]
            0 <= n < drawing(up, order).len() ==> if up[drawing(up, order)[n].0 as int] is None {
                drawing(up, order)[n].1 == mark(true, false)
            } else {
                follows(up, order, drawing(up, order), n)
            },
        forall|a: int, b: int|
            #![trigger drawing(up, order)[a], drawing(up, order)[b]]
            0 <= a < b < drawing(up, order).len() && up[drawing(up, order)[a].0 as int] is None
                && up[drawing(up, order)[b].0 as int] is None ==> exists|i: int, j: int|
                0 <= i < j < order.len() && #[trigger] order[i] == drawing(up, order)[a].0
                    && #[trigger] order[j] == drawing(up, order)[b].0,
{
    let tops = kids(up, order, None);
    let rows = drawing(up, order);
    let depth = up.len();
    lemma_kids(up, order, None);
    lemma_kids_in_order(up, order, None, |a: usize, b: usize| a != b);
    lemma_kids_in_order(up, order, None, |a: usize, b: usize| comes_before(order, a, b));
    assert forall|i: int| 0 <= i < tops.len() implies (#[trigger] tops[i]) < up.len() && at_level(
        up,
        tops[i],
        0,
    ) by {
        assert(order.contains(tops[i]));
        let n = choose|n: int| 0 <= n < order.len() && order[n] == tops[i];
        assert(order[n] < up.len());
    }
    lemma_branches(up, order, tops, true, tops.len(), 0, depth);
    let places = rows.map_values(|r: (usize, Seq<char>)| r.0);
    assert forall|at: usize| at < up.len() implies #[trigger] places.contains(at) by {
        let level = lemma_has_level(up, at);
        lemma_level_bound(up, at, level);
        let top = lemma_has_top(up, at, level);
        lemma_deeper(up, at, top, level, depth);
        order::lemma_in_arrangement(order, up.len(), top);
        assert(tops.contains(top));
        let q = choose|q: int| 0 <= q < tops.len() && tops[q] == top;
        assert(under(up, at, tops[q], depth));
        assert(among(up, tops, tops.len(), at, depth));
        let k = choose|k: int| 0 <= k < rows.len() && (#[trigger] rows[k]).0 == at;
        assert(places[k] == at);
    }
    assert forall|i: int| 0 <= i < places.len() implies (#[trigger] places[i]) < up.len() by {
        assert(rows[i].0 < up.len());
    }
    assert forall|i: int, j: int| 0 <= i < j < places.len() implies places[i] != places[j] by {
        assert(rows[i].0 != rows[j].0);
    }
    lemma_count(places, up.len());
    assert forall|n: int| #![trigger rows[n]] 0 <= n < rows.len() implies if up[rows[n].0 as int] is None {
        rows[n].1 == mark(true, false)
    } else {
        follows(up, order, rows, n)
    } by {
        if heads(tops, true, rows[n]) {
            let q = choose|q: int|
                0 <= q < tops.len() && rows[n].0 == #[trigger] tops[q] && rows[n].1 == mark(
                    true,
                    q == tops.len() - 1,
                );
            assert(up[tops[q] as int] is None);
        }
    }
    assert forall|a: int, b: int|
        #![trigger rows[a], rows[b]]
        0 <= a < b < rows.len() && up[rows[a].0 as int] is None && up[rows[b].0 as int] is None implies exists|
        i: int,
        j: int,
    |
        0 <= i < j < order.len() && #[trigger] order[i] == rows[a].0 && #[trigger] order[j]
            == rows[b].0 by {
        order::lemma_in_arrangement(order, up.len(), rows[a].0);
        order::lemma_in_arrangement(order, up.len(), rows[b].0);
        assert(tops.contains(rows[a].0) && tops.contains(rows[b].0));
        let p = choose|p: int| 0 <= p < tops.len() && tops[p] == rows[a].0;
        let q = choose|q: int| 0 <= q < tops.len() && tops[q] == rows[b].0;
        assert(p < q);
        assert(comes_before(order, tops[p], tops[q]));
    }
}

spec fn comes_before(order: Seq<usize>, a: usize, b: usize) -> bool {
    exists|i: int, j: int|
        0 <= i < j < order.len() && #[trigger] order[i] == a && #[trigger] order[j] == b
}

/// What lists every position, and none twice, is as long as there are positions.
proof fn lemma_count(places: Seq<usize>, n: nat)
    requires
        forall|at: usize| at < n ==> #[trigger] places.contains(at),
        forall|i: int| 0 <= i < places.len() ==> (#[trigger] places[i]) < n,
        forall|i: int, j: int| 0 <= i < j < places.len() ==> places[i] != places[j],
        n <= usize::MAX,
    ensures
        places.len() == n,
{
    let image = places.map_values(|u: usize| u as int);
    let all = vstd::set_lib::set_int_range(0, n as int);
    assert forall|i: int, j: int| 0 <= i < image.len() && 0 <= j < image.len() && i != j implies image[i]
        != image[j] by {
        if i < j {
            assert(places[i] != places[j]);
        } else {
            assert(places[j] != places[i]);
        }
    }
    assert(image.no_duplicates());
    image.unique_seq_to_set();
    vstd::set_lib::lemma_int_range(0, n as int);
    assert(image.to_set() =~= all) by {
        assert forall|v: int| all.contains(v) implies image.to_set().contains(v) by {
            assert(places.contains(v as usize));
            let i = choose|i: int| 0 <= i < places.len() && places[i] == v as usize;
            assert(image[i] == v);
        }
        assert forall|v: int| image.to_set().contains(v) implies all.contains(v) by {
            let i = choose|i: int| 0 <= i < image.len() && image[i] == v;
            assert(places[i] < n);
        }
    }
}

} // verus!
