//! Ordering: the order of texts, and stable rankings by a key.

use crate::text;
use crate::text::chars_of;
use vstd::prelude::*;
use vstd::string::*;

verus! {

// ---- the order of texts --------------------------------------------------------

/// Whether `a` comes before `b` in the order of texts: character by character, a proper prefix
/// before the longer text.
pub open spec fn lex(a: Seq<char>, b: Seq<char>) -> bool
    decreases a.len(),
{
    if b.len() == 0 {
        false
    } else if a.len() == 0 {
        true
    } else if a[0] != b[0] {
        a[0] < b[0]
    } else {
        lex(a.drop_first(), b.drop_first())
    }
}

/// No text comes before itself, of two different texts exactly one comes before the other, and
/// the order is transitive.
pub proof fn law_text_order(a: Seq<char>, b: Seq<char>, c: Seq<char>)
    ensures
        !lex(a, a),
        a != b ==> lex(a, b) != lex(b, a),
        lex(a, b) && lex(b, c) ==> lex(a, c),
{
    lemma_lex_irreflexive(a);
    lemma_lex_total(a, b);
    lemma_lex_transitive(a, b, c);
}

proof fn lemma_lex_irreflexive(a: Seq<char>)
    ensures
        !lex(a, a),
    decreases a.len(),
{
    if a.len() > 0 {
        lemma_lex_irreflexive(a.drop_first());
    }
}

proof fn lemma_lex_total(a: Seq<char>, b: Seq<char>)
    ensures
        a != b ==> lex(a, b) != lex(b, a),
    decreases a.len(),
{
    if a.len() == 0 || b.len() == 0 {
        if a.len() == 0 && b.len() == 0 {
            assert(a =~= b);
        }
    } else if a[0] == b[0] {
        lemma_lex_total(a.drop_first(), b.drop_first());
        if a.drop_first() == b.drop_first() {
            assert(a =~= seq![a[0]] + a.drop_first());
            assert(b =~= seq![b[0]] + b.drop_first());
        }
    }
}

proof fn lemma_lex_transitive(a: Seq<char>, b: Seq<char>, c: Seq<char>)
    ensures
        lex(a, b) && lex(b, c) ==> lex(a, c),
    decreases a.len(),
{
    if a.len() > 0 && b.len() > 0 && c.len() > 0 {
        lemma_lex_transitive(a.drop_first(), b.drop_first(), c.drop_first());
    }
}

/// Where two texts of one length are in order, they stay so whatever follows them.
pub proof fn lemma_lex_append(a: Seq<char>, b: Seq<char>, x: Seq<char>, y: Seq<char>)
    requires
        a.len() == b.len(),
        lex(a, b),
    ensures
        lex(a + x, b + y),
    decreases a.len(),
{
    if a[0] == b[0] {
        lemma_lex_append(a.drop_first(), b.drop_first(), x, y);
        assert((a + x).drop_first() =~= a.drop_first() + x);
        assert((b + y).drop_first() =~= b.drop_first() + y);
    }
}

/// What two texts begin with alike does not bear on their order.
pub proof fn lemma_lex_front(a: Seq<char>, x: Seq<char>, y: Seq<char>)
    ensures
        lex(a + x, a + y) == lex(x, y),
    decreases a.len(),
{
    if a.len() == 0 {
        assert(a + x =~= x);
        assert(a + y =~= y);
    } else {
        lemma_lex_front(a.drop_first(), x, y);
        assert((a + x).drop_first() =~= a.drop_first() + x);
        assert((a + y).drop_first() =~= a.drop_first() + y);
    }
}

/// Whether `a` comes before `b`.
pub fn precedes(a: &str, b: &str) -> (r: bool)
    ensures
        r == lex(a@, b@),
{
    let x = chars_of(a);
    let y = chars_of(b);
    let mut i: usize = 0;
    assert(x@.skip(0) =~= a@);
    assert(y@.skip(0) =~= b@);
    loop
        invariant
            i <= x@.len(),
            i <= y@.len(),
            lex(x@.skip(i as int), y@.skip(i as int)) == lex(a@, b@),
        decreases x@.len() - i,
    {
        if i == y.len() {
            return false;
        }
        if i == x.len() {
            return true;
        }
        if x[i] != y[i] {
            return x[i] < y[i];
        }
        proof {
            assert(x@.skip(i as int).drop_first() =~= x@.skip(i + 1));
            assert(y@.skip(i as int).drop_first() =~= y@.skip(i + 1));
        }
        i = i + 1;
    }
}

// ---- keys ----------------------------------------------------------------------

/// A value that others can be ranked by: `below` is a strict weak order.
pub trait Key: Sized {
    /// Whether `self` ranks before `other`.
    spec fn below(self, other: Self) -> bool;

    /// Nothing ranks before itself, and what does not rank before a third by way of a second does
    /// not rank before it.
    proof fn weak_order(a: Self, b: Self, c: Self)
        ensures
            !a.below(a),
            !a.below(b) && !b.below(c) ==> !a.below(c),
            a.below(b) ==> !b.below(a),
    ;

    /// Whether `self` ranks before `other`.
    fn is_below(&self, other: &Self) -> (r: bool)
        ensures
            r == self.below(*other),
    ;
}

impl Key for u16 {
    open spec fn below(self, other: Self) -> bool {
        self < other
    }

    proof fn weak_order(a: Self, b: Self, c: Self) {
    }

    fn is_below(&self, other: &Self) -> (r: bool) {
        *self < *other
    }
}

impl Key for i64 {
    open spec fn below(self, other: Self) -> bool {
        self < other
    }

    proof fn weak_order(a: Self, b: Self, c: Self) {
    }

    fn is_below(&self, other: &Self) -> (r: bool) {
        *self < *other
    }
}

impl Key for String {
    open spec fn below(self, other: Self) -> bool {
        lex(self@, other@)
    }

    proof fn weak_order(a: Self, b: Self, c: Self) {
        lemma_texts_weak(a@, b@, c@);
    }

    fn is_below(&self, other: &Self) -> (r: bool) {
        precedes(self.as_str(), other.as_str())
    }
}

proof fn lemma_texts_weak(a: Seq<char>, b: Seq<char>, c: Seq<char>)
    ensures
        !lex(a, a),
        !lex(a, b) && !lex(b, c) ==> !lex(a, c),
        lex(a, b) ==> !lex(b, a),
{
    lemma_lex_irreflexive(a);
    lemma_lex_total(a, b);
    lemma_lex_total(b, c);
    lemma_lex_total(a, c);
    lemma_lex_transitive(c, b, a);
    lemma_lex_transitive(a, b, a);
}

impl Key for Option<String> {
    open spec fn below(self, other: Self) -> bool {
        match (self, other) {
            (_, None) => false,
            (None, Some(_)) => true,
            (Some(a), Some(b)) => lex(a@, b@),
        }
    }

    proof fn weak_order(a: Self, b: Self, c: Self) {
        match (a, b, c) {
            (Some(x), Some(y), Some(z)) => {
                lemma_texts_weak(x@, y@, z@);
            },
            (Some(x), Some(y), None) => {
                lemma_texts_weak(x@, y@, y@);
            },
            (Some(x), None, _) => {
                lemma_lex_irreflexive(x@);
            },
            _ => {},
        }
    }

    fn is_below(&self, other: &Self) -> (r: bool) {
        match (self, other) {
            (_, None) => false,
            (None, Some(_)) => true,
            (Some(a), Some(b)) => precedes(a.as_str(), b.as_str()),
        }
    }
}

impl Key for (String, String) {
    open spec fn below(self, other: Self) -> bool {
        lex(self.0@, other.0@) || (self.0@ == other.0@ && lex(self.1@, other.1@))
    }

    proof fn weak_order(a: Self, b: Self, c: Self) {
        lemma_texts_weak(a.0@, b.0@, c.0@);
        lemma_texts_weak(a.1@, b.1@, c.1@);
        lemma_lex_total(a.0@, b.0@);
        lemma_lex_total(b.0@, c.0@);
        lemma_lex_total(a.0@, c.0@);
        lemma_lex_irreflexive(b.0@);
        lemma_lex_irreflexive(c.0@);
    }

    fn is_below(&self, other: &Self) -> (r: bool) {
        precedes(self.0.as_str(), other.0.as_str()) || (text::same(
            self.0.as_str(),
            other.0.as_str(),
        ) && precedes(self.1.as_str(), other.1.as_str()))
    }
}

// ---- rankings ------------------------------------------------------------------

/// Whether `p` lists the positions `0..n` once each.
pub open spec fn is_arrangement(p: Seq<usize>, n: nat) -> bool {
    &&& p.len() == n
    &&& forall|i: int| 0 <= i < p.len() ==> (#[trigger] p[i]) < n
    &&& forall|i: int, j: int| 0 <= i < j < p.len() ==> p[i] != p[j]
}

/// Whether position `i` of `keys` ranks before position `j`: by key, and by position where the
/// keys do not decide.
pub open spec fn ranks_before<K: Key>(keys: Seq<K>, i: int, j: int) -> bool {
    keys[i].below(keys[j]) || (!keys[j].below(keys[i]) && i < j)
}

/// Whether `p` lists the positions of `keys` in rank order: a stable sort by key.
pub open spec fn is_ranking<K: Key>(keys: Seq<K>, p: Seq<usize>) -> bool {
    &&& is_arrangement(p, keys.len())
    &&& forall|i: int, j: int|
        0 <= i < j < p.len() ==> ranks_before(keys, #[trigger] p[i] as int, #[trigger] p[j] as int)
}

/// The positions of `keys` in rank order.
pub fn ranking<K: Key>(keys: &[K]) -> (p: Vec<usize>)
    ensures
        is_ranking(keys@, p@),
{
    let mut p: Vec<usize> = Vec::new();
    let mut n: usize = 0;
    while n < keys.len()
        invariant
            n <= keys@.len(),
            is_arrangement(p@, n as nat),
            forall|i: int, j: int|
                0 <= i < j < p@.len() ==> ranks_before(
                    keys@,
                    #[trigger] p@[i] as int,
                    #[trigger] p@[j] as int,
                ),
        decreases keys@.len() - n,
    {
        let mut at: usize = p.len();
        while at > 0 && keys[n].is_below(&keys[p[at - 1]])
            invariant
                at <= p@.len(),
                n < keys@.len(),
                is_arrangement(p@, n as nat),
                forall|k: int| at <= k < p@.len() ==> keys@[n as int].below(
                    keys@[#[trigger] p@[k] as int],
                ),
            decreases at,
        {
            at = at - 1;
        }
        let ghost q = p@;
        proof {
            assert forall|k: int| 0 <= k < at implies !keys@[n as int].below(
                keys@[#[trigger] q[k] as int],
            ) by {
                let e = q[at - 1];
                if k < at - 1 {
                    assert(ranks_before(keys@, q[k] as int, q[at - 1] as int));
                    K::weak_order(keys@[n as int], keys@[e as int], keys@[q[k] as int]);
                    K::weak_order(keys@[q[k] as int], keys@[e as int], keys@[e as int]);
                }
            }
        }
        p.insert(at, n);
        proof {
            assert(p@ == q.insert(at as int, n));
            assert forall|i: int, j: int| 0 <= i < j < p@.len() implies ranks_before(
                keys@,
                #[trigger] p@[i] as int,
                #[trigger] p@[j] as int,
            ) by {
                let oi = if i < at {
                    i
                } else {
                    i - 1
                };
                let oj = if j < at {
                    j
                } else {
                    j - 1
                };
                if i == at {
                    assert(p@[j] == q[j - 1]);
                } else if j == at {
                    assert(p@[i] == q[i]);
                } else {
                    assert(p@[i] == q[oi]);
                    assert(p@[j] == q[oj]);
                    assert(ranks_before(keys@, q[oi] as int, q[oj] as int));
                }
            }
            assert forall|i: int, j: int| 0 <= i < j < p@.len() implies p@[i] != p@[j] by {
                if i != at && j != at {
                    let oi = if i < at {
                        i
                    } else {
                        i - 1
                    };
                    let oj = if j < at {
                        j
                    } else {
                        j - 1
                    };
                    assert(p@[i] == q[oi]);
                    assert(p@[j] == q[oj]);
                } else if i == at {
                    assert(p@[j] == q[j - 1]);
                } else {
                    assert(p@[i] == q[i]);
                }
            }
        }
        n = n + 1;
    }
    p
}

/// There is only one ranking of a sequence of keys.
pub proof fn law_ranking_unique<K: Key>(keys: Seq<K>, p: Seq<usize>, q: Seq<usize>)
    requires
        is_ranking(keys, p),
        is_ranking(keys, q),
    ensures
        p == q,
{
    lemma_ranking_agrees(keys, p, q, keys.len());
    assert(p =~= q);
}

/// What lists the positions once each lists every one of them.
pub proof fn lemma_in_arrangement(p: Seq<usize>, n: nat, x: usize)
    requires
        is_arrangement(p, n),
        x < n,
    ensures
        p.contains(x),
{
    let s = p.to_set();
    let all = vstd::set_lib::set_int_range(0, n as int);
    let image = p.map_values(|u: usize| u as int);
    image.unique_seq_to_set();
    assert forall|i: int, j: int| 0 <= i < image.len() && 0 <= j < image.len() && i != j implies image[i]
        != image[j] by {
        if i < j {
            assert(p[i] != p[j]);
        } else {
            assert(p[j] != p[i]);
        }
    }
    assert(image.no_duplicates());
    vstd::set_lib::lemma_int_range(0, n as int);
    assert(image.to_set().subset_of(all)) by {
        assert forall|v: int| image.to_set().contains(v) implies all.contains(v) by {
            let i = choose|i: int| 0 <= i < image.len() && image[i] == v;
            assert(p[i] < n);
        }
    }
    vstd::set_lib::lemma_subset_equality(image.to_set(), all);
    assert(image.to_set().contains(x as int));
    let i = choose|i: int| 0 <= i < image.len() && image[i] == x as int;
    assert(p[i] == x);
}

proof fn lemma_ranking_agrees<K: Key>(keys: Seq<K>, p: Seq<usize>, q: Seq<usize>, k: nat)
    requires
        is_ranking(keys, p),
        is_ranking(keys, q),
        k <= keys.len(),
    ensures
        forall|i: int| 0 <= i < k ==> p[i] == q[i],
    decreases k,
{
    if k > 0 {
        let m = (k - 1) as nat;
        lemma_ranking_agrees(keys, p, q, m);
        let a = p[m as int];
        let b = q[m as int];
        if a != b {
            lemma_in_arrangement(q, keys.len(), a);
            lemma_in_arrangement(p, keys.len(), b);
            let i = choose|i: int| 0 <= i < q.len() && q[i] == a;
            let j = choose|j: int| 0 <= j < p.len() && p[j] == b;
            if i < m {
                assert(p[i] == a);
                assert(p[i] != p[m as int]);
            }
            if j < m {
                assert(q[j] == b);
                assert(q[j] != q[m as int]);
            }
            assert(ranks_before(keys, q[m as int] as int, q[i] as int));
            assert(ranks_before(keys, p[m as int] as int, p[j] as int));
            K::weak_order(keys[a as int], keys[b as int], keys[a as int]);
            K::weak_order(keys[b as int], keys[a as int], keys[b as int]);
        }
    }
}

/// The items of `s` at the positions that `p` lists.
pub open spec fn arranged<T>(s: Seq<T>, p: Seq<usize>) -> Seq<T> {
    p.map_values(|i: usize| s[i as int])
}

/// The strings of `v` at the positions that `p` lists.
pub fn gather(v: &[String], p: &[usize]) -> (out: Vec<String>)
    requires
        forall|i: int| 0 <= i < p@.len() ==> (#[trigger] p@[i]) < v@.len(),
    ensures
        text::texts(out@) == arranged(text::texts(v@), p@),
{
    let mut out: Vec<String> = Vec::new();
    let mut i: usize = 0;
    while i < p.len()
        invariant
            i <= p@.len(),
            forall|k: int| 0 <= k < p@.len() ==> (#[trigger] p@[k]) < v@.len(),
            text::texts(out@) == arranged(text::texts(v@), p@).take(i as int),
        decreases p@.len() - i,
    {
        let ghost before = out@;
        out.push(v[p[i]].clone());
        proof {
            let all = arranged(text::texts(v@), p@);
            assert(text::texts(out@) =~= text::texts(before).push(all[i as int]));
            assert(all.take(i + 1) =~= all.take(i as int).push(all[i as int]));
        }
        i = i + 1;
    }
    proof {
        let all = arranged(text::texts(v@), p@);
        assert(all.take(p@.len() as int) =~= all);
    }
    out
}

/// Rearranging keeps what a sequence holds, each item as often as before.
pub proof fn law_arranging_keeps_items<T>(s: Seq<T>, p: Seq<usize>)
    requires
        is_arrangement(p, s.len()),
        s.len() <= usize::MAX,
    ensures
        arranged(s, p).to_multiset() == s.to_multiset(),
    decreases s.len(),
{
    broadcast use vstd::seq_lib::group_to_multiset_ensures;

    let a = arranged(s, p);
    if s.len() == 0 {
        assert(a =~= s);
    } else {
        let last = (s.len() - 1) as usize;
        lemma_in_arrangement(p, s.len(), last);
        let k = choose|k: int| 0 <= k < p.len() && p[k] == last;
        let q = p.remove(k);
        let t = s.drop_last();
        assert forall|i: int| 0 <= i < q.len() implies (#[trigger] q[i]) < t.len() by {
            let oi = if i < k {
                i
            } else {
                i + 1
            };
            assert(q[i] == p[oi]);
            if oi < k {
                assert(p[oi] != p[k]);
            } else {
                assert(p[k] != p[oi]);
            }
        }
        assert forall|i: int, j: int| 0 <= i < j < q.len() implies q[i] != q[j] by {
            let oi = if i < k {
                i
            } else {
                i + 1
            };
            let oj = if j < k {
                j
            } else {
                j + 1
            };
            assert(p[oi] != p[oj]);
        }
        law_arranging_keeps_items(t, q);
        assert(arranged(t, q) =~= a.remove(k));
        assert(a =~= a.remove(k).insert(k, s.last()));
        vstd::seq_lib::to_multiset_insert(a.remove(k), k, s.last());
        assert(s =~= t.push(s.last()));
    }
}

/// `t` put in its place among texts in ascending order; a text that is there already is not put
/// there again.
pub open spec fn with_text(s: Seq<Seq<char>>, t: Seq<char>) -> Seq<Seq<char>>
    decreases s.len(),
{
    if s.len() == 0 {
        seq![t]
    } else if s[0] == t {
        s
    } else if lex(t, s[0]) {
        seq![t] + s
    } else {
        seq![s[0]] + with_text(s.drop_first(), t)
    }
}

/// The texts of `v` in ascending order, each once.
pub open spec fn ascending(v: Seq<Seq<char>>) -> Seq<Seq<char>>
    decreases v.len(),
{
    if v.len() == 0 {
        seq![]
    } else {
        with_text(ascending(v.drop_last()), v.last())
    }
}

/// Whether each text stands before the ones behind it.
pub open spec fn is_ascending(s: Seq<Seq<char>>) -> bool {
    forall|i: int, j: int| 0 <= i < j < s.len() ==> lex(#[trigger] s[i], #[trigger] s[j])
}

proof fn lemma_with_text(s: Seq<Seq<char>>, t: Seq<char>)
    requires
        is_ascending(s),
    ensures
        is_ascending(with_text(s, t)),
        forall|x: Seq<char>| #[trigger]
            with_text(s, t).contains(x) <==> s.contains(x) || x == t,
    decreases s.len(),
{
    let r = with_text(s, t);
    if s.len() == 0 {
        assert(r[0] == t);
    } else if s[0] == t {
        assert(s.contains(t));
    } else if lex(t, s[0]) {
        assert forall|i: int, j: int| 0 <= i < j < r.len() implies lex(
            #[trigger] r[i],
            #[trigger] r[j],
        ) by {
            if i == 0 {
                if j > 1 {
                    assert(r[j] == s[j - 1]);
                    law_text_order(t, s[0], s[j - 1]);
                }
            } else {
                assert(r[i] == s[i - 1] && r[j] == s[j - 1]);
            }
        }
        assert forall|x: Seq<char>| #[trigger] r.contains(x) <==> s.contains(x) || x == t by {
            assert(r[0] == t);
            if s.contains(x) {
                let k = choose|k: int| 0 <= k < s.len() && s[k] == x;
                assert(r[k + 1] == x);
            }
            if r.contains(x) && x != t {
                let k = choose|k: int| 0 <= k < r.len() && r[k] == x;
                assert(s[k - 1] == x);
            }
        }
    } else {
        let rest = s.drop_first();
        let tail = with_text(rest, t);
        assert(is_ascending(rest)) by {
            assert forall|i: int, j: int| 0 <= i < j < rest.len() implies lex(
                #[trigger] rest[i],
                #[trigger] rest[j],
            ) by {
                assert(rest[i] == s[i + 1] && rest[j] == s[j + 1]);
            }
        }
        lemma_with_text(rest, t);
        assert forall|i: int, j: int| 0 <= i < j < r.len() implies lex(
            #[trigger] r[i],
            #[trigger] r[j],
        ) by {
            if i == 0 {
                let x = r[j];
                assert(tail[j - 1] == x);
                assert(tail.contains(x));
                if rest.contains(x) {
                    let k = choose|k: int| 0 <= k < rest.len() && rest[k] == x;
                    assert(s[k + 1] == x);
                } else {
                    law_text_order(s[0], t, t);
                }
            } else {
                assert(r[i] == tail[i - 1] && r[j] == tail[j - 1]);
            }
        }
        assert forall|x: Seq<char>| #[trigger] r.contains(x) <==> s.contains(x) || x == t by {
            if r.contains(x) {
                let k = choose|k: int| 0 <= k < r.len() && r[k] == x;
                if k == 0 {
                    assert(s[0] == x);
                } else {
                    assert(tail[k - 1] == x);
                    assert(tail.contains(x));
                    if rest.contains(x) {
                        let m = choose|m: int| 0 <= m < rest.len() && rest[m] == x;
                        assert(s[m + 1] == x);
                    }
                }
            }
            if s.contains(x) {
                let k = choose|k: int| 0 <= k < s.len() && s[k] == x;
                if k == 0 {
                    assert(r[0] == x);
                } else {
                    assert(rest[k - 1] == x);
                    assert(rest.contains(x));
                    assert(tail.contains(x));
                    let m = choose|m: int| 0 <= m < tail.len() && tail[m] == x;
                    assert(r[m + 1] == x);
                }
            }
            if x == t {
                assert(tail.contains(x));
                let m = choose|m: int| 0 <= m < tail.len() && tail[m] == x;
                assert(r[m + 1] == x);
            }
        }
    }
}

/// The texts of `v` in ascending order are just those of `v`, each stands before the ones behind
/// it, and so none stands there twice.
pub proof fn law_ascending(v: Seq<Seq<char>>)
    ensures
        is_ascending(ascending(v)),
        forall|x: Seq<char>| #[trigger] ascending(v).contains(x) <==> v.contains(x),
    decreases v.len(),
{
    if v.len() > 0 {
        law_ascending(v.drop_last());
        lemma_with_text(ascending(v.drop_last()), v.last());
        assert forall|x: Seq<char>| #[trigger] ascending(v).contains(x) <==> v.contains(x) by {
            if v.contains(x) {
                let k = choose|k: int| 0 <= k < v.len() && v[k] == x;
                if k < v.len() - 1 {
                    assert(v.drop_last()[k] == x);
                    assert(v.drop_last().contains(x));
                }
            }
            if v.drop_last().contains(x) {
                let k = choose|k: int| 0 <= k < v.len() - 1 && v.drop_last()[k] == x;
                assert(v[k] == x);
            }
        }
    }
}

proof fn lemma_place(s: Seq<Seq<char>>, t: Seq<char>, i: int)
    requires
        0 <= i <= s.len(),
        forall|j: int| 0 <= j < i ==> s[j] != t && !lex(t, #[trigger] s[j]),
        i < s.len() ==> s[i] == t || lex(t, s[i]),
    ensures
        with_text(s, t) == if i < s.len() && s[i] == t {
            s
        } else {
            s.insert(i, t)
        },
    decreases s.len(),
{
    if i == 0 {
        if s.len() == 0 {
            assert(s.insert(0, t) =~= seq![t]);
        } else {
            assert(s.insert(0, t) =~= seq![t] + s);
        }
    } else {
        let rest = s.drop_first();
        assert forall|j: int| 0 <= j < i - 1 implies rest[j] != t && !lex(t, #[trigger] rest[j]) by {
            assert(rest[j] == s[j + 1]);
        }
        lemma_place(rest, t, i - 1);
        assert(s[0] != t && !lex(t, s[0]));
        assert(seq![s[0]] + rest =~= s);
        assert(seq![s[0]] + rest.insert(i - 1, t) =~= s.insert(i, t));
    }
}

/// Puts `t` in its place among the texts of `v`.
fn place(v: &mut Vec<String>, t: &String)
    ensures
        text::texts(final(v)@) == with_text(text::texts(old(v)@), t@),
{
    let mut i: usize = 0;
    let ghost s = text::texts(v@);
    while i < v.len() && !text::same(v[i].as_str(), t.as_str()) && !precedes(
        t.as_str(),
        v[i].as_str(),
    )
        invariant
            i <= v@.len(),
            s == text::texts(v@),
            *v == *old(v),
            forall|j: int| 0 <= j < i ==> s[j] != t@ && !lex(t@, #[trigger] s[j]),
        decreases v@.len() - i,
    {
        assert(s[i as int] == v@[i as int]@);
        i = i + 1;
    }
    proof {
        if i < v@.len() {
            assert(s[i as int] == v@[i as int]@);
        }
        lemma_place(s, t@, i as int);
    }
    if i < v.len() && text::same(v[i].as_str(), t.as_str()) {
        return;
    }
    v.insert(i, t.clone());
    assert(text::texts(v@) =~= s.insert(i as int, t@));
}

/// The texts of `v` in ascending order, each once.
pub fn ascending_texts(v: &[String]) -> (out: Vec<String>)
    ensures
        text::texts(out@) == ascending(text::texts(v@)),
{
    let ghost s = text::texts(v@);
    let mut out: Vec<String> = Vec::new();
    let mut i: usize = 0;
    assert(s.take(0) =~= seq![]);
    assert(text::texts(out@) =~= seq![]);
    while i < v.len()
        invariant
            i <= v@.len(),
            s == text::texts(v@),
            text::texts(out@) == ascending(s.take(i as int)),
        decreases v@.len() - i,
    {
        proof {
            assert(s.take(i + 1).drop_last() =~= s.take(i as int));
            assert(s.take(i + 1).last() == v@[i as int]@);
        }
        place(&mut out, &v[i]);
        i = i + 1;
    }
    assert(s.take(s.len() as int) =~= s);
    out
}

} // verus!
