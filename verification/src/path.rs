//! Unix paths as text: joining, parents, file names and components.

use crate::text;
use crate::text::{chars_of, same, text_of};
use crate::words;
use crate::words::split_on;
use vstd::prelude::*;
use vstd::string::*;

verus! {

/// Whether the path starts at the root directory.
pub open spec fn rooted(s: Seq<char>) -> bool {
    s.len() > 0 && s[0] == '/'
}

/// Whether the path starts at the root directory.
pub fn is_absolute(s: &str) -> (r: bool)
    ensures
        r == rooted(s@),
{
    s.unicode_len() > 0 && s.get_char(0) == '/'
}

/// `p` taken relative to `base`: an absolute `p` stands for itself, any other is appended with
/// one separator where `base` is neither empty nor ends with one.
pub open spec fn joined(base: Seq<char>, p: Seq<char>) -> Seq<char> {
    if rooted(p) {
        p
    } else if base.len() > 0 && base.last() != '/' {
        base + seq!['/'] + p
    } else {
        base + p
    }
}

/// `p` taken relative to `base`.
pub fn join(base: &str, p: &str) -> (r: String)
    ensures
        r@ == joined(base@, p@),
{
    if is_absolute(p) {
        return p.to_owned();
    }
    let mut out = String::from_str(base);
    let n = base.unicode_len();
    if n > 0 && base.get_char(n - 1) != '/' {
        out.push('/');
        assert(out@ =~= base@ + seq!['/']);
    }
    out.append(p);
    out
}

/// What of the path follows the root.
pub open spec fn body(s: Seq<char>) -> Seq<char> {
    if rooted(s) {
        s.skip(1)
    } else {
        s
    }
}

/// `b` without the separators and `.` components at its end; a relative path that is `.` itself
/// stays.
pub open spec fn tail_trim(b: Seq<char>, root: bool) -> Seq<char>
    decreases b.len(),
{
    if b.len() == 0 {
        b
    } else if b.last() == '/' {
        tail_trim(b.drop_last(), root)
    } else if b.last() == '.' && (if b.len() == 1 {
        root
    } else {
        b[b.len() - 2] == '/'
    }) {
        tail_trim(b.drop_last(), root)
    } else {
        b
    }
}

/// Where the last component of `t` begins: behind the last separator.
pub open spec fn last_start(t: Seq<char>) -> int
    decreases t.len(),
{
    if t.len() == 0 {
        0
    } else if t.last() == '/' {
        t.len() as int
    } else {
        last_start(t.drop_last())
    }
}

/// The path without its last component, when it has one.
pub open spec fn parent_of(s: Seq<char>) -> Option<Seq<char>> {
    let t = tail_trim(body(s), rooted(s));
    if t.len() == 0 {
        None
    } else {
        let up = tail_trim(t.take(last_start(t)), rooted(s));
        Some(
            if rooted(s) {
                seq!['/'] + up
            } else {
                up
            },
        )
    }
}

/// The last component of the path, when it is a name.
pub open spec fn file_name_of(s: Seq<char>) -> Option<Seq<char>> {
    let t = tail_trim(body(s), rooted(s));
    let name = t.skip(last_start(t));
    if t.len() == 0 || name == seq!['.', '.'] || (name == seq!['.'] && !rooted(s)) {
        None
    } else {
        Some(name)
    }
}

/// Where the last `.` of `f` stands.
pub open spec fn last_dot(f: Seq<char>) -> int
    decreases f.len(),
{
    if f.len() == 0 {
        -1
    } else if f.last() == '.' {
        f.len() - 1
    } else {
        last_dot(f.drop_last())
    }
}

/// A file name without its extension: what precedes its last `.`, unless that is at the start.
pub open spec fn stem_of(f: Seq<char>) -> Seq<char> {
    if last_dot(f) <= 0 {
        f
    } else {
        f.take(last_dot(f))
    }
}

/// The length of `tail_trim` of `cs[from..to]`, counted from the start of `cs`.
fn trim_tail(cs: &[char], from: usize, to: usize, root: bool) -> (end: usize)
    requires
        from <= to <= cs@.len(),
    ensures
        from <= end <= to,
        tail_trim(cs@.subrange(from as int, to as int), root) == cs@.subrange(
            from as int,
            end as int,
        ),
{
    let mut end: usize = to;
    loop
        invariant
            from <= end <= to <= cs@.len(),
            tail_trim(cs@.subrange(from as int, to as int), root) == tail_trim(
                cs@.subrange(from as int, end as int),
                root,
            ),
        decreases end,
    {
        let ghost b = cs@.subrange(from as int, end as int);
        if end == from {
            return end;
        }
        assert(b.drop_last() =~= cs@.subrange(from as int, end - 1));
        let c = cs[end - 1];
        if c == '/' {
            end = end - 1;
        } else if c == '.' && (if end - from == 1 {
            root
        } else {
            cs[end - 2] == '/'
        }) {
            end = end - 1;
        } else {
            return end;
        }
    }
}

/// Where the last component of `cs[from..to]` begins, counted from the start of `cs`.
fn start_of_last(cs: &[char], from: usize, to: usize) -> (k: usize)
    requires
        from <= to <= cs@.len(),
    ensures
        from <= k <= to,
        k - from == last_start(cs@.subrange(from as int, to as int)),
{
    let mut k: usize = to;
    while k > from && cs[k - 1] != '/'
        invariant
            from <= k <= to <= cs@.len(),
            last_start(cs@.subrange(from as int, to as int)) == last_start(
                cs@.subrange(from as int, k as int),
            ),
        decreases k,
    {
        assert(cs@.subrange(from as int, k as int).drop_last() =~= cs@.subrange(
            from as int,
            k - 1,
        ));
        k = k - 1;
    }
    k
}

/// The path without its last component, when it has one.
pub fn parent(s: &str) -> (r: Option<String>)
    ensures
        match r {
            Some(p) => parent_of(s@) == Some(p@),
            None => parent_of(s@) is None,
        },
{
    let cs = chars_of(s);
    let root = is_absolute(s);
    let from: usize = if root {
        1
    } else {
        0
    };
    assert(body(s@) =~= cs@.subrange(from as int, cs@.len() as int));
    let end = trim_tail(&cs, from, cs.len(), root);
    if end == from {
        return None;
    }
    let k = start_of_last(&cs, from, end);
    let up = trim_tail(&cs, from, k, root);
    proof {
        let t = cs@.subrange(from as int, end as int);
        assert(t.take(k - from) =~= cs@.subrange(from as int, k as int));
        assert(!root ==> cs@.subrange(0, up as int) =~= cs@.subrange(from as int, up as int));
        assert(root ==> cs@.subrange(0, up as int) =~= seq!['/'] + cs@.subrange(
            from as int,
            up as int,
        ));
    }
    Some(text_of(&cs, 0, up))
}

/// The last component of the path, when it is a name.
pub fn file_name(s: &str) -> (r: Option<String>)
    ensures
        match r {
            Some(n) => file_name_of(s@) == Some(n@),
            None => file_name_of(s@) is None,
        },
{
    let cs = chars_of(s);
    let root = is_absolute(s);
    let from: usize = if root {
        1
    } else {
        0
    };
    assert(body(s@) =~= cs@.subrange(from as int, cs@.len() as int));
    let end = trim_tail(&cs, from, cs.len(), root);
    if end == from {
        return None;
    }
    let k = start_of_last(&cs, from, end);
    let name = text_of(&cs, k, end);
    proof {
        reveal_strlit(".");
        reveal_strlit("..");
        let t = cs@.subrange(from as int, end as int);
        assert(t.skip(k - from) =~= cs@.subrange(k as int, end as int));
        assert("."@ =~= seq!['.']);
        assert(".."@ =~= seq!['.', '.']);
    }
    if same(name.as_str(), "..") || (same(name.as_str(), ".") && !root) {
        None
    } else {
        Some(name)
    }
}

/// A file name without its extension.
pub fn stem(f: &str) -> (r: String)
    ensures
        r@ == stem_of(f@),
{
    let cs = chars_of(f);
    let mut k: usize = cs.len();
    assert(cs@.take(cs@.len() as int) =~= f@);
    while k > 0 && cs[k - 1] != '.'
        invariant
            k <= cs@.len(),
            cs@ == f@,
            last_dot(f@) == last_dot(cs@.take(k as int)),
        decreases k,
    {
        assert(cs@.take(k as int).drop_last() =~= cs@.take(k - 1));
        k = k - 1;
    }
    if k <= 1 {
        f.to_owned()
    } else {
        assert(cs@.subrange(0, k - 1) =~= f@.take(k - 1));
        text_of(&cs, 0, k - 1)
    }
}

// ---- components ----------------------------------------------------------------

/// Whether a piece between separators is a component: not empty and not `.`.
pub open spec fn is_component(p: Seq<char>) -> bool {
    p.len() > 0 && p != seq!['.']
}

/// The components of the path: the pieces between separators that are neither empty nor `.`.
pub open spec fn components(s: Seq<char>) -> Seq<Seq<char>> {
    kept(words::pieces(s, '/'))
}

/// The pieces that are components.
pub open spec fn kept(ps: Seq<Seq<char>>) -> Seq<Seq<char>> {
    ps.filter(|p: Seq<char>| is_component(p))
}

/// The components of the path.
pub fn components_of(s: &str) -> (out: Vec<String>)
    ensures
        text::texts(out@) == components(s@),
{
    let all = split_on(s, '/');
    let mut out: Vec<String> = Vec::new();
    let mut i: usize = 0;
    let ghost keep = |p: Seq<char>| is_component(p);
    proof {
        reveal_strlit(".");
        assert("."@ =~= seq!['.']);
        assert(text::texts(all@).take(0).filter(keep) =~= seq![]) by {
            reveal(Seq::filter);
        }
    }
    while i < all.len()
        invariant
            i <= all@.len(),
            "."@ == seq!['.'],
            keep == (|p: Seq<char>| is_component(p)),
            text::texts(out@) == text::texts(all@).take(i as int).filter(keep),
        decreases all@.len() - i,
    {
        let ghost before = out@;
        proof {
            reveal(Seq::filter);
            let a = text::texts(all@).take(i + 1);
            assert(a.drop_last() =~= text::texts(all@).take(i as int));
            assert(a.last() == all@[i as int]@);
        }
        if !all[i].as_str().is_empty() && !same(all[i].as_str(), ".") {
            out.push(all[i].clone());
            assert(text::texts(out@) =~= text::texts(before).push(all@[i as int]@));
        }
        i = i + 1;
    }
    assert(text::texts(all@).take(all@.len() as int) =~= text::texts(all@));
    out
}

/// Whether the absolute path `dir` is `s` itself or one of the directories above it.
pub open spec fn lies_under(s: Seq<char>, dir: Seq<char>) -> bool {
    rooted(s) && components(dir).is_prefix_of(components(s))
}

/// Whether `s` is the absolute directory `dir` or lies in it, component by component.
pub fn is_under(s: &str, dir: &str) -> (r: bool)
    ensures
        r == lies_under(s@, dir@),
{
    if !is_absolute(s) {
        return false;
    }
    let a = components_of(s);
    let b = components_of(dir);
    if b.len() > a.len() {
        return false;
    }
    let mut i: usize = 0;
    while i < b.len()
        invariant
            i <= b@.len() <= a@.len(),
            text::texts(a@) == components(s@),
            text::texts(b@) == components(dir@),
            forall|j: int| 0 <= j < i ==> text::texts(a@)[j] == text::texts(b@)[j],
        decreases b@.len() - i,
    {
        if !same(a[i].as_str(), b[i].as_str()) {
            assert(text::texts(a@)[i as int] != text::texts(b@)[i as int]);
            return false;
        }
        i = i + 1;
    }
    assert(components(s@).take(b@.len() as int) =~= components(dir@));
    true
}

/// A name joined onto a directory has that name as its last component: what is written under a
/// directory is found again by its file name.
pub proof fn law_join_file_name(base: Seq<char>, name: Seq<char>)
    requires
        name.len() > 0,
        !name.contains('/'),
        name != seq!['.'],
        name != seq!['.', '.'],
    ensures
        file_name_of(joined(base, name)) == Some(name),
{
    let s = joined(base, name);
    assert(name[0] != '/') by {
        assert(name.contains(name[0]));
    }
    assert(name.last() != '/') by {
        assert(name.contains(name.last()));
    }
    let b = body(s);
    let at = b.len() - name.len();
    if rooted(s) {
        assert(base.len() > 0);
    }
    assert(b.skip(at) =~= name);
    assert(b.last() == name.last());
    if b.last() == '.' && name.len() == 1 {
        assert(name =~= seq!['.']);
    }
    if name.len() > 1 {
        assert(b[b.len() - 2] == name[name.len() - 2]);
        assert(name.contains(name[name.len() - 2]));
    }
    assert(tail_trim(b, rooted(s)) == b);
    assert(at == 0 || b[at - 1] == '/');
    lemma_last_start(b, at);
}

/// The path without the separators and the `.` components at its end.
pub open spec fn trimmed(s: Seq<char>) -> Seq<char> {
    if rooted(s) {
        seq!['/'] + tail_trim(body(s), true)
    } else {
        tail_trim(s, false)
    }
}

/// What lies over a name that was joined onto a directory is that directory.
pub proof fn law_join_parent(base: Seq<char>, name: Seq<char>)
    requires
        name.len() > 0,
        !name.contains('/'),
        name != seq!['.'],
        name != seq!['.', '.'],
    ensures
        parent_of(joined(base, name)) == Some(trimmed(base)),
        rooted(trimmed(base)) == rooted(base),
        dotted(trimmed(base)) == dotted(base),
        components(trimmed(base)) == components(base),
{
    lemma_join_over(base, name);
    lemma_trimmed(base);
}

#[verifier::spinoff_prover]
proof fn lemma_join_over(base: Seq<char>, name: Seq<char>)
    requires
        name.len() > 0,
        !name.contains('/'),
        name != seq!['.'],
        name != seq!['.', '.'],
    ensures
        parent_of(joined(base, name)) == Some(trimmed(base)),
{
    let s = joined(base, name);
    assert(name[0] != '/') by {
        assert(name.contains(name[0]));
    }
    assert(name.last() != '/') by {
        assert(name.contains(name.last()));
    }
    let b = body(s);
    let at = b.len() - name.len();
    if rooted(s) {
        assert(base.len() > 0);
    }
    assert(b.skip(at) =~= name);
    assert(b.last() == name.last());
    if b.last() == '.' && name.len() == 1 {
        assert(name =~= seq!['.']);
    }
    if name.len() > 1 {
        assert(b[b.len() - 2] == name[name.len() - 2]);
        assert(name.contains(name[name.len() - 2]));
    }
    assert(tail_trim(b, rooted(s)) == b);
    assert(at == 0 || b[at - 1] == '/');
    lemma_last_start(b, at);
    let over = b.take(at);
    if base.len() == 0 {
        assert(over =~= body(base));
    } else if base.last() != '/' {
        assert(over =~= body(base) + seq!['/']);
        assert(over.drop_last() =~= body(base));
    } else {
        assert(over =~= body(base));
    }
}

proof fn lemma_trimmed(s: Seq<char>)
    ensures
        rooted(trimmed(s)) == rooted(s),
        dotted(trimmed(s)) == dotted(s),
        components(trimmed(s)) == components(s),
        trimmed(trimmed(s)) == trimmed(s),
{
    let b = body(s);
    lemma_tail_trim(b, rooted(s));
    let t = tail_trim(b, rooted(s));
    if rooted(s) {
        let none: Seq<char> = seq![];
        assert(s =~= none + seq!['/'] + b);
        assert(trimmed(s) =~= none + seq!['/'] + t);
        words::law_pieces_concat(none, b, '/');
        words::law_pieces_concat(none, t, '/');
        lemma_kept_concat(words::pieces(none, '/'), words::pieces(b, '/'));
        lemma_kept_concat(words::pieces(none, '/'), words::pieces(t, '/'));
        assert(body(trimmed(s)) =~= t);
    }
}

/// Trimming a path keeps its last component.
pub proof fn lemma_trimmed_file_name(s: Seq<char>)
    ensures
        file_name_of(trimmed(s)) == file_name_of(s),
{
    lemma_trimmed(s);
    lemma_tail_trim(body(s), rooted(s));
    let t = tail_trim(body(s), rooted(s));
    if rooted(s) {
        assert(body(trimmed(s)) =~= t);
    }
}

proof fn lemma_tail_trim(b: Seq<char>, root: bool)
    ensures
        tail_trim(b, root).is_prefix_of(b),
        tail_trim(tail_trim(b, root), root) == tail_trim(b, root),
        components(tail_trim(b, root)) == components(b),
        !root && b.len() > 0 && b[0] != '/' ==> tail_trim(b, root).len() > 0 && dotted(
            tail_trim(b, root),
        ) == dotted(b),
    decreases b.len(),
{
    let none: Seq<char> = seq![];
    let dot: Seq<char> = seq!['.'];
    assert(words::pieces(none, '/') =~= seq![none]);
    assert(kept(seq![none]) =~= seq![] && kept(seq![dot]) =~= seq![]) by {
        reveal(Seq::filter);
        assert(seq![none].drop_last() =~= seq![]);
        assert(seq![dot].drop_last() =~= seq![]);
        assert(!is_component(seq![none].last()) && !is_component(seq![dot].last()));
        assert(kept(seq![none]) =~= kept(seq![none].drop_last()));
        assert(kept(seq![dot]) =~= kept(seq![dot].drop_last()));
    }
    if b.len() == 0 {
    } else if b.last() == '/' {
        let c = b.drop_last();
        lemma_tail_trim(c, root);
        assert(b =~= c + seq!['/'] + none);
        words::law_pieces_concat(c, none, '/');
        lemma_kept_concat(words::pieces(c, '/'), seq![none]);
        assert(components(b) =~= components(c));
    } else if b.last() == '.' && (if b.len() == 1 {
        root
    } else {
        b[b.len() - 2] == '/'
    }) {
        let c = b.drop_last();
        lemma_tail_trim(c, root);
        if b.len() == 1 {
            assert(b =~= dot);
            assert(c =~= none);
            assert(!dot.contains('/'));
            words::law_join_pieces(seq![dot], '/');
            assert(words::joined(seq![dot], seq!['/']) =~= dot);
        } else {
            let d = c.drop_last();
            assert(c =~= d + seq!['/'] + none);
            assert(b =~= d + seq!['/'] + dot);
            words::law_pieces_concat(d, none, '/');
            words::law_pieces_concat(d, dot, '/');
            words::law_join_pieces(seq![dot], '/');
            assert(words::joined(seq![dot], seq!['/']) =~= dot);
            lemma_kept_concat(words::pieces(d, '/'), seq![none]);
            lemma_kept_concat(words::pieces(d, '/'), seq![dot]);
            assert(components(b) =~= components(c));
        }
    }
}

proof fn lemma_start_bound(t: Seq<char>)
    ensures
        0 <= last_start(t) <= t.len(),
    decreases t.len(),
{
    if t.len() > 0 && t.last() != '/' {
        lemma_start_bound(t.drop_last());
    }
}

/// A path's parent has nothing at its end to trim.
pub proof fn law_parent_is_trimmed(s: Seq<char>)
    ensures
        parent_of(s) matches Some(d) ==> trimmed(d) == d,
{
    let root = rooted(s);
    let t = tail_trim(body(s), root);
    if t.len() > 0 {
        lemma_start_bound(t);
        let over = t.take(last_start(t));
        lemma_tail_trim(body(s), root);
        lemma_tail_trim(over, root);
        let up = tail_trim(over, root);
        if root {
            assert(body(seq!['/'] + up) =~= up);
        } else if up.len() > 0 {
            assert(up[0] == over[0] && over[0] == t[0] && t[0] == s[0]);
        }
    }
}

proof fn lemma_last_start(t: Seq<char>, at: int)
    requires
        0 <= at <= t.len(),
        at == 0 || t[at - 1] == '/',
        forall|i: int| at <= i < t.len() ==> t[i] != '/',
    ensures
        last_start(t) == at,
    decreases t.len(),
{
    if t.len() > at {
        lemma_last_start(t.drop_last(), at);
    }
}

/// What follows the last `.` of a file name, where a name stands before it.
pub open spec fn extension_of(f: Seq<char>) -> Option<Seq<char>> {
    if last_dot(f) <= 0 {
        None
    } else {
        Some(f.skip(last_dot(f) + 1))
    }
}

/// Whether the file name `f` has the extension `e`.
pub fn has_extension(f: &str, e: &str) -> (r: bool)
    ensures
        r == (extension_of(f@) == Some(e@)),
{
    let cs = chars_of(f);
    let k: usize = chars_of(stem(f).as_str()).len();
    proof {
        lemma_last_dot_bound(f@);
    }
    if k == cs.len() {
        return false;
    }
    let rest = text_of(cs.as_slice(), k + 1, cs.len());
    assert(rest@ =~= f@.skip(last_dot(f@) + 1));
    text::same(rest.as_str(), e)
}

/// Whether the file name `f` has an extension.
pub fn has_any_extension(f: &str) -> (r: bool)
    ensures
        r == (extension_of(f@) is Some),
{
    let n: usize = chars_of(f).len();
    let k: usize = chars_of(stem(f).as_str()).len();
    proof {
        lemma_last_dot_bound(f@);
    }
    k < n
}

/// The last `.` is the one that no other follows.
pub proof fn lemma_last_dot(f: Seq<char>, at: int)
    requires
        0 <= at < f.len(),
        f[at] == '.',
        forall|i: int| at < i < f.len() ==> f[i] != '.',
    ensures
        last_dot(f) == at,
    decreases f.len(),
{
    if f.len() - 1 > at {
        lemma_last_dot(f.drop_last(), at);
    }
}

proof fn lemma_last_dot_bound(f: Seq<char>)
    ensures
        last_dot(f) < f.len(),
    decreases f.len(),
{
    if f.len() > 0 {
        lemma_last_dot_bound(f.drop_last());
    }
}

// ---- laws of components --------------------------------------------------------

proof fn lemma_kept(ps: Seq<Seq<char>>)
    requires
        forall|i: int| 0 <= i < ps.len() ==> !(#[trigger] ps[i]).contains('/'),
    ensures
        forall|i: int|
            0 <= i < kept(ps).len() ==> is_component(#[trigger] kept(ps)[i]) && !kept(
                ps,
            )[i].contains('/'),
    decreases ps.len(),
{
    reveal(Seq::filter);
    if ps.len() > 0 {
        let front = ps.drop_last();
        assert forall|i: int| 0 <= i < front.len() implies !(#[trigger] front[i]).contains('/') by {
            assert(front[i] == ps[i]);
        }
        lemma_kept(front);
        assert(!ps[ps.len() - 1].contains('/'));
        assert forall|i: int| 0 <= i < kept(ps).len() implies is_component(#[trigger] kept(ps)[i])
            && !kept(ps)[i].contains('/') by {
            if i < kept(front).len() {
                assert(kept(ps)[i] == kept(front)[i]);
            } else {
                assert(kept(ps)[i] == ps.last());
            }
        }
    }
}

proof fn lemma_kept_all(ps: Seq<Seq<char>>)
    requires
        forall|i: int| 0 <= i < ps.len() ==> is_component(#[trigger] ps[i]),
    ensures
        kept(ps) == ps,
    decreases ps.len(),
{
    reveal(Seq::filter);
    if ps.len() > 0 {
        let front = ps.drop_last();
        assert forall|i: int| 0 <= i < front.len() implies is_component(#[trigger] front[i]) by {
            assert(front[i] == ps[i]);
        }
        lemma_kept_all(front);
        assert(is_component(ps[ps.len() - 1]));
        assert(front.push(ps.last()) =~= ps);
    } else {
        assert(kept(ps) =~= ps);
    }
}

proof fn lemma_kept_concat(a: Seq<Seq<char>>, b: Seq<Seq<char>>)
    ensures
        kept(a + b) == kept(a) + kept(b),
    decreases b.len(),
{
    reveal(Seq::filter);
    if b.len() == 0 {
        assert(a + b =~= a);
        assert(kept(a) + kept(b) =~= kept(a));
    } else {
        lemma_kept_concat(a, b.drop_last());
        assert((a + b).drop_last() =~= a + b.drop_last());
        assert((a + b).last() == b.last());
        assert(kept(a + b) =~= kept(a) + kept(b));
    }
}

/// Nothing but the components of a path says what it names: joining a relative path to a directory
/// puts its components behind the directory's.
pub proof fn law_join_components(base: Seq<char>, p: Seq<char>)
    requires
        !rooted(p),
    ensures
        components(joined(base, p)) == components(base) + components(p),
{
    let none: Seq<char> = seq![];
    assert(words::pieces(none, '/') =~= seq![none]);
    assert(components(none) =~= seq![]) by {
        reveal(Seq::filter);
        let one = seq![none];
        assert(one.drop_last() =~= seq![]);
        assert(!is_component(one.last()));
        assert(kept(one) =~= kept(one.drop_last()));
        assert(kept(one.drop_last()).len() == 0);
    }
    if base.len() == 0 {
        assert(base =~= none);
        assert(base + p =~= p);
        assert(components(base) + components(p) =~= components(p));
    } else if base.last() != '/' {
        words::law_pieces_concat(base, p, '/');
        lemma_kept_concat(words::pieces(base, '/'), words::pieces(p, '/'));
    } else {
        let b = base.drop_last();
        assert(base =~= b + seq!['/'] + none);
        assert(base + p =~= b + seq!['/'] + p);
        words::law_pieces_concat(b, none, '/');
        words::law_pieces_concat(b, p, '/');
        lemma_kept_concat(words::pieces(b, '/'), words::pieces(none, '/'));
        lemma_kept_concat(words::pieces(b, '/'), words::pieces(p, '/'));
        assert(components(base) =~= components(b));
    }
}

/// The components of a path, joined again, are a relative path with the same components.
pub proof fn law_components_rejoin(s: Seq<char>)
    requires
        components(s).len() > 0,
    ensures
        !rooted(words::joined(components(s), seq!['/'])),
        components(words::joined(components(s), seq!['/'])) == components(s),
{
    let cs = components(s);
    words::lemma_pieces_free(s, '/');
    lemma_kept(words::pieces(s, '/'));
    assert forall|i: int| 0 <= i < cs.len() implies !(#[trigger] cs[i]).contains('/') by {
        assert(kept(words::pieces(s, '/'))[i] == cs[i]);
    }
    words::law_join_pieces(cs, '/');
    assert forall|i: int| 0 <= i < cs.len() implies is_component(#[trigger] cs[i]) by {
        assert(kept(words::pieces(s, '/'))[i] == cs[i]);
    }
    lemma_kept_all(cs);
    let t = words::joined(cs, seq!['/']);
    if rooted(t) {
        text::lemma_until_is(t, '/', 0);
        assert(words::pieces(t, '/')[0] =~= t.take(0));
        assert(is_component(cs[0]));
        assert(false);
    }
}

// ---- relative paths ------------------------------------------------------------

/// Whether the path starts at the directory `.`, by name.
pub open spec fn dotted(s: Seq<char>) -> bool {
    s.len() > 0 && s[0] == '.' && (s.len() == 1 || s[1] == '/')
}

/// `b` without the separators and `.` components at its start.
pub open spec fn front_trim(b: Seq<char>) -> Seq<char>
    decreases b.len(),
{
    if b.len() > 0 && (b[0] == '/' || dotted(b)) {
        front_trim(b.drop_first())
    } else {
        b
    }
}

/// `b` from its first separator on.
pub open spec fn past_first(b: Seq<char>) -> Seq<char>
    decreases b.len(),
{
    if b.len() == 0 || b[0] == '/' {
        b
    } else {
        past_first(b.drop_first())
    }
}

/// What follows the first `n` components of `b`.
pub open spec fn after(b: Seq<char>, n: nat) -> Seq<char>
    decreases n,
{
    if n == 0 {
        front_trim(b)
    } else {
        after(past_first(front_trim(b)), (n - 1) as nat)
    }
}

/// What of the path `s` follows the directory `base`, as it is written there, where `s` lies in
/// it: component by component, from the root or from `.` where `base` names one of them.
pub open spec fn relative_to(s: Seq<char>, base: Seq<char>) -> Option<Seq<char>> {
    let same_start = if rooted(base) {
        rooted(s)
    } else if dotted(base) {
        dotted(s)
    } else {
        base.len() == 0 || (!rooted(s) && !dotted(s))
    };
    if !same_start || !components(base).is_prefix_of(components(s)) {
        None
    } else if base.len() == 0 {
        Some(trimmed(s))
    } else {
        Some(tail_trim(after(body(s), components(base).len()), true))
    }
}

fn starts_dotted(s: &str) -> (r: bool)
    ensures
        r == dotted(s@),
{
    let n = s.unicode_len();
    n > 0 && s.get_char(0) == '.' && (n == 1 || s.get_char(1) == '/')
}

fn skip_front(cs: &[char], from: usize) -> (k: usize)
    requires
        from <= cs@.len(),
    ensures
        from <= k <= cs@.len(),
        cs@.skip(k as int) == front_trim(cs@.skip(from as int)),
{
    let n: usize = cs.len();
    let mut k: usize = from;
    while k < n && (cs[k] == '/' || (cs[k] == '.' && (k + 1 == n || cs[k + 1] == '/')))
        invariant
            from <= k <= n,
            n == cs@.len(),
            front_trim(cs@.skip(k as int)) == front_trim(cs@.skip(from as int)),
        decreases n - k,
    {
        assert(cs@.skip(k as int).drop_first() =~= cs@.skip(k + 1));
        k = k + 1;
    }
    k
}

fn skip_first(cs: &[char], from: usize) -> (k: usize)
    requires
        from <= cs@.len(),
    ensures
        from <= k <= cs@.len(),
        cs@.skip(k as int) == past_first(cs@.skip(from as int)),
{
    let n: usize = cs.len();
    let mut k: usize = from;
    while k < n && cs[k] != '/'
        invariant
            from <= k <= n,
            n == cs@.len(),
            past_first(cs@.skip(k as int)) == past_first(cs@.skip(from as int)),
        decreases n - k,
    {
        assert(cs@.skip(k as int).drop_first() =~= cs@.skip(k + 1));
        k = k + 1;
    }
    k
}

/// The path without the separators and the `.` components at its end.
fn trimmed_text(s: &str) -> (r: String)
    ensures
        r@ == trimmed(s@),
{
    let cs = chars_of(s);
    let from: usize = if is_absolute(s) {
        1
    } else {
        0
    };
    let end = trim_tail(cs.as_slice(), from, cs.len(), from == 1);
    proof {
        assert(cs@.subrange(from as int, cs@.len() as int) =~= body(s@));
        assert(cs@.subrange(0, end as int) =~= trimmed(s@));
    }
    text_of(&cs, 0, end)
}

/// What of the path `s` follows the directory `base`, where `s` lies in it.
pub fn strip_base(s: &str, base: &str) -> (r: Option<String>)
    ensures
        match relative_to(s@, base@) {
            Some(t) => r matches Some(x) && x@ == t,
            None => r is None,
        },
{
    let same_start = if is_absolute(base) {
        is_absolute(s)
    } else if starts_dotted(base) {
        starts_dotted(s)
    } else {
        base.unicode_len() == 0 || (!is_absolute(s) && !starts_dotted(s))
    };
    if !same_start {
        return None;
    }
    let a = components_of(s);
    let b = components_of(base);
    let n: usize = b.len();
    proof {
        assert(text::texts(a@).len() == a@.len() && text::texts(b@).len() == n);
    }
    if n > a.len() {
        return None;
    }
    let mut i: usize = 0;
    while i < n
        invariant
            i <= n,
            n == b@.len(),
            n <= a@.len(),
            text::texts(a@) == components(s@),
            text::texts(b@) == components(base@),
            forall|j: int| 0 <= j < i ==> text::texts(a@)[j] == text::texts(b@)[j],
        decreases n - i,
    {
        if !same(a[i].as_str(), b[i].as_str()) {
            assert(text::texts(a@)[i as int] != text::texts(b@)[i as int]);
            return None;
        }
        i = i + 1;
    }
    assert(components(s@).take(n as int) =~= components(base@));
    if base.unicode_len() == 0 {
        return Some(trimmed_text(s));
    }
    let cs = chars_of(s);
    let mut at: usize = if is_absolute(s) {
        1
    } else {
        0
    };
    assert(cs@.skip(at as int) =~= body(s@));
    let mut k: usize = 0;
    while k < n
        invariant
            k <= n,
            at <= cs@.len(),
            after(cs@.skip(at as int), (n - k) as nat) == after(body(s@), n as nat),
        decreases n - k,
    {
        let start = skip_front(cs.as_slice(), at);
        at = skip_first(cs.as_slice(), start);
        k = k + 1;
    }
    let start = skip_front(cs.as_slice(), at);
    let end = trim_tail(cs.as_slice(), start, cs.len(), true);
    assert(cs@.subrange(start as int, cs@.len() as int) =~= cs@.skip(start as int));
    Some(text_of(&cs, start, end))
}

proof fn lemma_no_kept()
    ensures
        words::pieces(seq![], '/') == seq![Seq::<char>::empty()],
        kept(seq![Seq::<char>::empty()]) == Seq::<Seq<char>>::empty(),
        kept(seq![seq!['.']]) == Seq::<Seq<char>>::empty(),
        components(seq![]) == Seq::<Seq<char>>::empty(),
        components(seq!['.']) == Seq::<Seq<char>>::empty(),
{
    let none: Seq<char> = seq![];
    let dot: Seq<char> = seq!['.'];
    assert(words::pieces(none, '/') =~= seq![none]);
    reveal(Seq::filter);
    assert(seq![none].drop_last() =~= seq![]);
    assert(seq![dot].drop_last() =~= seq![]);
    assert(!is_component(seq![none].last()) && !is_component(seq![dot].last()));
    assert(kept(seq![none]) =~= kept(seq![none].drop_last()));
    assert(kept(seq![dot]) =~= kept(seq![dot].drop_last()));
    assert(!dot.contains('/'));
    words::law_join_pieces(seq![dot], '/');
    assert(words::joined(seq![dot], seq!['/']) =~= dot);
    assert(kept(seq![none]) =~= seq![] && kept(seq![dot]) =~= seq![]);
}

/// A separator at the start of a path adds no component.
proof fn lemma_leading_slash(b: Seq<char>)
    ensures
        components(seq!['/'] + b) == components(b),
{
    let none: Seq<char> = seq![];
    lemma_no_kept();
    assert(seq!['/'] + b =~= none + seq!['/'] + b);
    words::law_pieces_concat(none, b, '/');
    lemma_kept_concat(seq![none], words::pieces(b, '/'));
    assert(components(seq!['/'] + b) =~= components(b));
}

/// What stands before the first separator of a path is its first component, if it is one.
proof fn lemma_first_piece(p: Seq<char>, x: Seq<char>)
    requires
        !p.contains('/'),
    ensures
        components(p) == kept(seq![p]),
        components(p + seq!['/'] + x) == kept(seq![p]) + components(x),
{
    let one = seq![p];
    words::law_join_pieces(one, '/');
    assert(words::joined(one, seq!['/']) =~= p);
    words::law_pieces_concat(p, x, '/');
    lemma_kept_concat(one, words::pieces(x, '/'));
}

proof fn lemma_dot_dropped(p: Seq<char>)
    requires
        !is_component(p),
    ensures
        kept(seq![p]) == Seq::<Seq<char>>::empty(),
{
    reveal(Seq::filter);
    let one = seq![p];
    assert(one.drop_last() =~= Seq::<Seq<char>>::empty());
    assert(kept(one) =~= kept(one.drop_last()));
}

/// A `.` at the start of a path is no component.
#[verifier::spinoff_prover]
proof fn lemma_leading_dot(b: Seq<char>)
    requires
        dotted(b),
        b.len() > 1,
    ensures
        components(b) == components(b.skip(2)),
{
    let p = b.take(1);
    let x = b.skip(2);
    assert(p =~= seq!['.']);
    assert(!p.contains('/'));
    lemma_dot_dropped(p);
    lemma_first_piece(p, x);
    assert(b =~= p + seq!['/'] + x);
    assert(Seq::<Seq<char>>::empty() + components(x) =~= components(x));
}

#[verifier::spinoff_prover]
proof fn lemma_front_trim(b: Seq<char>)
    ensures
        components(front_trim(b)) == components(b),
        front_trim(b).len() > 0 ==> front_trim(b)[0] != '/' && !dotted(front_trim(b)),
    decreases b.len(),
{
    if b.len() > 0 && b[0] == '/' {
        lemma_front_trim(b.drop_first());
        assert(b =~= seq!['/'] + b.drop_first());
        lemma_leading_slash(b.drop_first());
    } else if dotted(b) {
        lemma_front_trim(b.drop_first());
        if b.len() == 1 {
            lemma_no_kept();
            assert(b =~= seq!['.']);
            assert(b.drop_first() =~= seq![]);
        } else {
            let x = b.skip(2);
            assert(b.drop_first() =~= seq!['/'] + x);
            lemma_leading_slash(x);
            lemma_leading_dot(b);
        }
    }
}

proof fn lemma_past_first_split(t: Seq<char>) -> (k: int)
    ensures
        0 <= k <= t.len(),
        past_first(t) == t.skip(k),
        forall|i: int| 0 <= i < k ==> t[i] != '/',
        k < t.len() ==> t[k] == '/',
        t.len() > 0 && t[0] != '/' ==> k > 0,
    decreases t.len(),
{
    if t.len() == 0 || t[0] == '/' {
        assert(t.skip(0) =~= t);
        0
    } else {
        let d = t.drop_first();
        let k = lemma_past_first_split(d);
        assert(d.skip(k) =~= t.skip(k + 1));
        assert forall|i: int| 0 <= i < k + 1 implies t[i] != '/' by {
            if i > 0 {
                assert(d[i - 1] == t[i]);
            }
        }
        if k < d.len() {
            assert(d[k] == t[k + 1]);
        }
        k + 1
    }
}

/// A component at the start of a path is the path's first.
proof fn lemma_first_component(p: Seq<char>, x: Seq<char>)
    requires
        is_component(p),
        !p.contains('/'),
    ensures
        components(p) == seq![p],
        components(p + seq!['/'] + x) == seq![p] + components(x),
{
    let one = seq![p];
    assert forall|i: int| 0 <= i < one.len() implies is_component(#[trigger] one[i]) by {}
    lemma_kept_all(one);
    lemma_first_piece(p, x);
}

proof fn lemma_leads(t: Seq<char>, k: int)
    requires
        0 < k <= t.len(),
        t[0] != '/',
        !dotted(t),
        forall|i: int| 0 <= i < k ==> t[i] != '/',
        k < t.len() ==> t[k] == '/',
    ensures
        is_component(t.take(k)),
        !t.take(k).contains('/'),
{
    let p = t.take(k);
    if p.contains('/') {
        let i = choose|i: int| 0 <= i < p.len() && p[i] == '/';
        assert(t[i] == '/');
    }
    if p == seq!['.'] {
        assert(p.len() == 1 && t[0] == p[0]);
    }
}

#[verifier::spinoff_prover]
proof fn lemma_past_first(t: Seq<char>)
    requires
        t.len() > 0,
        t[0] != '/',
        !dotted(t),
    ensures
        components(t).len() > 0,
        components(past_first(t)) == components(t).drop_first(),
{
    let k = lemma_past_first_split(t);
    lemma_leads(t, k);
    let p = t.take(k);
    let rest = past_first(t);
    if k == t.len() {
        lemma_first_component(p, seq![]);
        assert(p =~= t);
        assert(rest =~= Seq::<char>::empty());
        lemma_no_kept();
        assert(seq![p].drop_first() =~= Seq::<Seq<char>>::empty());
    } else {
        lemma_past_some(t, k);
    }
}

#[verifier::spinoff_prover]
proof fn lemma_past_some(t: Seq<char>, k: int)
    requires
        0 < k < t.len(),
        t[k] == '/',
        is_component(t.take(k)),
        !t.take(k).contains('/'),
    ensures
        components(t).len() > 0,
        components(t.skip(k)) == components(t).drop_first(),
{
    let p = t.take(k);
    let x = t.skip(k + 1);
    lemma_first_component(p, x);
    assert(t =~= p + seq!['/'] + x);
    assert(t.skip(k) =~= seq!['/'] + x);
    lemma_leading_slash(x);
    let all = seq![p] + components(x);
    assert(all.drop_first() =~= components(x));
}

proof fn lemma_after(b: Seq<char>, n: nat)
    requires
        n <= components(b).len(),
    ensures
        components(after(b, n)) == components(b).skip(n as int),
    decreases n,
{
    lemma_front_trim(b);
    if n == 0 {
        assert(components(b).skip(0) =~= components(b));
    } else {
        let t = front_trim(b);
        if t.len() == 0 {
            lemma_no_kept();
            assert(t =~= seq![]);
        }
        lemma_past_first(t);
        lemma_after(past_first(t), (n - 1) as nat);
        assert(components(b).drop_first().skip(n - 1) =~= components(b).skip(n as int));
    }
}

proof fn lemma_body(s: Seq<char>)
    ensures
        components(body(s)) == components(s),
{
    if rooted(s) {
        assert(s =~= seq!['/'] + body(s));
        lemma_leading_slash(body(s));
    }
}

/// What follows a directory in a path, put behind the directory again, names what the path names.
#[verifier::spinoff_prover]
pub proof fn law_relative_rejoins(s: Seq<char>, base: Seq<char>)
    ensures
        relative_to(s, base) matches Some(r) ==> components(base) + components(r) == components(s),
{
    if relative_to(s, base) is Some {
        let n = components(base).len();
        if base.len() == 0 {
            lemma_no_kept();
            lemma_trimmed(s);
            assert(base =~= seq![]);
            assert(components(base) + components(trimmed(s)) =~= components(s));
        } else {
            lemma_body(s);
            lemma_after(body(s), n);
            lemma_tail_trim(after(body(s), n), true);
            assert(components(base) + components(s).skip(n as int) =~= components(s));
        }
    }
}

// ---- what holds of the whole ----------------------------------------------------

proof fn lemma_last_dot_is(f: Seq<char>)
    ensures
        -1 <= last_dot(f) < f.len(),
        last_dot(f) >= 0 ==> f[last_dot(f)] == '.',
        forall|i: int| last_dot(f) < i < f.len() ==> #[trigger] f[i] != '.',
    decreases f.len(),
{
    if f.len() > 0 && f.last() != '.' {
        let front = f.drop_last();
        lemma_last_dot_is(front);
        assert forall|i: int| last_dot(f) < i < f.len() implies #[trigger] f[i] != '.' by {
            if i < front.len() {
                assert(front[i] == f[i]);
            }
        }
    }
}

/// A name is its stem, and behind a dot its extension where it has one, which has no dot; a dot at the
/// front makes none.
pub proof fn law_name_is_stem_and_extension(f: &str, stem_part: String, e: &str, has: bool, any: bool)
    requires
        call_ensures(stem, (f,), stem_part),
        call_ensures(has_extension, (f, e), has),
        call_ensures(has_any_extension, (f,), any),
    ensures
        has ==> f@ == stem_part@ + seq!['.'] + e@ && !e@.contains('.'),
        has ==> any,
        !any ==> stem_part@ == f@,
        any ==> stem_part@.len() > 0 && stem_part@.len() < f@.len() && stem_part@.is_prefix_of(f@),
        f@ == stem_part@ + seq!['.'] + e@ && !e@.contains('.') && stem_part@.len() > 0 ==> has,
        !f@.contains('.') ==> !any,
{
    lemma_last_dot_is(f@);
    let k = last_dot(f@);
    if any {
        assert(f@.take(k) =~= f@.subrange(0, k));
        assert(f@ =~= f@.take(k) + seq!['.'] + f@.skip(k + 1));
        assert(f@[k] == '.');
    }
    if has && e@.contains('.') {
        let i = choose|i: int| 0 <= i < e@.len() && e@[i] == '.';
        assert(f@[k + 1 + i] == '.');
    }
    if f@ == stem_part@ + seq!['.'] + e@ && !e@.contains('.') && stem_part@.len() > 0 {
        let n = stem_part@.len() as int;
        assert(f@[n] == '.');
        if k > n {
            assert(e@[k - n - 1] == f@[k]);
            assert(e@.contains('.'));
        }
        assert(k == n);
        assert(f@.skip(k + 1) =~= e@);
    }
}

/// What stands below an absolute directory lies under it, and the directory under itself.
pub proof fn law_what_is_below_lies_under(dir: &str, p: &str, whole: String, w: &str, a: bool, b: bool)
    requires
        call_ensures(join, (dir, p), whole),
        call_ensures(is_under, (w, dir), a),
        w@ == whole@,
        call_ensures(is_under, (dir, dir), b),
        dir@.len() > 0,
        dir@[0] == '/',
        p@.len() == 0 || p@[0] != '/',
    ensures
        a,
        b,
{
    law_join_components(dir@, p@);
    let c = components(dir@);
    let all = components(joined(dir@, p@));
    assert(all.subrange(0, c.len() as int) =~= c);
    assert(c.subrange(0, c.len() as int) =~= c);
    assert(whole@[0] == '/');
}

/// An absolute path is taken as it is wherever it is joined to, and nothing else is absolute.
pub proof fn law_absolute_paths_stand_alone(base: &str, p: &str, r: String, a: bool)
    requires
        call_ensures(join, (base, p), r),
        call_ensures(is_absolute, (p,), a),
    ensures
        a <==> p@.len() > 0 && p@[0] == '/',
        a ==> r@ == p@,
        !a ==> base@.is_prefix_of(r@) && p@.is_suffix_of(r@),
        !a && base@.len() > 0 && base@.last() != '/' ==> r@ == base@ + seq!['/'] + p@,
{
    if !a {
        let n = r@.len() as int;
        assert(r@.subrange(0, base@.len() as int) =~= base@);
        assert(r@.subrange(n - p@.len(), n) =~= p@);
    }
}

} // verus!
