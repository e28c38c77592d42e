//! Cutting text apart and putting it together: trimming, pieces, lines, words, joining.

use crate::text;
use crate::text::{chars_of, index_from, is_whitespace, text_of};
use vstd::prelude::*;
use vstd::string::*;

verus! {

// ---- trimming ------------------------------------------------------------------

/// `s` without its leading white space.
pub open spec fn trim_front(s: Seq<char>) -> Seq<char>
    decreases s.len(),
{
    if s.len() > 0 && text::is_white(s[0]) {
        trim_front(s.drop_first())
    } else {
        s
    }
}

/// `s` without its trailing white space.
pub open spec fn trim_back(s: Seq<char>) -> Seq<char>
    decreases s.len(),
{
    if s.len() > 0 && text::is_white(s.last()) {
        trim_back(s.drop_last())
    } else {
        s
    }
}

/// `s` without leading and trailing white space.
pub open spec fn trim(s: Seq<char>) -> Seq<char> {
    trim_back(trim_front(s))
}

proof fn lemma_trim_front(s: Seq<char>, i: int)
    requires
        0 <= i <= s.len(),
        forall|j: int| 0 <= j < i ==> text::is_white(s[j]),
        i < s.len() ==> !text::is_white(s[i]),
    ensures
        trim_front(s) == s.skip(i),
    decreases i,
{
    if i == 0 {
        assert(s.skip(0) =~= s);
    } else {
        assert(text::is_white(s[0]));
        assert forall|j: int| 0 <= j < i - 1 implies text::is_white(s.drop_first()[j]) by {
            assert(s.drop_first()[j] == s[j + 1]);
        }
        lemma_trim_front(s.drop_first(), i - 1);
        assert(s.drop_first().skip(i - 1) =~= s.skip(i));
    }
}

proof fn lemma_trim_back(s: Seq<char>, n: int)
    requires
        0 <= n <= s.len(),
        forall|j: int| n <= j < s.len() ==> text::is_white(s[j]),
        n > 0 ==> !text::is_white(s[n - 1]),
    ensures
        trim_back(s) == s.take(n),
    decreases s.len(),
{
    if n == s.len() {
        assert(s.take(n) =~= s);
    } else {
        lemma_trim_back(s.drop_last(), n);
        assert(s.drop_last().take(n) =~= s.take(n));
    }
}

/// The position of the first character of `cs[from..]` that is not white space.
fn skip_white(cs: &[char], from: usize) -> (i: usize)
    requires
        from <= cs@.len(),
    ensures
        from <= i <= cs@.len(),
        forall|j: int| from <= j < i ==> text::is_white(cs@[j]),
        i < cs@.len() ==> !text::is_white(cs@[i as int]),
        trim_front(cs@.skip(from as int)) == cs@.skip(i as int),
{
    let mut i: usize = from;
    while i < cs.len() && is_whitespace(cs[i])
        invariant
            from <= i <= cs@.len(),
            forall|j: int| from <= j < i ==> text::is_white(cs@[j]),
        decreases cs@.len() - i,
    {
        i = i + 1;
    }
    proof {
        lemma_trim_front(cs@.skip(from as int), i - from);
        assert(cs@.skip(from as int).skip(i - from) =~= cs@.skip(i as int));
    }
    i
}

/// `s` without leading white space.
pub fn trim_start(s: &str) -> (r: &str)
    ensures
        r@ == trim_front(s@),
{
    let cs = chars_of(s);
    let i = skip_white(&cs, 0);
    proof {
        assert(cs@.skip(0) =~= s@);
    }
    let r = s.substring_char(i, cs.len());
    assert(r@ =~= s@.skip(i as int));
    r
}

/// `s` without trailing white space.
pub fn trim_end(s: &str) -> (r: &str)
    ensures
        r@ == trim_back(s@),
{
    let cs = chars_of(s);
    let mut n: usize = cs.len();
    while n > 0 && is_whitespace(cs[n - 1])
        invariant
            n <= cs@.len(),
            forall|j: int| n <= j < cs@.len() ==> text::is_white(cs@[j]),
        decreases n,
    {
        n = n - 1;
    }
    proof {
        lemma_trim_back(s@, n as int);
    }
    let r = s.substring_char(0, n);
    assert(r@ =~= s@.take(n as int));
    r
}

/// `s` without leading and trailing white space.
pub fn trimmed(s: &str) -> (r: &str)
    ensures
        r@ == trim(s@),
{
    trim_end(trim_start(s))
}

/// Trimming a second time changes nothing.
pub proof fn law_trim_idempotent(s: Seq<char>)
    ensures
        trim(trim(s)) == trim(s),
{
    lemma_trim_front_head(s);
    lemma_trim_back_shape(trim_front(s));
    lemma_trim_back_shape(trim(s));
    let t = trim_front(s);
    let u = trim_back(t);
    if u.len() > 0 {
        assert(u[0] == t[0]);
    }
}

/// White space behind a trimmed text is trimmed again.
pub proof fn lemma_trim_with_white(s: Seq<char>, c: char)
    requires
        trim(s) == s,
        text::is_white(c),
    ensures
        trim(s.push(c)) == s,
{
    let p = s.push(c);
    assert(p.drop_last() =~= s);
    lemma_trim_front_head(s);
    lemma_trim_back_shape(trim_front(s));
    if s.len() == 0 {
        assert(p.drop_first() =~= seq![]);
        assert(trim_front(p) == trim_front(seq![]));
    } else {
        assert(s[0] == trim_front(s)[0]);
        assert(p[0] == s[0]);
        assert(trim_back(p) == trim_back(s));
        assert(trim_front(s) == s);
    }
}

proof fn lemma_trim_front_head(s: Seq<char>)
    ensures
        trim_front(s).len() > 0 ==> !text::is_white(trim_front(s)[0]),
    decreases s.len(),
{
    if s.len() > 0 && text::is_white(s[0]) {
        lemma_trim_front_head(s.drop_first());
    }
}

proof fn lemma_trim_back_shape(s: Seq<char>)
    ensures
        trim_back(s).len() <= s.len(),
        trim_back(s) == s.take(trim_back(s).len() as int),
        trim_back(s).len() > 0 ==> !text::is_white(trim_back(s).last()),
    decreases s.len(),
{
    if s.len() > 0 && text::is_white(s.last()) {
        lemma_trim_back_shape(s.drop_last());
        let n = trim_back(s).len() as int;
        assert(s.drop_last().take(n) =~= s.take(n));
    } else {
        assert(s.take(s.len() as int) =~= s);
    }
}

// ---- pieces --------------------------------------------------------------------

/// The pieces of `s` between the occurrences of `c`: one more than there are occurrences.
pub open spec fn pieces(s: Seq<char>, c: char) -> Seq<Seq<char>>
    decreases s.len(),
    via pieces_decreases
{
    let k = text::until(s, c);
    if k >= s.len() {
        seq![s]
    } else {
        seq![s.take(k)] + pieces(s.skip(k + 1), c)
    }
}

#[via_fn]
proof fn pieces_decreases(s: Seq<char>, c: char) {
    text::lemma_until(s, c);
}

/// The pieces of `s` between the occurrences of `c`.
pub fn split_on(s: &str, c: char) -> (out: Vec<String>)
    ensures
        text::texts(out@) == pieces(s@, c),
        out@.len() >= 1,
{
    let cs = chars_of(s);
    let mut out: Vec<String> = Vec::new();
    let mut from: usize = 0;
    assert(cs@.skip(0) =~= s@);
    loop
        invariant
            from <= cs@.len(),
            cs@ == s@,
            text::texts(out@) + pieces(cs@.skip(from as int), c) == pieces(s@, c),
        decreases cs@.len() - from,
    {
        let k = index_from(&cs, from, c);
        let ghost rest = cs@.skip(from as int);
        let ghost before = out@;
        out.push(text_of(&cs, from, k));
        proof {
            text::lemma_until(rest, c);
            assert(cs@.subrange(from as int, k as int) =~= rest.take(k - from));
            assert(text::texts(out@) =~= text::texts(before).push(rest.take(k - from)));
        }
        if k == cs.len() {
            proof {
                assert(rest.take(k - from) =~= rest);
                assert(text::texts(out@) =~= text::texts(before) + seq![rest]);
            }
            return out;
        }
        proof {
            assert(rest.skip(k - from + 1) =~= cs@.skip(k + 1));
            assert(text::texts(out@) + pieces(cs@.skip(k + 1), c) =~= text::texts(before) + (seq![
                rest.take(k - from),
            ] + pieces(cs@.skip(k + 1), c)));
        }
        from = k + 1;
    }
}

/// What precedes the first `c` in `s` and what follows it.
pub open spec fn cut(s: Seq<char>, c: char) -> Option<(Seq<char>, Seq<char>)> {
    let k = text::until(s, c);
    if k >= s.len() {
        None
    } else {
        Some((s.take(k), s.skip(k + 1)))
    }
}

/// What precedes the first `c` in `s` and what follows it.
pub fn split_once<'a>(s: &'a str, c: char) -> (r: Option<(&'a str, &'a str)>)
    ensures
        match r {
            Some(p) => cut(s@, c) == Some((p.0@, p.1@)),
            None => cut(s@, c) is None,
        },
{
    let cs = chars_of(s);
    let k = index_from(&cs, 0, c);
    proof {
        assert(cs@.skip(0) =~= s@);
    }
    if k == cs.len() {
        None
    } else {
        let a = s.substring_char(0, k);
        let b = s.substring_char(k + 1, cs.len());
        assert(a@ =~= s@.take(k as int));
        assert(b@ =~= s@.skip(k + 1));
        Some((a, b))
    }
}

// ---- lines ---------------------------------------------------------------------

/// `s` without one carriage return at its end.
pub open spec fn without_cr(s: Seq<char>) -> Seq<char> {
    if s.len() > 0 && s.last() == '\r' {
        s.drop_last()
    } else {
        s
    }
}

/// The lines of `s`: each ends at a line feed, a carriage return before the line feed belongs to
/// the line ending, and a final line feed starts no further line.
pub open spec fn lines(s: Seq<char>) -> Seq<Seq<char>>
    decreases s.len(),
    via lines_decreases
{
    let k = text::until(s, '\n');
    if s.len() == 0 {
        seq![]
    } else if k >= s.len() {
        seq![s]
    } else {
        seq![without_cr(s.take(k))] + lines(s.skip(k + 1))
    }
}

#[via_fn]
proof fn lines_decreases(s: Seq<char>) {
    text::lemma_until(s, '\n');
}

/// The lines of `s`.
pub fn lines_of(s: &str) -> (out: Vec<String>)
    ensures
        text::texts(out@) == lines(s@),
{
    let cs = chars_of(s);
    let mut out: Vec<String> = Vec::new();
    let mut from: usize = 0;
    assert(cs@.skip(0) =~= s@);
    while from < cs.len()
        invariant
            from <= cs@.len(),
            cs@ == s@,
            text::texts(out@) + lines(cs@.skip(from as int)) == lines(s@),
        decreases cs@.len() - from,
    {
        let k = index_from(&cs, from, '\n');
        let ghost rest = cs@.skip(from as int);
        let ghost before = out@;
        proof {
            text::lemma_until(rest, '\n');
        }
        if k == cs.len() {
            out.push(text_of(&cs, from, k));
            proof {
                assert(cs@.subrange(from as int, k as int) =~= rest);
                assert(text::texts(out@) =~= text::texts(before) + seq![rest]);
                assert(cs@.skip(k as int) =~= seq![]);
                assert(text::texts(out@) + lines(cs@.skip(k as int)) =~= text::texts(out@));
            }
            from = k;
        } else {
            let mut end: usize = k;
            if end > from && cs[end - 1] == '\r' {
                end = end - 1;
            }
            out.push(text_of(&cs, from, end));
            proof {
                assert(cs@.subrange(from as int, end as int) =~= without_cr(rest.take(k - from)));
                assert(rest.skip(k - from + 1) =~= cs@.skip(k + 1));
                assert(text::texts(out@) =~= text::texts(before) + seq![without_cr(rest.take(k - from))]);
                assert(text::texts(out@) + lines(cs@.skip(k + 1)) =~= text::texts(before) + (seq![
                    without_cr(rest.take(k - from)),
                ] + lines(cs@.skip(k + 1))));
            }
            from = k + 1;
        }
    }
    proof {
        assert(cs@.skip(from as int) =~= seq![]);
        assert(text::texts(out@) + lines(seq![]) =~= text::texts(out@));
    }
    out
}

// ---- words ---------------------------------------------------------------------

/// Where white space first occurs in `s`; the length of `s` when it does not.
pub open spec fn until_white(s: Seq<char>) -> int
    decreases s.len(),
{
    if s.len() == 0 || text::is_white(s[0]) {
        0
    } else {
        1 + until_white(s.drop_first())
    }
}

proof fn lemma_until_white_is(s: Seq<char>, i: int)
    requires
        0 <= i <= s.len(),
        i < s.len() ==> text::is_white(s[i]),
        forall|j: int| 0 <= j < i ==> !text::is_white(s[j]),
    ensures
        until_white(s) == i,
    decreases s.len(),
{
    if i > 0 {
        assert forall|j: int| 0 <= j < i - 1 implies !text::is_white(s.drop_first()[j]) by {
            assert(s.drop_first()[j] == s[j + 1]);
        }
        lemma_until_white_is(s.drop_first(), i - 1);
    }
}

proof fn lemma_trim_front_len(s: Seq<char>)
    ensures
        trim_front(s).len() <= s.len(),
    decreases s.len(),
{
    if s.len() > 0 && text::is_white(s[0]) {
        lemma_trim_front_len(s.drop_first());
    }
}

/// The maximal runs of characters of `s` that are not white space.
pub open spec fn words(s: Seq<char>) -> Seq<Seq<char>>
    decreases s.len(),
    via words_decreases
{
    let t = trim_front(s);
    if t.len() == 0 {
        seq![]
    } else {
        seq![t.take(until_white(t))] + words(t.skip(until_white(t)))
    }
}

#[via_fn]
proof fn words_decreases(s: Seq<char>) {
    let t = trim_front(s);
    lemma_trim_front_len(s);
    lemma_trim_front_head(s);
    lemma_until_white_bounds(t);
}

proof fn lemma_until_white_bounds(t: Seq<char>)
    ensures
        0 <= until_white(t) <= t.len(),
        t.len() > 0 && !text::is_white(t[0]) ==> until_white(t) >= 1,
    decreases t.len(),
{
    if t.len() > 0 && !text::is_white(t[0]) {
        lemma_until_white_bounds(t.drop_first());
    }
}

/// The words of `s`.
pub fn words_of(s: &str) -> (out: Vec<String>)
    ensures
        text::texts(out@) == words(s@),
{
    let cs = chars_of(s);
    let mut out: Vec<String> = Vec::new();
    let mut from: usize = 0;
    assert(cs@.skip(0) =~= s@);
    loop
        invariant
            from <= cs@.len(),
            cs@ == s@,
            text::texts(out@) + words(cs@.skip(from as int)) == words(s@),
        decreases cs@.len() - from,
    {
        let i = skip_white(&cs, from);
        if i == cs.len() {
            proof {
                assert(cs@.skip(i as int) =~= seq![]);
                assert(text::texts(out@) + seq![] =~= text::texts(out@));
            }
            return out;
        }
        let mut k: usize = i;
        while k < cs.len() && !is_whitespace(cs[k])
            invariant
                i <= k <= cs@.len(),
                forall|j: int| i <= j < k ==> !text::is_white(cs@[j]),
            decreases cs@.len() - k,
        {
            k = k + 1;
        }
        let ghost t = cs@.skip(i as int);
        let ghost before = out@;
        out.push(text_of(&cs, i, k));
        proof {
            lemma_until_white_is(t, k - i);
            assert(cs@.subrange(i as int, k as int) =~= t.take(k - i));
            assert(t.skip(k - i) =~= cs@.skip(k as int));
            assert(text::texts(out@) =~= text::texts(before) + seq![t.take(k - i)]);
            assert(text::texts(out@) + words(cs@.skip(k as int)) =~= text::texts(before) + (seq![t.take(k - i)]
                + words(cs@.skip(k as int))));
        }
        from = k;
    }
}

// ---- joining -------------------------------------------------------------------

/// The texts one after the other, with `sep` between neighbours.
pub open spec fn joined(parts: Seq<Seq<char>>, sep: Seq<char>) -> Seq<char>
    decreases parts.len(),
{
    if parts.len() == 0 {
        seq![]
    } else if parts.len() == 1 {
        parts[0]
    } else {
        joined(parts.drop_last(), sep) + sep + parts.last()
    }
}

/// Several strings, one after the other, start with the first and a separator.
pub proof fn lemma_joined_first(parts: Seq<Seq<char>>, sep: Seq<char>) -> (rest: Seq<char>)
    requires
        parts.len() > 1,
    ensures
        joined(parts, sep) == parts[0] + sep + rest,
    decreases parts.len(),
{
    let front = parts.drop_last();
    if parts.len() == 2 {
        assert(joined(front, sep) == parts[0]);
        parts.last()
    } else {
        let r = lemma_joined_first(front, sep);
        let rest = r + sep + parts.last();
        assert(joined(parts, sep) =~= parts[0] + sep + rest);
        rest
    }
}

/// The strings one after the other, with `sep` between neighbours.
pub fn join(v: &[String], sep: &str) -> (r: String)
    ensures
        r@ == joined(text::texts(v@), sep@),
{
    let mut r = String::new();
    let mut i: usize = 0;
    while i < v.len()
        invariant
            i <= v@.len(),
            r@ == joined(text::texts(v@).take(i as int), sep@),
        decreases v@.len() - i,
    {
        if i > 0 {
            r.append(sep);
        }
        r.append(v[i].as_str());
        proof {
            let a = text::texts(v@).take(i + 1);
            assert(a.drop_last() =~= text::texts(v@).take(i as int));
            assert(a.last() == v@[i as int]@);
            if i == 0 {
                assert(r@ =~= a[0]);
            }
        }
        i = i + 1;
    }
    assert(text::texts(v@).take(v@.len() as int) =~= text::texts(v@));
    r
}

/// The pieces of a text, joined by the character it was cut at, are the text again.
pub proof fn law_pieces_join(s: Seq<char>, c: char)
    ensures
        joined(pieces(s, c), seq![c]) == s,
    decreases s.len(),
{
    text::lemma_until(s, c);
    let k = text::until(s, c);
    if k < s.len() {
        let rest = s.skip(k + 1);
        law_pieces_join(rest, c);
        lemma_joined_front(s.take(k), pieces(rest, c), seq![c]);
        assert(s =~= s.take(k) + seq![c] + rest);
    }
}

proof fn lemma_joined_front(a: Seq<char>, parts: Seq<Seq<char>>, sep: Seq<char>)
    requires
        parts.len() >= 1,
    ensures
        joined(seq![a] + parts, sep) == a + sep + joined(parts, sep),
    decreases parts.len(),
{
    let all = seq![a] + parts;
    assert(all.drop_last() =~= seq![a] + parts.drop_last());
    assert(all.last() == parts.last());
    if parts.len() == 1 {
        assert(all.drop_last() =~= seq![a]);
        assert(joined(seq![a], sep) == a);
    } else {
        lemma_joined_front(a, parts.drop_last(), sep);
        assert(joined(all, sep) =~= a + sep + joined(parts, sep));
    }
}

/// The pieces of two texts with the character between them are the pieces of the one and then
/// those of the other.
pub proof fn law_pieces_concat(a: Seq<char>, b: Seq<char>, c: char)
    ensures
        pieces(a + seq![c] + b, c) == pieces(a, c) + pieces(b, c),
    decreases a.len(),
{
    let s = a + seq![c] + b;
    text::lemma_until(a, c);
    let k = text::until(a, c);
    assert forall|j: int| 0 <= j < k implies s[j] != c by {
        assert(s[j] == a[j]);
    }
    text::lemma_until_is(s, c, k);
    if k >= a.len() {
        assert(s.take(k) =~= a);
        assert(s.skip(k + 1) =~= b);
    } else {
        law_pieces_concat(a.skip(k + 1), b, c);
        assert(s.take(k) =~= a.take(k));
        assert(s.skip(k + 1) =~= a.skip(k + 1) + seq![c] + b);
        assert(pieces(s, c) =~= pieces(a, c) + pieces(b, c));
    }
}

/// No piece holds the character that the text was cut at.
pub proof fn lemma_pieces_free(s: Seq<char>, c: char)
    ensures
        forall|i: int| 0 <= i < pieces(s, c).len() ==> !(#[trigger] pieces(s, c)[i]).contains(c),
    decreases s.len(),
{
    text::lemma_until(s, c);
    let k = text::until(s, c);
    if k < s.len() {
        let rest = pieces(s.skip(k + 1), c);
        lemma_pieces_free(s.skip(k + 1), c);
        assert forall|i: int| 0 <= i < pieces(s, c).len() implies !(#[trigger] pieces(
            s,
            c,
        )[i]).contains(c) by {
            if i > 0 {
                assert(pieces(s, c)[i] == rest[i - 1]);
            }
        }
    }
}

/// Texts that do not hold a character, joined by it, are its pieces again.
pub proof fn law_join_pieces(parts: Seq<Seq<char>>, c: char)
    requires
        parts.len() >= 1,
        forall|i: int| 0 <= i < parts.len() ==> !(#[trigger] parts[i]).contains(c),
    ensures
        pieces(joined(parts, seq![c]), c) == parts,
    decreases parts.len(),
{
    text::lemma_until(parts.last(), c);
    if parts.len() > 1 {
        let front = parts.drop_last();
        assert forall|i: int| 0 <= i < front.len() implies !(#[trigger] front[i]).contains(c) by {
            assert(front[i] == parts[i]);
        }
        law_join_pieces(front, c);
        law_pieces_concat(joined(front, seq![c]), parts.last(), c);
        assert(front + seq![parts.last()] =~= parts);
    } else {
        assert(seq![parts[0]] =~= parts);
    }
}

/// A text is cut at the first occurrence of the character: what precedes it holds none, and the two
/// parts with the character between them are the text again; it is not cut just where there is none.
pub proof fn law_cut_parts_rejoin<'a>(s: &'a str, c: char, r: Option<(&'a str, &'a str)>)
    requires
        call_ensures(split_once, (s, c), r),
    ensures
        r is None <==> !s@.contains(c),
        r matches Some(p) ==> s@ == p.0@ + seq![c] + p.1@ && !p.0@.contains(c),
{
    text::lemma_until(s@, c);
    if let Some(p) = r {
        let k = text::until(s@, c);
        assert(s@ =~= p.0@ + seq![c] + p.1@);
        if p.0@.contains(c) {
            let i = choose|i: int| 0 <= i < p.0@.len() && p.0@[i] == c;
            assert(s@[i] == c);
        }
    }
}

proof fn lemma_front_white(s: Seq<char>)
    ensures
        trim_front(s).len() <= s.len(),
        trim_front(s) == s.skip(s.len() - trim_front(s).len()),
        forall|i: int| 0 <= i < s.len() - trim_front(s).len() ==> text::is_white(#[trigger] s[i]),
        trim_front(s).len() > 0 ==> !text::is_white(trim_front(s)[0]),
    decreases s.len(),
{
    if s.len() > 0 && text::is_white(s[0]) {
        let t = s.drop_first();
        lemma_front_white(t);
        let n = s.len() - trim_front(s).len();
        assert(t.skip(n - 1) =~= s.skip(n));
        assert forall|i: int| 0 <= i < n implies text::is_white(#[trigger] s[i]) by {
            if i > 0 {
                assert(s[i] == t[i - 1]);
            }
        }
    } else {
        assert(s.skip(0) =~= s);
    }
}

proof fn lemma_back_white(s: Seq<char>)
    ensures
        trim_back(s).len() <= s.len(),
        trim_back(s) == s.take(trim_back(s).len() as int),
        forall|i: int| trim_back(s).len() <= i < s.len() ==> text::is_white(#[trigger] s[i]),
        trim_back(s).len() > 0 ==> !text::is_white(trim_back(s).last()),
    decreases s.len(),
{
    if s.len() > 0 && text::is_white(s.last()) {
        let t = s.drop_last();
        lemma_back_white(t);
        let n = trim_back(s).len() as int;
        assert(t.take(n) =~= s.take(n));
        assert forall|i: int| n <= i < s.len() implies text::is_white(#[trigger] s[i]) by {
            if i < t.len() {
                assert(s[i] == t[i]);
            }
        }
    } else {
        assert(s.take(s.len() as int) =~= s);
    }
}

/// Just the white space around a text is trimmed off: what is left starts and ends with none, and
/// what stood before it and behind it is white space alone.
pub proof fn law_trimming_takes_white_space_alone<'a>(s: &'a str, r: &'a str) -> (from: int)
    requires
        call_ensures(trimmed, (s,), r),
    ensures
        0 <= from <= from + r@.len() <= s@.len(),
        r@ == s@.subrange(from, from + r@.len()),
        forall|i: int| 0 <= i < from ==> text::is_white(#[trigger] s@[i]),
        forall|i: int| from + r@.len() <= i < s@.len() ==> text::is_white(#[trigger] s@[i]),
        r@.len() > 0 ==> !text::is_white(r@[0]) && !text::is_white(r@.last()),
{
    let t = trim_front(s@);
    lemma_front_white(s@);
    lemma_back_white(t);
    let from = s@.len() - t.len();
    assert(r@ =~= s@.subrange(from, from + r@.len()));
    assert forall|i: int| from + r@.len() <= i < s@.len() implies text::is_white(
        #[trigger] s@[i],
    ) by {
        assert(t[i - from] == s@[i]);
    }
    if r@.len() > 0 {
        assert(r@[0] == t[0]);
    }
    from
}

proof fn lemma_lines_front(a: Seq<char>, rest: Seq<char>)
    requires
        !a.contains('\n'),
    ensures
        lines(a + seq!['\n'] + rest) == seq![without_cr(a)] + lines(rest),
{
    let s = a + seq!['\n'] + rest;
    assert forall|j: int| 0 <= j < a.len() implies s[j] != '\n' by {
        assert(s[j] == a[j]);
        assert(a.contains(a[j]));
    }
    text::lemma_until_is(s, '\n', a.len() as int);
    assert(s.take(a.len() as int) =~= a);
    assert(s.skip(a.len() as int + 1) =~= rest);
}

/// The lines that parts are written as.
pub open spec fn written(parts: Seq<Seq<char>>) -> Seq<char>
    decreases parts.len(),
{
    if parts.len() == 0 {
        seq![]
    } else {
        parts[0] + seq!['\n'] + written(parts.drop_first())
    }
}

/// Texts without line ends, each written on a line of its own, are the lines again.
pub proof fn law_lines_read_back(s: &str, out: Vec<String>, parts: Seq<Seq<char>>)
    requires
        call_ensures(lines_of, (s,), out),
        s@ == written(parts),
        forall|i: int|
            0 <= i < parts.len() ==> !(#[trigger] parts[i]).contains('\n') && !(parts[i].len() > 0
                && parts[i].last() == '\r'),
    ensures
        text::texts(out@) == parts,
{
    lemma_written(parts);
}

proof fn lemma_written(parts: Seq<Seq<char>>)
    requires
        forall|i: int|
            0 <= i < parts.len() ==> !(#[trigger] parts[i]).contains('\n') && !(parts[i].len() > 0
                && parts[i].last() == '\r'),
    ensures
        lines(written(parts)) == parts,
    decreases parts.len(),
{
    if parts.len() == 0 {
        assert(lines(written(parts)) =~= parts);
    } else {
        let more = parts.drop_first();
        assert forall|i: int| 0 <= i < more.len() implies !(#[trigger] more[i]).contains('\n') && !(
        more[i].len() > 0 && more[i].last() == '\r') by {
            assert(more[i] == parts[i + 1]);
        }
        lemma_written(more);
        assert(!parts[0].contains('\n'));
        lemma_lines_front(parts[0], written(more));
        assert(seq![parts[0]] + more =~= parts);
    }
}

/// Each of several texts stands in what they are joined to.
pub proof fn lemma_joined_holds(parts: Seq<Seq<char>>, sep: Seq<char>, i: int)
    requires
        0 <= i < parts.len(),
    ensures
        text::holds(joined(parts, sep), parts[i]),
    decreases parts.len(),
{
    let all = joined(parts, sep);
    if parts.len() == 1 {
        text::lemma_holds(seq![], parts[0], seq![]);
        assert(seq![] + parts[0] + seq![] =~= parts[0]);
    } else if i == parts.len() - 1 {
        let front = joined(parts.drop_last(), sep) + sep;
        text::lemma_holds(front, parts[i], seq![]);
        assert(front + parts[i] + seq![] =~= all);
    } else {
        let front = parts.drop_last();
        lemma_joined_holds(front, sep, i);
        assert(front[i] == parts[i]);
        text::lemma_held_within(seq![], joined(front, sep), sep + parts.last(), parts[i]);
        assert(seq![] + joined(front, sep) + (sep + parts.last()) =~= all);
    }
}

/// Whether a text is one word: not empty and without white space.
pub open spec fn is_word(w: Seq<char>) -> bool {
    w.len() > 0 && forall|i: int| 0 <= i < w.len() ==> !text::is_white(#[trigger] w[i])
}

proof fn lemma_until_white(w: Seq<char>, t: Seq<char>)
    requires
        forall|i: int| 0 <= i < w.len() ==> !text::is_white(#[trigger] w[i]),
        t.len() == 0 || text::is_white(t[0]),
    ensures
        until_white(w + t) == w.len(),
    decreases w.len(),
{
    let s = w + t;
    if w.len() == 0 {
        assert(s =~= t);
    } else {
        assert(s[0] == w[0]);
        let rest = w.drop_first();
        assert forall|i: int| 0 <= i < rest.len() implies !text::is_white(#[trigger] rest[i]) by {
            assert(rest[i] == w[i + 1]);
        }
        assert(s.drop_first() =~= rest + t);
        lemma_until_white(rest, t);
    }
}

/// A line is its words: a word with white space behind it is the first, and the rest follows.
pub proof fn law_words_are_cut_at_white_space(
    s: &str,
    rest: &str,
    out: Vec<String>,
    more: Vec<String>,
    w: Seq<char>,
    c: char,
)
    requires
        call_ensures(words_of, (s,), out),
        call_ensures(words_of, (rest,), more),
        is_word(w),
        text::is_white(c),
        s@ == w + seq![c] + rest@,
    ensures
        text::texts(out@) == seq![w] + text::texts(more@),
{
    let t = seq![c] + rest@;
    assert(s@ =~= w + t);
    assert(s@[0] == w[0]);
    assert(trim_front(s@) == s@);
    lemma_until_white(w, t);
    assert(s@.take(w.len() as int) =~= w);
    assert(s@.skip(w.len() as int) =~= t);
    assert(t.drop_first() =~= rest@);
    assert(trim_front(t) == trim_front(rest@));
    lemma_words_of_trimmed(t, rest@);
}

proof fn lemma_words_of_trimmed(a: Seq<char>, b: Seq<char>)
    requires
        trim_front(a) == trim_front(b),
    ensures
        words(a) == words(b),
{
}

/// A word alone is one word, and white space alone is none.
pub proof fn law_a_word_is_one_word(s: &str, out: Vec<String>)
    requires
        call_ensures(words_of, (s,), out),
    ensures
        is_word(s@) ==> text::texts(out@) == seq![s@],
        trim_front(s@).len() == 0 ==> out@.len() == 0,
{
    assert(text::texts(out@).len() == out@.len());
    if is_word(s@) {
        assert(!text::is_white(s@[0]));
        assert(trim_front(s@) == s@);
        lemma_until_white(s@, seq![]);
        assert(s@ + seq![] =~= s@);
        assert(s@.take(s@.len() as int) =~= s@);
        assert(s@.skip(s@.len() as int) =~= seq![]);
        assert(words(seq![]) =~= seq![]);
    }
}

/// What is cut at a character is put together again with it, and no part has it.
pub proof fn law_split_parts_rejoin(s: &str, c: char, out: Vec<String>, i: int)
    requires
        call_ensures(split_on, (s, c), out),
        0 <= i < out@.len(),
    ensures
        joined(text::texts(out@), seq![c]) == s@,
        !text::texts(out@)[i].contains(c),
{
    law_pieces_join(s@, c);
    lemma_pieces_free(s@, c);
    assert(text::texts(out@).len() == out@.len());
}

/// The first word of a text ends at white space.
pub proof fn lemma_first_word(w: Seq<char>, c: char, rest: Seq<char>)
    requires
        is_word(w),
        text::is_white(c),
    ensures
        words(w + seq![c] + rest) == seq![w] + words(rest),
{
    let s = w + seq![c] + rest;
    let t = seq![c] + rest;
    assert(s =~= w + t);
    assert(s[0] == w[0]);
    assert(trim_front(s) == s);
    lemma_until_white(w, t);
    assert(s.take(w.len() as int) =~= w);
    assert(s.skip(w.len() as int) =~= t);
    assert(t.drop_first() =~= rest);
    assert(trim_front(t) == trim_front(rest));
    lemma_words_of_trimmed(t, rest);
}

} // verus!
