//! Text primitives over character sequences.
//!
//! A string is modelled by its view, the sequence of its characters. The functions here are the
//! vocabulary that the other modules state their contracts in: where a character first occurs,
//! what is left after trimming, how a text splits into pieces, lines and words, how a number is
//! written in decimal.

use vstd::prelude::*;
use vstd::string::*;

verus! {

/// `String::push` appends the given character at the end of the string and changes nothing else.
pub assume_specification[ String::push ](s: &mut String, c: char)
    ensures
        final(s)@ == old(s)@.push(c),
;

// ---- characters ----------------------------------------------------------------

/// Whether `c` has the Unicode `White_Space` property.
pub open spec fn is_white(c: char) -> bool {
    ||| '\u{9}' <= c <= '\u{d}'
    ||| c == '\u{20}'
    ||| c == '\u{85}'
    ||| c == '\u{a0}'
    ||| c == '\u{1680}'
    ||| '\u{2000}' <= c <= '\u{200a}'
    ||| c == '\u{2028}'
    ||| c == '\u{2029}'
    ||| c == '\u{202f}'
    ||| c == '\u{205f}'
    ||| c == '\u{3000}'
}

/// Whether `c` has the Unicode `White_Space` property.
pub fn is_whitespace(c: char) -> (r: bool)
    ensures
        r == is_white(c),
{
    ('\u{9}' <= c && c <= '\u{d}') || c == '\u{20}' || c == '\u{85}' || c == '\u{a0}'
        || c == '\u{1680}' || ('\u{2000}' <= c && c <= '\u{200a}') || c == '\u{2028}'
        || c == '\u{2029}' || c == '\u{202f}' || c == '\u{205f}' || c == '\u{3000}'
}

/// Whether `c` is a control character (general category `Cc`).
pub open spec fn is_ctrl(c: char) -> bool {
    c <= '\u{1f}' || '\u{7f}' <= c <= '\u{9f}'
}

/// Whether `c` is a control character (general category `Cc`).
pub fn is_control(c: char) -> (r: bool)
    ensures
        r == is_ctrl(c),
{
    c <= '\u{1f}' || ('\u{7f}' <= c && c <= '\u{9f}')
}

/// Whether `c` is an ASCII decimal digit.
pub open spec fn is_dig(c: char) -> bool {
    '0' <= c <= '9'
}

/// `c` with an ASCII lower-case letter raised to upper case.
pub open spec fn upper(c: char) -> char {
    if 'a' <= c <= 'z' {
        ((c as u32) - 32) as char
    } else {
        c
    }
}

/// `c` with an ASCII lower-case letter raised to upper case.
pub fn ascii_upper(c: char) -> (r: char)
    ensures
        r == upper(c),
{
    if 'a' <= c && c <= 'z' {
        let n: u32 = c as u32;
        let b: u8 = (n - 32) as u8;
        b as char
    } else {
        c
    }
}

/// The digit character of a value below ten.
pub open spec fn digit(d: int) -> char {
    (48 + d) as char
}

/// The digit character of a value below ten.
pub fn digit_char(d: u8) -> (c: char)
    requires
        d < 10,
    ensures
        c == digit(d as int),
{
    (48 + d) as char
}

/// The lower-case hexadecimal digit of a value below sixteen.
pub open spec fn hex(d: int) -> char {
    if d < 10 {
        (48 + d) as char
    } else {
        (87 + d) as char
    }
}

/// The lower-case hexadecimal digit of a value below sixteen.
pub fn hex_char(d: u8) -> (c: char)
    requires
        d < 16,
    ensures
        c == hex(d as int),
{
    if d < 10 {
        (48 + d) as char
    } else {
        (87 + d) as char
    }
}

// ---- whole strings -------------------------------------------------------------

/// The texts of a sequence of strings.
pub open spec fn texts(v: Seq<String>) -> Seq<Seq<char>> {
    v.map_values(|s: String| s@)
}

/// The characters of `s`, in order.
pub fn chars_of(s: &str) -> (out: Vec<char>)
    ensures
        out@ == s@,
{
    let mut out: Vec<char> = Vec::new();
    for c in it: s.chars()
        invariant
            it.seq() == s@,
            out@ == s@.take(it.index() as int),
    {
        out.push(c);
        assert(s@.take(it.index() + 1) =~= s@.take(it.index() as int).push(s@[it.index() as int]));
    }
    assert(s@.take(s@.len() as int) =~= s@);
    out
}

/// The string made of `cs[from..to]`.
pub fn text_of(cs: &[char], from: usize, to: usize) -> (s: String)
    requires
        from <= to <= cs@.len(),
    ensures
        s@ == cs@.subrange(from as int, to as int),
{
    let mut s = String::new();
    let mut i: usize = from;
    while i < to
        invariant
            from <= i <= to <= cs@.len(),
            s@ == cs@.subrange(from as int, i as int),
        decreases to - i,
    {
        s.push(cs[i]);
        assert(cs@.subrange(from as int, i + 1) =~= cs@.subrange(from as int, i as int).push(
            cs@[i as int],
        ));
        i = i + 1;
    }
    s
}

/// Whether two strings hold the same text.
pub fn same(a: &str, b: &str) -> (r: bool)
    ensures
        r == (a@ == b@),
{
    let x = chars_of(a);
    let y = chars_of(b);
    if x.len() != y.len() {
        return false;
    }
    let mut i: usize = 0;
    while i < x.len()
        invariant
            i <= x@.len(),
            x@.len() == y@.len(),
            x@ == a@,
            y@ == b@,
            forall|j: int| 0 <= j < i ==> x@[j] == y@[j],
        decreases x@.len() - i,
    {
        if x[i] != y[i] {
            return false;
        }
        i = i + 1;
    }
    assert(x@ =~= y@);
    true
}

/// Whether `v` holds the text `t`.
pub fn has_text(v: &[String], t: &str) -> (r: bool)
    ensures
        r == texts(v@).contains(t@),
{
    let mut i: usize = 0;
    while i < v.len()
        invariant
            i <= v@.len(),
            forall|j: int| 0 <= j < i ==> texts(v@)[j] != t@,
        decreases v@.len() - i,
    {
        if same(v[i].as_str(), t) {
            assert(texts(v@)[i as int] == t@);
            return true;
        }
        i = i + 1;
    }
    false
}

/// The texts of string slices.
pub open spec fn strs(v: Seq<&str>) -> Seq<Seq<char>> {
    v.map_values(|s: &str| s@)
}

/// Whether `t` is one of `v`.
pub fn among(v: &[&str], t: &str) -> (r: bool)
    ensures
        r == strs(v@).contains(t@),
{
    let mut i: usize = 0;
    while i < v.len()
        invariant
            i <= v@.len(),
            forall|j: int| 0 <= j < i ==> strs(v@)[j] != t@,
        decreases v@.len() - i,
    {
        if same(v[i], t) {
            assert(strs(v@)[i as int] == t@);
            return true;
        }
        i = i + 1;
    }
    false
}

/// A copy of `v`: the same texts in the same order.
pub fn copy_all(v: &[String]) -> (out: Vec<String>)
    ensures
        texts(out@) == texts(v@),
{
    let mut out: Vec<String> = Vec::new();
    let mut i: usize = 0;
    while i < v.len()
        invariant
            i <= v@.len(),
            texts(out@) == texts(v@).take(i as int),
        decreases v@.len() - i,
    {
        let ghost before = out@;
        out.push(v[i].clone());
        assert(texts(out@) =~= texts(before).push(texts(v@)[i as int]));
        assert(texts(v@).take(i + 1) =~= texts(v@).take(i as int).push(texts(v@)[i as int]));
        i = i + 1;
    }
    assert(texts(v@).take(v@.len() as int) =~= texts(v@));
    out
}

/// `a` followed by `b`.
pub fn concat2(a: &str, b: &str) -> (r: String)
    ensures
        r@ == a@ + b@,
{
    let mut s = String::from_str(a);
    s.append(b);
    s
}

/// `a`, `b` and `c` one after the other.
pub fn concat3(a: &str, b: &str, c: &str) -> (r: String)
    ensures
        r@ == a@ + b@ + c@,
{
    let mut s = concat2(a, b);
    s.append(c);
    s
}

/// `a` to `d` one after the other.
pub fn concat4(a: &str, b: &str, c: &str, d: &str) -> (r: String)
    ensures
        r@ == a@ + b@ + c@ + d@,
{
    let mut s = concat3(a, b, c);
    s.append(d);
    s
}

/// `a` to `e` one after the other.
pub fn concat5(a: &str, b: &str, c: &str, d: &str, e: &str) -> (r: String)
    ensures
        r@ == a@ + b@ + c@ + d@ + e@,
{
    let mut s = concat4(a, b, c, d);
    s.append(e);
    s
}

/// `a` to `g` one after the other.
pub fn concat7(a: &str, b: &str, c: &str, d: &str, e: &str, f: &str, g: &str) -> (r: String)
    ensures
        r@ == a@ + b@ + c@ + d@ + e@ + f@ + g@,
{
    let mut s = concat5(a, b, c, d, e);
    s.append(f);
    s.append(g);
    s
}

// ---- prefixes and suffixes -----------------------------------------------------

/// Whether `s` begins with `p`.
pub fn starts_with(s: &str, p: &str) -> (r: bool)
    ensures
        r == p@.is_prefix_of(s@),
{
    let a = chars_of(s);
    let b = chars_of(p);
    matches_at(&a, 0, &b)
}

/// Whether `p` stands in `a` at position `i`.
pub fn matches_at(a: &[char], i: usize, p: &[char]) -> (r: bool)
    requires
        i <= a@.len(),
    ensures
        r == p@.is_prefix_of(a@.skip(i as int)),
{
    if p.len() > a.len() - i {
        return false;
    }
    let mut k: usize = 0;
    while k < p.len()
        invariant
            k <= p@.len(),
            i + p@.len() <= a.len(),
            a.len() == a@.len(),
            forall|j: int| 0 <= j < k ==> a@[i + j] == p@[j],
        decreases p@.len() - k,
    {
        if a[i + k] != p[k] {
            assert(a@.skip(i as int)[k as int] != p@[k as int]);
            return false;
        }
        k = k + 1;
    }
    assert(a@.skip(i as int).take(p@.len() as int) =~= p@);
    true
}

/// Whether `s` ends with `p`.
pub fn ends_with(s: &str, p: &str) -> (r: bool)
    ensures
        r == p@.is_suffix_of(s@),
{
    let a = chars_of(s);
    let b = chars_of(p);
    if b.len() > a.len() {
        return false;
    }
    let at: usize = a.len() - b.len();
    let r = matches_at(&a, at, &b);
    assert(a@.skip(at as int).take(b@.len() as int) =~= a@.skip(at as int));
    r
}

/// What follows `p` at the start of `s`, when `s` begins with it.
pub fn strip_prefix<'a>(s: &'a str, p: &str) -> (r: Option<&'a str>)
    ensures
        match r {
            Some(t) => s@ == p@ + t@,
            None => !p@.is_prefix_of(s@),
        },
{
    if starts_with(s, p) {
        let n = s.unicode_len();
        let m = p.unicode_len();
        let t = s.substring_char(m, n);
        assert(s@ =~= p@ + t@);
        Some(t)
    } else {
        None
    }
}

/// What precedes `p` at the end of `s`, when `s` ends with it.
pub fn strip_suffix<'a>(s: &'a str, p: &str) -> (r: Option<&'a str>)
    ensures
        match r {
            Some(t) => s@ == t@ + p@,
            None => !p@.is_suffix_of(s@),
        },
{
    if ends_with(s, p) {
        let n = s.unicode_len();
        let m = p.unicode_len();
        let t = s.substring_char(0, n - m);
        assert(s@ =~= t@ + p@);
        Some(t)
    } else {
        None
    }
}

// ---- searching -----------------------------------------------------------------

/// Where `c` first occurs in `s`; the length of `s` when it does not.
pub open spec fn until(s: Seq<char>, c: char) -> int
    decreases s.len(),
{
    if s.len() == 0 || s[0] == c {
        0
    } else {
        1 + until(s.drop_first(), c)
    }
}

/// What `until` says, element by element.
pub proof fn lemma_until(s: Seq<char>, c: char)
    ensures
        0 <= until(s, c) <= s.len(),
        until(s, c) < s.len() ==> s[until(s, c)] == c,
        forall|j: int| 0 <= j < until(s, c) ==> s[j] != c,
        until(s, c) == s.len() <==> !s.contains(c),
    decreases s.len(),
{
    if s.len() != 0 && s[0] != c {
        let t = s.drop_first();
        lemma_until(t, c);
        assert forall|j: int| 0 <= j < until(s, c) implies s[j] != c by {
            if j > 0 {
                assert(t[j - 1] == s[j]);
            }
        }
        if s.contains(c) {
            let k = choose|k: int| 0 <= k < s.len() && s[k] == c;
            assert(t[k - 1] == c);
        }
        if t.contains(c) {
            let k = choose|k: int| 0 <= k < t.len() && t[k] == c;
            assert(s[k + 1] == c);
        }
    } else if s.len() != 0 {
        assert(s[0] == c);
    }
}

/// The position at which `c` stands for the first time is `until`.
pub proof fn lemma_until_is(s: Seq<char>, c: char, i: int)
    requires
        0 <= i <= s.len(),
        i < s.len() ==> s[i] == c,
        forall|j: int| 0 <= j < i ==> s[j] != c,
    ensures
        until(s, c) == i,
{
    lemma_until(s, c);
    if until(s, c) < i {
        assert(s[until(s, c)] == c);
    }
}

/// Where `c` first occurs in `cs` at or after `from`; the length when it does not.
pub fn index_from(cs: &[char], from: usize, c: char) -> (r: usize)
    requires
        from <= cs@.len(),
    ensures
        from <= r <= cs@.len(),
        r - from == until(cs@.skip(from as int), c),
{
    let mut i: usize = from;
    while i < cs.len() && cs[i] != c
        invariant
            from <= i <= cs@.len(),
            forall|j: int| from <= j < i ==> cs@[j] != c,
        decreases cs@.len() - i,
    {
        i = i + 1;
    }
    proof {
        lemma_until_is(cs@.skip(from as int), c, i - from);
    }
    i
}

/// Whether `c` occurs in `s`.
pub fn has_char(s: &str, c: char) -> (r: bool)
    ensures
        r == s@.contains(c),
{
    let cs = chars_of(s);
    let i = index_from(&cs, 0, c);
    proof {
        assert(cs@.skip(0) =~= cs@);
        lemma_until(s@, c);
    }
    i < cs.len()
}

/// Where the text `p` first stands in `s`.
pub open spec fn find(s: Seq<char>, p: Seq<char>) -> Option<int>
    decreases s.len(),
{
    if p.is_prefix_of(s) {
        Some(0)
    } else if s.len() == 0 {
        None
    } else {
        match find(s.drop_first(), p) {
            Some(i) => Some(i + 1),
            None => None,
        }
    }
}

/// What `find` says, position by position.
pub proof fn lemma_find(s: Seq<char>, p: Seq<char>)
    ensures
        match find(s, p) {
            Some(i) => {
                &&& 0 <= i <= s.len() - p.len()
                &&& p.is_prefix_of(s.skip(i))
                &&& forall|j: int| 0 <= j < i ==> !p.is_prefix_of(#[trigger] s.skip(j))
            },
            None => forall|j: int| 0 <= j <= s.len() ==> !p.is_prefix_of(#[trigger] s.skip(j)),
        },
    decreases s.len(),
{
    assert(s.skip(0) =~= s);
    if !p.is_prefix_of(s) && s.len() != 0 {
        let t = s.drop_first();
        lemma_find(t, p);
        assert forall|j: int| 1 <= j <= s.len() implies #[trigger] s.skip(j) == t.skip(j - 1) by {
            assert(s.skip(j) =~= t.skip(j - 1));
        }
        match find(t, p) {
            Some(i) => {
                assert(s.skip(i + 1) =~= t.skip(i));
                assert forall|j: int| 0 <= j < i + 1 implies !p.is_prefix_of(
                    #[trigger] s.skip(j),
                ) by {
                    if j > 0 {
                        assert(s.skip(j) == t.skip(j - 1));
                    }
                }
            },
            None => {
                assert forall|j: int| 0 <= j <= s.len() implies !p.is_prefix_of(
                    #[trigger] s.skip(j),
                ) by {
                    if j > 0 {
                        assert(s.skip(j) == t.skip(j - 1));
                    }
                }
            },
        }
    }
}

/// Where the text `p` first stands in `a`, counted in characters.
pub fn find_text(a: &[char], p: &[char]) -> (r: Option<usize>)
    ensures
        match r {
            Some(i) => find(a@, p@) == Some(i as int) && i + p@.len() <= a@.len(),
            None => find(a@, p@) is None,
        },
{
    proof {
        lemma_find(a@, p@);
    }
    let mut i: usize = 0;
    loop
        invariant
            i <= a@.len(),
            forall|j: int| 0 <= j < i ==> !p@.is_prefix_of(#[trigger] a@.skip(j)),
            match find(a@, p@) {
                Some(k) => {
                    &&& 0 <= k <= a@.len() - p@.len()
                    &&& p@.is_prefix_of(a@.skip(k))
                    &&& forall|j: int| 0 <= j < k ==> !p@.is_prefix_of(#[trigger] a@.skip(j))
                },
                None => forall|j: int|
                    0 <= j <= a@.len() ==> !p@.is_prefix_of(#[trigger] a@.skip(j)),
            },
        decreases a@.len() - i,
    {
        if matches_at(a, i, p) {
            return Some(i);
        }
        if i == a.len() {
            return None;
        }
        i = i + 1;
    }
}

/// Whether the text `p` stands anywhere in `s`.
pub fn has_piece(s: &str, p: &str) -> (r: bool)
    ensures
        r == (find(s@, p@) is Some),
{
    let a = chars_of(s);
    let b = chars_of(p);
    match find_text(&a, &b) {
        Some(_) => true,
        None => false,
    }
}

// ---- sizes in UTF-8 ------------------------------------------------------------

/// The number of bytes that UTF-8 takes for `c`.
pub open spec fn width(c: char) -> nat {
    if (c as u32) < 0x80 {
        1
    } else if (c as u32) < 0x800 {
        2
    } else if (c as u32) < 0x1_0000 {
        3
    } else {
        4
    }
}

/// The number of bytes that UTF-8 takes for `s`.
pub open spec fn byte_len(s: Seq<char>) -> nat
    decreases s.len(),
{
    if s.len() == 0 {
        0
    } else {
        byte_len(s.drop_last()) + width(s.last())
    }
}

proof fn lemma_byte_len_front(s: Seq<char>)
    requires
        s.len() > 0,
    ensures
        byte_len(s) == width(s[0]) + byte_len(s.drop_first()),
    decreases s.len(),
{
    if s.len() == 1 {
        assert(s.drop_last() =~= seq![]);
        assert(s.drop_first() =~= seq![]);
        assert(byte_len(seq![]) == 0);
    } else {
        lemma_byte_len_front(s.drop_last());
        assert(s.drop_last().drop_first() =~= s.drop_first().drop_last());
        assert(s.drop_first().last() == s.last());
    }
}

proof fn lemma_byte_len(s: Seq<char>)
    ensures
        vstd::utf8::encode_utf8(s).len() == byte_len(s),
    decreases s.len(),
{
    if s.len() > 0 {
        lemma_byte_len(s.drop_first());
        lemma_byte_len_front(s);
        vstd::utf8::char_is_scalar(s[0]);
    }
}

/// The number of bytes that UTF-8 takes for `c`.
pub fn char_width(c: char) -> (r: usize)
    ensures
        r == width(c),
{
    let n: u32 = c as u32;
    if n < 0x80 {
        1
    } else if n < 0x800 {
        2
    } else if n < 0x1_0000 {
        3
    } else {
        4
    }
}

/// The number of bytes that UTF-8 takes for `s`.
pub fn size_of_text(s: &str) -> (r: usize)
    ensures
        r == byte_len(s@),
{
    proof {
        lemma_byte_len(s@);
    }
    let b = s.as_bytes();
    b.len()
}

/// `s` without `p` at its end, where it ends so.
pub open spec fn without_end(s: Seq<char>, p: Seq<char>) -> Seq<char> {
    if p.is_suffix_of(s) {
        s.take(s.len() - p.len())
    } else {
        s
    }
}

/// `s` without `p` at its end, where it ends so.
pub fn cut_end(s: &str, p: &str) -> (r: String)
    ensures
        r@ == without_end(s@, p@),
{
    match strip_suffix(s, p) {
        Some(t) => {
            proof {
                assert(p@ =~= s@.subrange(s@.len() - p@.len(), s@.len() as int));
                assert(p@.is_suffix_of(s@));
                assert(t@ =~= s@.take(s@.len() - p@.len()));
            }
            t.to_owned()
        },
        None => s.to_owned(),
    }
}

/// Whether no character of `s` is white space.
pub open spec fn no_white(s: Seq<char>) -> bool {
    forall|i: int| 0 <= i < s.len() ==> !is_white(#[trigger] s[i])
}

/// Whether no character of `s` is white space.
pub fn has_no_white(s: &str) -> (r: bool)
    ensures
        r == no_white(s@),
{
    let cs = chars_of(s);
    let mut i: usize = 0;
    while i < cs.len()
        invariant
            i <= cs@.len(),
            cs@ == s@,
            forall|j: int| 0 <= j < i ==> !is_white(#[trigger] s@[j]),
        decreases cs@.len() - i,
    {
        if is_whitespace(cs[i]) {
            assert(is_white(s@[i as int]));
            return false;
        }
        i = i + 1;
    }
    true
}

// ---- bytes ---------------------------------------------------------------------

/// The text that `String::from_utf8_lossy` makes of bytes.
pub uninterp spec fn lossy_text(bytes: Seq<u8>) -> Seq<char>;

/// `String::from_utf8_lossy`: the text of UTF-8, with a replacement character for what is none. The
/// result depends on the bytes alone; valid UTF-8 is the text that it encodes, and ASCII bytes are
/// the characters of their numbers.
#[verifier::external_body]
pub(crate) fn text_lossy(bytes: &[u8]) -> (r: String)
    ensures
        r@ == lossy_text(bytes@),
        vstd::utf8::valid_utf8(bytes@) ==> r@ == vstd::utf8::decode_utf8(bytes@),
        (forall|i: int| 0 <= i < bytes@.len() ==> bytes@[i] < 128) ==> r@ == bytes@.map_values(
            |b: u8| b as char,
        ),
{
    String::from_utf8_lossy(bytes).into_owned()
}

/// Whether `p` stands somewhere in `s`.
pub open spec fn holds(s: Seq<char>, p: Seq<char>) -> bool {
    exists|i: int| 0 <= i <= s.len() - p.len() && #[trigger] s.subrange(i, i + p.len()) == p
}

/// A text that is put between others stands in the whole.
pub proof fn lemma_holds(a: Seq<char>, p: Seq<char>, b: Seq<char>)
    ensures
        holds(a + p + b, p),
{
    let s = a + p + b;
    let i = a.len() as int;
    assert(s.subrange(i, i + p.len()) =~= p);
}

/// Whether `p` stands in one of the lines.
pub open spec fn told(lines: Seq<Seq<char>>, p: Seq<char>) -> bool {
    exists|k: int| 0 <= k < lines.len() && holds(#[trigger] lines[k], p)
}

/// What stands in one of some lines stands in one of more lines around them.
pub proof fn lemma_told(before: Seq<Seq<char>>, lines: Seq<Seq<char>>, after: Seq<Seq<char>>, p: Seq<char>)
    requires
        told(lines, p),
    ensures
        told(before + lines + after, p),
{
    let k = choose|k: int| 0 <= k < lines.len() && holds(#[trigger] lines[k], p);
    let all = before + lines + after;
    assert(all[before.len() + k] == lines[k]);
}

/// What stands in a part of a text stands in the text.
pub proof fn lemma_held_within(a: Seq<char>, s: Seq<char>, b: Seq<char>, p: Seq<char>)
    requires
        holds(s, p),
    ensures
        holds(a + s + b, p),
{
    let k = choose|k: int| 0 <= k <= s.len() - p.len() && #[trigger] s.subrange(k, k + p.len()) == p;
    let j = a.len() + k;
    assert((a + s + b).subrange(j, j + p.len()) =~= s.subrange(k, k + p.len()));
}

/// What is told in one of two lists of lines is told in both together.
pub proof fn lemma_told_in_either(a: Seq<Seq<char>>, b: Seq<Seq<char>>, p: Seq<char>)
    requires
        told(a, p) || told(b, p),
    ensures
        told(a + b, p),
{
    if told(a, p) {
        lemma_told(seq![], a, b, p);
        assert(seq![] + a + b =~= a + b);
    } else {
        lemma_told(a, b, seq![], p);
        assert(a + b + seq![] =~= a + b);
    }
}

/// What stands in one of two texts stands in both together.
pub proof fn lemma_held_in_either(a: Seq<char>, b: Seq<char>, p: Seq<char>)
    requires
        holds(a, p) || holds(b, p),
    ensures
        holds(a + b, p),
{
    if holds(a, p) {
        lemma_held_within(seq![], a, b, p);
        assert(seq![] + a + b =~= a + b);
    } else {
        lemma_held_within(a, b, seq![], p);
        assert(a + b + seq![] =~= a + b);
    }
}

/// A text stands in itself, and with anything before or behind it.
pub proof fn lemma_held_at_an_end(p: Seq<char>, t: Seq<char>)
    ensures
        holds(p, p),
        holds(p + t, p),
        holds(t + p, p),
{
    lemma_holds(seq![], p, seq![]);
    assert(seq![] + p + seq![] =~= p);
    lemma_held_in_either(p, t, p);
    lemma_held_in_either(t, p, p);
}

} // verus!
