//! Templates and fragments as they are offered for selection.

use crate::layout::push_line;
use crate::order;
use crate::order::ascending_texts;
use crate::path;
use crate::path::{join, parent};
use crate::text;
use crate::text::{chars_of, concat3, same, text_of};
use crate::words;
use crate::words::{lines_of, split_once, trimmed};
use vstd::prelude::*;
use vstd::string::*;

verus! {

/// A template or a fragment that was found.
#[derive(Debug)]
pub struct TemplateEntry {
    /// Its name.
    pub name: String,
    /// Its version.
    pub version: String,
    /// What it is.
    pub description: String,
    /// Whether it is a fragment.
    pub is_fragment: bool,
}

impl TemplateEntry {
    /// The versioned reference.
    pub open spec fn named(self) -> Seq<char> {
        self.name@ + "@v"@ + self.version@
    }

    /// The versioned reference.
    pub fn reference(&self) -> (r: String)
        ensures
            r@ == self.named(),
    {
        concat3(self.name.as_str(), "@v", self.version.as_str())
    }
}

/// Where the fragments beside template directories are.
pub open spec fn beside(dir: Seq<char>) -> Seq<char> {
    path::joined(
        match path::parent_of(dir) {
            Some(p) => p,
            None => dir,
        },
        "fragments"@,
    )
}

/// Where the fragments beside template directories are.
pub fn fragment_dirs(template_dirs: &[String]) -> (out: Vec<String>)
    ensures
        text::texts(out@) == text::texts(template_dirs@).map_values(|d: Seq<char>| beside(d)),
{
    let ghost want = text::texts(template_dirs@).map_values(|d: Seq<char>| beside(d));
    let mut out: Vec<String> = Vec::new();
    let mut i: usize = 0;
    assert(text::texts(out@) =~= want.take(0));
    while i < template_dirs.len()
        invariant
            i <= template_dirs@.len(),
            want == text::texts(template_dirs@).map_values(|d: Seq<char>| beside(d)),
            text::texts(out@) == want.take(i as int),
        decreases template_dirs@.len() - i,
    {
        let d = template_dirs[i].as_str();
        let p = match parent(d) {
            Some(p) => p,
            None => d.to_owned(),
        };
        push_line(&mut out, join(p.as_str(), "fragments"));
        i = i + 1;
        assert(text::texts(out@) =~= want.take(i as int));
    }
    assert(want.take(want.len() as int) =~= want);
    out
}

// ---- the description of an entry -----------------------------------------------

/// `s` without the double quotes at its front.
pub open spec fn unquoted_front(s: Seq<char>) -> Seq<char>
    decreases s.len(),
{
    if s.len() > 0 && s[0] == '"' {
        unquoted_front(s.drop_first())
    } else {
        s
    }
}

/// `s` without the double quotes at its end.
pub open spec fn unquoted_back(s: Seq<char>) -> Seq<char>
    decreases s.len(),
{
    if s.len() > 0 && s.last() == '"' {
        unquoted_back(s.drop_last())
    } else {
        s
    }
}

/// `s` without the double quotes around it.
pub open spec fn unquoted(s: Seq<char>) -> Seq<char> {
    unquoted_back(unquoted_front(s))
}

fn unquote(s: &str) -> (r: String)
    ensures
        r@ == unquoted(s@),
{
    let cs = chars_of(s);
    let n: usize = cs.len();
    let mut a: usize = 0;
    assert(cs@.skip(0) =~= cs@);
    while a < n && cs[a] == '"'
        invariant
            a <= n,
            n == cs@.len(),
            unquoted_front(cs@.skip(a as int)) == unquoted_front(cs@),
        decreases n - a,
    {
        proof {
            assert(cs@.skip(a as int)[0] == cs@[a as int]);
            assert(cs@.skip(a as int).drop_first() =~= cs@.skip(a + 1));
        }
        a = a + 1;
    }
    let ghost f = cs@.skip(a as int);
    proof {
        if a < n {
            assert(f[0] == cs@[a as int]);
        }
        assert(unquoted_front(cs@) == f);
        assert(f =~= cs@.subrange(a as int, n as int));
    }
    let mut b: usize = n;
    while b > a && cs[b - 1] == '"'
        invariant
            a <= b <= n,
            n == cs@.len(),
            unquoted_back(cs@.subrange(a as int, b as int)) == unquoted_back(f),
        decreases b,
    {
        proof {
            let t = cs@.subrange(a as int, b as int);
            assert(t.last() == cs@[b - 1]);
            assert(t.drop_last() =~= cs@.subrange(a as int, b - 1));
        }
        b = b - 1;
    }
    proof {
        let t = cs@.subrange(a as int, b as int);
        if b > a {
            assert(t.last() == cs@[b - 1]);
        }
    }
    text_of(&cs, a, b)
}

/// The key and the value that a line sets: none where it is blank, a comment or no assignment.
pub open spec fn setting(line: Seq<char>) -> Option<(Seq<char>, Seq<char>)> {
    let t = words::trim(line);
    if t.len() == 0 || t[0] == '#' {
        None
    } else {
        match words::cut(t, '=') {
            Some((k, v)) => Some((words::trim(k), unquoted(words::trim(v)))),
            None => None,
        }
    }
}

fn setting_of(line: &str) -> (r: Option<(String, String)>)
    ensures
        match setting(line@) {
            Some((k, v)) => r matches Some(p) && p.0@ == k && p.1@ == v,
            None => r is None,
        },
{
    let t = trimmed(line);
    if t.unicode_len() == 0 {
        return None;
    }
    if t.get_char(0) == '#' {
        return None;
    }
    match split_once(t, '=') {
        Some((k, v)) => Some((trimmed(k).to_owned(), unquote(trimmed(v)))),
        None => None,
    }
}

/// The value of a key: of the lines that set it, the last one's; the empty text where none does.
pub open spec fn set_to(lines: Seq<Seq<char>>, key: Seq<char>) -> Seq<char>
    decreases lines.len(),
{
    if lines.len() == 0 {
        ""@
    } else {
        match setting(lines.last()) {
            Some((k, v)) if k == key => v,
            _ => set_to(lines.drop_last(), key),
        }
    }
}

/// `s`, or `other` where it is empty.
pub open spec fn or(s: Seq<char>, other: Seq<char>) -> Seq<char> {
    if s.len() == 0 {
        other
    } else {
        s
    }
}

impl TemplateEntry {
    /// Whether the entry is what its directory and its description say.
    pub open spec fn describes(self, dir_name: Seq<char>, meta: Option<&str>, is_fragment: bool) -> bool {
        let lines = match meta {
            Some(m) => words::lines(m@),
            None => seq![],
        };
        &&& self.name@ == or(set_to(lines, "name"@), dir_name)
        &&& self.version@ == or(set_to(lines, "version"@), "1"@)
        &&& self.description@ == set_to(lines, "description"@)
        &&& self.is_fragment == is_fragment
    }
}

/// The entry of a directory, by the text of its description where it could be read.
pub fn parse_entry(dir_name: &str, meta: Option<&str>, is_fragment: bool) -> (e: TemplateEntry)
    ensures
        e.describes(dir_name@, meta, is_fragment),
{
    let mut name = "".to_owned();
    let mut version = "".to_owned();
    let mut description = "".to_owned();
    let lines = match meta {
        Some(m) => lines_of(m),
        None => Vec::new(),
    };
    let ghost all = text::texts(lines@);
    proof {
        reveal_strlit("");
        reveal_strlit("name");
        reveal_strlit("version");
        reveal_strlit("description");
        assert("name"@.len() != "version"@.len());
        assert("name"@.len() != "description"@.len());
        assert("version"@.len() != "description"@.len());
        if meta is None {
            assert(all =~= seq![]);
        }
        assert(all.take(0) =~= seq![]);
    }
    let mut i: usize = 0;
    while i < lines.len()
        invariant
            i <= lines@.len(),
            all == text::texts(lines@),
            "name"@ != "version"@,
            "name"@ != "description"@,
            "version"@ != "description"@,
            name@ == set_to(all.take(i as int), "name"@),
            version@ == set_to(all.take(i as int), "version"@),
            description@ == set_to(all.take(i as int), "description"@),
        decreases lines@.len() - i,
    {
        proof {
            assert(all.take(i + 1).drop_last() =~= all.take(i as int));
            assert(all.take(i + 1).last() == lines@[i as int]@);
        }
        if let Some((k, v)) = setting_of(lines[i].as_str()) {
            if same(k.as_str(), "name") {
                name = v;
            } else if same(k.as_str(), "version") {
                version = v;
            } else if same(k.as_str(), "description") {
                description = v;
            }
        }
        i = i + 1;
    }
    assert(all.take(all.len() as int) =~= all);
    TemplateEntry {
        name: if name.as_str().unicode_len() == 0 {
            dir_name.to_owned()
        } else {
            name
        },
        version: if version.as_str().unicode_len() == 0 {
            "1".to_owned()
        } else {
            version
        },
        description,
        is_fragment,
    }
}

// ---- what is offered -----------------------------------------------------------

/// The names of entries.
pub open spec fn names(v: Seq<TemplateEntry>) -> Seq<Seq<char>> {
    v.map_values(|e: TemplateEntry| e.name@)
}

/// Where a name stands first.
pub open spec fn first_of(ns: Seq<Seq<char>>, n: Seq<char>) -> int
    decreases ns.len(),
{
    if ns.len() == 0 || ns[0] == n {
        0
    } else {
        1 + first_of(ns.drop_first(), n)
    }
}

proof fn lemma_first_of(ns: Seq<Seq<char>>, n: Seq<char>)
    requires
        ns.contains(n),
    ensures
        0 <= first_of(ns, n) < ns.len(),
        ns[first_of(ns, n)] == n,
        forall|j: int| 0 <= j < first_of(ns, n) ==> ns[j] != n,
    decreases ns.len(),
{
    if ns[0] != n {
        let rest = ns.drop_first();
        let k = choose|k: int| 0 <= k < ns.len() && ns[k] == n;
        assert(rest[k - 1] == n);
        lemma_first_of(rest, n);
        assert forall|j: int| 0 <= j < first_of(ns, n) implies ns[j] != n by {
            if j > 0 {
                assert(rest[j - 1] == ns[j]);
            }
        }
    }
}

/// Which of the entries are offered: of those with one name the first, so that a directory that is
/// searched earlier shadows a later one, in the order of the names.
pub open spec fn offered(ns: Seq<Seq<char>>) -> Seq<int> {
    order::ascending(ns).map_values(|n: Seq<char>| first_of(ns, n))
}

/// Which of the entries that were found are offered.
pub fn scan_all(found: &[TemplateEntry]) -> (out: Vec<usize>)
    ensures
        out@.map_values(|i: usize| i as int) == offered(names(found@)),
        forall|k: int| 0 <= k < out@.len() ==> (#[trigger] out@[k]) < found@.len(),
{
    let ghost ns = names(found@);
    let mut list: Vec<String> = Vec::new();
    let mut i: usize = 0;
    assert(text::texts(list@) =~= ns.take(0));
    while i < found.len()
        invariant
            i <= found@.len(),
            ns == names(found@),
            text::texts(list@) == ns.take(i as int),
        decreases found@.len() - i,
    {
        push_line(&mut list, found[i].name.clone());
        i = i + 1;
        assert(text::texts(list@) =~= ns.take(i as int));
    }
    assert(ns.take(ns.len() as int) =~= ns);
    let asc = ascending_texts(list.as_slice());
    let ghost want = offered(ns);
    proof {
        order::law_ascending(ns);
        assert(text::texts(asc@).len() == asc@.len());
    }
    let mut out: Vec<usize> = Vec::new();
    let mut k: usize = 0;
    assert(out@.map_values(|i: usize| i as int) =~= want.take(0));
    while k < asc.len()
        invariant
            k <= asc@.len(),
            ns == names(found@),
            text::texts(asc@) == order::ascending(ns),
            forall|x: Seq<char>| #[trigger] order::ascending(ns).contains(x) <==> ns.contains(x),
            want == offered(ns),
            out@.map_values(|i: usize| i as int) == want.take(k as int),
            forall|j: int| 0 <= j < out@.len() ==> (#[trigger] out@[j]) < found@.len(),
        decreases asc@.len() - k,
    {
        let ghost n = asc@[k as int]@;
        proof {
            assert(order::ascending(ns)[k as int] == n);
            assert(order::ascending(ns).contains(n));
            lemma_first_of(ns, n);
        }
        let mut i: usize = 0;
        while !same(found[i].name.as_str(), asc[k].as_str())
            invariant
                k < asc@.len(),
                n == asc@[k as int]@,
                ns == names(found@),
                0 <= i <= first_of(ns, n) < ns.len(),
                ns[first_of(ns, n)] == n,
            decreases first_of(ns, n) - i,
        {
            assert(ns[i as int] == found@[i as int].name@);
            i = i + 1;
        }
        proof {
            assert(ns[i as int] == found@[i as int].name@);
            assert(i as int == first_of(ns, n));
            assert(want[k as int] == first_of(ns, n));
            assert(want.take(k + 1) =~= want.take(k as int).push(i as int));
        }
        let ghost before = out@;
        out.push(i);
        k = k + 1;
        assert(out@.map_values(|i: usize| i as int) =~= before.map_values(
            |i: usize| i as int,
        ).push(i as int));
        assert(out@.map_values(|i: usize| i as int) =~= want.take(k as int));
    }
    assert(want.take(want.len() as int) =~= want);
    out
}

/// Every name that was found is offered once, by the entry that was found first, in the order of
/// the names.
pub proof fn law_earlier_directories_shadow(ns: Seq<Seq<char>>)
    ensures
        forall|k: int|
            0 <= k < offered(ns).len() ==> 0 <= #[trigger] offered(ns)[k] < ns.len()
                && ns[offered(ns)[k]] == order::ascending(ns)[k] && forall|j: int|
                0 <= j < offered(ns)[k] ==> #[trigger] ns[j] != order::ascending(ns)[k],
        order::is_ascending(order::ascending(ns)),
{
    order::law_ascending(ns);
    assert forall|k: int| 0 <= k < offered(ns).len() implies 0 <= #[trigger] offered(ns)[k]
        < ns.len() && ns[offered(ns)[k]] == order::ascending(ns)[k] && (forall|j: int|
        0 <= j < offered(ns)[k] ==> #[trigger] ns[j] != order::ascending(ns)[k]) by {
        let n = order::ascending(ns)[k];
        assert(order::ascending(ns).contains(n));
        lemma_first_of(ns, n);
    }
}

/// Whether the name of an entry is offered, by that entry or by one that was found before it.
pub open spec fn is_offered(found: Seq<TemplateEntry>, out: Seq<usize>, i: int) -> bool {
    exists|k: int|
        0 <= k < out.len() && #[trigger] out[k] <= i && found[out[k] as int].name@ == found[i].name@
}

/// What is offered is the first entry of each name that was found: every name is offered, none twice,
/// and never by an entry that another of its name stands before.
pub proof fn law_every_name_is_offered_once(found: &[TemplateEntry], out: Vec<usize>)
    requires
        call_ensures(scan_all, (found,), out),
    ensures
        forall|i: int| 0 <= i < found@.len() ==> #[trigger] is_offered(found@, out@, i),
        forall|j: int, k: int|
            0 <= j < k < out@.len() ==> found@[#[trigger] out@[j] as int].name@
                != found@[#[trigger] out@[k] as int].name@,
        forall|j: int, k: int|
            0 <= k < out@.len() && 0 <= j < #[trigger] out@[k] ==> (#[trigger] found@[j]).name@
                != found@[out@[k] as int].name@,
{
    let ns = names(found@);
    let all = out@.map_values(|i: usize| i as int);
    let asc = order::ascending(ns);
    law_earlier_directories_shadow(ns);
    order::law_ascending(ns);
    assert(all.len() == out@.len());
    assert forall|k: int| 0 <= k < out@.len() implies found@[#[trigger] out@[k] as int].name@
        == asc[k] by {
        assert(all[k] == out@[k] as int);
        assert(offered(ns)[k] == out@[k] as int);
        assert(ns[out@[k] as int] == found@[out@[k] as int].name@);
    }
    assert forall|i: int| 0 <= i < found@.len() implies #[trigger] is_offered(found@, out@, i) by {
        let n = found@[i].name@;
        assert(ns[i] == n);
        assert(ns.contains(n));
        assert(asc.contains(n));
        let k = choose|k: int| 0 <= k < asc.len() && asc[k] == n;
        assert(all[k] == out@[k] as int);
        assert(offered(ns)[k] == out@[k] as int);
        if out@[k] > i {
            assert(ns[i] != asc[k]);
        }
        assert(found@[out@[k] as int].name@ == n);
    }
    assert forall|j: int, k: int| 0 <= j < k < out@.len() implies found@[#[trigger] out@[j] as int].name@
        != found@[#[trigger] out@[k] as int].name@ by {
        assert(found@[out@[j] as int].name@ == asc[j]);
        assert(found@[out@[k] as int].name@ == asc[k]);
        assert(order::lex(asc[j], asc[k]));
        order::law_text_order(asc[j], asc[k], asc[k]);
    }
    assert forall|j: int, k: int| 0 <= k < out@.len() && 0 <= j < #[trigger] out@[k] implies (
    #[trigger] found@[j]).name@ != found@[out@[k] as int].name@ by {
        assert(all[k] == out@[k] as int);
        assert(offered(ns)[k] == out@[k] as int);
        assert(ns[j] != asc[k]);
        assert(ns[j] == found@[j].name@);
    }
}

/// An entry that has no description is named after its directory, in its first version.
pub proof fn law_undescribed_entry_is_its_directory(dir_name: &str, is_fragment: bool, e: TemplateEntry)
    requires
        call_ensures(parse_entry, (dir_name, None::<&str>, is_fragment), e),
    ensures
        e.name@ == dir_name@,
        e.version@ == "1"@,
        e.description@.len() == 0,
        e.is_fragment == is_fragment,
{
    reveal_strlit("");
}

/// The last line that sets a value that is not empty counts, whatever the other lines set.
pub proof fn law_last_setting_counts(
    dir_name: &str,
    meta: &str,
    is_fragment: bool,
    e: TemplateEntry,
    i: int,
    key: Seq<char>,
    value: Seq<char>,
)
    requires
        call_ensures(parse_entry, (dir_name, Some(meta), is_fragment), e),
        0 <= i < words::lines(meta@).len(),
        setting(words::lines(meta@)[i]) == Some((key, value)),
        value.len() > 0,
        forall|j: int|
            i < j < words::lines(meta@).len() ==> (setting(#[trigger] words::lines(meta@)[j])
                matches Some(p) ==> p.0 != key),
    ensures
        key == "name"@ ==> e.name@ == value,
        key == "version"@ ==> e.version@ == value,
        key == "description"@ ==> e.description@ == value,
        e.is_fragment == is_fragment,
{
    lemma_set_to(words::lines(meta@), i, key, value);
}

proof fn lemma_set_to(lines: Seq<Seq<char>>, i: int, key: Seq<char>, value: Seq<char>)
    requires
        0 <= i < lines.len(),
        setting(lines[i]) == Some((key, value)),
        forall|j: int|
            i < j < lines.len() ==> (setting(#[trigger] lines[j]) matches Some(p) ==> p.0 != key),
    ensures
        set_to(lines, key) == value,
    decreases lines.len(),
{
    if i < lines.len() - 1 {
        let front = lines.drop_last();
        assert forall|j: int| i < j < front.len() implies (setting(#[trigger] front[j]) matches Some(p)
            ==> p.0 != key) by {
            assert(front[j] == lines[j]);
        }
        assert(front[i] == lines[i]);
        assert(lines.last() == lines[lines.len() - 1]);
        lemma_set_to(front, i, key, value);
    }
}

} // verus!
