//! The leaf policy that is composed, and the steps that compose it.

use super::probe;
use super::probe::ProbeResult;
use super::questionnaire;
use super::questionnaire::says_yes;
use super::templates;
use super::templates::TemplateEntry;
use crate::decimal;
use crate::decimal::{dec_text, parse_max};
use crate::layout;
use crate::layout::{left_text, push_line, right_text};
use crate::text;
use crate::text::{concat2, concat3, concat7, copy_all, same};
use crate::words;
use crate::words::{split_on, trimmed};
use vstd::prelude::*;
use vstd::string::*;

verus! {

/// A path that is granted.
#[derive(Debug)]
pub struct PathEntry {
    /// The path.
    pub path: String,
    /// Why.
    pub reason: String,
}

/// A destination that is allowed.
#[derive(Debug)]
pub struct NetAllow {
    /// The host.
    pub name: String,
    /// The ports.
    pub ports: Vec<u16>,
    /// The protocol.
    pub protocol: String,
    /// Why.
    pub reason: String,
}

/// A leaf policy.
#[derive(Debug)]
pub struct Leaf {
    /// The kennel.
    pub name: String,
    /// The template it starts from.
    pub template_base: String,
    /// The fragments it takes in.
    pub includes: Vec<String>,
    /// What may be executed besides.
    pub exec_allow: Vec<PathEntry>,
    /// What may be read besides.
    pub fs_read: Vec<PathEntry>,
    /// What may be written besides.
    pub fs_write: Vec<PathEntry>,
    /// The destinations that are allowed besides.
    pub net_allow: Vec<NetAllow>,
    /// How long the kennel lives, where that is said.
    pub ttl: Option<String>,
}

/// What a leaf policy says.
#[verifier::ext_equal]
pub struct LeafModel {
    /// The kennel.
    pub name: Seq<char>,
    /// The template it starts from.
    pub template_base: Seq<char>,
    /// The fragments it takes in.
    pub includes: Seq<Seq<char>>,
    /// What may be executed besides, and why.
    pub exec_allow: Seq<(Seq<char>, Seq<char>)>,
    /// What may be read besides, and why.
    pub fs_read: Seq<(Seq<char>, Seq<char>)>,
    /// What may be written besides, and why.
    pub fs_write: Seq<(Seq<char>, Seq<char>)>,
    /// The destinations that are allowed besides: host, ports, protocol and why.
    pub net_allow: Seq<(Seq<char>, Seq<u16>, Seq<char>, Seq<char>)>,
    /// How long the kennel lives, where that is said.
    pub ttl: Option<Seq<char>>,
}

/// Paths and why they are granted.
pub open spec fn entries(v: Seq<PathEntry>) -> Seq<(Seq<char>, Seq<char>)> {
    v.map_values(|e: PathEntry| (e.path@, e.reason@))
}

/// Destinations: host, ports, protocol and why.
pub open spec fn allows(v: Seq<NetAllow>) -> Seq<(Seq<char>, Seq<u16>, Seq<char>, Seq<char>)> {
    v.map_values(|e: NetAllow| (e.name@, e.ports@, e.protocol@, e.reason@))
}

impl Leaf {
    /// What the policy says.
    pub open spec fn model(self) -> LeafModel {
        LeafModel {
            name: self.name@,
            template_base: self.template_base@,
            includes: text::texts(self.includes@),
            exec_allow: entries(self.exec_allow@),
            fs_read: entries(self.fs_read@),
            fs_write: entries(self.fs_write@),
            net_allow: allows(self.net_allow@),
            ttl: layout::opt(self.ttl),
        }
    }
}

fn push_entry(out: &mut Vec<PathEntry>, path: String, reason: String)
    ensures
        entries(final(out)@) == entries(old(out)@).push((path@, reason@)),
{
    let ghost before = out@;
    let ghost p = path@;
    let ghost r = reason@;
    out.push(PathEntry { path, reason });
    assert(entries(out@) =~= entries(before).push((p, r)));
}

// ---- a probed program ----------------------------------------------------------

/// The policy for a probed program where nothing is asked: what was found may be executed and read,
/// and everything else is as confined as the template.
pub open spec fn from_probe(name: Seq<char>, p: ProbeResult) -> LeafModel {
    LeafModel {
        name,
        template_base: "base-confined@v1"@,
        includes: seq![],
        exec_allow: text::texts(p.exec_allow@).map_values(
            |t: Seq<char>| (t, "probed from "@ + p.workload@),
        ),
        fs_read: probe::grants(p.extra_fs_read@),
        fs_write: seq![],
        net_allow: seq![],
        ttl: Some("30m"@),
    }
}

/// The policy for a probed program where nothing is asked.
pub fn build_leaf_from_probe(name: &str, p: &ProbeResult) -> (l: Leaf)
    ensures
        l.model() == from_probe(name@, *p),
{
    let ghost m = from_probe(name@, *p);
    let mut exec_allow: Vec<PathEntry> = Vec::new();
    let mut i: usize = 0;
    assert(entries(exec_allow@) =~= m.exec_allow.take(0));
    while i < p.exec_allow.len()
        invariant
            i <= p.exec_allow@.len(),
            m == from_probe(name@, *p),
            entries(exec_allow@) == m.exec_allow.take(i as int),
        decreases p.exec_allow@.len() - i,
    {
        proof {
            assert(m.exec_allow[i as int] == (
                p.exec_allow@[i as int]@,
                "probed from "@ + p.workload@,
            ));
            assert(m.exec_allow.take(i + 1) =~= m.exec_allow.take(i as int).push(
                m.exec_allow[i as int],
            ));
        }
        push_entry(
            &mut exec_allow,
            p.exec_allow[i].clone(),
            concat2("probed from ", p.workload.as_str()),
        );
        i = i + 1;
    }
    assert(m.exec_allow.take(m.exec_allow.len() as int) =~= m.exec_allow);
    let mut fs_read: Vec<PathEntry> = Vec::new();
    let mut j: usize = 0;
    assert(entries(fs_read@) =~= m.fs_read.take(0));
    while j < p.extra_fs_read.len()
        invariant
            j <= p.extra_fs_read@.len(),
            m == from_probe(name@, *p),
            entries(fs_read@) == m.fs_read.take(j as int),
        decreases p.extra_fs_read@.len() - j,
    {
        proof {
            assert(m.fs_read[j as int] == (
                p.extra_fs_read@[j as int].path@,
                p.extra_fs_read@[j as int].reason@,
            ));
            assert(m.fs_read.take(j + 1) =~= m.fs_read.take(j as int).push(m.fs_read[j as int]));
        }
        push_entry(
            &mut fs_read,
            p.extra_fs_read[j].path.clone(),
            p.extra_fs_read[j].reason.clone(),
        );
        j = j + 1;
    }
    assert(m.fs_read.take(m.fs_read.len() as int) =~= m.fs_read);
    let l = Leaf {
        name: name.to_owned(),
        template_base: "base-confined@v1".to_owned(),
        includes: Vec::new(),
        exec_allow,
        fs_read,
        fs_write: Vec::new(),
        net_allow: Vec::new(),
        ttl: Some("30m".to_owned()),
    };
    assert(l.model() =~= m);
    l
}

/// A probed program may execute and read just what was found, under its name; nothing is written and
/// no host is reached.
pub proof fn law_probed_policy_grants_what_was_found(name: &str, p: &ProbeResult, l: Leaf)
    requires
        call_ensures(build_leaf_from_probe, (name, p), l),
    ensures
        l.name@ == name@,
        l.exec_allow@.len() == p.exec_allow@.len(),
        forall|i: int|
            0 <= i < p.exec_allow@.len() ==> (#[trigger] l.exec_allow@[i]).path@
                == p.exec_allow@[i]@,
        l.fs_read@.len() == p.extra_fs_read@.len(),
        forall|i: int|
            0 <= i < p.extra_fs_read@.len() ==> (#[trigger] l.fs_read@[i]).path@
                == p.extra_fs_read@[i].path@,
        l.fs_write@.len() == 0,
        l.net_allow@.len() == 0,
        l.includes@.len() == 0,
{
    let m = from_probe(name@, *p);
    assert(entries(l.exec_allow@).len() == l.exec_allow@.len());
    assert(entries(l.fs_read@).len() == l.fs_read@.len());
    assert(entries(l.fs_write@).len() == l.fs_write@.len());
    assert(allows(l.net_allow@).len() == l.net_allow@.len());
    assert(text::texts(l.includes@).len() == l.includes@.len());
    assert forall|i: int| 0 <= i < p.exec_allow@.len() implies (#[trigger] l.exec_allow@[i]).path@
        == p.exec_allow@[i]@ by {
        assert(entries(l.exec_allow@)[i] == m.exec_allow[i]);
    }
    assert forall|i: int| 0 <= i < p.extra_fs_read@.len() implies (#[trigger] l.fs_read@[i]).path@
        == p.extra_fs_read@[i].path@ by {
        assert(entries(l.fs_read@)[i] == m.fs_read[i]);
    }
}

// ---- the questions -------------------------------------------------------------

/// The questions on a leaf policy, in their order.
#[derive(Debug, Clone, Copy, PartialEq, Eq, Structural)]
pub enum Topic {
    /// The template to start from; only asked of a probed program.
    Base,
    /// Whether there is network access.
    Network,
    /// The first host.
    FirstHost,
    /// A further host.
    NextHost,
    /// A path below the home directory that may be written.
    Home,
    /// How long the kennel lives.
    Ttl,
    /// None is left.
    Done,
}

/// What is asked.
pub open spec fn asks(q: Topic) -> Option<Seq<char>> {
    match q {
        Topic::Base => Some("Base template [base-confined@v1]: "@),
        Topic::Network => Some("Network access? (y/N): "@),
        Topic::FirstHost => Some("  Allowed host (e.g. api.example.com, blank to finish): "@),
        Topic::NextHost => Some("  Next host (blank to finish): "@),
        Topic::Home => Some(
            "Home directory write path (e.g. ~/projects/myproj/**, blank for none): "@,
        ),
        Topic::Ttl => Some("TTL [30m]: "@),
        Topic::Done => None,
    }
}

/// What is asked.
pub fn prompt(q: Topic) -> (r: Option<&'static str>)
    ensures
        match asks(q) {
            Some(t) => r matches Some(s) && s@ == t,
            None => r is None,
        },
{
    match q {
        Topic::Base => Some("Base template [base-confined@v1]: "),
        Topic::Network => Some("Network access? (y/N): "),
        Topic::FirstHost => Some("  Allowed host (e.g. api.example.com, blank to finish): "),
        Topic::NextHost => Some("  Next host (blank to finish): "),
        Topic::Home => Some(
            "Home directory write path (e.g. ~/projects/myproj/**, blank for none): ",
        ),
        Topic::Ttl => Some("TTL [30m]: "),
        Topic::Done => None,
    }
}

/// The question that follows.
pub open spec fn follows(q: Topic, line: Seq<char>) -> Topic {
    match q {
        Topic::Base => Topic::Network,
        Topic::Network => if questionnaire::is_yes(line) {
            Topic::FirstHost
        } else {
            Topic::Home
        },
        Topic::FirstHost | Topic::NextHost => if questionnaire::is_blank(line) {
            Topic::Home
        } else {
            Topic::NextHost
        },
        Topic::Home => Topic::Ttl,
        Topic::Ttl => Topic::Done,
        Topic::Done => Topic::Done,
    }
}

/// The policy with the answer to one question.
pub open spec fn answered(m: LeafModel, q: Topic, line: Seq<char>) -> LeafModel {
    let t = words::trim(line);
    if t.len() == 0 {
        m
    } else {
        match q {
            Topic::Base => LeafModel { template_base: t, ..m },
            Topic::FirstHost | Topic::NextHost => LeafModel {
                net_allow: m.net_allow.push(
                    (t, seq![443u16], "tcp"@, "operator-specified network destination"@),
                ),
                ..m
            },
            Topic::Home => LeafModel {
                fs_write: m.fs_write.push((t, "operator-specified write access"@)),
                ..m
            },
            Topic::Ttl => LeafModel { ttl: Some(t), ..m },
            _ => m,
        }
    }
}

impl Leaf {
    /// Takes the answer to a question; the question that follows.
    pub fn answer(&mut self, q: Topic, line: &str) -> (next: Topic)
        ensures
            final(self).model() == answered(old(self).model(), q, line@),
            next == follows(q, line@),
    {
        let t = trimmed(line);
        let blank = t.unicode_len() == 0;
        match q {
            Topic::Base => {
                if !blank {
                    self.template_base = t.to_owned();
                }
                Topic::Network
            },
            Topic::Network => if says_yes(line) {
                Topic::FirstHost
            } else {
                Topic::Home
            },
            Topic::FirstHost | Topic::NextHost => {
                if blank {
                    Topic::Home
                } else {
                    let ghost before = self.net_allow@;
                    let mut ports: Vec<u16> = Vec::new();
                    ports.push(443);
                    assert(ports@ =~= seq![443u16]);
                    self.net_allow.push(
                        NetAllow {
                            name: t.to_owned(),
                            ports,
                            protocol: "tcp".to_owned(),
                            reason: "operator-specified network destination".to_owned(),
                        },
                    );
                    assert(allows(self.net_allow@) =~= allows(before).push(
                        (
                            words::trim(line@),
                            seq![443u16],
                            "tcp"@,
                            "operator-specified network destination"@,
                        ),
                    ));
                    Topic::NextHost
                }
            },
            Topic::Home => {
                if !blank {
                    push_entry(
                        &mut self.fs_write,
                        t.to_owned(),
                        "operator-specified write access".to_owned(),
                    );
                }
                Topic::Ttl
            },
            Topic::Ttl => {
                if !blank {
                    self.ttl = Some(t.to_owned());
                }
                Topic::Done
            },
            Topic::Done => Topic::Done,
        }
    }
}

/// A question that is left blank grants nothing: the policy is as it was.
pub proof fn law_blank_grants_nothing(m: LeafModel, q: Topic, line: Seq<char>)
    requires
        questionnaire::is_blank(line),
    ensures
        answered(m, q, line) == m,
        !(follows(q, line) is FirstHost),
{
}

/// One answer changes what its question is about and nothing else: a line that is not blank is taken
/// as it was typed but for the space around it, and every host, the first as well as the further ones,
/// is allowed with port 443 over tcp behind the hosts that were typed before.
pub proof fn law_an_answer_is_taken_as_typed(l: &mut Leaf, q: Topic, line: &str, next: Topic)
    requires
        call_ensures(Leaf::answer, (l, q, line), next),
    ensures
        ({
            let t = words::trim(line@);
            let typed = t.len() > 0;
            let was = *old(l);
            let is = *final(l);
            let host = q is FirstHost || q is NextHost;
            &&& is.name@ == was.name@
            &&& text::texts(is.includes@) == text::texts(was.includes@)
            &&& entries(is.exec_allow@) == entries(was.exec_allow@)
            &&& entries(is.fs_read@) == entries(was.fs_read@)
            &&& is.template_base@ == if q is Base && typed { t } else { was.template_base@ }
            &&& layout::opt(is.ttl) == if q is Ttl && typed { Some(t) } else { layout::opt(was.ttl) }
            &&& is.net_allow@.len() == was.net_allow@.len() + if host && typed { 1int } else { 0int }
            &&& host && typed ==> {
                let new = is.net_allow@.last();
                new.name@ == t && new.ports@ == seq![443u16] && new.protocol@ == "tcp"@
            }
            &&& forall|i: int|
                0 <= i < was.net_allow@.len() ==> (#[trigger] is.net_allow@[i]).name@
                    == was.net_allow@[i].name@ && is.net_allow@[i].ports@ == was.net_allow@[i].ports@
            &&& is.fs_write@.len() == was.fs_write@.len() + if q is Home && typed { 1int } else { 0int }
            &&& q is Home && typed ==> is.fs_write@.last().path@ == t
            &&& forall|i: int|
                0 <= i < was.fs_write@.len() ==> (#[trigger] is.fs_write@[i]).path@
                    == was.fs_write@[i].path@
        }),
{
    let was = *old(l);
    let is = *final(l);
    assert(allows(was.net_allow@).len() == was.net_allow@.len());
    assert(allows(is.net_allow@).len() == is.net_allow@.len());
    assert(entries(was.fs_write@).len() == was.fs_write@.len());
    assert(entries(is.fs_write@).len() == is.fs_write@.len());
    assert forall|i: int| 0 <= i < was.net_allow@.len() implies (#[trigger] is.net_allow@[i]).name@
        == was.net_allow@[i].name@ && is.net_allow@[i].ports@ == was.net_allow@[i].ports@ by {
        assert(allows(is.net_allow@)[i] == allows(was.net_allow@)[i]);
    }
    assert forall|i: int| 0 <= i < was.fs_write@.len() implies (#[trigger] is.fs_write@[i]).path@
        == was.fs_write@[i].path@ by {
        assert(entries(is.fs_write@)[i] == entries(was.fs_write@)[i]);
    }
    if is.net_allow@.len() > 0 {
        assert(allows(is.net_allow@).last() == (
            is.net_allow@.last().name@,
            is.net_allow@.last().ports@,
            is.net_allow@.last().protocol@,
            is.net_allow@.last().reason@,
        ));
    }
    if is.fs_write@.len() > 0 {
        assert(entries(is.fs_write@).last() == (
            is.fs_write@.last().path@,
            is.fs_write@.last().reason@,
        ));
    }
}

/// The questions come in their order: hosts are asked for only where there is network access, and
/// until a line is blank; the home directory and the time to live are asked for in any case.
pub proof fn law_hosts_are_asked_for_until_a_blank_line(
    l: &mut Leaf,
    q: Topic,
    line: &str,
    next: Topic,
)
    requires
        call_ensures(Leaf::answer, (l, q, line), next),
    ensures
        q is Base ==> next is Network,
        q is Network ==> next is FirstHost || next is Home,
        next is FirstHost <==> q is Network && (words::trim(line@) == seq!['y'] || words::trim(line@)
            == seq!['Y']),
        next is NextHost <==> (q is FirstHost || q is NextHost) && words::trim(line@).len() > 0,
        next is Home ==> q is Network || q is FirstHost || q is NextHost,
        q is Home ==> next is Ttl,
        q is Ttl || q is Done ==> next is Done,
        !(next is Base),
{
    let t = words::trim(line@);
    if questionnaire::is_yes(line@) {
        assert(t =~= seq![t[0]]);
    }
}

/// The policy and the question after the lines of a conversation.
pub open spec fn conversed(m: LeafModel, q: Topic, lines: Seq<Seq<char>>) -> (LeafModel, Topic)
    decreases lines.len(),
{
    if lines.len() == 0 {
        (m, q)
    } else {
        let (n, p) = conversed(m, q, lines.drop_last());
        (answered(n, p, lines.last()), follows(p, lines.last()))
    }
}

/// Every host that is typed is allowed: after lines to the host questions of which none is blank,
/// the names that are allowed besides are just those lines, in their order, without the space around
/// them; and a blank line ends the questions without taking any away.
pub proof fn law_every_host_that_is_typed_is_allowed(
    m: LeafModel,
    q: Topic,
    lines: Seq<Seq<char>>,
    blank: Seq<char>,
)
    requires
        q is FirstHost || q is NextHost,
        forall|i: int| 0 <= i < lines.len() ==> words::trim(#[trigger] lines[i]).len() > 0,
        words::trim(blank).len() == 0,
    ensures
        ({
            let (n, p) = conversed(m, q, lines);
            &&& p is FirstHost || p is NextHost
            &&& n == (LeafModel { net_allow: n.net_allow, ..m })
            &&& n.net_allow.len() == m.net_allow.len() + lines.len()
            &&& m.net_allow.is_prefix_of(n.net_allow)
            &&& forall|i: int|
                0 <= i < lines.len() ==> (#[trigger] n.net_allow[m.net_allow.len() + i]).0
                    == words::trim(lines[i])
            &&& conversed(m, q, lines.push(blank)) == (n, Topic::Home)
        }),
    decreases lines.len(),
{
    let (n, p) = conversed(m, q, lines);
    assert(lines.push(blank).drop_last() =~= lines);
    if lines.len() == 0 {
        assert(m.net_allow.is_prefix_of(n.net_allow));
    } else {
        let front = lines.drop_last();
        assert forall|i: int| 0 <= i < front.len() implies words::trim(#[trigger] front[i]).len()
            > 0 by {
            assert(front[i] == lines[i]);
        }
        law_every_host_that_is_typed_is_allowed(m, q, front, blank);
        let (b, o) = conversed(m, q, front);
        let k = m.net_allow.len() as int;
        assert(lines.last() == lines[lines.len() - 1]);
        assert forall|i: int| 0 <= i < lines.len() implies (#[trigger] n.net_allow[k + i]).0
            == words::trim(lines[i]) by {
            if i < front.len() {
                assert(n.net_allow[k + i] == b.net_allow[k + i]);
                assert(front[i] == lines[i]);
            }
        }
        assert(m.net_allow =~= n.net_allow.take(k)) by {
            assert(m.net_allow =~= b.net_allow.take(k));
        }
    }
}

// ---- composing from templates --------------------------------------------------

/// The lines that say that there is nothing to compose from.
pub open spec fn nothing_found(template_dirs: Seq<Seq<char>>) -> Seq<Seq<char>> {
    seq![
        "kennel-compose: no templates or fragments found in the search path"@,
        "  searched: ~/.config/kennel/templates/, /etc/kennel/templates/, /usr/lib/kennel/templates/"@,
    ] + template_dirs.map_values(|d: Seq<char>| "  searched: "@ + d) + seq![
        "  install kennel templates or use --template-dir to point at a template directory"@,
    ]
}

/// The lines that say that there is nothing to compose from.
pub fn nothing_found_lines(template_dirs: &[String]) -> (out: Vec<String>)
    ensures
        text::texts(out@) == nothing_found(text::texts(template_dirs@)),
{
    let mut out: Vec<String> = Vec::new();
    push_line(
        &mut out,
        "kennel-compose: no templates or fragments found in the search path".to_owned(),
    );
    push_line(
        &mut out,
        "  searched: ~/.config/kennel/templates/, /etc/kennel/templates/, /usr/lib/kennel/templates/".to_owned(),
    );
    let ghost base = text::texts(out@);
    let ghost want = text::texts(template_dirs@).map_values(|d: Seq<char>| "  searched: "@ + d);
    let mut i: usize = 0;
    assert(text::texts(out@) =~= base + want.take(0));
    while i < template_dirs.len()
        invariant
            i <= template_dirs@.len(),
            want == text::texts(template_dirs@).map_values(|d: Seq<char>| "  searched: "@ + d),
            text::texts(out@) == base + want.take(i as int),
        decreases template_dirs@.len() - i,
    {
        push_line(&mut out, concat2("  searched: ", template_dirs[i].as_str()));
        i = i + 1;
        assert(text::texts(out@) =~= base + want.take(i as int));
    }
    push_line(
        &mut out,
        "  install kennel templates or use --template-dir to point at a template directory".to_owned(),
    );
    proof {
        assert(want.take(want.len() as int) =~= want);
        assert(text::texts(out@) =~= nothing_found(text::texts(template_dirs@)));
    }
    out
}

/// The line of the `i`-th entry that is offered; `root` marks the root of the templates.
pub open spec fn offer(e: TemplateEntry, i: int, root: bool) -> Seq<char> {
    "  "@ + layout::right(decimal::dec((i + 1) as nat), 2) + ". "@ + layout::left(e.named(), 30)
        + " "@ + e.description@ + (if root && e.name@ == "base-confined"@ {
        " (root)"@
    } else {
        ""@
    })
}

/// The lines of the entries that are offered.
pub open spec fn offers(v: Seq<TemplateEntry>, root: bool) -> Seq<Seq<char>> {
    v.map(|i: int, e: TemplateEntry| offer(e, i, root))
}

fn push_offers(out: &mut Vec<String>, v: &[TemplateEntry], root: bool)
    ensures
        text::texts(final(out)@) == text::texts(old(out)@) + offers(v@, root),
{
    let ghost base = text::texts(out@);
    let ghost want = offers(v@, root);
    let mut i: usize = 0;
    assert(text::texts(out@) =~= base + want.take(0));
    while i < v.len()
        invariant
            i <= v@.len(),
            want == offers(v@, root),
            text::texts(out@) == base + want.take(i as int),
        decreases v@.len() - i,
    {
        let n = dec_text(i as u64 + 1);
        let n = right_text(n.as_str(), 2);
        let name = v[i].reference();
        let name = left_text(name.as_str(), 30);
        let mark = if root && same(v[i].name.as_str(), "base-confined") {
            " (root)"
        } else {
            ""
        };
        push_line(
            out,
            concat7(
                "  ",
                n.as_str(),
                ". ",
                name.as_str(),
                " ",
                v[i].description.as_str(),
                mark,
            ),
        );
        i = i + 1;
        assert(text::texts(out@) =~= base + want.take(i as int));
    }
    assert(want.take(want.len() as int) =~= want);
}

/// The lines that offer the templates to start from.
pub fn base_lines(v: &[TemplateEntry]) -> (out: Vec<String>)
    ensures
        text::texts(out@) == seq!["Available templates:"@, ""@] + offers(v@, true) + seq![""@],
{
    let mut out: Vec<String> = Vec::new();
    push_line(&mut out, "Available templates:".to_owned());
    push_line(&mut out, "".to_owned());
    assert(text::texts(out@) =~= seq!["Available templates:"@, ""@]);
    push_offers(&mut out, v, true);
    push_line(&mut out, "".to_owned());
    assert(text::texts(out@) =~= seq!["Available templates:"@, ""@] + offers(v@, true) + seq![""@]);
    out
}

/// The lines that offer the fragments.
pub fn fragment_lines(v: &[TemplateEntry]) -> (out: Vec<String>)
    ensures
        text::texts(out@) == seq![""@, "Available fragments:"@, ""@] + offers(v@, false) + seq![""@],
{
    let mut out: Vec<String> = Vec::new();
    push_line(&mut out, "".to_owned());
    push_line(&mut out, "Available fragments:".to_owned());
    push_line(&mut out, "".to_owned());
    assert(text::texts(out@) =~= seq![""@, "Available fragments:"@, ""@]);
    push_offers(&mut out, v, false);
    push_line(&mut out, "".to_owned());
    assert(text::texts(out@) =~= seq![""@, "Available fragments:"@, ""@] + offers(v@, false) + seq![
        ""@,
    ]);
    out
}

/// The number that a choice is, where it is one.
pub open spec fn chosen_number(t: Seq<char>) -> Option<nat> {
    decimal::within(decimal::number(t), usize::MAX as nat)
}

/// The template that a line chooses: the first where it is blank, the one of a number, else what it
/// says.
pub open spec fn base_choice(v: Seq<TemplateEntry>, line: Seq<char>) -> Result<Seq<char>, Seq<char>> {
    let t = words::trim(line);
    if t.len() == 0 {
        Ok(
            if v.len() > 0 {
                v[0].named()
            } else {
                "base-confined@v1"@
            },
        )
    } else {
        match chosen_number(t) {
            Some(n) => if 1 <= n <= v.len() {
                Ok(v[n - 1].named())
            } else {
                Err("kennel-compose: invalid choice "@ + decimal::dec(n))
            },
            None => Ok(t),
        }
    }
}

/// The template that a line chooses, or that the number is none.
pub fn choose_base(v: &[TemplateEntry], line: &str) -> (r: Result<String, String>)
    ensures
        match base_choice(v@, line@) {
            Ok(t) => r matches Ok(s) && s@ == t,
            Err(e) => r matches Err(m) && m@ == e,
        },
{
    let t = trimmed(line);
    if t.unicode_len() == 0 {
        return Ok(
            if v.len() > 0 {
                v[0].reference()
            } else {
                "base-confined@v1".to_owned()
            },
        );
    }
    match parse_max(t, usize::MAX as u64) {
        Some(n) => {
            let k: usize = n as usize;
            if k >= 1 && k <= v.len() {
                Ok(v[k - 1].reference())
            } else {
                let d = dec_text(n);
                Err(concat2("kennel-compose: invalid choice ", d.as_str()))
            }
        },
        None => Ok(t.to_owned()),
    }
}

/// The number of an entry chooses that entry, a blank line the first one, and a number that is none
/// is refused; any other line is the template itself.
pub proof fn law_base_is_chosen_by_number(
    v: &[TemplateEntry],
    line: &str,
    r: Result<String, String>,
    n: nat,
)
    requires
        call_ensures(choose_base, (v, line), r),
    ensures
        words::trim(line@).len() == 0 && v@.len() > 0 ==> (r matches Ok(s) && s@ == v@[0].name@
            + "@v"@ + v@[0].version@),
        words::trim(line@) == decimal::dec(n) && 1 <= n <= v@.len() ==> (r matches Ok(s) && s@
            == v@[n - 1].name@ + "@v"@ + v@[n - 1].version@),
        words::trim(line@) == decimal::dec(n) && !(1 <= n <= v@.len()) && n <= usize::MAX ==> r is Err,
        words::trim(line@).len() > 0 && (exists|i: int|
            0 <= i < words::trim(line@).len() && !text::is_dig(#[trigger] words::trim(line@)[i]) && (i
                > 0 || words::trim(line@)[i] != '+')) ==> (r matches Ok(s) && s@ == words::trim(
            line@,
        )),
{
    decimal::law_number_reads_dec(n);
    let t = words::trim(line@);
    if t == decimal::dec(n) {
        decimal::lemma_dec_digits(n);
        assert(v.len() == v@.len());
    }
    if exists|i: int|
        0 <= i < t.len() && !text::is_dig(#[trigger] t[i]) && (i > 0 || t[i] != '+') {
        let i = choose|i: int|
            0 <= i < t.len() && !text::is_dig(#[trigger] t[i]) && (i > 0 || t[i] != '+');
        let d = t.drop_first();
        if t[0] == '+' {
            if i > 0 {
                assert(d[i - 1] == t[i]);
                assert(!text::is_dig(d[i - 1]));
            }
            assert(!decimal::all_digits(d));
        } else {
            assert(!decimal::all_digits(t));
        }
        assert(decimal::number(t) is None);
    }
}

/// The fragment that a part of a line chooses, where it chooses one.
pub open spec fn fragment_choice(v: Seq<TemplateEntry>, part: Seq<char>) -> Option<Seq<char>> {
    let t = words::trim(part);
    match chosen_number(t) {
        Some(n) => if 1 <= n <= v.len() {
            Some(v[n - 1].named())
        } else {
            None
        },
        None => if t.len() > 0 {
            Some(t)
        } else {
            None
        },
    }
}

/// What is said of a part of a line that chooses no fragment, where anything is.
pub open spec fn fragment_remark(v: Seq<TemplateEntry>, part: Seq<char>) -> Option<Seq<char>> {
    match chosen_number(words::trim(part)) {
        Some(n) if !(1 <= n <= v.len()) => Some(
            "kennel-compose: ignoring invalid fragment number "@ + decimal::dec(n),
        ),
        _ => None,
    }
}

/// The fragments that parts of a line choose.
pub open spec fn fragment_choices(v: Seq<TemplateEntry>, parts: Seq<Seq<char>>) -> Seq<Seq<char>>
    decreases parts.len(),
{
    if parts.len() == 0 {
        seq![]
    } else {
        match fragment_choice(v, parts.last()) {
            Some(t) => fragment_choices(v, parts.drop_last()).push(t),
            None => fragment_choices(v, parts.drop_last()),
        }
    }
}

/// What is said of parts of a line.
pub open spec fn fragment_remarks(v: Seq<TemplateEntry>, parts: Seq<Seq<char>>) -> Seq<Seq<char>>
    decreases parts.len(),
{
    if parts.len() == 0 {
        seq![]
    } else {
        match fragment_remark(v, parts.last()) {
            Some(t) => fragment_remarks(v, parts.drop_last()).push(t),
            None => fragment_remarks(v, parts.drop_last()),
        }
    }
}

/// The parts of a line that chooses fragments: none where it is blank.
pub open spec fn parts_of(line: Seq<char>) -> Seq<Seq<char>> {
    if words::trim(line).len() == 0 {
        seq![]
    } else {
        words::pieces(words::trim(line), ',')
    }
}

/// The fragments that a line chooses, by number or by name between commas, and what is said of
/// numbers that are none.
pub fn choose_fragments(v: &[TemplateEntry], line: &str) -> (r: (Vec<String>, Vec<String>))
    ensures
        text::texts(r.0@) == fragment_choices(v@, parts_of(line@)),
        text::texts(r.1@) == fragment_remarks(v@, parts_of(line@)),
{
    let mut picked: Vec<String> = Vec::new();
    let mut said: Vec<String> = Vec::new();
    proof {
        assert(text::texts(picked@) =~= seq![]);
        assert(text::texts(said@) =~= seq![]);
    }
    let t = trimmed(line);
    if t.unicode_len() == 0 {
        return (picked, said);
    }
    let parts = split_on(t, ',');
    let ghost all = text::texts(parts@);
    let mut i: usize = 0;
    assert(all.take(0) =~= seq![]);
    while i < parts.len()
        invariant
            i <= parts@.len(),
            all == text::texts(parts@),
            text::texts(picked@) == fragment_choices(v@, all.take(i as int)),
            text::texts(said@) == fragment_remarks(v@, all.take(i as int)),
        decreases parts@.len() - i,
    {
        proof {
            assert(all.take(i + 1).drop_last() =~= all.take(i as int));
            assert(all.take(i + 1).last() == parts@[i as int]@);
        }
        let p = trimmed(parts[i].as_str());
        match parse_max(p, usize::MAX as u64) {
            Some(n) => {
                let k: usize = n as usize;
                if k >= 1 && k <= v.len() {
                    push_line(&mut picked, v[k - 1].reference());
                } else {
                    let d = dec_text(n);
                    push_line(
                        &mut said,
                        concat2("kennel-compose: ignoring invalid fragment number ", d.as_str()),
                    );
                }
            },
            None => {
                if p.unicode_len() > 0 {
                    push_line(&mut picked, p.to_owned());
                }
            },
        }
        i = i + 1;
    }
    assert(all.take(all.len() as int) =~= all);
    (picked, said)
}

/// The policy that is composed from a template and fragments, before the questions.
pub fn composed(name: &str, base: &str, fragments: &[String]) -> (l: Leaf)
    ensures
        l.model() == (LeafModel {
            name: name@,
            template_base: base@,
            includes: text::texts(fragments@),
            exec_allow: seq![],
            fs_read: seq![],
            fs_write: seq![],
            net_allow: seq![],
            ttl: None,
        }),
{
    let l = Leaf {
        name: name.to_owned(),
        template_base: base.to_owned(),
        includes: copy_all(fragments),
        exec_allow: Vec::new(),
        fs_read: Vec::new(),
        fs_write: Vec::new(),
        net_allow: Vec::new(),
        ttl: None,
    };
    proof {
        assert(entries(l.exec_allow@) =~= seq![]);
        assert(entries(l.fs_read@) =~= seq![]);
        assert(entries(l.fs_write@) =~= seq![]);
        assert(allows(l.net_allow@) =~= seq![]);
    }
    l
}

// ---- what is written -----------------------------------------------------------

/// How a policy came about.
pub open spec fn kind_of(m: LeafModel, is_script: bool) -> Seq<char> {
    if m.exec_allow.len() == 0 {
        "composed"@
    } else if is_script {
        "probed script"@
    } else {
        "probed binary"@
    }
}

/// The text that is written: a header that says how the policy came about, and the policy as TOML.
pub fn output_text(l: &Leaf, is_script: bool, toml: &str) -> (r: String)
    ensures
        r@ == "# Generated by kennel-compose ("@ + kind_of(l.model(), is_script)
            + ").\n# Review and tighten before use.\n\n"@ + toml@,
{
    let kind = if l.exec_allow.len() == 0 {
        "composed"
    } else if is_script {
        "probed script"
    } else {
        "probed binary"
    };
    assert(entries(l.exec_allow@).len() == l.exec_allow@.len());
    let head = concat3(
        "# Generated by kennel-compose (",
        kind,
        ").\n# Review and tighten before use.\n\n",
    );
    concat2(head.as_str(), toml)
}

// ---- what is chosen and offered ----------------------------------------------------

proof fn lemma_choices(v: Seq<TemplateEntry>, parts: Seq<Seq<char>>, i: int, t: Seq<char>)
    requires
        0 <= i < parts.len(),
        fragment_choice(v, parts[i]) == Some(t),
    ensures
        fragment_choices(v, parts).contains(t),
    decreases parts.len(),
{
    let all = fragment_choices(v, parts);
    let front = parts.drop_last();
    if i < front.len() {
        assert(front[i] == parts[i]);
        lemma_choices(v, front, i, t);
        let rest = fragment_choices(v, front);
        let k = choose|k: int| 0 <= k < rest.len() && rest[k] == t;
        assert(all[k] == t);
    } else {
        assert(all.last() == t);
    }
}

/// A fragment is chosen by its number in the list, and by its name otherwise; each that is typed
/// between commas is taken.
pub proof fn law_each_fragment_typed_is_taken(
    v: &[TemplateEntry],
    line: &str,
    r: (Vec<String>, Vec<String>),
    parts: Seq<Seq<char>>,
    i: int,
)
    requires
        call_ensures(choose_fragments, (v, line), r),
        words::trim(line@).len() > 0,
        parts == words::pieces(words::trim(line@), ','),
        0 <= i < parts.len(),
        v@.len() <= usize::MAX,
    ensures
        forall|n: nat|
            1 <= n <= v@.len() && words::trim(parts[i]) == #[trigger] decimal::dec(n) ==> text::texts(
                r.0@,
            ).contains(v@[n - 1].name@ + "@v"@ + v@[n - 1].version@),
        words::trim(parts[i]).len() > 0 && decimal::number(words::trim(parts[i])) is None
            ==> text::texts(r.0@).contains(words::trim(parts[i])),
{
    assert forall|n: nat|
        1 <= n <= v@.len() && words::trim(parts[i]) == #[trigger] decimal::dec(n) implies text::texts(
        r.0@,
    ).contains(v@[n - 1].name@ + "@v"@ + v@[n - 1].version@) by {
        decimal::law_number_reads_dec(n);
        lemma_choices(v@, parts, i, v@[n - 1].named());
    }
    if words::trim(parts[i]).len() > 0 && decimal::number(words::trim(parts[i])) is None {
        lemma_choices(v@, parts, i, words::trim(parts[i]));
    }
}

/// A blank line chooses no fragment.
pub proof fn law_blank_line_chooses_nothing(
    v: &[TemplateEntry],
    line: &str,
    r: (Vec<String>, Vec<String>),
)
    requires
        call_ensures(choose_fragments, (v, line), r),
        words::trim(line@).len() == 0,
    ensures
        r.0@.len() == 0,
        r.1@.len() == 0,
{
    assert(text::texts(r.0@).len() == r.0@.len());
    assert(text::texts(r.1@).len() == r.1@.len());
}

/// A composed policy builds on what was chosen and grants nothing yet.
pub proof fn law_composed_policy_grants_nothing(name: &str, base: &str, fragments: &[String], l: Leaf)
    requires
        call_ensures(composed, (name, base, fragments), l),
    ensures
        l.model().name == name@,
        l.model().template_base == base@,
        l.model().includes == text::texts(fragments@),
        l.model().exec_allow.len() == 0 && l.model().fs_read.len() == 0 && l.model().fs_write.len() == 0
            && l.model().net_allow.len() == 0 && l.model().ttl is None,
{
}

/// What is written is the policy behind a heading of comments.
pub proof fn law_output_ends_with_the_policy(l: &Leaf, is_script: bool, toml: &str, r: String)
    requires
        call_ensures(output_text, (l, is_script, toml), r),
    ensures
        toml@.is_suffix_of(r@),
        "# "@.is_prefix_of(r@),
{
    reveal_strlit("# ");
    reveal_strlit("# Generated by kennel-compose (");
    let n = r@.len() as int;
    assert(r@.subrange(n - toml@.len(), n) =~= toml@);
    assert(r@.subrange(0, 2) =~= "# "@);
}

proof fn lemma_offer(e: TemplateEntry, i: int, root: bool)
    ensures
        text::holds(offer(e, i, root), e.named()),
        text::holds(offer(e, i, root), e.description@),
{
    let a = "  "@ + layout::right(decimal::dec((i + 1) as nat), 2) + ". "@;
    let n = layout::left(e.named(), 30);
    let z = if root && e.name@ == "base-confined"@ {
        " (root)"@
    } else {
        ""@
    };
    assert(offer(e, i, root) == a + n + " "@ + e.description@ + z);
    text::lemma_held_at_an_end(e.named(), layout::spaces(30 - e.named().len()));
    text::lemma_held_in_either(a, n, e.named());
    text::lemma_held_in_either(a + n, " "@, e.named());
    text::lemma_held_in_either(a + n + " "@, e.description@, e.named());
    text::lemma_held_in_either(a + n + " "@ + e.description@, z, e.named());
    text::lemma_held_at_an_end(e.description@, a + n + " "@);
    text::lemma_held_in_either(a + n + " "@ + e.description@, z, e.description@);
}

/// Everything that can be chosen is offered, in the order of its number.
pub proof fn law_every_choice_is_offered(
    v: &[TemplateEntry],
    bases: Vec<String>,
    fragments: Vec<String>,
    i: int,
)
    requires
        call_ensures(base_lines, (v,), bases),
        call_ensures(fragment_lines, (v,), fragments),
        0 <= i < v@.len(),
    ensures
        text::holds(text::texts(bases@)[2 + i], v@[i].name@ + "@v"@ + v@[i].version@),
        text::holds(text::texts(fragments@)[3 + i], v@[i].name@ + "@v"@ + v@[i].version@),
        text::holds(text::texts(bases@)[2 + i], v@[i].description@),
{
    lemma_offer(v@[i], i, true);
    lemma_offer(v@[i], i, false);
    assert(text::texts(bases@)[2 + i] == offers(v@, true)[i]);
    assert(text::texts(fragments@)[3 + i] == offers(v@, false)[i]);
}

} // verus!
