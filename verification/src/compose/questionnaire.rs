//! The questions that the composer asks, and what the answers make.

use crate::layout::push_line;
use crate::text;
use crate::words;
use crate::words::trimmed;
use vstd::prelude::*;
use vstd::string::*;

verus! {

/// A destination that is allowed.
#[derive(Debug)]
pub struct NetEntry {
    /// The host.
    pub name: String,
    /// The ports.
    pub ports: Vec<u16>,
    /// Why.
    pub reason: String,
}

/// The answers.
#[derive(Debug)]
pub struct Answers {
    /// The kennel.
    pub name: String,
    /// The template it starts from.
    pub template_base: String,
    /// The fragments it takes in.
    pub includes: Vec<String>,
    /// The destinations that are allowed.
    pub net_allow: Vec<NetEntry>,
    /// The paths below the home directory that it may write.
    pub home_write: Vec<String>,
    /// Whether it needs the display.
    pub wayland: bool,
    /// Whether it plays audio.
    pub audio: bool,
    /// Whether it needs ssh.
    pub ssh: bool,
    /// How long it lives.
    pub ttl: String,
}

/// What the answers say.
#[verifier::ext_equal]
pub struct AnswersModel {
    /// The kennel.
    pub name: Seq<char>,
    /// The template it starts from.
    pub template_base: Seq<char>,
    /// The fragments it takes in.
    pub includes: Seq<Seq<char>>,
    /// The destinations that are allowed: host, ports and why.
    pub net_allow: Seq<(Seq<char>, Seq<u16>, Seq<char>)>,
    /// The paths below the home directory that it may write.
    pub home_write: Seq<Seq<char>>,
    /// Whether it needs the display.
    pub wayland: bool,
    /// Whether it plays audio.
    pub audio: bool,
    /// Whether it needs ssh.
    pub ssh: bool,
    /// How long it lives.
    pub ttl: Seq<char>,
}

/// Destinations: host, ports and why.
pub open spec fn destinations(v: Seq<NetEntry>) -> Seq<(Seq<char>, Seq<u16>, Seq<char>)> {
    v.map_values(|e: NetEntry| (e.name@, e.ports@, e.reason@))
}

/// The answers where everything is left out: the most restrictive ones.
pub open spec fn restrictive(name: Seq<char>) -> AnswersModel {
    AnswersModel {
        name,
        template_base: "base-confined@v1"@,
        includes: seq![],
        net_allow: seq![],
        home_write: seq![],
        wayland: false,
        audio: false,
        ssh: false,
        ttl: "30m"@,
    }
}

/// The questions, in their order.
#[derive(Debug, Clone, Copy, PartialEq, Eq, Structural)]
pub enum Question {
    /// The template to start from.
    Base,
    /// Whether there is network access.
    Network,
    /// The first host.
    FirstHost,
    /// A further host.
    NextHost,
    /// A path below the home directory that may be written.
    Home,
    /// Whether the display is needed.
    Wayland,
    /// Whether audio is played.
    Audio,
    /// Whether ssh is needed.
    Ssh,
    /// How long the kennel lives.
    Ttl,
    /// None is left.
    Done,
}

/// What is asked.
pub open spec fn asks(q: Question) -> Option<Seq<char>> {
    match q {
        Question::Base => Some("Base template [base-confined@v1]: "@),
        Question::Network => Some("Network access? (y/N): "@),
        Question::FirstHost => Some(
            "  Allowed host (e.g. api.example.com, blank to finish): "@,
        ),
        Question::NextHost => Some("  Next host (blank to finish): "@),
        Question::Home => Some(
            "Home directory write path (e.g. ~/projects/myproj/**, blank for none): "@,
        ),
        Question::Wayland => Some("Wayland display access? (y/N): "@),
        Question::Audio => Some("Audio playback access? (y/N): "@),
        Question::Ssh => Some("SSH egress? (y/N): "@),
        Question::Ttl => Some("TTL [30m]: "@),
        Question::Done => None,
    }
}

/// What is asked.
pub fn prompt(q: Question) -> (r: Option<&'static str>)
    ensures
        match asks(q) {
            Some(t) => r matches Some(s) && s@ == t,
            None => r is None,
        },
{
    match q {
        Question::Base => Some("Base template [base-confined@v1]: "),
        Question::Network => Some("Network access? (y/N): "),
        Question::FirstHost => Some("  Allowed host (e.g. api.example.com, blank to finish): "),
        Question::NextHost => Some("  Next host (blank to finish): "),
        Question::Home => Some(
            "Home directory write path (e.g. ~/projects/myproj/**, blank for none): ",
        ),
        Question::Wayland => Some("Wayland display access? (y/N): "),
        Question::Audio => Some("Audio playback access? (y/N): "),
        Question::Ssh => Some("SSH egress? (y/N): "),
        Question::Ttl => Some("TTL [30m]: "),
        Question::Done => None,
    }
}

/// Whether a line says yes: `y` in either case.
pub open spec fn is_yes(line: Seq<char>) -> bool {
    let t = words::trim(line);
    t.len() == 1 && (t[0] == 'y' || t[0] == 'Y')
}

/// Whether a line says yes.
pub fn says_yes(line: &str) -> (r: bool)
    ensures
        r == is_yes(line@),
{
    let t = trimmed(line);
    t.unicode_len() == 1 && (t.get_char(0) == 'y' || t.get_char(0) == 'Y')
}

/// Whether a line says nothing.
pub open spec fn is_blank(line: Seq<char>) -> bool {
    words::trim(line).len() == 0
}

/// The question that follows.
pub open spec fn follows(q: Question, line: Seq<char>) -> Question {
    match q {
        Question::Base => Question::Network,
        Question::Network => if is_yes(line) {
            Question::FirstHost
        } else {
            Question::Home
        },
        Question::FirstHost | Question::NextHost => if is_blank(line) {
            Question::Home
        } else {
            Question::NextHost
        },
        Question::Home => Question::Wayland,
        Question::Wayland => Question::Audio,
        Question::Audio => Question::Ssh,
        Question::Ssh => Question::Ttl,
        Question::Ttl => Question::Done,
        Question::Done => Question::Done,
    }
}

/// The answers with the answer to one question.
pub open spec fn answered(m: AnswersModel, q: Question, line: Seq<char>) -> AnswersModel {
    let t = words::trim(line);
    match q {
        Question::Base => if t.len() > 0 {
            AnswersModel { template_base: t, ..m }
        } else {
            m
        },
        Question::FirstHost | Question::NextHost => if t.len() > 0 {
            AnswersModel {
                net_allow: m.net_allow.push(
                    (t, seq![443u16], "operator-specified network destination"@),
                ),
                ..m
            }
        } else {
            m
        },
        Question::Home => if t.len() > 0 {
            AnswersModel { home_write: m.home_write.push(t), ..m }
        } else {
            m
        },
        Question::Wayland => AnswersModel { wayland: is_yes(line), ..m },
        Question::Audio => AnswersModel { audio: is_yes(line), ..m },
        Question::Ssh => AnswersModel { ssh: is_yes(line), ..m },
        Question::Ttl => if t.len() > 0 {
            AnswersModel { ttl: t, ..m }
        } else {
            m
        },
        _ => m,
    }
}

/// How many questions are left at least.
pub open spec fn left(q: Question) -> nat {
    match q {
        Question::Base => 8,
        Question::Network => 7,
        Question::FirstHost | Question::NextHost => 6,
        Question::Home => 5,
        Question::Wayland => 4,
        Question::Audio => 3,
        Question::Ssh => 2,
        Question::Ttl => 1,
        Question::Done => 0,
    }
}

/// What the answers are when `typed` is typed from the question `q` on; past its end every answer is
/// blank.
pub open spec fn interview(m: AnswersModel, q: Question, typed: Seq<Seq<char>>) -> AnswersModel
    decreases typed.len(), left(q),
{
    if q == Question::Done {
        m
    } else if typed.len() == 0 {
        interview(answered(m, q, seq![]), follows(q, seq![]), typed)
    } else {
        interview(answered(m, q, typed[0]), follows(q, typed[0]), typed.drop_first())
    }
}

impl Answers {
    /// What the answers say.
    pub open spec fn model(self) -> AnswersModel {
        AnswersModel {
            name: self.name@,
            template_base: self.template_base@,
            includes: text::texts(self.includes@),
            net_allow: destinations(self.net_allow@),
            home_write: text::texts(self.home_write@),
            wayland: self.wayland,
            audio: self.audio,
            ssh: self.ssh,
            ttl: self.ttl@,
        }
    }

    /// The most restrictive answers.
    pub fn defaults(name: &str) -> (a: Answers)
        ensures
            a.model() == restrictive(name@),
    {
        let a = Answers {
            name: name.to_owned(),
            template_base: "base-confined@v1".to_owned(),
            includes: Vec::new(),
            net_allow: Vec::new(),
            home_write: Vec::new(),
            wayland: false,
            audio: false,
            ssh: false,
            ttl: "30m".to_owned(),
        };
        assert(a.model() =~= restrictive(name@));
        a
    }

    /// Takes the answer to a question; the question that follows.
    pub fn answer(&mut self, q: Question, line: &str) -> (next: Question)
        ensures
            final(self).model() == answered(old(self).model(), q, line@),
            next == follows(q, line@),
    {
        let t = trimmed(line);
        let blank = t.unicode_len() == 0;
        match q {
            Question::Base => {
                if !blank {
                    self.template_base = t.to_owned();
                }
                Question::Network
            },
            Question::Network => if says_yes(line) {
                Question::FirstHost
            } else {
                Question::Home
            },
            Question::FirstHost | Question::NextHost => {
                if blank {
                    Question::Home
                } else {
                    let ghost before = self.net_allow@;
                    let mut ports: Vec<u16> = Vec::new();
                    ports.push(443);
                    assert(ports@ =~= seq![443u16]);
                    self.net_allow.push(
                        NetEntry {
                            name: t.to_owned(),
                            ports,
                            reason: "operator-specified network destination".to_owned(),
                        },
                    );
                    assert(destinations(self.net_allow@) =~= destinations(before).push(
                        (
                            words::trim(line@),
                            seq![443u16],
                            "operator-specified network destination"@,
                        ),
                    ));
                    Question::NextHost
                }
            },
            Question::Home => {
                if !blank {
                    push_line(&mut self.home_write, t.to_owned());
                }
                Question::Wayland
            },
            Question::Wayland => {
                self.wayland = says_yes(line);
                Question::Audio
            },
            Question::Audio => {
                self.audio = says_yes(line);
                Question::Ssh
            },
            Question::Ssh => {
                self.ssh = says_yes(line);
                Question::Ttl
            },
            Question::Ttl => {
                if !blank {
                    self.ttl = t.to_owned();
                }
                Question::Done
            },
            Question::Done => Question::Done,
        }
    }
}

/// What the answers are when `typed` is typed; past its end every answer is blank, as at the end of
/// input.
pub fn ask(name: &str, typed: &[String]) -> (a: Answers)
    ensures
        a.model() == interview(restrictive(name@), Question::Base, text::texts(typed@)),
{
    let ghost all = text::texts(typed@);
    let mut a = Answers::defaults(name);
    let mut q = Question::Base;
    let mut i: usize = 0;
    let n: usize = typed.len();
    assert(all.skip(0) =~= all);
    loop
        invariant
            i <= n,
            n == typed@.len(),
            all == text::texts(typed@),
            interview(a.model(), q, all.skip(i as int)) == interview(
                restrictive(name@),
                Question::Base,
                all,
            ),
        decreases n - i, left(q),
    {
        if let Question::Done = q {
            return a;
        }
        if i < n {
            proof {
                assert(all.skip(i as int)[0] == typed@[i as int]@);
                assert(all.skip(i as int).drop_first() =~= all.skip(i + 1));
            }
            q = a.answer(q, typed[i].as_str());
            i = i + 1;
        } else {
            proof {
                reveal_strlit("");
                assert(""@ =~= seq![]);
            }
            q = a.answer(q, "");
        }
    }
}

/// Blank answers are the defaults: who answers nothing has the most restrictive policy.
pub proof fn law_blank_answers_are_the_defaults(name: Seq<char>)
    ensures
        interview(restrictive(name), Question::Base, seq![]) == restrictive(name),
{
    let none: Seq<Seq<char>> = seq![];
    reveal_with_fuel(interview, 9);
    assert(!is_yes(seq![]));
    assert(is_blank(seq![]));
}

/// One answer changes what its question is about and nothing else: a line that is not blank is taken
/// as it was typed but for the space around it, every host with port 443, and yes is said by a lone
/// `y` in either case.
pub proof fn law_an_answer_is_taken_as_typed(a: &mut Answers, q: Question, line: &str, next: Question)
    requires
        call_ensures(Answers::answer, (a, q, line), next),
    ensures
        ({
            let t = words::trim(line@);
            let typed = t.len() > 0;
            let yes = t == seq!['y'] || t == seq!['Y'];
            let was = *old(a);
            let is = *final(a);
            let host = q is FirstHost || q is NextHost;
            &&& is.name@ == was.name@
            &&& text::texts(is.includes@) == text::texts(was.includes@)
            &&& is.template_base@ == if q is Base && typed { t } else { was.template_base@ }
            &&& is.ttl@ == if q is Ttl && typed { t } else { was.ttl@ }
            &&& is.wayland == if q is Wayland { yes } else { was.wayland }
            &&& is.audio == if q is Audio { yes } else { was.audio }
            &&& is.ssh == if q is Ssh { yes } else { was.ssh }
            &&& is.net_allow@.len() == was.net_allow@.len() + if host && typed { 1int } else { 0int }
            &&& host && typed ==> is.net_allow@.last().name@ == t && is.net_allow@.last().ports@
                == seq![443u16]
            &&& forall|i: int|
                0 <= i < was.net_allow@.len() ==> (#[trigger] is.net_allow@[i]).name@
                    == was.net_allow@[i].name@ && is.net_allow@[i].ports@ == was.net_allow@[i].ports@
            &&& text::texts(is.home_write@) == if q is Home && typed {
                text::texts(was.home_write@).push(t)
            } else {
                text::texts(was.home_write@)
            }
        }),
{
    let was = *old(a);
    let is = *final(a);
    let t = words::trim(line@);
    assert(destinations(was.net_allow@).len() == was.net_allow@.len());
    assert(destinations(is.net_allow@).len() == is.net_allow@.len());
    assert forall|i: int| 0 <= i < was.net_allow@.len() implies (#[trigger] is.net_allow@[i]).name@
        == was.net_allow@[i].name@ && is.net_allow@[i].ports@ == was.net_allow@[i].ports@ by {
        assert(destinations(is.net_allow@)[i] == destinations(was.net_allow@)[i]);
    }
    if is.net_allow@.len() > 0 {
        assert(destinations(is.net_allow@).last() == (
            is.net_allow@.last().name@,
            is.net_allow@.last().ports@,
            is.net_allow@.last().reason@,
        ));
    }
    if is_yes(line@) {
        assert(t =~= seq![t[0]]);
    }
}

/// The questions come in their order, each once, but that hosts are asked for only where there is
/// network access, and until a line is blank.
pub proof fn law_questions_come_in_order(a: &mut Answers, q: Question, line: &str, next: Question)
    requires
        call_ensures(Answers::answer, (a, q, line), next),
    ensures
        ({
            let t = words::trim(line@);
            &&& q is Base <==> next is Network
            &&& q is Network && (t == seq!['y'] || t == seq!['Y']) <==> next is FirstHost
            &&& (q is FirstHost || q is NextHost) && t.len() > 0 <==> next is NextHost
            &&& next is Home ==> q is Network || q is FirstHost || q is NextHost
            &&& q is Home <==> next is Wayland
            &&& q is Wayland <==> next is Audio
            &&& q is Audio <==> next is Ssh
            &&& q is Ssh <==> next is Ttl
            &&& q is Ttl || q is Done <==> next is Done
        }),
{
    let t = words::trim(line@);
    if is_yes(line@) {
        assert(t =~= seq![t[0]]);
    }
}

proof fn lemma_typed_hosts(m: AnswersModel, q: Question, hosts: Seq<Seq<char>>, rest: Seq<Seq<char>>)
    requires
        q is FirstHost || q is NextHost,
        forall|i: int| 0 <= i < hosts.len() ==> words::trim(#[trigger] hosts[i]).len() > 0,
    ensures
        exists|n: AnswersModel, p: Question|
            {
                &&& p is FirstHost || p is NextHost
                &&& #[trigger] interview(n, p, rest) == interview(m, q, hosts + rest)
                &&& n == (AnswersModel { net_allow: n.net_allow, ..m })
                &&& n.net_allow.len() == m.net_allow.len() + hosts.len()
                &&& forall|i: int|
                    0 <= i < m.net_allow.len() ==> #[trigger] n.net_allow[i] == m.net_allow[i]
                &&& forall|i: int|
                    0 <= i < hosts.len() ==> (#[trigger] n.net_allow[m.net_allow.len() + i]).0
                        == words::trim(hosts[i])
            },
    decreases hosts.len(),
{
    if hosts.len() == 0 {
        assert(hosts + rest =~= rest);
        assert(interview(m, q, rest) == interview(m, q, hosts + rest));
    } else {
        let all = hosts + rest;
        let more = hosts.drop_first();
        let m1 = answered(m, q, hosts[0]);
        assert(all[0] == hosts[0]);
        assert(all.drop_first() =~= more + rest);
        assert forall|i: int| 0 <= i < more.len() implies words::trim(#[trigger] more[i]).len() > 0 by {
            assert(more[i] == hosts[i + 1]);
        }
        lemma_typed_hosts(m1, Question::NextHost, more, rest);
        let (n, p) = choose|n: AnswersModel, p: Question|
            {
                &&& p is FirstHost || p is NextHost
                &&& #[trigger] interview(n, p, rest) == interview(
                    m1,
                    Question::NextHost,
                    more + rest,
                )
                &&& n == (AnswersModel { net_allow: n.net_allow, ..m1 })
                &&& n.net_allow.len() == m1.net_allow.len() + more.len()
                &&& forall|i: int|
                    0 <= i < m1.net_allow.len() ==> #[trigger] n.net_allow[i] == m1.net_allow[i]
                &&& forall|i: int|
                    0 <= i < more.len() ==> (#[trigger] n.net_allow[m1.net_allow.len() + i]).0
                        == words::trim(more[i])
            };
        assert(interview(n, p, rest) == interview(m, q, all));
        let k = m.net_allow.len() as int;
        assert forall|i: int| 0 <= i < k implies #[trigger] n.net_allow[i] == m.net_allow[i] by {
            assert(n.net_allow[i] == m1.net_allow[i]);
        }
        assert forall|i: int| 0 <= i < hosts.len() implies (#[trigger] n.net_allow[k + i]).0
            == words::trim(hosts[i]) by {
            if i == 0 {
                assert(n.net_allow[k] == m1.net_allow[k]);
            } else {
                assert(m1.net_allow.len() + (i - 1) == k + i);
                assert(n.net_allow[m1.net_allow.len() + (i - 1)].0 == words::trim(more[i - 1]));
                assert(more[i - 1] == hosts[i]);
            }
        }
    }
}

/// Whoever types a template, yes to network access, hosts, a blank line and a path gets just these
/// hosts and that path, each as it was typed, in their order.
pub proof fn law_what_is_typed_is_asked_for(
    name: &str,
    typed: &[String],
    a: Answers,
    base: Seq<char>,
    yes: Seq<char>,
    hosts: Seq<Seq<char>>,
    blank: Seq<char>,
    home: Seq<char>,
)
    requires
        call_ensures(ask, (name, typed), a),
        text::texts(typed@) == seq![base, yes] + (hosts + seq![blank, home]),
        words::trim(base).len() > 0,
        words::trim(yes) == seq!['y'],
        forall|i: int| 0 <= i < hosts.len() ==> words::trim(#[trigger] hosts[i]).len() > 0,
        words::trim(blank).len() == 0,
        words::trim(home).len() > 0,
    ensures
        a.name@ == name@,
        a.template_base@ == words::trim(base),
        a.net_allow@.len() == hosts.len(),
        forall|i: int|
            0 <= i < hosts.len() ==> (#[trigger] a.net_allow@[i]).name@ == words::trim(hosts[i]),
        text::texts(a.home_write@) == seq![words::trim(home)],
        !a.wayland && !a.audio && !a.ssh,
        a.ttl@ == "30m"@,
{
    let all = text::texts(typed@);
    let m0 = restrictive(name@);
    let m1 = answered(m0, Question::Base, base);
    let rest = seq![blank, home];
    let tail = hosts + rest;
    assert(all[0] == base);
    assert(all.drop_first() =~= seq![yes] + tail);
    assert((seq![yes] + tail)[0] == yes);
    assert((seq![yes] + tail).drop_first() =~= tail);
    assert(interview(m0, Question::Base, all) == interview(m1, Question::Network, seq![yes] + tail));
    assert(interview(m1, Question::Network, seq![yes] + tail) == interview(
        m1,
        Question::FirstHost,
        tail,
    ));
    lemma_typed_hosts(m1, Question::FirstHost, hosts, rest);
    let (n, p) = choose|n: AnswersModel, p: Question|
        {
            &&& p is FirstHost || p is NextHost
            &&& #[trigger] interview(n, p, rest) == interview(m1, Question::FirstHost, hosts + rest)
            &&& n == (AnswersModel { net_allow: n.net_allow, ..m1 })
            &&& n.net_allow.len() == m1.net_allow.len() + hosts.len()
            &&& forall|i: int|
                0 <= i < m1.net_allow.len() ==> #[trigger] n.net_allow[i] == m1.net_allow[i]
            &&& forall|i: int|
                0 <= i < hosts.len() ==> (#[trigger] n.net_allow[m1.net_allow.len() + i]).0
                    == words::trim(hosts[i])
        };
    assert(rest.drop_first() =~= seq![home]);
    assert(seq![home].drop_first() =~= seq![]);
    let m2 = answered(n, Question::Home, home);
    assert(interview(n, p, rest) == interview(n, Question::Home, seq![home]));
    assert(interview(n, Question::Home, seq![home]) == interview(m2, Question::Wayland, seq![]));
    let none: Seq<Seq<char>> = seq![];
    assert(!is_yes(seq![]));
    assert(is_blank(seq![]));
    assert(interview(m2, Question::Wayland, none) == m2) by {
        reveal_with_fuel(interview, 6);
        assert(answered(m2, Question::Wayland, seq![]) == m2);
    }
    assert(a.model() == m2);
    assert(a.model().home_write =~= seq![words::trim(home)]);
    assert(destinations(a.net_allow@).len() == a.net_allow@.len());
    assert forall|i: int| 0 <= i < hosts.len() implies (#[trigger] a.net_allow@[i]).name@
        == words::trim(hosts[i]) by {
        assert(m1.net_allow.len() + i == i);
        assert(n.net_allow[m1.net_allow.len() + i].0 == words::trim(hosts[i]));
        assert(destinations(a.net_allow@)[i].0 == a.net_allow@[i].name@);
    }
}

/// Before anything is answered nothing is asked for: no network, no path, no device.
pub proof fn law_defaults_ask_for_nothing(name: &str, a: Answers)
    requires
        call_ensures(Answers::defaults, (name,), a),
    ensures
        a.name@ == name@,
        a.net_allow@.len() == 0 && a.home_write@.len() == 0 && a.includes@.len() == 0,
        !a.wayland && !a.audio && !a.ssh,
        a.template_base@ == "base-confined@v1"@,
        a.ttl@ == "30m"@,
{
    let m = a.model();
    assert(m == restrictive(name@));
    assert(m.net_allow.len() == a.net_allow@.len());
    assert(m.home_write.len() == a.home_write@.len());
    assert(m.includes.len() == a.includes@.len());
}

/// Every question but the last has a prompt.
pub proof fn law_every_question_is_asked(q: Question, r: Option<&'static str>)
    requires
        call_ensures(prompt, (q,), r),
    ensures
        r is None <==> q is Done,
{
}

} // verus!
