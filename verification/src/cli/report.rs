//! What is shown of policies: listings, effective grants, differences and risks.
//!
//! Texts that come out of a policy are given here in the form in which they are shown: whoever
//! builds these values has made them safe for a terminal.

use crate::decimal;
use crate::decimal::dec_text;
use crate::layout;
use crate::layout::{left_text, push_line};
use crate::order;
use crate::order::ranking;
use crate::text;
use crate::text::{chars_of, concat2, concat3, concat4, concat5, concat7, same};
use crate::words;
use crate::words::join;
use vstd::prelude::*;
use vstd::string::*;

verus! {

// ---- differences ---------------------------------------------------------------

/// A threat that a grant exposes or mitigates.
#[derive(Debug)]
pub struct ThreatRef {
    /// Its id.
    pub id: String,
    /// Its title, where the catalogue has it.
    pub title: Option<String>,
    /// What remains of it; empty where nothing is noted.
    pub residual: String,
}

/// A threat on one line.
pub open spec fn threat(t: ThreatRef) -> Seq<char> {
    match t.title {
        Some(title) => t.id@ + " — "@ + title@ + if t.residual@.len() > 0 {
            " ("@ + t.residual@ + ")"@
        } else {
            seq![]
        },
        None => t.id@ + " (uncatalogued)"@,
    }
}

/// A threat on one line.
pub fn threat_oneline(t: &ThreatRef) -> (r: String)
    ensures
        r@ == threat(*t),
{
    match &t.title {
        Some(title) => {
            let head = concat3(t.id.as_str(), " — ", title.as_str());
            if t.residual.as_str().unicode_len() > 0 {
                concat2(
                    head.as_str(),
                    concat3(" (", t.residual.as_str(), ")").as_str(),
                )
            } else {
                assert(head@ + seq![] =~= head@);
                head
            }
        },
        None => concat2(t.id.as_str(), " (uncatalogued)"),
    }
}

/// A line for each threat, behind `lead`.
pub open spec fn threat_lines(lead: Seq<char>, ts: Seq<ThreatRef>) -> Seq<Seq<char>> {
    ts.map_values(|t: ThreatRef| lead + threat(t))
}

fn push_threats(out: &mut Vec<String>, lead: &str, ts: &[ThreatRef])
    ensures
        text::texts(final(out)@) == text::texts(old(out)@) + threat_lines(lead@, ts@),
{
    let ghost want = threat_lines(lead@, ts@);
    let mut i: usize = 0;
    assert(text::texts(out@) =~= text::texts(old(out)@) + want.take(0));
    while i < ts.len()
        invariant
            i <= ts@.len(),
            want == threat_lines(lead@, ts@),
            text::texts(out@) == text::texts(old(out)@) + want.take(i as int),
        decreases ts@.len() - i,
    {
        push_line(out, concat2(lead, threat_oneline(&ts[i]).as_str()));
        i = i + 1;
        assert(text::texts(out@) =~= text::texts(old(out)@) + want.take(i as int));
    }
    assert(want.take(want.len() as int) =~= want);
}

/// How a grant differs.
#[derive(Clone, Copy, Debug, PartialEq, Eq, Structural)]
pub enum ChangeKind {
    /// It is new.
    Added,
    /// It is gone.
    Removed,
    /// It is another.
    Modified,
}

/// A grant that differs.
#[derive(Debug)]
pub struct GrantChange {
    /// How it differs.
    pub kind: ChangeKind,
    /// The grant.
    pub carrier: String,
    /// Whether it reaches further now.
    pub widening: bool,
    /// More about it; may be empty.
    pub detail: String,
    /// Why it is there.
    pub reason: Option<String>,
    /// What it exposes.
    pub exposed: Vec<ThreatRef>,
    /// What it mitigates.
    pub mitigated: Vec<ThreatRef>,
    /// A caution.
    pub note: Option<String>,
}

/// The mark of a change.
pub open spec fn sign(kind: ChangeKind) -> Seq<char> {
    match kind {
        ChangeKind::Added => "+"@,
        ChangeKind::Removed => "-"@,
        ChangeKind::Modified => "~"@,
    }
}

/// The lines of a change.
pub open spec fn change_lines(c: GrantChange) -> Seq<Seq<char>> {
    seq![
        "  "@ + sign(c.kind) + " "@ + c.carrier@ + if c.widening {
            "  (widens reach)"@
        } else {
            ""@
        },
    ] + layout::line_if(c.detail@.len() > 0, "      "@ + c.detail@) + (match c.reason {
        Some(r) => seq!["      reason: "@ + r@],
        None => seq![],
    }) + threat_lines("      exposes "@, c.exposed@) + threat_lines(
        "      mitigates "@,
        c.mitigated@,
    ) + (match c.note {
        Some(n) => seq!["      ⚠ "@ + n@],
        None => seq![],
    })
}

fn push_change(out: &mut Vec<String>, c: &GrantChange)
    ensures
        text::texts(final(out)@) == text::texts(old(out)@) + change_lines(*c),
{
    let ghost start = text::texts(out@);
    let mark = match c.kind {
        ChangeKind::Added => "+",
        ChangeKind::Removed => "-",
        ChangeKind::Modified => "~",
    };
    push_line(
        out,
        concat5(
            "  ",
            mark,
            " ",
            c.carrier.as_str(),
            if c.widening {
                "  (widens reach)"
            } else {
                ""
            },
        ),
    );
    let ghost one = text::texts(out@);
    if c.detail.as_str().unicode_len() > 0 {
        push_line(out, concat2("      ", c.detail.as_str()));
    }
    let ghost two = text::texts(out@);
    if let Some(r) = &c.reason {
        push_line(out, concat2("      reason: ", r.as_str()));
    }
    let ghost three = text::texts(out@);
    push_threats(out, "      exposes ", c.exposed.as_slice());
    push_threats(out, "      mitigates ", c.mitigated.as_slice());
    let ghost four = text::texts(out@);
    if let Some(n) = &c.note {
        push_line(out, concat2("      ⚠ ", n.as_str()));
    }
    assert(text::texts(out@) =~= start + change_lines(*c));
}

/// The lines of changes.
pub open spec fn all_changes(cs: Seq<GrantChange>) -> Seq<Seq<char>>
    decreases cs.len(),
{
    if cs.len() == 0 {
        seq![]
    } else {
        all_changes(cs.drop_last()) + change_lines(cs.last())
    }
}

/// The difference of two policies.
#[derive(Debug)]
pub struct PolicyDiff {
    /// The version of the threat catalogue.
    pub catalogue_version: String,
    /// The grants that differ.
    pub changes: Vec<GrantChange>,
    /// Threats that are exposed now.
    pub newly_exposed: Vec<ThreatRef>,
    /// Threats that are exposed no longer.
    pub no_longer_exposed: Vec<ThreatRef>,
    /// Threats that are mitigated now.
    pub newly_mitigated: Vec<ThreatRef>,
    /// Threats that are mitigated no longer.
    pub no_longer_mitigated: Vec<ThreatRef>,
}

impl PolicyDiff {
    /// Whether the threat posture is the same.
    pub open spec fn same_posture(self) -> bool {
        self.newly_exposed@.len() == 0 && self.no_longer_exposed@.len() == 0
            && self.newly_mitigated@.len() == 0 && self.no_longer_mitigated@.len() == 0
    }
}

/// The lines about the grants that differ.
pub open spec fn changes_text(cs: Seq<GrantChange>) -> Seq<Seq<char>> {
    if cs.len() == 0 {
        seq!["\nNo capability changes."@]
    } else {
        seq!["\nGrant changes ("@ + decimal::dec(cs.len()) + "):"@] + all_changes(cs)
    }
}

/// The lines about the threat posture.
pub open spec fn posture_text(d: PolicyDiff) -> Seq<Seq<char>> {
    if d.same_posture() {
        seq!["\nThreat posture: unchanged."@]
    } else {
        seq!["\nThreat posture delta:"@] + threat_lines("  ⚠ now exposes "@, d.newly_exposed@)
            + threat_lines("  ✓ no longer exposes "@, d.no_longer_exposed@) + threat_lines(
            "  ✓ now mitigates "@,
            d.newly_mitigated@,
        ) + threat_lines("  ⚠ no longer mitigates "@, d.no_longer_mitigated@)
    }
}

/// What is shown of a difference.
pub open spec fn diff_text(old: Seq<char>, new: Seq<char>, d: PolicyDiff) -> Seq<Seq<char>> {
    seq![
        "diff "@ + old + " → "@ + new + "  (threat catalogue v"@ + d.catalogue_version@ + ")"@,
    ] + changes_text(d.changes@) + posture_text(d) + seq![
        "\nFull threat definitions and residuals: docs/reference/THREATS.md"@,
    ]
}

fn push_changes(out: &mut Vec<String>, cs: &[GrantChange])
    ensures
        text::texts(final(out)@) == text::texts(old(out)@) + changes_text(cs@),
{
    let ghost start = text::texts(out@);
    if cs.len() == 0 {
        push_line(out, "\nNo capability changes.".to_owned());
        assert(text::texts(out@) =~= start + changes_text(cs@));
        return;
    }
    let n = dec_text(cs.len() as u64);
    push_line(out, concat3("\nGrant changes (", n.as_str(), "):"));
    let ghost base = text::texts(out@);
    let mut i: usize = 0;
    assert(cs@.take(0) =~= seq![]);
    assert(text::texts(out@) =~= base + all_changes(cs@.take(0)));
    while i < cs.len()
        invariant
            i <= cs@.len(),
            text::texts(out@) == base + all_changes(cs@.take(i as int)),
        decreases cs@.len() - i,
    {
        proof {
            assert(cs@.take(i + 1).drop_last() =~= cs@.take(i as int));
            assert(cs@.take(i + 1).last() == cs@[i as int]);
        }
        push_change(out, &cs[i]);
        i = i + 1;
        assert(text::texts(out@) =~= base + all_changes(cs@.take(i as int)));
    }
    assert(cs@.take(cs@.len() as int) =~= cs@);
    assert(text::texts(out@) =~= start + changes_text(cs@));
}

fn push_posture(out: &mut Vec<String>, d: &PolicyDiff)
    ensures
        text::texts(final(out)@) == text::texts(old(out)@) + posture_text(*d),
{
    let ghost start = text::texts(out@);
    if d.newly_exposed.len() == 0 && d.no_longer_exposed.len() == 0 && d.newly_mitigated.len() == 0
        && d.no_longer_mitigated.len() == 0 {
        push_line(out, "\nThreat posture: unchanged.".to_owned());
        assert(text::texts(out@) =~= start + posture_text(*d));
        return;
    }
    push_line(out, "\nThreat posture delta:".to_owned());
    assert(text::texts(out@) =~= start + seq!["\nThreat posture delta:"@]);
    push_threats(out, "  ⚠ now exposes ", d.newly_exposed.as_slice());
    push_threats(out, "  ✓ no longer exposes ", d.no_longer_exposed.as_slice());
    push_threats(out, "  ✓ now mitigates ", d.newly_mitigated.as_slice());
    push_threats(out, "  ⚠ no longer mitigates ", d.no_longer_mitigated.as_slice());
    assert(text::texts(out@) =~= start + posture_text(*d));
}

/// What is shown of a difference, line by line.
pub fn print_diff_human(old_label: &str, new_label: &str, d: &PolicyDiff) -> (out: Vec<String>)
    ensures
        text::texts(out@) == diff_text(old_label@, new_label@, *d),
{
    let mut out: Vec<String> = Vec::new();
    let a = concat4("diff ", old_label, " → ", new_label);
    push_line(
        &mut out,
        concat4(a.as_str(), "  (threat catalogue v", d.catalogue_version.as_str(), ")"),
    );
    assert(text::texts(out@) =~= seq![
        "diff "@ + old_label@ + " → "@ + new_label@ + "  (threat catalogue v"@
            + d.catalogue_version@ + ")"@,
    ]);
    push_changes(&mut out, d.changes.as_slice());
    push_posture(&mut out, d);
    let ghost before = text::texts(out@);
    push_line(
        &mut out,
        "\nFull threat definitions and residuals: docs/reference/THREATS.md".to_owned(),
    );
    assert(text::texts(out@) =~= before + seq![
        "\nFull threat definitions and residuals: docs/reference/THREATS.md"@,
    ]);
    out
}

// ---- risks ---------------------------------------------------------------------

/// A threat that a policy exposes or mitigates, and why.
#[derive(Debug)]
pub struct Finding {
    /// The threat's id.
    pub threat_id: String,
    /// Its title, where the catalogue has it.
    pub title: Option<String>,
    /// The grant.
    pub carrier: String,
    /// Why the grant is there.
    pub reason: Option<String>,
    /// What remains of the threat; may be empty.
    pub residual: String,
    /// Whether the link was derived.
    pub derived: bool,
}

/// The risks of a policy.
#[derive(Debug)]
pub struct RiskReport {
    /// The version of the threat catalogue.
    pub catalogue_version: String,
    /// The version that the policy was written for.
    pub policy_catalogue_version: Option<String>,
    /// What the policy exposes.
    pub exposures: Vec<Finding>,
    /// What the policy mitigates.
    pub mitigations: Vec<Finding>,
    /// Tags that the catalogue does not know, with their grants.
    pub unknown_tags: Vec<(String, String)>,
}

/// The lines of a finding.
pub open spec fn finding_lines(f: Finding) -> Seq<Seq<char>> {
    seq![
        "  "@ + layout::left(f.threat_id@, 6) + " "@ + (match f.title {
            Some(t) => t@,
            None => "(uncatalogued)"@,
        }) + if f.derived {
            "  (derived)"@
        } else {
            ""@
        },
        "         via "@ + f.carrier@,
    ] + (match f.reason {
        Some(r) => seq!["         reason: "@ + r@],
        None => seq![],
    }) + layout::line_if(f.residual@.len() > 0, "         residual: "@ + f.residual@)
}

/// The lines of findings.
pub open spec fn all_findings(fs: Seq<Finding>) -> Seq<Seq<char>>
    decreases fs.len(),
{
    if fs.len() == 0 {
        seq![]
    } else {
        all_findings(fs.drop_last()) + finding_lines(fs.last())
    }
}

/// The findings under a heading.
pub open spec fn section(heading: Seq<char>, fs: Seq<Finding>) -> Seq<Seq<char>> {
    seq!["\n"@ + heading + " ("@ + decimal::dec(fs.len()) + "):"@] + all_findings(fs)
        + layout::line_if(fs.len() == 0, "  (none)"@)
}

fn push_finding(out: &mut Vec<String>, f: &Finding)
    ensures
        text::texts(final(out)@) == text::texts(old(out)@) + finding_lines(*f),
{
    let ghost start = text::texts(out@);
    let id = left_text(f.threat_id.as_str(), 6);
    let title = match &f.title {
        Some(t) => t.as_str(),
        None => "(uncatalogued)",
    };
    push_line(
        out,
        concat5(
            "  ",
            id.as_str(),
            " ",
            title,
            if f.derived {
                "  (derived)"
            } else {
                ""
            },
        ),
    );
    push_line(out, concat2("         via ", f.carrier.as_str()));
    if let Some(r) = &f.reason {
        push_line(out, concat2("         reason: ", r.as_str()));
    }
    if f.residual.as_str().unicode_len() > 0 {
        push_line(out, concat2("         residual: ", f.residual.as_str()));
    }
    assert(text::texts(out@) =~= start + finding_lines(*f));
}

fn push_section(out: &mut Vec<String>, heading: &str, fs: &[Finding])
    ensures
        text::texts(final(out)@) == text::texts(old(out)@) + section(heading@, fs@),
{
    let ghost start = text::texts(out@);
    let n = dec_text(fs.len() as u64);
    push_line(out, concat5("\n", heading, " (", n.as_str(), "):"));
    let ghost base = text::texts(out@);
    let mut i: usize = 0;
    assert(fs@.take(0) =~= seq![]);
    assert(text::texts(out@) =~= base + all_findings(fs@.take(0)));
    while i < fs.len()
        invariant
            i <= fs@.len(),
            text::texts(out@) == base + all_findings(fs@.take(i as int)),
        decreases fs@.len() - i,
    {
        proof {
            assert(fs@.take(i + 1).drop_last() =~= fs@.take(i as int));
            assert(fs@.take(i + 1).last() == fs@[i as int]);
        }
        push_finding(out, &fs[i]);
        i = i + 1;
        assert(text::texts(out@) =~= base + all_findings(fs@.take(i as int)));
    }
    assert(fs@.take(fs@.len() as int) =~= fs@);
    if fs.len() == 0 {
        push_line(out, "  (none)".to_owned());
    }
    assert(text::texts(out@) =~= start + section(heading@, fs@));
}

/// The lines of tags that the catalogue does not know.
pub open spec fn tag_lines(tags: Seq<(String, String)>) -> Seq<Seq<char>> {
    tags.map_values(|t: (String, String)| "  "@ + t.0@ + "  via "@ + t.1@)
}

/// What is shown of risks.
pub open spec fn risks_text(name: Seq<char>, r: RiskReport) -> Seq<Seq<char>> {
    let v = r.catalogue_version@;
    seq!["Risk overview for `"@ + name + "`  (threat catalogue v"@ + v + ")"@] + (
    match r.policy_catalogue_version {
        Some(pv) => layout::line_if(
            pv@ != v,
            "  note: policy authored against threat catalogue v"@ + pv@ + " (now v"@ + v + ")"@,
        ),
        None => seq![],
    }) + section("EXPOSES"@, r.exposures@) + section("MITIGATES"@, r.mitigations@) + (
    if r.unknown_tags@.len() == 0 {
        seq![]
    } else {
        seq![
            "\n⚠ "@ + decimal::dec(r.unknown_tags@.len()) + " threat tag(s) not in catalogue v"@ + v
                + " (typo?):"@,
        ] + tag_lines(r.unknown_tags@)
    }) + seq!["\nFull threat definitions and residuals: docs/reference/THREATS.md"@]
}

/// What is shown of risks, line by line.
pub fn print_risks_human(name: &str, report: &RiskReport) -> (out: Vec<String>)
    ensures
        text::texts(out@) == risks_text(name@, *report),
{
    let mut out: Vec<String> = Vec::new();
    let v = report.catalogue_version.as_str();
    push_line(
        &mut out,
        concat5("Risk overview for `", name, "`  (threat catalogue v", v, ")"),
    );
    if let Some(pv) = &report.policy_catalogue_version {
        if !same(pv.as_str(), v) {
            push_line(
                &mut out,
                concat5(
                    "  note: policy authored against threat catalogue v",
                    pv.as_str(),
                    " (now v",
                    v,
                    ")",
                ),
            );
        }
    }
    push_section(&mut out, "EXPOSES", report.exposures.as_slice());
    push_section(&mut out, "MITIGATES", report.mitigations.as_slice());
    let tags = report.unknown_tags.as_slice();
    let ghost before = text::texts(out@);
    if tags.len() > 0 {
        let n = dec_text(tags.len() as u64);
        push_line(
            &mut out,
            concat5("\n⚠ ", n.as_str(), " threat tag(s) not in catalogue v", v, " (typo?):"),
        );
        let ghost base = text::texts(out@);
        let ghost want = tag_lines(tags@);
        let mut i: usize = 0;
        assert(text::texts(out@) =~= base + want.take(0));
        while i < tags.len()
            invariant
                i <= tags@.len(),
                want == tag_lines(tags@),
                text::texts(out@) == base + want.take(i as int),
            decreases tags@.len() - i,
        {
            push_line(
                &mut out,
                concat4("  ", tags[i].0.as_str(), "  via ", tags[i].1.as_str()),
            );
            i = i + 1;
            assert(text::texts(out@) =~= base + want.take(i as int));
        }
        assert(want.take(want.len() as int) =~= want);
    }
    push_line(
        &mut out,
        "\nFull threat definitions and residuals: docs/reference/THREATS.md".to_owned(),
    );
    assert(text::texts(out@) =~= risks_text(name@, *report));
    out
}

/// `s` with a backslash before every backslash and every double quote.
pub open spec fn guarded(s: Seq<char>) -> Seq<char>
    decreases s.len(),
{
    if s.len() == 0 {
        seq![]
    } else {
        let c = s.last();
        guarded(s.drop_last()) + if c == '\\' || c == '"' {
            seq!['\\', c]
        } else {
            seq![c]
        }
    }
}

/// `s` with a backslash before every backslash and every double quote.
pub fn guard(s: &str) -> (r: String)
    ensures
        r@ == guarded(s@),
{
    let cs = chars_of(s);
    let mut r = String::new();
    let mut i: usize = 0;
    assert(cs@.take(0) =~= seq![]);
    while i < cs.len()
        invariant
            i <= cs@.len(),
            cs@ == s@,
            r@ == guarded(cs@.take(i as int)),
        decreases cs@.len() - i,
    {
        proof {
            assert(cs@.take(i + 1).drop_last() =~= cs@.take(i as int));
            assert(cs@.take(i + 1).last() == cs@[i as int]);
        }
        let ghost before = r@;
        if cs[i] == '\\' || cs[i] == '"' {
            r.push('\\');
            r.push(cs[i]);
            assert(r@ =~= before + seq!['\\', cs@[i as int]]);
        } else {
            r.push(cs[i]);
            assert(r@ =~= before + seq![cs@[i as int]]);
        }
        i = i + 1;
    }
    assert(cs@.take(cs@.len() as int) =~= cs@);
    r
}

/// Reads a guarded text up to the quote that closes it: the text, and what follows.
pub open spec fn read_guarded(t: Seq<char>) -> Option<(Seq<char>, Seq<char>)>
    decreases t.len(),
{
    if t.len() == 0 {
        None
    } else if t[0] == '"' {
        Some((seq![], t.skip(1)))
    } else if t[0] != '\\' {
        match read_guarded(t.skip(1)) {
            Some(r) => Some((seq![t[0]] + r.0, r.1)),
            None => None,
        }
    } else if t.len() >= 2 {
        match read_guarded(t.skip(2)) {
            Some(r) => Some((seq![t[1]] + r.0, r.1)),
            None => None,
        }
    } else {
        None
    }
}

proof fn lemma_guarded_front(s: Seq<char>)
    requires
        s.len() > 0,
    ensures
        guarded(s) == (if s[0] == '\\' || s[0] == '"' {
            seq!['\\', s[0]]
        } else {
            seq![s[0]]
        }) + guarded(s.drop_first()),
    decreases s.len(),
{
    let head = if s[0] == '\\' || s[0] == '"' {
        seq!['\\', s[0]]
    } else {
        seq![s[0]]
    };
    if s.len() == 1 {
        assert(s.drop_last() =~= seq![]);
        assert(s.drop_first() =~= seq![]);
    } else {
        lemma_guarded_front(s.drop_last());
        assert(s.drop_last().drop_first() =~= s.drop_first().drop_last());
        assert(s.drop_first().last() == s.last());
    }
    assert(guarded(s) =~= head + guarded(s.drop_first()));
}

/// A value between quotes is read back as it was, whatever it holds and whatever follows: no quote in
/// it closes it early.
pub proof fn law_guarded_reads_back(s: Seq<char>, rest: Seq<char>)
    ensures
        read_guarded(guarded(s) + seq!['"'] + rest) == Some((s, rest)),
    decreases s.len(),
{
    let t = guarded(s) + seq!['"'] + rest;
    if s.len() == 0 {
        assert(t.skip(1) =~= rest);
        assert(s =~= seq![]);
    } else {
        lemma_guarded_front(s);
        law_guarded_reads_back(s.drop_first(), rest);
        let more = guarded(s.drop_first()) + seq!['"'] + rest;
        assert(seq![s[0]] + s.drop_first() =~= s);
        if s[0] == '\\' || s[0] == '"' {
            assert(t =~= seq!['\\', s[0]] + more);
            assert(t.skip(2) =~= more);
        } else {
            assert(t =~= seq![s[0]] + more);
            assert(t.skip(1) =~= more);
        }
    }
}

/// A finding as JSON.
pub open spec fn finding_json(f: Finding) -> Seq<char> {
    "{\"id\":\""@ + guarded(f.threat_id@) + "\",\"title\":\""@ + guarded(
        match f.title {
            Some(t) => t@,
            None => ""@,
        },
    ) + "\",\"carrier\":\""@ + guarded(f.carrier@) + "\",\"reason\":"@ + (match f.reason {
        Some(r) => "\""@ + guarded(r@) + "\""@,
        None => "null"@,
    }) + ",\"residual\":\""@ + guarded(f.residual@) + "\",\"derived\":"@ + (if f.derived {
        "true"@
    } else {
        "false"@
    }) + "}"@
}

fn finding_object(f: &Finding) -> (r: String)
    ensures
        r@ == finding_json(*f),
{
    let id = guard(f.threat_id.as_str());
    let title = guard(
        match &f.title {
            Some(t) => t.as_str(),
            None => "",
        },
    );
    let carrier = guard(f.carrier.as_str());
    let reason = match &f.reason {
        Some(r) => concat3("\"", guard(r.as_str()).as_str(), "\""),
        None => "null".to_owned(),
    };
    let residual = guard(f.residual.as_str());
    let a = concat7(
        "{\"id\":\"",
        id.as_str(),
        "\",\"title\":\"",
        title.as_str(),
        "\",\"carrier\":\"",
        carrier.as_str(),
        "\",\"reason\":",
    );
    let b = concat5(a.as_str(), reason.as_str(), ",\"residual\":\"", residual.as_str(), "\",\"derived\":");
    concat3(
        b.as_str(),
        if f.derived {
            "true"
        } else {
            "false"
        },
        "}",
    )
}

/// Findings as JSON, with commas between.
pub open spec fn findings_json(fs: Seq<Finding>) -> Seq<char> {
    words::joined(fs.map_values(|f: Finding| finding_json(f)), ","@)
}

fn finding_array(fs: &[Finding]) -> (r: String)
    ensures
        r@ == findings_json(fs@),
{
    let ghost want = fs@.map_values(|f: Finding| finding_json(f));
    let mut all: Vec<String> = Vec::new();
    let mut i: usize = 0;
    assert(text::texts(all@) =~= want.take(0));
    while i < fs.len()
        invariant
            i <= fs@.len(),
            want == fs@.map_values(|f: Finding| finding_json(f)),
            text::texts(all@) == want.take(i as int),
        decreases fs@.len() - i,
    {
        push_line(&mut all, finding_object(&fs[i]));
        i = i + 1;
        assert(text::texts(all@) =~= want.take(i as int));
    }
    assert(want.take(want.len() as int) =~= want);
    join(all.as_slice(), ",")
}

/// Tags that the catalogue does not know as JSON, with commas between.
pub open spec fn tags_json(tags: Seq<(String, String)>) -> Seq<char> {
    words::joined(
        tags.map_values(
            |t: (String, String)|
                "{\"tag\":\""@ + guarded(t.0@) + "\",\"carrier\":\""@ + guarded(t.1@) + "\"}"@,
        ),
        ","@,
    )
}

fn tag_array(tags: &[(String, String)]) -> (r: String)
    ensures
        r@ == tags_json(tags@),
{
    let ghost f = |t: (String, String)|
        "{\"tag\":\""@ + guarded(t.0@) + "\",\"carrier\":\""@ + guarded(t.1@) + "\"}"@;
    let ghost want = tags@.map_values(f);
    let mut all: Vec<String> = Vec::new();
    let mut i: usize = 0;
    assert(text::texts(all@) =~= want.take(0));
    while i < tags.len()
        invariant
            i <= tags@.len(),
            want == tags@.map_values(
                |t: (String, String)|
                    "{\"tag\":\""@ + guarded(t.0@) + "\",\"carrier\":\""@ + guarded(t.1@) + "\"}"@,
            ),
            text::texts(all@) == want.take(i as int),
        decreases tags@.len() - i,
    {
        let a = guard(tags[i].0.as_str());
        let b = guard(tags[i].1.as_str());
        push_line(
            &mut all,
            concat5("{\"tag\":\"", a.as_str(), "\",\"carrier\":\"", b.as_str(), "\"}"),
        );
        i = i + 1;
        assert(text::texts(all@) =~= want.take(i as int));
    }
    assert(want.take(want.len() as int) =~= want);
    join(all.as_slice(), ",")
}

/// The risks of a policy as JSON.
pub fn print_risks_json(name: &str, report: &RiskReport) -> (r: String)
    ensures
        r@ == "{\"policy\":\""@ + guarded(name@) + "\",\"catalogue_version\":\""@ + guarded(
            report.catalogue_version@,
        ) + "\",\"exposures\":["@ + findings_json(report.exposures@) + "],\"mitigations\":["@
            + findings_json(report.mitigations@) + "],\"unknown_tags\":["@ + tags_json(
            report.unknown_tags@,
        ) + "]}"@,
{
    let n = guard(name);
    let v = guard(report.catalogue_version.as_str());
    let e = finding_array(report.exposures.as_slice());
    let m = finding_array(report.mitigations.as_slice());
    let t = tag_array(report.unknown_tags.as_slice());
    let a = concat7(
        "{\"policy\":\"",
        n.as_str(),
        "\",\"catalogue_version\":\"",
        v.as_str(),
        "\",\"exposures\":[",
        e.as_str(),
        "],\"mitigations\":[",
    );
    concat5(a.as_str(), m.as_str(), "],\"unknown_tags\":[", t.as_str(), "]}")
}

// ---- effective policies --------------------------------------------------------

/// How a kennel reaches the network.
#[derive(Clone, Copy, Debug, PartialEq, Eq, Structural)]
pub enum NetMode {
    /// Not at all.
    Closed,
    /// Through the proxy, denied unless allowed.
    Constrained,
    /// Through the proxy, allowed unless denied.
    Unconstrained,
    /// Directly, from the host's network.
    Host,
}

/// A policy's workload.
#[derive(Debug)]
pub struct Workload {
    /// The command.
    pub argv: Vec<String>,
    /// Whether it may not be overridden.
    pub pinned: bool,
    /// How many digests of the binary are accepted; none means any.
    pub sha256: usize,
}

/// What of a settled policy is shown; the counts are of rules.
#[derive(Debug)]
pub struct EffectivePolicy {
    /// The policy's name.
    pub name: String,
    /// How it reaches the network.
    pub mode: NetMode,
    /// Addresses that the proxy allows.
    pub allow: usize,
    /// Names that the proxy allows.
    pub allow_names: usize,
    /// Denials of the policy.
    pub deny_author: usize,
    /// Denials that always hold.
    pub deny_invariant: usize,
    /// Connections that the kernel allows.
    pub bpf_connect_allow: usize,
    /// Connections that the kernel denies.
    pub bpf_connect_deny: usize,
    /// Binds that the kernel allows.
    pub bpf_bind_allow: usize,
    /// Binds that the kernel denies.
    pub bpf_bind_deny: usize,
    /// Paths that may be read.
    pub fs_read: Vec<String>,
    /// Paths that may be written.
    pub fs_write: Vec<String>,
    /// Programs that may be executed.
    pub exec_allow: usize,
    /// The workload, where the policy has one.
    pub workload: Option<Workload>,
    /// The seconds that it may run, and what happens then.
    pub ttl: Option<(u64, String)>,
}

/// A network mode in words.
pub open spec fn mode_text(mode: NetMode) -> Seq<char> {
    match mode {
        NetMode::Closed => "none (own empty netns, no network)"@,
        NetMode::Constrained => "constrained (own netns, egress proxy, default-deny)"@,
        NetMode::Unconstrained => "unconstrained (own netns, egress proxy, default-allow + denies)"@,
        NetMode::Host => "host (host netns, direct egress, BPF/Landlock gate; reinstates T1.6)"@,
    }
}

/// The lines about the proxy's rules: they hold only where there is a proxy.
pub open spec fn proxy_lines(p: EffectivePolicy) -> Seq<Seq<char>> {
    let any_allow = p.allow > 0 || p.allow_names > 0;
    if !any_allow && p.deny_author == 0 {
        seq![]
    } else {
        seq![
            "  [net.proxy] ("@ + (if p.mode is Constrained || p.mode is Unconstrained {
                "live"@
            } else {
                "NOT enforced — no proxy in this mode"@
            }) + "):"@,
        ] + layout::line_if(
            any_allow,
            "    allow: "@ + decimal::dec(p.allow as nat) + " cidr, "@ + decimal::dec(
                p.allow_names as nat,
            ) + " name"@,
        ) + layout::line_if(
            p.deny_author > 0,
            "    deny.policy: "@ + decimal::dec(p.deny_author as nat) + " rule(s)"@,
        )
    }
}

/// The lines about the kernel's rules: they alone decide where there is no proxy.
pub open spec fn bpf_lines(p: EffectivePolicy) -> Seq<Seq<char>> {
    let connect = p.bpf_connect_allow > 0 || p.bpf_connect_deny > 0;
    let bind = p.bpf_bind_allow > 0 || p.bpf_bind_deny > 0;
    if !connect && !bind {
        seq![]
    } else {
        seq![
            "  [net.bpf] ("@ + (if p.mode is Host {
                "the egress gate"@
            } else {
                "defence-in-depth"@
            }) + "):"@,
        ] + layout::line_if(
            connect,
            "    connect: "@ + decimal::dec(p.bpf_connect_allow as nat) + " allow, "@ + decimal::dec(
                p.bpf_connect_deny as nat,
            ) + " deny (cidr+ports)"@,
        ) + layout::line_if(
            bind,
            "    bind: "@ + decimal::dec(p.bpf_bind_allow as nat) + " allow, "@ + decimal::dec(
                p.bpf_bind_deny as nat,
            ) + " deny (cidr+ports)"@,
        )
    }
}

/// The line about the workload.
pub open spec fn workload_text(w: Workload) -> Seq<char> {
    "  workload: "@ + words::joined(text::texts(w.argv@), " "@) + (if w.pinned {
        " [pinned]"@
    } else {
        ""@
    }) + (if w.sha256 == 0 {
        ""@
    } else {
        " ["@ + decimal::dec(w.sha256 as nat) + " sha256 pin(s)]"@
    })
}

/// The lines about the network.
pub open spec fn net_lines(p: EffectivePolicy) -> Seq<Seq<char>> {
    proxy_lines(p) + layout::line_if(
        p.deny_invariant > 0,
        "  [net.proxy.deny.invariant]: "@ + decimal::dec(p.deny_invariant as nat)
            + " rule(s) (enforced in every mode)"@,
    ) + bpf_lines(p)
}

/// The lines about files and programs.
pub open spec fn grant_lines(p: EffectivePolicy) -> Seq<Seq<char>> {
    layout::line_if(
        p.fs_read@.len() > 0,
        "  fs.read: "@ + words::joined(text::texts(p.fs_read@), ", "@),
    ) + layout::line_if(
        p.fs_write@.len() > 0,
        "  fs.write: "@ + words::joined(text::texts(p.fs_write@), ", "@),
    ) + seq![
        if p.exec_allow == 0 {
            "  exec: deny-all (no exec.allow)"@
        } else {
            "  exec.allow: "@ + decimal::dec(p.exec_allow as nat) + " entry(ies)"@
        },
    ]
}

/// The lines about what runs and how long.
pub open spec fn life_lines(p: EffectivePolicy) -> Seq<Seq<char>> {
    (match p.workload {
        Some(w) => seq![workload_text(w)],
        None => seq![],
    }) + (match p.ttl {
        Some(t) => seq!["  ttl: "@ + decimal::dec(t.0 as nat) + "s ("@ + t.1@ + ")"@],
        None => seq![],
    })
}

/// What is shown of an effective policy.
pub open spec fn policy_text(p: EffectivePolicy) -> Seq<Seq<char>> {
    seq!["policy `"@ + p.name@ + "`"@, "  network: "@ + mode_text(p.mode)] + net_lines(p)
        + grant_lines(p) + life_lines(p)
}

fn push_proxy(out: &mut Vec<String>, p: &EffectivePolicy)
    ensures
        text::texts(final(out)@) == text::texts(old(out)@) + proxy_lines(*p),
{
    let ghost start = text::texts(out@);
    let any_allow = p.allow > 0 || p.allow_names > 0;
    if any_allow || p.deny_author > 0 {
        let live = match p.mode {
            NetMode::Constrained | NetMode::Unconstrained => "live",
            _ => "NOT enforced — no proxy in this mode",
        };
        push_line(out, concat3("  [net.proxy] (", live, "):"));
        if any_allow {
            let a = dec_text(p.allow as u64);
            let b = dec_text(p.allow_names as u64);
            push_line(out, concat5("    allow: ", a.as_str(), " cidr, ", b.as_str(), " name"));
        }
        if p.deny_author > 0 {
            let a = dec_text(p.deny_author as u64);
            push_line(out, concat3("    deny.policy: ", a.as_str(), " rule(s)"));
        }
    }
    assert(text::texts(out@) =~= start + proxy_lines(*p));
}

fn push_bpf(out: &mut Vec<String>, p: &EffectivePolicy)
    ensures
        text::texts(final(out)@) == text::texts(old(out)@) + bpf_lines(*p),
{
    let ghost start = text::texts(out@);
    let connect = p.bpf_connect_allow > 0 || p.bpf_connect_deny > 0;
    let bind = p.bpf_bind_allow > 0 || p.bpf_bind_deny > 0;
    if connect || bind {
        let role = match p.mode {
            NetMode::Host => "the egress gate",
            _ => "defence-in-depth",
        };
        push_line(out, concat3("  [net.bpf] (", role, "):"));
        if connect {
            let a = dec_text(p.bpf_connect_allow as u64);
            let b = dec_text(p.bpf_connect_deny as u64);
            push_line(
                out,
                concat5(
                    "    connect: ",
                    a.as_str(),
                    " allow, ",
                    b.as_str(),
                    " deny (cidr+ports)",
                ),
            );
        }
        if bind {
            let a = dec_text(p.bpf_bind_allow as u64);
            let b = dec_text(p.bpf_bind_deny as u64);
            push_line(
                out,
                concat5("    bind: ", a.as_str(), " allow, ", b.as_str(), " deny (cidr+ports)"),
            );
        }
    }
    assert(text::texts(out@) =~= start + bpf_lines(*p));
}

fn workload_line(w: &Workload) -> (r: String)
    ensures
        r@ == workload_text(*w),
{
    let argv = join(w.argv.as_slice(), " ");
    let pins = if w.sha256 == 0 {
        "".to_owned()
    } else {
        let n = dec_text(w.sha256 as u64);
        concat3(" [", n.as_str(), " sha256 pin(s)]")
    };
    concat4(
        "  workload: ",
        argv.as_str(),
        if w.pinned {
            " [pinned]"
        } else {
            ""
        },
        pins.as_str(),
    )
}

fn push_net(out: &mut Vec<String>, p: &EffectivePolicy)
    ensures
        text::texts(final(out)@) == text::texts(old(out)@) + net_lines(*p),
{
    let ghost start = text::texts(out@);
    push_proxy(out, p);
    if p.deny_invariant > 0 {
        let n = dec_text(p.deny_invariant as u64);
        push_line(
            out,
            concat3(
                "  [net.proxy.deny.invariant]: ",
                n.as_str(),
                " rule(s) (enforced in every mode)",
            ),
        );
    }
    push_bpf(out, p);
    assert(text::texts(out@) =~= start + net_lines(*p));
}

fn push_grants(out: &mut Vec<String>, p: &EffectivePolicy)
    ensures
        text::texts(final(out)@) == text::texts(old(out)@) + grant_lines(*p),
{
    let ghost start = text::texts(out@);
    if p.fs_read.len() > 0 {
        let l = join(p.fs_read.as_slice(), ", ");
        push_line(out, concat2("  fs.read: ", l.as_str()));
    }
    if p.fs_write.len() > 0 {
        let l = join(p.fs_write.as_slice(), ", ");
        push_line(out, concat2("  fs.write: ", l.as_str()));
    }
    if p.exec_allow == 0 {
        push_line(out, "  exec: deny-all (no exec.allow)".to_owned());
    } else {
        let n = dec_text(p.exec_allow as u64);
        push_line(out, concat3("  exec.allow: ", n.as_str(), " entry(ies)"));
    }
    assert(text::texts(out@) =~= start + grant_lines(*p));
}

fn push_life(out: &mut Vec<String>, p: &EffectivePolicy)
    ensures
        text::texts(final(out)@) == text::texts(old(out)@) + life_lines(*p),
{
    let ghost start = text::texts(out@);
    if let Some(w) = &p.workload {
        push_line(out, workload_line(w));
    }
    if let Some(t) = &p.ttl {
        let n = dec_text(t.0);
        push_line(out, concat5("  ttl: ", n.as_str(), "s (", t.1.as_str(), ")"));
    }
    assert(text::texts(out@) =~= start + life_lines(*p));
}

/// What is shown of an effective policy, line by line.
pub fn print_effective_policy(p: &EffectivePolicy) -> (out: Vec<String>)
    ensures
        text::texts(out@) == policy_text(*p),
{
    let mut out: Vec<String> = Vec::new();
    push_line(&mut out, concat3("policy `", p.name.as_str(), "`"));
    let mode = match p.mode {
        NetMode::Closed => "none (own empty netns, no network)",
        NetMode::Constrained => "constrained (own netns, egress proxy, default-deny)",
        NetMode::Unconstrained => "unconstrained (own netns, egress proxy, default-allow + denies)",
        NetMode::Host => "host (host netns, direct egress, BPF/Landlock gate; reinstates T1.6)",
    };
    push_line(&mut out, concat2("  network: ", mode));
    let ghost head = text::texts(out@);
    assert(head =~= seq!["policy `"@ + p.name@ + "`"@, "  network: "@ + mode_text(p.mode)]);
    push_net(&mut out, p);
    push_grants(&mut out, p);
    push_life(&mut out, p);
    out
}

/// A socket that a kennel is granted.
#[derive(Debug)]
pub struct UnixSocket {
    /// Its name.
    pub name: String,
    /// Where it is on the host.
    pub real: String,
    /// Where the kennel sees it.
    pub shim: String,
    /// The variable that points to it.
    pub env: Option<String>,
}

/// The lines of a socket, and an empty one.
pub open spec fn socket_lines(s: UnixSocket) -> Seq<Seq<char>> {
    seq!["  "@ + s.name@, "    real:  "@ + s.real@, "    shim:  "@ + s.shim@] + (match s.env {
        Some(e) => seq!["    env:   "@ + e@],
        None => seq![],
    }) + seq![""@]
}

/// The lines of sockets.
pub open spec fn all_sockets(ss: Seq<UnixSocket>) -> Seq<Seq<char>>
    decreases ss.len(),
{
    if ss.len() == 0 {
        seq![]
    } else {
        all_sockets(ss.drop_last()) + socket_lines(ss.last())
    }
}

/// What is shown of the sockets that a kennel is granted, line by line.
pub fn print_unix_grants(sockets: &[UnixSocket]) -> (out: Vec<String>)
    ensures
        text::texts(out@) == if sockets@.len() == 0 {
            seq!["no AF_UNIX grants"@]
        } else {
            seq![
                "AF_UNIX grants ("@ + decimal::dec(sockets@.len()) + " socket"@ + (if sockets@.len()
                    == 1 {
                    ""@
                } else {
                    "s"@
                }) + "):\n"@,
            ] + all_sockets(sockets@)
        },
{
    let mut out: Vec<String> = Vec::new();
    if sockets.len() == 0 {
        push_line(&mut out, "no AF_UNIX grants".to_owned());
        assert(text::texts(out@) =~= seq!["no AF_UNIX grants"@]);
        return out;
    }
    let n = dec_text(sockets.len() as u64);
    push_line(
        &mut out,
        concat5(
            "AF_UNIX grants (",
            n.as_str(),
            " socket",
            if sockets.len() == 1 {
                ""
            } else {
                "s"
            },
            "):\n",
        ),
    );
    let ghost base = text::texts(out@);
    let mut i: usize = 0;
    assert(sockets@.take(0) =~= seq![]);
    assert(text::texts(out@) =~= base + all_sockets(sockets@.take(0)));
    while i < sockets.len()
        invariant
            i <= sockets@.len(),
            text::texts(out@) == base + all_sockets(sockets@.take(i as int)),
        decreases sockets@.len() - i,
    {
        proof {
            assert(sockets@.take(i + 1).drop_last() =~= sockets@.take(i as int));
            assert(sockets@.take(i + 1).last() == sockets@[i as int]);
        }
        let s = &sockets[i];
        push_line(&mut out, concat2("  ", s.name.as_str()));
        push_line(&mut out, concat2("    real:  ", s.real.as_str()));
        push_line(&mut out, concat2("    shim:  ", s.shim.as_str()));
        if let Some(e) = &s.env {
            push_line(&mut out, concat2("    env:   ", e.as_str()));
        }
        push_line(&mut out, "".to_owned());
        i = i + 1;
        assert(text::texts(out@) =~= base + all_sockets(sockets@.take(i as int)));
    }
    assert(sockets@.take(sockets@.len() as int) =~= sockets@);
    out
}

// ---- listings ------------------------------------------------------------------

/// Who signed an object.
#[derive(Debug)]
pub struct Signer {
    /// The tier of the key, where it is known.
    pub tier: Option<String>,
    /// The key id.
    pub id: String,
}

/// An object of a directory.
#[derive(Debug)]
pub struct HouseEntry {
    /// Its name.
    pub name: String,
    /// What it is: `settled` for a settled form.
    pub kind: String,
    /// Who signed it, where it is settled and that can be read.
    pub signer: Option<Signer>,
}

/// A directory of the search path, with its objects.
#[derive(Debug)]
pub struct HouseBlock {
    /// The directory.
    pub dir: String,
    /// Its tier.
    pub tier: String,
    /// Its objects.
    pub entries: Vec<HouseEntry>,
}

/// What an entry of a directory of the search path is listed as.
#[derive(Clone, Copy, Debug, PartialEq, Eq, Structural)]
pub enum Listed {
    /// A settled form.
    Settled,
    /// Source.
    Source,
    /// Nothing: it is no object.
    Nothing,
}

/// What an entry is listed as: a directory that holds a settled form as that, one that holds only
/// source as source, and anything else not at all.
pub fn listed_as(is_dir: bool, settled: bool, source: bool) -> (r: Listed)
    ensures
        r == if is_dir && settled {
            Listed::Settled
        } else if is_dir && source {
            Listed::Source
        } else {
            Listed::Nothing
        },
{
    if !is_dir {
        Listed::Nothing
    } else if settled {
        Listed::Settled
    } else if source {
        Listed::Source
    } else {
        Listed::Nothing
    }
}

/// An object of a directory, by what it is listed as: a settled form with who signed it, source
/// with the `kind` that it was read as.
pub fn house_entry(name: &str, listed: Listed, kind: &str, signer: Option<Signer>) -> (r: Option<
    HouseEntry,
>)
    ensures
        match listed {
            Listed::Settled => r matches Some(e) && e.name@ == name@ && e.kind@ == "settled"@
                && e.signer == signer,
            Listed::Source => r matches Some(e) && e.name@ == name@ && e.kind@ == kind@ && e.signer
                is None,
            Listed::Nothing => r is None,
        },
{
    match listed {
        Listed::Settled => Some(
            HouseEntry { name: name.to_owned(), kind: "settled".to_owned(), signer },
        ),
        Listed::Source => Some(
            HouseEntry { name: name.to_owned(), kind: kind.to_owned(), signer: None },
        ),
        Listed::Nothing => None,
    }
}

/// A directory of the search path, where it has any objects.
pub fn house_block(dir: &str, tier: &str, entries: Vec<HouseEntry>) -> (r: Option<HouseBlock>)
    ensures
        if entries@.len() == 0 {
            r is None
        } else {
            r matches Some(b) && b.dir@ == dir@ && b.tier@ == tier@ && b.entries@ == entries@
        },
{
    if entries.len() == 0 {
        None
    } else {
        Some(HouseBlock { dir: dir.to_owned(), tier: tier.to_owned(), entries })
    }
}

/// Whether the directory holds an object of the name.
pub open spec fn holds_name(b: HouseBlock, name: Seq<char>) -> bool {
    exists|k: int| 0 <= k < b.entries@.len() && (#[trigger] b.entries@[k]).name@ == name
}

/// The first directory from `from` on, before `to`, that holds an object of the name.
pub open spec fn first_holding(bs: Seq<HouseBlock>, name: Seq<char>, from: int, to: int) -> Option<int>
    decreases to - from,
{
    if from >= to {
        None
    } else if holds_name(bs[from], name) {
        Some(from)
    } else {
        first_holding(bs, name, from + 1, to)
    }
}

/// What is noted of who signed an object: where the tiers of the key and of the directory differ,
/// or the key is not known.
pub open spec fn signer_note(e: HouseEntry, tier: Seq<char>) -> Seq<Seq<char>> {
    if e.kind@ != "settled"@ {
        seq![]
    } else {
        match e.signer {
            None => seq![],
            Some(s) => match s.tier {
                Some(t) => layout::line_if(t@ != tier, t@ + "-signed"@),
                None => seq!["signed by unknown key `"@ + s.id@ + "`"@],
            },
        }
    }
}

/// What is noted of an object that is hidden by one of an earlier directory, or hides one of a
/// later directory: the first directory of the search path wins.
pub open spec fn shadow_note(bs: Seq<HouseBlock>, i: int, name: Seq<char>) -> Seq<Seq<char>> {
    match first_holding(bs, name, 0, i) {
        Some(j) => seq!["shadowed by "@ + bs[j].tier@],
        None => match first_holding(bs, name, i + 1, bs.len() as int) {
            Some(j) => seq!["shadows "@ + bs[j].tier@],
            None => seq![],
        },
    }
}

/// The line of an object.
pub open spec fn entry_text(bs: Seq<HouseBlock>, i: int, e: HouseEntry) -> Seq<char> {
    let notes = signer_note(e, bs[i].tier@) + shadow_note(bs, i, e.name@);
    "  "@ + e.name@ + "  ("@ + e.kind@ + ")"@ + if notes.len() == 0 {
        ""@
    } else {
        "  ["@ + words::joined(notes, ", "@) + "]"@
    }
}

/// Whether `order` lists the objects by name.
pub open spec fn by_name(entries: Seq<HouseEntry>, order: Seq<usize>) -> bool {
    exists|keys: Seq<String>|
        {
            &&& keys.len() == entries.len()
            &&& forall|k: int| 0 <= k < keys.len() ==> (#[trigger] keys[k])@ == entries[k].name@
            &&& #[trigger] order::is_ranking(keys, order)
        }
}

/// The lines of a directory, its objects in the given order; none where it holds none.
pub open spec fn block_text(label: Seq<char>, bs: Seq<HouseBlock>, i: int, order: Seq<usize>) -> Seq<
    Seq<char>,
> {
    if bs[i].entries@.len() == 0 {
        seq![]
    } else {
        seq![label + ": "@ + bs[i].dir@ + " ["@ + bs[i].tier@ + " tier]"@] + order.map_values(
            |k: usize| entry_text(bs, i, bs[i].entries@[k as int]),
        )
    }
}

/// The lines of the first `n` directories.
pub open spec fn house_text(
    label: Seq<char>,
    bs: Seq<HouseBlock>,
    orders: Seq<Seq<usize>>,
    n: int,
) -> Seq<Seq<char>>
    decreases n,
{
    if n <= 0 {
        seq![]
    } else {
        house_text(label, bs, orders, n - 1) + block_text(label, bs, n - 1, orders[n - 1])
    }
}

/// Whether `orders` lists the objects of the first `n` directories by name.
pub open spec fn all_by_name(bs: Seq<HouseBlock>, orders: Seq<Seq<usize>>, n: int) -> bool {
    orders.len() == n && forall|i: int|
        0 <= i < n ==> by_name(bs[i].entries@, #[trigger] orders[i])
}

fn find_holding(bs: &[HouseBlock], name: &str, from: usize, to: usize) -> (r: Option<usize>)
    requires
        from <= to <= bs@.len(),
    ensures
        match r {
            Some(j) => first_holding(bs@, name@, from as int, to as int) == Some(j as int) && from
                <= j < to,
            None => first_holding(bs@, name@, from as int, to as int) is None,
        },
{
    let mut i: usize = from;
    while i < to
        invariant
            from <= i <= to <= bs@.len(),
            first_holding(bs@, name@, i as int, to as int) == first_holding(
                bs@,
                name@,
                from as int,
                to as int,
            ),
        decreases to - i,
    {
        let entries = bs[i].entries.as_slice();
        let mut k: usize = 0;
        let mut found = false;
        while k < entries.len() && !found
            invariant
                k <= entries@.len(),
                i < bs@.len(),
                entries@ == bs@[i as int].entries@,
                found ==> holds_name(bs@[i as int], name@),
                !found ==> forall|j: int|
                    0 <= j < k ==> (#[trigger] bs@[i as int].entries@[j]).name@ != name@,
            decreases entries@.len() - k,
        {
            if same(entries[k].name.as_str(), name) {
                assert(bs@[i as int].entries@[k as int].name@ == name@);
                found = true;
            }
            k = k + 1;
        }
        if found {
            return Some(i);
        }
        i = i + 1;
    }
    None
}

fn entry_line(bs: &[HouseBlock], i: usize, e: &HouseEntry) -> (r: String)
    requires
        i < bs@.len(),
    ensures
        r@ == entry_text(bs@, i as int, *e),
{
    let n: usize = bs.len();
    let mut notes: Vec<String> = Vec::new();
    assert(text::texts(notes@) =~= seq![]);
    if same(e.kind.as_str(), "settled") {
        if let Some(s) = &e.signer {
            match &s.tier {
                Some(t) => {
                    if !same(t.as_str(), bs[i].tier.as_str()) {
                        push_line(&mut notes, concat2(t.as_str(), "-signed"));
                    }
                },
                None => {
                    push_line(
                        &mut notes,
                        concat3("signed by unknown key `", s.id.as_str(), "`"),
                    );
                },
            }
        }
    }
    assert(text::texts(notes@) =~= signer_note(*e, bs@[i as int].tier@));
    let ghost signed = text::texts(notes@);
    match find_holding(bs, e.name.as_str(), 0, i) {
        Some(j) => {
            push_line(&mut notes, concat2("shadowed by ", bs[j].tier.as_str()));
        },
        None => {
            if let Some(j) = find_holding(bs, e.name.as_str(), i + 1, n) {
                push_line(&mut notes, concat2("shadows ", bs[j].tier.as_str()));
            }
        },
    }
    proof {
        assert(text::texts(notes@) =~= signed + shadow_note(bs@, i as int, e.name@));
        assert(text::texts(notes@).len() == notes@.len());
    }
    let head = concat5("  ", e.name.as_str(), "  (", e.kind.as_str(), ")");
    if notes.len() == 0 {
        concat2(head.as_str(), "")
    } else {
        let all = join(notes.as_slice(), ", ");
        concat2(head.as_str(), concat3("  [", all.as_str(), "]").as_str())
    }
}

fn push_block(out: &mut Vec<String>, label: &str, bs: &[HouseBlock], i: usize) -> (order: Vec<usize>)
    requires
        i < bs@.len(),
    ensures
        by_name(bs@[i as int].entries@, order@),
        text::texts(final(out)@) == text::texts(old(out)@) + block_text(
            label@,
            bs@,
            i as int,
            order@,
        ),
{
    let b = &bs[i];
    let mut keys: Vec<String> = Vec::new();
    let mut k: usize = 0;
    while k < b.entries.len()
        invariant
            k <= b.entries@.len(),
            keys@.len() == k,
            forall|j: int| 0 <= j < k ==> (#[trigger] keys@[j])@ == b.entries@[j].name@,
        decreases b.entries@.len() - k,
    {
        keys.push(b.entries[k].name.clone());
        k = k + 1;
    }
    let order = ranking(keys.as_slice());
    assert(by_name(bs@[i as int].entries@, order@)) by {
        assert(order::is_ranking(keys@, order@));
    }
    if b.entries.len() == 0 {
        assert(text::texts(out@) =~= text::texts(old(out)@) + seq![]);
        return order;
    }
    let head = concat5(label, ": ", b.dir.as_str(), " [", b.tier.as_str());
    push_line(out, concat2(head.as_str(), " tier]"));
    let ghost base = text::texts(out@);
    let ghost want = order@.map_values(|k: usize| entry_text(bs@, i as int, b.entries@[k as int]));
    let mut j: usize = 0;
    assert(text::texts(out@) =~= base + want.take(0));
    while j < order.len()
        invariant
            j <= order@.len(),
            i < bs@.len(),
            *b == bs@[i as int],
            keys@.len() == b.entries@.len(),
            order::is_ranking(keys@, order@),
            want == order@.map_values(|k: usize| entry_text(bs@, i as int, b.entries@[k as int])),
            text::texts(out@) == base + want.take(j as int),
        decreases order@.len() - j,
    {
        push_line(out, entry_line(bs, i, &b.entries[order[j]]));
        j = j + 1;
        assert(text::texts(out@) =~= base + want.take(j as int));
    }
    proof {
        assert(want.take(want.len() as int) =~= want);
        let front = label@ + ": "@ + b.dir@ + " ["@ + b.tier@ + " tier]"@;
        assert(base =~= text::texts(old(out)@).push(front));
        assert(text::texts(out@) =~= text::texts(old(out)@) + (seq![front] + want));
        assert(block_text(label@, bs@, i as int, order@) =~= seq![front] + want);
    }
    order
}

proof fn lemma_house_text(
    label: Seq<char>,
    bs: Seq<HouseBlock>,
    orders: Seq<Seq<usize>>,
    more: Seq<usize>,
    n: int,
)
    requires
        n <= orders.len(),
    ensures
        house_text(label, bs, orders.push(more), n) == house_text(label, bs, orders, n),
    decreases n,
{
    if n > 0 {
        lemma_house_text(label, bs, orders, more, n - 1);
        assert(orders.push(more)[n - 1] == orders[n - 1]);
    }
}

/// The objects of one house along its search path, with what is noted of each, line by line;
/// nothing where there are none.
pub fn list_house(label: &str, blocks: &[HouseBlock]) -> (out: Vec<String>)
    ensures
        exists|orders: Seq<Seq<usize>>|
            {
                &&& #[trigger] all_by_name(blocks@, orders, blocks@.len() as int)
                &&& text::texts(out@) == house_text(label@, blocks@, orders, blocks@.len() as int)
            },
{
    let mut out: Vec<String> = Vec::new();
    let ghost mut orders: Seq<Seq<usize>> = seq![];
    let mut i: usize = 0;
    assert(text::texts(out@) =~= seq![]);
    while i < blocks.len()
        invariant
            i <= blocks@.len(),
            all_by_name(blocks@, orders, i as int),
            text::texts(out@) == house_text(label@, blocks@, orders, i as int),
        decreases blocks@.len() - i,
    {
        let order = push_block(&mut out, label, blocks, i);
        proof {
            lemma_house_text(label@, blocks@, orders, order@, i as int);
            let next = orders.push(order@);
            assert(next[i as int] == order@);
            assert forall|k: int| 0 <= k < i + 1 implies by_name(
                blocks@[k].entries@,
                #[trigger] next[k],
            ) by {
                if k < i {
                    assert(next[k] == orders[k]);
                }
            }
            orders = next;
        }
        i = i + 1;
    }
    out
}

/// Shadowing is noted on both sides: of two directories with an object of one name, the first of
/// all that hold it and the next one behind it, the one says that it shadows the other's tier and
/// the other that it is shadowed by the one's.
pub proof fn law_shadowing_is_noted_on_both_sides(
    bs: Seq<HouseBlock>,
    name: Seq<char>,
    i: int,
    j: int,
)
    requires
        0 <= i < j < bs.len(),
        holds_name(bs[i], name),
        holds_name(bs[j], name),
        forall|k: int| 0 <= k < j && k != i ==> !holds_name(#[trigger] bs[k], name),
    ensures
        shadow_note(bs, i, name) == seq!["shadows "@ + bs[j].tier@],
        shadow_note(bs, j, name) == seq!["shadowed by "@ + bs[i].tier@],
{
    lemma_first_holding(bs, name, 0, i, i);
    lemma_first_holding(bs, name, 0, j, i);
    lemma_first_holding(bs, name, i + 1, bs.len() as int, j);
}

proof fn lemma_first_holding(bs: Seq<HouseBlock>, name: Seq<char>, from: int, to: int, at: int)
    requires
        0 <= from <= at <= to <= bs.len(),
        at < to ==> holds_name(bs[at], name),
        forall|k: int| from <= k < at ==> !holds_name(#[trigger] bs[k], name),
    ensures
        first_holding(bs, name, from, to) == if at < to {
            Some(at)
        } else {
            None
        },
    decreases to - from,
{
    if from < at {
        lemma_first_holding(bs, name, from + 1, to, at);
    }
}

// ---- what holds of the whole ----------------------------------------------------

proof fn lemma_line_told(lines: Seq<Seq<char>>, k: int, a: Seq<char>, p: Seq<char>, b: Seq<char>)
    requires
        0 <= k < lines.len(),
        lines[k] == a + p + b,
    ensures
        text::told(lines, p),
{
    text::lemma_holds(a, p, b);
    assert(text::holds(lines[k], p));
}

proof fn lemma_changes_told(cs: Seq<GrantChange>, i: int)
    requires
        0 <= i < cs.len(),
    ensures
        text::told(all_changes(cs), sign(cs[i].kind) + " "@ + cs[i].carrier@),
        forall|t: int|
            0 <= t < cs[i].exposed@.len() ==> text::told(
                all_changes(cs),
                "exposes "@ + (#[trigger] cs[i].exposed@[t]).id@,
            ),
    decreases cs.len(),
{
    let front = cs.drop_last();
    let last = change_lines(cs.last());
    if i < cs.len() - 1 {
        lemma_changes_told(front, i);
        assert(all_changes(cs) =~= seq![] + all_changes(front) + last);
        text::lemma_told(seq![], all_changes(front), last, sign(cs[i].kind) + " "@ + cs[i].carrier@);
        assert forall|t: int| 0 <= t < cs[i].exposed@.len() implies text::told(
            all_changes(cs),
            "exposes "@ + (#[trigger] cs[i].exposed@[t]).id@,
        ) by {
            assert(front[i] == cs[i]);
            text::lemma_told(
                seq![],
                all_changes(front),
                last,
                "exposes "@ + front[i].exposed@[t].id@,
            );
        }
    } else {
        let c = cs[i];
        let p = sign(c.kind) + " "@ + c.carrier@;
        let end = if c.widening {
            "  (widens reach)"@
        } else {
            ""@
        };
        assert(last[0] =~= "  "@ + p + end);
        lemma_line_told(last, 0, "  "@, p, end);
        text::lemma_told(all_changes(front), last, seq![], p);
        assert(all_changes(cs) =~= all_changes(front) + last + seq![]);
        assert forall|t: int| 0 <= t < c.exposed@.len() implies text::told(
            all_changes(cs),
            "exposes "@ + (#[trigger] cs[i].exposed@[t]).id@,
        ) by {
            reveal_strlit("      exposes ");
            reveal_strlit("exposes ");
            reveal_strlit("      ");
            let head = seq![
                "  "@ + sign(c.kind) + " "@ + c.carrier@ + end,
            ] + layout::line_if(c.detail@.len() > 0, "      "@ + c.detail@) + (match c.reason {
                Some(r) => seq!["      reason: "@ + r@],
                None => seq![],
            });
            let ex = threat_lines("      exposes "@, c.exposed@);
            let k = head.len() + t;
            assert(last[k] == ex[t]);
            let q = "exposes "@ + c.exposed@[t].id@;
            let rest = threat_rest(c.exposed@[t]);
            lemma_threat(c.exposed@[t]);
            assert("      exposes "@ =~= "      "@ + "exposes "@);
            assert(last[k] =~= "      "@ + q + rest);
            lemma_line_told(last, k, "      "@, q, rest);
            text::lemma_told(all_changes(front), last, seq![], q);
        }
    }
}

/// What is said of a threat behind its id.
pub open spec fn threat_rest(t: ThreatRef) -> Seq<char> {
    threat(t).skip(t.id@.len() as int)
}

proof fn lemma_threat(t: ThreatRef)
    ensures
        threat(t) == t.id@ + threat_rest(t),
{
    assert(t.id@.is_prefix_of(threat(t))) by {
        assert(threat(t).subrange(0, t.id@.len() as int) =~= t.id@);
    }
    assert(threat(t) =~= t.id@ + threat_rest(t));
}

proof fn lemma_threats_told(lead: Seq<char>, ts: Seq<ThreatRef>, i: int)
    requires
        0 <= i < ts.len(),
    ensures
        text::told(threat_lines(lead, ts), lead + ts[i].id@),
{
    lemma_threat(ts[i]);
    let lines = threat_lines(lead, ts);
    assert(lines[i] =~= seq![] + (lead + ts[i].id@) + threat_rest(ts[i]));
    lemma_line_told(lines, i, seq![], lead + ts[i].id@, threat_rest(ts[i]));
}

/// A comparison tells every grant that changed, with the sign of what happened to it, and the threats
/// that it exposes.
pub proof fn law_every_change_is_told(
    old_label: &str,
    new_label: &str,
    d: &PolicyDiff,
    out: Vec<String>,
    i: int,
    t: int,
)
    requires
        call_ensures(print_diff_human, (old_label, new_label, d), out),
        0 <= i < d.changes@.len(),
    ensures
        ({
            let c = d.changes@[i];
            let lines = text::texts(out@);
            &&& c.kind == ChangeKind::Added ==> text::told(lines, "+"@ + " "@ + c.carrier@)
            &&& c.kind == ChangeKind::Removed ==> text::told(lines, "-"@ + " "@ + c.carrier@)
            &&& c.kind == ChangeKind::Modified ==> text::told(lines, "~"@ + " "@ + c.carrier@)
            &&& 0 <= t < c.exposed@.len() ==> text::told(lines, "exposes "@ + c.exposed@[t].id@)
        }),
{
    let c = d.changes@[i];
    lemma_changes_told(d.changes@, i);
    let head = seq![
        "diff "@ + old_label@ + " → "@ + new_label@ + "  (threat catalogue v"@
            + d.catalogue_version@ + ")"@,
    ] + seq!["\nGrant changes ("@ + decimal::dec(d.changes@.len()) + "):"@];
    let body = all_changes(d.changes@);
    let end = posture_text(*d) + seq![
        "\nFull threat definitions and residuals: docs/reference/THREATS.md"@,
    ];
    assert(text::texts(out@) =~= head + body + end);
    text::lemma_told(head, body, end, sign(c.kind) + " "@ + c.carrier@);
    if 0 <= t < c.exposed@.len() {
        let q = "exposes "@ + d.changes@[i].exposed@[t].id@;
        assert(text::told(body, q));
        text::lemma_told(head, body, end, q);
    }
}

/// A comparison tells each threat that is new or gone, as what it is.
pub proof fn law_posture_is_told(
    old_label: &str,
    new_label: &str,
    d: &PolicyDiff,
    out: Vec<String>,
    i: int,
)
    requires
        call_ensures(print_diff_human, (old_label, new_label, d), out),
    ensures
        0 <= i < d.newly_exposed@.len() ==> text::told(
            text::texts(out@),
            "  ⚠ now exposes "@ + d.newly_exposed@[i].id@,
        ),
        0 <= i < d.no_longer_exposed@.len() ==> text::told(
            text::texts(out@),
            "  ✓ no longer exposes "@ + d.no_longer_exposed@[i].id@,
        ),
        0 <= i < d.newly_mitigated@.len() ==> text::told(
            text::texts(out@),
            "  ✓ now mitigates "@ + d.newly_mitigated@[i].id@,
        ),
        0 <= i < d.no_longer_mitigated@.len() ==> text::told(
            text::texts(out@),
            "  ⚠ no longer mitigates "@ + d.no_longer_mitigated@[i].id@,
        ),
{
    let head = seq![
        "diff "@ + old_label@ + " → "@ + new_label@ + "  (threat catalogue v"@
            + d.catalogue_version@ + ")"@,
    ] + changes_text(d.changes@) + seq!["\nThreat posture delta:"@];
    let a = threat_lines("  ⚠ now exposes "@, d.newly_exposed@);
    let b = threat_lines("  ✓ no longer exposes "@, d.no_longer_exposed@);
    let c = threat_lines("  ✓ now mitigates "@, d.newly_mitigated@);
    let e = threat_lines("  ⚠ no longer mitigates "@, d.no_longer_mitigated@);
    let end = seq!["\nFull threat definitions and residuals: docs/reference/THREATS.md"@];
    let all = text::texts(out@);
    if !d.same_posture() {
        assert(all =~= head + a + (b + c + e + end));
        assert(all =~= (head + a) + b + (c + e + end));
        assert(all =~= (head + a + b) + c + (e + end));
        assert(all =~= (head + a + b + c) + e + end);
    }
    if 0 <= i < d.newly_exposed@.len() {
        lemma_threats_told("  ⚠ now exposes "@, d.newly_exposed@, i);
        text::lemma_told(head, a, b + c + e + end, "  ⚠ now exposes "@ + d.newly_exposed@[i].id@);
    }
    if 0 <= i < d.no_longer_exposed@.len() {
        let q = "  ✓ no longer exposes "@ + d.no_longer_exposed@[i].id@;
        lemma_threats_told("  ✓ no longer exposes "@, d.no_longer_exposed@, i);
        text::lemma_told(head + a, b, c + e + end, q);
    }
    if 0 <= i < d.newly_mitigated@.len() {
        let q = "  ✓ now mitigates "@ + d.newly_mitigated@[i].id@;
        lemma_threats_told("  ✓ now mitigates "@, d.newly_mitigated@, i);
        text::lemma_told(head + a + b, c, e + end, q);
    }
    if 0 <= i < d.no_longer_mitigated@.len() {
        let q = "  ⚠ no longer mitigates "@ + d.no_longer_mitigated@[i].id@;
        lemma_threats_told("  ⚠ no longer mitigates "@, d.no_longer_mitigated@, i);
        text::lemma_told(head + a + b + c, e, end, q);
    }
}

proof fn lemma_findings_told(fs: Seq<Finding>, i: int)
    requires
        0 <= i < fs.len(),
    ensures
        text::told(all_findings(fs), fs[i].threat_id@),
        text::told(all_findings(fs), "via "@ + fs[i].carrier@),
        fs[i].residual@.len() > 0 ==> text::told(all_findings(fs), "residual: "@ + fs[i].residual@),
    decreases fs.len(),
{
    let front = fs.drop_last();
    let last = finding_lines(fs.last());
    let f = fs[i];
    if i < fs.len() - 1 {
        lemma_findings_told(front, i);
        assert(all_findings(fs) =~= seq![] + all_findings(front) + last);
        text::lemma_told(seq![], all_findings(front), last, f.threat_id@);
        text::lemma_told(seq![], all_findings(front), last, "via "@ + f.carrier@);
        if f.residual@.len() > 0 {
            text::lemma_told(seq![], all_findings(front), last, "residual: "@ + f.residual@);
        }
    } else {
        assert(all_findings(fs) =~= all_findings(front) + last + seq![]);
        reveal_strlit("         via ");
        reveal_strlit("via ");
        reveal_strlit("         ");
        reveal_strlit("         residual: ");
        reveal_strlit("residual: ");
        let rest = last[0].skip(2 + f.threat_id@.len() as int);
        reveal_strlit("  ");
        assert(last[0] =~= "  "@ + f.threat_id@ + rest);
        lemma_line_told(last, 0, "  "@, f.threat_id@, rest);
        text::lemma_told(all_findings(front), last, seq![], f.threat_id@);
        let v = "via "@ + f.carrier@;
        assert("         via "@ =~= "         "@ + "via "@);
        assert(last[1] =~= "         "@ + v + seq![]);
        lemma_line_told(last, 1, "         "@, v, seq![]);
        text::lemma_told(all_findings(front), last, seq![], v);
        if f.residual@.len() > 0 {
            let q = "residual: "@ + f.residual@;
            let k = last.len() - 1;
            assert("         residual: "@ =~= "         "@ + "residual: "@);
            assert(last[k] =~= "         "@ + q + seq![]);
            lemma_line_told(last, k, "         "@, q, seq![]);
            text::lemma_told(all_findings(front), last, seq![], q);
        }
    }
}

proof fn lemma_section_told(heading: Seq<char>, fs: Seq<Finding>, i: int)
    requires
        0 <= i < fs.len(),
    ensures
        text::told(section(heading, fs), fs[i].threat_id@),
        text::told(section(heading, fs), "via "@ + fs[i].carrier@),
{
    lemma_findings_told(fs, i);
    let t = seq!["\n"@ + heading + " ("@ + decimal::dec(fs.len()) + "):"@];
    let e = layout::line_if(fs.len() == 0, "  (none)"@);
    text::lemma_told(t, all_findings(fs), e, fs[i].threat_id@);
    text::lemma_told(t, all_findings(fs), e, "via "@ + fs[i].carrier@);
}

/// What an overview starts with.
pub open spec fn overview_head(name: Seq<char>, r: RiskReport) -> Seq<Seq<char>> {
    let v = r.catalogue_version@;
    seq!["Risk overview for `"@ + name + "`  (threat catalogue v"@ + v + ")"@] + (
    match r.policy_catalogue_version {
        Some(pv) => layout::line_if(
            pv@ != v,
            "  note: policy authored against threat catalogue v"@ + pv@ + " (now v"@ + v + ")"@,
        ),
        None => seq![],
    })
}

/// The part of an overview on tags that are in no catalogue.
pub open spec fn overview_tags(r: RiskReport) -> Seq<Seq<char>> {
    if r.unknown_tags@.len() == 0 {
        seq![]
    } else {
        seq![
            "\n⚠ "@ + decimal::dec(r.unknown_tags@.len()) + " threat tag(s) not in catalogue v"@
                + r.catalogue_version@ + " (typo?):"@,
        ] + tag_lines(r.unknown_tags@)
    }
}

proof fn lemma_in_overview(name: Seq<char>, r: RiskReport, p: Seq<char>)
    requires
        text::told(section("EXPOSES"@, r.exposures@), p) || text::told(
            section("MITIGATES"@, r.mitigations@),
            p,
        ) || text::told(overview_tags(r), p),
    ensures
        text::told(risks_text(name, r), p),
{
    let h = overview_head(name, r);
    let a = section("EXPOSES"@, r.exposures@);
    let b = section("MITIGATES"@, r.mitigations@);
    let t = overview_tags(r);
    let end = seq!["\nFull threat definitions and residuals: docs/reference/THREATS.md"@];
    assert(risks_text(name, r) == h + a + b + t + end);
    if text::told(a, p) {
        text::lemma_told_in_either(h, a, p);
    }
    if text::told(h + a, p) || text::told(b, p) {
        text::lemma_told_in_either(h + a, b, p);
    }
    text::lemma_told_in_either(h + a + b, t, p);
    text::lemma_told_in_either(h + a + b + t, end, p);
}

/// An overview tells every exposure and every mitigation with its threat and what carries it, and
/// every tag that is in no catalogue.
pub proof fn law_every_risk_is_told(name: &str, report: &RiskReport, out: Vec<String>, i: int)
    requires
        call_ensures(print_risks_human, (name, report), out),
    ensures
        0 <= i < report.exposures@.len() ==> text::told(
            text::texts(out@),
            report.exposures@[i].threat_id@,
        ) && text::told(text::texts(out@), "via "@ + report.exposures@[i].carrier@),
        0 <= i < report.mitigations@.len() ==> text::told(
            text::texts(out@),
            report.mitigations@[i].threat_id@,
        ) && text::told(text::texts(out@), "via "@ + report.mitigations@[i].carrier@),
        0 <= i < report.unknown_tags@.len() ==> text::told(
            text::texts(out@),
            report.unknown_tags@[i].0@,
        ),
{
    if 0 <= i < report.exposures@.len() {
        lemma_section_told("EXPOSES"@, report.exposures@, i);
        lemma_in_overview(name@, *report, report.exposures@[i].threat_id@);
        lemma_in_overview(name@, *report, "via "@ + report.exposures@[i].carrier@);
    }
    if 0 <= i < report.mitigations@.len() {
        lemma_section_told("MITIGATES"@, report.mitigations@, i);
        lemma_in_overview(name@, *report, report.mitigations@[i].threat_id@);
        lemma_in_overview(name@, *report, "via "@ + report.mitigations@[i].carrier@);
    }
    if 0 <= i < report.unknown_tags@.len() {
        let tl = tag_lines(report.unknown_tags@);
        let t = report.unknown_tags@[i];
        let rest = "  via "@ + t.1@;
        assert(tl[i] =~= "  "@ + t.0@ + rest);
        lemma_line_told(tl, i, "  "@, t.0@, rest);
        text::lemma_told_in_either(overview_tags(*report).take(1), tl, t.0@);
        assert(overview_tags(*report) =~= overview_tags(*report).take(1) + tl);
        lemma_in_overview(name@, *report, t.0@);
    }
}

/// The machine-readable overview holds each exposure and each mitigation whole.
pub proof fn law_machine_overview_holds_every_risk(
    name: &str,
    report: &RiskReport,
    r: String,
    i: int,
)
    requires
        call_ensures(print_risks_json, (name, report), r),
    ensures
        0 <= i < report.exposures@.len() ==> text::holds(r@, finding_json(report.exposures@[i])),
        0 <= i < report.mitigations@.len() ==> text::holds(r@, finding_json(report.mitigations@[i])),
{
    let ex = report.exposures@.map_values(|f: Finding| finding_json(f));
    let mi = report.mitigations@.map_values(|f: Finding| finding_json(f));
    let a = "{\"policy\":\""@ + guarded(name@) + "\",\"catalogue_version\":\""@ + guarded(
        report.catalogue_version@,
    ) + "\",\"exposures\":["@;
    let m = "],\"mitigations\":["@;
    let z = "],\"unknown_tags\":["@ + tags_json(report.unknown_tags@) + "]}"@;
    let je = words::joined(ex, ","@);
    let jm = words::joined(mi, ","@);
    if 0 <= i < ex.len() {
        words::lemma_joined_holds(ex, ","@, i);
        text::lemma_held_within(a, je, m + jm + z, ex[i]);
        assert(r@ =~= a + je + (m + jm + z));
    }
    if 0 <= i < mi.len() {
        words::lemma_joined_holds(mi, ","@, i);
        text::lemma_held_within(a + je + m, jm, z, mi[i]);
        assert(r@ =~= a + je + m + jm + z);
    }
}

/// A policy that is shown tells its name, what may be read and what may be written, and calls what may
/// be run nothing just where nothing may.
pub proof fn law_shown_policy_tells_its_grants(p: &EffectivePolicy, out: Vec<String>, i: int)
    requires
        call_ensures(print_effective_policy, (p,), out),
    ensures
        text::told(text::texts(out@), "policy `"@ + p.name@ + "`"@),
        0 <= i < p.fs_read@.len() ==> text::told(text::texts(out@), text::texts(p.fs_read@)[i]),
        0 <= i < p.fs_write@.len() ==> text::told(text::texts(out@), text::texts(p.fs_write@)[i]),
        p.exec_allow == 0 ==> text::told(text::texts(out@), "  exec: deny-all (no exec.allow)"@),
        p.exec_allow > 0 ==> text::told(
            text::texts(out@),
            "  exec.allow: "@ + decimal::dec(p.exec_allow as nat),
        ),
{
    let all = text::texts(out@);
    let n = "policy `"@ + p.name@ + "`"@;
    assert(all[0] =~= seq![] + n + seq![]);
    lemma_line_told(all, 0, seq![], n, seq![]);
    let head = seq![n, "  network: "@ + mode_text(p.mode)] + net_lines(*p);
    let reads = text::texts(p.fs_read@);
    let writes = text::texts(p.fs_write@);
    let a = layout::line_if(reads.len() > 0, "  fs.read: "@ + words::joined(reads, ", "@));
    let b = layout::line_if(writes.len() > 0, "  fs.write: "@ + words::joined(writes, ", "@));
    let c = seq![
        if p.exec_allow == 0 {
            "  exec: deny-all (no exec.allow)"@
        } else {
            "  exec.allow: "@ + decimal::dec(p.exec_allow as nat) + " entry(ies)"@
        },
    ];
    let end = life_lines(*p);
    assert(reads.len() == p.fs_read@.len() && writes.len() == p.fs_write@.len());
    assert(grant_lines(*p) == a + b + c);
    assert(all =~= head + a + b + c + end);
    if 0 <= i < reads.len() {
        words::lemma_joined_holds(reads, ", "@, i);
        text::lemma_held_within("  fs.read: "@, words::joined(reads, ", "@), seq![], reads[i]);
        assert(a[0] =~= "  fs.read: "@ + words::joined(reads, ", "@) + seq![]);
        assert(all[head.len() as int] == a[0]);
        assert(text::holds(all[head.len() as int], reads[i]));
    }
    if 0 <= i < writes.len() {
        let k = (head + a).len() as int;
        words::lemma_joined_holds(writes, ", "@, i);
        text::lemma_held_within("  fs.write: "@, words::joined(writes, ", "@), seq![], writes[i]);
        assert(b[0] =~= "  fs.write: "@ + words::joined(writes, ", "@) + seq![]);
        assert(all[k] == b[0]);
        assert(text::holds(all[k], writes[i]));
    }
    let k = (head + a + b).len() as int;
    assert(all[k] == c[0]);
    if p.exec_allow == 0 {
        let q = "  exec: deny-all (no exec.allow)"@;
        assert(all[k] =~= seq![] + q + seq![]);
        lemma_line_told(all, k, seq![], q, seq![]);
    } else {
        let q = "  exec.allow: "@ + decimal::dec(p.exec_allow as nat);
        assert(all[k] =~= seq![] + q + " entry(ies)"@);
        lemma_line_told(all, k, seq![], q, " entry(ies)"@);
    }
}

/// What stands in a directory is shown as what it is: what is compiled before its source, with its
/// signer, and what is no directory not at all.
pub proof fn law_compiled_form_is_shown_first(
    is_dir: bool,
    settled: bool,
    source: bool,
    l: Listed,
    name: &str,
    kind: &str,
    signer: Option<Signer>,
    r: Option<HouseEntry>,
)
    requires
        call_ensures(listed_as, (is_dir, settled, source), l),
        call_ensures(house_entry, (name, l, kind, signer), r),
    ensures
        r is Some <==> is_dir && (settled || source),
        r matches Some(e) ==> e.name@ == name@,
        r matches Some(e) ==> (settled ==> e.kind@ == "settled"@ && e.signer == signer),
        r matches Some(e) ==> (!settled ==> e.kind@ == kind@ && e.signer is None),
{
}

proof fn lemma_sockets_told(ss: Seq<UnixSocket>, i: int)
    requires
        0 <= i < ss.len(),
    ensures
        text::told(all_sockets(ss), ss[i].name@),
        text::told(all_sockets(ss), "real:  "@ + ss[i].real@),
        text::told(all_sockets(ss), "shim:  "@ + ss[i].shim@),
    decreases ss.len(),
{
    let front = ss.drop_last();
    let last = socket_lines(ss.last());
    let s = ss[i];
    let rest = all_sockets(front);
    if i < ss.len() - 1 {
        lemma_sockets_told(front, i);
        text::lemma_told_in_either(rest, last, s.name@);
        text::lemma_told_in_either(rest, last, "real:  "@ + s.real@);
        text::lemma_told_in_either(rest, last, "shim:  "@ + s.shim@);
    } else {
        reveal_strlit("    real:  ");
        reveal_strlit("    shim:  ");
        reveal_strlit("real:  ");
        reveal_strlit("shim:  ");
        reveal_strlit("    ");
        assert("    real:  "@ =~= "    "@ + "real:  "@);
        assert("    shim:  "@ =~= "    "@ + "shim:  "@);
        let e: Seq<char> = seq![];
        assert(last[0] =~= "  "@ + s.name@ + e);
        assert(last[1] =~= "    "@ + ("real:  "@ + s.real@) + e);
        assert(last[2] =~= "    "@ + ("shim:  "@ + s.shim@) + e);
        lemma_line_told(last, 0, "  "@, s.name@, e);
        lemma_line_told(last, 1, "    "@, "real:  "@ + s.real@, e);
        lemma_line_told(last, 2, "    "@, "shim:  "@ + s.shim@, e);
        text::lemma_told_in_either(rest, last, s.name@);
        text::lemma_told_in_either(rest, last, "real:  "@ + s.real@);
        text::lemma_told_in_either(rest, last, "shim:  "@ + s.shim@);
    }
}

/// Every socket that is granted is told, with its two places.
pub proof fn law_every_socket_is_told(sockets: &[UnixSocket], out: Vec<String>, i: int)
    requires
        call_ensures(print_unix_grants, (sockets,), out),
        0 <= i < sockets@.len(),
    ensures
        text::told(text::texts(out@), sockets@[i].name@),
        text::told(text::texts(out@), "real:  "@ + sockets@[i].real@),
        text::told(text::texts(out@), "shim:  "@ + sockets@[i].shim@),
{
    lemma_sockets_told(sockets@, i);
    let all = text::texts(out@);
    let body = all_sockets(sockets@);
    let head = all.take(1);
    assert(all =~= head + body);
    text::lemma_told_in_either(head, body, sockets@[i].name@);
    text::lemma_told_in_either(head, body, "real:  "@ + sockets@[i].real@);
    text::lemma_told_in_either(head, body, "shim:  "@ + sockets@[i].shim@);
}

/// A threat is told by its id, and by its title where the catalogue has it.
pub proof fn law_threats_are_told_by_title(t: &ThreatRef, r: String)
    requires
        call_ensures(threat_oneline, (t,), r),
    ensures
        t.id@.is_prefix_of(r@),
        t.title matches Some(title) ==> text::holds(r@, title@),
        t.title is None ==> text::holds(r@, "uncatalogued"@),
        t.title is Some && t.residual@.len() > 0 ==> text::holds(r@, t.residual@),
{
    lemma_threat(*t);
    assert(r@.subrange(0, t.id@.len() as int) =~= t.id@);
    match t.title {
        Some(title) => {
            let lead = t.id@ + " — "@;
            let end: Seq<char> = if t.residual@.len() > 0 {
                " ("@ + t.residual@ + ")"@
            } else {
                seq![]
            };
            assert(r@ == lead + title@ + end);
            text::lemma_holds(lead, title@, end);
            if t.residual@.len() > 0 {
                text::lemma_holds(" ("@, t.residual@, ")"@);
                text::lemma_held_in_either(lead + title@, end, t.residual@);
            }
        },
        None => {
            reveal_strlit(" (uncatalogued)");
            reveal_strlit("uncatalogued");
            let e = " (uncatalogued)"@;
            assert(e =~= e.take(2) + "uncatalogued"@ + e.skip(14));
            text::lemma_holds(e.take(2), "uncatalogued"@, e.skip(14));
            text::lemma_held_in_either(t.id@, e, "uncatalogued"@);
        },
    }
}

proof fn lemma_block_told(label: Seq<char>, bs: Seq<HouseBlock>, i: int, order: Seq<usize>, k: int)
    requires
        0 <= i < bs.len(),
        by_name(bs[i].entries@, order),
        0 <= k < bs[i].entries@.len() <= usize::MAX,
    ensures
        text::told(block_text(label, bs, i, order), bs[i].entries@[k].name@),
{
    let keys = choose|keys: Seq<String>|
        {
            &&& keys.len() == bs[i].entries@.len()
            &&& forall|k: int| 0 <= k < keys.len() ==> (#[trigger] keys[k])@ == bs[i].entries@[k].name@
            &&& #[trigger] order::is_ranking(keys, order)
        };
    order::lemma_in_arrangement(order, bs[i].entries@.len(), k as usize);
    let j = choose|j: int| 0 <= j < order.len() && order[j] == k as usize;
    let e = bs[i].entries@[k];
    let lines = block_text(label, bs, i, order);
    let l = entry_text(bs, i, e);
    assert(lines[j + 1] == l);
    let notes = signer_note(e, bs[i].tier@) + shadow_note(bs, i, e.name@);
    let n = if notes.len() == 0 {
        ""@
    } else {
        "  ["@ + words::joined(notes, ", "@) + "]"@
    };
    let rest = "  ("@ + e.kind@ + ")"@ + n;
    assert(l =~= "  "@ + e.name@ + rest);
    lemma_line_told(lines, j + 1, "  "@, e.name@, rest);
}

proof fn lemma_house_told(
    label: Seq<char>,
    bs: Seq<HouseBlock>,
    orders: Seq<Seq<usize>>,
    n: int,
    i: int,
    k: int,
)
    requires
        0 <= i < n <= bs.len(),
        n <= orders.len(),
        by_name(bs[i].entries@, orders[i]),
        0 <= k < bs[i].entries@.len() <= usize::MAX,
    ensures
        text::told(house_text(label, bs, orders, n), bs[i].entries@[k].name@),
    decreases n,
{
    let front = house_text(label, bs, orders, n - 1);
    let last = block_text(label, bs, n - 1, orders[n - 1]);
    if i < n - 1 {
        lemma_house_told(label, bs, orders, n - 1, i, k);
    } else {
        lemma_block_told(label, bs, i, orders[i], k);
    }
    text::lemma_told_in_either(front, last, bs[i].entries@[k].name@);
}

/// Everything that stands in a house is told.
pub proof fn law_everything_in_the_house_is_told(
    label: &str,
    blocks: &[HouseBlock],
    out: Vec<String>,
    i: int,
    k: int,
)
    requires
        call_ensures(list_house, (label, blocks), out),
        0 <= i < blocks@.len(),
        0 <= k < blocks@[i].entries@.len() <= usize::MAX,
    ensures
        text::told(text::texts(out@), blocks@[i].entries@[k].name@),
{
    let orders = choose|orders: Seq<Seq<usize>>|
        {
            &&& #[trigger] all_by_name(blocks@, orders, blocks@.len() as int)
            &&& text::texts(out@) == house_text(label@, blocks@, orders, blocks@.len() as int)
        };
    assert(by_name(blocks@[i].entries@, orders[i]));
    lemma_house_told(label@, blocks@, orders, blocks@.len() as int, i, k);
}

proof fn lemma_in_either(a: Seq<Seq<char>>, b: Seq<Seq<char>>, x: Seq<char>)
    requires
        a.contains(x) || b.contains(x),
    ensures
        (a + b).contains(x),
{
    if a.contains(x) {
        let k = choose|k: int| 0 <= k < a.len() && a[k] == x;
        assert((a + b)[k] == x);
    } else {
        let k = choose|k: int| 0 <= k < b.len() && b[k] == x;
        assert((a + b)[a.len() + k] == x);
    }
}

proof fn lemma_in_policy(p: EffectivePolicy, x: Seq<char>)
    requires
        net_lines(p).contains(x),
    ensures
        policy_text(p).contains(x),
{
    let head = seq!["policy `"@ + p.name@ + "`"@, "  network: "@ + mode_text(p.mode)];
    lemma_in_either(head, net_lines(p), x);
    lemma_in_either(head + net_lines(p), grant_lines(p), x);
    lemma_in_either(head + net_lines(p) + grant_lines(p), life_lines(p), x);
}

/// The network is told as it is enforced: the proxy is live in the modes that have one, and only the
/// mode without a network of its own relies on the filter alone.
pub proof fn law_enforcement_is_told(p: &EffectivePolicy, out: Vec<String>)
    requires
        call_ensures(print_effective_policy, (p,), out),
    ensures
        p.allow > 0 && (p.mode is Constrained || p.mode is Unconstrained) ==> text::texts(
            out@,
        ).contains("  [net.proxy] ("@ + "live"@ + "):"@),
        p.allow > 0 && (p.mode is Closed || p.mode is Host) ==> text::texts(out@).contains(
            "  [net.proxy] ("@ + "NOT enforced — no proxy in this mode"@ + "):"@,
        ),
        p.bpf_connect_deny > 0 && !(p.mode is Host) ==> text::texts(out@).contains(
            "  [net.bpf] ("@ + "defence-in-depth"@ + "):"@,
        ),
        p.deny_invariant > 0 ==> text::texts(out@).contains(
            "  [net.proxy.deny.invariant]: "@ + decimal::dec(p.deny_invariant as nat)
                + " rule(s) (enforced in every mode)"@,
        ),
{
    let px = proxy_lines(*p);
    let inv = layout::line_if(
        p.deny_invariant > 0,
        "  [net.proxy.deny.invariant]: "@ + decimal::dec(p.deny_invariant as nat)
            + " rule(s) (enforced in every mode)"@,
    );
    let bl = bpf_lines(*p);
    if p.allow > 0 {
        let x = px[0];
        assert(px.contains(x));
        lemma_in_either(px, inv, x);
        lemma_in_either(px + inv, bl, x);
        lemma_in_policy(*p, x);
    }
    if p.deny_invariant > 0 {
        let x = inv[0];
        assert(inv.contains(x));
        lemma_in_either(px, inv, x);
        lemma_in_either(px + inv, bl, x);
        lemma_in_policy(*p, x);
    }
    if p.bpf_connect_deny > 0 {
        let x = bl[0];
        assert(bl.contains(x));
        lemma_in_either(px + inv, bl, x);
        lemma_in_policy(*p, x);
    }
}

} // verus!
