//! `version` and `audit`: the build-skew report and the audit-log viewer.

use super::args;
use super::args::{is_given, last_of, scan, word_at};
use crate::audit::time;
use crate::audit::time::format_rfc3339_micros;
use crate::decimal;
use crate::decimal::{dec_text, parse_u64};
use crate::layout;
use crate::layout::push_line;
use crate::order;
use crate::order::{precedes, ranking};
use crate::path;
use crate::path::join;
use crate::text;
use crate::text::{
    chars_of, concat2, concat3, concat4, concat5, concat7, has_char, has_piece, same, text_of,
};
use crate::words;
use vstd::prelude::*;
use vstd::string::*;

verus! {

/// Whether `kennel version` takes the arguments: there must be none.
pub fn version_args(list: &[String]) -> (r: Result<(), String>)
    ensures
        if list@.len() == 0 {
            r is Ok
        } else {
            r matches Err(m) && m@ == "unexpected argument `"@ + list@[0]@
                + "` — usage: kennel version"@
        },
{
    if list.len() == 0 {
        Ok(())
    } else {
        Err(concat3("unexpected argument `", list[0].as_str(), "` — usage: kennel version"))
    }
}

/// The line on the command line itself: its build, and the settled policies that it reads.
pub fn version_line(build: &str, schema: u32, min_schema: u32) -> (r: String)
    ensures
        r@ == "kennel CLI     : "@ + build@ + " — settled schema v"@ + decimal::dec(schema as nat)
            + " (min v"@ + decimal::dec(min_schema as nat) + ")"@,
{
    let a = dec_text(schema as u64);
    let b = dec_text(min_schema as u64);
    concat7(
        "kennel CLI     : ",
        build,
        " — settled schema v",
        a.as_str(),
        " (min v",
        b.as_str(),
        ")",
    )
}

// ---- version -------------------------------------------------------------------

/// What the daemon answered to the version query.
#[derive(Debug)]
pub enum DaemonAnswer {
    /// It cannot be reached; the socket and the error.
    Unreachable(String, String),
    /// It refused the handshake, being too old: its build, its schema and ours.
    Skew(String, u64, u64),
    /// The handshake failed; the error.
    NoHandshake(String),
    /// The query could not be sent.
    NotSent,
    /// Its build, its schema and the oldest that it reads.
    Version(String, u64, u64),
    /// Something else; what it was.
    Other(String),
    /// It dropped the connection.
    Dropped,
}

/// The line about the daemon.
pub open spec fn daemon_line(a: DaemonAnswer) -> Seq<char> {
    match a {
        DaemonAnswer::Unreachable(path, e) => "kenneld        : unreachable at "@ + path@ + " ("@
            + e@ + ")"@,
        DaemonAnswer::Skew(build, theirs, ours) => "kenneld (live) : "@ + build@
            + " — settled schema v"@ + decimal::dec(theirs as nat) + " (older than this CLI's v"@
            + decimal::dec(ours as nat) + ")"@,
        DaemonAnswer::NoHandshake(e) => "kenneld        : handshake failed ("@ + e@ + ")"@,
        DaemonAnswer::NotSent => "kenneld (live) : version query failed to send"@,
        DaemonAnswer::Version(build, schema, min) => "kenneld (live) : "@ + build@
            + " — settled schema v"@ + decimal::dec(schema as nat) + " (min v"@ + decimal::dec(
            min as nat,
        ) + ")"@,
        DaemonAnswer::Other(what) => "kenneld (live) : unexpected response ("@ + what@ + ")"@,
        DaemonAnswer::Dropped => "kenneld (live) : predates the version query (a pre-0.7.0 build)"@,
    }
}

/// What is skewed between this build and the daemon's, where anything is.
pub open spec fn skew_note(a: DaemonAnswer, cli: Seq<char>) -> Option<Seq<char>> {
    match a {
        DaemonAnswer::Unreachable(..) => Some(
            "daemon unreachable — is the kenneld.socket user unit enabled?"@,
        ),
        DaemonAnswer::Skew(..) => Some(
            "the daemon is an older build — restart it to pick up the installed one: `systemctl --user restart kenneld.service`"@,
        ),
        DaemonAnswer::NoHandshake(..) => Some(
            "the daemon spoke no control handshake — a pre-0.4 build?"@,
        ),
        DaemonAnswer::NotSent => Some("the daemon dropped the version query"@),
        DaemonAnswer::Version(build, _, _) => if build@ == cli {
            None
        } else {
            Some(
                "CLI "@ + cli + " vs daemon "@ + build@
                    + " — restart the daemon to pick up the installed binary: `systemctl --user restart kenneld.service`"@,
            )
        },
        DaemonAnswer::Other(..) => Some(
            "the daemon answered the version query with the wrong shape"@,
        ),
        DaemonAnswer::Dropped => Some(
            "the running daemon predates `kennel version` — restart it to pick up the installed binary: `systemctl --user restart kenneld.service`"@,
        ),
    }
}

/// The line about the daemon, and what is skewed, where anything is.
pub fn report_daemon(answer: &DaemonAnswer, cli_build: &str) -> (r: (String, Option<String>))
    ensures
        r.0@ == daemon_line(*answer),
        layout::opt(r.1) == skew_note(*answer, cli_build@),
{
    match answer {
        DaemonAnswer::Unreachable(path, e) => (
            concat5("kenneld        : unreachable at ", path.as_str(), " (", e.as_str(), ")"),
            Some("daemon unreachable — is the kenneld.socket user unit enabled?".to_owned()),
        ),
        DaemonAnswer::Skew(build, theirs, ours) => {
            let t = dec_text(*theirs);
            let o = dec_text(*ours);
            (
                concat7(
                    "kenneld (live) : ",
                    build.as_str(),
                    " — settled schema v",
                    t.as_str(),
                    " (older than this CLI's v",
                    o.as_str(),
                    ")",
                ),
                Some(
                    "the daemon is an older build — restart it to pick up the installed one: `systemctl --user restart kenneld.service`".to_owned(),
                ),
            )
        },
        DaemonAnswer::NoHandshake(e) => (
            concat3("kenneld        : handshake failed (", e.as_str(), ")"),
            Some("the daemon spoke no control handshake — a pre-0.4 build?".to_owned()),
        ),
        DaemonAnswer::NotSent => (
            "kenneld (live) : version query failed to send".to_owned(),
            Some("the daemon dropped the version query".to_owned()),
        ),
        DaemonAnswer::Version(build, schema, min) => {
            let s = dec_text(*schema);
            let m = dec_text(*min);
            let line = concat7(
                "kenneld (live) : ",
                build.as_str(),
                " — settled schema v",
                s.as_str(),
                " (min v",
                m.as_str(),
                ")",
            );
            if same(build.as_str(), cli_build) {
                (line, None)
            } else {
                let note = concat5(
                    "CLI ",
                    cli_build,
                    " vs daemon ",
                    build.as_str(),
                    " — restart the daemon to pick up the installed binary: `systemctl --user restart kenneld.service`",
                );
                (line, Some(note))
            }
        },
        DaemonAnswer::Other(what) => (
            concat3("kenneld (live) : unexpected response (", what.as_str(), ")"),
            Some("the daemon answered the version query with the wrong shape".to_owned()),
        ),
        DaemonAnswer::Dropped => (
            "kenneld (live) : predates the version query (a pre-0.7.0 build)".to_owned(),
            Some(
                "the running daemon predates `kennel version` — restart it to pick up the installed binary: `systemctl --user restart kenneld.service`".to_owned(),
            ),
        ),
    }
}

/// The last line of the report: no skew is reported just where the live daemon is this build.
pub fn skew_line(note: &Option<String>) -> (r: String)
    ensures
        r@ == "skew           : "@ + match layout::opt(*note) {
            Some(n) => n,
            None => "none — CLI and daemon builds match"@,
        },
{
    match note {
        Some(n) => concat2("skew           : ", n.as_str()),
        None => concat2("skew           : ", "none — CLI and daemon builds match"),
    }
}

/// No skew is noted just where the daemon answered with the build of this program.
pub proof fn law_no_skew_means_the_same_build(a: DaemonAnswer, cli: Seq<char>)
    ensures
        skew_note(a, cli) is None <==> (a matches DaemonAnswer::Version(build, _, _) && build@
            == cli),
{
}

/// Whether a helper is on disk, in words.
pub open spec fn presence(there: bool) -> Seq<char> {
    if there {
        "present"@
    } else {
        "ABSENT"@
    }
}

/// The two lines about the privileged helper and its parts.
pub fn report_privhelper(path: &str, factory: bool, mounts: bool, net: bool, bpf: bool) -> (r: (
    String,
    String,
))
    ensures
        r.0@ == "privhelper     : "@ + presence(factory) + " ("@ + path@ + ")"@,
        r.1@ == "  sub-helpers  : mounts "@ + presence(mounts) + ", net "@ + presence(net)
            + ", bpf-egress "@ + presence(bpf),
{
    let first = concat5("privhelper     : ", present(factory), " (", path, ")");
    let a = concat4("  sub-helpers  : mounts ", present(mounts), ", net ", present(net));
    (first, concat3(a.as_str(), ", bpf-egress ", present(bpf)))
}

fn present(there: bool) -> (r: &'static str)
    ensures
        r@ == presence(there),
{
    if there {
        "present"
    } else {
        "ABSENT"
    }
}

// ---- audit ---------------------------------------------------------------------

/// The log file's stem that a resource token selects.
pub open spec fn stem_for(token: Seq<char>) -> Option<Seq<char>> {
    if token == "net"@ {
        Some("network"@)
    } else if token == "fs"@ {
        Some("filesystem"@)
    } else if token == "exec"@ {
        Some("exec"@)
    } else if token == "unix"@ {
        Some("unix"@)
    } else if token == "dbus"@ {
        Some("dbus"@)
    } else if token == "priv"@ {
        Some("priv"@)
    } else if token == "lifecycle"@ {
        Some("lifecycle"@)
    } else {
        None
    }
}

/// The log file's stem that a resource token selects.
pub fn resource_stem(token: &str) -> (r: Option<&'static str>)
    ensures
        match r {
            Some(s) => stem_for(token@) == Some(s@),
            None => stem_for(token@) is None,
        },
{
    if same(token, "net") {
        Some("network")
    } else if same(token, "fs") {
        Some("filesystem")
    } else if same(token, "exec") {
        Some("exec")
    } else if same(token, "unix") {
        Some("unix")
    } else if same(token, "dbus") {
        Some("dbus")
    } else if same(token, "priv") {
        Some("priv")
    } else if same(token, "lifecycle") {
        Some("lifecycle")
    } else {
        None
    }
}

/// The seconds that a unit suffix stands for.
pub open spec fn unit_of(c: char) -> Option<nat> {
    if c == 's' {
        Some(1)
    } else if c == 'm' {
        Some(60)
    } else if c == 'h' {
        Some(3600)
    } else if c == 'd' {
        Some(86400)
    } else {
        None
    }
}

/// The number and the unit of a duration: a unit suffix is taken off, without one it is seconds.
pub open spec fn split_unit(t: Seq<char>) -> (Seq<char>, nat) {
    if t.len() > 0 && unit_of(t.last()) is Some {
        (t.drop_last(), unit_of(t.last())->0)
    } else {
        (t, 1)
    }
}

/// The seconds that a duration like `90s`, `30m`, `2h` or `7d` stands for.
pub fn parse_duration_secs(s: &str) -> (r: Result<u64, String>)
    ensures
        ({
            let t = words::trim(s@);
            let (num, unit) = split_unit(t);
            match decimal::within(decimal::number(words::trim(num)), u64::MAX as nat) {
                Some(n) => if n * unit <= u64::MAX {
                    r matches Ok(v) && v == n * unit
                } else {
                    r matches Err(m) && m@ == "--since duration `"@ + t + "` overflows"@
                },
                None => r matches Err(m) && m@ == "invalid --since duration `"@ + t
                    + "` (try 90s, 30m, 2h, 7d)"@,
            }
        }),
{
    let t = words::trimmed(s);
    let cs = chars_of(t);
    let n: usize = cs.len();
    let mut unit: u64 = 1;
    let mut end: usize = n;
    if n > 0 {
        let c = cs[n - 1];
        if c == 's' {
            end = n - 1;
        } else if c == 'm' {
            unit = 60;
            end = n - 1;
        } else if c == 'h' {
            unit = 3600;
            end = n - 1;
        } else if c == 'd' {
            unit = 86400;
            end = n - 1;
        }
    }
    let num = text_of(cs.as_slice(), 0, end);
    proof {
        if end < n {
            assert(num@ =~= t@.drop_last());
        } else {
            assert(num@ =~= t@);
        }
    }
    match parse_u64(words::trimmed(num.as_str())) {
        None => Err(
            concat3("invalid --since duration `", t, "` (try 90s, 30m, 2h, 7d)"),
        ),
        Some(v) => match v.checked_mul(unit) {
            Some(total) => Ok(total),
            None => Err(concat3("--since duration `", t, "` overflows")),
        },
    }
}

/// What `kennel audit` is asked for.
#[derive(Debug)]
pub struct AuditArgs {
    /// The kennel.
    pub kennel: String,
    /// The resource class, as it was written.
    pub resource: Option<String>,
    /// How far back, as it was written.
    pub since: Option<String>,
    /// Whether each event is shown only once.
    pub novel_only: bool,
    /// Whether to go on with what is appended.
    pub follow: bool,
    /// Whether only the journal command is asked for.
    pub journalctl: bool,
}

/// The command line of `kennel audit`.
pub open spec fn audit_shape() -> args::Shape {
    args::Shape {
        switches: seq!["--novel-only"@, "--follow"@, "--print-journalctl-command"@],
        options: seq!["--resource"@, "--since"@],
        room: 1,
        extra: "only one <name> may be given"@,
    }
}

/// What `kennel audit` is asked for, or what is wrong with its arguments.
pub fn audit_args(list: &[String]) -> (r: Result<AuditArgs, String>)
    ensures
        match args::scanned(text::texts(list@), audit_shape()) {
            Err(e) => r matches Err(m) && m@ == e,
            Ok(ps) => match args::word(ps, 0) {
                None => r matches Err(m) && m@
                    == "usage: kennel audit <name> [--resource CLASS] [--since DUR] [--novel-only] [--follow] [--print-journalctl-command]"@,
                Some(name) => if name.len() == 0 || name.contains('/') || text::find(
                    name,
                    ".."@,
                ) is Some {
                    r matches Err(m) && m@ == "invalid kennel name `"@ + name + "`"@
                } else {
                    let token = args::chosen(ps, "--resource"@);
                    if token is Some && stem_for(token->0) is None {
                        r matches Err(m) && m@ == "unknown --resource `"@ + token->0
                            + "` (net/fs/exec/unix/dbus/priv/lifecycle)"@
                    } else {
                        r matches Ok(a) && a.kennel@ == name && layout::opt(a.resource) == token
                            && layout::opt(a.since) == args::chosen(ps, "--since"@) && a.novel_only
                            == args::given(ps, "--novel-only"@) && a.follow == args::given(
                            ps,
                            "--follow"@,
                        ) && a.journalctl == args::given(ps, "--print-journalctl-command"@)
                    }
                },
            },
        },
{
    let sw: [&str; 3] = ["--novel-only", "--follow", "--print-journalctl-command"];
    let op: [&str; 2] = ["--resource", "--since"];
    proof {
        assert(text::strs(sw@) =~= audit_shape().switches);
        assert(text::strs(op@) =~= audit_shape().options);
    }
    let items = match scan(list, &sw, &op, 1, "only one <name> may be given") {
        Err(e) => {
            return Err(e);
        },
        Ok(items) => items,
    };
    let items = items.as_slice();
    let kennel = match word_at(items, 0) {
        None => {
            return Err(
                "usage: kennel audit <name> [--resource CLASS] [--since DUR] [--novel-only] [--follow] [--print-journalctl-command]".to_owned(),
            );
        },
        Some(w) => w,
    };
    if kennel.as_str().unicode_len() == 0 || has_char(kennel.as_str(), '/') || has_piece(
        kennel.as_str(),
        "..",
    ) {
        return Err(concat3("invalid kennel name `", kennel.as_str(), "`"));
    }
    let resource = last_of(items, "--resource");
    if let Some(token) = &resource {
        if resource_stem(token.as_str()).is_none() {
            return Err(
                concat3(
                    "unknown --resource `",
                    token.as_str(),
                    "` (net/fs/exec/unix/dbus/priv/lifecycle)",
                ),
            );
        }
    }
    Ok(
        AuditArgs {
            kennel,
            resource,
            since: last_of(items, "--since"),
            novel_only: is_given(items, "--novel-only"),
            follow: is_given(items, "--follow"),
            journalctl: is_given(items, "--print-journalctl-command"),
        },
    )
}

/// The journal command that shows the same events.
pub fn journalctl_command(kennel: &str, resource: Option<&str>, since: Option<&str>) -> (r: String)
    ensures
        r@ == "journalctl --user KENNEL_KENNEL="@ + kennel@ + (match resource {
            Some(t) => " KENNEL_RESOURCE="@ + t@,
            None => seq![],
        }) + (match since {
            Some(d) => " --since \""@ + d@ + " ago\""@,
            None => seq![],
        }),
{
    let mut cmd = concat2("journalctl --user KENNEL_KENNEL=", kennel);
    let ghost first = cmd@;
    if let Some(t) = resource {
        cmd = concat2(cmd.as_str(), concat2(" KENNEL_RESOURCE=", t).as_str());
    } else {
        assert(cmd@ + seq![] =~= cmd@);
    }
    let ghost second = cmd@;
    if let Some(d) = since {
        cmd = concat2(cmd.as_str(), concat3(" --since \"", d, " ago\"").as_str());
    } else {
        assert(second + seq![] =~= second);
    }
    cmd
}

/// The time stamp before which events are left out: `secs` before `now`, not before the epoch.
pub fn cutoff(now: u64, secs: u64) -> (r: String)
    ensures
        ({
            let t = if secs > now {
                0
            } else {
                now - secs
            };
            r@ == time::rfc3339(
                if t > i64::MAX {
                    i64::MAX as int
                } else {
                    t
                },
                0,
            )
        }),
{
    let t: u64 = if secs > now {
        0
    } else {
        now - secs
    };
    let s: i64 = if t > i64::MAX as u64 {
        i64::MAX
    } else {
        t as i64
    };
    format_rfc3339_micros(s, 0)
}

/// The directory of a kennel's audit logs: below `state` where it is set, else below `home`.
pub fn audit_dir(state: Option<&str>, home: Option<&str>, kennel: &str) -> (r: String)
    ensures
        r@ == path::joined(
            path::joined(
                match state {
                    Some(s) => s@,
                    None => path::joined(
                        match home {
                            Some(h) => h@,
                            None => "."@,
                        },
                        ".local/state"@,
                    ),
                },
                "kennel"@,
            ),
            kennel@,
        ),
{
    let base = match state {
        Some(s) => s.to_owned(),
        None => join(
            match home {
                Some(h) => h,
                None => ".",
            },
            ".local/state",
        ),
    };
    join(join(base.as_str(), "kennel").as_str(), kennel)
}

/// The stems of the log files that are read.
pub open spec fn audit_stems(token: Option<Seq<char>>) -> Seq<Seq<char>> {
    match token {
        Some(t) => match stem_for(t) {
            Some(s) => seq![s],
            None => seq![],
        },
        None => seq![
            "network"@,
            "filesystem"@,
            "exec"@,
            "unix"@,
            "dbus"@,
            "priv"@,
            "lifecycle"@,
        ],
    }
}

/// The log files that are read: the one of the resource asked for, else all.
pub fn audit_files(dir: &str, resource: Option<&str>) -> (out: Vec<String>)
    ensures
        text::texts(out@) == audit_stems(
            match resource {
                Some(t) => Some(t@),
                None => None,
            },
        ).map_values(|s: Seq<char>| path::joined(dir@, s + ".jsonl"@)),
{
    let mut out: Vec<String> = Vec::new();
    match resource {
        Some(t) => {
            if let Some(s) = resource_stem(t) {
                push_line(&mut out, join(dir, concat2(s, ".jsonl").as_str()));
            }
        },
        None => {
            push_line(&mut out, join(dir, concat2("network", ".jsonl").as_str()));
            push_line(&mut out, join(dir, concat2("filesystem", ".jsonl").as_str()));
            push_line(&mut out, join(dir, concat2("exec", ".jsonl").as_str()));
            push_line(&mut out, join(dir, concat2("unix", ".jsonl").as_str()));
            push_line(&mut out, join(dir, concat2("dbus", ".jsonl").as_str()));
            push_line(&mut out, join(dir, concat2("priv", ".jsonl").as_str()));
            push_line(&mut out, join(dir, concat2("lifecycle", ".jsonl").as_str()));
        },
    }
    assert(text::texts(out@) =~= audit_stems(
        match resource {
            Some(t) => Some(t@),
            None => None,
        },
    ).map_values(|s: Seq<char>| path::joined(dir@, s + ".jsonl"@)));
    out
}

/// Where the time stamp of a log line stands: behind the first `"ts":"`, up to the next quote.
pub open spec fn ts_span(line: Seq<char>) -> Option<(int, int)> {
    match text::find(line, "\"ts\":\""@) {
        None => None,
        Some(i) => {
            let start = i + 6;
            let k = text::until(line.skip(start), '"');
            if start + k < line.len() {
                Some((start, start + k))
            } else {
                None
            }
        },
    }
}

fn find_ts(cs: &[char]) -> (r: Option<(usize, usize)>)
    ensures
        match r {
            Some(p) => ts_span(cs@) == Some((p.0 as int, p.1 as int)) && p.0 <= p.1 <= cs@.len(),
            None => ts_span(cs@) is None,
        },
{
    let lead = chars_of("\"ts\":\"");
    proof {
        reveal_strlit("\"ts\":\"");
        assert(lead@.len() == 6);
    }
    match text::find_text(cs, lead.as_slice()) {
        None => None,
        Some(i) => {
            let n: usize = cs.len();
            assert(i + 6 <= n);
            let start: usize = i + 6;
            let end: usize = text::index_from(cs, start, '"');
            if end < cs.len() {
                Some((start, end))
            } else {
                None
            }
        },
    }
}

/// The time stamp of a log line.
pub fn extract_ts(line: &str) -> (r: Option<String>)
    ensures
        layout::opt(r) == match ts_span(line@) {
            Some((a, b)) => Some(line@.subrange(a, b)),
            None => None,
        },
{
    let cs = chars_of(line);
    match find_ts(cs.as_slice()) {
        Some((a, b)) => Some(text_of(cs.as_slice(), a, b)),
        None => None,
    }
}

/// A log line without its time stamp.
pub open spec fn without_ts(line: Seq<char>) -> Seq<char> {
    match ts_span(line) {
        Some((a, b)) => line.take(a) + line.skip(b),
        None => line,
    }
}

/// What makes a log line novel: all of it but its time stamp.
pub fn novel_key(line: &str) -> (r: String)
    ensures
        r@ == without_ts(line@),
{
    let cs = chars_of(line);
    match find_ts(cs.as_slice()) {
        Some((a, b)) => {
            let head = text_of(cs.as_slice(), 0, a);
            let tail = text_of(cs.as_slice(), b, cs.len());
            proof {
                assert(head@ =~= line@.take(a as int));
                assert(tail@ =~= line@.skip(b as int));
            }
            concat2(head.as_str(), tail.as_str())
        },
        None => line.to_owned(),
    }
}

/// The time stamp of a log line, as text.
pub open spec fn ts_of(line: Seq<char>) -> Option<Seq<char>> {
    match ts_span(line) {
        Some((a, b)) => Some(line.subrange(a, b)),
        None => None,
    }
}

/// What is shown of lines in their order: those not before the cut, and where `novel_only` none
/// that differs from an earlier one in its time stamp alone. With it, the keys seen so far.
pub open spec fn shown(
    lines: Seq<Seq<char>>,
    cut: Option<Seq<char>>,
    novel_only: bool,
    seen: Seq<Seq<char>>,
) -> (Seq<Seq<char>>, Seq<Seq<char>>)
    decreases lines.len(),
{
    if lines.len() == 0 {
        (seq![], seen)
    } else {
        let (front, known) = shown(lines.drop_last(), cut, novel_only, seen);
        let line = lines.last();
        let early = match (cut, ts_of(line)) {
            (Some(c), Some(t)) => order::lex(t, c),
            _ => false,
        };
        if early {
            (front, known)
        } else if novel_only {
            if known.contains(without_ts(line)) {
                (front, known)
            } else {
                (front.push(line), known.push(without_ts(line)))
            }
        } else {
            (front.push(line), known)
        }
    }
}

/// The time stamps of lines, as sorting keys.
pub open spec fn stamps_of(lines: Seq<String>, keys: Seq<Option<String>>) -> bool {
    &&& keys.len() == lines.len()
    &&& forall|i: int| 0 <= i < keys.len() ==> layout::opt(#[trigger] keys[i]) == ts_of(lines[i]@)
}

/// What is shown of a batch of log lines: sorted by time stamp, lines without one first and equal
/// ones in the order in which they were read.
pub fn emit_batch(batch: &[String], cut: Option<&str>, novel_only: bool, seen: &mut Vec<String>) -> (
    out: Vec<String>)
    ensures
        exists|keys: Seq<Option<String>>, p: Seq<usize>|
            {
                &&& stamps_of(batch@, keys)
                &&& #[trigger] order::is_ranking(keys, p)
                &&& ({
                    let r = shown(
                        order::arranged(text::texts(batch@), p),
                        match cut {
                            Some(c) => Some(c@),
                            None => None,
                        },
                        novel_only,
                        text::texts(old(seen)@),
                    );
                    text::texts(out@) == r.0 && text::texts(final(seen)@) == r.1
                })
            },
{
    let ghost c = match cut {
        Some(c) => Some(c@),
        None => None,
    };
    let ghost before = text::texts(seen@);
    let mut keys: Vec<Option<String>> = Vec::new();
    let mut k: usize = 0;
    while k < batch.len()
        invariant
            k <= batch@.len(),
            keys@.len() == k,
            forall|i: int|
                0 <= i < k ==> layout::opt(#[trigger] keys@[i]) == ts_of(batch@[i]@),
        decreases batch@.len() - k,
    {
        keys.push(extract_ts(batch[k].as_str()));
        k = k + 1;
    }
    let p = ranking(keys.as_slice());
    let ghost lines = order::arranged(text::texts(batch@), p@);
    let mut out: Vec<String> = Vec::new();
    let mut i: usize = 0;
    proof {
        assert(lines.take(0) =~= seq![]);
        assert(text::texts(out@) =~= seq![]);
    }
    while i < p.len()
        invariant
            i <= p@.len(),
            keys@.len() == batch@.len(),
            order::is_ranking(keys@, p@),
            lines == order::arranged(text::texts(batch@), p@),
            c == match cut {
                Some(c) => Some(c@),
                None => None,
            },
            text::texts(out@) == shown(lines.take(i as int), c, novel_only, before).0,
            text::texts(seen@) == shown(lines.take(i as int), c, novel_only, before).1,
        decreases p@.len() - i,
    {
        let line = batch[p[i]].as_str();
        proof {
            assert(lines.take(i + 1).drop_last() =~= lines.take(i as int));
            assert(lines.take(i + 1).last() == line@);
        }
        let early = match (cut, extract_ts(line)) {
            (Some(c), Some(t)) => precedes(t.as_str(), c),
            _ => false,
        };
        if !early {
            if novel_only {
                let key = novel_key(line);
                if !text::has_text(seen.as_slice(), key.as_str()) {
                    push_line(seen, key);
                    push_line(&mut out, line.to_owned());
                }
            } else {
                push_line(&mut out, line.to_owned());
            }
        }
        i = i + 1;
    }
    proof {
        assert(lines.take(lines.len() as int) =~= lines);
        assert(stamps_of(batch@, keys@));
    }
    out
}

/// Where to start reading a log of `len` bytes of which `offset` were read: at the offset, or at
/// the front where the log has become shorter.
pub fn resume_at(len: u64, offset: u64) -> (r: u64)
    ensures
        r == if len < offset {
            0
        } else {
            offset
        },
{
    if len < offset {
        0
    } else {
        offset
    }
}

/// Nothing is shown twice: where only novel lines are asked for, no two lines that are shown agree
/// in all but their time stamps.
pub proof fn law_novel_lines_differ(
    lines: Seq<Seq<char>>,
    cut: Option<Seq<char>>,
    seen: Seq<Seq<char>>,
)
    ensures
        ({
            let (out, known) = shown(lines, cut, true, seen);
            &&& known.len() == seen.len() + out.len()
            &&& known.take(seen.len() as int) == seen
            &&& forall|i: int|
                0 <= i < out.len() ==> known[seen.len() + i] == without_ts(#[trigger] out[i])
            &&& forall|i: int, j: int|
                0 <= i < j < out.len() ==> without_ts(#[trigger] out[i]) != without_ts(
                    #[trigger] out[j],
                )
        }),
    decreases lines.len(),
{
    if lines.len() > 0 {
        law_novel_lines_differ(lines.drop_last(), cut, seen);
        let (front, known) = shown(lines.drop_last(), cut, true, seen);
        let (out, after) = shown(lines, cut, true, seen);
        if out != front {
            let key = without_ts(lines.last());
            assert(out == front.push(lines.last()));
            assert(after == known.push(key));
            assert(after.take(seen.len() as int) =~= seen);
            assert forall|i: int, j: int| 0 <= i < j < out.len() implies without_ts(
                #[trigger] out[i],
            ) != without_ts(#[trigger] out[j]) by {
                if j == front.len() {
                    assert(without_ts(front[i]) == known[seen.len() + i]);
                    assert(known.contains(known[seen.len() + i]));
                } else {
                    assert(out[i] == front[i] && out[j] == front[j]);
                }
            }
            assert forall|i: int| 0 <= i < out.len() implies after[seen.len() + i] == without_ts(
                #[trigger] out[i],
            ) by {
                if i < front.len() {
                    assert(out[i] == front[i]);
                }
            }
        }
    } else {
        assert(seen.take(seen.len() as int) =~= seen);
    }
}

// ---- command lines --------------------------------------------------------------

/// A lone word is what `kennel audit` works on, with no flag set and no option given.
pub proof fn law_audit_takes_a_lone_word(
    list: &[String],
    w: Seq<char>,
    r: Result<AuditArgs, String>,
)
    requires
        call_ensures(audit_args, (list,), r),
        text::texts(list@) == seq![w],
        !"--"@.is_prefix_of(w),
        w.len() > 0,
        !w.contains('/'),
        text::find(w, ".."@) is None,
    ensures
        r matches Ok(x) && x.kennel@ == w && x.resource is None && x.since is None && !x.novel_only && !x.follow && !x.journalctl,
{
    let shape = audit_shape();
    reveal_strlit("--");
    reveal_strlit("--novel-only");
    reveal_strlit("--follow");
    reveal_strlit("--print-journalctl-command");
    reveal_strlit("--resource");
    reveal_strlit("--since");
    assert("--"@.is_prefix_of("--novel-only"@)) by {
        assert("--"@ =~= "--novel-only"@.subrange(0, 2));
    }
    assert("--"@.is_prefix_of("--follow"@)) by {
        assert("--"@ =~= "--follow"@.subrange(0, 2));
    }
    assert("--"@.is_prefix_of("--print-journalctl-command"@)) by {
        assert("--"@ =~= "--print-journalctl-command"@.subrange(0, 2));
    }
    assert("--"@.is_prefix_of("--resource"@)) by {
        assert("--"@ =~= "--resource"@.subrange(0, 2));
    }
    assert("--"@.is_prefix_of("--since"@)) by {
        assert("--"@ =~= "--since"@.subrange(0, 2));
    }
    args::lemma_scan_word(w, shape);
    let ps = seq![args::Part::Word(w)];
    assert(args::words(ps)[0] == w);
    assert(args::values(ps, "--resource"@).len() == 0);
    assert(args::values(ps, "--since"@).len() == 0);
    assert(!args::given(ps, "--novel-only"@));
    assert(!args::given(ps, "--follow"@));
    assert(!args::given(ps, "--print-journalctl-command"@));
}

/// A flag more on the command line of `kennel audit` sets that flag, and all else stays as it was.
pub proof fn law_audit_takes_a_flag(
    a: &[String],
    b: &[String],
    x: AuditArgs,
    y: AuditArgs,
    flag: Seq<char>,
)
    requires
        call_ensures(audit_args, (a,), Ok::<AuditArgs, String>(x)),
        call_ensures(audit_args, (b,), Ok::<AuditArgs, String>(y)),
        text::texts(b@) == text::texts(a@).push(flag),
        "--"@.is_prefix_of(flag),
    ensures
        y.kennel@ == x.kennel@,
        layout::opt(y.resource) == layout::opt(x.resource),
        layout::opt(y.since) == layout::opt(x.since),
        y.novel_only == (x.novel_only || flag == "--novel-only"@),
        y.follow == (x.follow || flag == "--follow"@),
        y.journalctl == (x.journalctl || flag == "--print-journalctl-command"@),
{
    args::lemma_scan_switch(text::texts(a@), audit_shape(), flag);
    let ps = args::scanned(text::texts(a@), audit_shape())->Ok_0;
    args::lemma_part_push(ps, args::Part::Switch(flag), "--novel-only"@);
    args::lemma_part_push(ps, args::Part::Switch(flag), "--follow"@);
    args::lemma_part_push(ps, args::Part::Switch(flag), "--print-journalctl-command"@);
    args::lemma_part_push(ps, args::Part::Switch(flag), "--resource"@);
    args::lemma_part_push(ps, args::Part::Switch(flag), "--since"@);
}

/// An option more on the command line of `kennel audit` gives that option its value, and all else stays as
/// it was.
pub proof fn law_audit_takes_an_option(
    a: &[String],
    b: &[String],
    x: AuditArgs,
    y: AuditArgs,
    o: Seq<char>,
    v: Seq<char>,
)
    requires
        call_ensures(audit_args, (a,), Ok::<AuditArgs, String>(x)),
        call_ensures(audit_args, (b,), Ok::<AuditArgs, String>(y)),
        text::texts(b@) == text::texts(a@).push(o).push(v),
        o == "--resource"@ || o == "--since"@,
    ensures
        y.kennel@ == x.kennel@,
        layout::opt(y.resource) == if o == "--resource"@ {
            Some(v)
        } else {
            layout::opt(x.resource)
        },
        layout::opt(y.since) == if o == "--since"@ {
            Some(v)
        } else {
            layout::opt(x.since)
        },
        y.novel_only == x.novel_only,
        y.follow == x.follow,
        y.journalctl == x.journalctl,
{
    let shape = audit_shape();
    reveal_strlit("--novel-only");
    reveal_strlit("--follow");
    reveal_strlit("--print-journalctl-command");
    reveal_strlit("--resource");
    reveal_strlit("--since");
    assert("--resource"@.len() != "--novel-only"@.len());
    assert("--resource"@.len() != "--follow"@.len());
    assert("--resource"@.len() != "--print-journalctl-command"@.len());
    assert("--since"@.len() != "--novel-only"@.len());
    assert("--since"@.len() != "--follow"@.len());
    assert("--since"@.len() != "--print-journalctl-command"@.len());
    assert(shape.options[0] == "--resource"@);
    assert(shape.options[1] == "--since"@);
    assert(shape.options.contains(o));
    assert(!shape.switches.contains(o));
    args::lemma_scan_option(text::texts(a@), shape, o, v);
    let ps = args::scanned(text::texts(a@), shape)->Ok_0;
    args::lemma_part_push(ps, args::Part::Value(o, v), "--novel-only"@);
    args::lemma_part_push(ps, args::Part::Value(o, v), "--follow"@);
    args::lemma_part_push(ps, args::Part::Value(o, v), "--print-journalctl-command"@);
    args::lemma_part_push(ps, args::Part::Value(o, v), "--resource"@);
    args::lemma_part_push(ps, args::Part::Value(o, v), "--since"@);
}

// ---- what holds of the whole ----------------------------------------------------

/// The file that `kennel audit` reads for a class is the one that the class is written to, and each
/// class is known by its token.
pub proof fn law_audit_reads_what_was_written(
    class: crate::audit::event::Resource,
    token: &'static str,
    file: &'static str,
    dir: &str,
    out: Vec<String>,
)
    requires
        call_ensures(crate::audit::event::Resource::token, (class,), token),
        call_ensures(crate::audit::event::Resource::file_stem, (class,), file),
        call_ensures(audit_files, (dir, Some(token)), out),
    ensures
        text::texts(out@) == seq![path::joined(dir@, file@ + ".jsonl"@)],
{
    reveal_strlit("net");
    reveal_strlit("fs");
    reveal_strlit("exec");
    reveal_strlit("unix");
    reveal_strlit("dbus");
    reveal_strlit("priv");
    reveal_strlit("lifecycle");
    let t = token@;
    assert("net"@.len() == 3 && "fs"@.len() == 2 && "exec"@.len() == 4 && "unix"@.len() == 4
        && "dbus"@.len() == 4 && "priv"@.len() == 4 && "lifecycle"@.len() == 9);
    assert("exec"@[0] == 'e' && "unix"@[0] == 'u' && "dbus"@[0] == 'd' && "priv"@[0] == 'p');
    assert(stem_for(t) == Some(file@));
    assert(text::texts(out@) =~= seq![path::joined(dir@, file@ + ".jsonl"@)]);
}

/// Without a class, the files of all classes are read.
pub proof fn law_audit_reads_all_classes(
    class: crate::audit::event::Resource,
    file: &'static str,
    dir: &str,
    none: Option<&str>,
    out: Vec<String>,
)
    requires
        call_ensures(crate::audit::event::Resource::file_stem, (class,), file),
        call_ensures(audit_files, (dir, none), out),
        none is None,
    ensures
        text::texts(out@).contains(path::joined(dir@, file@ + ".jsonl"@)),
{
    let stems = audit_stems(None);
    let i: int = match class {
        crate::audit::event::Resource::Net => 0,
        crate::audit::event::Resource::Fs => 1,
        crate::audit::event::Resource::Exec => 2,
        crate::audit::event::Resource::Unix => 3,
        crate::audit::event::Resource::Dbus => 4,
        crate::audit::event::Resource::Priv => 5,
        crate::audit::event::Resource::Lifecycle => 6,
    };
    assert(stems[i] == file@);
    assert(text::texts(out@)[i] == path::joined(dir@, file@ + ".jsonl"@));
}

proof fn lemma_no_white(s: Seq<char>)
    requires
        s.len() > 0,
        !text::is_white(s[0]),
        !text::is_white(s.last()),
    ensures
        words::trim(s) == s,
{
    assert(words::trim_front(s) == s);
    assert(words::trim_back(s) == s);
}

/// A number and a unit are so many seconds: a minute has sixty, an hour sixty minutes and a day
/// twenty-four hours; a number alone is seconds.
pub proof fn law_durations_count_seconds(s: &str, r: Result<u64, String>, n: nat, unit: char)
    requires
        call_ensures(parse_duration_secs, (s,), r),
        unit == 's' || unit == 'm' || unit == 'h' || unit == 'd' || unit == ' ',
        s@ == decimal::dec(n) + (if unit == ' ' {
            seq![]
        } else {
            seq![unit]
        }),
        n <= u64::MAX,
    ensures
        unit == 's' || unit == ' ' ==> r == Ok::<u64, String>(n as u64),
        unit == 'm' && n * 60 <= u64::MAX ==> r == Ok::<u64, String>((n * 60) as u64),
        unit == 'h' && n * 60 * 60 <= u64::MAX ==> r == Ok::<u64, String>((n * 60 * 60) as u64),
        unit == 'd' && n * 24 * 60 * 60 <= u64::MAX ==> r == Ok::<u64, String>(
            (n * 24 * 60 * 60) as u64,
        ),
        unit == 'd' && n * 24 * 60 * 60 > u64::MAX ==> r is Err,
{
    let d = decimal::dec(n);
    decimal::lemma_dec_digits(n);
    decimal::law_number_reads_dec(n);
    assert(text::is_dig(d[0]));
    assert(text::is_dig(d[d.len() - 1]));
    lemma_no_white(d);
    if unit == ' ' {
        assert(s@ =~= d);
        assert(unit_of(d.last()) is None);
        assert(split_unit(d) == (d, 1nat));
        assert(n * 1 == n);
    } else {
        assert(s@ =~= d.push(unit));
        assert(s@.drop_last() =~= d);
        lemma_no_white(s@);
    }
    assert(n * 24 * 60 * 60 == n * 86400) by (nonlinear_arith);
    assert(n * 60 * 60 == n * 3600) by (nonlinear_arith);
}

/// A period reaches just so far back: a line of a time sorts before the limit where it is older than
/// the period, and not otherwise.
pub proof fn law_period_reaches_so_far_back(now: u64, secs: u64, r: String, t: int, micros: int)
    requires
        call_ensures(cutoff, (now, secs), r),
        secs <= now <= 253_402_300_799,
        0 <= t <= 253_402_300_799,
        0 <= micros <= 999_999,
    ensures
        order::lex(time::rfc3339(t, micros), r@) <==> t < now - secs,
{
    let c = now - secs;
    time::law_timestamps_sort(t, micros, c, 0);
    time::law_timestamps_sort(c, 0, t, micros);
    order::law_text_order(time::rfc3339(t, micros), r@, r@);
    if t == c && micros == 0 {
        order::law_text_order(r@, r@, r@);
    }
}

/// The command that is printed asks for the kennel, and for the class and the period where they are
/// given.
pub proof fn law_journal_is_asked_for_the_kennel(
    kennel: &str,
    resource: Option<&str>,
    since: Option<&str>,
    r: String,
)
    requires
        call_ensures(journalctl_command, (kennel, resource, since), r),
    ensures
        text::holds(r@, "KENNEL_KENNEL="@ + kennel@),
        resource matches Some(t) ==> text::holds(r@, "KENNEL_RESOURCE="@ + t@),
        since matches Some(d) ==> text::holds(r@, "--since \""@ + d@ + " ago\""@),
{
    reveal_strlit("journalctl --user KENNEL_KENNEL=");
    reveal_strlit("KENNEL_KENNEL=");
    reveal_strlit(" KENNEL_RESOURCE=");
    reveal_strlit("KENNEL_RESOURCE=");
    reveal_strlit(" --since \"");
    reveal_strlit("--since \"");
    let lead = "journalctl --user KENNEL_KENNEL="@;
    let l0 = lead.take(lead.len() - "KENNEL_KENNEL="@.len());
    let p: Seq<char> = match resource {
        Some(t) => " KENNEL_RESOURCE="@ + t@,
        None => seq![],
    };
    let q: Seq<char> = match since {
        Some(d) => " --since \""@ + d@ + " ago\""@,
        None => seq![],
    };
    let k = "KENNEL_KENNEL="@ + kennel@;
    assert(r@ =~= l0 + k + (p + q));
    text::lemma_holds(l0, k, p + q);
    if let Some(t) = resource {
        let w = "KENNEL_RESOURCE="@ + t@;
        let front = lead + kennel@ + seq![' '];
        assert(r@ =~= front + w + q);
        text::lemma_holds(front, w, q);
    }
    if let Some(d) = since {
        let w = "--since \""@ + d@ + " ago\""@;
        let front = lead + kennel@ + p + seq![' '];
        assert(r@ =~= front + w + seq![]);
        text::lemma_holds(front, w, seq![]);
    }
}

/// Whether a line is older than the limit.
pub open spec fn is_early(line: Seq<char>, cut: Option<Seq<char>>) -> bool {
    match (cut, ts_of(line)) {
        (Some(c), Some(t)) => order::lex(t, c),
        _ => false,
    }
}

proof fn lemma_shown(
    lines: Seq<Seq<char>>,
    cut: Option<Seq<char>>,
    novel_only: bool,
    seen: Seq<Seq<char>>,
    x: Seq<char>,
)
    ensures
        ({
            let (out, known) = shown(lines, cut, novel_only, seen);
            &&& out.contains(x) ==> lines.contains(x) && !is_early(x, cut)
            &&& !novel_only ==> known == seen
            &&& !novel_only && lines.contains(x) && !is_early(x, cut) ==> out.contains(x)
            &&& novel_only && lines.contains(x) && !is_early(x, cut) ==> known.contains(without_ts(x))
            &&& seen.contains(x) ==> known.contains(x)
        }),
    decreases lines.len(),
{
    if lines.len() > 0 {
        let front = lines.drop_last();
        lemma_shown(front, cut, novel_only, seen, x);
        let (o, k) = shown(front, cut, novel_only, seen);
        let (out, known) = shown(lines, cut, novel_only, seen);
        let last = lines.last();
        if front.contains(x) {
            let i = choose|i: int| 0 <= i < front.len() && front[i] == x;
            assert(lines[i] == x);
        }
        if lines.contains(x) && x != last {
            let i = choose|i: int| 0 <= i < lines.len() && lines[i] == x;
            assert(front[i] == x);
        }
        if x == last {
            assert(lines[lines.len() - 1] == x);
        }
        if o.contains(x) && out.len() == o.len() + 1 {
            let i = choose|i: int| 0 <= i < o.len() && o[i] == x;
            assert(out[i] == x);
        }
        if out.contains(x) && out.len() == o.len() + 1 {
            let i = choose|i: int| 0 <= i < out.len() && out[i] == x;
            if i < o.len() {
                assert(o[i] == x);
            }
        }
        if out.len() == o.len() + 1 {
            assert(out[out.len() - 1] == last);
        }
        if known.len() == k.len() + 1 {
            assert(known[known.len() - 1] == without_ts(last));
            let w = without_ts(x);
            if k.contains(w) {
                let i = choose|i: int| 0 <= i < k.len() && k[i] == w;
                assert(known[i] == w);
            }
            if k.contains(x) {
                let i = choose|i: int| 0 <= i < k.len() && k[i] == x;
                assert(known[i] == x);
            }
        }
    }
}

/// What is shown is what was read, within the period: every line of it, or where only new ones are
/// wanted, at least one that says the same; nothing is shown that was not read.
pub proof fn law_lines_within_the_period_are_shown(
    batch: &[String],
    cut: Option<&str>,
    novel_only: bool,
    seen: &mut Vec<String>,
    out: Vec<String>,
    x: Seq<char>,
)
    requires
        call_ensures(emit_batch, (batch, cut, novel_only, seen), out),
        batch@.len() <= usize::MAX,
    ensures
        ({
            let limit = match cut {
                Some(c) => Some(c@),
                None => None,
            };
            let read = text::texts(batch@).contains(x);
            &&& text::texts(out@).contains(x) ==> read && !is_early(x, limit)
            &&& !novel_only && read && !is_early(x, limit) ==> text::texts(out@).contains(x)
            &&& novel_only && read && !is_early(x, limit) ==> text::texts(final(seen)@).contains(
                without_ts(x),
            )
            &&& !novel_only ==> text::texts(final(seen)@) == text::texts(old(seen)@)
        }),
{
    broadcast use vstd::seq_lib::group_to_multiset_ensures;

    let limit = match cut {
        Some(c) => Some(c@),
        None => None,
    };
    let (keys, p) = choose|keys: Seq<Option<String>>, p: Seq<usize>|
        {
            &&& stamps_of(batch@, keys)
            &&& #[trigger] order::is_ranking(keys, p)
            &&& ({
                let r = shown(
                    order::arranged(text::texts(batch@), p),
                    limit,
                    novel_only,
                    text::texts(old(seen)@),
                );
                text::texts(out@) == r.0 && text::texts(final(seen)@) == r.1
            })
        };
    let all = text::texts(batch@);
    assert(all.len() == batch@.len());
    let lines = order::arranged(all, p);
    order::law_arranging_keeps_items(all, p);
    assert(lines.contains(x) <==> all.contains(x)) by {
        assert(lines.contains(x) <==> lines.to_multiset().count(x) > 0);
        assert(all.contains(x) <==> all.to_multiset().count(x) > 0);
    }
    lemma_shown(lines, limit, novel_only, text::texts(old(seen)@), x);
}

/// A file that shrank is read from its start, and any other from where reading stopped.
pub proof fn law_reading_resumes_where_it_stopped(len: u64, offset: u64, r: u64)
    requires
        call_ensures(resume_at, (len, offset), r),
    ensures
        r <= len,
        offset <= len ==> r == offset,
        offset > len ==> r == 0,
{
}

/// The builds are called the same just where nothing is said of them.
pub proof fn law_match_is_said_of_equal_builds(note: &Option<String>, r: String)
    requires
        call_ensures(skew_line, (note,), r),
    ensures
        note matches Some(n) ==> text::holds(r@, n@),
        note is None ==> text::holds(r@, "none"@),
{
    if let Some(n) = note {
        text::lemma_holds("skew           : "@, n@, seq![]);
        assert(r@ =~= "skew           : "@ + n@ + seq![]);
    } else {
        reveal_strlit("none");
        reveal_strlit("none — CLI and daemon builds match");
        let t = "none — CLI and daemon builds match"@;
        assert(t =~= "none"@ + t.skip(4));
        assert(r@ =~= "skew           : "@ + "none"@ + t.skip(4));
        text::lemma_holds("skew           : "@, "none"@, t.skip(4));
    }
}

/// The time of a line is what stands quoted behind its key, and lines that differ in it alone have the
/// same key.
pub proof fn law_time_is_read_from_the_line(
    line: &str,
    r: Option<String>,
    key: String,
    a: Seq<char>,
    t: Seq<char>,
    b: Seq<char>,
)
    requires
        call_ensures(extract_ts, (line,), r),
        call_ensures(novel_key, (line,), key),
        line@ == a + "\"ts\":\""@ + t + seq!['"'] + b,
        text::find(line@, "\"ts\":\""@) == Some(a.len() as int),
        !t.contains('"'),
    ensures
        r matches Some(x) && x@ == t,
        key@ == a + "\"ts\":\""@ + seq!['"'] + b,
{
    reveal_strlit("\"ts\":\"");
    let k = "\"ts\":\""@;
    let start = a.len() as int + 6;
    let rest = line@.skip(start);
    assert(rest =~= t + seq!['"'] + b);
    assert forall|j: int| 0 <= j < t.len() implies rest[j] != '"' by {
        assert(rest[j] == t[j]);
        assert(t.contains(t[j]));
    }
    assert(rest[t.len() as int] == '"');
    text::lemma_until_is(rest, '"', t.len() as int);
    assert(line@.subrange(start, start + t.len()) =~= t);
    assert(line@.take(start) =~= a + k);
    assert(line@.skip(start + t.len()) =~= seq!['"'] + b);
    assert(key@ =~= a + k + seq!['"'] + b);
}

/// The records of a kennel are in a directory of its own, in the state directory that is named, and
/// else in the home directory.
pub proof fn law_records_are_in_the_state_directory(
    state: Option<&str>,
    home: Option<&str>,
    kennel: &str,
    r: String,
)
    requires
        call_ensures(audit_dir, (state, home, kennel), r),
        kennel@.len() > 2,
        !kennel@.contains('/'),
    ensures
        path::file_name_of(r@) == Some(kennel@),
        state matches Some(s) ==> s@.is_prefix_of(r@),
        state is None ==> (home matches Some(h) ==> h@.is_prefix_of(r@)),
{
    reveal_strlit("kennel");
    reveal_strlit(".local/state");
    reveal_strlit(".");
    let base = match state {
        Some(s) => s@,
        None => path::joined(
            match home {
                Some(h) => h@,
                None => "."@,
            },
            ".local/state"@,
        ),
    };
    let d = path::joined(base, "kennel"@);
    path::law_join_file_name(d, kennel@);
    if path::rooted(kennel@) {
        assert(kennel@[0] == '/');
    }
    assert("kennel"@[0] == 'k' && ".local/state"@[0] == '.');
    if let Some(s) = state {
        assert(r@.subrange(0, s@.len() as int) =~= s@);
    } else if let Some(h) = home {
        assert(r@.subrange(0, h@.len() as int) =~= h@);
    }
}

/// A helper that is missing is called absent, each for itself.
pub proof fn law_missing_helpers_are_told(
    path: &str,
    factory: bool,
    mounts: bool,
    net: bool,
    bpf: bool,
    r: (String, String),
)
    requires
        call_ensures(report_privhelper, (path, factory, mounts, net, bpf), r),
    ensures
        ("privhelper     : present"@).is_prefix_of(r.0@) <==> factory,
        text::holds(r.0@, path@),
{
    reveal_strlit("privhelper     : present");
    reveal_strlit("privhelper     : ");
    reveal_strlit("present");
    reveal_strlit("ABSENT");
    let lead = "privhelper     : "@;
    let p = "privhelper     : present"@;
    assert(p =~= lead + "present"@);
    let front = lead + presence(factory) + " ("@;
    text::lemma_holds(front, path@, ")"@);
    if factory {
        assert(r.0@.subrange(0, p.len() as int) =~= p);
    } else {
        assert(r.0@[17] == 'A');
        if p.is_prefix_of(r.0@) {
            assert(r.0@.subrange(0, p.len() as int)[17] == p[17]);
        }
    }
}

} // verus!
