//! Which sinks a writer is assembled from.

use crate::text::same;
use crate::words;
use crate::words::trimmed;
use vstd::prelude::*;
use vstd::string::*;

verus! {

/// A sink to activate.
#[derive(Clone, Copy, Debug, PartialEq, Eq, Structural)]
pub enum SinkKind {
    /// Class files under the state directory. The default.
    File,
    /// Lines on stdout.
    Stdout,
    /// RFC 5424 syslog.
    Syslog,
    /// systemd-journald.
    Journald,
}

impl SinkKind {
    /// The token of a sink.
    pub open spec fn token_text(self) -> Seq<char> {
        match self {
            SinkKind::File => "file"@,
            SinkKind::Stdout => "stdout"@,
            SinkKind::Syslog => "syslog"@,
            SinkKind::Journald => "journald"@,
        }
    }

    /// The sink that a token names.
    pub fn parse(token: &str) -> (r: Option<SinkKind>)
        ensures
            match r {
                Some(k) => token@ == k.token_text(),
                None => forall|other: SinkKind| token@ != #[trigger] other.token_text(),
            },
    {
        if same(token, "file") {
            Some(SinkKind::File)
        } else if same(token, "stdout") {
            Some(SinkKind::Stdout)
        } else if same(token, "syslog") {
            Some(SinkKind::Syslog)
        } else if same(token, "journald") {
            Some(SinkKind::Journald)
        } else {
            None
        }
    }
}

/// Two sinks never share a token, so a token names at most one.
pub proof fn law_sink_tokens_distinct(a: SinkKind, b: SinkKind)
    ensures
        a.token_text() == b.token_text() ==> a == b,
{
    reveal_strlit("file");
    reveal_strlit("stdout");
    reveal_strlit("syslog");
    reveal_strlit("journald");
    if a.token_text() == b.token_text() {
        assert(a.token_text()[1] == b.token_text()[1]);
    }
}

/// How to build the sink set.
#[derive(Debug)]
pub struct SinkConfig {
    /// The active sinks; none means the file sink.
    pub kinds: Vec<SinkKind>,
    /// The state directory of the file sink.
    pub dir: String,
    /// The size above which a class file is rotated.
    pub rotate_at_bytes: Option<u64>,
    /// The age from which a rotated file is compressed.
    pub compress_after_seconds: Option<u64>,
    /// The number of rotated files kept per class.
    pub retain_count: Option<usize>,
    /// The syslog facility name.
    pub syslog_facility: Option<String>,
}

impl SinkConfig {
    /// The sinks to construct, in order: those configured, or the file sink.
    pub fn selected(&self) -> (out: Vec<SinkKind>)
        ensures
            out@ == if self.kinds@.len() == 0 {
                seq![SinkKind::File]
            } else {
                self.kinds@
            },
    {
        let mut out: Vec<SinkKind> = Vec::new();
        if self.kinds.len() == 0 {
            out.push(SinkKind::File);
            assert(out@ =~= seq![SinkKind::File]);
            return out;
        }
        let mut i: usize = 0;
        while i < self.kinds.len()
            invariant
                i <= self.kinds@.len(),
                out@ == self.kinds@.take(i as int),
            decreases self.kinds@.len() - i,
        {
            out.push(self.kinds[i]);
            assert(out@ =~= self.kinds@.take(i + 1));
            i = i + 1;
        }
        assert(self.kinds@.take(self.kinds@.len() as int) =~= self.kinds@);
        out
    }
}

/// The host name for the envelope, from what the kernel's file holds; `localhost` where it could
/// not be read.
pub fn hostname(read: Option<&str>) -> (r: String)
    ensures
        r@ == match read {
            Some(s) => words::trim(s@),
            None => "localhost"@,
        },
{
    match read {
        Some(s) => trimmed(s).to_owned(),
        None => "localhost".to_owned(),
    }
}

/// The code of an RFC 5424 facility; `user` for a name that is not one of the others.
pub open spec fn facility(name: Seq<char>) -> u8 {
    if name == "kern"@ {
        0
    } else if name == "mail"@ {
        2
    } else if name == "daemon"@ {
        3
    } else if name == "auth"@ {
        4
    } else if name == "syslog"@ {
        5
    } else if name == "lpr"@ {
        6
    } else if name == "news"@ {
        7
    } else if name == "uucp"@ {
        8
    } else if name == "cron"@ {
        9
    } else if name == "authpriv"@ {
        10
    } else if name == "ftp"@ {
        11
    } else if name == "local0"@ {
        16
    } else if name == "local1"@ {
        17
    } else if name == "local2"@ {
        18
    } else if name == "local3"@ {
        19
    } else if name == "local4"@ {
        20
    } else if name == "local5"@ {
        21
    } else if name == "local6"@ {
        22
    } else if name == "local7"@ {
        23
    } else {
        1
    }
}

/// The code of an RFC 5424 facility name; `user` by default.
pub fn facility_code(name: Option<&str>) -> (r: u8)
    ensures
        r == match name {
            Some(n) => facility(n@),
            None => 1,
        },
{
    let n = match name {
        Some(n) => n,
        None => {
            return 1;
        },
    };
    if same(n, "kern") {
        0
    } else if same(n, "mail") {
        2
    } else if same(n, "daemon") {
        3
    } else if same(n, "auth") {
        4
    } else if same(n, "syslog") {
        5
    } else if same(n, "lpr") {
        6
    } else if same(n, "news") {
        7
    } else if same(n, "uucp") {
        8
    } else if same(n, "cron") {
        9
    } else if same(n, "authpriv") {
        10
    } else if same(n, "ftp") {
        11
    } else if same(n, "local0") {
        16
    } else if same(n, "local1") {
        17
    } else if same(n, "local2") {
        18
    } else if same(n, "local3") {
        19
    } else if same(n, "local4") {
        20
    } else if same(n, "local5") {
        21
    } else if same(n, "local6") {
        22
    } else if same(n, "local7") {
        23
    } else {
        1
    }
}

// ---- what holds of the whole ----------------------------------------------------

/// A sink is chosen by its own token.
pub proof fn law_sinks_are_chosen_by_token(kind: SinkKind, token: &str, r: Option<SinkKind>)
    requires
        call_ensures(SinkKind::parse, (token,), r),
        token@ == kind.token_text(),
    ensures
        r == Some(kind),
{
    if let Some(k) = r {
        law_sink_tokens_distinct(k, kind);
    } else {
        assert(token@ == kind.token_text());
    }
}

/// What is chosen is written to, and the files are where nothing is.
pub proof fn law_chosen_sinks_are_used(config: &SinkConfig, out: Vec<SinkKind>, kind: SinkKind)
    requires
        call_ensures(SinkConfig::selected, (config,), out),
    ensures
        config.kinds@.contains(kind) ==> out@.contains(kind),
        config.kinds@.len() > 0 && out@.contains(kind) ==> config.kinds@.contains(kind),
        config.kinds@.len() == 0 ==> out@ == seq![SinkKind::File],
{
}

/// Each facility has a code of its own, and what is none is a user's.
pub proof fn law_facilities_have_their_codes(a: &str, b: &str, x: u8, y: u8)
    requires
        call_ensures(facility_code, (Some(a),), x),
        call_ensures(facility_code, (Some(b),), y),
    ensures
        x == y && x != 1 ==> a@ == b@,
        x < 24,
{
}

/// The host is what was read, without the space around it.
pub proof fn law_host_is_what_was_read(read: Option<&str>, r: String)
    requires
        call_ensures(hostname, (read,), r),
    ensures
        read matches Some(s) ==> (s@ == words::trim(s@) ==> r@ == s@),
        read is None ==> r@ == "localhost"@,
{
}

} // verus!
