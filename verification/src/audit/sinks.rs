//! What the file, stdout and syslog sinks decide and encode before any I/O.

use super::event::Resource;
use super::render;
use super::render::{scalar_text, Record, Rendered};
use super::time::Clock;
use super::writer::{SinkError, MAX_EVENT_BYTES};
use crate::decimal;
use crate::decimal::{dec_text, parse_i64, push_dec, signed_text};
use crate::order;
use crate::order::ranking;
use crate::path;
use crate::text;
use crate::text::{
    char_width, chars_of, concat2, concat3, same, size_of_text, strip_prefix, strip_suffix, text_of,
};
use vstd::prelude::*;
use vstd::string::*;

verus! {

// ---- errors --------------------------------------------------------------------

/// The error for an event that is too long to be written in one piece.
pub fn oversize(sink: &'static str, len: usize) -> (r: SinkError)
    ensures
        r.sink@ == sink@,
        r.message@ == "event of "@ + decimal::dec(len as nat)
            + " bytes exceeds the 4096-byte atomic limit"@,
{
    let n = dec_text(len as u64);
    SinkError {
        sink,
        message: concat3("event of ", n.as_str(), " bytes exceeds the 4096-byte atomic limit"),
    }
}

/// The error for a failed system call: what was being done, and what the system said.
pub fn io_err(sink: &'static str, context: &str, err: &str) -> (r: SinkError)
    ensures
        r.sink@ == sink@,
        r.message@ == context@ + ": "@ + err@,
{
    SinkError { sink, message: concat3(context, ": ", err) }
}

/// The line that a line-oriented sink writes for a record: its JSON and a line feed, refused when
/// it is longer than a single atomic write.
pub fn framed(sink: &'static str, record: &Record) -> (r: Result<String, SinkError>)
    ensures
        match r {
            Ok(line) => line@ == record.line().push('\n') && text::byte_len(line@)
                <= MAX_EVENT_BYTES,
            Err(e) => {
                &&& text::byte_len(record.line().push('\n')) > MAX_EVENT_BYTES
                &&& e.sink@ == sink@
                &&& e.message@ == "event of "@ + decimal::dec(
                    text::byte_len(record.line().push('\n')),
                ) + " bytes exceeds the 4096-byte atomic limit"@
            },
        },
{
    let mut line = record.to_jsonl();
    line.push('\n');
    let len = size_of_text(line.as_str());
    if len > MAX_EVENT_BYTES {
        Err(oversize(sink, len))
    } else {
        Ok(line)
    }
}

// ---- the file sink -------------------------------------------------------------

/// The default sink: one append-only JSON Lines file per class, under a directory of the kennel.
///
/// A class file is rotated once it would exceed `rotate_at_bytes`; a rotated file is compressed
/// once it is `compress_after_seconds` old; at most `retain_count` rotated files are kept per
/// class. `None` switches the behaviour off.
pub struct FileSink<C: Clock> {
    /// The directory of the class files.
    pub dir: String,
    /// The size above which a class file is rotated.
    pub rotate_at_bytes: Option<u64>,
    /// The age from which a rotated file is compressed.
    pub compress_after_seconds: Option<u64>,
    /// The number of rotated files kept per class.
    pub retain_count: Option<usize>,
    /// The clock for the rotation suffix.
    pub clock: C,
}

/// The name of a rotated class file.
pub open spec fn rotated_text(resource: Resource, secs: int) -> Seq<char> {
    resource.stem_text() + seq!['.'] + decimal::signed(secs) + ".jsonl"@
}

/// The stamp between the stem and `suffix` of a file name, when the name has that form.
pub open spec fn stamp_before(
    resource: Resource,
    name: Seq<char>,
    suffix: Seq<char>,
) -> Option<Seq<char>> {
    let prefix = resource.stem_text() + seq!['.'];
    if prefix.is_prefix_of(name) && suffix.is_suffix_of(name.skip(prefix.len() as int)) {
        let rest = name.skip(prefix.len() as int);
        Some(rest.take(rest.len() - suffix.len()))
    } else {
        None
    }
}

/// A stamp as seconds, when it is a number that an `i64` holds.
pub open spec fn stamp_secs(stamp: Option<Seq<char>>) -> Option<int> {
    match stamp {
        Some(t) => match decimal::signed_number(t) {
            Some(n) => if i64::MIN <= n <= i64::MAX {
                Some(n)
            } else {
                None
            },
            None => None,
        },
        None => None,
    }
}

/// When an uncompressed rotated file of the class was made, from its name.
pub open spec fn plain_rotation(resource: Resource, name: Seq<char>) -> Option<int> {
    stamp_secs(stamp_before(resource, name, ".jsonl"@))
}

/// When a rotated file of the class was made, compressed or not, from its name.
pub open spec fn any_rotation(resource: Resource, name: Seq<char>) -> Option<int> {
    match stamp_before(resource, name, ".jsonl.gz"@) {
        Some(t) => stamp_secs(Some(t)),
        None => plain_rotation(resource, name),
    }
}

/// The part of a file name between the stem of the class and `suffix`.
fn stamp_of<'a>(resource: Resource, name: &'a str, suffix: &str) -> (r: Option<&'a str>)
    ensures
        match r {
            Some(t) => stamp_before(resource, name@, suffix@) == Some(t@),
            None => stamp_before(resource, name@, suffix@) is None,
        },
{
    let prefix = concat2(resource.file_stem(), ".");
    proof {
        reveal_strlit(".");
        assert(prefix@ =~= resource.stem_text() + seq!['.']);
    }
    match strip_prefix(name, prefix.as_str()) {
        Some(rest) => {
            assert(name@.skip(prefix@.len() as int) =~= rest@);
            let r = strip_suffix(rest, suffix);
            proof {
                if let Some(t) = r {
                    assert(rest@.take(rest@.len() - suffix@.len()) =~= t@);
                    assert(suffix@.is_suffix_of(rest@)) by {
                        assert(rest@.skip(rest@.len() - suffix@.len()) =~= suffix@);
                    }
                    assert(prefix@.is_prefix_of(name@)) by {
                        assert(name@.take(prefix@.len() as int) =~= prefix@);
                    }
                }
            }
            r
        },
        None => None,
    }
}

/// A stamp as seconds.
fn secs_of(stamp: Option<&str>) -> (r: Option<i64>)
    ensures
        match r {
            Some(n) => stamp_secs(
                match stamp {
                    Some(t) => Some(t@),
                    None => None,
                },
            ) == Some(n as int),
            None => stamp_secs(
                match stamp {
                    Some(t) => Some(t@),
                    None => None,
                },
            ) is None,
        },
{
    match stamp {
        Some(t) => parse_i64(t),
        None => None,
    }
}

/// The larger of `a - b` and the smallest `i64`, or the largest `i64` where it is more.
pub open spec fn saturating_diff(a: int, b: int) -> int {
    if a - b > i64::MAX {
        i64::MAX as int
    } else if a - b < i64::MIN {
        i64::MIN as int
    } else {
        a - b
    }
}

fn age(now: i64, then: i64) -> (r: i64)
    ensures
        r == saturating_diff(now as int, then as int),
{
    match now.checked_sub(then) {
        Some(d) => d,
        None => if now >= 0 {
            i64::MAX
        } else {
            i64::MIN
        },
    }
}

impl<C: Clock> FileSink<C> {
    /// A file sink under `dir`, with an explicit clock for the rotation suffix.
    pub fn with_clock(
        dir: String,
        rotate_at_bytes: Option<u64>,
        compress_after_seconds: Option<u64>,
        retain_count: Option<usize>,
        clock: C,
    ) -> (r: Self)
        ensures
            r == (FileSink { dir, rotate_at_bytes, compress_after_seconds, retain_count, clock }),
    {
        FileSink { dir, rotate_at_bytes, compress_after_seconds, retain_count, clock }
    }

    /// The live file of a class.
    pub fn path_for(&self, resource: Resource) -> (r: String)
        ensures
            r@ == path::joined(self.dir@, resource.stem_text() + ".jsonl"@),
    {
        let name = concat2(resource.file_stem(), ".jsonl");
        path::join(self.dir.as_str(), name.as_str())
    }

    /// Whether a class file of `current` bytes is rotated before `incoming` more are appended.
    pub fn rotates(&self, current: u64, incoming: u64) -> (r: bool)
        ensures
            r == (self.rotate_at_bytes matches Some(limit) && (if current + incoming > u64::MAX {
                u64::MAX as int
            } else {
                current + incoming
            }) > limit),
    {
        match self.rotate_at_bytes {
            Some(limit) => current.saturating_add(incoming) > limit,
            None => false,
        }
    }

    /// Where a class file goes when it is rotated at `secs`.
    pub fn rotated_path(&self, resource: Resource, secs: i64) -> (r: String)
        ensures
            r@ == path::joined(self.dir@, rotated_text(resource, secs as int)),
    {
        let mut name = String::from_str(resource.file_stem());
        name.push('.');
        let t = signed_text(secs);
        name.append(t.as_str());
        name.append(".jsonl");
        assert(name@ =~= rotated_text(resource, secs as int));
        path::join(self.dir.as_str(), name.as_str())
    }

    /// Whether a file in the directory is an uncompressed rotation of the class that is old
    /// enough at `now` to be compressed.
    pub open spec fn is_due(self, resource: Resource, name: Seq<char>, now: int) -> bool {
        match (self.compress_after_seconds, plain_rotation(resource, name)) {
            (Some(after), Some(then)) => saturating_diff(now, then) >= if after > i64::MAX {
                i64::MAX as int
            } else {
                after as int
            },
            _ => false,
        }
    }

    /// Which of the files in the directory are to be compressed at `now`, by position.
    pub fn due_for_compression(&self, resource: Resource, names: &[String], now: i64) -> (out: Vec<
        usize,
    >)
        ensures
            forall|i: int|
                0 <= i < names@.len() ==> (out@.contains(i as usize) <==> self.is_due(
                    resource,
                    #[trigger] names@[i]@,
                    now as int,
                )),
            forall|k: int| 0 <= k < out@.len() ==> (#[trigger] out@[k]) < names@.len(),
            forall|j: int, k: int| 0 <= j < k < out@.len() ==> out@[j] < out@[k],
    {
        let mut out: Vec<usize> = Vec::new();
        let limit: i64 = match self.compress_after_seconds {
            None => {
                return out;
            },
            Some(after) => if after > 9_223_372_036_854_775_807 {
                i64::MAX
            } else {
                after as i64
            },
        };
        let mut i: usize = 0;
        while i < names.len()
            invariant
                i <= names@.len(),
                names.len() == names@.len(),
                self.compress_after_seconds is Some,
                limit == if self.compress_after_seconds->0 > i64::MAX {
                    i64::MAX as int
                } else {
                    self.compress_after_seconds->0 as int
                },
                forall|k: int|
                    0 <= k < i ==> (out@.contains(k as usize) <==> self.is_due(
                        resource,
                        #[trigger] names@[k]@,
                        now as int,
                    )),
                forall|k: int| 0 <= k < out@.len() ==> (#[trigger] out@[k]) < i,
                forall|j: int, k: int| 0 <= j < k < out@.len() ==> out@[j] < out@[k],
            decreases names@.len() - i,
        {
            let ghost before = out@;
            let mut due: bool = false;
            if let Some(then) = secs_of(stamp_of(resource, names[i].as_str(), ".jsonl")) {
                due = age(now, then) >= limit;
            }
            assert(due == self.is_due(resource, names@[i as int]@, now as int));
            if due {
                out.push(i);
            }
            proof {
                assert forall|k: int| 0 <= k < i + 1 implies (out@.contains(k as usize)
                    <==> self.is_due(resource, #[trigger] names@[k]@, now as int)) by {
                    if due {
                        assert(out@[before.len() as int] == i);
                    }
                    if k < i && out@.contains(k as usize) {
                        let p = choose|p: int| 0 <= p < out@.len() && out@[p] == k as usize;
                        assert(before[p] == k as usize);
                    }
                    if k < i && before.contains(k as usize) {
                        let p = choose|p: int| 0 <= p < before.len() && before[p] == k as usize;
                        assert(out@[p] == k as usize);
                    }
                    if k == i && !due && out@.contains(k as usize) {
                        let p = choose|p: int| 0 <= p < out@.len() && out@[p] == k as usize;
                        assert(out@[p] < i);
                    }
                }
            }
            i = i + 1;
        }
        out
    }
}

/// The rotated files of a class among the files of the directory: position and age stamp, in
/// directory order.
pub open spec fn rotations(resource: Resource, names: Seq<Seq<char>>) -> Seq<(int, i64)>
    decreases names.len(),
{
    if names.len() == 0 {
        seq![]
    } else {
        let rest = rotations(resource, names.drop_last());
        match any_rotation(resource, names.last()) {
            Some(then) => rest.push((names.len() - 1, then as i64)),
            None => rest,
        }
    }
}

/// The stamps of the rotated files, in directory order.
pub open spec fn stamps(resource: Resource, names: Seq<Seq<char>>) -> Seq<i64> {
    rotations(resource, names).map_values(|r: (int, i64)| r.1)
}

/// How many rotated files are beyond the number to keep.
pub open spec fn surplus_count(have: nat, keep: Option<usize>) -> nat {
    match keep {
        Some(n) => if have > n {
            (have - n) as nat
        } else {
            0
        },
        None => 0,
    }
}

impl<C: Clock> FileSink<C> {
    /// Which of the files in the directory are deleted to keep `retain_count` rotations of the
    /// class, by position: the oldest ones, as many as there are too many, oldest first.
    pub fn surplus(&self, resource: Resource, names: &[String]) -> (out: Vec<usize>)
        ensures
            out@.len() == surplus_count(
                rotations(resource, text::texts(names@)).len(),
                self.retain_count,
            ),
            exists|p: Seq<usize>|
                {
                    &&& #[trigger] order::is_ranking(stamps(resource, text::texts(names@)), p)
                    &&& forall|k: int|
                        0 <= k < out@.len() ==> #[trigger] out@[k] == rotations(
                            resource,
                            text::texts(names@),
                        )[p[k] as int].0
                },
    {
        let ghost all = text::texts(names@);
        let mut at: Vec<usize> = Vec::new();
        let mut keys: Vec<i64> = Vec::new();
        let mut i: usize = 0;
        assert(all.take(0) =~= seq![]);
        while i < names.len()
            invariant
                i <= names@.len(),
                names.len() == names@.len(),
                all == text::texts(names@),
                at@.len() == keys@.len(),
                at@.len() == rotations(resource, all.take(i as int)).len(),
                forall|k: int|
                    0 <= k < at@.len() ==> rotations(resource, all.take(i as int))[k] == (
                        #[trigger] at@[k] as int,
                        keys@[k],
                    ),
            decreases names@.len() - i,
        {
            proof {
                assert(all.take(i + 1).drop_last() =~= all.take(i as int));
                assert(all.take(i + 1).last() == names@[i as int]@);
            }
            let name = names[i].as_str();
            let stamp = match stamp_of(resource, name, ".jsonl.gz") {
                Some(t) => Some(t),
                None => stamp_of(resource, name, ".jsonl"),
            };
            if let Some(then) = secs_of(stamp) {
                at.push(i);
                keys.push(then);
            }
            i = i + 1;
        }
        assert(all.take(names@.len() as int) =~= all);
        let p = ranking(&keys);
        let count: usize = match self.retain_count {
            Some(keep) => if at.len() > keep {
                at.len() - keep
            } else {
                0
            },
            None => 0,
        };
        let mut out: Vec<usize> = Vec::new();
        let mut k: usize = 0;
        while k < count
            invariant
                k <= count <= at@.len(),
                out@.len() == k,
                at@.len() == keys@.len(),
                order::is_ranking(keys@, p@),
                forall|j: int| 0 <= j < k ==> #[trigger] out@[j] == at@[p@[j] as int],
            decreases count - k,
        {
            out.push(at[p[k]]);
            k = k + 1;
        }
        proof {
            assert forall|j: int| 0 <= j < keys@.len() implies keys@[j] == #[trigger] stamps(
                resource,
                all,
            )[j] by {
                assert(rotations(resource, all)[j] == (at@[j] as int, keys@[j]));
            }
            assert(keys@ =~= stamps(resource, all));
            assert(order::is_ranking(stamps(resource, all), p@));
        }
        out
    }
}

/// Retention deletes the oldest: no rotated file that is kept is older than one that is deleted,
/// and what is kept is no more than the number to keep.
pub proof fn law_retention_keeps_the_newest(
    resource: Resource,
    names: Seq<Seq<char>>,
    keep: usize,
    p: Seq<usize>,
    gone: int,
    kept: int,
)
    requires
        order::is_ranking(stamps(resource, names), p),
        0 <= gone < surplus_count(rotations(resource, names).len(), Some(keep)),
        surplus_count(rotations(resource, names).len(), Some(keep)) <= kept < p.len(),
    ensures
        rotations(resource, names)[p[gone] as int].1 <= rotations(
            resource,
            names,
        )[p[kept] as int].1,
        p.len() - surplus_count(rotations(resource, names).len(), Some(keep)) <= keep,
{
    assert(order::ranks_before(stamps(resource, names), p[gone] as int, p[kept] as int));
}

/// Writes each event as one line to the daemon's stdout.
#[derive(Debug, Clone, Copy, Default)]
pub struct StdoutSink;

// ---- the syslog sink -----------------------------------------------------------

/// The longest syslog message that most receivers accept, in bytes.
pub const SYSLOG_MAX_BYTES: usize = 2048;

/// Emits events as RFC 5424 messages.
pub struct SyslogSink {
    /// The datagram socket that receives the messages.
    pub path: String,
    /// The facility code.
    pub facility: u8,
    /// The process that emits.
    pub procid: u32,
}

/// A text with `"`, `\` and `]` escaped, as inside a structured-data value.
pub open spec fn sd_escaped(s: Seq<char>) -> Seq<char>
    decreases s.len(),
{
    if s.len() == 0 {
        seq![]
    } else {
        let c = s.last();
        let rest = sd_escaped(s.drop_last());
        if c == '"' || c == '\\' || c == ']' {
            rest + seq!['\\', c]
        } else {
            rest.push(c)
        }
    }
}

/// Appends `s` with `"`, `\` and `]` escaped.
pub fn push_sd_escaped(out: &mut String, s: &str)
    ensures
        final(out)@ == old(out)@ + sd_escaped(s@),
{
    let cs = chars_of(s);
    let ghost start = out@;
    let mut i: usize = 0;
    assert(cs@.take(0) =~= seq![]);
    assert(start + sd_escaped(seq![]) =~= start);
    while i < cs.len()
        invariant
            i <= cs@.len(),
            out@ == start + sd_escaped(cs@.take(i as int)),
        decreases cs@.len() - i,
    {
        let c = cs[i];
        if c == '"' || c == '\\' || c == ']' {
            out.push('\\');
        }
        out.push(c);
        proof {
            let t = cs@.take(i + 1);
            assert(t.drop_last() =~= cs@.take(i as int));
            assert(t.last() == c);
            assert(out@ =~= start + sd_escaped(t));
        }
        i = i + 1;
    }
    assert(cs@.take(cs@.len() as int) =~= s@);
}

/// The structured-data parameters of a record: the scalar fields, each as ` key="value"`.
pub open spec fn sd_params(fields: Seq<(&'static str, Rendered)>) -> Seq<char>
    decreases fields.len(),
{
    if fields.len() == 0 {
        seq![]
    } else {
        let rest = sd_params(fields.drop_last());
        match render::scalar(fields.last().1) {
            Some(t) => rest + seq![' '] + fields.last().0@ + seq!['=', '"'] + sd_escaped(t) + seq![
                '"',
            ],
            None => rest,
        }
    }
}

/// The first string field under the name `key`.
pub open spec fn text_field(fields: Seq<(&'static str, Rendered)>, key: Seq<char>) -> Option<
    Seq<char>,
>
    decreases fields.len(),
{
    if fields.len() == 0 {
        None
    } else if fields[0].0@ == key && fields[0].1 is Str {
        Some(fields[0].1->Str_0@)
    } else {
        text_field(fields.drop_first(), key)
    }
}

/// The first string field under the name `key`.
pub fn field_str<'a>(record: &'a Record, key: &str) -> (r: Option<&'a str>)
    ensures
        match r {
            Some(t) => text_field(record.fields@, key@) == Some(t@),
            None => text_field(record.fields@, key@) is None,
        },
{
    let mut i: usize = 0;
    assert(record.fields@.skip(0) =~= record.fields@);
    while i < record.fields.len()
        invariant
            i <= record.fields@.len(),
            text_field(record.fields@, key@) == text_field(record.fields@.skip(i as int), key@),
        decreases record.fields@.len() - i,
    {
        assert(record.fields@.skip(i as int).drop_first() =~= record.fields@.skip(i + 1));
        if same(record.fields[i].0, key) {
            if let Rendered::Str(s) = &record.fields[i].1 {
                return Some(s.as_str());
            }
        }
        i = i + 1;
    }
    None
}

/// The longest beginning of `s` that takes at most `max` bytes.
pub open spec fn fitting(s: Seq<char>, max: nat) -> Seq<char>
    decreases s.len(),
{
    if s.len() == 0 || text::byte_len(s) <= max {
        s
    } else {
        fitting(s.drop_last(), max)
    }
}

proof fn lemma_fitting(s: Seq<char>, k: int, max: nat)
    requires
        0 <= k <= s.len(),
        text::byte_len(s.take(k)) <= max,
        k < s.len() ==> text::byte_len(s.take(k + 1)) > max,
    ensures
        fitting(s, max) == s.take(k),
    decreases s.len(),
{
    if k == s.len() {
        assert(s.take(k) =~= s);
    } else {
        lemma_byte_len_grows(s, k + 1);
        let t = s.drop_last();
        assert(t.take(k) =~= s.take(k));
        if k < t.len() {
            assert(t.take(k + 1) =~= s.take(k + 1));
        }
        lemma_fitting(t, k, max);
    }
}

proof fn lemma_byte_len_grows(s: Seq<char>, k: int)
    requires
        0 <= k <= s.len(),
    ensures
        text::byte_len(s.take(k)) <= text::byte_len(s),
    decreases s.len(),
{
    if k == s.len() {
        assert(s.take(k) =~= s);
    } else {
        lemma_byte_len_grows(s.drop_last(), k);
        assert(s.drop_last().take(k) =~= s.take(k));
    }
}

/// The longest beginning of `s` that takes at most `max` bytes.
fn fitted(s: &str, max: usize) -> (r: String)
    requires
        max <= 1_000_000,
    ensures
        r@ == fitting(s@, max as nat),
{
    let cs = chars_of(s);
    let mut k: usize = 0;
    let mut used: usize = 0;
    assert(cs@.take(0) =~= seq![]);
    while k < cs.len()
        invariant
            k <= cs@.len(),
            cs@ == s@,
            max <= 1_000_000,
            used == text::byte_len(cs@.take(k as int)),
            used <= max,
        decreases cs@.len() - k,
    {
        let w = char_width(cs[k]);
        proof {
            assert(cs@.take(k + 1).drop_last() =~= cs@.take(k as int));
            assert(cs@.take(k + 1).last() == cs@[k as int]);
        }
        if used + w > max {
            proof {
                lemma_fitting(s@, k as int, max as nat);
                assert(cs@.subrange(0, k as int) =~= s@.take(k as int));
            }
            return text_of(&cs, 0, k);
        }
        used = used + w;
        k = k + 1;
    }
    proof {
        lemma_fitting(s@, k as int, max as nat);
        assert(cs@.subrange(0, k as int) =~= s@.take(k as int));
    }
    text_of(&cs, 0, k)
}

impl SyslogSink {
    /// A syslog sink for the socket at `path`, with a facility code and the emitting process.
    pub fn new(path: String, facility: u8, procid: u32) -> (r: Self)
        ensures
            r == (SyslogSink { path, facility, procid }),
    {
        SyslogSink { path, facility, procid }
    }

    /// The beginning of the message for a record: priority, version, the header fields, and the
    /// name of the structured data.
    pub open spec fn head(self, record: Record) -> Seq<char> {
        seq!['<'] + decimal::dec((self.facility * 8 + record.outcome.level()) as nat) + ">1 "@
            + text_or_dash(text_field(record.fields@, "ts"@)) + " "@ + text_or_dash(
            text_field(record.fields@, "host"@),
        ) + " kennel-audit "@ + decimal::dec(self.procid as nat) + " "@ + record.event_type@
            + " [kennel@32473"@
    }

    /// The whole message for a record: its beginning, the parameters of the structured data, and
    /// the summary.
    pub open spec fn full_message(self, record: Record) -> Seq<char> {
        self.head(record) + sd_params(record.fields@) + "] "@ + record.summary()
    }

    /// The message that says, in its structured data, that it is cut: with the parameters of the
    /// first `n` fields, and without a summary.
    pub open spec fn marked(self, record: Record, n: nat) -> Seq<char> {
        self.head(record) + " truncated=\"true\""@ + sd_params(record.fields@.take(n as int))
            + "]"@
    }

    /// How many of the first `n` fields leave the marked message within the limit.
    pub open spec fn kept(self, record: Record, n: nat) -> nat
        decreases n,
    {
        if n == 0 || text::byte_len(self.marked(record, n)) <= SYSLOG_MAX_BYTES {
            n
        } else {
            self.kept(record, (n - 1) as nat)
        }
    }

    /// The message for a record that is too long: it says in its structured data that it is cut,
    /// keeps as many parameters as fit, and where all do, as much of the summary as fits behind
    /// them. Only a header that alone is too long is cut itself.
    pub open spec fn cut_message(self, record: Record) -> Seq<char> {
        let n = self.kept(record, record.fields@.len());
        fitting(
            if n == record.fields@.len() {
                self.marked(record, n) + " "@ + record.summary()
            } else {
                self.marked(record, n)
            },
            SYSLOG_MAX_BYTES as nat,
        )
    }

    /// The message for a record.
    pub open spec fn message(self, record: Record) -> Seq<char> {
        if text::byte_len(self.full_message(record)) <= SYSLOG_MAX_BYTES {
            self.full_message(record)
        } else {
            self.cut_message(record)
        }
    }

    fn head_text(&self, record: &Record) -> (out: String)
        ensures
            out@ == self.head(*record),
    {
        let pri: u64 = self.facility as u64 * 8 + record.outcome.severity() as u64;
        let mut out = String::new();
        out.push('<');
        push_dec(&mut out, pri);
        out.append(">1 ");
        out.append(
            match field_str(record, "ts") {
                Some(t) => t,
                None => "-",
            },
        );
        out.append(" ");
        out.append(
            match field_str(record, "host") {
                Some(t) => t,
                None => "-",
            },
        );
        out.append(" kennel-audit ");
        push_dec(&mut out, self.procid as u64);
        out.append(" ");
        out.append(record.event_type);
        out.append(" [kennel@32473");
        assert(out@ =~= self.head(*record));
        out
    }

    fn marked_text(&self, record: &Record, n: usize) -> (out: String)
        requires
            n <= record.fields@.len(),
        ensures
            out@ == self.marked(*record, n as nat),
    {
        let mut out = self.head_text(record);
        out.append(" truncated=\"true\"");
        push_sd_params(&mut out, record, n);
        out.append("]");
        out
    }

    /// The message for a record; one that is too long for receivers is cut, and says so.
    pub fn format(&self, record: &Record) -> (out: String)
        ensures
            out@ == self.message(*record),
    {
        let mut out = self.head_text(record);
        let all: usize = record.fields.len();
        push_sd_params(&mut out, record, all);
        assert(record.fields@.take(all as int) =~= record.fields@);
        out.append("] ");
        let msg = record.message();
        out.append(msg.as_str());
        if size_of_text(out.as_str()) <= SYSLOG_MAX_BYTES {
            return out;
        }
        let mut n: usize = all;
        let mut cut = self.marked_text(record, n);
        while n > 0 && size_of_text(cut.as_str()) > SYSLOG_MAX_BYTES
            invariant
                n <= all,
                all == record.fields@.len(),
                cut@ == self.marked(*record, n as nat),
                self.kept(*record, n as nat) == self.kept(*record, all as nat),
            decreases n,
        {
            n = n - 1;
            cut = self.marked_text(record, n);
        }
        if n == all {
            cut.append(" ");
            cut.append(msg.as_str());
        }
        fitted(cut.as_str(), SYSLOG_MAX_BYTES)
    }
}

/// A field of the header, or `-` where there is none.
pub open spec fn text_or_dash(t: Option<Seq<char>>) -> Seq<char> {
    match t {
        Some(s) => s,
        None => "-"@,
    }
}

/// Appends the structured-data parameters of the first `n` fields of a record.
fn push_sd_params(out: &mut String, record: &Record, n: usize)
    requires
        n <= record.fields@.len(),
    ensures
        final(out)@ == old(out)@ + sd_params(record.fields@.take(n as int)),
{
    let ghost start = out@;
    let mut i: usize = 0;
    assert(record.fields@.take(0) =~= seq![]);
    assert(start + sd_params(seq![]) =~= start);
    while i < n
        invariant
            i <= n <= record.fields@.len(),
            out@ == start + sd_params(record.fields@.take(i as int)),
        decreases n - i,
    {
        proof {
            let t = record.fields@.take(i + 1);
            assert(t.drop_last() =~= record.fields@.take(i as int));
            assert(t.last() == record.fields@[i as int]);
        }
        if let Some(value) = scalar_text(&record.fields[i].1) {
            out.push(' ');
            out.append(record.fields[i].0);
            out.push('=');
            out.push('"');
            push_sd_escaped(out, value.as_str());
            out.push('"');
        }
        assert(out@ =~= start + sd_params(record.fields@.take(i + 1)));
        i = i + 1;
    }
}

/// Whatever a record holds, its message is no longer than receivers accept.
pub proof fn law_syslog_message_fits(sink: SyslogSink, record: Record)
    ensures
        text::byte_len(sink.message(record)) <= SYSLOG_MAX_BYTES,
{
    let n = sink.kept(record, record.fields@.len());
    let max = SYSLOG_MAX_BYTES as nat;
    lemma_fitting_len(sink.marked(record, n) + " "@ + record.summary(), max);
    lemma_fitting_len(sink.marked(record, n), max);
}

/// A message that is cut says so in structured data that is whole, wherever the header leaves room
/// for it.
pub proof fn law_cut_message_is_marked(sink: SyslogSink, record: Record)
    requires
        text::byte_len(sink.full_message(record)) > SYSLOG_MAX_BYTES,
        text::byte_len(sink.marked(record, 0)) <= SYSLOG_MAX_BYTES,
    ensures
        ({
            let n = sink.kept(record, record.fields@.len());
            n <= record.fields@.len() && sink.marked(record, n).is_prefix_of(sink.message(record))
        }),
{
    let n = sink.kept(record, record.fields@.len());
    let max = SYSLOG_MAX_BYTES as nat;
    lemma_kept(sink, record, record.fields@.len());
    let marked = sink.marked(record, n);
    let long = marked + " "@ + record.summary();
    assert(long.take(marked.len() as int) =~= marked);
    assert(marked.take(marked.len() as int) =~= marked);
    lemma_fitting_keeps(long, marked.len() as int, max);
    lemma_fitting_keeps(marked, marked.len() as int, max);
}

proof fn lemma_kept(sink: SyslogSink, record: Record, n: nat)
    requires
        text::byte_len(sink.marked(record, 0)) <= SYSLOG_MAX_BYTES,
    ensures
        sink.kept(record, n) <= n,
        text::byte_len(sink.marked(record, sink.kept(record, n))) <= SYSLOG_MAX_BYTES,
    decreases n,
{
    if n > 0 && text::byte_len(sink.marked(record, n)) > SYSLOG_MAX_BYTES {
        lemma_kept(sink, record, (n - 1) as nat);
    }
}

/// A beginning that fits is kept.
proof fn lemma_fitting_keeps(s: Seq<char>, k: int, max: nat)
    requires
        0 <= k <= s.len(),
        text::byte_len(s.take(k)) <= max,
    ensures
        s.take(k).is_prefix_of(fitting(s, max)),
    decreases s.len(),
{
    if s.len() > 0 && text::byte_len(s) > max {
        if k == s.len() {
            assert(s.take(k) =~= s);
        }
        assert(s.drop_last().take(k) =~= s.take(k));
        lemma_fitting_keeps(s.drop_last(), k, max);
    }
}

proof fn lemma_fitting_len(s: Seq<char>, max: nat)
    ensures
        text::byte_len(fitting(s, max)) <= max,
    decreases s.len(),
{
    if s.len() > 0 && text::byte_len(s) > max {
        lemma_fitting_len(s.drop_last(), max);
    }
}

// ---- what holds of the whole ----------------------------------------------------

/// Each class has a file of its own.
pub proof fn law_classes_have_files_of_their_own<C: Clock>(
    sink: &FileSink<C>,
    a: Resource,
    b: Resource,
    p: String,
    q: String,
)
    requires
        call_ensures(FileSink::<C>::path_for, (sink, a), p),
        call_ensures(FileSink::<C>::path_for, (sink, b), q),
    ensures
        p@ == q@ ==> a == b,
        path::file_name_of(p@) == Some(a.stem_text() + ".jsonl"@),
{
    super::event::law_resource_tokens_distinct(a, b);
    lemma_stem(a);
    lemma_stem(b);
    reveal_strlit(".jsonl");
    let (m, n) = (a.stem_text() + ".jsonl"@, b.stem_text() + ".jsonl"@);
    lemma_file(a, ".jsonl"@);
    lemma_file(b, ".jsonl"@);
    path::law_join_file_name(sink.dir@, m);
    path::law_join_file_name(sink.dir@, n);
    if p@ == q@ {
        assert(m == n);
        let k = a.stem_text().len();
        assert(a.stem_text() =~= m.take(m.len() - 6));
        assert(b.stem_text() =~= n.take(n.len() - 6));
    }
}

proof fn lemma_stem(r: Resource)
    ensures
        r.stem_text().len() > 0,
        !r.stem_text().contains('/'),
        !r.stem_text().contains('.'),
{
    reveal_strlit("network");
    reveal_strlit("filesystem");
    reveal_strlit("exec");
    reveal_strlit("unix");
    reveal_strlit("dbus");
    reveal_strlit("priv");
    reveal_strlit("lifecycle");
}

proof fn lemma_file(r: Resource, end: Seq<char>)
    requires
        end == ".jsonl"@,
    ensures
        !(r.stem_text() + end).contains('/'),
        (r.stem_text() + end).len() > 6,
{
    reveal_strlit(".jsonl");
    lemma_stem(r);
    let n = r.stem_text() + end;
    if n.contains('/') {
        let i = choose|i: int| 0 <= i < n.len() && n[i] == '/';
        if i < r.stem_text().len() {
            assert(r.stem_text()[i] == '/');
        }
    }
}

/// A file is rotated just where what comes would take it over its limit, and never without one.
pub proof fn law_files_rotate_at_their_limit<C: Clock>(
    sink: &FileSink<C>,
    current: u64,
    incoming: u64,
    r: bool,
)
    requires
        call_ensures(FileSink::<C>::rotates, (sink, current, incoming), r),
    ensures
        sink.rotate_at_bytes is None ==> !r,
        sink.rotate_at_bytes matches Some(limit) ==> (current + incoming <= limit ==> !r),
        sink.rotate_at_bytes matches Some(limit) ==> (current + incoming > limit && limit < u64::MAX
            ==> r),
{
}

/// What a file of a class is rotated to is known again as a rotation of that class, at its time, and
/// as one of no other class.
pub proof fn law_rotated_files_are_known_again(a: Resource, b: Resource, secs: i64)
    ensures
        plain_rotation(a, rotated_text(a, secs as int)) == Some(secs as int),
        a != b ==> plain_rotation(b, rotated_text(a, secs as int)) is None,
{
    let stamp = decimal::signed(secs as int);
    let e = ".jsonl"@;
    let name = rotated_text(a, secs as int);
    let p = a.stem_text() + seq!['.'];
    assert(name =~= p + (stamp + e));
    assert(name.subrange(0, p.len() as int) =~= p);
    let rest = name.skip(p.len() as int);
    assert(rest =~= stamp + e);
    assert(rest.subrange(rest.len() - e.len(), rest.len() as int) =~= e);
    assert(rest.take(rest.len() - e.len()) =~= stamp);
    decimal::law_number_reads_signed(secs as int);
    if a != b {
        let q = b.stem_text() + seq!['.'];
        lemma_stem(a);
        lemma_stem(b);
        super::event::law_resource_tokens_distinct(a, b);
        if q.is_prefix_of(name) {
            let (m, n) = (a.stem_text().len() as int, b.stem_text().len() as int);
            assert(name.subrange(0, q.len() as int) == q);
            assert(name[n] == q[n]);
            assert(name[m] == '.');
            if n < m {
                assert(name[n] == a.stem_text()[n]);
                assert(a.stem_text().contains('.'));
            } else if m < n {
                assert(q[m] == b.stem_text()[m]);
                assert(name.subrange(0, q.len() as int)[m] == name[m]);
                assert(b.stem_text().contains('.'));
            } else {
                assert forall|i: int| 0 <= i < m implies a.stem_text()[i] == b.stem_text()[i] by {
                    assert(name.subrange(0, q.len() as int)[i] == name[i]);
                    assert(name[i] == a.stem_text()[i]);
                    assert(q[i] == b.stem_text()[i]);
                }
                assert(a.stem_text() =~= b.stem_text());
            }
        }
    }
}

/// A rotated file is compressed once it has the age that was set, and not before; without an age none
/// is.
pub proof fn law_rotations_are_compressed_at_their_age<C: Clock>(
    sink: FileSink<C>,
    resource: Resource,
    now: i64,
    then: i64,
)
    requires
        0 <= then <= now,
    ensures
        sink.compress_after_seconds is None ==> !sink.is_due(
            resource,
            rotated_text(resource, then as int),
            now as int,
        ),
        sink.compress_after_seconds matches Some(after) ==> (after <= i64::MAX ==> (sink.is_due(
            resource,
            rotated_text(resource, then as int),
            now as int,
        ) <==> now - then >= after)),
{
    law_rotated_files_are_known_again(resource, resource, then);
}

/// A text of structured data read back: what stands behind a backslash is itself.
pub open spec fn sd_read(s: Seq<char>) -> Seq<char>
    decreases s.len(),
{
    if s.len() == 0 {
        seq![]
    } else if s[0] == '\\' && s.len() > 1 {
        seq![s[1]] + sd_read(s.skip(2))
    } else {
        seq![s[0]] + sd_read(s.skip(1))
    }
}

proof fn lemma_sd_read(a: Seq<char>, t: Seq<char>)
    ensures
        sd_read(sd_escaped(a) + t) == a + sd_read(t),
    decreases a.len(),
{
    if a.len() == 0 {
        assert(sd_escaped(a) + t =~= t);
        assert(a + sd_read(t) =~= sd_read(t));
    } else {
        let c = a.last();
        let e: Seq<char> = if c == '"' || c == '\\' || c == ']' {
            seq!['\\', c]
        } else {
            seq![c]
        };
        let front = a.drop_last();
        assert(sd_escaped(a) + t =~= sd_escaped(front) + (e + t));
        lemma_sd_read(front, e + t);
        assert((e + t).skip(e.len() as int) =~= t);
        assert(sd_read(e + t) =~= seq![c] + sd_read(t));
        assert(front + (seq![c] + sd_read(t)) =~= a + sd_read(t));
    }
}

/// Where the value ends that starts `s`: at the first quote that no backslash stands before.
pub open spec fn sd_end(s: Seq<char>) -> int
    decreases s.len(),
{
    if s.len() == 0 || s[0] == '"' {
        0
    } else if s[0] == '\\' && s.len() > 1 {
        2 + sd_end(s.skip(2))
    } else {
        1 + sd_end(s.skip(1))
    }
}

proof fn lemma_sd_end(a: Seq<char>, t: Seq<char>)
    ensures
        sd_end(sd_escaped(a) + t) == sd_escaped(a).len() + sd_end(t),
    decreases a.len(),
{
    if a.len() == 0 {
        assert(sd_escaped(a) + t =~= t);
    } else {
        let c = a.last();
        let e: Seq<char> = if c == '"' || c == '\\' || c == ']' {
            seq!['\\', c]
        } else {
            seq![c]
        };
        let front = a.drop_last();
        assert(sd_escaped(a) + t =~= sd_escaped(front) + (e + t));
        lemma_sd_end(front, e + t);
        assert((e + t).skip(e.len() as int) =~= t);
    }
}

/// A value in structured data reads back as it was, and cannot end its own quotes: the value ends at
/// the quote behind it, whatever follows.
pub proof fn law_quoted_values_read_back(out: &mut String, s: &str, r: (), rest: Seq<char>)
    requires
        call_ensures(push_sd_escaped, (out, s), r),
        old(out)@.len() == 0,
    ensures
        sd_read(final(out)@) == s@,
        sd_end(final(out)@ + seq!['"'] + rest) == final(out)@.len(),
{
    let e = sd_escaped(s@);
    assert(final(out)@ =~= e);
    lemma_sd_read(s@, seq![]);
    assert(e + seq![] =~= e);
    assert(s@ + sd_read(seq![]) =~= s@);
    lemma_sd_end(s@, seq!['"'] + rest);
    assert(e + (seq!['"'] + rest) =~= e + seq!['"'] + rest);
}

/// A field as structured data.
pub open spec fn sd_param(key: Seq<char>, value: Seq<char>) -> Seq<char> {
    seq![' '] + key + seq!['=', '"'] + sd_escaped(value) + seq!['"']
}

proof fn lemma_held_in_front(s: Seq<char>, p: Seq<char>, t: Seq<char>)
    requires
        text::holds(s, p),
    ensures
        text::holds(s + t, p),
{
    let k = choose|k: int| 0 <= k <= s.len() - p.len() && #[trigger] s.subrange(k, k + p.len()) == p;
    assert((s + t).subrange(k, k + p.len()) =~= s.subrange(k, k + p.len()));
}

proof fn lemma_sd_param(rest: Seq<char>, key: Seq<char>, value: Seq<char>)
    ensures
        rest + seq![' '] + key + seq!['=', '"'] + sd_escaped(value) + seq!['"'] == rest + sd_param(
            key,
            value,
        ),
        text::holds(rest + sd_param(key, value), sd_param(key, value)),
{
    let p = sd_param(key, value);
    assert(rest + seq![' '] + key + seq!['=', '"'] + sd_escaped(value) + seq!['"'] =~= rest + p);
    text::lemma_holds(rest, p, seq![]);
    assert(rest + p + seq![] =~= rest + p);
}

proof fn lemma_sd_step(fields: Seq<(&'static str, Rendered)>)
    requires
        fields.len() > 0,
    ensures
        match render::scalar(fields.last().1) {
            Some(t) => sd_params(fields) == sd_params(fields.drop_last()) + sd_param(
                fields.last().0@,
                t,
            ),
            None => sd_params(fields) == sd_params(fields.drop_last()),
        },
{
    if let Some(t) = render::scalar(fields.last().1) {
        lemma_sd_param(sd_params(fields.drop_last()), fields.last().0@, t);
    }
}

proof fn lemma_sd_params(fields: Seq<(&'static str, Rendered)>, i: int, v: Seq<char>)
    requires
        0 <= i < fields.len(),
        render::scalar(fields[i].1) == Some(v),
    ensures
        text::holds(sd_params(fields), sd_param(fields[i].0@, v)),
    decreases fields.len(),
{
    let front = fields.drop_last();
    let rest = sd_params(front);
    let key = fields[i].0@;
    lemma_sd_step(fields);
    if i < fields.len() - 1 {
        lemma_sd_params(front, i, v);
        if let Some(t) = render::scalar(fields.last().1) {
            lemma_held_in_front(rest, sd_param(key, v), sd_param(fields.last().0@, t));
        }
    } else {
        lemma_sd_param(rest, key, v);
    }
}

/// A syslog message that fits starts with its priority, which is the facility and the severity of the
/// outcome, and holds every plain field and the summary.
pub proof fn law_syslog_message_says_what_was_recorded(
    sink: &SyslogSink,
    record: &Record,
    out: String,
    i: int,
) -> (pri: int)
    requires
        call_ensures(SyslogSink::format, (sink, record), out),
        text::byte_len(sink.full_message(*record)) <= SYSLOG_MAX_BYTES,
        0 <= i < record.fields@.len(),
    ensures
        (seq!['<'] + decimal::dec(pri as nat) + seq!['>', '1', ' ']).is_prefix_of(out@),
        pri / 8 == sink.facility,
        pri % 8 == record.outcome.level(),
        render::scalar(record.fields@[i].1) matches Some(v) ==> text::holds(
            out@,
            sd_param(record.fields@[i].0@, v),
        ),
        text::holds(out@, record.summary()),
{
    let pri = sink.facility * 8 + record.outcome.level();
    reveal_strlit(">1 ");
    let lead = seq!['<'] + decimal::dec(pri as nat) + seq!['>', '1', ' '];
    assert(">1 "@ =~= seq!['>', '1', ' ']);
    assert(out@.subrange(0, lead.len() as int) =~= lead);
    let head = sink.head(*record);
    let params = sd_params(record.fields@);
    let end = "] "@ + record.summary();
    assert(out@ =~= head + params + end);
    if let Some(v) = render::scalar(record.fields@[i].1) {
        lemma_sd_params(record.fields@, i, v);
        let p = sd_param(record.fields@[i].0@, v);
        let k = choose|k: int|
            0 <= k <= params.len() - p.len() && #[trigger] params.subrange(k, k + p.len()) == p;
        let j = head.len() + k;
        assert(out@.subrange(j, j + p.len()) =~= p);
    }
    text::lemma_holds(head + params + "] "@, record.summary(), seq![]);
    assert(out@ =~= head + params + "] "@ + record.summary() + seq![]);
    pri
}

/// A record is one line of its own in a file: whole, ended, and within the size that is written at
/// once; a larger one is refused.
pub proof fn law_framed_record_is_one_line(
    sink: &'static str,
    record: &Record,
    r: Result<String, SinkError>,
)
    requires
        call_ensures(framed, (sink, record), r),
    ensures
        r matches Ok(line) ==> line@.len() > 0 && line@.last() == '\n' && !line@.drop_last().contains(
            '\n',
        ),
        r matches Ok(line) ==> line@.drop_last() == record.line(),
        r is Ok <==> text::byte_len(record.line().push('\n')) <= 4096,
        r matches Err(e) ==> e.sink@ == sink@,
{
    render::law_record_is_one_line(*record);
    if let Ok(line) = r {
        assert(line@.drop_last() =~= record.line());
    }
}

proof fn lemma_rotations(resource: Resource, names: Seq<Seq<char>>)
    ensures
        forall|k: int|
            0 <= k < rotations(resource, names).len() ==> {
                let r = #[trigger] rotations(resource, names)[k];
                &&& 0 <= r.0 < names.len()
                &&& any_rotation(resource, names[r.0]) == Some(r.1 as int)
            },
    decreases names.len(),
{
    if names.len() > 0 {
        let front = names.drop_last();
        lemma_rotations(resource, front);
        let all = rotations(resource, names);
        let rest = rotations(resource, front);
        assert forall|k: int| 0 <= k < all.len() implies ({
            let r = #[trigger] all[k];
            &&& 0 <= r.0 < names.len()
            &&& any_rotation(resource, names[r.0]) == Some(r.1 as int)
        }) by {
            if k < rest.len() {
                assert(all[k] == rest[k]);
                assert(front[rest[k].0] == names[rest[k].0]);
            } else {
                let t = any_rotation(resource, names.last())->0;
                assert(i64::MIN <= t <= i64::MAX);
            }
        }
    }
}

proof fn lemma_rotation_listed(resource: Resource, names: Seq<Seq<char>>, j: int) -> (k: int)
    requires
        0 <= j < names.len(),
        any_rotation(resource, names[j]) is Some,
    ensures
        0 <= k < rotations(resource, names).len(),
        rotations(resource, names)[k].0 == j,
    decreases names.len(),
{
    let front = names.drop_last();
    if j < names.len() - 1 {
        assert(front[j] == names[j]);
        let k = lemma_rotation_listed(resource, front, j);
        assert(rotations(resource, names)[k] == rotations(resource, front)[k]);
        k
    } else {
        rotations(resource, front).len() as int
    }
}

/// What is removed is older than anything that stays, and no more stays than was set; without a number
/// everything stays.
pub proof fn law_oldest_rotations_are_removed<C: Clock>(
    sink: &FileSink<C>,
    resource: Resource,
    names: &[String],
    out: Vec<usize>,
    a: int,
    j: int,
)
    requires
        call_ensures(FileSink::<C>::surplus, (sink, resource, names), out),
        0 <= a < out@.len(),
        0 <= j < names@.len() <= usize::MAX,
        any_rotation(resource, text::texts(names@)[j]) is Some,
        !out@.contains(j as usize),
    ensures
        sink.retain_count is Some,
        out@[a] < names@.len(),
        any_rotation(resource, text::texts(names@)[out@[a] as int]) matches Some(t) && t
            <= any_rotation(resource, text::texts(names@)[j])->0,
{
    let all = text::texts(names@);
    assert(all.len() == names@.len());
    let rs = rotations(resource, all);
    let p = choose|p: Seq<usize>|
        {
            &&& #[trigger] order::is_ranking(stamps(resource, all), p)
            &&& forall|k: int| 0 <= k < out@.len() ==> #[trigger] out@[k] == rs[p[k] as int].0
        };
    lemma_rotations(resource, all);
    let s = stamps(resource, all);
    assert(s.len() == rs.len());
    let x = lemma_rotation_listed(resource, all, j);
    lemma_rotations_len(resource, all);
    order::lemma_in_arrangement(p, rs.len(), x as usize);
    let b = choose|b: int| 0 <= b < p.len() && p[b] == x as usize;
    assert(out@[a] == rs[p[a] as int].0);
    if b < out@.len() {
        assert(out@[b] == rs[p[b] as int].0);
        assert(out@[b] == j);
    }
    assert(a < b);
    assert(order::ranks_before(s, p[a] as int, p[b] as int));
    assert(s[p[a] as int] == rs[p[a] as int].1);
    assert(s[p[b] as int] == rs[p[b] as int].1);
}

proof fn lemma_rotations_len(resource: Resource, names: Seq<Seq<char>>)
    ensures
        rotations(resource, names).len() <= names.len(),
    decreases names.len(),
{
    if names.len() > 0 {
        lemma_rotations_len(resource, names.drop_last());
    }
}

} // verus!
