use kennel::audit::assembly::{facility_code, hostname, SinkConfig, SinkKind};
use kennel::audit::event::{Event, Level, Outcome, Resource, Source, Value};
use kennel::audit::journald::{append_journal_fields, journal_name, submission, JournaldSink};
use kennel::audit::message_ids::{for_event, MESSAGE_IDS};
use kennel::audit::render::{is_envelope_key, scalar_text, Record, Rendered};
use kennel::audit::sinks::{framed, io_err, oversize, FileSink, SyslogSink, SYSLOG_MAX_BYTES};
use kennel::audit::time::{civil_from_days, format_rfc3339_micros, reading, Clock, SystemClock};
use kennel::audit::timeout::{HandOff, TimeoutSink, DEFAULT_CAPACITY};
use kennel::audit::writer::{
    drop_record, Levels, Sink, SinkError, Writer, WriterContext, MAX_EVENT_BYTES,
};
use std::sync::{Arc, Mutex};

const SECS_PER_DAY: i64 = 86_400;

// ---- sinks by their tokens -----------------------------------------------------

#[test]
fn parse_round_trips_known_sinks() {
    assert_eq!(SinkKind::parse("file"), Some(SinkKind::File));
    assert_eq!(SinkKind::parse("journald"), Some(SinkKind::Journald));
    assert_eq!(SinkKind::parse("nope"), None);
}

#[test]
fn empty_kinds_default_to_file() {
    let cfg = SinkConfig {
        kinds: Vec::new(),
        dir: "/state".to_owned(),
        rotate_at_bytes: None,
        compress_after_seconds: None,
        retain_count: None,
        syslog_facility: None,
    };
    assert_eq!(cfg.selected(), vec![SinkKind::File]);
}

#[test]
fn facilities_map_to_codes() {
    assert_eq!(facility_code(Some("local0")), 16);
    assert_eq!(facility_code(Some("daemon")), 3);
    assert_eq!(facility_code(None), 1);
    assert_eq!(facility_code(Some("nonsense")), 1);
}

#[test]
fn host_name_is_trimmed() {
    assert_eq!(hostname(Some("box\n")), "box");
    assert_eq!(hostname(None), "localhost");
}

// ---- the journal ---------------------------------------------------------------

fn journal_rec() -> Record {
    Record {
        resource: Resource::Net,
        event_type: "net.connect-deny",
        outcome: Outcome::Deny,
        fields: vec![
            ("schema_version", Rendered::Uint(1)),
            ("event", Rendered::Str("net.connect-deny".to_owned())),
            ("addr", Rendered::Str("169.254.169.254".to_owned())),
            (
                "template_chain",
                Rendered::Array(vec![
                    Rendered::Str("base".to_owned()),
                    Rendered::Str("strict".to_owned()),
                ]),
            ),
        ],
    }
}

#[test]
fn fields_are_kennel_prefixed_and_uppercased() {
    let mut out = Vec::new();
    for (k, v) in &journal_rec().fields {
        append_journal_fields(&mut out, k, v);
    }
    assert!(out.contains(&"KENNEL_SCHEMA_VERSION=1".to_owned()));
    assert!(out.contains(&"KENNEL_ADDR=169.254.169.254".to_owned()));
    assert!(out.contains(&"KENNEL_EVENT=net.connect-deny".to_owned()));
}

#[test]
fn arrays_become_repeated_keys() {
    let mut out = Vec::new();
    append_journal_fields(
        &mut out,
        "template_chain",
        &Rendered::Array(vec![
            Rendered::Str("base".to_owned()),
            Rendered::Str("strict".to_owned()),
        ]),
    );
    assert_eq!(
        out,
        vec![
            "KENNEL_TEMPLATE_CHAIN=base".to_owned(),
            "KENNEL_TEMPLATE_CHAIN=strict".to_owned(),
        ]
    );
}

#[test]
fn submission_names_message_and_priority() {
    let _ = JournaldSink::new();
    let out = submission(&journal_rec());
    assert!(out.contains(&"SYSLOG_IDENTIFIER=kennel-audit".to_owned()));
    assert!(out.contains(&"PRIORITY=4".to_owned()));
    assert!(out.contains(&"MESSAGE_ID=272a449a55304235a25efe9db4efcf0e".to_owned()), "{out:?}");
    assert_eq!(journal_name("template_chain"), "KENNEL_TEMPLATE_CHAIN");
}

// ---- message ids ---------------------------------------------------------------

#[test]
fn known_event_yields_32_hex() {
    let id = for_event("net.connect-deny").expect("registered");
    assert_eq!(id.len(), 32);
    assert!(id.chars().all(|c| c.is_ascii_hexdigit()));
    assert!(!id.contains('-'));
}

#[test]
fn unknown_event_is_none() {
    assert!(for_event("not.a-real-event").is_none());
}

#[test]
fn ids_are_unique_and_well_formed() {
    let mut seen = std::collections::HashSet::new();
    for (name, uuid) in MESSAGE_IDS {
        assert_eq!(uuid.len(), 36, "{name} uuid not 36 chars");
        assert_eq!(uuid.matches('-').count(), 4, "{name} uuid not dashed");
        assert!(seen.insert(uuid), "duplicate uuid for {name}");
    }
}

// ---- records -------------------------------------------------------------------

fn sample() -> Record {
    Record {
        resource: Resource::Net,
        event_type: "net.connect-deny",
        outcome: Outcome::Deny,
        fields: vec![
            ("schema_version", Rendered::Uint(1)),
            ("event", Rendered::Str("net.connect-deny".to_owned())),
            ("resource", Rendered::Str("net".to_owned())),
            ("outcome", Rendered::Str("deny".to_owned())),
            ("pid", Rendered::Uint(12_345)),
            ("addr", Rendered::Str("169.254.169.254".to_owned())),
            ("port", Rendered::Uint(80)),
            ("reason", Rendered::Str("cloud metadata".to_owned())),
        ],
    }
}

#[test]
fn jsonl_is_one_object_per_line() {
    let line = sample().to_jsonl();
    assert!(line.starts_with('{') && line.ends_with('}'));
    assert_eq!(line.lines().count(), 1);
    assert!(line.contains(r#""schema_version":1"#));
    assert!(line.contains(r#""addr":"169.254.169.254""#));
    assert!(line.contains(r#""port":80"#));
}

#[test]
fn strings_are_structurally_escaped() {
    let r = Record {
        resource: Resource::Fs,
        event_type: "fs.access-deny",
        outcome: Outcome::Deny,
        fields: vec![("path", Rendered::Str("a\"b\\c".to_owned()))],
    };
    let line = r.to_jsonl();
    assert!(line.contains(r#""path":"a\"b\\c""#), "{line}");
}

#[test]
fn arrays_render() {
    let r = Record {
        resource: Resource::Lifecycle,
        event_type: "lifecycle.kennel-start",
        outcome: Outcome::Info,
        fields: vec![(
            "template_chain",
            Rendered::Array(vec![
                Rendered::Str("base".to_owned()),
                Rendered::Str("ai-coding-strict".to_owned()),
            ]),
        )],
    };
    assert!(r.to_jsonl().contains(r#""template_chain":["base","ai-coding-strict"]"#));
}

#[test]
fn objects_render_as_nested_json() {
    let r = Record {
        resource: Resource::Priv,
        event_type: "priv.invoke",
        outcome: Outcome::Allow,
        fields: vec![(
            "params",
            Rendered::Object(vec![
                ("ctx", Rendered::Uint(7)),
                ("addr", Rendered::Str("127.0.144.81".to_owned())),
            ]),
        )],
    };
    assert!(
        r.to_jsonl().contains(r#""params":{"ctx":7,"addr":"127.0.144.81"}"#),
        "{}",
        r.to_jsonl()
    );
}

#[test]
fn message_summarises_event_specific_scalars() {
    let m = sample().message();
    assert!(m.starts_with("deny net.connect-deny:"), "{m}");
    assert!(m.contains("addr=169.254.169.254"));
    assert!(m.contains("port=80"));
    assert!(!m.contains("schema_version="));
}

#[test]
fn record_of_any_text_is_one_line_and_reads_back() {
    let text: String = (0u32..0x300).filter_map(char::from_u32).collect();
    let r = Record {
        resource: Resource::Fs,
        event_type: "fs.access-deny",
        outcome: Outcome::Deny,
        fields: vec![
            ("path", Rendered::Str(text.clone())),
            ("none", Rendered::Null),
            ("yes", Rendered::Bool(true)),
            ("n", Rendered::Int(-5)),
        ],
    };
    let line = r.to_jsonl();
    assert!(!line.contains('\n') && !line.contains('\r'));
    let v: serde_json::Value = serde_json::from_str(&line).expect("json");
    assert_eq!(v.get("path").and_then(|p| p.as_str()), Some(text.as_str()));
    assert_eq!(v.get("n").and_then(serde_json::Value::as_i64), Some(-5));
    assert!(is_envelope_key("schema_version"));
    assert!(!is_envelope_key("addr"));
    assert_eq!(scalar_text(&Rendered::Int(-5)), Some("-5".to_owned()));
    assert_eq!(scalar_text(&Rendered::Array(Vec::new())), None);
}

// ---- sinks ---------------------------------------------------------------------

struct FixedClock(i64, u32);

impl Clock for FixedClock {
    fn now_unix_micros(&self) -> (i64, u32) {
        (self.0, self.1)
    }
}

fn sink_rec() -> Record {
    Record {
        resource: Resource::Net,
        event_type: "net.connect-deny",
        outcome: Outcome::Deny,
        fields: vec![
            ("schema_version", Rendered::Uint(1)),
            ("ts", Rendered::Str("2026-05-25T12:34:56.789012Z".to_owned())),
            ("host", Rendered::Str("workstation".to_owned())),
            ("addr", Rendered::Str("169.254.169.254".to_owned())),
            ("port", Rendered::Uint(80)),
            ("reason", Rendered::Str("cloud metadata".to_owned())),
        ],
    }
}

fn file_sink(rotate: Option<u64>, compress: Option<u64>, retain: Option<usize>) -> FileSink<FixedClock> {
    FileSink::with_clock("/state".to_owned(), rotate, compress, retain, FixedClock(1000, 0))
}

#[test]
fn file_sink_writes_per_class_files() {
    let sink = file_sink(None, None, None);
    assert_eq!(sink.path_for(sink_rec().resource), "/state/network.jsonl");
    let body = framed("file", &sink_rec()).expect("frame");
    assert!(body.contains(r#""addr":"169.254.169.254""#));
    assert!(body.ends_with('\n'));
}

#[test]
fn file_sink_rotates_and_retains() {
    let sink = file_sink(Some(80), None, Some(2));
    assert!(sink.rotates(70, 11));
    assert!(!sink.rotates(70, 10));
    assert_eq!(sink.rotated_path(Resource::Net, 1000), "/state/network.1000.jsonl");
    let names: Vec<String> = ["network.1000.jsonl", "network.jsonl", "network.1003.jsonl", "network.1001.jsonl", "filesystem.1.jsonl"]
        .iter()
        .map(|s| (*s).to_owned())
        .collect();
    let surplus = sink.surplus(Resource::Net, &names);
    assert_eq!(surplus, vec![0]);
    assert!(file_sink(None, None, None).surplus(Resource::Net, &names).is_empty());
}

#[test]
fn file_sink_compresses_old_rotations() {
    let sink = file_sink(Some(80), Some(0), None);
    let names: Vec<String> = ["network.1000.jsonl", "network.jsonl", "network.900.jsonl.gz"]
        .iter()
        .map(|s| (*s).to_owned())
        .collect();
    assert_eq!(sink.due_for_compression(Resource::Net, &names, 1001), vec![0]);
    assert!(file_sink(Some(80), None, None)
        .due_for_compression(Resource::Net, &names, 1001)
        .is_empty());
}

#[test]
fn file_sink_rejects_oversize() {
    let big = "x".repeat(MAX_EVENT_BYTES + 1);
    let r = Record {
        resource: Resource::Fs,
        event_type: "fs.access-deny",
        outcome: Outcome::Deny,
        fields: vec![("path", Rendered::Str(big))],
    };
    assert!(framed("file", &r).is_err());
    assert_eq!(
        oversize("file", 5000).describe(),
        "audit sink file: event of 5000 bytes exceeds the 4096-byte atomic limit"
    );
    assert_eq!(io_err("file", "open", "denied").describe(), "audit sink file: open: denied");
}

#[test]
fn syslog_format_is_rfc5424_shaped() {
    let sink = SyslogSink::new("/dev/log".to_owned(), 1, 7);
    let msg = sink.format(&sink_rec());
    assert!(msg.starts_with("<12>1 2026-05-25T12:34:56.789012Z workstation kennel-audit "));
    assert!(msg.contains("net.connect-deny"));
    assert!(msg.contains("[kennel@32473"));
    assert!(msg.contains(r#"addr="169.254.169.254""#));
}

#[test]
fn syslog_escapes_sd_param_specials() {
    let r = Record {
        resource: Resource::Unix,
        event_type: "unix.connect-deny",
        outcome: Outcome::Deny,
        fields: vec![("path", Rendered::Str(r#"a"b]c\d"#.to_owned()))],
    };
    let sink = SyslogSink::new("/dev/log".to_owned(), 1, 7);
    let msg = sink.format(&r);
    assert!(msg.contains(r#"path="a\"b\]c\\d""#), "{msg}");
}

#[test]
fn syslog_message_is_cut_to_fit() {
    let r = Record {
        resource: Resource::Fs,
        event_type: "fs.access-deny",
        outcome: Outcome::Deny,
        fields: vec![("path", Rendered::Str("\u{e9}".repeat(3000)))],
    };
    let msg = SyslogSink::new("/dev/log".to_owned(), 1, 7).format(&r);
    assert!(msg.len() <= SYSLOG_MAX_BYTES);
    assert_eq!(
        msg,
        "<12>1 - - kennel-audit 7 fs.access-deny [kennel@32473 truncated=\"true\"]"
    );
}

#[test]
fn syslog_message_keeps_the_parameters_that_fit() {
    let r = Record {
        resource: Resource::Fs,
        event_type: "fs.access-deny",
        outcome: Outcome::Deny,
        fields: vec![
            ("host", Rendered::Str("h".to_owned())),
            ("path", Rendered::Str("p".repeat(1930))),
            ("reason", Rendered::Str("r".repeat(300))),
        ],
    };
    let msg = SyslogSink::new("/dev/log".to_owned(), 1, 7).format(&r);
    assert_eq!(
        msg,
        format!(
            "<12>1 - h kennel-audit 7 fs.access-deny [kennel@32473 truncated=\"true\" host=\"h\" path=\"{}\"]",
            "p".repeat(1930)
        )
    );
    assert!(msg.len() <= SYSLOG_MAX_BYTES);
    let r = Record {
        resource: Resource::Fs,
        event_type: "fs.access-deny",
        outcome: Outcome::Deny,
        fields: vec![("path", Rendered::Str("p".repeat(900)))],
    };
    let msg = SyslogSink::new("/dev/log".to_owned(), 1, 7).format(&r);
    assert!(!msg.contains("truncated"), "{msg}");
    let r = Record {
        resource: Resource::Fs,
        event_type: "fs.access-deny",
        outcome: Outcome::Deny,
        fields: vec![("path", Rendered::Str("p".repeat(1940)))],
    };
    let msg = SyslogSink::new("/dev/log".to_owned(), 1, 7).format(&r);
    let sd = format!("[kennel@32473 truncated=\"true\" path=\"{}\"] ", "p".repeat(1940));
    assert_eq!(msg.len(), SYSLOG_MAX_BYTES);
    assert!(msg.contains(&sd), "{msg}");
}

#[test]
fn timestamps_sort_as_the_instants_do() {
    let mut last = String::new();
    for (secs, micros) in [
        (0, 0),
        (0, 9),
        (0, 10),
        (59, 999_999),
        (60, 0),
        (86_399, 0),
        (86_400, 0),
        (951_782_399, 5),
        (951_782_400, 0),
        (253_402_300_799, 999_999),
    ] {
        let t = format_rfc3339_micros(secs, micros);
        assert_eq!(t.len(), 27);
        assert!(t.ends_with('Z') && last < t, "{last} {t}");
        last = t;
    }
    assert_eq!(last, "9999-12-31T23:59:59.999999Z");
}

#[test]
fn every_day_has_a_date() {
    assert_eq!(civil_from_days(0), (1970, 1, 1));
    assert_eq!(civil_from_days(-1), (1969, 12, 31));
    assert_eq!(civil_from_days(11_016), (2000, 2, 29));
    assert_eq!(civil_from_days(11_017), (2000, 3, 1));
    let (y, m, d) = civil_from_days(i64::MAX);
    assert_eq!(civil_from_days(i64::MAX - 1), (y, m, d - 1));
    assert!(y > 25_000_000_000_000_000);
    let (y, m, d) = civil_from_days(i64::MIN);
    assert_eq!(civil_from_days(i64::MIN + 1), (y, m, d + 1));
    assert!(y < -25_000_000_000_000_000);
}

#[test]
fn the_system_clock_gives_microseconds_of_a_second() {
    assert!(SystemClock.now_unix_micros().1 < 1_000_000);
}

// ---- time ----------------------------------------------------------------------

#[test]
fn epoch_is_1970() {
    assert_eq!(format_rfc3339_micros(0, 0), "1970-01-01T00:00:00.000000Z");
}

#[test]
fn known_instant_matches() {
    let secs = 20_598 * SECS_PER_DAY + 45_296;
    assert_eq!(format_rfc3339_micros(secs, 789_012), "2026-05-25T12:34:56.789012Z");
}

#[test]
fn leap_day_2024() {
    assert_eq!(&format_rfc3339_micros(19_782 * SECS_PER_DAY, 0)[..10], "2024-02-29");
}

#[test]
fn micros_are_clamped_and_padded() {
    assert!(format_rfc3339_micros(0, 5).ends_with(".000005Z"));
    assert!(format_rfc3339_micros(0, 9_999_999).ends_with(".999999Z"));
}

#[test]
fn fixed_clock_reads_back() {
    let c = FixedClock(42, 7);
    assert_eq!(c.now_unix_micros(), (42, 7));
}

#[test]
fn system_clock_is_after_2025() {
    let (secs, _) = SystemClock.now_unix_micros();
    assert!(secs > 1_735_689_600, "system clock looks wrong: {secs}");
}

#[test]
fn dates_follow_each_other() {
    assert_eq!(civil_from_days(-1), (1969, 12, 31));
    assert_eq!(civil_from_days(11_016), (2000, 2, 29));
    assert_eq!(civil_from_days(-719_468), (0, 3, 1));
    assert_eq!(civil_from_days(-719_469), (0, 2, 29));
    assert_eq!(format_rfc3339_micros(-1, 0), "1969-12-31T23:59:59.000000Z");
    assert_eq!(reading(Ok((5, 6))), (5, 6));
    assert_eq!(reading(Err(5)), (-5, 0));
    assert_eq!(reading(Ok((u64::MAX, 1))), (i64::MAX, 1));
    assert_eq!(reading(Err(u64::MAX)), (i64::MIN, 0));
}

// ---- handing over --------------------------------------------------------------

#[test]
fn name_delegates_to_inner() {
    let sink = TimeoutSink::new("capture");
    assert_eq!(sink.name, "capture");
    assert_eq!(sink.capacity, DEFAULT_CAPACITY);
}

#[test]
fn drops_when_the_worker_is_blocked_and_the_buffer_fills() {
    let sink = TimeoutSink::with_capacity("blocking", 1);
    assert_eq!(sink.capacity, 1);
    assert!(sink.answer(HandOff::Queued).is_ok());
    let e = sink.answer(HandOff::Full).expect_err("a full buffer must drop");
    assert_eq!(e.describe(), "audit sink blocking: buffer full; event dropped");
    assert_eq!(TimeoutSink::with_capacity("x", 0).capacity, 1);
}

#[test]
fn lost_workers_are_told() {
    let sink = TimeoutSink::new("s");
    assert_eq!(sink.answer(HandOff::Gone).expect_err("gone").message, "worker gone");
    assert_eq!(sink.answer(HandOff::Closed).expect_err("closed").message, "sink closed");
}

// ---- the writer ----------------------------------------------------------------

#[derive(Default)]
struct CaptureSink {
    lines: Mutex<Vec<String>>,
}

impl CaptureSink {
    fn lines(&self) -> Vec<String> {
        self.lines.lock().map(|v| v.clone()).unwrap_or_default()
    }
}

struct Shared(Arc<CaptureSink>);

impl Sink for Shared {
    fn name(&self) -> &'static str {
        "capture"
    }
    fn write(&self, record: &Record) -> Result<(), SinkError> {
        if let Ok(mut v) = self.0.lines.lock() {
            v.push(record.to_jsonl());
        }
        Ok(())
    }
}

fn clean(s: &str) -> String {
    s.chars().map(|c| if c.is_control() { '?' } else { c }).collect()
}

fn context() -> WriterContext {
    WriterContext {
        kennel: "ai-coding".to_owned(),
        kennel_uuid: "01HZX".to_owned(),
        host: "workstation".to_owned(),
    }
}

fn writer_with(levels: Levels) -> (Writer<Shared, SystemClock, fn(&str) -> String>, Arc<CaptureSink>) {
    let cap = Arc::new(CaptureSink::default());
    let f: fn(&str) -> String = clean;
    let w = Writer::with_clock(context(), levels, vec![Shared(Arc::clone(&cap))], SystemClock, f);
    (w, cap)
}

#[test]
fn envelope_is_stamped_in_canonical_order() {
    let (mut w, cap) = writer_with(Levels::default());
    let e = Event::new("net.connect-deny", Resource::Net, Outcome::Deny, Source::Bpf)
        .pid(12_345)
        .field("addr", Value::str("169.254.169.254"))
        .field("port", Value::Uint(80));
    assert!(w.emit(&e));
    let line = cap.lines().pop().unwrap_or_default();
    assert!(line.contains(r#""schema_version":1"#), "{line}");
    assert!(line.contains(r#""kennel":"ai-coding""#));
    assert!(line.contains(r#""source":"bpf""#));
    assert!(line.contains(r#""pid":12345"#));
    let sv = line.find("schema_version").unwrap_or(usize::MAX);
    let kn = line.find("\"kennel\"").unwrap_or(0);
    let ad = line.find("addr").unwrap_or(0);
    assert!(sv < kn && kn < ad, "order wrong: {line}");
}

#[test]
fn denies_only_drops_allows() {
    let levels = Levels { fs: Level::DeniesOnly, ..Levels::default() };
    let (mut w, cap) = writer_with(levels);
    let allow = Event::new("fs.access-allow", Resource::Fs, Outcome::Allow, Source::Kernel);
    let deny = Event::new("fs.access-deny", Resource::Fs, Outcome::Deny, Source::Kernel);
    assert!(!w.emit(&allow));
    assert!(w.emit(&deny));
    assert_eq!(cap.lines().len(), 1);
}

#[test]
fn summary_dedups_allows_by_target() {
    let (mut w, cap) = writer_with(Levels::default());
    let mk = || {
        Event::new("net.connect-allow", Resource::Net, Outcome::Allow, Source::Bpf)
            .target("example.com:443")
    };
    assert!(w.emit(&mk()), "first allow passes");
    assert!(!w.emit(&mk()), "second identical allow is deduped");
    let deny = Event::new("net.connect-deny", Resource::Net, Outcome::Deny, Source::Bpf)
        .target("example.com:443");
    assert!(w.emit(&deny));
    assert_eq!(cap.lines().len(), 2);
}

#[test]
fn off_emits_nothing_for_the_class() {
    let levels = Levels { net: Level::Off, ..Levels::default() };
    let (mut w, cap) = writer_with(levels);
    let deny = Event::new("net.connect-deny", Resource::Net, Outcome::Deny, Source::Bpf);
    assert!(!w.emit(&deny));
    assert!(cap.lines().is_empty());
}

#[test]
fn lifecycle_ignores_level_off() {
    let levels = Levels { net: Level::Off, ..Levels::default() };
    let (mut w, cap) = writer_with(levels);
    let life = Event::new("lifecycle.kennel-start", Resource::Lifecycle, Outcome::Info, Source::Kenneld);
    assert!(w.emit(&life));
    assert_eq!(cap.lines().len(), 1);
}

#[test]
fn untrusted_fields_are_sanitised_and_flagged() {
    let (mut w, cap) = writer_with(Levels::default());
    let e = Event::new("exec.deny", Resource::Exec, Outcome::Deny, Source::Kernel)
        .field("binary", Value::untrusted("/bin/\u{1b}[2Jevil"));
    assert!(w.emit(&e));
    let line = cap.lines().pop().unwrap_or_default();
    assert!(!line.contains('\u{1b}'), "raw ESC leaked: {line}");
    assert!(line.contains(r#""sanitised":true"#), "{line}");
}

struct Broken;

impl Sink for Broken {
    fn name(&self) -> &'static str {
        "broken"
    }
    fn write(&self, _record: &Record) -> Result<(), SinkError> {
        Err(SinkError { sink: "broken", message: "full".to_owned() })
    }
}

#[test]
fn dropped_events_are_reported() {
    let f: fn(&str) -> String = clean;
    let mut w = Writer::with_clock(context(), Levels::default(), vec![Broken], SystemClock, f);
    let e = Event::new("net.connect-deny", Resource::Net, Outcome::Deny, Source::Bpf);
    assert!(w.emit(&e));
    let said = w.take_diagnostics();
    assert!(!said.is_empty());
    assert!(w.take_diagnostics().is_empty());
    let err = SinkError { sink: "broken", message: "full".to_owned() };
    assert_eq!(err.describe(), "audit sink broken: full");
    let line = drop_record(&context(), &err, &f).to_jsonl();
    assert!(line.contains("broken") && line.contains("full"), "{line}");
}

#[test]
fn levels_and_tokens_read_back() {
    for level in [Level::Off, Level::DeniesOnly, Level::Summary, Level::Full] {
        assert_eq!(Level::parse(level.token()), Some(level));
    }
    assert_eq!(Level::parse("loud"), None);
    assert_eq!(Resource::Net.token(), "net");
    assert_eq!(Resource::Net.file_stem(), "network");
    assert!(Resource::Priv.always_emitted());
    assert_eq!(Outcome::Deny.severity(), 4);
    assert_eq!(Source::Kenneld.token(), "kenneld");
}
