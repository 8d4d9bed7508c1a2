//! Syslog export of policy and guardrail events: level filtering, the CEF
//! (Common Event Format) message inside an RFC 5424 syslog header, RFC 3339
//! timestamps, RFC 5425 octet-count framing, and the TCP exporter's
//! best-effort delivery: one reconnect attempt per event while the
//! connection is down, with a doubling back-off.
use vstd::prelude::*;
use vstd::utf8::{encode_scalar, encode_utf8};
use std::path::PathBuf;
use rustls::RootCertStore;
use crate::calendar::{civil_date, days_to_ymd};
use crate::config::SocketAddress;
use crate::text::{
    ascii_upper,
    ascii_uppercase,
    chars_eq,
    chars_of,
    decimal,
    join_space,
    join_with_space,
    push_decimal,
    push_str,
    push_zero_padded,
    str_eq,
    zero_padded,
};

verus! {

/// Version of the product written into the CEF header.
pub const VERSION: &'static str = "0.1.0";

/// Syslog transport protocol.
#[derive(Clone, Copy, PartialEq, Eq, Debug)]
pub enum SyslogProtocol {
    /// Plain TCP with RFC 5425 octet-count framing (optionally wrapped in TLS).
    Tcp,
    /// UDP datagrams (RFC 5424).
    Udp,
}

/// Minimum log level for syslog forwarding.
#[derive(Clone, Copy, PartialEq, Eq, Debug)]
pub enum SyslogMinLevel {
    Info,
    Warn,
    Error,
}

/// TLS configuration for syslog-over-TLS (RFC 5425).
#[derive(Debug, Clone)]
pub struct SyslogTlsConfig {
    /// SNI server name sent during the TLS handshake.
    pub server_name: String,
    /// Path to a PEM-encoded CA certificate used to verify the collector;
    /// `None` selects the Mozilla root CA bundle.
    pub ca_cert: Option<PathBuf>,
    /// Skip TLS certificate verification entirely.
    pub skip_verify: bool,
}

/// Syslog export configuration.
#[derive(Debug, Clone)]
pub struct SyslogConfig {
    /// Destination syslog collector address.
    pub target: SocketAddress,
    /// Transport protocol.
    pub protocol: SyslogProtocol,
    /// Minimum log level to forward.
    pub min_level: SyslogMinLevel,
    /// Hostname written into the RFC 5424 syslog header.
    pub hostname: String,
    /// TLS configuration; when present the TCP connection is wrapped in TLS.
    pub tls: Option<SyslogTlsConfig>,
}

/// One structured log line of a sandbox, as published on the log bus.
#[derive(Clone)]
pub struct SandboxLogLine {
    /// Sandbox the line comes from.
    pub sandbox_id: String,
    /// Event time in milliseconds since the Unix epoch.
    pub timestamp_ms: i64,
    /// Log level name (`INFO`, `WARN`, ...).
    pub level: String,
    /// Emitting module.
    pub target: String,
    /// Log message.
    pub message: String,
    /// Origin of the line (`sandbox`, `gateway`, ...).
    pub source: String,
    /// Structured fields as key/value pairs, each key at most once.
    pub fields: Vec<(String, String)>,
}

impl SyslogMinLevel {
    /// Whether a line at `level` is forwarded under this minimum level
    /// (case-insensitive; `WARNING` counts as `WARN`).
    pub open spec fn spec_passes(self, level: Seq<char>) -> bool {
        let u = ascii_upper(level);
        match self {
            SyslogMinLevel::Error => u == "ERROR"@,
            SyslogMinLevel::Warn => u == "WARN"@ || u == "WARNING"@ || u == "ERROR"@,
            SyslogMinLevel::Info => u == "INFO"@ || u == "WARN"@ || u == "WARNING"@ || u
                == "ERROR"@,
        }
    }

    /// Whether a line at `level` is forwarded under this minimum level.
    pub fn passes(self, level: &str) -> (r: bool)
        ensures
            r == self.spec_passes(level@),
    {
        let u = ascii_uppercase(level);
        let is_error = chars_eq(u.as_slice(), chars_of("ERROR").as_slice());
        let is_warn = chars_eq(u.as_slice(), chars_of("WARN").as_slice());
        let is_warning = chars_eq(u.as_slice(), chars_of("WARNING").as_slice());
        let is_info = chars_eq(u.as_slice(), chars_of("INFO").as_slice());
        match self {
            SyslogMinLevel::Error => is_error,
            SyslogMinLevel::Warn => is_warn || is_warning || is_error,
            SyslogMinLevel::Info => is_info || is_warn || is_warning || is_error,
        }
    }
}

/// A stricter minimum level forwards a subset of what a laxer one forwards,
/// and the level name is matched without regard to ASCII case.
pub proof fn lemma_min_level_ordering(level: Seq<char>)
    ensures
        SyslogMinLevel::Error.spec_passes(level) ==> SyslogMinLevel::Warn.spec_passes(level),
        SyslogMinLevel::Warn.spec_passes(level) ==> SyslogMinLevel::Info.spec_passes(level),
        forall|l: SyslogMinLevel| #[trigger] l.spec_passes(level) == l.spec_passes(ascii_upper(level)),
{
    assert(ascii_upper(ascii_upper(level)) =~= ascii_upper(level));
}

// ── CEF escaping ───────────────────────────────────────────────────────────

/// The escape sequence of one character in a CEF value: `\`, `=`, newline
/// and carriage return are escaped with a backslash.
pub open spec fn cef_escape_char(c: char) -> Seq<char> {
    if c == '\\' {
        seq!['\\', '\\']
    } else if c == '=' {
        seq!['\\', '=']
    } else if c == '\n' {
        seq!['\\', 'n']
    } else if c == '\r' {
        seq!['\\', 'r']
    } else {
        seq![c]
    }
}

/// A text with every character escaped for a CEF value.
pub open spec fn cef_escaped(s: Seq<char>) -> Seq<char>
    decreases s.len(),
{
    if s.len() == 0 {
        seq![]
    } else {
        cef_escaped(s.drop_last()) + cef_escape_char(s.last())
    }
}

/// An escaped value holds no line break, so a CEF message stays on one
/// syslog line.
pub proof fn lemma_cef_escaped_single_line(s: Seq<char>)
    ensures
        forall|i: int|
            0 <= i < cef_escaped(s).len() ==> #[trigger] cef_escaped(s)[i] != '\n'
                && cef_escaped(s)[i] != '\r',
    decreases s.len(),
{
    if s.len() > 0 {
        lemma_cef_escaped_single_line(s.drop_last());
        let a = cef_escaped(s.drop_last());
        let b = cef_escape_char(s.last());
        assert forall|i: int| 0 <= i < cef_escaped(s).len() implies #[trigger] cef_escaped(s)[i]
            != '\n' && cef_escaped(s)[i] != '\r' by {
            if i >= a.len() {
                assert(cef_escaped(s)[i] == b[i - a.len()]);
            } else {
                assert(cef_escaped(s)[i] == a[i]);
            }
        }
    }
}

/// Whether a character is escaped in a CEF value.
pub open spec fn cef_special(c: char) -> bool {
    c == '\\' || c == '=' || c == '\n' || c == '\r'
}

/// Number of characters of a text that CEF escaping escapes.
pub open spec fn cef_special_count(s: Seq<char>) -> int
    decreases s.len(),
{
    if s.len() == 0 {
        0
    } else {
        cef_special_count(s.drop_last()) + if cef_special(s.last()) {
            1int
        } else {
            0
        }
    }
}

/// The character that a backslash followed by `c` stands for in a CEF
/// value, if `c` is an escape code.
pub open spec fn cef_escape_code(c: char) -> Option<char> {
    if c == '\\' {
        Some('\\')
    } else if c == '=' {
        Some('=')
    } else if c == 'n' {
        Some('\n')
    } else if c == 'r' {
        Some('\r')
    } else {
        None
    }
}

/// Reads a CEF value left to right: a backslash followed by an escape code
/// stands for the escaped character, any other character for itself.
pub open spec fn cef_unescaped(s: Seq<char>) -> Seq<char>
    decreases s.len(),
{
    if s.len() == 0 {
        seq![]
    } else if s.len() >= 2 && s[0] == '\\' && cef_escape_code(s[1]) is Some {
        seq![cef_escape_code(s[1])->0] + cef_unescaped(s.subrange(2, s.len() as int))
    } else {
        seq![s[0]] + cef_unescaped(s.drop_first())
    }
}

/// Escaping distributes over concatenation.
pub proof fn lemma_cef_escaped_concat(a: Seq<char>, b: Seq<char>)
    ensures
        cef_escaped(a + b) == cef_escaped(a) + cef_escaped(b),
    decreases b.len(),
{
    if b.len() == 0 {
        assert(a + b =~= a);
        assert(cef_escaped(a) + cef_escaped(b) =~= cef_escaped(a));
    } else {
        lemma_cef_escaped_concat(a, b.drop_last());
        assert((a + b).drop_last() =~= a + b.drop_last());
        assert((a + b).last() == b.last());
        assert(cef_escaped(a + b) =~= cef_escaped(a) + cef_escaped(b.drop_last()) + cef_escape_char(
            b.last(),
        ));
    }
}

/// Reading back the escape sequence of one character gives the character.
proof fn lemma_cef_unescape_char(c: char, t: Seq<char>)
    ensures
        cef_unescaped(cef_escape_char(c) + t) == seq![c] + cef_unescaped(t),
{
    let u = cef_escape_char(c) + t;
    if cef_special(c) {
        assert(u.subrange(2, u.len() as int) =~= t);
    } else {
        assert(u.drop_first() =~= t);
    }
}

/// Reading an escaped value back gives the original text.
pub proof fn lemma_cef_escape_round_trip(s: Seq<char>)
    ensures
        cef_unescaped(cef_escaped(s)) == s,
    decreases s.len(),
{
    if s.len() > 0 {
        let rest = s.drop_first();
        lemma_cef_escape_round_trip(rest);
        assert(s =~= seq![s[0]] + rest);
        lemma_cef_escaped_concat(seq![s[0]], rest);
        let one = seq![s[0]];
        assert(one.drop_last() =~= Seq::<char>::empty());
        assert(one.last() == s[0]);
        assert(cef_escaped(Seq::<char>::empty()) =~= Seq::<char>::empty());
        assert(cef_escaped(one) =~= cef_escape_char(s[0]));
        lemma_cef_unescape_char(s[0], cef_escaped(rest));
    }
}

/// Distinct texts have distinct escapings.
pub proof fn lemma_cef_escape_injective(a: Seq<char>, b: Seq<char>)
    requires
        cef_escaped(a) == cef_escaped(b),
    ensures
        a == b,
{
    lemma_cef_escape_round_trip(a);
    lemma_cef_escape_round_trip(b);
}

/// Escaping adds exactly one character for each escaped character.
pub proof fn lemma_cef_escaped_len(s: Seq<char>)
    ensures
        cef_escaped(s).len() == s.len() + cef_special_count(s),
    decreases s.len(),
{
    if s.len() > 0 {
        lemma_cef_escaped_len(s.drop_last());
    }
}

/// UTF-8 encoding distributes over concatenation.
pub proof fn lemma_encode_utf8_concat(a: Seq<char>, b: Seq<char>)
    ensures
        encode_utf8(a + b) == encode_utf8(a) + encode_utf8(b),
    decreases a.len(),
{
    if a.len() == 0 {
        assert(a + b =~= b);
        assert(encode_utf8(a) + encode_utf8(b) =~= encode_utf8(b));
    } else {
        lemma_encode_utf8_concat(a.drop_first(), b);
        assert((a + b).drop_first() =~= a.drop_first() + b);
        assert((a + b)[0] == a[0]);
        assert(encode_utf8(a + b) =~= encode_scalar(a[0] as u32) + encode_utf8(a.drop_first())
            + encode_utf8(b));
    }
}

/// The UTF-8 encoding of a single character.
proof fn lemma_encode_utf8_one(c: char)
    ensures
        encode_utf8(seq![c]) == encode_scalar(c as u32),
{
    assert(seq![c].drop_first() =~= Seq::<char>::empty());
    assert(encode_utf8(Seq::<char>::empty()) =~= Seq::<u8>::empty());
    assert(encode_utf8(seq![c]) =~= encode_scalar(c as u32));
}

/// The escape sequence of a character is one byte longer in UTF-8 than the
/// character itself when it is escaped, and the character itself otherwise.
proof fn lemma_cef_escape_char_utf8_len(c: char)
    ensures
        encode_utf8(cef_escape_char(c)).len() == encode_utf8(seq![c]).len() + if cef_special(c) {
            1int
        } else {
            0
        },
{
    lemma_encode_utf8_one(c);
    if cef_special(c) {
        let e = cef_escape_char(c);
        assert(e =~= seq![e[0]] + seq![e[1]]);
        lemma_encode_utf8_concat(seq![e[0]], seq![e[1]]);
        lemma_encode_utf8_one(e[0]);
        lemma_encode_utf8_one(e[1]);
        assert(('\\' as u32) == 92u32);
        assert(('=' as u32) == 61u32);
        assert(('\n' as u32) == 10u32);
        assert(('\r' as u32) == 13u32);
        assert(('n' as u32) == 110u32);
        assert(('r' as u32) == 114u32);
    } else {
        assert(cef_escape_char(c) =~= seq![c]);
    }
}

/// In UTF-8 bytes, as `String::len` counts them, escaping adds exactly one
/// byte for each escaped character.
pub proof fn lemma_cef_escaped_utf8_len(s: Seq<char>)
    ensures
        encode_utf8(cef_escaped(s)).len() == encode_utf8(s).len() + cef_special_count(s),
    decreases s.len(),
{
    if s.len() > 0 {
        let rest = s.drop_last();
        let c = s.last();
        lemma_cef_escaped_utf8_len(rest);
        lemma_encode_utf8_concat(cef_escaped(rest), cef_escape_char(c));
        assert(s =~= rest + seq![c]);
        lemma_encode_utf8_concat(rest, seq![c]);
        lemma_cef_escape_char_utf8_len(c);
    }
}

/// Appends the CEF escaping of `s`.
pub fn push_cef_escaped(out: &mut String, s: &str)
    ensures
        final(out)@ == old(out)@ + cef_escaped(s@),
{
    let ghost start = out@;
    let cs = chars_of(s);
    let mut i: usize = 0;
    while i < cs.len()
        invariant
            i <= cs@.len(),
            cs@ == s@,
            out@ == start + cef_escaped(s@.take(i as int)),
        decreases cs@.len() - i,
    {
        let c = cs[i];
        assert(s@.take(i + 1).drop_last() =~= s@.take(i as int));
        assert(s@.take(i + 1).last() == c);
        if c == '\\' {
            out.push('\\');
            out.push('\\');
        } else if c == '=' {
            out.push('\\');
            out.push('=');
        } else if c == '\n' {
            out.push('\\');
            out.push('n');
        } else if c == '\r' {
            out.push('\\');
            out.push('r');
        } else {
            out.push(c);
        }
        assert(out@ =~= start + cef_escaped(s@.take(i + 1)));
        i = i + 1;
    }
    assert(s@.take(cs@.len() as int) =~= s@);
}

/// Escapes `\`, `=`, newline and carriage return in a CEF extension value.
pub fn cef_escape(s: &str) -> (r: String)
    ensures
        r@ == cef_escaped(s@),
{
    let mut out = String::new();
    push_cef_escaped(&mut out, s);
    out
}

// ── Timestamps ─────────────────────────────────────────────────────────────

/// The RFC 3339 text `YYYY-MM-DDTHH:MM:SS.mmmZ` of a calendar date and time.
pub open spec fn rfc3339_fields(
    year: nat,
    month: nat,
    day: nat,
    hour: nat,
    minute: nat,
    second: nat,
    milli: nat,
) -> Seq<char> {
    zero_padded(year, 4) + seq!['-'] + zero_padded(month, 2) + seq!['-'] + zero_padded(day, 2)
        + seq!['T'] + zero_padded(hour, 2) + seq![':'] + zero_padded(minute, 2) + seq![':']
        + zero_padded(second, 2) + seq!['.'] + zero_padded(milli, 3) + seq!['Z']
}

/// The RFC 3339 text of an instant given in milliseconds since the Unix
/// epoch; instants at or before the epoch are shown as the epoch.
pub open spec fn rfc3339_text(ts_ms: int) -> Seq<char> {
    if ts_ms <= 0 {
        "1970-01-01T00:00:00.000Z"@
    } else {
        let secs: int = ts_ms / 1000;
        let days: int = secs / 86400;
        let rem: int = secs % 86400;
        let date = civil_date(days);
        rfc3339_fields(
            date.0 as nat,
            date.1 as nat,
            date.2 as nat,
            (rem / 3600) as nat,
            ((rem % 3600) / 60) as nat,
            (rem % 60) as nat,
            (ts_ms % 1000) as nat,
        )
    }
}

/// The fields that `rfc3339_text` shows denote the instant itself: the date
/// is a real calendar date, the time of day is in range, and together they
/// count exactly `ts_ms` milliseconds from the epoch.
pub proof fn lemma_rfc3339_denotes_instant(ts_ms: int)
    requires
        0 < ts_ms <= i64::MAX,
    ensures
        ({
            let secs: int = ts_ms / 1000;
            let days: int = secs / 86400;
            let rem: int = secs % 86400;
            let date = civil_date(days);
            let (h, mi, s, ms) = (rem / 3600, (rem % 3600) / 60, rem % 60, ts_ms % 1000);
            &&& crate::calendar::valid_date(date.0, date.1, date.2)
            &&& 0 <= h < 24 && 0 <= mi < 60 && 0 <= s < 60 && 0 <= ms < 1000
            &&& crate::calendar::days_from_civil(date.0, date.1, date.2) * 86_400_000 + h
                * 3_600_000 + mi * 60_000 + s * 1000 + ms == ts_ms
        }),
{
    let secs: int = ts_ms / 1000;
    let days: int = secs / 86400;
    assert(days <= crate::calendar::MAX_YMD_DAYS);
    crate::calendar::lemma_civil_date(days);
    let rem: int = secs % 86400;
    assert(ts_ms == secs * 1000 + ts_ms % 1000);
    assert(secs == days * 86400 + rem);
    assert(rem == (rem / 3600) * 3600 + ((rem % 3600) / 60) * 60 + rem % 60);
    assert(days * 86_400_000 == days * 86400 * 1000) by (nonlinear_arith);
    assert(secs * 1000 == days * 86400 * 1000 + rem * 1000) by (nonlinear_arith)
        requires
            secs == days * 86400 + rem,
    ;
}

/// Formats an epoch-millisecond timestamp as RFC 3339
/// (`YYYY-MM-DDTHH:MM:SS.mmmZ`), as RFC 5424 requires.
pub fn format_rfc3339(ts_ms: i64) -> (s: String)
    ensures
        s@ == rfc3339_text(ts_ms as int),
{
    if ts_ms <= 0 {
        return "1970-01-01T00:00:00.000Z".to_owned();
    }
    let secs: u64 = ts_ms as u64 / 1000;
    let ms: u64 = ts_ms as u64 % 1000;
    let days: u64 = secs / 86400;
    let rem: u64 = secs % 86400;
    let h: u64 = rem / 3600;
    let m: u64 = (rem % 3600) / 60;
    let sec: u64 = rem % 60;
    let (year, month, day) = days_to_ymd(days);
    let mut s = String::new();
    push_zero_padded(&mut s, year as u64, 4);
    s.push('-');
    push_zero_padded(&mut s, month as u64, 2);
    s.push('-');
    push_zero_padded(&mut s, day as u64, 2);
    s.push('T');
    push_zero_padded(&mut s, h, 2);
    s.push(':');
    push_zero_padded(&mut s, m, 2);
    s.push(':');
    push_zero_padded(&mut s, sec, 2);
    s.push('.');
    push_zero_padded(&mut s, ms, 3);
    s.push('Z');
    assert(s@ =~= rfc3339_text(ts_ms as int));
    s
}

// ── CEF formatting ─────────────────────────────────────────────────────────

/// The value of the first field named `key`, if any.
pub open spec fn field_value(fields: Seq<(String, String)>, key: Seq<char>) -> Option<Seq<char>>
    decreases fields.len(),
{
    if fields.len() == 0 {
        None
    } else if fields[0].0@ == key {
        Some(fields[0].1@)
    } else {
        field_value(fields.drop_first(), key)
    }
}

/// Looks up the structured field named `key`.
pub fn field_get<'a>(fields: &'a Vec<(String, String)>, key: &str) -> (r: Option<&'a String>)
    ensures
        match r {
            Some(v) => field_value(fields@, key@) == Some(v@),
            None => field_value(fields@, key@) is None,
        },
{
    let mut i: usize = 0;
    assert(fields@.skip(0) =~= fields@);
    while i < fields.len()
        invariant
            i <= fields@.len(),
            field_value(fields@, key@) == field_value(fields@.skip(i as int), key@),
        decreases fields@.len() - i,
    {
        assert(fields@.skip(i as int)[0] == fields@[i as int]);
        assert(fields@.skip(i as int).drop_first() =~= fields@.skip(i + 1));
        if str_eq(fields[i].0.as_str(), key) {
            return Some(&fields[i].1);
        }
        i = i + 1;
    }
    None
}

/// The policy action of a line: the first of the fields `action`,
/// `l7_action` and `l7_decision` that is present, else the empty text.
pub open spec fn cef_action(fields: Seq<(String, String)>) -> Seq<char> {
    match field_value(fields, "action"@) {
        Some(v) => v,
        None => match field_value(fields, "l7_action"@) {
            Some(v) => v,
            None => match field_value(fields, "l7_decision"@) {
                Some(v) => v,
                None => seq![],
            },
        },
    }
}

/// CEF severity (0–10) and event class id of a line, from its policy action
/// or, without one, from its log level.
pub open spec fn cef_classification(action: Seq<char>, level: Seq<char>) -> (u8, Seq<char>) {
    if action == "deny"@ {
        (7, "POLICY_DENY"@)
    } else if action == "audit"@ {
        (5, "POLICY_AUDIT"@)
    } else if action == "allow"@ {
        (2, "POLICY_ALLOW"@)
    } else {
        let u = ascii_upper(level);
        if u == "ERROR"@ {
            (8, "ERROR"@)
        } else if u == "WARN"@ || u == "WARNING"@ {
            (5, "WARN"@)
        } else {
            (2, "LOG"@)
        }
    }
}

/// Syslog severity for a CEF severity: error, warning, notice or
/// informational.
pub open spec fn syslog_severity(cef_severity: u8) -> u8 {
    if 8 <= cef_severity <= 10 {
        3
    } else if 6 <= cef_severity <= 7 {
        4
    } else if 4 <= cef_severity <= 5 {
        5
    } else {
        6
    }
}

/// Syslog PRI: facility 10 (security/authorization) times 8 plus severity.
pub open spec fn syslog_pri(cef_severity: u8) -> nat {
    (80 + syslog_severity(cef_severity)) as nat
}

/// The source fields mapped to standard CEF keys, in priority order: when
/// several sources map to one CEF key the first present one wins.
pub open spec fn cef_key_mappings() -> Seq<(Seq<char>, Seq<char>)> {
    seq![
        ("dst_host"@, "dst"@),
        ("host"@, "dst"@),
        ("dst_port"@, "dpt"@),
        ("port"@, "dpt"@),
        ("binary"@, "sproc"@),
        ("deny_reason"@, "reason"@),
        ("l7_method"@, "requestMethod"@),
        ("l7_path"@, "request"@),
        ("l7_target"@, "request"@),
        ("l7_protocol"@, "app"@),
        ("l7_decision"@, "act"@),
        ("l7_action"@, "act"@),
        ("action"@, "act"@),
    ]
}

/// One `key=value` pair of the CEF extension, with the value escaped.
pub open spec fn cef_pair(key: Seq<char>, value: Seq<char>) -> Seq<char> {
    key + seq!['='] + cef_escaped(value)
}

/// The pairs produced by the first `n` key mappings, and the CEF keys used
/// so far.
pub open spec fn mapped_pairs(fields: Seq<(String, String)>, n: nat) -> (
    Seq<Seq<char>>,
    Seq<Seq<char>>,
)
    decreases n,
{
    if n == 0 || n > 13 {
        (seq![], seq![])
    } else {
        let prev = mapped_pairs(fields, (n - 1) as nat);
        let src = cef_key_mappings()[n - 1].0;
        let key = cef_key_mappings()[n - 1].1;
        if prev.1.contains(key) {
            prev
        } else {
            match field_value(fields, src) {
                Some(v) => (prev.0.push(cef_pair(key, v)), prev.1.push(key)),
                None => prev,
            }
        }
    }
}

/// Each standard CEF key appears at most once among the mapped pairs (the
/// first present source wins), and each pair is written as `key=...` under
/// its key.
pub proof fn lemma_mapped_keys_distinct(fields: Seq<(String, String)>, n: nat)
    ensures
        mapped_pairs(fields, n).1.no_duplicates(),
        mapped_pairs(fields, n).0.len() == mapped_pairs(fields, n).1.len(),
        forall|i: int|
            0 <= i < mapped_pairs(fields, n).0.len() ==> (#[trigger] mapped_pairs(fields, n).0[i]).subrange(
                0,
                mapped_pairs(fields, n).1[i].len() + 1 as int,
            ) == mapped_pairs(fields, n).1[i] + seq!['='],
    decreases n,
{
    if n > 0 && n <= 13 {
        lemma_mapped_keys_distinct(fields, (n - 1) as nat);
        let prev = mapped_pairs(fields, (n - 1) as nat);
        let cur = mapped_pairs(fields, n);
        let src = cef_key_mappings()[n - 1].0;
        let key = cef_key_mappings()[n - 1].1;
        if !prev.1.contains(key) {
            match field_value(fields, src) {
                Some(v) => {
                    assert(cef_pair(key, v).subrange(0, key.len() + 1 as int) =~= key + seq!['=']);
                    assert forall|i: int| 0 <= i < cur.0.len() implies (
                    #[trigger] cur.0[i]).subrange(0, cur.1[i].len() + 1 as int) == cur.1[i] + seq![
                        '=',
                    ] by {
                        if i < prev.0.len() {
                            assert(cur.0[i] == prev.0[i]);
                            assert(cur.1[i] == prev.1[i]);
                        }
                    }
                },
                None => {},
            }
        }
    }
}

/// Once a pair is among the mapped pairs, later mappings keep it.
proof fn lemma_mapped_pairs_grow(fields: Seq<(String, String)>, n: nat, m: nat, x: Seq<char>)
    requires
        n <= m <= 13,
        mapped_pairs(fields, n).0.contains(x),
    ensures
        mapped_pairs(fields, m).0.contains(x),
    decreases m - n,
{
    if n < m {
        let prev = mapped_pairs(fields, n);
        let next = mapped_pairs(fields, n + 1);
        let k = choose|k: int| 0 <= k < prev.0.len() && prev.0[k] == x;
        let src = cef_key_mappings()[n as int].0;
        let key = cef_key_mappings()[n as int].1;
        if !prev.1.contains(key) {
            match field_value(fields, src) {
                Some(v) => {
                    assert(next.0 == prev.0.push(cef_pair(key, v)));
                    assert(next.0[k] == x);
                },
                None => {},
            }
        }
        assert(next.0.contains(x));
        lemma_mapped_pairs_grow(fields, n + 1, m, x);
    }
}

/// Every CEF key used by the first `n` mappings comes from a mapping among
/// them whose source field is present.
proof fn lemma_mapped_keys_have_sources(fields: Seq<(String, String)>, n: nat)
    requires
        n <= 13,
    ensures
        forall|x: Seq<char>|
            #[trigger] mapped_pairs(fields, n).1.contains(x) ==> exists|j: int|
                0 <= j < n && cef_key_mappings()[j].1 == x && field_value(
                    fields,
                    #[trigger] cef_key_mappings()[j].0,
                ) is Some,
    decreases n,
{
    if n > 0 {
        lemma_mapped_keys_have_sources(fields, (n - 1) as nat);
        let prev = mapped_pairs(fields, (n - 1) as nat);
        let cur = mapped_pairs(fields, n);
        let src = cef_key_mappings()[n - 1].0;
        let key = cef_key_mappings()[n - 1].1;
        assert forall|x: Seq<char>| #[trigger] cur.1.contains(x) implies exists|j: int|
            0 <= j < n && cef_key_mappings()[j].1 == x && field_value(
                fields,
                #[trigger] cef_key_mappings()[j].0,
            ) is Some by {
            if prev.1.contains(x) {
                let j = choose|j: int|
                    0 <= j < n - 1 && cef_key_mappings()[j].1 == x && field_value(
                        fields,
                        #[trigger] cef_key_mappings()[j].0,
                    ) is Some;
                assert(0 <= j < n);
            } else {
                let k = choose|k: int| 0 <= k < cur.1.len() && cur.1[k] == x;
                if !prev.1.contains(key) && field_value(fields, src) is Some {
                    assert(cur.1 == prev.1.push(key));
                    if k < prev.1.len() {
                        assert(prev.1[k] == x);
                    }
                    assert(x == key);
                    assert(field_value(fields, cef_key_mappings()[n - 1].0) is Some);
                }
            }
        }
    }
}

/// The pair of mapping `i` is among the mapped pairs when its source field
/// is present and no earlier mapping to the same CEF key has its source
/// present.
proof fn lemma_mapping_first_present(fields: Seq<(String, String)>, i: int)
    requires
        0 <= i < 13,
        field_value(fields, cef_key_mappings()[i].0) is Some,
        forall|j: int|
            0 <= j < i && cef_key_mappings()[j].1 == cef_key_mappings()[i].1 ==> field_value(
                fields,
                #[trigger] cef_key_mappings()[j].0,
            ) is None,
    ensures
        mapped_pairs(fields, 13).0.contains(
            cef_pair(cef_key_mappings()[i].1, field_value(fields, cef_key_mappings()[i].0)->0),
        ),
{
    let key = cef_key_mappings()[i].1;
    let v = field_value(fields, cef_key_mappings()[i].0)->0;
    lemma_mapped_keys_have_sources(fields, i as nat);
    let prev = mapped_pairs(fields, i as nat);
    if prev.1.contains(key) {
        let j = choose|j: int|
            0 <= j < i && cef_key_mappings()[j].1 == key && field_value(
                fields,
                #[trigger] cef_key_mappings()[j].0,
            ) is Some;
        assert(false);
    }
    let cur = mapped_pairs(fields, (i + 1) as nat);
    assert(cur.0 == prev.0.push(cef_pair(key, v)));
    assert(cur.0[prev.0.len() as int] == cef_pair(key, v));
    lemma_mapped_pairs_grow(fields, (i + 1) as nat, 13, cef_pair(key, v));
}

/// The entries of the key mapping table, and which of its CEF keys are the
/// same.
proof fn lemma_key_mapping_table(j: int)
    ensures
        j == 0 ==> cef_key_mappings()[j] == ("dst_host"@, "dst"@),
        j == 1 ==> cef_key_mappings()[j] == ("host"@, "dst"@),
        j == 2 ==> cef_key_mappings()[j] == ("dst_port"@, "dpt"@),
        j == 3 ==> cef_key_mappings()[j] == ("port"@, "dpt"@),
        j == 4 ==> cef_key_mappings()[j] == ("binary"@, "sproc"@),
        j == 5 ==> cef_key_mappings()[j] == ("deny_reason"@, "reason"@),
        j == 6 ==> cef_key_mappings()[j] == ("l7_method"@, "requestMethod"@),
        j == 7 ==> cef_key_mappings()[j] == ("l7_path"@, "request"@),
        j == 8 ==> cef_key_mappings()[j] == ("l7_target"@, "request"@),
        j == 9 ==> cef_key_mappings()[j] == ("l7_protocol"@, "app"@),
        j == 10 ==> cef_key_mappings()[j] == ("l7_decision"@, "act"@),
        j == 11 ==> cef_key_mappings()[j] == ("l7_action"@, "act"@),
        j == 12 ==> cef_key_mappings()[j] == ("action"@, "act"@),
        0 <= j < 13 ==> (cef_key_mappings()[j].1 == "dst"@ <==> (j == 0 || j == 1)),
        0 <= j < 13 ==> (cef_key_mappings()[j].1 == "dpt"@ <==> (j == 2 || j == 3)),
        0 <= j < 13 ==> (cef_key_mappings()[j].1 == "request"@ <==> (j == 7 || j == 8)),
        0 <= j < 13 ==> (cef_key_mappings()[j].1 == "act"@ <==> (10 <= j <= 12)),
        0 <= j < 13 ==> (cef_key_mappings()[j].1 == "sproc"@ <==> j == 4),
        0 <= j < 13 ==> (cef_key_mappings()[j].1 == "reason"@ <==> j == 5),
        0 <= j < 13 ==> (cef_key_mappings()[j].1 == "requestMethod"@ <==> j == 6),
        0 <= j < 13 ==> (cef_key_mappings()[j].1 == "app"@ <==> j == 9),
{
    reveal_strlit("act");
    reveal_strlit("action");
    reveal_strlit("app");
    reveal_strlit("binary");
    reveal_strlit("deny_reason");
    reveal_strlit("dpt");
    reveal_strlit("dst");
    reveal_strlit("dst_host");
    reveal_strlit("dst_port");
    reveal_strlit("host");
    reveal_strlit("l7_action");
    reveal_strlit("l7_decision");
    reveal_strlit("l7_method");
    reveal_strlit("l7_path");
    reveal_strlit("l7_protocol");
    reveal_strlit("l7_target");
    reveal_strlit("port");
    reveal_strlit("reason");
    reveal_strlit("request");
    reveal_strlit("requestMethod");
    reveal_strlit("sproc");
    assert("dst"@[1] != "dpt"@[1]);
    assert("dst"@[0] != "app"@[0]);
    assert("dst"@[0] != "act"@[0]);
    assert("dpt"@[0] != "app"@[0]);
    assert("dpt"@[0] != "act"@[0]);
    assert("app"@[1] != "act"@[1]);
    assert("dst"@ != "sproc"@) by {
        assert("dst"@.len() != "sproc"@.len());
    }
    assert("dst"@ != "reason"@) by {
        assert("dst"@.len() != "reason"@.len());
    }
    assert("dst"@ != "requestMethod"@) by {
        assert("dst"@.len() != "requestMethod"@.len());
    }
    assert("dst"@ != "request"@) by {
        assert("dst"@.len() != "request"@.len());
    }
    assert("dpt"@ != "sproc"@) by {
        assert("dpt"@.len() != "sproc"@.len());
    }
    assert("dpt"@ != "reason"@) by {
        assert("dpt"@.len() != "reason"@.len());
    }
    assert("dpt"@ != "requestMethod"@) by {
        assert("dpt"@.len() != "requestMethod"@.len());
    }
    assert("dpt"@ != "request"@) by {
        assert("dpt"@.len() != "request"@.len());
    }
    assert("sproc"@ != "reason"@) by {
        assert("sproc"@.len() != "reason"@.len());
    }
    assert("sproc"@ != "requestMethod"@) by {
        assert("sproc"@.len() != "requestMethod"@.len());
    }
    assert("sproc"@ != "request"@) by {
        assert("sproc"@.len() != "request"@.len());
    }
    assert("sproc"@ != "app"@) by {
        assert("sproc"@.len() != "app"@.len());
    }
    assert("sproc"@ != "act"@) by {
        assert("sproc"@.len() != "act"@.len());
    }
    assert("reason"@ != "requestMethod"@) by {
        assert("reason"@.len() != "requestMethod"@.len());
    }
    assert("reason"@ != "request"@) by {
        assert("reason"@.len() != "request"@.len());
    }
    assert("reason"@ != "app"@) by {
        assert("reason"@.len() != "app"@.len());
    }
    assert("reason"@ != "act"@) by {
        assert("reason"@.len() != "act"@.len());
    }
    assert("requestMethod"@ != "request"@) by {
        assert("requestMethod"@.len() != "request"@.len());
    }
    assert("requestMethod"@ != "app"@) by {
        assert("requestMethod"@.len() != "app"@.len());
    }
    assert("requestMethod"@ != "act"@) by {
        assert("requestMethod"@.len() != "act"@.len());
    }
    assert("request"@ != "app"@) by {
        assert("request"@.len() != "app"@.len());
    }
    assert("request"@ != "act"@) by {
        assert("request"@.len() != "act"@.len());
    }
}

/// Each source field of a line is mapped to its standard CEF key when it is
/// present and no source before it for the same key is: `dst_host`, else
/// `host`, to `dst`; `dst_port`, else `port`, to `dpt`; `binary` to `sproc`;
/// `deny_reason` to `reason`; `l7_method` to `requestMethod`; `l7_path`,
/// else `l7_target`, to `request`; `l7_protocol` to `app`; `l7_decision`,
/// else `l7_action`, else `action`, to `act`.
pub proof fn lemma_cef_standard_keys(fields: Seq<(String, String)>)
    ensures
        field_value(fields, "dst_host"@) is Some ==> mapped_pairs(fields, 13).0.contains(
            cef_pair("dst"@, field_value(fields, "dst_host"@)->0),
        ),
        field_value(fields, "dst_host"@) is None && field_value(fields, "host"@) is Some ==> mapped_pairs(fields, 13).0.contains(
            cef_pair("dst"@, field_value(fields, "host"@)->0),
        ),
        field_value(fields, "dst_port"@) is Some ==> mapped_pairs(fields, 13).0.contains(
            cef_pair("dpt"@, field_value(fields, "dst_port"@)->0),
        ),
        field_value(fields, "dst_port"@) is None && field_value(fields, "port"@) is Some ==> mapped_pairs(fields, 13).0.contains(
            cef_pair("dpt"@, field_value(fields, "port"@)->0),
        ),
        field_value(fields, "binary"@) is Some ==> mapped_pairs(fields, 13).0.contains(
            cef_pair("sproc"@, field_value(fields, "binary"@)->0),
        ),
        field_value(fields, "deny_reason"@) is Some ==> mapped_pairs(fields, 13).0.contains(
            cef_pair("reason"@, field_value(fields, "deny_reason"@)->0),
        ),
        field_value(fields, "l7_method"@) is Some ==> mapped_pairs(fields, 13).0.contains(
            cef_pair("requestMethod"@, field_value(fields, "l7_method"@)->0),
        ),
        field_value(fields, "l7_path"@) is Some ==> mapped_pairs(fields, 13).0.contains(
            cef_pair("request"@, field_value(fields, "l7_path"@)->0),
        ),
        field_value(fields, "l7_path"@) is None && field_value(fields, "l7_target"@) is Some ==> mapped_pairs(fields, 13).0.contains(
            cef_pair("request"@, field_value(fields, "l7_target"@)->0),
        ),
        field_value(fields, "l7_protocol"@) is Some ==> mapped_pairs(fields, 13).0.contains(
            cef_pair("app"@, field_value(fields, "l7_protocol"@)->0),
        ),
        field_value(fields, "l7_decision"@) is Some ==> mapped_pairs(fields, 13).0.contains(
            cef_pair("act"@, field_value(fields, "l7_decision"@)->0),
        ),
        field_value(fields, "l7_decision"@) is None && field_value(fields, "l7_action"@) is Some ==> mapped_pairs(fields, 13).0.contains(
            cef_pair("act"@, field_value(fields, "l7_action"@)->0),
        ),
        field_value(fields, "l7_decision"@) is None && field_value(fields, "l7_action"@) is None && field_value(fields, "action"@) is Some ==> mapped_pairs(fields, 13).0.contains(
            cef_pair("act"@, field_value(fields, "action"@)->0),
        ),
{
    if field_value(fields, "dst_host"@) is Some {
        assert forall|j: int|
            0 <= j < 0 && cef_key_mappings()[j].1 == cef_key_mappings()[0].1 implies field_value(
                fields,
                #[trigger] cef_key_mappings()[j].0,
            ) is None by {
            lemma_key_mapping_table(j);
        }
        lemma_mapping_first_present(fields, 0);
    }
    if field_value(fields, "dst_host"@) is None && field_value(fields, "host"@) is Some {
        assert forall|j: int|
            0 <= j < 1 && cef_key_mappings()[j].1 == cef_key_mappings()[1].1 implies field_value(
                fields,
                #[trigger] cef_key_mappings()[j].0,
            ) is None by {
            lemma_key_mapping_table(j);
        }
        lemma_mapping_first_present(fields, 1);
    }
    if field_value(fields, "dst_port"@) is Some {
        assert forall|j: int|
            0 <= j < 2 && cef_key_mappings()[j].1 == cef_key_mappings()[2].1 implies field_value(
                fields,
                #[trigger] cef_key_mappings()[j].0,
            ) is None by {
            lemma_key_mapping_table(j);
        }
        lemma_mapping_first_present(fields, 2);
    }
    if field_value(fields, "dst_port"@) is None && field_value(fields, "port"@) is Some {
        assert forall|j: int|
            0 <= j < 3 && cef_key_mappings()[j].1 == cef_key_mappings()[3].1 implies field_value(
                fields,
                #[trigger] cef_key_mappings()[j].0,
            ) is None by {
            lemma_key_mapping_table(j);
        }
        lemma_mapping_first_present(fields, 3);
    }
    if field_value(fields, "binary"@) is Some {
        assert forall|j: int|
            0 <= j < 4 && cef_key_mappings()[j].1 == cef_key_mappings()[4].1 implies field_value(
                fields,
                #[trigger] cef_key_mappings()[j].0,
            ) is None by {
            lemma_key_mapping_table(j);
        }
        lemma_mapping_first_present(fields, 4);
    }
    if field_value(fields, "deny_reason"@) is Some {
        assert forall|j: int|
            0 <= j < 5 && cef_key_mappings()[j].1 == cef_key_mappings()[5].1 implies field_value(
                fields,
                #[trigger] cef_key_mappings()[j].0,
            ) is None by {
            lemma_key_mapping_table(j);
        }
        lemma_mapping_first_present(fields, 5);
    }
    if field_value(fields, "l7_method"@) is Some {
        assert forall|j: int|
            0 <= j < 6 && cef_key_mappings()[j].1 == cef_key_mappings()[6].1 implies field_value(
                fields,
                #[trigger] cef_key_mappings()[j].0,
            ) is None by {
            lemma_key_mapping_table(j);
        }
        lemma_mapping_first_present(fields, 6);
    }
    if field_value(fields, "l7_path"@) is Some {
        assert forall|j: int|
            0 <= j < 7 && cef_key_mappings()[j].1 == cef_key_mappings()[7].1 implies field_value(
                fields,
                #[trigger] cef_key_mappings()[j].0,
            ) is None by {
            lemma_key_mapping_table(j);
        }
        lemma_mapping_first_present(fields, 7);
    }
    if field_value(fields, "l7_path"@) is None && field_value(fields, "l7_target"@) is Some {
        assert forall|j: int|
            0 <= j < 8 && cef_key_mappings()[j].1 == cef_key_mappings()[8].1 implies field_value(
                fields,
                #[trigger] cef_key_mappings()[j].0,
            ) is None by {
            lemma_key_mapping_table(j);
        }
        lemma_mapping_first_present(fields, 8);
    }
    if field_value(fields, "l7_protocol"@) is Some {
        assert forall|j: int|
            0 <= j < 9 && cef_key_mappings()[j].1 == cef_key_mappings()[9].1 implies field_value(
                fields,
                #[trigger] cef_key_mappings()[j].0,
            ) is None by {
            lemma_key_mapping_table(j);
        }
        lemma_mapping_first_present(fields, 9);
    }
    if field_value(fields, "l7_decision"@) is Some {
        assert forall|j: int|
            0 <= j < 10 && cef_key_mappings()[j].1 == cef_key_mappings()[10].1 implies field_value(
                fields,
                #[trigger] cef_key_mappings()[j].0,
            ) is None by {
            lemma_key_mapping_table(j);
        }
        lemma_mapping_first_present(fields, 10);
    }
    if field_value(fields, "l7_decision"@) is None && field_value(fields, "l7_action"@) is Some {
        assert forall|j: int|
            0 <= j < 11 && cef_key_mappings()[j].1 == cef_key_mappings()[11].1 implies field_value(
                fields,
                #[trigger] cef_key_mappings()[j].0,
            ) is None by {
            lemma_key_mapping_table(j);
        }
        lemma_mapping_first_present(fields, 11);
    }
    if field_value(fields, "l7_decision"@) is None && field_value(fields, "l7_action"@) is None && field_value(fields, "action"@) is Some {
        assert forall|j: int|
            0 <= j < 12 && cef_key_mappings()[j].1 == cef_key_mappings()[12].1 implies field_value(
                fields,
                #[trigger] cef_key_mappings()[j].0,
            ) is None by {
            lemma_key_mapping_table(j);
        }
        lemma_mapping_first_present(fields, 12);
    }
}

/// The key/value parts of the CEF extension of a line, in order: the
/// sandbox id, the mapped standard keys, the stage and policy custom
/// strings, and the receipt time.
pub open spec fn cef_extension_parts(log: &SandboxLogLine) -> Seq<Seq<char>> {
    let fields = log.fields@;
    let p0: Seq<Seq<char>> = if log.sandbox_id@.len() > 0 {
        seq!["deviceExternalId="@ + cef_escaped(log.sandbox_id@)]
    } else {
        seq![]
    };
    let p1 = p0 + mapped_pairs(fields, 13).0;
    let p2 = match field_value(fields, "denial_stage"@) {
        Some(v) => p1.push("cs1Label=stage cs1="@ + cef_escaped(v)),
        None => p1,
    };
    let p3 = match field_value(fields, "policy"@) {
        Some(v) => p2.push("cs2Label=policy cs2="@ + cef_escaped(v)),
        None => p2,
    };
    if log.timestamp_ms > 0 {
        p3.push("rt="@ + decimal(log.timestamp_ms as nat))
    } else {
        p3
    }
}

/// The CEF extension of a line: its parts joined by spaces.
pub open spec fn cef_extension(log: &SandboxLogLine) -> Seq<char> {
    join_space(cef_extension_parts(log))
}

/// The full syslog message of a line:
/// `<PRI>1 TIMESTAMP HOSTNAME openshell-server - - - CEF:0|NVIDIA|OpenShell|VERSION|SIG|NAME|SEV|EXT`.
pub open spec fn cef_syslog_message(log: &SandboxLogLine, hostname: Seq<char>) -> Seq<char> {
    let class = cef_classification(cef_action(log.fields@), log.level@);
    seq!['<'] + decimal(syslog_pri(class.0)) + ">1 "@ + rfc3339_text(log.timestamp_ms as int) + seq![' ']
        + hostname + " openshell-server - - - CEF:0|NVIDIA|OpenShell|"@ + VERSION@ + seq!['|']
        + class.1 + seq!['|'] + cef_escaped(log.message@) + seq!['|'] + decimal(class.0 as nat)
        + seq!['|'] + cef_extension(log)
}

/// Every mapped pair of a line is a part of its CEF extension.
pub proof fn lemma_mapped_pairs_in_extension(log: &SandboxLogLine, x: Seq<char>)
    requires
        mapped_pairs(log.fields@, 13).0.contains(x),
    ensures
        cef_extension_parts(log).contains(x),
{
    let fields = log.fields@;
    let m = mapped_pairs(fields, 13).0;
    let k = choose|k: int| 0 <= k < m.len() && m[k] == x;
    let p0: Seq<Seq<char>> = if log.sandbox_id@.len() > 0 {
        seq!["deviceExternalId="@ + cef_escaped(log.sandbox_id@)]
    } else {
        seq![]
    };
    let p1 = p0 + m;
    assert(p1[p0.len() + k] == x);
    let p2 = match field_value(fields, "denial_stage"@) {
        Some(v) => p1.push("cs1Label=stage cs1="@ + cef_escaped(v)),
        None => p1,
    };
    assert(p2[p0.len() + k] == x);
    let p3 = match field_value(fields, "policy"@) {
        Some(v) => p2.push("cs2Label=policy cs2="@ + cef_escaped(v)),
        None => p2,
    };
    assert(p3[p0.len() + k] == x);
    let parts = cef_extension_parts(log);
    assert(parts[p0.len() + k] == x);
}

/// The destination of a line is in its CEF extension: `dst=<escaped
/// dst_host>` when it has a `dst_host` field, else `dst=<escaped host>` when
/// it has a `host` field.
pub proof fn lemma_destination_in_extension(log: &SandboxLogLine)
    ensures
        field_value(log.fields@, "dst_host"@) is Some ==> cef_extension_parts(log).contains(
            "dst="@ + cef_escaped(field_value(log.fields@, "dst_host"@)->0),
        ),
        field_value(log.fields@, "dst_host"@) is None && field_value(log.fields@, "host"@) is Some
            ==> cef_extension_parts(log).contains(
            "dst="@ + cef_escaped(field_value(log.fields@, "host"@)->0),
        ),
{
    let fields = log.fields@;
    lemma_cef_standard_keys(fields);
    reveal_strlit("dst");
    reveal_strlit("dst=");
    assert("dst"@ + seq!['='] =~= "dst="@);
    if field_value(fields, "dst_host"@) is Some {
        let v = field_value(fields, "dst_host"@)->0;
        assert(cef_pair("dst"@, v) =~= "dst="@ + cef_escaped(v));
        lemma_mapped_pairs_in_extension(log, cef_pair("dst"@, v));
    } else if field_value(fields, "host"@) is Some {
        let v = field_value(fields, "host"@)->0;
        assert(cef_pair("dst"@, v) =~= "dst="@ + cef_escaped(v));
        lemma_mapped_pairs_in_extension(log, cef_pair("dst"@, v));
    }
}

/// The policy action of a line is its `action` field; without one, its
/// `l7_action` field; without either, its `l7_decision` field. A line whose
/// policy action is `deny` is a POLICY_DENY event of CEF severity 7 (syslog
/// PRI 84) whatever its level; `audit` gives POLICY_AUDIT, severity 5;
/// `allow` gives POLICY_ALLOW, severity 2.
pub proof fn lemma_policy_action_classifies(fields: Seq<(String, String)>, level: Seq<char>)
    ensures
        field_value(fields, "action"@) is Some ==> cef_action(fields) == field_value(
            fields,
            "action"@,
        )->0,
        field_value(fields, "action"@) is None && field_value(fields, "l7_action"@) is Some
            ==> cef_action(fields) == field_value(fields, "l7_action"@)->0,
        field_value(fields, "action"@) is None && field_value(fields, "l7_action"@) is None
            && field_value(fields, "l7_decision"@) is Some ==> cef_action(fields) == field_value(
            fields,
            "l7_decision"@,
        )->0,
        cef_action(fields) == "deny"@ ==> cef_classification(cef_action(fields), level) == (
            7u8,
            "POLICY_DENY"@,
        ) && syslog_pri(7) == 84,
        field_value(fields, "action"@) is None && field_value(fields, "l7_action"@) == Some("deny"@)
            ==> cef_classification(cef_action(fields), level) == (7u8, "POLICY_DENY"@),
        cef_action(fields) == "audit"@ ==> cef_classification(cef_action(fields), level) == (
            5u8,
            "POLICY_AUDIT"@,
        ),
        cef_action(fields) == "allow"@ ==> cef_classification(cef_action(fields), level) == (
            2u8,
            "POLICY_ALLOW"@,
        ),
        cef_action(fields) != "deny"@ && cef_action(fields) != "audit"@ && cef_action(fields)
            != "allow"@ ==> cef_classification(cef_action(fields), level) == if ascii_upper(level)
            == "ERROR"@ {
            (8u8, "ERROR"@)
        } else if ascii_upper(level) == "WARN"@ || ascii_upper(level) == "WARNING"@ {
            (5u8, "WARN"@)
        } else {
            (2u8, "LOG"@)
        },
        syslog_pri(8) == 83 && syslog_pri(5) == 85 && syslog_pri(2) == 86,
{
    reveal_strlit("deny");
    reveal_strlit("audit");
    reveal_strlit("allow");
    assert("audit"@ != "deny"@) by {
        assert("audit"@.len() != "deny"@.len());
    }
    assert("allow"@ != "deny"@) by {
        assert("allow"@.len() != "deny"@.len());
    }
    assert("allow"@ != "audit"@) by {
        assert("allow"@[1] != "audit"@[1]);
    }
}

/// The source field and CEF key of mapping `i`.
fn cef_key_mapping(i: usize) -> (r: (&'static str, &'static str))
    requires
        i < 13,
    ensures
        r.0@ == cef_key_mappings()[i as int].0,
        r.1@ == cef_key_mappings()[i as int].1,
{
    if i == 0 {
        ("dst_host", "dst")
    } else if i == 1 {
        ("host", "dst")
    } else if i == 2 {
        ("dst_port", "dpt")
    } else if i == 3 {
        ("port", "dpt")
    } else if i == 4 {
        ("binary", "sproc")
    } else if i == 5 {
        ("deny_reason", "reason")
    } else if i == 6 {
        ("l7_method", "requestMethod")
    } else if i == 7 {
        ("l7_path", "request")
    } else if i == 8 {
        ("l7_target", "request")
    } else if i == 9 {
        ("l7_protocol", "app")
    } else if i == 10 {
        ("l7_decision", "act")
    } else if i == 11 {
        ("l7_action", "act")
    } else {
        ("action", "act")
    }
}

/// Whether `key` is among the keys of `used`.
fn contains_key(used: &Vec<&'static str>, key: &str) -> (r: bool)
    ensures
        r == used@.map_values(|u: &'static str| u@).contains(key@),
{
    let ghost views = used@.map_values(|u: &'static str| u@);
    let mut i: usize = 0;
    while i < used.len()
        invariant
            i <= used@.len(),
            views == used@.map_values(|u: &'static str| u@),
            forall|j: int| 0 <= j < i ==> views[j] != key@,
        decreases used@.len() - i,
    {
        if str_eq(used[i], key) {
            assert(views[i as int] == key@);
            return true;
        }
        i = i + 1;
    }
    false
}

/// A new string holding `prefix` followed by the escaped `value`.
fn prefixed_escaped(prefix: &str, value: &str) -> (r: String)
    ensures
        r@ == prefix@ + cef_escaped(value@),
{
    let mut s = String::new();
    push_str(&mut s, prefix);
    push_cef_escaped(&mut s, value);
    s
}

/// The views of a list of strings.
pub open spec fn string_views(v: Seq<String>) -> Seq<Seq<char>> {
    v.map_values(|p: String| p@)
}

/// Maps the structured fields of a line to CEF extension `key=value` pairs.
pub fn build_cef_extension(log: &SandboxLogLine) -> (s: String)
    ensures
        s@ == cef_extension(log),
{
    let mut parts: Vec<String> = Vec::new();
    if !log.sandbox_id.as_str().is_empty() {
        let part = prefixed_escaped("deviceExternalId=", log.sandbox_id.as_str());
        parts.push(part);
        assert(string_views(parts@) =~= seq!["deviceExternalId="@ + cef_escaped(log.sandbox_id@)]);
    } else {
        assert(string_views(parts@) =~= Seq::<Seq<char>>::empty());
    }
    let ghost p0 = string_views(parts@);
    assert(mapped_pairs(log.fields@, 0).0 =~= Seq::<Seq<char>>::empty());
    assert(p0 + mapped_pairs(log.fields@, 0).0 =~= p0);
    let mut used: Vec<&'static str> = Vec::new();
    let mut i: usize = 0;
    while i < 13
        invariant
            i <= 13,
            string_views(parts@) == p0 + mapped_pairs(log.fields@, i as nat).0,
            used@.map_values(|u: &'static str| u@) == mapped_pairs(log.fields@, i as nat).1,
        decreases 13 - i,
    {
        let (src, key) = cef_key_mapping(i);
        let ghost prev_parts = string_views(parts@);
        let ghost prev_used = used@.map_values(|u: &'static str| u@);
        if !contains_key(&used, key) {
            match field_get(&log.fields, src) {
                Some(v) => {
                    let mut pair = String::new();
                    push_str(&mut pair, key);
                    pair.push('=');
                    push_cef_escaped(&mut pair, v.as_str());
                    assert(pair@ =~= cef_pair(key@, v@));
                    parts.push(pair);
                    used.push(key);
                    assert(string_views(parts@) =~= prev_parts.push(cef_pair(key@, v@)));
                    assert(used@.map_values(|u: &'static str| u@) =~= prev_used.push(key@));
                },
                None => {},
            }
        }
        i = i + 1;
        assert(string_views(parts@) =~= p0 + mapped_pairs(log.fields@, i as nat).0);
    }
    let ghost fields = log.fields@;
    let ghost p1 = string_views(parts@);
    assert(p1 == p0 + mapped_pairs(fields, 13).0);
    match field_get(&log.fields, "denial_stage") {
        Some(v) => {
            let part = prefixed_escaped("cs1Label=stage cs1=", v.as_str());
            parts.push(part);
            assert(string_views(parts@) =~= p1.push("cs1Label=stage cs1="@ + cef_escaped(v@)));
        },
        None => {
            assert(string_views(parts@) =~= p1);
        },
    }
    let ghost p2 = string_views(parts@);
    match field_get(&log.fields, "policy") {
        Some(v) => {
            let part = prefixed_escaped("cs2Label=policy cs2=", v.as_str());
            parts.push(part);
            assert(string_views(parts@) =~= p2.push("cs2Label=policy cs2="@ + cef_escaped(v@)));
        },
        None => {
            assert(string_views(parts@) =~= p2);
        },
    }
    let ghost p3 = string_views(parts@);
    if log.timestamp_ms > 0 {
        let mut rt = String::new();
        push_str(&mut rt, "rt=");
        push_decimal(&mut rt, log.timestamp_ms as u64);
        assert(rt@ =~= "rt="@ + decimal(log.timestamp_ms as nat));
        parts.push(rt);
        assert(string_views(parts@) =~= p3.push("rt="@ + decimal(log.timestamp_ms as nat)));
    } else {
        assert(string_views(parts@) =~= p3);
    }
    assert(string_views(parts@) =~= cef_extension_parts(log));
    join_with_space(&parts)
}

/// The CEF severity and event class id of a line.
fn classify(log: &SandboxLogLine) -> (r: (u8, &'static str))
    ensures
        r.0 == cef_classification(cef_action(log.fields@), log.level@).0,
        r.1@ == cef_classification(cef_action(log.fields@), log.level@).1,
{
    let action: &str = match field_get(&log.fields, "action") {
        Some(v) => v.as_str(),
        None => match field_get(&log.fields, "l7_action") {
            Some(v) => v.as_str(),
            None => match field_get(&log.fields, "l7_decision") {
                Some(v) => v.as_str(),
                None => "",
            },
        },
    };
    proof {
        reveal_strlit("");
    }
    assert(action@ == cef_action(log.fields@));
    if str_eq(action, "deny") {
        (7, "POLICY_DENY")
    } else if str_eq(action, "audit") {
        (5, "POLICY_AUDIT")
    } else if str_eq(action, "allow") {
        (2, "POLICY_ALLOW")
    } else {
        let u = ascii_uppercase(log.level.as_str());
        if chars_eq(u.as_slice(), chars_of("ERROR").as_slice()) {
            (8, "ERROR")
        } else if chars_eq(u.as_slice(), chars_of("WARN").as_slice()) || chars_eq(
            u.as_slice(),
            chars_of("WARNING").as_slice(),
        ) {
            (5, "WARN")
        } else {
            (2, "LOG")
        }
    }
}

/// Formats a log line as a CEF message wrapped in an RFC 5424 syslog header.
pub fn format_cef_syslog(log: &SandboxLogLine, hostname: &str) -> (s: String)
    ensures
        s@ == cef_syslog_message(log, hostname@),
{
    let (cef_severity, sig_id) = classify(log);
    let syslog_sev: u8 = if 8 <= cef_severity && cef_severity <= 10 {
        3
    } else if 6 <= cef_severity && cef_severity <= 7 {
        4
    } else if 4 <= cef_severity && cef_severity <= 5 {
        5
    } else {
        6
    };
    let pri: u8 = 10u8 * 8 + syslog_sev;
    assert(syslog_sev == syslog_severity(cef_severity));
    assert(pri as nat == syslog_pri(cef_severity));
    let ts = format_rfc3339(log.timestamp_ms);
    let ext = build_cef_extension(log);
    let mut s = String::new();
    s.push('<');
    push_decimal(&mut s, pri as u64);
    push_str(&mut s, ">1 ");
    push_str(&mut s, ts.as_str());
    s.push(' ');
    push_str(&mut s, hostname);
    push_str(&mut s, " openshell-server - - - CEF:0|NVIDIA|OpenShell|");
    push_str(&mut s, VERSION);
    s.push('|');
    push_str(&mut s, sig_id);
    s.push('|');
    push_cef_escaped(&mut s, log.message.as_str());
    s.push('|');
    push_decimal(&mut s, cef_severity as u64);
    s.push('|');
    push_str(&mut s, ext.as_str());
    assert(s@ =~= cef_syslog_message(log, hostname@));
    s
}

// ── Exporter decisions ─────────────────────────────────────────────────────

/// Length in bytes of the UTF-8 encoding of a text, as `str::len` reports it.
pub open spec fn utf8_len(s: Seq<char>) -> nat {
    (encode_utf8(s).len() as usize) as nat
}

/// RFC 5425 octet-count framing of a message: `"<len> <msg>\n"`.
pub open spec fn octet_framed(msg: Seq<char>) -> Seq<char> {
    decimal(utf8_len(msg)) + seq![' '] + msg + seq!['\n']
}

/// What the exporter sends for a line: nothing when the line is below the
/// minimum level, else the syslog message, octet-count framed over TCP and
/// bare over UDP.
pub open spec fn syslog_payload_spec(log: &SandboxLogLine, config: &SyslogConfig) -> Option<
    Seq<char>,
> {
    if !config.min_level.spec_passes(log.level@) {
        None
    } else {
        let msg = cef_syslog_message(log, config.hostname@);
        match config.protocol {
            SyslogProtocol::Tcp => Some(octet_framed(msg)),
            SyslogProtocol::Udp => Some(msg),
        }
    }
}

/// Frames a message with its RFC 5425 octet count.
pub fn frame_octet_counted(msg: &str) -> (s: String)
    ensures
        s@ == octet_framed(msg@),
{
    let len: usize = msg.len();
    let mut s = String::new();
    push_decimal(&mut s, len as u64);
    s.push(' ');
    push_str(&mut s, msg);
    s.push('\n');
    assert(s@ =~= octet_framed(msg@));
    s
}

/// The payload to send for a line, or `None` when the line is filtered out
/// by the minimum level.
pub fn syslog_payload(log: &SandboxLogLine, config: &SyslogConfig) -> (r: Option<String>)
    ensures
        match r {
            Some(p) => syslog_payload_spec(log, config) == Some(p@),
            None => syslog_payload_spec(log, config) is None,
        },
{
    if !config.min_level.passes(log.level.as_str()) {
        return None;
    }
    let msg = format_cef_syslog(log, config.hostname.as_str());
    match config.protocol {
        SyslogProtocol::Tcp => Some(frame_octet_counted(msg.as_str())),
        SyslogProtocol::Udp => Some(msg),
    }
}

/// Longest pause between two connection attempts, in seconds.
pub const MAX_BACKOFF_SECS: u64 = 60;

/// What the TCP exporter does with one received log line. Delivery is best
/// effort: while the connection is down, each event gets one reconnect
/// attempt and is dropped if that attempt fails, so nothing is buffered.
pub enum TcpLineAction {
    /// The line is below the minimum level: nothing is sent.
    Skip,
    /// Write this framed message on the open connection.
    Send(String),
    /// No connection is open: make one connection attempt, then write this
    /// framed message if it succeeded, or drop it if it failed.
    ConnectThenSend(String),
    /// The event is dropped: its one reconnect attempt has been spent.
    Drop,
}

/// Connection state of the TCP exporter: whether a connection is open and
/// how long to wait after the next failed attempt. The wait starts at one
/// second, doubles after each failure, is capped at a minute and is reset by
/// a successful connection.
pub struct TcpExporterState {
    connected: bool,
    backoff_secs: u64,
}

impl TcpExporterState {
    /// The wait always stays between one second and a minute.
    #[verifier::type_invariant]
    spec fn backoff_in_range(self) -> bool {
        1 <= self.backoff_secs <= MAX_BACKOFF_SECS
    }

    /// Whether a connection is open.
    pub closed spec fn spec_connected(self) -> bool {
        self.connected
    }

    /// The wait after the next failed attempt, in seconds.
    pub closed spec fn spec_backoff_secs(self) -> u64 {
        self.backoff_secs
    }

    /// Not connected, first wait one second.
    pub fn new() -> (s: Self)
        ensures
            !s.spec_connected(),
            s.spec_backoff_secs() == 1,
    {
        TcpExporterState { connected: false, backoff_secs: 1 }
    }

    /// Whether a connection is open.
    pub fn connected(&self) -> (r: bool)
        ensures
            r == self.spec_connected(),
    {
        self.connected
    }

    /// The wait after the next failed attempt, in seconds.
    pub fn backoff_secs(&self) -> (r: u64)
        ensures
            r == self.spec_backoff_secs(),
            1 <= r <= MAX_BACKOFF_SECS,
    {
        proof {
            use_type_invariant(self);
        }
        self.backoff_secs
    }

    /// A connection attempt succeeded: connected, and the wait is reset.
    pub fn on_connected(&mut self)
        ensures
            final(self).spec_connected(),
            final(self).spec_backoff_secs() == 1,
    {
        proof {
            use_type_invariant(&*self);
        }
        self.connected = true;
        self.backoff_secs = 1;
    }

    /// A connection attempt failed: the event it was made for is dropped.
    /// Returns how long to wait before the next event and doubles the next
    /// wait, up to a minute.
    pub fn on_connect_failed(&mut self) -> (sleep_secs: u64)
        ensures
            sleep_secs == old(self).spec_backoff_secs(),
            !final(self).spec_connected(),
            final(self).spec_backoff_secs() as int == (if 2 * old(self).spec_backoff_secs()
                <= MAX_BACKOFF_SECS {
                2 * old(self).spec_backoff_secs()
            } else {
                MAX_BACKOFF_SECS as int
            }),
    {
        proof {
            use_type_invariant(&*self);
        }
        let sleep_secs: u64 = self.backoff_secs;
        let doubled: u64 = self.backoff_secs * 2;
        self.connected = false;
        self.backoff_secs = if doubled <= MAX_BACKOFF_SECS {
            doubled
        } else {
            MAX_BACKOFF_SECS
        };
        sleep_secs
    }

    /// Decides what to do with one received log line: skip it when it is
    /// filtered out, send its framed message on the open connection, or,
    /// while no connection is open, try once to reconnect before sending it.
    pub fn on_line(&self, log: &SandboxLogLine, config: &SyslogConfig) -> (a: TcpLineAction)
        ensures
            match syslog_payload_spec(log, config) {
                None => a is Skip,
                Some(p) => if self.spec_connected() {
                    a matches TcpLineAction::Send(m) && m@ == p
                } else {
                    a matches TcpLineAction::ConnectThenSend(m) && m@ == p
                },
            },
    {
        match syslog_payload(log, config) {
            None => TcpLineAction::Skip,
            Some(m) => if self.connected {
                TcpLineAction::Send(m)
            } else {
                TcpLineAction::ConnectThenSend(m)
            },
        }
    }

    /// Writing `framed` failed and the connection is closed. An event that
    /// met an open connection still has its one reconnect attempt, and gets
    /// `ConnectThenSend(framed)`; an event whose connection was opened for it
    /// has spent that attempt and is dropped.
    pub fn on_write_failed(&mut self, framed: String, reconnected_for_event: bool) -> (a: TcpLineAction)
        ensures
            !final(self).spec_connected(),
            final(self).spec_backoff_secs() == old(self).spec_backoff_secs(),
            if reconnected_for_event {
                a is Drop
            } else {
                a matches TcpLineAction::ConnectThenSend(m) && m@ == framed@
            },
    {
        proof {
            use_type_invariant(&*self);
        }
        self.connected = false;
        if reconnected_for_event {
            TcpLineAction::Drop
        } else {
            TcpLineAction::ConnectThenSend(framed)
        }
    }
}

/// How the exporter reaches the collector.
pub enum SyslogTransport<'a> {
    /// UDP datagrams.
    Udp,
    /// TCP without TLS.
    PlainTcp,
    /// TCP wrapped in TLS with this configuration.
    Tls(&'a SyslogTlsConfig),
}

/// The transport of a configuration: UDP ignores the TLS settings; TCP is
/// wrapped in TLS exactly when a TLS configuration is present.
pub fn syslog_transport(config: &SyslogConfig) -> (r: SyslogTransport<'_>)
    ensures
        config.protocol == SyslogProtocol::Udp ==> r is Udp,
        config.protocol == SyslogProtocol::Tcp && config.tls is None ==> r is PlainTcp,
        config.protocol == SyslogProtocol::Tcp && config.tls is Some ==> r == SyslogTransport::Tls(
            &config.tls->0,
        ),
{
    match config.protocol {
        SyslogProtocol::Udp => SyslogTransport::Udp,
        SyslogProtocol::Tcp => match &config.tls {
            Some(t) => SyslogTransport::Tls(t),
            None => SyslogTransport::PlainTcp,
        },
    }
}

/// Two configurations that differ at most in their TLS settings (and their
/// target) produce the same message for every log line: TLS changes how a
/// message travels, never what is sent.
pub proof fn lemma_payload_ignores_tls(log: &SandboxLogLine, a: &SyslogConfig, b: &SyslogConfig)
    requires
        a.protocol == b.protocol,
        a.min_level == b.min_level,
        a.hostname@ == b.hostname@,
    ensures
        syslog_payload_spec(log, a) == syslog_payload_spec(log, b),
{
}

/// How the TLS client verifies the collector.
pub enum TlsTrust<'a> {
    /// Accept any certificate (encrypted, unauthenticated).
    SkipVerification,
    /// Verify against the CA certificates in the PEM file at this path.
    CustomCa(&'a PathBuf),
    /// Verify against the Mozilla root CA bundle.
    WebPkiRoots,
}

/// The trust source of a TLS configuration: skipping verification wins over
/// a custom CA, which wins over the Mozilla roots.
pub fn tls_trust(cfg: &SyslogTlsConfig) -> (r: TlsTrust<'_>)
    ensures
        cfg.skip_verify ==> r is SkipVerification,
        !cfg.skip_verify && cfg.ca_cert is Some ==> r == TlsTrust::CustomCa(
            &cfg.ca_cert->0,
        ),
        !cfg.skip_verify && cfg.ca_cert is None ==> r is WebPkiRoots,
{
    if cfg.skip_verify {
        TlsTrust::SkipVerification
    } else {
        match &cfg.ca_cert {
            Some(path) => TlsTrust::CustomCa(path),
            None => TlsTrust::WebPkiRoots,
        }
    }
}

// ── CA certificates ────────────────────────────────────────────────────────

/// `rustls::RootCertStore`, the trust anchors a TLS client verifies against.
#[verifier::external_type_specification]
#[verifier::external_body]
pub struct ExRootCertStore(rustls::RootCertStore);

/// A trust anchor as plain values: DER of the subject, of the subject public
/// key info, and of the optional name constraints.
pub type AnchorView = (Seq<u8>, Seq<u8>, Option<Seq<u8>>);

/// The trust anchors held by a root store, in the order they were added.
pub uninterp spec fn root_store_anchors(store: RootCertStore) -> Seq<(Seq<u8>, Seq<u8>, Option<Seq<u8>>)>;

/// The trust anchor that `webpki::anchor_from_trusted_cert` extracts from a
/// DER certificate, or `None` when the certificate does not parse.
pub uninterp spec fn trust_anchor_of(der: Seq<u8>) -> Option<(Seq<u8>, Seq<u8>, Option<Seq<u8>>)>;

/// What `rustls_pemfile::certs` reads from a PEM text: the DER of each
/// certificate section up to the first error, and that error's message.
pub uninterp spec fn pem_certificates(pem: Seq<u8>) -> (Seq<Seq<u8>>, Option<Seq<char>>);

/// `rustls::RootCertStore::empty`: a store with no anchors (its source builds
/// an empty list).
#[verifier::external_body]
fn root_store_empty() -> (s: RootCertStore)
    ensures
        root_store_anchors(s) == Seq::<AnchorView>::empty(),
{
    RootCertStore::empty()
}

/// `rustls::RootCertStore::add` with the certificate given as DER bytes. Its
/// source pushes the anchor that `anchor_from_trusted_cert` extracts and
/// fails, leaving the store unchanged, when extraction fails. The error text
/// is rustls's message and is not stated.
#[verifier::external_body]
fn root_store_add(store: &mut RootCertStore, der: &[u8]) -> (r: Result<(), String>)
    ensures
        match r {
            Ok(()) => trust_anchor_of(der@) is Some && root_store_anchors(*final(store))
                == root_store_anchors(*old(store)).push(trust_anchor_of(der@)->0),
            Err(_) => trust_anchor_of(der@) is None && root_store_anchors(*final(store))
                == root_store_anchors(*old(store)),
        },
{
    store.add(rustls::pki_types::CertificateDer::from(der.to_vec())).map_err(|e| e.to_string())
}

/// `rustls_pemfile::certs` over an in-memory PEM text, read up to its first
/// error: the DER of each certificate before it, and the error's message.
/// Believed: these are `pem_certificates(pem)`.
#[verifier::external_body]
fn read_pem_certificates(pem: &[u8]) -> (r: (Vec<Vec<u8>>, Option<String>))
    ensures
        pem_certificates(pem@) == (r.0@.map_values(|c: Vec<u8>| c@), match r.1 {
            Some(m) => Some(m@),
            None => None,
        }),
{
    let mut certs = Vec::new();
    for item in rustls_pemfile::certs(&mut &pem[..]) {
        match item {
            Ok(cert) => certs.push(cert.to_vec()),
            Err(e) => return (certs, Some(e.to_string())),
        }
    }
    (certs, None)
}

/// Why loading CA certificates failed.
pub enum CaCertError {
    /// A PEM section could not be read; rustls-pemfile's message.
    Read(String),
    /// A certificate is not a usable trust anchor; rustls's message.
    Add(String),
}

/// Index of the first certificate that is not a usable trust anchor.
pub open spec fn first_unusable(certs: Seq<Seq<u8>>) -> Option<int> {
    if exists|i: int| 0 <= i < certs.len() && trust_anchor_of(#[trigger] certs[i]) is None {
        Some(
            choose|i: int|
                0 <= i < certs.len() && trust_anchor_of(#[trigger] certs[i]) is None && forall|j: int|
                    0 <= j < i ==> trust_anchor_of(#[trigger] certs[j]) is Some,
        )
    } else {
        None
    }
}

/// Whether `anchors` are the trust anchors of `certs`, one per certificate
/// in order.
pub open spec fn anchors_of(certs: Seq<Seq<u8>>, anchors: Seq<AnchorView>) -> bool {
    &&& anchors.len() == certs.len()
    &&& forall|i: int| 0 <= i < certs.len() ==> #[trigger] anchors[i] == trust_anchor_of(certs[i])->0
}

/// Builds a root store from the CA certificates of a PEM text, certificate
/// by certificate in file order: the first certificate that is not a usable
/// trust anchor fails the load; a PEM reading error after the certificates
/// read so far fails it; otherwise every certificate becomes an anchor.
pub fn load_ca_roots(pem: &[u8]) -> (r: Result<RootCertStore, CaCertError>)
    ensures
        ({
            let (certs, read_err) = pem_certificates(pem@);
            match r {
                Ok(store) => first_unusable(certs) is None && read_err is None && anchors_of(
                    certs,
                    root_store_anchors(store),
                ),
                Err(CaCertError::Add(_)) => first_unusable(certs) is Some,
                Err(CaCertError::Read(m)) => first_unusable(certs) is None && read_err == Some(m@),
            }
        }),
{
    let (certs, read_err) = read_pem_certificates(pem);
    let ghost cs = certs@.map_values(|c: Vec<u8>| c@);
    let mut roots = root_store_empty();
    let mut i: usize = 0;
    while i < certs.len()
        invariant
            i <= certs@.len(),
            cs == certs@.map_values(|c: Vec<u8>| c@),
            pem_certificates(pem@).0 == cs,
            forall|j: int| 0 <= j < i ==> trust_anchor_of(#[trigger] cs[j]) is Some,
            anchors_of(cs.take(i as int), root_store_anchors(roots)),
        decreases certs@.len() - i,
    {
        match root_store_add(&mut roots, certs[i].as_slice()) {
            Ok(()) => {},
            Err(e) => {
                proof {
                    let k: int = i as int;
                    assert(trust_anchor_of(cs[k]) is None);
                    let f = first_unusable(cs);
                    assert(f is Some);
                }
                return Err(CaCertError::Add(e));
            },
        }
        assert(cs.take(i + 1) =~= cs.take(i as int).push(cs[i as int]));
        i = i + 1;
    }
    assert(cs.take(certs@.len() as int) =~= cs);
    assert(first_unusable(cs) is None);
    match read_err {
        Some(m) => Err(CaCertError::Read(m)),
        None => Ok(roots),
    }
}

} // verus!
