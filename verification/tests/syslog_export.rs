use openshell::calendar::{days_to_ymd, MAX_YMD_DAYS};
use openshell::config::SocketAddress;
use openshell::syslog::{
    cef_escape, format_cef_syslog, format_rfc3339, frame_octet_counted, syslog_payload, tls_trust,
    SandboxLogLine, SyslogConfig, SyslogMinLevel, SyslogProtocol, SyslogTlsConfig,
    TcpExporterState, TcpLineAction, TlsTrust, SyslogTransport, syslog_transport,
};
use std::path::PathBuf;

fn make_log(level: &str, message: &str, fields: &[(&str, &str)]) -> SandboxLogLine {
    SandboxLogLine {
        sandbox_id: "sb-test".to_string(),
        timestamp_ms: 1_742_300_000_000,
        level: level.to_string(),
        target: "openshell_sandbox::proxy".to_string(),
        message: message.to_string(),
        source: "sandbox".to_string(),
        fields: fields
            .iter()
            .map(|(k, v)| (k.to_string(), v.to_string()))
            .collect(),
    }
}

fn config(protocol: SyslogProtocol, min_level: SyslogMinLevel) -> SyslogConfig {
    SyslogConfig {
        target: SocketAddress::V4 { octets: [10, 0, 0, 1], port: 514 },
        protocol,
        min_level,
        hostname: "gw".to_string(),
        tls: None,
    }
}

#[test]
fn cef_deny_event_contains_expected_fields() {
    let log = make_log(
        "INFO",
        "CONNECT",
        &[
            ("action", "deny"),
            ("dst_host", "evil.example.com"),
            ("dst_port", "443"),
            ("binary", "/usr/bin/curl"),
            ("deny_reason", "no matching policy"),
            ("denial_stage", "connect"),
        ],
    );
    let msg = format_cef_syslog(&log, "gateway-1");

    assert!(msg.contains("CEF:0|NVIDIA|OpenShell|"), "missing CEF header");
    assert!(msg.contains("POLICY_DENY"), "wrong sig_id");
    assert!(msg.contains("dst=evil.example.com"), "missing dst");
    assert!(msg.contains("dpt=443"), "missing dpt");
    assert!(msg.contains("sproc=/usr/bin/curl"), "missing sproc");
    assert!(msg.contains("act=deny"), "missing act");
    assert!(msg.contains("reason=no matching policy"), "missing reason");
    assert!(msg.contains("cs1Label=stage"), "missing stage label");
    assert!(msg.contains("cs1=connect"), "missing stage value");
    assert!(msg.contains("deviceExternalId=sb-test"), "missing sandbox id");
}

#[test]
fn cef_l7_audit_event() {
    let log = make_log(
        "INFO",
        "L7_REQUEST",
        &[
            ("l7_decision", "audit"),
            ("l7_method", "POST"),
            ("l7_target", "/v1/chat/completions"),
            ("l7_protocol", "openai_chat_completions"),
            ("dst_host", "api.openai.com"),
        ],
    );
    let msg = format_cef_syslog(&log, "gw");
    assert!(msg.contains("POLICY_AUDIT"), "wrong sig_id");
    assert!(msg.contains("act=audit"), "missing act");
    assert!(msg.contains("requestMethod=POST"), "missing method");
    assert!(msg.contains("request=/v1/chat/completions"), "missing path");
    assert!(msg.contains("app=openai_chat_completions"), "missing protocol");
}

#[test]
fn cef_escape_special_chars() {
    assert_eq!(cef_escape("a=b"), "a\\=b");
    assert_eq!(cef_escape("a\\b"), "a\\\\b");
    assert_eq!(cef_escape("a\nb"), "a\\nb");
    assert_eq!(cef_escape("plain"), "plain");
}

#[test]
fn timestamp_known_epoch() {
    let ms = 20530u64 * 86400 * 1000;
    let ts = format_rfc3339(ms as i64);
    assert_eq!(ts, "2026-03-18T00:00:00.000Z");
}

#[test]
fn timestamp_known_with_time_and_ms() {
    let base = 20530u64 * 86400 * 1000;
    let time_ms = (12 * 3600 + 34 * 60 + 56) * 1000 + 789;
    let ts = format_rfc3339((base + time_ms) as i64);
    assert_eq!(ts, "2026-03-18T12:34:56.789Z");
}

#[test]
fn timestamp_zero() {
    assert_eq!(format_rfc3339(0), "1970-01-01T00:00:00.000Z");
}

#[test]
fn min_level_passes_correctly() {
    assert!(SyslogMinLevel::Info.passes("INFO"));
    assert!(SyslogMinLevel::Info.passes("WARN"));
    assert!(SyslogMinLevel::Info.passes("ERROR"));
    assert!(!SyslogMinLevel::Info.passes("DEBUG"));

    assert!(!SyslogMinLevel::Warn.passes("INFO"));
    assert!(SyslogMinLevel::Warn.passes("WARN"));
    assert!(SyslogMinLevel::Warn.passes("ERROR"));

    assert!(!SyslogMinLevel::Error.passes("WARN"));
    assert!(SyslogMinLevel::Error.passes("ERROR"));
}

#[test]
fn syslog_header_format() {
    let log = make_log("INFO", "test", &[]);
    let msg = format_cef_syslog(&log, "my-host");
    assert!(msg.starts_with('<'), "missing PRI open bracket");
    assert!(msg.contains(">1 "), "missing RFC5424 version");
    assert!(msg.contains(" my-host "), "missing hostname");
    assert!(msg.contains(" openshell-server "), "missing app-name");
}

#[test]
fn min_level_is_case_insensitive_and_accepts_warning() {
    assert!(SyslogMinLevel::Warn.passes("warning"));
    assert!(SyslogMinLevel::Info.passes("info"));
    assert!(SyslogMinLevel::Error.passes("Error"));
    assert!(!SyslogMinLevel::Error.passes("WARNING"));
    assert!(!SyslogMinLevel::Info.passes("TRACE"));
    assert!(!SyslogMinLevel::Info.passes(""));
}

#[test]
fn cef_escape_carriage_return_and_mixed() {
    assert_eq!(cef_escape("a\rb"), "a\\rb");
    assert_eq!(cef_escape("k=v\\x\n"), "k\\=v\\\\x\\n");
    assert_eq!(cef_escape(""), "");
    assert_eq!(cef_escape("é=ü"), "é\\=ü");
}

#[test]
fn days_to_ymd_known_dates() {
    assert_eq!(days_to_ymd(0), (1970, 1, 1));
    assert_eq!(days_to_ymd(31), (1970, 2, 1));
    assert_eq!(days_to_ymd(59), (1970, 3, 1));
    assert_eq!(days_to_ymd(364), (1970, 12, 31));
    assert_eq!(days_to_ymd(365), (1971, 1, 1));
    assert_eq!(days_to_ymd(11016), (2000, 2, 29));
    assert_eq!(days_to_ymd(19782), (2024, 2, 29));
    assert_eq!(days_to_ymd(20530), (2026, 3, 18));
    // 2100 is not a leap year.
    assert_eq!(days_to_ymd(47540), (2100, 2, 28));
    assert_eq!(days_to_ymd(47541), (2100, 3, 1));
    assert_eq!(days_to_ymd(MAX_YMD_DAYS), (4294967295, 12, 31));
}

#[test]
fn timestamp_leap_day_and_negative() {
    assert_eq!(format_rfc3339(19782 * 86_400_000 + 1), "2024-02-29T00:00:00.001Z");
    assert_eq!(format_rfc3339(-5), "1970-01-01T00:00:00.000Z");
    assert_eq!(format_rfc3339(999), "1970-01-01T00:00:00.999Z");
    assert_eq!(format_rfc3339(i64::MAX), "292278994-08-17T07:12:55.807Z");
}

#[test]
fn cef_first_source_wins_and_optional_parts() {
    let log = make_log(
        "INFO",
        "m",
        &[
            ("host", "second.example"),
            ("dst_host", "first.example"),
            ("action", "allow"),
            ("l7_action", "deny"),
            ("policy", "p=1"),
        ],
    );
    let msg = format_cef_syslog(&log, "h");
    assert!(msg.contains("|POLICY_ALLOW|m|2|"));
    assert!(msg.starts_with("<86>1 2025-03-18T"));
    assert!(msg.ends_with(
        "|deviceExternalId=sb-test dst=first.example act=deny cs2Label=policy cs2=p\\=1 rt=1742300000000"
    ));
    assert!(!msg.contains("second.example"));
}

#[test]
fn cef_severity_from_level_without_action() {
    let mut log = make_log("error", "boom", &[]);
    log.sandbox_id = String::new();
    log.timestamp_ms = 0;
    let msg = format_cef_syslog(&log, "h");
    assert_eq!(
        msg,
        "<83>1 1970-01-01T00:00:00.000Z h openshell-server - - - CEF:0|NVIDIA|OpenShell|0.1.0|ERROR|boom|8|"
    );
    let warn = make_log("Warning", "w", &[]);
    assert!(format_cef_syslog(&warn, "h").contains("|WARN|w|5|"));
    assert!(format_cef_syslog(&warn, "h").starts_with("<85>"));
    let audit = make_log("INFO", "a", &[("l7_decision", "audit")]);
    assert!(format_cef_syslog(&audit, "h").starts_with("<85>"));
    let deny = make_log("INFO", "d", &[("action", "deny")]);
    assert!(format_cef_syslog(&deny, "h").starts_with("<84>"));
}

#[test]
fn octet_counting_uses_utf8_bytes() {
    assert_eq!(frame_octet_counted("abc"), "3 abc\n");
    assert_eq!(frame_octet_counted("é"), "2 é\n");
    assert_eq!(frame_octet_counted(""), "0 \n");
}

#[test]
fn payload_filters_and_frames() {
    let log = make_log("DEBUG", "x", &[]);
    assert!(syslog_payload(&log, &config(SyslogProtocol::Tcp, SyslogMinLevel::Info)).is_none());

    let log = make_log("WARN", "x", &[]);
    let udp = syslog_payload(&log, &config(SyslogProtocol::Udp, SyslogMinLevel::Warn)).unwrap();
    assert_eq!(udp, format_cef_syslog(&log, "gw"));
    let tcp = syslog_payload(&log, &config(SyslogProtocol::Tcp, SyslogMinLevel::Warn)).unwrap();
    assert_eq!(tcp, format!("{} {}\n", udp.len(), udp));
    assert!(syslog_payload(&log, &config(SyslogProtocol::Tcp, SyslogMinLevel::Error)).is_none());
}

#[test]
fn backoff_doubles_caps_and_resets() {
    let mut st = TcpExporterState::new();
    assert!(!st.connected());
    let sleeps: Vec<u64> = (0..8).map(|_| st.on_connect_failed()).collect();
    assert_eq!(sleeps, vec![1, 2, 4, 8, 16, 32, 60, 60]);
    assert_eq!(st.backoff_secs(), 60);
    st.on_connected();
    assert!(st.connected());
    assert_eq!(st.backoff_secs(), 1);
    assert!(matches!(st.on_write_failed("m".to_string(), true), TcpLineAction::Drop));
    assert!(!st.connected());
    assert_eq!(st.backoff_secs(), 1);
}

#[test]
fn tls_trust_selection() {
    let skip = SyslogTlsConfig {
        server_name: "c".into(),
        ca_cert: Some(PathBuf::from("/ca.pem")),
        skip_verify: true,
    };
    assert!(matches!(tls_trust(&skip), TlsTrust::SkipVerification));
    let custom = SyslogTlsConfig { server_name: "c".into(), ca_cert: Some(PathBuf::from("/ca.pem")), skip_verify: false };
    match tls_trust(&custom) {
        TlsTrust::CustomCa(p) => assert_eq!(p, &PathBuf::from("/ca.pem")),
        _ => panic!("expected custom CA"),
    }
    let roots = SyslogTlsConfig { server_name: "c".into(), ca_cert: None, skip_verify: false };
    assert!(matches!(tls_trust(&roots), TlsTrust::WebPkiRoots));
}

/// Reads an escaped CEF value back, left to right.
fn cef_unescape(s: &str) -> String {
    let mut out = String::new();
    let mut chars = s.chars().peekable();
    while let Some(c) = chars.next() {
        let code = match (c, chars.peek().copied()) {
            ('\\', Some('\\')) => Some('\\'),
            ('\\', Some('=')) => Some('='),
            ('\\', Some('n')) => Some('\n'),
            ('\\', Some('r')) => Some('\r'),
            _ => None,
        };
        match code {
            Some(x) => {
                chars.next();
                out.push(x);
            }
            None => out.push(c),
        }
    }
    out
}

#[test]
fn cef_escape_round_trips_and_adds_one_char_per_escape() {
    for s in ["", "plain", "a=b", "a\\b", "line1\nline2\r", "\\n", "==\\\\", "k=v\\=\n"] {
        let e = cef_escape(s);
        assert_eq!(cef_unescape(&e), s);
        let specials = s.chars().filter(|c| matches!(c, '\\' | '=' | '\n' | '\r')).count();
        assert_eq!(e.chars().count(), s.chars().count() + specials);
        assert!(!e.contains('\n') && !e.contains('\r'));
    }
    assert_eq!(cef_escape("\\n"), "\\\\n");
    assert_ne!(cef_escape("\\n"), cef_escape("\n"));
}

#[test]
fn tcp_line_reconnects_once_per_event_while_down() {
    let cfg = config(SyslogProtocol::Tcp, SyslogMinLevel::Info);
    let log = make_log("INFO", "CONNECT", &[("action", "allow")]);
    let expected = syslog_payload(&log, &cfg).expect("passes the filter");
    let mut st = TcpExporterState::new();
    match st.on_line(&log, &cfg) {
        TcpLineAction::ConnectThenSend(m) => assert_eq!(m, expected),
        _ => panic!("a closed connection is retried once for the event"),
    }
    // The attempt failed: the event is dropped and the state stays down.
    assert_eq!(st.on_connect_failed(), 1);
    match st.on_line(&log, &cfg) {
        TcpLineAction::ConnectThenSend(m) => assert_eq!(m, expected),
        _ => panic!("the next event gets its own reconnect attempt"),
    }
    st.on_connected();
    match st.on_line(&log, &cfg) {
        TcpLineAction::Send(m) => assert_eq!(m, expected),
        _ => panic!("an open connection sends"),
    }
    // A write on a connection that was already open fails: the event gets
    // its one reconnect attempt.
    match st.on_write_failed(expected.clone(), false) {
        TcpLineAction::ConnectThenSend(m) => assert_eq!(m, expected),
        _ => panic!("a failed write on an old connection is retried once"),
    }
    assert!(!st.connected());
    // The connection opened for the event fails too: the event is dropped.
    st.on_connected();
    assert!(matches!(st.on_write_failed(expected.clone(), true), TcpLineAction::Drop));
    assert!(matches!(st.on_line(&log, &cfg), TcpLineAction::ConnectThenSend(_)));
    let debug = make_log("DEBUG", "noise", &[]);
    assert!(matches!(st.on_line(&debug, &cfg), TcpLineAction::Skip));
}

#[test]
fn transport_follows_protocol_and_tls() {
    let tls = SyslogTlsConfig { server_name: "c".into(), ca_cert: None, skip_verify: false };
    let mut udp = config(SyslogProtocol::Udp, SyslogMinLevel::Info);
    assert!(matches!(syslog_transport(&udp), SyslogTransport::Udp));
    let log = make_log("WARN", "CONNECT", &[("action", "deny")]);
    let plain = syslog_payload(&log, &udp);
    udp.tls = Some(SyslogTlsConfig { server_name: "c".into(), ca_cert: None, skip_verify: false });
    assert!(matches!(syslog_transport(&udp), SyslogTransport::Udp));
    assert_eq!(syslog_payload(&log, &udp), plain);
    let mut tcp = config(SyslogProtocol::Tcp, SyslogMinLevel::Info);
    assert!(matches!(syslog_transport(&tcp), SyslogTransport::PlainTcp));
    tcp.tls = Some(tls);
    match syslog_transport(&tcp) {
        SyslogTransport::Tls(t) => assert_eq!(t.server_name, "c"),
        _ => panic!("TCP with a TLS configuration uses TLS"),
    }
}

#[test]
fn cef_escape_byte_length_adds_one_per_escape() {
    assert_eq!(cef_escape("é=ü\\").len(), "é=ü\\".len() + 2);
    assert_eq!(cef_escape("日本\n").len(), "日本\n".len() + 1);
}
