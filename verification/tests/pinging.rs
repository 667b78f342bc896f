use rustytools::echo::PingError;
use rustytools::ping::{
    header_line, is_fatal, is_timeout_text, log_file_names, log_line, looks_like_timeout, ping_report,
    unix_failure, unix_failure_of, unresolved_report, windows_failure, windows_timeout, PingStatus, PingWorker,
    UnixFailure,
};
use rustytools::stats::{LossLevel, Stats};

#[test]
fn jitter_spans_losses() {
    let mut w = PingWorker::new();
    assert_eq!(w.next_seq(), 1);
    assert!(matches!(w.on_result(Ok(100)), PingStatus::Reply { rtt: 100, jitter: None }));
    assert_eq!(w.next_seq(), 2);
    assert!(matches!(w.on_result(Err(PingError::Timeout)), PingStatus::Timeout));
    assert!(matches!(w.on_result(Ok(70)), PingStatus::Reply { rtt: 70, jitter: Some(30) }));
    assert!(matches!(w.on_result(Ok(90)), PingStatus::Reply { rtt: 90, jitter: Some(20) }));
    let e = w.on_result(Err(PingError::Other("down".to_string())));
    assert!(is_fatal(&e));
    assert!(!is_fatal(&PingStatus::Timeout));
}

#[test]
fn ping_log_lines() {
    assert_eq!(header_line(), "timestamp;target;ip;seq;status;rtt_ms;jitter_ms");
    let line = |s: &PingStatus| log_line("t", "host", "10.0.0.1", 5, s, "1.234", "0.100");
    assert_eq!(line(&PingStatus::Reply { rtt: 1, jitter: Some(1) }), "t;host;10.0.0.1;5;OK;1.234;0.100");
    assert_eq!(line(&PingStatus::Reply { rtt: 1, jitter: None }), "t;host;10.0.0.1;5;OK;1.234;");
    assert_eq!(line(&PingStatus::Timeout), "t;host;10.0.0.1;5;TIMEOUT;;");
    assert_eq!(line(&PingStatus::Error("a;b".to_string())), "t;host;10.0.0.1;5;ERROR: a,b;;");
    let r = unresolved_report("t", "host", "no such host");
    assert_eq!((r.event.seq, r.event.ip, r.stop), (0, None, true));
    assert_eq!(r.line, "t;host;;0;ERROR: no such host;;");
    let ip = rustytools::ip::parse_ip("10.0.0.1").unwrap();
    let r = ping_report("t", "host", ip, "10.0.0.1", 5, PingStatus::Timeout, "", "");
    assert_eq!((r.line.as_str(), r.event.ip, r.stop), ("t;host;10.0.0.1;5;TIMEOUT;;", Some(ip), false));
    let r = ping_report("t", "host", ip, "10.0.0.1", 6, PingStatus::Error("x".to_string()), "", "");
    assert!(r.stop);
}

#[test]
fn timeouts_by_text() {
    assert!(looks_like_timeout("Request TIMEOUT", false));
    assert!(looks_like_timeout("Operation Timed Out", false));
    assert!(looks_like_timeout("Resource temporarily unavailable", false));
    assert!(looks_like_timeout("operation would BLOCK", false));
    assert!(!looks_like_timeout("permission denied", false));
    assert!(looks_like_timeout("permission denied", true));
    assert!(!is_timeout_text("TIMEOUT", false));
    assert!(matches!(windows_failure("error 11010", false), PingError::Timeout));
    assert!(matches!(windows_failure("error 5", true), PingError::Timeout));
    assert!(matches!(windows_failure("error 5", false), PingError::Other(m) if m == "error 5"));
    assert_eq!(windows_timeout(0), 1);
    assert_eq!(windows_timeout(1_999_999), 1);
    assert_eq!(windows_timeout(2_000_000_000), 2000);
    assert_eq!(windows_timeout(1_000_000u128 << 32), 0);
}

#[test]
fn statistics() {
    let mut s = Stats::default();
    assert_eq!(s.loss_level(), LossLevel::Lossless);
    assert_eq!(s.avg_rtt(), None);
    s.record_ok(100, None);
    s.record_ok(50, Some(50));
    s.record_timeout();
    assert_eq!((s.sent, s.received, s.lost()), (3, 2, 1));
    assert_eq!((s.min_rtt, s.max_rtt, s.last_rtt), (Some(50), Some(100), Some(50)));
    assert_eq!(s.avg_rtt(), Some(75));
    assert_eq!(s.avg_jitter(), Some(50));
    assert_eq!(s.last_status, "TIMEOUT");
    assert_eq!(s.loss_level(), LossLevel::High);
    s.record_error("x");
    assert_eq!((s.sent, s.last_status.as_str()), (3, "ERROR: x"));
    let mut s = Stats::default();
    for _ in 0..19 {
        s.record_ok(10, None);
    }
    s.record_timeout();
    assert_eq!(s.loss_level(), LossLevel::Slight);
    s.record_timeout();
    assert_eq!(s.loss_level(), LossLevel::High);
    assert!(s.check_room(10, Some(1)));
    assert!(!s.check_room(u128::MAX, None));
}

#[test]
fn unix_failures_fall_back_to_the_raw_socket() {
    assert!(matches!(unix_failure(false, "Permission denied", false), UnixFailure::RetryRaw));
    assert!(matches!(
        unix_failure(false, "Operation NOT permitted", true),
        UnixFailure::RetryRaw
    ));
    assert!(matches!(
        unix_failure(true, "Permission denied", false),
        UnixFailure::Failed(PingError::Other(m)) if m.starts_with("permissions insuffisantes pour ouvrir un socket ICMP — relancez en root/sudo, ou")
    ));
    assert!(matches!(
        unix_failure(false, "Timed Out", false),
        UnixFailure::Failed(PingError::Timeout)
    ));
    assert!(matches!(
        unix_failure(false, "no route", true),
        UnixFailure::Failed(PingError::Timeout)
    ));
    assert!(matches!(
        unix_failure(true, "No Route", false),
        UnixFailure::Failed(PingError::Other(m)) if m == "No Route"
    ));
    assert!(matches!(
        unix_failure_of(false, "PERMISSION", "PERMISSION", false),
        UnixFailure::Failed(PingError::Other(m)) if m == "PERMISSION"
    ));
}

#[test]
fn one_log_per_target() {
    let names = |targets: &[&str]| {
        log_file_names("20260611_140327", &targets.iter().map(|t| t.to_string()).collect())
    };
    assert_eq!(names(&["a:b"]), ["ping_20260611_140327_a_b.csv"]);
    assert_eq!(
        names(&["a:b", "8.8.8.8", "a_b", "a/b", "a_b~2"]),
        [
            "ping_20260611_140327_a_b.csv",
            "ping_20260611_140327_8.8.8.8.csv",
            "ping_20260611_140327_a_b~2.csv",
            "ping_20260611_140327_a_b~3.csv",
            "ping_20260611_140327_a_b_2.csv"
        ]
    );
    assert!(names(&[]).is_empty());
}
