use rustytools::arp::ArpEvent;
use rustytools::dns::{answer, DnsEvent};
use rustytools::ip::{parse_ip, IpAddr};
use rustytools::netconfig::{describe_interface, parse_routes_iproute, RawInterface};
use rustytools::ping::{PingEvent, PingStatus};
use rustytools::session::{
    latency_series, parse_targets, push_capped, ArpBoard, DnsBoard, PingBoard, Point, Sample, SweepView,
    TraceBoard,
};
use rustytools::traceroute::{HopInfo, ProbeStatus, TraceEvent};
use rustytools::view::{
    answer_cell, arp_state_level, host_cell, iface_heading, iface_level, minutes_and_seconds, needs_refresh,
    repaint_after, report_exported, split_interfaces, split_routes, status_level, table_exported,
    text_or_dash, vendor_cell, Level, LogActions,
};
use std::collections::VecDeque;

fn ip(s: &str) -> IpAddr {
    parse_ip(s).unwrap()
}

fn event(target: &str, seq: u64, status: PingStatus) -> PingEvent {
    PingEvent {
        target: target.to_string(),
        ip: Some(ip("10.0.0.1")),
        seq,
        status,
        timestamp: "t".to_string(),
    }
}

#[test]
fn targets() {
    assert_eq!(parse_targets(" a \n\nb\r\na\n  \n c"), ["a", "b", "c"]);
    assert!(parse_targets(" \n ").is_empty());
}

#[test]
fn capped_buffers() {
    let mut buf: VecDeque<u32> = VecDeque::new();
    for i in 0..5 {
        push_capped(&mut buf, i, 3);
    }
    assert_eq!(buf, [2, 3, 4]);
    push_capped(&mut buf, 9, 0);
    assert!(buf.is_empty());
}

#[test]
fn ping_page() {
    let mut board = PingBoard::new();
    assert_eq!(board.start(" \n").unwrap_err(), "Enter at least one target (IP or FQDN).");
    assert_eq!(board.start("a\nb").unwrap(), ["a", "b"]);
    assert_eq!(board.targets.len(), 2);

    let ev = event("b", 1, PingStatus::Reply { rtt: 1000, jitter: None });
    assert!(board.can_take(&ev));
    board.on_ping_event(&ev, 5, "1.0 ms", "");
    let ev = event("b", 2, PingStatus::Reply { rtt: 3000, jitter: Some(2000) });
    board.on_ping_event(&ev, 6, "3.0 ms", "2.0 ms");
    board.on_ping_event(&event("b", 3, PingStatus::Timeout), 7, "", "");
    let mut failed = event("b", 4, PingStatus::Error("down".to_string()));
    failed.ip = Some(ip("10.0.0.9"));
    board.on_ping_event(&failed, 8, "", "");
    let b = &board.targets[1];
    assert_eq!(b.ip, Some(ip("10.0.0.1")));
    assert_eq!((b.stats.sent, b.stats.received), (4, 2));
    assert_eq!(b.stats.last_status, "ERROR: down");
    assert_eq!(b.samples.len(), 3);
    assert_eq!(b.samples[2], Sample { at: 7, rtt: None });
    assert_eq!(board.targets[0].stats.sent, 0);

    // An error before any ping does not count as sent; an unknown target is added.
    board.on_ping_event(&event("new", 0, PingStatus::Error("no host".to_string())), 9, "", "");
    assert_eq!(board.targets.len(), 3);
    assert_eq!((board.targets[2].target.as_str(), board.targets[2].stats.sent), ("new", 0));
    let log: Vec<&str> = board.log.iter().map(|l| l.as_str()).collect();
    assert_eq!(
        log,
        [
            format!("[t] {:<24} seq={:<5} RTT=1.0 ms", "b", 1).as_str(),
            format!("[t] {:<24} seq={:<5} RTT=3.0 ms  jitter=2.0 ms", "b", 2).as_str(),
            format!("[t] {:<24} seq={:<5} TIMEOUT (packet loss)", "b", 3).as_str(),
            format!("[t] {:<24} ERROR: down", "b").as_str(),
            format!("[t] {:<24} ERROR: no host", "new").as_str(),
        ]
    );

    board.clear_results(true);
    assert_eq!(board.targets.len(), 3);
    assert_eq!(board.targets[1].stats.sent, 0);
    assert_eq!(board.targets[1].ip, Some(ip("10.0.0.1")));
    assert!(board.targets[1].samples.is_empty() && board.log.is_empty());
    board.clear_results(false);
    assert!(board.targets.is_empty());
}

#[test]
fn ping_page_limits() {
    let mut board = PingBoard::new();
    for i in 0..7300u64 {
        let ev = event("a", i + 1, PingStatus::Timeout);
        board.on_ping_event(&ev, i as u128, "", "");
    }
    assert_eq!(board.targets[0].samples.len(), 7200);
    assert_eq!(board.targets[0].samples[0].at, 100);
    assert_eq!(board.log.len(), 2000);
    assert!(!board.can_take(&event("x", 1, PingStatus::Reply { rtt: u128::MAX, jitter: None })));
}

#[test]
fn latency_graph() {
    let samples: VecDeque<Sample> = [
        Sample { at: 1, rtt: None },
        Sample { at: 2, rtt: Some(20) },
        Sample { at: 3, rtt: Some(30) },
        Sample { at: 4, rtt: None },
        Sample { at: 5, rtt: None },
        Sample { at: 6, rtt: Some(60) },
    ]
    .into_iter()
    .collect();
    let series = latency_series(&samples);
    assert_eq!(series.losses, [1, 4, 5]);
    let segments: Vec<Vec<Point>> = series.segments.into_iter().map(|s| s.points).collect();
    assert_eq!(
        segments,
        [
            vec![Point { at: 2, rtt: 20 }, Point { at: 3, rtt: 30 }],
            vec![Point { at: 6, rtt: 60 }]
        ]
    );
}

fn hop(n: u8, address: Option<&str>) -> HopInfo {
    HopInfo { hop: n, ip: address.map(ip), hostname: None, is_destination: false }
}

fn sample(n: u8, status: ProbeStatus) -> TraceEvent {
    TraceEvent::Sample { target: "a".to_string(), hop: n, status }
}

#[test]
fn trace_page() {
    let mut board = TraceBoard::new();
    assert!(board.start("").is_err());
    assert_eq!(board.start("a").unwrap(), ["a"]);
    assert_eq!(board.targets[0].status, "starting…");
    board.on_trace_event(TraceEvent::Hops {
        target: "a".to_string(),
        hops: vec![hop(1, Some("10.0.0.1")), hop(2, None)],
    });
    board.on_trace_event(sample(1, ProbeStatus::Reply { rtt: 100 }));
    let ev = sample(1, ProbeStatus::Reply { rtt: 130 });
    assert!(board.can_take(&ev));
    board.on_trace_event(ev);
    board.on_trace_event(sample(1, ProbeStatus::Timeout));
    board.on_trace_event(sample(1, ProbeStatus::Error("x".to_string())));
    board.on_trace_event(sample(9, ProbeStatus::Timeout));
    let row = &board.targets[0].hops[0];
    assert_eq!((row.stats.sent, row.stats.received, row.prev_rtt), (4, 2, Some(130)));
    assert_eq!(row.stats.last_jitter, Some(30));
    assert_eq!(row.stats.last_status, "ERROR: x");
    // The same hop keeps its figures in a new path; a hop with a new address
    // starts anew.
    board.on_trace_event(TraceEvent::Hops {
        target: "a".to_string(),
        hops: vec![hop(1, Some("10.0.0.1")), hop(2, Some("10.0.0.2"))],
    });
    assert_eq!(board.targets[0].hops[0].stats.sent, 4);
    assert_eq!(board.targets[0].hops[0].prev_rtt, Some(130));
    assert_eq!(board.targets[0].hops[1].stats.sent, 0);
    board.on_trace_event(TraceEvent::Hops {
        target: "a".to_string(),
        hops: vec![hop(1, Some("10.9.9.9"))],
    });
    assert_eq!(board.targets[0].hops[0].stats.sent, 0);
    board.on_trace_event(TraceEvent::Status { target: "b".to_string(), message: "m".to_string() });
    assert_eq!((board.targets.len(), board.targets[1].status.as_str()), (2, "m"));
}

#[test]
fn cells() {
    assert_eq!(status_level("ERROR: x"), Level::Danger);
    assert_eq!(status_level("TIMEOUT"), Level::Warning);
    assert_eq!(status_level("OK"), Level::Plain);
    assert_eq!(arp_state_level("reachable"), Level::Good);
    assert_eq!(arp_state_level("failed"), Level::Muted);
    assert_eq!(arp_state_level("stale"), Level::Warning);
    assert_eq!(vendor_cell(Some("Acme"), true), "Acme");
    assert_eq!(vendor_cell(None, true), "…");
    assert_eq!(vendor_cell(None, false), "—");
    assert_eq!(text_or_dash(&None), "—");
    assert_eq!(text_or_dash(&Some("x".to_string())), "x");
    let s = |t: &str| Some(t.to_string());
    assert_eq!(host_cell(&s("10.0.0.1"), &s("gw"), false), "gw (10.0.0.1)");
    assert_eq!(host_cell(&s("10.0.0.1"), &None, true), "10.0.0.1  ⏵ destination");
    assert_eq!(host_cell(&None, &s("gw"), false), "*");
    assert_eq!(minutes_and_seconds(0), "0:00");
    assert_eq!(minutes_and_seconds(65), "1:05");
    assert_eq!(minutes_and_seconds(3599), "59:59");
    assert_eq!(minutes_and_seconds(6000), "100:00");
    let a = answer("t", "q", "A", "s", Ok(vec!["1".to_string(), "2".to_string()]), 0);
    assert_eq!(answer_cell(&a), "1\n2");
    let a = answer("t", "q", "A", "s", Err("bad".to_string()), 0);
    assert_eq!(answer_cell(&a), "bad");
    assert_eq!(table_exported(&Ok("/x".to_string())), "Exported: /x");
    assert_eq!(report_exported(&Ok("/x".to_string())), "Report exported: /x");
    assert_eq!(report_exported(&Err("e".to_string())), "Export failed: e");
}

#[test]
fn groupings() {
    let raw = |name: &str, other: Option<&str>, is_up: bool, is_default: bool| RawInterface {
        name: name.to_string(),
        friendly_name: other.map(|o| o.to_string()),
        mac: None,
        ipv4: Vec::new(),
        ipv6: Vec::new(),
        gateway: None,
        is_up,
        is_default,
        if_type: String::new(),
        dns: Vec::new(),
    };
    let list = vec![
        describe_interface(&raw("a", Some("Office"), true, true)),
        describe_interface(&raw("b", Some("b"), false, false)),
        describe_interface(&raw("c", None, true, false)),
    ];
    assert_eq!(split_interfaces(&list), (vec![0, 2], vec![1]));
    assert_eq!(iface_heading(&list[0]), "a  (Office)");
    assert_eq!(iface_heading(&list[1]), "b");
    assert_eq!(iface_heading(&list[2]), "c");
    assert_eq!(iface_level(&list[0]), Level::Good);
    assert_eq!(iface_level(&list[1]), Level::Muted);
    assert_eq!(iface_level(&list[2]), Level::Plain);
    let routes = parse_routes_iproute("default via 1.1.1.1\n::1 dev lo\ndefault via fe80::1");
    assert_eq!(split_routes(&routes), (vec![1, 2], vec![0]));
}

#[test]
fn refreshing() {
    assert!(needs_refresh(true, false, 0));
    assert!(!needs_refresh(false, true, 2_999_999_999));
    assert!(needs_refresh(false, true, 3_000_000_000));
    assert!(!needs_refresh(false, false, 9_000_000_000));
    assert_eq!(repaint_after(true, true), Some(200_000_000));
    assert_eq!(repaint_after(false, true), Some(750_000_000));
    assert_eq!(repaint_after(false, false), None);
}

#[test]
fn log_deletion_is_confirmed() {
    let mut actions = LogActions::new();
    actions.ask("ping");
    assert!(actions.is_asking("ping") && !actions.is_asking("dns"));
    actions.cancel();
    assert!(!actions.is_asking("ping"));
    actions.ask("ping");
    actions.deleted(&Ok(3));
    assert!(!actions.is_asking("ping"));
    assert_eq!(actions.shown_message().as_deref(), Some("3 log file(s) deleted."));
    actions.deleted(&Err("denied".to_string()));
    assert_eq!(actions.shown_message().as_deref(), Some("denied"));
    actions.cannot_open("dns", "x");
    assert_eq!(actions.shown_message().as_deref(), Some("cannot open dns/: x"));
    actions.ask("dns");
    assert_eq!(actions.shown_message(), None);
}

#[test]
fn lookup_page() {
    let mut board = DnsBoard::new();
    board.running = true;
    board.on_dns_event(DnsEvent::Answer(answer("t", "q", "A", "s", Ok(Vec::new()), 0)));
    assert_eq!((board.results.len(), board.running), (1, true));
    board.on_dns_event(DnsEvent::Done);
    assert_eq!((board.results.len(), board.running), (1, false));
}

#[test]
fn arp_page() {
    let mut board = ArpBoard::new();
    board.vendor_running = true;
    let vendor = ArpEvent::Vendor { oui: "00:00:0c".to_string(), vendor: "Cisco".to_string() };
    assert!(!board.on_arp_event(vendor));
    assert_eq!(board.vendors.get("00:00:0c"), Some("Cisco"));
    assert!(!board.on_arp_event(ArpEvent::Error("m".to_string())));
    assert_eq!(board.message.as_deref(), Some("m"));
    assert!(!board.on_arp_event(ArpEvent::ScanProgress { done: 1, total: 2, alive: 0 }));
    assert_eq!(board.sweep, SweepView::Running { done: 1, total: 2, alive: 0 });
    assert!(board.on_arp_event(ArpEvent::ScanDone { alive: 1 }));
    assert_eq!(board.sweep, SweepView::Finished { alive: 1 });
    assert!(!board.on_arp_event(ArpEvent::Done));
    assert!(!board.vendor_running);
}

#[test]
fn targets_are_read_again() {
    let targets = parse_targets(" a.b \r\n\n8.8.8.8\na.b\n\tc\r");
    assert_eq!(targets, ["a.b", "8.8.8.8", "c"]);
    assert_eq!(parse_targets(&targets.join("\n")), targets);
}
