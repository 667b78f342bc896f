use std::collections::BTreeMap;

use rustytools::echo::PingError;
use rustytools::ip::{parse_ip, IpAddr};
use rustytools::text::split_on;
use rustytools::traceroute::{
    after_discovery, build_hop_infos, discovering_status, discovery_file_names, discovery_log_line, hop_hostname, is_fatal,
    monitoring_status, name_hop, naming_status, parse_hop_line, probe_csv_line, probe_file_names, probe_header,
    probe_report, probe_status,
    probed_hops, record_hop, resolve_error_status, spawn_failure, stderr_log_line, stopped_status, traceroute_commands, wire_seq,
    AfterDiscovery, Discovery, HopInfo, HopProber, ProbeStatus, TraceEvent,
};
use rustytools::units::wait_slice;
use rustytools::util::Os;

fn ip(s: &str) -> IpAddr {
    parse_ip(s).unwrap()
}

#[test]
fn hop_lines() {
    assert_eq!(
        parse_hop_line(" 1  192.168.1.1  0.512 ms  0.498 ms"),
        Some((1, Some(ip("192.168.1.1"))))
    );
    assert_eq!(parse_hop_line(" 2  * * *"), Some((2, None)));
    assert_eq!(parse_hop_line("  3    12 ms    11 ms  10.0.0.1"), Some((3, Some(ip("10.0.0.1")))));
    assert_eq!(parse_hop_line(" 4:  [10.0.0.2], 3ms"), Some((4, Some(ip("10.0.0.2")))));
    assert_eq!(parse_hop_line("5  gw (fe80::1)  1 ms"), Some((5, Some(ip("fe80::1")))));
    assert_eq!(parse_hop_line("traceroute to 8.8.8.8 (8.8.8.8), 30 hops max"), None);
    assert_eq!(parse_hop_line("0  10.0.0.1"), None);
    assert_eq!(parse_hop_line("256  10.0.0.1"), None);
    assert_eq!(parse_hop_line(""), None);
}

#[test]
fn discovery_keeps_the_first_address() {
    let mut d = Discovery::new(ip("8.8.8.8"));
    assert!(d.on_line("traceroute to 8.8.8.8").is_none());
    assert!(d.on_line("2  10.0.0.2").is_some());
    assert!(d.on_line("1  *").is_some());
    assert!(d.on_line("1  10.0.0.1").is_some());
    let path = d.on_line("1  10.9.9.9").unwrap();
    let hops: Vec<(u8, Option<IpAddr>, bool)> =
        path.iter().map(|h| (h.hop, h.ip, h.is_destination)).collect();
    assert_eq!(
        hops,
        [
            (1, Some(ip("10.0.0.1")), false),
            (2, Some(ip("10.0.0.2")), false),
            (3, Some(ip("8.8.8.8")), true)
        ]
    );
}

#[test]
fn paths_end_at_the_destination() {
    let target = ip("8.8.8.8");
    let mut table = BTreeMap::new();
    let path = build_hop_infos(&table, target);
    assert_eq!((path.len(), path[0].hop, path[0].ip), (1, 1, Some(target)));
    record_hop(&mut table, 1, None);
    record_hop(&mut table, 3, Some(target));
    record_hop(&mut table, 4, Some(ip("1.1.1.1")));
    let path = build_hop_infos(&table, target);
    assert_eq!(path.iter().map(|h| h.hop).collect::<Vec<_>>(), [1, 3]);
    assert!(path[1].is_destination && !path[0].is_destination);
    assert_eq!(probed_hops(&path), [(3, target)]);
    let mut table = BTreeMap::new();
    record_hop(&mut table, 255, None);
    let path = build_hop_infos(&table, target);
    assert_eq!(path.iter().map(|h| h.hop).collect::<Vec<_>>(), [255, 255]);
}

#[test]
fn commands_to_discover_a_path() {
    let c = traceroute_commands(Os::Windows, "8.8.8.8", 30, &Some("10.0.0.1".to_string()), &None);
    assert_eq!(c.len(), 1);
    assert_eq!(c[0].program, "tracert");
    assert_eq!(c[0].args, ["-d", "-h", "30", "-w", "1000", "8.8.8.8"]);
    let c = traceroute_commands(Os::Unix, "8.8.8.8", 12, &None, &None);
    assert_eq!(c[0].program, "traceroute");
    assert_eq!(c[0].args, ["-n", "-m", "12", "-w", "2", "8.8.8.8"]);
    assert_eq!(c[1].program, "tracepath");
    assert_eq!(c[1].args, ["-n", "-m", "12", "8.8.8.8"]);
    let c = traceroute_commands(
        Os::MacOs,
        "8.8.8.8",
        12,
        &Some("10.0.0.1".to_string()),
        &Some("en0".to_string()),
    );
    assert_eq!(c[0].args, ["-n", "-m", "12", "-w", "2", "-s", "10.0.0.1", "-i", "en0", "8.8.8.8"]);
    assert_eq!(
        spawn_failure(&vec![
            ("traceroute".to_string(), "a".to_string()),
            ("tracepath".to_string(), "not found".to_string())
        ]),
        "could not launch a traceroute (`tracepath`: not found). On Linux, install the `traceroute` package (e.g. apt install traceroute)."
    );
}

#[test]
fn trace_texts() {
    assert_eq!(resolve_error_status("x"), "error: x");
    assert_eq!((naming_status().as_str(), stopped_status().as_str()), ("resolving hop hostnames…", "stopped"));
    assert_eq!(discovering_status(30), "discovering path (max 30 hops)…");
    assert_eq!(
        monitoring_status(3, "1.0"),
        "monitoring 3 hop(s) every 1.0 s — silent hops (*) are not probed"
    );
    let targets = vec!["a/b".to_string(), "8.8.8.8".to_string(), "a:b".to_string()];
    assert_eq!(
        discovery_file_names("20260611_140327", &targets),
        [
            "discovery_20260611_140327_a_b.log",
            "discovery_20260611_140327_8.8.8.8.log",
            "discovery_20260611_140327_a_b~2.log"
        ]
    );
    assert_eq!(
        probe_file_names("20260611_140327", &targets),
        [
            "mtr_20260611_140327_a_b.csv",
            "mtr_20260611_140327_8.8.8.8.csv",
            "mtr_20260611_140327_a_b~2.csv"
        ]
    );
    let mut prober = HopProber::new();
    assert_eq!((prober.next_seq(), prober.next_seq()), (1, 2));
    assert_eq!(discovery_log_line("now", " 1 x"), "[now]  1 x");
    assert_eq!(stderr_log_line("now", "oops").as_deref(), Some("[now] [stderr] oops"));
    assert_eq!(stderr_log_line("now", "  "), None);
    assert_eq!(hop_hostname(&Some("gw".to_string()), "10.0.0.1").as_deref(), Some("gw"));
    assert_eq!(hop_hostname(&Some("10.0.0.1".to_string()), "10.0.0.1"), None);
    assert_eq!(hop_hostname(&None, "10.0.0.1"), None);
}

#[test]
fn probe_lines_have_seven_fields() {
    assert_eq!(probe_header(), "timestamp;target;hop;ip;seq;status;rtt_ms");
    let line = |s: &ProbeStatus| probe_csv_line("t", "8.8.8.8", 3, "10.0.0.1", 42, s, "1.234");
    assert_eq!(line(&ProbeStatus::Reply { rtt: 1_234_000 }), "t;8.8.8.8;3;10.0.0.1;42;OK;1.234");
    assert_eq!(line(&ProbeStatus::Timeout), "t;8.8.8.8;3;10.0.0.1;42;TIMEOUT;");
    let error = line(&ProbeStatus::Error("a;b".to_string()));
    assert_eq!(error, "t;8.8.8.8;3;10.0.0.1;42;ERROR: a,b;");
    assert_eq!(split_on(&error, ';').len(), 7);
}

#[test]
fn probe_results() {
    assert!(matches!(probe_status(Ok(5)), ProbeStatus::Reply { rtt: 5 }));
    assert!(matches!(probe_status(Err(PingError::Timeout)), ProbeStatus::Timeout));
    let fatal = probe_status(Err(PingError::Other("x".to_string())));
    assert!(matches!(&fatal, ProbeStatus::Error(m) if m == "x"));
    assert!(is_fatal(&fatal));
    assert!(!is_fatal(&ProbeStatus::Timeout));
    assert_eq!(wire_seq(65537), 1);
    assert_eq!(wait_slice(10, 10), None);
    assert_eq!(wait_slice(0, 50_000_000), Some(50_000_000));
    assert_eq!(wait_slice(0, 2_000_000_000), Some(100_000_000));
}

#[test]
fn after_the_discovery() {
    let mut d = Discovery::new(ip("8.8.8.8"));
    d.on_line("1  10.0.0.1");
    assert!(matches!(after_discovery(&d, true, true), AfterDiscovery::Stopped));
    assert!(matches!(after_discovery(&d, false, true), AfterDiscovery::NameHops(p) if p.len() == 2));
    assert!(matches!(after_discovery(&d, false, false), AfterDiscovery::Monitor(p) if p.len() == 2));
    let hop = |ip| HopInfo { hop: 1, ip, hostname: None, is_destination: false };
    let name = Some("gw".to_string());
    assert_eq!(name_hop(hop(Some(ip("10.0.0.1"))), &name, "10.0.0.1").hostname.as_deref(), Some("gw"));
    assert_eq!(name_hop(hop(None), &name, "").hostname, None);
}

#[test]
fn probe_reports() {
    let r = probe_report("t", "a", 3, "10.0.0.1", 1, ProbeStatus::Timeout, "");
    assert_eq!((r.line.as_str(), r.stop), ("t;a;3;10.0.0.1;1;TIMEOUT;", false));
    assert!(matches!(r.event, TraceEvent::Sample { hop: 3, status: ProbeStatus::Timeout, .. }));
    assert!(probe_report("t", "a", 3, "10.0.0.1", 1, ProbeStatus::Error("x".to_string()), "").stop);
}
