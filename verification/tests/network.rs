use rustytools::ip::{format_ipv4, is_at_most, parse_ip, parse_ipv4, parse_ipv6, IpAddr};
use rustytools::subnets::{
    enumerate_hosts, local_subnets, probe_seq, worker_count, Interface, Sweep,
};
use rustytools::arp::ArpEvent;

#[test]
fn ipv4_texts() {
    assert_eq!(parse_ipv4("192.168.1.10"), Some(0xc0a8_010a));
    assert_eq!(parse_ipv4("0.0.0.0"), Some(0));
    assert_eq!(parse_ipv4("255.255.255.255"), Some(u32::MAX));
    for bad in ["", "1.2.3", "1.2.3.4.5", "256.1.1.1", "01.2.3.4", "1.2.3.", "a.b.c.d", "1.2.3.4 ", "+1.2.3.4"] {
        assert_eq!(parse_ipv4(bad), None, "{bad}");
    }
    for v in [0u32, 1, 0x7f00_0001, 0xc0a8_010a, u32::MAX] {
        assert_eq!(parse_ipv4(&format_ipv4(v)), Some(v));
    }
    assert_eq!(format_ipv4(0x0a00_00fe), "10.0.0.254");
}

#[test]
fn ipv6_texts() {
    assert_eq!(parse_ipv6("::"), Some(0));
    assert_eq!(parse_ipv6("::1"), Some(1));
    assert_eq!(parse_ipv6("1::"), Some(1u128 << 112));
    assert_eq!(parse_ipv6("fe80::1"), Some((0xfe80u128 << 112) | 1));
    assert_eq!(
        parse_ipv6("2001:db8:1:2:3:4:5:6"),
        Some(0x2001_0db8_0001_0002_0003_0004_0005_0006)
    );
    assert_eq!(parse_ipv6("::ffff:192.168.1.10"), Some(0xffff_c0a8_010a));
    assert_eq!(parse_ipv6("2001:DB8::A"), Some((0x2001_0db8u128 << 96) | 10));
    for bad in [
        "", ":", ":::", "1:2:3:4:5:6:7", "1:2:3:4:5:6:7:8:9", "1::2::3", "12345::", "g::", "::1%eth0",
        "1:2:3:4:5:6:7::8", "::192.168.1", "[::1]",
    ] {
        assert_eq!(parse_ipv6(bad), None, "{bad}");
    }
}

#[test]
fn addresses_and_their_order() {
    assert_eq!(parse_ip("10.0.0.1"), Some(IpAddr::V4(0x0a00_0001)));
    assert_eq!(parse_ip("::1"), Some(IpAddr::V6(1)));
    assert_eq!(parse_ip("localhost"), None);
    assert!(is_at_most(None, Some(IpAddr::V4(0))));
    assert!(!is_at_most(Some(IpAddr::V4(0)), None));
    assert!(is_at_most(Some(IpAddr::V4(u32::MAX)), Some(IpAddr::V6(0))));
    assert!(!is_at_most(Some(IpAddr::V6(0)), Some(IpAddr::V4(5))));
    assert!(is_at_most(Some(IpAddr::V4(5)), Some(IpAddr::V4(5))));
    assert!(parse_ip("239.255.255.255").unwrap().is_multicast());
    assert!(!parse_ip("240.0.0.0").unwrap().is_multicast());
    assert!(parse_ip("ff02::1").unwrap().is_multicast());
    assert!(!parse_ip("fe80::1").unwrap().is_multicast());
    assert!(parse_ip("10.0.0.1").unwrap().is_ipv4());
}

#[test]
fn hosts_of_a_network() {
    let hosts = enumerate_hosts(parse_ipv4("192.168.1.77").unwrap(), 24);
    assert_eq!(hosts.len(), 254);
    assert_eq!(format_ipv4(hosts[0]), "192.168.1.1");
    assert_eq!(format_ipv4(hosts[253]), "192.168.1.254");
    let hosts = enumerate_hosts(parse_ipv4("10.0.0.6").unwrap(), 30);
    assert_eq!(hosts.iter().map(|h| format_ipv4(*h)).collect::<Vec<_>>(), ["10.0.0.5", "10.0.0.6"]);
    assert!(enumerate_hosts(parse_ipv4("10.0.0.6").unwrap(), 31).is_empty());
    assert!(enumerate_hosts(parse_ipv4("10.0.0.6").unwrap(), 32).is_empty());
    assert_eq!(enumerate_hosts(u32::MAX, 22).len(), 1022);
    assert!(enumerate_hosts(u32::MAX, 32).is_empty());
}

#[test]
fn subnets_to_sweep() {
    let interfaces = vec![
        Interface {
            name: "eth0".to_string(),
            is_up: true,
            ipv4: vec![
                (parse_ipv4("192.168.1.10").unwrap(), 24),
                (parse_ipv4("10.0.0.1").unwrap(), 8),
                (parse_ipv4("10.1.0.1").unwrap(), 31),
            ],
        },
        Interface {
            name: "wlan0".to_string(),
            is_up: true,
            ipv4: vec![(parse_ipv4("192.168.1.99").unwrap(), 24), (parse_ipv4("172.16.4.9").unwrap(), 22)],
        },
        Interface {
            name: "down0".to_string(),
            is_up: false,
            ipv4: vec![(parse_ipv4("192.168.7.1").unwrap(), 24)],
        },
    ];
    let subnets = local_subnets(&interfaces);
    let labels: Vec<&str> = subnets.iter().map(|s| s.label.as_str()).collect();
    assert_eq!(
        labels,
        ["eth0 — 192.168.1.1/24 (254 hosts)", "wlan0 — 172.16.4.1/22 (1022 hosts)"]
    );
    assert_eq!(subnets[0].hosts.len(), 254);
}

#[test]
fn sweep_progress() {
    let mut sweep = Sweep::new(2);
    let probe = sweep.take_next().unwrap();
    assert_eq!((probe.index, probe.seq, probe.timeout), (0, 1, 1_000_000_000));
    assert_eq!(sweep.take_next().map(|p| (p.index, p.seq)), Some((1, 2)));
    assert_eq!(sweep.take_next(), None);
    match sweep.record(true) {
        ArpEvent::ScanProgress { done, total, alive } => assert_eq!((done, total, alive), (1, 2, 1)),
        other => panic!("{other:?}"),
    }
    match sweep.record(false) {
        ArpEvent::ScanProgress { done, total, alive } => assert_eq!((done, total, alive), (2, 2, 1)),
        other => panic!("{other:?}"),
    }
    assert!(matches!(sweep.summary(), ArpEvent::ScanDone { alive: 1 }));
    assert_eq!(worker_count(0), 0);
    assert_eq!(worker_count(10), 10);
    assert_eq!(worker_count(1000), 64);
    assert_eq!(probe_seq(0), 1);
    assert_eq!(probe_seq(65534), 65535);
    assert_eq!(probe_seq(65535), 0);
    assert_eq!(probe_seq(65536), 1);
}
