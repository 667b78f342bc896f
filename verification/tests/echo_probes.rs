use rustytools::echo::{
    build_echo_request, checksum, map_io_error, next_wait, socket_failure, Pinger, PingError, Probe,
    Received, Reply, Step, Wait,
};
use rustytools::ip::IpAddr;

fn pinger(ident: u16) -> Pinger {
    Pinger { ident, is_v4: true, kernel_ident: false }
}

fn reply(ident: u16, seq: u16) -> Vec<u8> {
    let mut p = build_echo_request(true, ident, seq);
    p[0] = 0;
    p
}

#[test]
fn checksums() {
    assert_eq!(checksum(&[]), 0xffff);
    assert_eq!(checksum(&[0x00, 0x01, 0xf2, 0x03, 0xf4, 0xf5, 0xf6, 0xf7]), 0x220d);
    assert_eq!(checksum(&[0xff]), 0x00ff);
}

#[test]
fn echo_requests_verify() {
    let p = build_echo_request(true, 0x1234, 7);
    assert_eq!(p.len(), 32);
    assert_eq!(&p[..2], &[8, 0]);
    assert_eq!(&p[4..8], &[0x12, 0x34, 0, 7]);
    assert!(p[8..].iter().all(|b| *b == 0x52));
    assert_eq!(checksum(&p), 0);
    let p = build_echo_request(false, 0x1234, 7);
    assert_eq!(&p[..4], &[128, 0, 0, 0]);
}

#[test]
fn only_the_matching_reply_counts() {
    let p = pinger(0x1234);
    assert_eq!(p.classify(&reply(0x1234, 7), 7), Some(Reply::Echo));
    assert_eq!(p.classify(&reply(0x1234, 8), 7), None);
    assert_eq!(p.classify(&reply(0x4321, 7), 7), None);
    assert_eq!(p.classify(&reply(0x1234, 7)[..7], 7), None);
    // The kernel rewrites the identifier: only the sequence number counts.
    let k = Pinger { kernel_ident: true, ..p };
    assert_eq!(k.classify(&reply(0x4321, 7), 7), Some(Reply::Echo));
    // With the IPv4 header in front.
    let mut packet = vec![0x45u8; 20];
    packet.extend(reply(0x1234, 7));
    assert_eq!(p.classify(&packet, 7), Some(Reply::Echo));
    // An own request is no reply.
    assert_eq!(p.classify(&build_echo_request(true, 0x1234, 7), 7), None);
}

#[test]
fn replies_do_not_cross_talk() {
    let a = pinger(1);
    let b = pinger(2);
    let for_a = reply(1, 9);
    assert_eq!(a.classify(&for_a, 9), Some(Reply::Echo));
    assert_eq!(b.classify(&for_a, 9), None);
}

#[test]
fn unreachable_messages_count_as_loss() {
    let p = pinger(0x1234);
    let mut m = vec![3u8, 1, 0, 0, 0, 0, 0, 0];
    m.extend(vec![0x45u8; 20]);
    m.extend(&build_echo_request(true, 0x1234, 7)[..8]);
    assert_eq!(p.classify(&m, 7), Some(Reply::Unreachable));
    assert_eq!(p.classify(&m, 8), None);
    m[0] = 11;
    assert_eq!(p.classify(&m, 7), Some(Reply::Unreachable));
    m[0] = 5;
    assert_eq!(p.classify(&m, 7), None);
}

#[test]
fn received_packets_and_failures() {
    let p = pinger(0x1234);
    assert!(matches!(p.on_received(&Received::Packet(reply(0x1234, 7)), 7), Step::Replied));
    assert!(matches!(p.on_received(&Received::Packet(vec![1, 2, 3]), 7), Step::Continue));
    assert!(matches!(p.on_received(&Received::Interrupted, 7), Step::Continue));
    assert!(matches!(p.on_received(&Received::NoPacket, 7), Step::Ended(PingError::Timeout)));
    match p.on_received(&Received::Failed { code: Some(1), error: "denied".to_string() }, 7) {
        Step::Ended(PingError::Other(e)) => assert_eq!(e, "receive failed: denied"),
        other => panic!("{other:?}"),
    }
    assert!(matches!(map_io_error(Some(113), "send failed", "no route"), PingError::Timeout));
    match map_io_error(None, "send failed", "broken") {
        PingError::Other(e) => assert_eq!(e, "send failed: broken"),
        other => panic!("{other:?}"),
    }
}

#[test]
fn waiting_for_a_reply() {
    assert_eq!(next_wait(10, 10), Wait::Expired);
    assert_eq!(next_wait(11, 10), Wait::Expired);
    assert_eq!(next_wait(0, 5_000_000), Wait::Receive { read_timeout: 5_000_000 });
    assert_eq!(next_wait(0, 10), Wait::Receive { read_timeout: 1_000_000 });
}

#[test]
fn identifiers_of_pingers() {
    let p = Pinger::new(IpAddr::V4(1), 0x1_0001, 3, true, true);
    assert_eq!(p.ident, 1 ^ 3);
    assert!(p.is_v4 && p.kernel_ident);
    let p = Pinger::new(IpAddr::V6(1), 5, 0, false, true);
    assert!(!p.is_v4 && !p.kernel_ident);
    assert_eq!(
        socket_failure(true, false, "a", "b"),
        "insufficient permissions to open an ICMP socket — run as root/sudo, or on Linux: sysctl -w net.ipv4.ping_group_range='0 65535'"
    );
    assert_eq!(socket_failure(false, false, "a", "b"), "cannot open ICMP socket (dgram: a; raw: b)");
}

#[test]
fn round_trip_times() {
    let probe = Probe::new(pinger(0x1234), 7, 1000, 500);
    assert_eq!(probe.deadline, 1500);
    let ours = Received::Packet(reply(0x1234, 7));
    assert!(matches!(probe.on_received(&ours, 1200), Some(Ok(200))));
    let other = Received::Packet(reply(0x1234, 8));
    assert!(probe.on_received(&other, 1200).is_none());
    assert!(probe.on_received(&Received::Interrupted, 1200).is_none());
    assert!(matches!(probe.on_received(&Received::NoPacket, 1500), Some(Err(PingError::Timeout))));
    let failed = Received::Failed { code: Some(9), error: "bad".to_string() };
    assert!(matches!(
        probe.on_received(&failed, 1200),
        Some(Err(PingError::Other(e))) if e == "receive failed: bad"
    ));
}
