use pnet::packet::icmp::echo_request::EchoRequestPacket;
use pnet::packet::ipv4::Ipv4Packet;
use pnet::packet::Packet;
use rustytools::commands::{
    build_packet, flags_text, format_bytes, format_rate, gave_up_line, hop_line, on_message, pauses_after,
    reached_line, reply_line, resolve, trace_heading, trace_target, HopReport, PingTally, TraceInput,
    TraceMove, TraceRun, TraceStep, PACKET_SIZE,
};
use rustytools::ip::{parse_ip, parse_ipv4, IpAddr};

fn float_text(bytes: u64) -> String {
    let kb = 1024u64;
    let (mb, gb) = (kb * 1024, kb * 1024 * 1024);
    if bytes >= gb {
        format!("{:.2} GB", bytes as f64 / gb as f64)
    } else if bytes >= mb {
        format!("{:.2} MB", bytes as f64 / mb as f64)
    } else if bytes >= kb {
        format!("{:.2} KB", bytes as f64 / kb as f64)
    } else {
        format!("{} B", bytes)
    }
}

#[test]
fn byte_counts() {
    assert_eq!(format_bytes(0), "0 B");
    assert_eq!(format_bytes(1023), "1023 B");
    assert_eq!(format_bytes(1024), "1.00 KB");
    assert_eq!(format_bytes(1536), "1.50 KB");
    assert_eq!(format_bytes(1 << 20), "1.00 MB");
    assert_eq!(format_bytes((1 << 30) - 1), "1024.00 MB");
    assert_eq!(format_bytes(5 << 30), "5.00 GB");
    assert_eq!(format_rate(10_240, 2), "5.00 KB/s");
    let mut n: u64 = 1;
    for i in 0..20_000u64 {
        n = n.wrapping_mul(6364136223846793005).wrapping_add(1442695040888963407);
        let bytes = n >> (i % 64);
        assert_eq!(format_bytes(bytes), float_text(bytes), "{bytes}");
    }
    for k in 0..64 {
        for d in 0..4u64 {
            for bytes in [(1u64 << k).saturating_add(d), (1u64 << k).saturating_sub(d)] {
                assert_eq!(format_bytes(bytes), float_text(bytes), "{bytes}");
            }
        }
    }
    // Halves of a hundredth go to the even neighbour.
    for q in 0..2048u64 {
        let bytes = (1 << 30) + q * (1 << 27);
        assert_eq!(format_bytes(bytes), float_text(bytes), "{bytes}");
    }
    assert_eq!(format_bytes(u64::MAX), float_text(u64::MAX));
}

#[test]
fn trace_probes() {
    for (ttl, seq) in [(1u8, 1u16), (30, 30), (255, 0xabcd)] {
        let dest = parse_ipv4("93.184.216.34").unwrap();
        let bytes = build_packet(dest, ttl, seq);
        assert_eq!(bytes.len(), PACKET_SIZE);
        let header = Ipv4Packet::new(&bytes).unwrap();
        assert_eq!(header.get_version(), 4);
        assert_eq!(header.get_header_length(), 5);
        assert_eq!(header.get_total_length(), 28);
        assert_eq!(header.get_flags(), pnet::packet::ipv4::Ipv4Flags::DontFragment);
        assert_eq!(header.get_fragment_offset(), 0);
        assert_eq!(header.get_ttl(), ttl);
        assert_eq!(header.get_next_level_protocol(), pnet::packet::ip::IpNextHeaderProtocols::Icmp);
        assert_eq!(header.get_destination().to_string(), "93.184.216.34");
        let echo = EchoRequestPacket::new(&bytes[20..]).unwrap();
        assert_eq!(echo.get_icmp_type(), pnet::packet::icmp::IcmpTypes::EchoRequest);
        assert_eq!(echo.get_identifier(), 0xCAFE);
        assert_eq!(echo.get_sequence_number(), seq);
        assert_eq!(echo.get_checksum(), pnet::util::checksum(echo.packet(), 1));
        assert_eq!(rustytools::echo::checksum(&bytes[20..]), 0);
    }
}

#[test]
fn trace_steps() {
    assert_eq!(on_message(11), TraceStep::Hop);
    assert_eq!(on_message(0), TraceStep::Reached);
    assert_eq!(on_message(3), TraceStep::Ignore);
    assert_eq!(hop_line(5, "* * * (timeout)"), "  5  * * * (timeout)");
    assert_eq!(hop_line(15, "x"), " 15  x");
    assert_eq!(hop_line(115, "x"), "115  x");
    let ip: IpAddr = parse_ip("10.0.0.1").unwrap();
    let other: IpAddr = parse_ip("::1").unwrap();
    assert_eq!(resolve("10.0.0.1", &vec![other]), Some(ip));
    assert_eq!(resolve("host", &vec![other, ip]), Some(other));
    assert_eq!(resolve("host", &Vec::new()), None);
    assert_eq!(trace_target(Some(ip)), Some(0x0a00_0001));
    assert_eq!(trace_target(Some(other)), None);
    assert_eq!(trace_target(None), None);
}

#[test]
fn ping_tallies() {
    let mut t = PingTally::new(4);
    assert_eq!(t.extremes(), None);
    t.record(30);
    t.record(10);
    t.record(20);
    assert_eq!(t.lost(), 1);
    assert_eq!(t.extremes(), Some((10, 30)));
    assert!(pauses_after(0, 2));
    assert!(!pauses_after(1, 2));
    assert_eq!(
        reply_line("64", "10.0.0.1", 3, true, 57, "1.23"),
        "64 bytes from 10.0.0.1: icmp_seq=3 ttl=57 time=1.23 ms"
    );
    assert_eq!(
        reply_line("64", "::1", 3, false, 57, "1.23"),
        "64 bytes from ::1: icmp_seq=3 hop_limit=57 time=1.23 ms"
    );
    assert_eq!(flags_text(true, false, true).as_deref(), Some("LOOPBACK, BROADCAST"));
    assert_eq!(flags_text(false, true, false).as_deref(), Some("MULTICAST"));
    assert_eq!(flags_text(false, false, false), None);
}

#[test]
fn traces_probe_the_hops_in_turn() {
    let (_, next) = TraceRun::start(0);
    assert_eq!(next, TraceMove::GaveUp);
    let (mut run, next) = TraceRun::start(4);
    assert_eq!(next, TraceMove::Send { ttl: 1 });
    // The first hop answers after another message.
    let a = run.on_event(TraceInput::Sent { began: 100 }, 150);
    assert_eq!((a.report, a.next), (None, TraceMove::Wait { remaining: 3_000_000_000 }));
    let a = run.on_event(TraceInput::Message { kind: 3 }, 1_000_000_150);
    assert_eq!((a.report, a.next), (None, TraceMove::Wait { remaining: 2_000_000_000 }));
    let a = run.on_event(TraceInput::Message { kind: 11 }, 1_000_000_200);
    assert_eq!(a.report, Some(HopReport::Router { rtt: 1_000_000_100 }));
    assert_eq!(a.next, TraceMove::Send { ttl: 2 });
    // The second probe is not sent, the third hop is silent.
    let a = run.on_event(TraceInput::SendFailed, 1_000_000_300);
    assert_eq!((a.report, a.next), (Some(HopReport::NotSent), TraceMove::Send { ttl: 3 }));
    run.on_event(TraceInput::Sent { began: 0 }, 0);
    let a = run.on_event(TraceInput::Message { kind: 3 }, 3_000_000_000);
    assert_eq!((a.report, a.next), (Some(HopReport::TimedOut), TraceMove::Send { ttl: 4 }));
    // The last hop is the destination, or silent.
    run.on_event(TraceInput::Sent { began: 5 }, 5);
    let mut silent = run;
    let a = run.on_event(TraceInput::Message { kind: 0 }, 12);
    assert_eq!(a.report, Some(HopReport::Destination { rtt: 7 }));
    assert_eq!(a.next, TraceMove::Reached { hops: 4 });
    let a = silent.on_event(TraceInput::NoMessage, 12);
    assert_eq!((a.report, a.next), (Some(HopReport::TimedOut), TraceMove::GaveUp));
}

#[test]
fn trace_texts_of_the_command() {
    assert_eq!(trace_heading("h", "10.0.0.1", 30), "Traceroute to h (10.0.0.1), 30 hops max");
    assert_eq!(reached_line("h", 7), "Reached h in 7 hops.");
    assert_eq!(gave_up_line(30), "Max hops (30) reached — destination may be unreachable.");
}
