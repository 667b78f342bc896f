//! The command-line tools: the interface list, ping, traceroute and the traffic
//! monitor.

use crate::echo;
use crate::ip::{self, IpAddr};
use crate::text;
use crate::units::{Nanos, LONGEST};
use vstd::prelude::*;

verus! {

/// The network commands.
#[derive(Debug)]
pub enum NetCommands {
    /// Show network interfaces and their configuration.
    Config,
    /// Ping a host and display statistics.
    Ping { host: String, count: u16 },
    /// Trace the route to a host (requires root).
    Traceroute { host: String, max_hops: u8 },
    /// Monitor network interface statistics.
    Monitor { interval: u64 },
}

/// The address of a host: a literal IP is taken as it is, whatever the lookup
/// of the name gave; of the addresses found for a name, the first counts.
pub fn resolve(host: &str, found: &Vec<IpAddr>) -> (r: Option<IpAddr>)
    ensures
        r == (match ip::ip_value(host@) {
            Some(literal) => Some(literal),
            None => if found@.len() > 0 {
                Some(found@[0])
            } else {
                None
            },
        }),
{
    match ip::parse_ip(host) {
        Some(literal) => Some(literal),
        None => if found.len() > 0 {
            Some(found[0])
        } else {
            None
        },
    }
}

/// The address that the route can be traced to: an IPv4 address.
pub fn trace_target(resolved: Option<IpAddr>) -> (r: Option<u32>)
    ensures
        r == (match resolved {
            Some(IpAddr::V4(address)) => Some(address),
            _ => None,
        }),
{
    match resolved {
        Some(IpAddr::V4(address)) => Some(address),
        _ => None,
    }
}

// --------------------------------------------------------------------- Config

/// The flags of an interface that are set, in order.
pub open spec fn flags_set(loopback: bool, multicast: bool, broadcast: bool) -> Seq<Seq<char>> {
    (if loopback {
        seq!["LOOPBACK"@]
    } else {
        seq![]
    }) + (if multicast {
        seq!["MULTICAST"@]
    } else {
        seq![]
    }) + (if broadcast {
        seq!["BROADCAST"@]
    } else {
        seq![]
    })
}

/// The flags of an interface as text, if any is set.
pub fn flags_text(loopback: bool, multicast: bool, broadcast: bool) -> (r: Option<String>)
    ensures
        r.deep_view() == (if loopback || multicast || broadcast {
            Some(text::joined(flags_set(loopback, multicast, broadcast), ", "@))
        } else {
            None
        }),
{
    let mut flags: Vec<String> = Vec::new();
    if loopback {
        flags.push("LOOPBACK".to_owned());
    }
    if multicast {
        flags.push("MULTICAST".to_owned());
    }
    if broadcast {
        flags.push("BROADCAST".to_owned());
    }
    assert(flags.deep_view() =~= flags_set(loopback, multicast, broadcast));
    if flags.len() == 0 {
        None
    } else {
        Some(text::join(&flags, ", "))
    }
}

// ----------------------------------------------------------------------- Ping

/// The replies to the pings of one command.
#[derive(Debug)]
pub struct PingTally {
    pub count: u16,
    pub rtts: Vec<Nanos>,
}

impl PingTally {
    /// No more replies than pings.
    pub open spec fn wf(self) -> bool {
        self.rtts@.len() <= self.count
    }

    /// No replies yet to `count` pings.
    pub fn new(count: u16) -> (r: Self)
        ensures
            r.wf(),
            r.count == count,
            r.rtts@.len() == 0,
    {
        PingTally { count, rtts: Vec::new() }
    }

    /// Records a reply.
    pub fn record(&mut self, rtt: Nanos)
        requires
            old(self).rtts@.len() < old(self).count,
        ensures
            final(self).wf(),
            final(self).count == old(self).count,
            final(self).rtts@ == old(self).rtts@.push(rtt),
    {
        self.rtts.push(rtt);
    }

    /// The number of pings without a reply.
    pub fn lost(&self) -> (r: u16)
        requires
            self.wf(),
        ensures
            r == self.count - self.rtts@.len(),
    {
        self.count - self.rtts.len() as u16
    }

    /// The shortest and the longest round-trip time, if there was a reply.
    pub fn extremes(&self) -> (r: Option<(Nanos, Nanos)>)
        ensures
            match r {
                Some((min, max)) => {
                    &&& self.rtts@.contains(min)
                    &&& self.rtts@.contains(max)
                    &&& forall|i: int|
                        0 <= i < self.rtts@.len() ==> min <= #[trigger] self.rtts@[i] <= max
                },
                None => self.rtts@.len() == 0,
            },
    {
        if self.rtts.len() == 0 {
            return None;
        }
        let mut min: Nanos = self.rtts[0];
        let mut max: Nanos = self.rtts[0];
        let mut i: usize = 1;
        assert(self.rtts@[0] == min);
        while i < self.rtts.len()
            invariant
                1 <= i <= self.rtts@.len(),
                self.rtts@.contains(min),
                self.rtts@.contains(max),
                forall|j: int| 0 <= j < i ==> min <= #[trigger] self.rtts@[j] <= max,
            decreases self.rtts@.len() - i,
        {
            let rtt = self.rtts[i];
            assert(self.rtts@[i as int] == rtt);
            if rtt < min {
                min = rtt;
            }
            if rtt > max {
                max = rtt;
            }
            i += 1;
        }
        Some((min, max))
    }
}

/// Whether to pause after a ping: not after the last one.
pub fn pauses_after(seq: u16, count: u16) -> (r: bool)
    requires
        seq < count,
    ensures
        r == (seq + 1 < count),
{
    seq < count - 1
}

/// The line of a reply. `size` and `ip` are texts; `limit` is the TTL or hop
/// limit of the packet, under the name that the IP version gives it; `millis`
/// is the round-trip time in milliseconds, as text.
pub fn reply_line(size: &str, ip: &str, seq: u16, is_v4: bool, limit: u8, millis: &str) -> (r: String)
    ensures
        r@ == size@ + " bytes from "@ + ip@ + ": icmp_seq="@ + text::decimal_text(seq as nat) + (
        if is_v4 {
            " ttl="@
        } else {
            " hop_limit="@
        }) + text::decimal_text(limit as nat) + " time="@ + millis@ + " ms"@,
{
    let mut s = size.to_owned();
    s.append(" bytes from ");
    s.append(ip);
    s.append(": icmp_seq=");
    s.append(text::decimal(seq as u128).as_str());
    s.append(
        if is_v4 {
            " ttl="
        } else {
            " hop_limit="
        },
    );
    s.append(text::decimal(limit as u128).as_str());
    s.append(" time=");
    s.append(millis);
    s.append(" ms");
    s
}

// ----------------------------------------------------------------- Traceroute

/// The length of a probe: an IPv4 header and an echo request.
pub const PACKET_SIZE: usize = 28;

/// The identifier of the probes.
pub const PROBE_IDENT: u16 = 0xCAFE;

/// The echo request of a probe, without its checksum.
pub open spec fn bare_echo(seq: u16) -> Seq<u8> {
    seq![
        8u8,
        0u8,
        0u8,
        0u8,
        (PROBE_IDENT / 256) as u8,
        (PROBE_IDENT % 256) as u8,
        (seq / 256) as u8,
        (seq % 256) as u8,
    ]
}

/// The echo request of a probe.
pub open spec fn probe_echo(seq: u16) -> Seq<u8> {
    echo::with_checksum(bare_echo(seq), echo::checksum_of(bare_echo(seq)))
}

/// The IPv4 header of a probe: version 4, five words, the length of the whole
/// probe, not to be fragmented, the time to live, protocol 1 (ICMP) and the
/// destination. The sender fills in the rest.
pub open spec fn probe_header(dest: u32, ttl: u8) -> Seq<u8> {
    seq![
        0x45u8,
        0u8,
        0u8,
        28u8,
        0u8,
        0u8,
        0x40u8,
        0u8,
        ttl,
        1u8,
        0u8,
        0u8,
        0u8,
        0u8,
        0u8,
        0u8,
        (dest / 0x100_0000) as u8,
        (dest / 0x1_0000 % 256) as u8,
        (dest / 0x100 % 256) as u8,
        (dest % 256) as u8,
    ]
}

/// `pnet::util::checksum`, for a packet whose second word is its checksum: the
/// Internet checksum of the packet with that word taken as zero.
#[verifier::external_body]
fn checksum_of_packet(packet: &[u8]) -> (r: u16)
    requires
        4 <= packet@.len() <= 65535,
    ensures
        r == echo::checksum_of(packet@.update(2, 0).update(3, 0)),
{
    pnet::util::checksum(packet, 1)
}

/// The probe for the hop at distance `ttl` of the route to `dest`.
pub fn build_packet(dest: u32, ttl: u8, seq: u16) -> (r: Vec<u8>)
    ensures
        r@ == probe_header(dest, ttl) + probe_echo(seq),
        r@.len() == PACKET_SIZE,
{
    let mut message: Vec<u8> = vec![
        8u8,
        0u8,
        0u8,
        0u8,
        (PROBE_IDENT / 256) as u8,
        (PROBE_IDENT % 256) as u8,
        (seq / 256) as u8,
        (seq % 256) as u8,
    ];
    assert(message@ =~= bare_echo(seq));
    let ck = checksum_of_packet(message.as_slice());
    assert(message@.update(2, 0).update(3, 0) =~= bare_echo(seq));
    message.set(2, (ck / 256) as u8);
    message.set(3, (ck % 256) as u8);
    assert(message@ =~= probe_echo(seq));
    let mut packet: Vec<u8> = vec![
        0x45u8,
        0u8,
        0u8,
        28u8,
        0u8,
        0u8,
        0x40u8,
        0u8,
        ttl,
        1u8,
        0u8,
        0u8,
        0u8,
        0u8,
        0u8,
        0u8,
        (dest / 0x100_0000) as u8,
        (dest / 0x1_0000 % 256) as u8,
        (dest / 0x100 % 256) as u8,
        (dest % 256) as u8,
    ];
    assert(packet@ =~= probe_header(dest, ttl));
    packet.append(&mut message);
    packet
}

/// Every probe carries an echo request whose checksum verifies.
pub proof fn law_probe_verifies(seq: u16)
    ensures
        echo::checksum_of(probe_echo(seq)) == 0,
{
    echo::law_checksum_verifies(bare_echo(seq));
}

/// The fields of a probe are read back from its bytes: the time to live, the
/// destination, the identifier and the sequence number.
pub proof fn law_probe_fields(dest: u32, ttl: u8, seq: u16)
    ensures
        ({
            let p = probe_header(dest, ttl) + probe_echo(seq);
            &&& p[8] == ttl
            &&& echo::be16(p[16], p[17]) * 0x1_0000 + echo::be16(p[18], p[19]) == dest
            &&& echo::be16(p[24], p[25]) == PROBE_IDENT
            &&& echo::be16(p[26], p[27]) == seq
        }),
{
}

/// What a received ICMP message means for the probe that is out.
#[derive(Clone, Copy, Debug, PartialEq, Eq, Structural)]
pub enum TraceStep {
    /// A router on the way answered: the hop is known.
    Hop,
    /// The destination answered: the route is complete.
    Reached,
    /// Nothing that concerns the probe.
    Ignore,
}

/// What a received ICMP message of the given type means: 11 tells that the time
/// to live was exceeded, 0 is an echo reply.
pub fn on_message(kind: u8) -> (r: TraceStep)
    ensures
        r == (if kind == 11 {
            TraceStep::Hop
        } else if kind == 0 {
            TraceStep::Reached
        } else {
            TraceStep::Ignore
        }),
{
    if kind == 11 {
        TraceStep::Hop
    } else if kind == 0 {
        TraceStep::Reached
    } else {
        TraceStep::Ignore
    }
}

/// How long a hop may take to answer.
pub const HOP_TIMEOUT: Nanos = 3_000_000_000;

/// The trace of a route: the hop that is being probed, out of `max_hops`, when
/// its probe was sent and until when an answer counts.
#[derive(Clone, Copy, Debug, PartialEq, Eq, Structural)]
pub struct TraceRun {
    pub ttl: u8,
    pub max_hops: u8,
    pub sent: Nanos,
    pub deadline: Nanos,
}

/// What happens to the probe of a hop.
#[derive(Clone, Copy, Debug, PartialEq, Eq, Structural)]
pub enum TraceInput {
    /// It was sent; sending began at `began`.
    Sent { began: Nanos },
    /// It could not be sent.
    SendFailed,
    /// An ICMP message of the given type came in.
    Message { kind: u8 },
    /// No message came in, or receiving failed.
    NoMessage,
}

/// What is reported of a hop.
#[derive(Clone, Copy, Debug, PartialEq, Eq, Structural)]
pub enum HopReport {
    /// The probe could not be sent.
    NotSent,
    /// Nothing answered in time.
    TimedOut,
    /// A router on the way answered.
    Router { rtt: Nanos },
    /// The destination answered.
    Destination { rtt: Nanos },
}

/// What the trace does next.
#[derive(Clone, Copy, Debug, PartialEq, Eq, Structural)]
pub enum TraceMove {
    /// Send the probe of a hop.
    Send { ttl: u8 },
    /// Wait for a message, for the time that is left.
    Wait { remaining: Nanos },
    /// Nothing more: the destination was reached.
    Reached { hops: u8 },
    /// Nothing more: the last hop was probed and the destination not reached.
    GaveUp,
}

/// What follows from an event: the report on the hop, if its probe is over, and
/// what the trace does next.
#[derive(Clone, Copy, Debug, PartialEq, Eq, Structural)]
pub struct TraceAction {
    pub report: Option<HopReport>,
    pub next: TraceMove,
}

/// What the trace does after the hop at distance `ttl`.
pub open spec fn move_on(ttl: u8, max_hops: u8) -> TraceMove {
    if ttl < max_hops {
        TraceMove::Send { ttl: (ttl + 1) as u8 }
    } else {
        TraceMove::GaveUp
    }
}

/// The time from `sent` to `now`.
pub open spec fn elapsed(sent: Nanos, now: Nanos) -> Nanos {
    if sent <= now {
        (now - sent) as Nanos
    } else {
        0
    }
}

/// What follows from an event at the time `now`.
pub open spec fn trace_action(run: TraceRun, ev: TraceInput, now: Nanos) -> TraceAction {
    let rtt = elapsed(run.sent, now);
    let ended = |report: HopReport|
        TraceAction { report: Some(report), next: move_on(run.ttl, run.max_hops) };
    match ev {
        TraceInput::Sent { began } => TraceAction {
            report: None,
            next: TraceMove::Wait { remaining: HOP_TIMEOUT },
        },
        TraceInput::SendFailed => ended(HopReport::NotSent),
        TraceInput::NoMessage => ended(HopReport::TimedOut),
        TraceInput::Message { kind } => if kind == 11 {
            ended(HopReport::Router { rtt })
        } else if kind == 0 {
            TraceAction {
                report: Some(HopReport::Destination { rtt }),
                next: TraceMove::Reached { hops: run.ttl },
            }
        } else if now < run.deadline {
            TraceAction {
                report: None,
                next: TraceMove::Wait { remaining: (run.deadline - now) as Nanos },
            }
        } else {
            ended(HopReport::TimedOut)
        },
    }
}

/// The trace after an event: it is at the hop whose probe is to be sent, and
/// remembers when the probe of a hop was sent.
pub open spec fn trace_after(run: TraceRun, ev: TraceInput, now: Nanos) -> TraceRun {
    match ev {
        TraceInput::Sent { began } => TraceRun {
            sent: began,
            deadline: (now + HOP_TIMEOUT) as Nanos,
            ..run
        },
        _ => match trace_action(run, ev, now).next {
            TraceMove::Send { ttl } => TraceRun { ttl, ..run },
            _ => run,
        },
    }
}

impl TraceRun {
    /// The start of a trace over at most `max_hops` hops.
    pub fn start(max_hops: u8) -> (r: (TraceRun, TraceMove))
        ensures
            r.0.max_hops == max_hops,
            r.0.ttl == (if max_hops == 0 {
                0u8
            } else {
                1u8
            }),
            r.1 == move_on(0, max_hops),
    {
        if max_hops == 0 {
            (TraceRun { ttl: 0, max_hops, sent: 0, deadline: 0 }, TraceMove::GaveUp)
        } else {
            (TraceRun { ttl: 1, max_hops, sent: 0, deadline: 0 }, TraceMove::Send { ttl: 1 })
        }
    }

    /// The probe of the hop is over: goes to the next one.
    fn end_hop(&mut self, report: HopReport) -> (r: TraceAction)
        ensures
            r == (TraceAction {
                report: Some(report),
                next: move_on(old(self).ttl, old(self).max_hops),
            }),
            *final(self) == (match r.next {
                TraceMove::Send { ttl } => TraceRun { ttl, ..*old(self) },
                _ => *old(self),
            }),
    {
        if self.ttl < self.max_hops {
            self.ttl = self.ttl + 1;
            TraceAction { report: Some(report), next: TraceMove::Send { ttl: self.ttl } }
        } else {
            TraceAction { report: Some(report), next: TraceMove::GaveUp }
        }
    }

    /// Takes an event at the time `now`.
    pub fn on_event(&mut self, ev: TraceInput, now: Nanos) -> (r: TraceAction)
        requires
            now <= LONGEST,
        ensures
            r == trace_action(*old(self), ev, now),
            *final(self) == trace_after(*old(self), ev, now),
    {
        let rtt: Nanos = if self.sent <= now {
            now - self.sent
        } else {
            0
        };
        match ev {
            TraceInput::Sent { began } => {
                self.sent = began;
                self.deadline = now + HOP_TIMEOUT;
                TraceAction { report: None, next: TraceMove::Wait { remaining: HOP_TIMEOUT } }
            },
            TraceInput::SendFailed => self.end_hop(HopReport::NotSent),
            TraceInput::NoMessage => self.end_hop(HopReport::TimedOut),
            TraceInput::Message { kind } => match on_message(kind) {
                TraceStep::Hop => self.end_hop(HopReport::Router { rtt }),
                TraceStep::Reached => TraceAction {
                    report: Some(HopReport::Destination { rtt }),
                    next: TraceMove::Reached { hops: self.ttl },
                },
                TraceStep::Ignore => if now < self.deadline {
                    TraceAction {
                        report: None,
                        next: TraceMove::Wait { remaining: self.deadline - now },
                    }
                } else {
                    self.end_hop(HopReport::TimedOut)
                },
            },
        }
    }
}

/// The hops are probed in turn: a hop is left only with a report on it, the
/// next probe goes one hop further and never beyond the last, the trace gives
/// up only after the last hop, and it never waits longer than a hop may take.
pub proof fn law_hops_are_probed_in_turn(run: TraceRun, ev: TraceInput, now: Nanos)
    requires
        1 <= run.ttl <= run.max_hops,
        ev is Message ==> run.deadline <= now + HOP_TIMEOUT,
    ensures
        trace_after(run, ev, now).max_hops == run.max_hops,
        1 <= trace_after(run, ev, now).ttl <= run.max_hops,
        match trace_action(run, ev, now).next {
            TraceMove::Send { ttl } => ttl == run.ttl + 1 && trace_after(run, ev, now).ttl == ttl
                && trace_action(run, ev, now).report is Some,
            TraceMove::Wait { remaining } => 0 < remaining <= HOP_TIMEOUT && trace_after(
                run,
                ev,
                now,
            ).ttl == run.ttl && trace_action(run, ev, now).report is None,
            TraceMove::Reached { hops } => hops == run.ttl && trace_action(run, ev, now).report
                is Some,
            TraceMove::GaveUp => run.ttl == run.max_hops && trace_action(run, ev, now).report
                is Some,
        },
{
}

/// The first line of a trace; `host` and `address` are texts.
pub fn trace_heading(host: &str, address: &str, max_hops: u8) -> (r: String)
    ensures
        r@ == "Traceroute to "@ + host@ + " ("@ + address@ + "), "@ + text::decimal_text(
            max_hops as nat,
        ) + " hops max"@,
{
    let mut s = "Traceroute to ".to_owned();
    s.append(host);
    s.append(" (");
    s.append(address);
    s.append("), ");
    s.append(text::decimal(max_hops as u128).as_str());
    s.append(" hops max");
    s
}

/// The last line of a trace that reached the destination.
pub fn reached_line(host: &str, hops: u8) -> (r: String)
    ensures
        r@ == "Reached "@ + host@ + " in "@ + text::decimal_text(hops as nat) + " hops."@,
{
    let mut s = "Reached ".to_owned();
    s.append(host);
    s.append(" in ");
    s.append(text::decimal(hops as u128).as_str());
    s.append(" hops.");
    s
}

/// The last line of a trace that gave up.
pub fn gave_up_line(max_hops: u8) -> (r: String)
    ensures
        r@ == "Max hops ("@ + text::decimal_text(max_hops as nat)
            + ") reached — destination may be unreachable."@,
{
    let mut s = "Max hops (".to_owned();
    s.append(text::decimal(max_hops as u128).as_str());
    s.append(") reached — destination may be unreachable.");
    s
}

/// A number aligned to the right in three columns.
pub open spec fn hop_number(ttl: u8) -> Seq<char> {
    let n = text::decimal_text(ttl as nat);
    if ttl < 10 {
        "  "@ + n
    } else if ttl < 100 {
        " "@ + n
    } else {
        n
    }
}

/// The line of a hop: its number and what is known of it.
pub fn hop_line(ttl: u8, what: &str) -> (r: String)
    ensures
        r@ == hop_number(ttl) + "  "@ + what@,
{
    let number = text::decimal(ttl as u128);
    let mut s = if ttl < 10 {
        let mut t = "  ".to_owned();
        t.append(number.as_str());
        t
    } else if ttl < 100 {
        let mut t = " ".to_owned();
        t.append(number.as_str());
        t
    } else {
        number
    };
    s.append("  ");
    s.append(what);
    s
}

// -------------------------------------------------------------------- Monitor

/// `num / den` rounded to the nearest number, halves to the even one.
pub open spec fn rounded(num: nat, den: nat) -> nat {
    let q = num / den;
    let r = num % den;
    if 2 * r < den || (2 * r == den && q % 2 == 0) {
        q
    } else {
        q + 1
    }
}

/// The distance of the numbers near `n` that 53 significant bits can represent.
pub open spec fn spacing(n: nat) -> nat
    decreases n,
{
    if n < 0x20_0000_0000_0000 {
        1
    } else {
        2 * spacing(n / 2)
    }
}

/// The number nearest to `n` that 53 significant bits can represent.
pub open spec fn in_53_bits(n: nat) -> nat {
    rounded(n, spacing(n)) * spacing(n)
}

/// A number of hundredths with two decimals.
pub open spec fn two_decimals(hundredths: nat) -> Seq<char> {
    text::decimal_text(hundredths / 100) + "."@ + seq![
        text::digit_char(hundredths / 10 % 10),
        text::digit_char(hundredths % 10),
    ]
}

/// A number of bytes in the given unit, with two decimals.
pub open spec fn in_unit(bytes: u64, unit: nat) -> Seq<char> {
    two_decimals(rounded(in_53_bits(bytes as nat) * 100, unit))
}

/// A number of bytes in the largest unit that it fills, up to gigabytes.
pub open spec fn bytes_text(bytes: u64) -> Seq<char> {
    if bytes >= 0x4000_0000 {
        in_unit(bytes, 0x4000_0000) + " GB"@
    } else if bytes >= 0x10_0000 {
        in_unit(bytes, 0x10_0000) + " MB"@
    } else if bytes >= 0x400 {
        in_unit(bytes, 0x400) + " KB"@
    } else {
        text::decimal_text(bytes as nat) + " B"@
    }
}

/// Rounding goes to the nearest number: it is off by half a unit at most.
pub proof fn law_rounded_is_nearest(num: nat, den: nat)
    requires
        den > 0,
    ensures
        2 * (rounded(num, den) * den - num) <= den,
        2 * (num - rounded(num, den) * den) <= den,
{
    let q = (num / den) as int;
    let d = den as int;
    vstd::arithmetic::div_mod::lemma_fundamental_div_mod(num as int, d);
    assert((q + 1) * d == q * d + d) by (nonlinear_arith);
    assert(q * d == d * q) by (nonlinear_arith);
}

fn round_half_even(num: u128, den: u128) -> (r: u128)
    requires
        0 < den <= 0x4000_0000,
    ensures
        r == rounded(num as nat, den as nat),
        r <= num + 1,
{
    let q = num / den;
    let rest = num % den;
    assert(q <= num) by (nonlinear_arith)
        requires
            q == num / den,
            den > 0,
    ;
    if q == u128::MAX {
        assert(den == 1) by (nonlinear_arith)
            requires
                q == num / den,
                q == u128::MAX,
                num <= u128::MAX,
                den > 0,
        ;
    }
    if 2 * rest < den || (2 * rest == den && q % 2 == 0) {
        q
    } else {
        q + 1
    }
}

fn spacing_of(n: u64) -> (r: u128)
    ensures
        r == spacing(n as nat),
        1 <= r <= 2048,
{
    let mut m: u64 = n;
    let mut unit: u128 = 1;
    let ghost mut k: int = 0;
    while m >= 0x20_0000_0000_0000
        invariant
            unit * spacing(m as nat) == spacing(n as nat),
            0 <= k <= 11,
            unit >= 1,
            k == 0 ==> unit == 1,
            (k == 0 && m <= 0xffff_ffff_ffff_ffff) || (k == 1 && unit == 2 && m
                < 0x8000_0000_0000_0000) || (k == 2 && unit == 4 && m < 0x4000_0000_0000_0000) || (k
                == 3 && unit == 8 && m < 0x2000_0000_0000_0000) || (k == 4 && unit == 16 && m
                < 0x1000_0000_0000_0000) || (k == 5 && unit == 32 && m < 0x800_0000_0000_0000) || (k
                == 6 && unit == 64 && m < 0x400_0000_0000_0000) || (k == 7 && unit == 128 && m
                < 0x200_0000_0000_0000) || (k == 8 && unit == 256 && m < 0x100_0000_0000_0000) || (k
                == 9 && unit == 512 && m < 0x80_0000_0000_0000) || (k == 10 && unit == 1024 && m
                < 0x40_0000_0000_0000) || (k == 11 && unit == 2048 && m < 0x20_0000_0000_0000),
        decreases m,
    {
        proof {
            let s = spacing((m / 2) as nat) as int;
            assert(spacing(m as nat) == 2 * s);
            assert(unit * (2 * s) == (unit * 2) * s) by (nonlinear_arith);
            k = k + 1;
        }
        m = m / 2;
        unit = unit * 2;
    }
    assert(unit * 1 == unit) by (nonlinear_arith);
    unit
}

fn text_in_unit(bytes: u64, unit: u128) -> (r: String)
    requires
        1 <= unit <= 0x4000_0000,
    ensures
        r@ == in_unit(bytes, unit as nat),
{
    let step = spacing_of(bytes);
    let steps = round_half_even(bytes as u128, step);
    assert(steps * step <= 0x1_0000_0000_0000_0001 * 2048) by (nonlinear_arith)
        requires
            steps <= 0x1_0000_0000_0000_0000,
            1 <= step <= 2048,
    ;
    let near: u128 = steps * step;
    let hundredths = round_half_even(near * 100, unit);
    let mut s = text::decimal(hundredths / 100);
    s.append(".");
    let mut tail = text::decimal(hundredths / 10 % 10);
    tail.append(text::decimal(hundredths % 10).as_str());
    assert(tail@ =~= seq![
        text::digit_char(hundredths as nat / 10 % 10),
        text::digit_char(hundredths as nat % 10),
    ]);
    s.append(tail.as_str());
    s
}

/// A number of bytes for reading: in gigabytes, megabytes or kilobytes with two
/// decimals, or in bytes.
pub fn format_bytes(bytes: u64) -> (r: String)
    ensures
        r@ == bytes_text(bytes),
{
    if bytes >= 0x4000_0000 {
        let mut s = text_in_unit(bytes, 0x4000_0000);
        s.append(" GB");
        s
    } else if bytes >= 0x10_0000 {
        let mut s = text_in_unit(bytes, 0x10_0000);
        s.append(" MB");
        s
    } else if bytes >= 0x400 {
        let mut s = text_in_unit(bytes, 0x400);
        s.append(" KB");
        s
    } else {
        let mut s = text::decimal(bytes as u128);
        s.append(" B");
        s
    }
}

/// A rate for reading: the bytes of an interval, in seconds, per second.
pub fn format_rate(bytes: u64, interval: u64) -> (r: String)
    requires
        interval > 0,
    ensures
        r@ == bytes_text((bytes / interval) as u64) + "/s"@,
{
    let mut s = format_bytes(bytes / interval);
    s.append("/s");
    s
}

/// The flags of an interface are those that it has, in a fixed order.
pub proof fn law_flags(loopback: bool, multicast: bool, broadcast: bool)
    ensures
        flags_set(loopback, multicast, broadcast).contains("LOOPBACK"@) <==> loopback,
        flags_set(loopback, multicast, broadcast).contains("MULTICAST"@) <==> multicast,
        flags_set(loopback, multicast, broadcast).contains("BROADCAST"@) <==> broadcast,
        flags_set(true, true, true) == seq!["LOOPBACK"@, "MULTICAST"@, "BROADCAST"@],
{
    reveal_strlit("LOOPBACK");
    reveal_strlit("MULTICAST");
    reveal_strlit("BROADCAST");
    let f = flags_set(loopback, multicast, broadcast);
    let l = "LOOPBACK"@;
    let m = "MULTICAST"@;
    let b = "BROADCAST"@;
    assert(l[0] == 'L' && m[0] == 'M' && b[0] == 'B');
    let i: int = if loopback {
        1
    } else {
        0
    };
    let j: int = if multicast {
        i + 1
    } else {
        i
    };
    if loopback {
        assert(f[0] == l);
    }
    if multicast {
        assert(f[i] == m);
    }
    if broadcast {
        assert(f[j] == b);
    }
    assert(flags_set(true, true, true) =~= seq![l, m, b]);
}

/// The header of a probe is an IPv4 header of twenty bytes for a packet of 28
/// that is not to be divided and carries ICMP.
pub proof fn law_probe_header(dest: u32, ttl: u8)
    ensures
        probe_header(dest, ttl).len() == 20,
        probe_header(dest, ttl)[0] == 0x45,
        echo::be16(probe_header(dest, ttl)[2], probe_header(dest, ttl)[3]) == 28,
        probe_header(dest, ttl)[6] == 0x40,
        probe_header(dest, ttl)[8] == ttl,
        probe_header(dest, ttl)[9] == 1,
{
}

/// The message of a probe is an echo request of eight bytes.
pub proof fn law_probe_message(seq: u16)
    ensures
        probe_echo(seq).len() == 8,
        probe_echo(seq)[0] == 8,
        probe_echo(seq)[1] == 0,
        echo::be16(probe_echo(seq)[6], probe_echo(seq)[7]) == seq,
{
}

/// A router's answer and a timeout end a hop, and the next one is probed until
/// the last; the destination's answer ends the trace; any other message leaves
/// the wait as it was, for as long as there is time. The time of an answer is
/// measured from the sending of its probe.
pub proof fn law_trace_steps(run: TraceRun, kind: u8, now: Nanos, began: Nanos)
    requires
        run.sent <= now,
    ensures
        ({
            let onward = if run.ttl < run.max_hops {
                TraceMove::Send { ttl: (run.ttl + 1) as u8 }
            } else {
                TraceMove::GaveUp
            };
            let heard = trace_action(run, TraceInput::Message { kind }, now);
            let silent = trace_action(run, TraceInput::NoMessage, now);
            let unsent = trace_action(run, TraceInput::SendFailed, now);
            let sent = trace_action(run, TraceInput::Sent { began }, now);
            &&& kind == 11 ==> heard.next == onward && heard.report == Some(
                HopReport::Router { rtt: (now - run.sent) as Nanos },
            )
            &&& kind == 0 ==> heard.next == (TraceMove::Reached { hops: run.ttl }) && heard.report
                == Some(HopReport::Destination { rtt: (now - run.sent) as Nanos })
            &&& kind != 0 && kind != 11 && now < run.deadline ==> heard.report is None && heard.next
                == (TraceMove::Wait { remaining: (run.deadline - now) as Nanos })
            &&& kind != 0 && kind != 11 && now >= run.deadline ==> heard.next == onward
                && heard.report == Some(HopReport::TimedOut)
            &&& silent.next == onward && silent.report == Some(HopReport::TimedOut)
            &&& unsent.next == onward && unsent.report == Some(HopReport::NotSent)
            &&& sent.report is None && sent.next == (TraceMove::Wait { remaining: HOP_TIMEOUT })
        }),
{
}

/// After a probe was sent, its time and its deadline are known; nothing else that
/// happens to a hop changes them.
pub proof fn law_trace_keeps_time(run: TraceRun, ev: TraceInput, now: Nanos, began: Nanos)
    requires
        now <= LONGEST,
    ensures
        trace_after(run, TraceInput::Sent { began }, now).sent == began,
        trace_after(run, TraceInput::Sent { began }, now).deadline == now + 3_000_000_000,
        trace_after(run, TraceInput::Sent { began }, now).ttl == run.ttl,
        !(ev is Sent) ==> trace_after(run, ev, now).sent == run.sent && trace_after(
            run,
            ev,
            now,
        ).deadline == run.deadline,
{
}

/// The number of a hop takes three places, with blanks in front.
pub proof fn law_hop_number(ttl: u8)
    ensures
        hop_number(ttl).len() == 3,
        text::unsigned_value(text::trimmed(hop_number(ttl))) == Some(ttl as nat),
{
    reveal_strlit("  ");
    reveal_strlit(" ");
    let n = text::decimal_text(ttl as nat);
    text::law_numerals_are_read(ttl as nat);
    text::lemma_decimal_chars(ttl as nat);
    let none = Seq::<char>::empty();
    assert(text::is_digit(n[0]) && text::is_digit(n[n.len() - 1]));
    reveal_with_fuel(text::decimal_text, 4);
    let blanks = if ttl < 10 {
        "  "@
    } else if ttl < 100 {
        " "@
    } else {
        none
    };
    assert(hop_number(ttl) =~= blanks + n + none);
    text::law_trimmed(blanks, n, none);
}

/// Hundredths are shown as a whole number, a point and two digits.
pub proof fn law_two_decimals(h: nat)
    ensures
        ({
            let t = two_decimals(h);
            &&& t.len() >= 4
            &&& t[t.len() - 3] == '.'
            &&& text::unsigned_value(t.take(t.len() - 3)) == Some(h / 100)
            &&& text::unsigned_value(t.skip(t.len() - 2)) == Some(h % 100)
        }),
{
    reveal_strlit(".");
    let t = two_decimals(h);
    let whole = text::decimal_text(h / 100);
    text::law_numerals_are_read(h / 100);
    let none = Seq::<char>::empty();
    let d = t.skip(t.len() - 2);
    assert(t.take(t.len() - 3) =~= whole);
    assert(d.len() == 2);
    assert(text::is_digit(d[0]) && text::is_digit(d[1]));
    assert(d.drop_last() =~= none.push(d[0]));
    assert(d.drop_last().drop_last() =~= none);
    reveal_with_fuel(text::decimal_value, 3);
    assert(h % 100 == (h / 10 % 10) * 10 + h % 10);
}

/// The numbers of a double have 53 bits: the spacing at a number is the smallest
/// power of two with which 53 bits reach it.
pub proof fn law_spacing(n: nat)
    ensures
        spacing(n) >= 1,
        n < spacing(n) * 0x20_0000_0000_0000,
        spacing(n) > 1 ==> n >= spacing(n) * 0x10_0000_0000_0000,
        n < 0x20_0000_0000_0000 ==> in_53_bits(n) == n,
    decreases n,
{
    if n >= 0x20_0000_0000_0000 {
        law_spacing(n / 2);
        let s = spacing(n / 2);
        assert(n / 2 < s * 0x20_0000_0000_0000);
        assert(n < 2 * s * 0x20_0000_0000_0000);
    } else {
        assert(spacing(n) == 1);
        assert(rounded(n, 1) == n) by {
            assert(n / 1 == n && n % 1 == 0);
        }
    }
}

/// A number of bytes is shown in the largest unit that it reaches, to the nearest
/// hundredth.
pub proof fn law_bytes(bytes: u64)
    requires
        bytes < 0x20_0000_0000_0000,
    ensures
        bytes < 0x400 ==> bytes_text(bytes) == text::decimal_text(bytes as nat) + " B"@,
        0x400 <= bytes < 0x10_0000 ==> bytes_text(bytes) == two_decimals(
            rounded(bytes as nat * 100, 0x400),
        ) + " KB"@,
        0x10_0000 <= bytes < 0x4000_0000 ==> bytes_text(bytes) == two_decimals(
            rounded(bytes as nat * 100, 0x10_0000),
        ) + " MB"@,
        0x4000_0000 <= bytes ==> bytes_text(bytes) == two_decimals(
            rounded(bytes as nat * 100, 0x4000_0000),
        ) + " GB"@,
{
    law_spacing(bytes as nat);
}

/// The header of a probe leaves its identifier, its checksum and its source to
/// the system.
pub proof fn law_probe_header_leaves_open(dest: u32, ttl: u8)
    ensures
        probe_header(dest, ttl)[1] == 0 && probe_header(dest, ttl)[4] == 0 && probe_header(
            dest,
            ttl,
        )[5] == 0 && probe_header(dest, ttl)[7] == 0,
        forall|i: int| 10 <= i < 16 ==> #[trigger] probe_header(dest, ttl)[i] == 0,
{
}

/// What lies in the middle between two numbers is rounded to the even one.
pub proof fn law_rounding_ties(num: nat, den: nat)
    requires
        den > 0,
        2 * (num % den) == den,
    ensures
        rounded(num, den) % 2 == 0,
        rounded(num, den) == num / den || rounded(num, den) == num / den + 1,
{
}

/// A number in 53 bits is the nearest multiple of the spacing.
pub proof fn law_53_bits(n: nat)
    ensures
        in_53_bits(n) % spacing(n) == 0,
        2 * (in_53_bits(n) - n) <= spacing(n),
        2 * (n - in_53_bits(n)) <= spacing(n),
{
    law_spacing(n);
    law_rounded_is_nearest(n, spacing(n));
    vstd::arithmetic::div_mod::lemma_mod_multiples_basic(
        rounded(n, spacing(n)) as int,
        spacing(n) as int,
    );
}

/// A number of bytes of any size is shown in the unit that it reaches, from what a
/// double keeps of it.
pub proof fn law_large_bytes(bytes: u64)
    requires
        bytes >= 0x4000_0000,
    ensures
        bytes_text(bytes) == two_decimals(rounded(in_53_bits(bytes as nat) * 100, 0x4000_0000))
            + " GB"@,
{
}

/// The time of an answer is counted from the sending; one from before it counts
/// as none.
pub proof fn law_elapsed(sent: Nanos, now: Nanos)
    ensures
        sent <= now ==> sent + elapsed(sent, now) == now,
        now <= sent ==> elapsed(sent, now) == 0,
{
}

/// There are as many flags shown as are set.
pub proof fn law_flag_count(loopback: bool, multicast: bool, broadcast: bool)
    ensures
        flags_set(loopback, multicast, broadcast).len() == (if loopback {
            1int
        } else {
            0
        }) + (if multicast {
            1int
        } else {
            0
        }) + (if broadcast {
            1int
        } else {
            0
        }),
        flags_set(true, false, true) == seq!["LOOPBACK"@, "BROADCAST"@],
        flags_set(true, true, false) == seq!["LOOPBACK"@, "MULTICAST"@],
        flags_set(false, true, true) == seq!["MULTICAST"@, "BROADCAST"@],
{
    assert(flags_set(true, false, true) =~= seq!["LOOPBACK"@, "BROADCAST"@]);
    assert(flags_set(true, true, false) =~= seq!["LOOPBACK"@, "MULTICAST"@]);
    assert(flags_set(false, true, true) =~= seq!["MULTICAST"@, "BROADCAST"@]);
}

/// A hop has three seconds to answer, and a probe is a header of twenty bytes and
/// a message of eight.
pub proof fn law_probe_limits(dest: u32, ttl: u8, seq: u16)
    ensures
        HOP_TIMEOUT == 3 * 1_000_000_000,
        PROBE_IDENT == 0xCAFE,
        PACKET_SIZE == (probe_header(dest, ttl) + probe_echo(seq)).len(),
{
}

} // verus!
