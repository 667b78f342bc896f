//! ICMP echo probes with strict reply validation.
//!
//! A received packet counts as the reply to a probe only if it is an echo
//! reply whose identifier and sequence number are those of the probe. An ICMP
//! error counts as the loss of the probe only if the packet embedded in it is
//! the probe.

use crate::ip::IpAddr;
use crate::units::{Nanos, MILLISECOND};
use vstd::prelude::*;

verus! {

/// Why a probe got no reply.
#[derive(Debug)]
pub enum PingError {
    /// No valid reply before the deadline (counts as packet loss). Also used
    /// for ICMP "destination unreachable" and OS-level unreachable errors,
    /// which are loss conditions, not fatal errors.
    Timeout,
    /// Fatal error (permissions, socket failure): the worker should stop.
    Other(String),
}

/// What a received packet means for a probe.
#[derive(Debug, Clone, Copy, PartialEq, Eq, Structural)]
pub enum Reply {
    /// The echo reply to the probe.
    Echo,
    /// The probe could not be delivered.
    Unreachable,
}

/// The number of payload bytes of an echo request.
pub const PAYLOAD_LEN: usize = 24;

/// The byte that the payload consists of.
pub const PAYLOAD_BYTE: u8 = 0x52;

/// What identifies the probes sent through one socket.
#[derive(Debug, Clone, Copy, PartialEq, Eq, Structural)]
pub struct Pinger {
    /// The identifier of the echo requests.
    pub ident: u16,
    /// Whether the target has an IPv4 address.
    pub is_v4: bool,
    /// Linux ICMP datagram sockets: the kernel rewrites the identifier on the
    /// wire and already demultiplexes replies per socket, so the identifier
    /// of received packets cannot be compared with ours.
    pub kernel_ident: bool,
}

// ---------------------------------------------------------------- Checksum

/// The 16-bit number made of two bytes in network order.
pub open spec fn be16(high: u8, low: u8) -> nat {
    high as nat * 256 + low as nat
}

/// The sum of the 16-bit words of `data`; a last single byte is the high half
/// of a word.
pub open spec fn word_sum(data: Seq<u8>) -> nat
    decreases data.len(),
{
    if data.len() == 0 {
        0
    } else if data.len() % 2 == 1 {
        word_sum(data.drop_last()) + be16(data.last(), 0)
    } else {
        word_sum(data.take(data.len() - 2)) + be16(data[data.len() - 2], data[data.len() - 1])
    }
}

/// The one's complement sum with the value `n`: the number from 1 to 65535
/// that is congruent to `n` modulo 65535, or 0 for 0.
pub open spec fn end_around(n: nat) -> nat {
    if n == 0 {
        0
    } else {
        ((n - 1) % 65535 + 1) as nat
    }
}

/// The Internet checksum of `data`.
pub open spec fn checksum_of(data: Seq<u8>) -> u16 {
    (65535 - end_around(word_sum(data))) as u16
}

proof fn lemma_fold(n: nat)
    ensures
        end_around(n) == end_around(n % 0x1_0000 + n / 0x1_0000),
        n < 0x1_0000 ==> end_around(n) == n,
        n >= 0x1_0000 ==> n % 0x1_0000 + n / 0x1_0000 < n,
{
    let q = (n / 0x1_0000) as int;
    let m = (n % 0x1_0000 + n / 0x1_0000) as int;
    assert(n == q * 65535 + m);
    if n > 0 {
        assert(m > 0);
        assert(n - 1 == 65535 * q + (m - 1));
        vstd::arithmetic::div_mod::lemma_mod_multiples_vanish(q, m - 1, 65535);
    }
}

/// Computes the Internet checksum.
pub fn checksum(data: &[u8]) -> (r: u16)
    requires
        word_sum(data@) <= u32::MAX,
    ensures
        r == checksum_of(data@),
{
    let mut sum: u32 = 0;
    let mut i: usize = 0;
    let n = data.len();
    assert(data@.take(0) =~= seq![]);
    while n - i >= 2
        invariant
            n == data@.len(),
            i <= n,
            i % 2 == 0,
            word_sum(data@) <= u32::MAX,
            sum == word_sum(data@.take(i as int)),
        decreases n - i,
    {
        let ghost next = data@.take(i + 2);
        assert(next.take(i as int) =~= data@.take(i as int));
        proof {
            lemma_word_sum_grows(data@, i + 2);
        }
        sum += (data[i] as u32) * 256 + (data[i + 1] as u32);
        i += 2;
    }
    if n - i == 1 {
        assert(data@.drop_last() =~= data@.take(i as int));
        sum += (data[i] as u32) * 256;
    } else {
        assert(data@.take(i as int) =~= data@);
    }
    assert(sum == word_sum(data@));
    let ghost total = sum as nat;
    while sum >= 0x1_0000
        invariant
            end_around(sum as nat) == end_around(total),
        decreases sum,
    {
        proof {
            lemma_fold(sum as nat);
        }
        sum = sum % 0x1_0000 + sum / 0x1_0000;
    }
    proof {
        lemma_fold(sum as nat);
    }
    0xffff - (sum as u16)
}

proof fn lemma_word_sum_grows(data: Seq<u8>, n: int)
    requires
        0 <= n <= data.len(),
        n % 2 == 0,
    ensures
        word_sum(data.take(n)) <= word_sum(data),
    decreases data.len() - n,
{
    if n == data.len() {
        assert(data.take(n) =~= data);
    } else if n + 1 == data.len() {
        assert(data.drop_last() =~= data.take(n));
    } else {
        assert(data.take(n + 2).take(n) =~= data.take(n));
        lemma_word_sum_grows(data, n + 2);
    }
}

// ------------------------------------------------------------ Echo requests

/// An echo request without its checksum.
pub open spec fn bare_request(is_v4: bool, ident: u16, seq: u16) -> Seq<u8> {
    seq![
        if is_v4 { 8u8 } else { 128u8 },
        0u8,
        0u8,
        0u8,
        (ident / 256) as u8,
        (ident % 256) as u8,
        (seq / 256) as u8,
        (seq % 256) as u8,
    ] + Seq::new(PAYLOAD_LEN as nat, |i: int| PAYLOAD_BYTE)
}

/// `packet` with `ck` in its checksum field.
pub open spec fn with_checksum(packet: Seq<u8>, ck: u16) -> Seq<u8> {
    packet.update(2, (ck / 256) as u8).update(3, (ck % 256) as u8)
}

/// The echo request with the given identifier and sequence number. For ICMPv6
/// the kernel fills in the checksum.
pub open spec fn echo_request(is_v4: bool, ident: u16, seq: u16) -> Seq<u8> {
    let bare = bare_request(is_v4, ident, seq);
    if is_v4 {
        with_checksum(bare, checksum_of(bare))
    } else {
        bare
    }
}

proof fn lemma_word_sum_bound(data: Seq<u8>)
    ensures
        word_sum(data) <= 65535 * data.len(),
    decreases data.len(),
{
    if data.len() == 0 {
    } else if data.len() % 2 == 1 {
        lemma_word_sum_bound(data.drop_last());
    } else {
        lemma_word_sum_bound(data.take(data.len() - 2));
    }
}

/// Builds an ICMP echo request.
pub fn build_echo_request(is_v4: bool, ident: u16, seq: u16) -> (r: Vec<u8>)
    ensures
        r@ == echo_request(is_v4, ident, seq),
{
    let mut packet: Vec<u8> = Vec::new();
    packet.push(if is_v4 { 8 } else { 128 });
    packet.push(0);
    packet.push(0);
    packet.push(0);
    packet.push((ident / 256) as u8);
    packet.push((ident % 256) as u8);
    packet.push((seq / 256) as u8);
    packet.push((seq % 256) as u8);
    let mut k: usize = 0;
    while k < PAYLOAD_LEN
        invariant
            k <= PAYLOAD_LEN,
            packet@ =~= bare_request(is_v4, ident, seq).take(8 + k),
        decreases PAYLOAD_LEN - k,
    {
        packet.push(PAYLOAD_BYTE);
        k += 1;
    }
    assert(packet@ =~= bare_request(is_v4, ident, seq));
    if is_v4 {
        proof {
            lemma_word_sum_bound(packet@);
        }
        let ck = checksum(packet.as_slice());
        packet.set(2, (ck / 256) as u8);
        packet.set(3, (ck % 256) as u8);
    }
    packet
}

/// Setting the zero checksum field adds the checksum to the sum of the words.
pub proof fn lemma_sum_with_checksum(packet: Seq<u8>, ck: u16)
    requires
        packet.len() >= 4,
        packet[2] == 0,
        packet[3] == 0,
    ensures
        word_sum(with_checksum(packet, ck)) == word_sum(packet) + ck,
    decreases packet.len(),
{
    let set = with_checksum(packet, ck);
    let n = packet.len() as int;
    if n == 4 {
        assert(set.take(2) =~= packet.take(2));
    } else if n % 2 == 1 {
        assert(set.drop_last() =~= with_checksum(packet.drop_last(), ck));
        lemma_sum_with_checksum(packet.drop_last(), ck);
    } else {
        assert(set.take(n - 2) =~= with_checksum(packet.take(n - 2), ck));
        lemma_sum_with_checksum(packet.take(n - 2), ck);
    }
}

/// A packet whose zero checksum field is filled with its checksum verifies:
/// its own checksum is zero.
pub proof fn law_checksum_verifies(packet: Seq<u8>)
    requires
        packet.len() >= 4,
        packet[2] == 0,
        packet[3] == 0,
    ensures
        checksum_of(with_checksum(packet, checksum_of(packet))) == 0,
{
    let n = word_sum(packet);
    let ck = checksum_of(packet);
    lemma_sum_with_checksum(packet, ck);
    let m = if n == 0 {
        1int
    } else {
        (n - 1) as int / 65535 + 1
    };
    assert(n + ck == 65535 * m);
    assert(n + ck - 1 == 65535 * (m - 1) + 65534);
    vstd::arithmetic::div_mod::lemma_mod_multiples_vanish(m - 1, 65534, 65535);
}

/// Every ICMPv4 echo request carries a checksum that verifies.
pub proof fn law_echo_request_verifies(ident: u16, seq: u16)
    ensures
        checksum_of(echo_request(true, ident, seq)) == 0,
{
    law_checksum_verifies(bare_request(true, ident, seq));
}

// ------------------------------------------------------------------ Replies

/// The ICMP message of a received packet. Raw IPv4 sockets (and macOS ICMP
/// datagram sockets) deliver the IP header before it.
pub open spec fn message_of(is_v4: bool, data: Seq<u8>) -> Option<Seq<u8>> {
    if is_v4 && data.len() >= 20 && data[0] / 16 == 4 {
        after_header(data)
    } else {
        Some(data)
    }
}

/// What follows the IPv4 header at the start of `data`.
pub open spec fn after_header(data: Seq<u8>) -> Option<Seq<u8>> {
    let ihl = (data[0] % 16) as int * 4;
    if ihl <= data.len() {
        Some(data.skip(ihl))
    } else {
        None
    }
}

/// The packet that an ICMP error message embeds: the ICMP message behind the
/// original IP header.
pub open spec fn embedded_message(is_v4: bool, message: Seq<u8>) -> Option<Seq<u8>> {
    let inner = message.skip(8);
    if is_v4 {
        if inner.len() < 20 || inner[0] / 16 != 4 {
            None
        } else {
            after_header(inner)
        }
    } else if inner.len() < 40 {
        None
    } else {
        Some(inner.skip(40))
    }
}

impl Pinger {
    /// Whether the message `m` is of type `kind` and carries the identifier
    /// and the sequence number of the probe.
    pub open spec fn carries(self, m: Seq<u8>, kind: u8, seq: u16) -> bool {
        &&& m.len() >= 8
        &&& m[0] == kind
        &&& self.kernel_ident || be16(m[4], m[5]) == self.ident
        &&& be16(m[6], m[7]) == seq
    }

    /// Whether `data` is the echo reply to the probe.
    pub open spec fn is_echo(self, data: Seq<u8>, seq: u16) -> bool {
        message_of(self.is_v4, data) matches Some(m) && self.carries(
            m,
            if self.is_v4 { 0 } else { 129 },
            seq,
        )
    }

    /// Whether `data` reports that the probe could not be delivered.
    pub open spec fn is_unreachable(self, data: Seq<u8>, seq: u16) -> bool {
        &&& message_of(self.is_v4, data) matches Some(m)
        &&& m.len() >= 8
        &&& if self.is_v4 {
            m[0] == 3 || m[0] == 11
        } else {
            m[0] == 1 || m[0] == 3
        }
        &&& embedded_message(self.is_v4, m) matches Some(probe)
        &&& self.carries(
            probe,
            if self.is_v4 { 8 } else { 128 },
            seq,
        )
    }

    /// What `data` means for the probe.
    pub open spec fn meaning(self, data: Seq<u8>, seq: u16) -> Option<Reply> {
        if self.is_echo(data, seq) {
            Some(Reply::Echo)
        } else if self.is_unreachable(data, seq) {
            Some(Reply::Unreachable)
        } else {
            None
        }
    }

    /// The identity of the probes to `ip`: the process and a counter make the
    /// identifier, which the Linux kernel replaces on datagram sockets.
    pub fn new(ip: IpAddr, process_id: u32, counter: u16, linux: bool, dgram: bool) -> (r: Pinger)
        ensures
            r.ident == (process_id % 0x1_0000) as u16 ^ counter,
            r.is_v4 == (ip is V4),
            r.kernel_ident == (linux && dgram),
    {
        Pinger {
            ident: ((process_id % 0x1_0000) as u16) ^ counter,
            is_v4: ip.is_ipv4(),
            kernel_ident: linux && dgram,
        }
    }

    fn carries_at(&self, m: &[u8], from: usize, kind: u8, seq: u16) -> (r: bool)
        requires
            from <= m@.len(),
        ensures
            r == self.carries(m@.skip(from as int), kind, seq),
    {
        let ghost t = m@.skip(from as int);
        if m.len() - from < 8 {
            return false;
        }
        assert(t[0] == m@[from as int] && t[4] == m@[from + 4] && t[5] == m@[from + 5] && t[6]
            == m@[from + 6] && t[7] == m@[from + 7]);
        let ident: u32 = (m[from + 4] as u32) * 256 + (m[from + 5] as u32);
        let rseq: u32 = (m[from + 6] as u32) * 256 + (m[from + 7] as u32);
        m[from] == kind && (self.kernel_ident || ident == self.ident as u32) && rseq == seq as u32
    }

    /// Validates a received packet against the probe (type, identifier and
    /// sequence number).
    pub fn classify(&self, data: &[u8], seq: u16) -> (r: Option<Reply>)
        ensures
            r == self.meaning(data@, seq),
    {
        let n = data.len();
        let start: usize = if self.is_v4 && n >= 20 && data[0] / 16 == 4 {
            let ihl: usize = ((data[0] % 16) as usize) * 4;
            if ihl > n {
                return None;
            }
            ihl
        } else {
            0
        };
        let ghost message = data@.skip(start as int);
        assert(start == 0 ==> message =~= data@);
        assert(message_of(self.is_v4, data@) == Some(message));
        if n - start < 8 {
            return None;
        }
        let kind = data[start];
        assert(message[0] == kind);
        let echo_reply: u8 = if self.is_v4 { 0 } else { 129 };
        if kind == echo_reply {
            return if self.carries_at(data, start, echo_reply, seq) {
                Some(Reply::Echo)
            } else {
                None
            };
        }
        let unreachable = if self.is_v4 {
            kind == 3 || kind == 11
        } else {
            kind == 1 || kind == 3
        };
        if !unreachable {
            return None;
        }
        let inner: usize = start + 8;
        assert(message.skip(8) =~= data@.skip(inner as int));
        let probe: usize = if self.is_v4 {
            if n - inner < 20 || data[inner] / 16 != 4 {
                return None;
            }
            let ihl: usize = ((data[inner] % 16) as usize) * 4;
            if ihl > n - inner {
                return None;
            }
            inner + ihl
        } else {
            if n - inner < 40 {
                return None;
            }
            inner + 40
        };
        assert(embedded_message(self.is_v4, message)->0 =~= data@.skip(probe as int));
        let echo_request: u8 = if self.is_v4 { 8 } else { 128 };
        if self.carries_at(data, probe, echo_request, seq) {
            Some(Reply::Unreachable)
        } else {
            None
        }
    }
}

/// A packet that counts for two probes of the same kind of target carries the
/// sequence number of both and, where the kernel does not choose it, the
/// identifier of both. So a packet that belongs to one probe never counts for
/// another.
pub proof fn law_no_cross_talk(a: Pinger, b: Pinger, data: Seq<u8>, seq_a: u16, seq_b: u16)
    requires
        a.is_v4 == b.is_v4,
        a.meaning(data, seq_a) is Some,
        b.meaning(data, seq_b) is Some,
    ensures
        seq_a == seq_b,
        !a.kernel_ident && !b.kernel_ident ==> a.ident == b.ident,
        a.meaning(data, seq_a) == b.meaning(data, seq_b),
{
}

/// The echo reply to a request, with or without an IPv4 header before it, is
/// recognized: the target sends back the request with the reply type.
pub proof fn law_reply_recognized(p: Pinger, seq: u16, ck: u16, header: Seq<u8>)
    requires
        header.len() == 0 || (p.is_v4 && header.len() >= 20 && header[0] / 16 == 4 && (header[0]
            % 16) as int * 4 == header.len()),
    ensures
        ({
            let request = echo_request(p.is_v4, p.ident, seq);
            let reply = with_checksum(request.update(0, if p.is_v4 { 0 } else { 129 }), ck);
            p.meaning(header + reply, seq) == Some(Reply::Echo)
        }),
{
    let request = echo_request(p.is_v4, p.ident, seq);
    let reply = with_checksum(request.update(0, if p.is_v4 { 0 } else { 129 }), ck);
    let data = header + reply;
    if header.len() == 0 {
        assert(data =~= reply);
        assert(message_of(p.is_v4, data) == Some(reply));
    } else {
        assert(data.skip(header.len() as int) =~= reply);
        assert(message_of(p.is_v4, data) == Some(reply));
    }
}

// ------------------------------------------------------------- Probe outcome

/// The error numbers of macOS and Linux that mean loss: EHOSTDOWN (64, 112),
/// EHOSTUNREACH (65, 113), ENETUNREACH (51, 101), ENETDOWN (50, 100) and
/// ECONNREFUSED (111).
pub open spec fn is_loss_errno(code: i32) -> bool {
    code == 50 || code == 51 || code == 64 || code == 65 || code == 100 || code == 101 || code
        == 111 || code == 112 || code == 113
}

/// The outcome that a socket error stands for.
pub open spec fn io_outcome(r: PingError, code: Option<i32>, context: Seq<char>, error: Seq<char>) -> bool {
    match r {
        PingError::Timeout => code matches Some(c) && is_loss_errno(c),
        PingError::Other(text) => !(code matches Some(c) && is_loss_errno(c)) && text@ == context
            + ": "@ + error,
    }
}

/// "Host/network unreachable" while sending is a loss condition (e.g. ARP
/// failure on the local subnet), not a fatal socket error. `code` is the
/// operating system's error number and `error` the text of the error.
pub fn map_io_error(code: Option<i32>, context: &str, error: &str) -> (r: PingError)
    ensures
        io_outcome(r, code, context@, error@),
{
    if let Some(c) = code {
        if c == 50 || c == 51 || c == 64 || c == 65 || c == 100 || c == 101 || c == 111 || c == 112
            || c == 113 {
            return PingError::Timeout;
        }
    }
    let mut text = context.to_owned();
    text.append(": ");
    text.append(error);
    PingError::Other(text)
}

/// What to do while waiting for a reply.
#[derive(Debug, Clone, Copy, PartialEq, Eq, Structural)]
pub enum Wait {
    /// The deadline has passed: the probe is lost.
    Expired,
    /// Receive a packet, waiting this long at most.
    Receive { read_timeout: Nanos },
}

/// The next step of waiting for a reply: until the deadline, and for no less
/// than a millisecond at a time.
pub fn next_wait(now: Nanos, deadline: Nanos) -> (r: Wait)
    ensures
        now >= deadline <==> r == Wait::Expired,
        now < deadline ==> r == (Wait::Receive {
            read_timeout: if deadline - now < MILLISECOND {
                MILLISECOND
            } else {
                (deadline - now) as Nanos
            },
        }),
{
    if now >= deadline {
        Wait::Expired
    } else if deadline - now < MILLISECOND {
        Wait::Receive { read_timeout: MILLISECOND }
    } else {
        Wait::Receive { read_timeout: deadline - now }
    }
}

/// What became of one attempt to receive a packet.
#[derive(Debug)]
pub enum Received {
    /// A packet arrived.
    Packet(Vec<u8>),
    /// The read timed out.
    NoPacket,
    /// The call was interrupted.
    Interrupted,
    /// The socket failed, with an error number and a text.
    Failed { code: Option<i32>, error: String },
}

/// What an attempt to receive means for the probe.
#[derive(Debug)]
pub enum Step {
    /// The echo reply arrived.
    Replied,
    /// The probe ended without a reply.
    Ended(PingError),
    /// Nothing that concerns the probe happened: keep waiting.
    Continue,
}

impl Pinger {
    /// Decides what an attempt to receive means for the probe `seq`.
    pub fn on_received(&self, received: &Received, seq: u16) -> (r: Step)
        ensures
            match *received {
                Received::Packet(data) => match self.meaning(data@, seq) {
                    Some(Reply::Echo) => r is Replied,
                    Some(Reply::Unreachable) => r matches Step::Ended(e) && e is Timeout,
                    None => r is Continue,
                },
                Received::NoPacket => r matches Step::Ended(e) && e is Timeout,
                Received::Interrupted => r is Continue,
                Received::Failed { code, error } => r matches Step::Ended(e) && io_outcome(
                    e,
                    code,
                    "receive failed"@,
                    error@,
                ),
            },
    {
        match received {
            Received::Packet(data) => match self.classify(data.as_slice(), seq) {
                Some(Reply::Echo) => Step::Replied,
                Some(Reply::Unreachable) => Step::Ended(PingError::Timeout),
                None => Step::Continue,
            },
            Received::NoPacket => Step::Ended(PingError::Timeout),
            Received::Interrupted => Step::Continue,
            Received::Failed { code, error } => Step::Ended(
                map_io_error(*code, "receive failed", error.as_str()),
            ),
        }
    }
}

/// A probe that was sent and waits for its reply. Times are those of a clock
/// that never goes back.
#[derive(Debug, Clone, Copy, PartialEq, Eq, Structural)]
pub struct Probe {
    pub pinger: Pinger,
    pub seq: u16,
    pub start: Nanos,
    pub deadline: Nanos,
}

impl Probe {
    /// The probe `seq`, sent at `start`, with the given time for its reply.
    pub fn new(pinger: Pinger, seq: u16, start: Nanos, timeout: Nanos) -> (r: Self)
        requires
            start + timeout <= Nanos::MAX,
        ensures
            r == (Probe { pinger, seq, start, deadline: (start + timeout) as Nanos }),
    {
        Probe { pinger, seq, start, deadline: start + timeout }
    }

    /// What an attempt to receive that ended at `now` means: the result of the
    /// probe, or none to keep waiting. The round-trip time of a reply is the
    /// time since the probe was sent.
    pub fn on_received(&self, received: &Received, now: Nanos) -> (r: Option<
        Result<Nanos, PingError>,
    >)
        requires
            now >= self.start,
        ensures
            match *received {
                Received::Packet(data) => match self.pinger.meaning(data@, self.seq) {
                    Some(Reply::Echo) => r == Some(
                        Ok::<Nanos, PingError>((now - self.start) as Nanos),
                    ),
                    Some(Reply::Unreachable) => r matches Some(Err(e)) && e is Timeout,
                    None => r is None,
                },
                Received::NoPacket => r matches Some(Err(e)) && e is Timeout,
                Received::Interrupted => r is None,
                Received::Failed { code, error } => r matches Some(Err(e)) && io_outcome(
                    e,
                    code,
                    "receive failed"@,
                    error@,
                ),
            },
    {
        match self.pinger.on_received(received, self.seq) {
            Step::Replied => Some(Ok(now - self.start)),
            Step::Ended(e) => Some(Err(e)),
            Step::Continue => None,
        }
    }
}

/// Only the echo reply to the probe counts as success: whatever else happens,
/// the probe is lost, fails or goes on waiting.
pub proof fn law_success_is_a_matching_reply(p: Pinger, data: Seq<u8>, seq: u16)
    requires
        p.meaning(data, seq) == Some(Reply::Echo),
    ensures
        message_of(p.is_v4, data) matches Some(m) && m.len() >= 8 && m[0] == (if p.is_v4 {
            0u8
        } else {
            129u8
        }) && be16(m[6], m[7]) == seq && (!p.kernel_ident ==> be16(m[4], m[5]) == p.ident),
{
}

/// The message for a missing permission.
pub open spec fn permission_text() -> Seq<char> {
    "insufficient permissions to open an ICMP socket — run as root/sudo, or on Linux: sysctl -w net.ipv4.ping_group_range='0 65535'"@
}

/// The message for a host on which no ICMP socket can be opened.
pub fn socket_failure(dgram_denied: bool, raw_denied: bool, dgram_error: &str, raw_error: &str) -> (r:
    String)
    ensures
        dgram_denied || raw_denied ==> r@ == permission_text(),
        !dgram_denied && !raw_denied ==> r@ == "cannot open ICMP socket (dgram: "@ + dgram_error@
            + "; raw: "@ + raw_error@ + ")"@,
{
    if dgram_denied || raw_denied {
        "insufficient permissions to open an ICMP socket — run as root/sudo, or on Linux: sysctl -w net.ipv4.ping_group_range='0 65535'".to_owned()
    } else {
        let mut text = "cannot open ICMP socket (dgram: ".to_owned();
        text.append(dgram_error);
        text.append("; raw: ");
        text.append(raw_error);
        text.append(")");
        text
    }
}

/// The high byte of a word is worth 256 times as much as the low one.
pub proof fn law_words_of_bytes(high: u8, low: u8)
    ensures
        be16(high, low) / 256 == high,
        be16(high, low) % 256 == low,
{
}

/// The sum of words is taken two bytes at a time, with a zero behind an odd last
/// byte; parts of even length add up.
pub proof fn law_word_sum(a: Seq<u8>, b: Seq<u8>, x: u8, y: u8)
    requires
        a.len() % 2 == 0,
    ensures
        word_sum(seq![]) == 0,
        word_sum(seq![x]) == 256 * x,
        word_sum(seq![x, y]) == 256 * x + y,
        word_sum(a + b) == word_sum(a) + word_sum(b),
    decreases b.len(),
{
    let none = Seq::<u8>::empty();
    assert(word_sum(none) == 0);
    assert(seq![x].drop_last() =~= none);
    assert(seq![x, y].take(0) =~= none);
    if b.len() == 0 {
        assert(a + b =~= a);
    } else if b.len() % 2 == 1 {
        assert((a + b).drop_last() =~= a + b.drop_last());
        law_word_sum(a, b.drop_last(), x, y);
    } else {
        let n = b.len() - 2;
        assert((a + b).take((a + b).len() - 2) =~= a + b.take(n));
        law_word_sum(a, b.take(n), x, y);
    }
}

/// The sum in ones' complement is between 1 and 65535 and differs from the plain
/// sum by a multiple of 65535; only of nothing it is nothing.
pub proof fn law_end_around(n: nat)
    ensures
        n == 0 ==> end_around(n) == 0,
        n > 0 ==> 1 <= end_around(n) <= 65535,
        end_around(n) <= n,
        (n - end_around(n)) % 65535 == 0,
{
    if n > 0 {
        let m = n - 1;
        assert(m == 65535 * (m / 65535) + m % 65535);
        assert(n - end_around(n) == 65535 * (m / 65535));
    }
}

/// An echo request has the type of its family, the identifier, the sequence
/// number and 24 bytes of filling.
pub proof fn law_echo_request_fields(is_v4: bool, ident: u16, seq: u16)
    ensures
        ({
            let p = echo_request(is_v4, ident, seq);
            &&& p.len() == 32
            &&& p[0] == (if is_v4 {
                8u8
            } else {
                128u8
            })
            &&& p[1] == 0
            &&& be16(p[4], p[5]) == ident
            &&& be16(p[6], p[7]) == seq
            &&& forall|i: int| 8 <= i < 32 ==> #[trigger] p[i] == 0x52
        }),
{
}

/// Behind an IPv4 header, of whatever length, stands the message; without one,
/// and in IPv6, the message is all there is.
pub proof fn law_message_behind_header(header: Seq<u8>, message: Seq<u8>)
    requires
        header.len() >= 20,
        header[0] / 16 == 4,
        (header[0] % 16) as int * 4 == header.len(),
    ensures
        message_of(true, header + message) == Some(message),
        message_of(false, message) == Some(message),
        message.len() < 20 || message[0] / 16 != 4 ==> message_of(true, message) == Some(message),
{
    assert((header + message)[0] == header[0]);
    assert((header + message).skip(header.len() as int) =~= message);
}

/// The report of a router or host that a request did not arrive, with that
/// request in it, is recognised as such.
pub proof fn law_unreachable_recognized(p: Pinger, head: Seq<u8>, inner: Seq<u8>, seq: u16)
    requires
        head.len() == 8,
        p.is_v4 ==> (head[0] == 3 || head[0] == 11) && inner.len() >= 20 && inner[0] / 16 == 4 && (
        inner[0] % 16) as int * 4 == inner.len(),
        !p.is_v4 ==> (head[0] == 1 || head[0] == 3) && inner.len() == 40,
    ensures
        p.meaning(head + inner + echo_request(p.is_v4, p.ident, seq), seq) == Some(
            Reply::Unreachable,
        ),
{
    let request = echo_request(p.is_v4, p.ident, seq);
    let data = head + inner + request;
    assert(data[0] == head[0]);
    assert(message_of(p.is_v4, data) == Some(data));
    let rest = data.skip(8);
    assert(rest =~= inner + request);
    assert(rest[0] == inner[0]);
    assert(rest.skip(inner.len() as int) =~= request);
}

/// A message that is shorter than a header of its kind, or of another kind, is no
/// answer.
pub proof fn law_other_messages_are_no_answers(p: Pinger, data: Seq<u8>, seq: u16)
    requires
        data.len() < 8 || (p.is_v4 && data[0] != 0 && data[0] != 3 && data[0] != 11 && data[0] / 16
            != 4) || (!p.is_v4 && data[0] != 129 && data[0] != 1 && data[0] != 3),
    ensures
        p.meaning(data, seq) is None,
{
}

/// The errors of a socket that count as a lost packet: unreachable networks and
/// hosts, and connections refused, in the numbers of Linux and of macOS.
pub proof fn law_loss_errors(code: i32)
    ensures
        is_loss_errno(code) <==> seq![50i32, 51, 64, 65, 100, 101, 111, 112, 113].contains(code),
{
    let all = seq![50i32, 51, 64, 65, 100, 101, 111, 112, 113];
    assert(all[0] == 50 && all[1] == 51 && all[2] == 64 && all[3] == 65 && all[4] == 100 && all[5]
        == 101 && all[6] == 111 && all[7] == 112 && all[8] == 113);
    if all.contains(code) {
        let i = choose|i: int| 0 <= i < all.len() && all[i] == code;
        assert(i == 0 || i == 1 || i == 2 || i == 3 || i == 4 || i == 5 || i == 6 || i == 7 || i
            == 8);
    }
}

/// A header that says that it is longer than all there is has no message behind
/// it, and neither has a report without the header of the request in it.
pub proof fn law_cut_messages(p: Pinger, data: Seq<u8>, head: Seq<u8>, rest: Seq<u8>, seq: u16)
    ensures
        data.len() >= 20 && data[0] / 16 == 4 && (data[0] % 16) as int * 4 > data.len()
            ==> message_of(true, data) is None,
        head.len() == 8 && p.is_v4 && rest.len() < 20 ==> embedded_message(true, head + rest)
            is None,
        head.len() == 8 && !p.is_v4 && rest.len() < 40 ==> embedded_message(false, head + rest)
            is None,
{
    if head.len() == 8 {
        assert((head + rest).skip(8) =~= rest);
    }
}

/// An error of a socket is a timeout where its number is one of a lost packet,
/// and otherwise an error that says what was done and what went wrong.
pub proof fn law_socket_errors(text: String, code: i32, context: Seq<char>, error: Seq<char>)
    ensures
        is_loss_errno(code) ==> io_outcome(PingError::Timeout, Some(code), context, error),
        is_loss_errno(code) ==> !io_outcome(PingError::Other(text), Some(code), context, error),
        !is_loss_errno(code) ==> !io_outcome(PingError::Timeout, Some(code), context, error),
        !io_outcome(PingError::Timeout, None, context, error),
        io_outcome(PingError::Other(text), None, context, error) <==> text@ == context + ": "@
            + error,
        !is_loss_errno(code) ==> (io_outcome(PingError::Other(text), Some(code), context, error)
            <==> text@ == context + ": "@ + error),
{
}

/// A lack of permission is told with what to do about it.
pub proof fn law_permission_text()
    ensures
        permission_text()
            == "insufficient permissions to open an ICMP socket — run as root/sudo, or on Linux: sysctl -w net.ipv4.ping_group_range='0 65535'"@,
{
}

/// Where the kernel replaces the identifier, an answer counts whatever identifier
/// it has; where it does not, only one with the identifier of the request does.
pub proof fn law_identifiers(
    p: Pinger,
    other: Pinger,
    data: Seq<u8>,
    seq: u16,
    ident: u16,
    ck: u16,
)
    requires
        other.is_v4 == p.is_v4,
        other.kernel_ident == p.kernel_ident,
        other.ident == ident,
    ensures
        p.kernel_ident ==> p.meaning(data, seq) == other.meaning(data, seq),
        !p.kernel_ident && ident != p.ident ==> p.meaning(
            with_checksum(
                echo_request(p.is_v4, ident, seq).update(
                    0,
                    if p.is_v4 {
                        0
                    } else {
                        129
                    },
                ),
                ck,
            ),
            seq,
        ) is None,
{
    let request = echo_request(p.is_v4, ident, seq);
    let reply = with_checksum(
        request.update(
            0,
            if p.is_v4 {
                0
            } else {
                129
            },
        ),
        ck,
    );
    assert(message_of(p.is_v4, reply) == Some(reply));
    assert(be16(reply[4], reply[5]) == ident);
}

/// A message of eight bytes or more with the type of an echo reply, the sequence
/// number and the identifier of the request is its answer, whatever follows.
pub proof fn law_any_matching_reply_counts(p: Pinger, m: Seq<u8>, seq: u16)
    requires
        m.len() >= 8,
        m[0] == (if p.is_v4 {
            0u8
        } else {
            129u8
        }),
        p.kernel_ident || m[4] as int * 256 + m[5] as int == p.ident,
        m[6] as int * 256 + m[7] as int == seq,
    ensures
        p.meaning(m, seq) == Some(Reply::Echo),
{
    assert(message_of(p.is_v4, m) == Some(m));
}

/// A report of an undelivered packet counts where the packet in it is a request of
/// eight bytes or more with the sequence number and the identifier.
pub proof fn law_any_matching_report_counts(
    p: Pinger,
    head: Seq<u8>,
    inner: Seq<u8>,
    probe: Seq<u8>,
    seq: u16,
)
    requires
        head.len() == 8,
        p.is_v4 ==> (head[0] == 3 || head[0] == 11) && inner.len() >= 20 && inner[0] / 16 == 4 && (
        inner[0] % 16) as int * 4 == inner.len(),
        !p.is_v4 ==> (head[0] == 1 || head[0] == 3) && inner.len() == 40,
        probe.len() >= 8,
        probe[0] == (if p.is_v4 {
            8u8
        } else {
            128u8
        }),
        p.kernel_ident || probe[4] as int * 256 + probe[5] as int == p.ident,
        probe[6] as int * 256 + probe[7] as int == seq,
    ensures
        p.meaning(head + inner + probe, seq) == Some(Reply::Unreachable),
{
    let data = head + inner + probe;
    assert(data[0] == head[0]);
    assert(message_of(p.is_v4, data) == Some(data));
    let rest = data.skip(8);
    assert(rest =~= inner + probe);
    assert(rest[0] == inner[0]);
    assert(rest.skip(inner.len() as int) =~= probe);
}

} // verus!
