//! Continuous ping: the worker of one target, its events and its log.

use crate::csv::{self, csv_line, error_field};
use crate::echo::PingError;
use crate::ip::IpAddr;
use crate::stats::{self, jitter};
use crate::text;
use crate::units::{Nanos, MILLISECOND};
use crate::util;
use vstd::prelude::*;

verus! {

/// The result of one ping.
#[derive(Debug)]
pub enum PingStatus {
    Reply { rtt: Nanos, jitter: Option<Nanos> },
    Timeout,
    Error(String),
}

/// What a ping worker reports.
#[derive(Debug)]
pub struct PingEvent {
    pub target: String,
    pub ip: Option<IpAddr>,
    pub seq: u64,
    pub status: PingStatus,
    pub timestamp: String,
}

/// The state of the worker that pings one target.
#[derive(Debug)]
pub struct PingWorker {
    /// The number of pings sent.
    pub seq: u64,
    /// The round-trip time of the last reply.
    pub prev_rtt: Option<Nanos>,
}

impl PingWorker {
    /// A worker that has sent nothing yet.
    pub fn new() -> (r: Self)
        ensures
            r.seq == 0,
            r.prev_rtt is None,
    {
        PingWorker { seq: 0, prev_rtt: None }
    }

    /// Starts the next ping; its number.
    pub fn next_seq(&mut self) -> (r: u64)
        requires
            old(self).seq < u64::MAX,
        ensures
            r == old(self).seq + 1,
            final(self).seq == r,
            final(self).prev_rtt == old(self).prev_rtt,
    {
        self.seq = self.seq + 1;
        self.seq
    }

    /// Takes the result of a ping. The jitter of a reply is its difference to
    /// the reply before it, however many pings were lost in between.
    pub fn on_result(&mut self, result: Result<Nanos, PingError>) -> (r: PingStatus)
        ensures
            final(self).seq == old(self).seq,
            match result {
                Ok(rtt) => r == (PingStatus::Reply {
                    rtt,
                    jitter: stats::jitter_of(old(self).prev_rtt, rtt),
                }) && final(self).prev_rtt == Some(rtt),
                Err(PingError::Timeout) => {
                    r == PingStatus::Timeout && final(self).prev_rtt == old(self).prev_rtt
                },
                Err(PingError::Other(message)) => {
                    r == PingStatus::Error(message) && final(self).prev_rtt == old(self).prev_rtt
                },
            },
    {
        match result {
            Ok(rtt) => {
                let jitter = jitter(self.prev_rtt, rtt);
                self.prev_rtt = Some(rtt);
                PingStatus::Reply { rtt, jitter }
            },
            Err(PingError::Timeout) => PingStatus::Timeout,
            Err(PingError::Other(message)) => PingStatus::Error(message),
        }
    }
}

/// Whether the worker ends with this result: a socket error (permissions,
/// network down) would only repeat itself.
pub fn is_fatal(status: &PingStatus) -> (r: bool)
    ensures
        r == (status is Error),
{
    match status {
        PingStatus::Error(_) => true,
        _ => false,
    }
}

// ------------------------------------------------------------------------ Log

/// The names of the logs of the targets: one for each target, and none is
/// shared. The name holds the target, sanitized; where targets are sanitized
/// alike, all but the first are numbered.
pub fn log_file_names(stamp: &str, targets: &Vec<String>) -> (r: Vec<String>)
    ensures
        r@.len() == targets@.len(),
        forall|i: int|
            0 <= i < r@.len() ==> (#[trigger] r@[i])@ == util::target_file(
                "ping_"@,
                stamp@,
                targets.deep_view(),
                i,
                ".csv"@,
            ),
        r.deep_view().no_duplicates(),
        forall|i: int|
            0 <= i < r@.len() && util::stands_alone(targets.deep_view(), i) ==> (
            #[trigger] r@[i])@ == "ping_"@ + stamp@ + "_"@ + util::file_name_text(targets@[i]@)
                + ".csv"@,
{
    util::target_files("ping_", stamp, targets, ".csv")
}

/// The fields of the first line of a log.
pub open spec fn log_header() -> Seq<Seq<char>> {
    seq!["timestamp"@, "target"@, "ip"@, "seq"@, "status"@, "rtt_ms"@, "jitter_ms"@]
}

/// The first line of a log.
pub fn header_line() -> (r: String)
    ensures
        r@ == csv::line_of(log_header()),
{
    let fields = vec![
        "timestamp".to_owned(),
        "target".to_owned(),
        "ip".to_owned(),
        "seq".to_owned(),
        "status".to_owned(),
        "rtt_ms".to_owned(),
        "jitter_ms".to_owned(),
    ];
    assert(fields.deep_view() =~= log_header());
    csv_line(&fields)
}

/// The status field of a ping.
pub open spec fn status_field(status: PingStatus) -> Seq<char> {
    match status {
        PingStatus::Reply { rtt, jitter } => "OK"@,
        PingStatus::Timeout => "TIMEOUT"@,
        PingStatus::Error(message) => csv::error_status(message@),
    }
}

/// The fields of the line of a ping. `ip` is the address as text, empty where
/// there is none; `rtt_ms` and `jitter_ms` are times in milliseconds, which
/// only a reply has, and the jitter only a reply after another.
pub open spec fn log_fields(
    timestamp: Seq<char>,
    target: Seq<char>,
    ip: Seq<char>,
    seq: u64,
    status: PingStatus,
    rtt_ms: Seq<char>,
    jitter_ms: Seq<char>,
) -> Seq<Seq<char>> {
    seq![
        timestamp,
        target,
        ip,
        text::decimal_text(seq as nat),
        status_field(status),
        if status is Reply {
            rtt_ms
        } else {
            ""@
        },
        if status is Reply && status->jitter is Some {
            jitter_ms
        } else {
            ""@
        },
    ]
}

/// The line of a ping in the log.
pub fn log_line(
    timestamp: &str,
    target: &str,
    ip: &str,
    seq: u64,
    status: &PingStatus,
    rtt_ms: &str,
    jitter_ms: &str,
) -> (r: String)
    ensures
        r@ == csv::line_of(
            log_fields(timestamp@, target@, ip@, seq, *status, rtt_ms@, jitter_ms@),
        ),
{
    let (field, rtt_field, jitter_field) = match status {
        PingStatus::Reply { rtt: _, jitter: Some(_) } => (
            "OK".to_owned(),
            rtt_ms.to_owned(),
            jitter_ms.to_owned(),
        ),
        PingStatus::Reply { rtt: _, jitter: None } => (
            "OK".to_owned(),
            rtt_ms.to_owned(),
            "".to_owned(),
        ),
        PingStatus::Timeout => ("TIMEOUT".to_owned(), "".to_owned(), "".to_owned()),
        PingStatus::Error(message) => (
            error_field(message.as_str()),
            "".to_owned(),
            "".to_owned(),
        ),
    };
    let fields = vec![
        timestamp.to_owned(),
        target.to_owned(),
        ip.to_owned(),
        text::decimal(seq as u128),
        field,
        rtt_field,
        jitter_field,
    ];
    assert(fields.deep_view() =~= log_fields(
        timestamp@,
        target@,
        ip@,
        seq,
        *status,
        rtt_ms@,
        jitter_ms@,
    ));
    csv_line(&fields)
}

/// What is done with the result of a ping.
#[derive(Debug)]
pub struct PingReport {
    /// The line for the log.
    pub line: String,
    /// The event for the page.
    pub event: PingEvent,
    /// Whether the worker ends.
    pub stop: bool,
}

/// What to do with the result of the ping `seq`; `ip_text` is the address and
/// `rtt_ms` and `jitter_ms` are the times in milliseconds, as texts.
pub fn ping_report(
    timestamp: &str,
    target: &str,
    ip: IpAddr,
    ip_text: &str,
    seq: u64,
    status: PingStatus,
    rtt_ms: &str,
    jitter_ms: &str,
) -> (r: PingReport)
    ensures
        r.line@ == csv::line_of(
            log_fields(timestamp@, target@, ip_text@, seq, status, rtt_ms@, jitter_ms@),
        ),
        r.event.target@ == target@,
        r.event.ip == Some(ip),
        r.event.seq == seq,
        r.event.status == status,
        r.event.timestamp@ == timestamp@,
        r.stop == (status is Error),
{
    let line = log_line(timestamp, target, ip_text, seq, &status, rtt_ms, jitter_ms);
    let stop = is_fatal(&status);
    PingReport {
        line,
        event: PingEvent {
            target: target.to_owned(),
            ip: Some(ip),
            seq,
            status,
            timestamp: timestamp.to_owned(),
        },
        stop,
    }
}

/// What to do for a target whose name could not be resolved: the error is
/// logged and shown under number 0, and the worker ends.
pub fn unresolved_report(timestamp: &str, target: &str, error: &str) -> (r: PingReport)
    ensures
        r.event.target@ == target@,
        r.event.ip is None,
        r.event.seq == 0,
        r.event.status matches PingStatus::Error(e) && e@ == error@,
        r.event.timestamp@ == timestamp@,
        r.line@ == csv::line_of(
            log_fields(timestamp@, target@, ""@, 0, r.event.status, ""@, ""@),
        ),
        r.stop,
{
    let status = PingStatus::Error(error.to_owned());
    let line = log_line(timestamp, target, "", 0, &status, "", "");
    PingReport {
        line,
        event: PingEvent {
            target: target.to_owned(),
            ip: None,
            seq: 0,
            status,
            timestamp: timestamp.to_owned(),
        },
        stop: true,
    }
}

/// Every line of a log has the seven fields of its header, whatever a ping
/// ended with.
pub proof fn law_log_line_fields(
    timestamp: Seq<char>,
    target: Seq<char>,
    ip: Seq<char>,
    seq: u64,
    status: PingStatus,
    rtt_ms: Seq<char>,
    jitter_ms: Seq<char>,
)
    requires
        !timestamp.contains(';') && !target.contains(';') && !ip.contains(';'),
        !rtt_ms.contains(';') && !jitter_ms.contains(';'),
    ensures
        text::fields(
            csv::line_of(log_fields(timestamp, target, ip, seq, status, rtt_ms, jitter_ms)),
            ';',
        ) == log_fields(timestamp, target, ip, seq, status, rtt_ms, jitter_ms),
        log_fields(timestamp, target, ip, seq, status, rtt_ms, jitter_ms).len()
            == log_header().len(),
{
    let fields = log_fields(timestamp, target, ip, seq, status, rtt_ms, jitter_ms);
    text::lemma_decimal_chars(seq as nat);
    reveal_strlit("OK");
    reveal_strlit("TIMEOUT");
    reveal_strlit("");
    if let PingStatus::Error(message) = status {
        csv::law_error_status_is_one_field(message@);
    }
    assert forall|i: int| 0 <= i < fields.len() implies !(#[trigger] fields[i]).contains(';') by {
        assert(i == 0 || i == 1 || i == 2 || i == 3 || i == 4 || i == 5 || i == 6);
    }
    csv::law_line_splits_back(fields);
}

// -------------------------------------------------------------------- Errors

/// Whether an error text in lowercase tells of a timeout, or the error came
/// when nearly the whole timeout had passed.
pub open spec fn tells_of_timeout(lowered: Seq<char>, late: bool) -> bool {
    text::contains_text(lowered, "timeout"@) || text::contains_text(lowered, "timed out"@)
        || text::contains_text(lowered, "temporarily unavailable"@) || text::contains_text(
        lowered,
        "would block"@,
    ) || late
}

/// Tests whether an error text in lowercase tells of a timeout.
pub fn is_timeout_text(lowered: &str, late: bool) -> (r: bool)
    ensures
        r == tells_of_timeout(lowered@, late),
{
    text::contains(lowered, "timeout") || text::contains(lowered, "timed out") || text::contains(
        lowered,
        "temporarily unavailable",
    ) || text::contains(lowered, "would block") || late
}

/// Whether an error counts as a timeout: by its text, or because it came when
/// nearly the whole timeout had passed (`late`).
pub fn looks_like_timeout(msg: &str, late: bool) -> (r: bool)
    ensures
        r == tells_of_timeout(text::lowercase(msg@), late),
{
    is_timeout_text(msg.to_lowercase().as_str(), late)
}

/// Whether an error text in lowercase tells that a permission is missing.
pub open spec fn tells_of_permission(lowered: Seq<char>) -> bool {
    text::contains_text(lowered, "permission"@) || text::contains_text(lowered, "not permitted"@)
}

/// The error of a probe where even the raw socket is not permitted.
pub open spec fn missing_permission() -> Seq<char> {
    "permissions insuffisantes pour ouvrir un socket ICMP — relancez en root/sudo, ou sous Linux : sysctl -w net.ipv4.ping_group_range='0 65535'"@
}

/// What follows from a failed probe on Unix.
#[derive(Debug)]
pub enum UnixFailure {
    /// The unprivileged socket is not permitted: probe again with a raw one.
    RetryRaw,
    /// The probe failed.
    Failed(PingError),
}

/// What follows from a failed probe on Unix, by the error text and its
/// lowercase form: a raw socket is tried where only the unprivileged one is
/// not permitted.
pub fn unix_failure_of(use_raw: bool, msg: &str, lowered: &str, late: bool) -> (r: UnixFailure)
    ensures
        r is RetryRaw <==> tells_of_permission(lowered@) && !use_raw,
        tells_of_permission(lowered@) && use_raw ==> (r matches UnixFailure::Failed(
            PingError::Other(m),
        ) && m@ == missing_permission()),
        !tells_of_permission(lowered@) ==> if tells_of_timeout(lowered@, late) {
            r == UnixFailure::Failed(PingError::Timeout)
        } else {
            r matches UnixFailure::Failed(PingError::Other(m)) && m@ == msg@
        },
{
    if text::contains(lowered, "permission") || text::contains(lowered, "not permitted") {
        if use_raw {
            UnixFailure::Failed(PingError::Other(
                "permissions insuffisantes pour ouvrir un socket ICMP — relancez en root/sudo, ou sous Linux : sysctl -w net.ipv4.ping_group_range='0 65535'".to_owned(),
            ))
        } else {
            UnixFailure::RetryRaw
        }
    } else if is_timeout_text(lowered, late) {
        UnixFailure::Failed(PingError::Timeout)
    } else {
        UnixFailure::Failed(PingError::Other(msg.to_owned()))
    }
}

/// What follows from a failed probe on Unix, by the error text.
pub fn unix_failure(use_raw: bool, msg: &str, late: bool) -> (r: UnixFailure)
    ensures
        r is RetryRaw <==> tells_of_permission(text::lowercase(msg@)) && !use_raw,
        tells_of_permission(text::lowercase(msg@)) && use_raw ==> (r matches UnixFailure::Failed(
            PingError::Other(m),
        ) && m@ == missing_permission()),
        !tells_of_permission(text::lowercase(msg@)) ==> if tells_of_timeout(
            text::lowercase(msg@),
            late,
        ) {
            r == UnixFailure::Failed(PingError::Timeout)
        } else {
            r matches UnixFailure::Failed(PingError::Other(m)) && m@ == msg@
        },
{
    unix_failure_of(use_raw, msg, msg.to_lowercase().as_str(), late)
}

/// What an error of the Windows echo interface means: 11010 is the number of
/// the error for a request that timed out.
pub fn windows_failure(msg: &str, late: bool) -> (r: PingError)
    ensures
        if text::contains_text(msg@, "11010"@) || tells_of_timeout(text::lowercase(msg@), late) {
            r is Timeout
        } else {
            r matches PingError::Other(m) && m@ == msg@
        },
{
    if text::contains(msg, "11010") || looks_like_timeout(msg, late) {
        PingError::Timeout
    } else {
        PingError::Other(msg.to_owned())
    }
}

/// The timeout for the Windows echo interface: in whole milliseconds, at least
/// one, within 32 bits.
pub fn windows_timeout(timeout: Nanos) -> (r: u32)
    ensures
        r == (if timeout < 2 * MILLISECOND {
            1
        } else {
            timeout / MILLISECOND % 0x1_0000_0000
        }),
{
    let millis: u128 = timeout / MILLISECOND;
    if millis < 2 {
        1
    } else {
        (millis % 0x1_0000_0000) as u32
    }
}

/// The fields of a log line are what was logged: time, target, address, sequence
/// number and status, the round-trip time of a reply and its jitter where it has
/// one.
pub proof fn law_fields_are_logged(
    timestamp: Seq<char>,
    target: Seq<char>,
    ip: Seq<char>,
    seq: u64,
    status: PingStatus,
    rtt_ms: Seq<char>,
    jitter_ms: Seq<char>,
)
    ensures
        ({
            let f = log_fields(timestamp, target, ip, seq, status, rtt_ms, jitter_ms);
            &&& f.len() == 7
            &&& f[0] == timestamp && f[1] == target && f[2] == ip
            &&& text::unsigned_value(f[3]) == Some(seq as nat)
            &&& status matches PingStatus::Reply { rtt, jitter } ==> {
                &&& f[4] == "OK"@
                &&& f[5] == rtt_ms
                &&& jitter is Some ==> f[6] == jitter_ms
                &&& jitter is None ==> f[6].len() == 0
            }
            &&& status is Timeout ==> f[4] == "TIMEOUT"@ && f[5].len() == 0 && f[6].len() == 0
            &&& status matches PingStatus::Error(message) ==> {
                &&& f[5].len() == 0 && f[6].len() == 0
                &&& f[4].len() == 7 + message@.len()
                &&& f[4].take(7) == "ERROR: "@
                &&& forall|i: int|
                    0 <= i < message@.len() ==> #[trigger] f[4][7 + i] == (if message@[i] == ';' {
                        ','
                    } else {
                        message@[i]
                    })
            }
        }),
{
    reveal_strlit("");
    text::law_numerals_are_read(seq as nat);
    if let PingStatus::Error(message) = status {
        csv::law_error_status_keeps_the_message(message@);
    }
}

/// The columns of a log.
pub proof fn law_log_columns()
    ensures
        log_header().len() == 7,
        log_header()[0] == "timestamp"@ && log_header()[1] == "target"@ && log_header()[2]
            == "ip"@ && log_header()[3] == "seq"@ && log_header()[4] == "status"@,
        log_header()[5] == "rtt_ms"@ && log_header()[6] == "jitter_ms"@,
{
}

/// An error tells of a timeout where any of four phrases stands anywhere in it,
/// or where it came late; it tells of a missing permission where one of two does.
pub proof fn law_error_phrases(a: Seq<char>, b: Seq<char>)
    ensures
        tells_of_timeout(a + "timeout"@ + b, false),
        tells_of_timeout(a + "timed out"@ + b, false),
        tells_of_timeout(a + "temporarily unavailable"@ + b, false),
        tells_of_timeout(a + "would block"@ + b, false),
        tells_of_timeout(a, true),
        tells_of_permission(a + "permission"@ + b),
        tells_of_permission(a + "not permitted"@ + b),
{
    text::law_text_within(a + "timeout"@ + b, "timeout"@);
    text::law_text_within(a + "timed out"@ + b, "timed out"@);
    text::law_text_within(a + "temporarily unavailable"@ + b, "temporarily unavailable"@);
    text::law_text_within(a + "would block"@ + b, "would block"@);
    text::law_text_within(a + "permission"@ + b, "permission"@);
    text::law_text_within(a + "not permitted"@ + b, "not permitted"@);
}

/// An error with none of the phrases, in time, tells of neither.
pub proof fn law_other_errors(s: Seq<char>)
    ensures
        !text::contains_text(s, "timeout"@) && !text::contains_text(s, "timed out"@)
            && !text::contains_text(s, "temporarily unavailable"@) && !text::contains_text(
            s,
            "would block"@,
        ) ==> !tells_of_timeout(s, false),
        !text::contains_text(s, "permission"@) && !text::contains_text(s, "not permitted"@)
            ==> !tells_of_permission(s),
{
}

/// A lack of permission is told with what to do about it.
pub proof fn law_missing_permission()
    ensures
        missing_permission()
            == "permissions insuffisantes pour ouvrir un socket ICMP — relancez en root/sudo, ou sous Linux : sysctl -w net.ipv4.ping_group_range='0 65535'"@,
{
}

} // verus!
