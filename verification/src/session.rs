//! The state behind the ping and trace pages: targets, statistics, samples and
//! logs, and how events change them.

use crate::arp::ArpEvent;
use crate::dns::{DnsAnswer, DnsEvent};
use crate::ip::IpAddr;
use crate::ping::{PingEvent, PingStatus};
use crate::stats::{self, clone_stats, jitter, Stats};
use crate::text;
use crate::traceroute::{HopInfo, ProbeStatus, TraceEvent};
use crate::units::{Nanos, LONGEST};
use crate::vendors::VendorTable;
use std::collections::VecDeque;
use vstd::prelude::*;

verus! {

// -------------------------------------------------------------------- Targets

/// The lines without surrounding whitespace, those that are not blank.
pub open spec fn entries_of(lines: Seq<Seq<char>>) -> Seq<Seq<char>>
    decreases lines.len(),
{
    if lines.len() == 0 {
        seq![]
    } else {
        let t = text::trimmed(lines.last());
        if t.len() == 0 {
            entries_of(lines.drop_last())
        } else {
            entries_of(lines.drop_last()).push(t)
        }
    }
}

/// The targets in a text with one target a line, each once.
pub open spec fn targets_of(input: Seq<char>) -> Seq<Seq<char>> {
    text::first_occurrences(entries_of(text::lines_of(input)))
}

/// The targets in a text with one target a line: blank lines are passed over,
/// and a target counts once.
pub fn parse_targets(input: &str) -> (r: Vec<String>)
    ensures
        r.deep_view() == targets_of(input@),
{
    let lines = text::split_lines(input);
    let ghost lv = text::lines_of(input@);
    let mut targets: Vec<String> = Vec::new();
    let mut i: usize = 0;
    assert(lv.take(0) =~= seq![]);
    assert(targets.deep_view() =~= seq![]);
    while i < lines.len()
        invariant
            lv == lines.deep_view(),
            i <= lines@.len(),
            targets.deep_view() == text::first_occurrences(entries_of(lv.take(i as int))),
        decreases lines@.len() - i,
    {
        assert(lv.take(i + 1).drop_last() =~= lv.take(i as int));
        assert(lv.take(i + 1).last() == lines@[i as int]@);
        let t = text::trim(lines[i].as_str());
        if !t.as_str().is_empty() {
            let ghost before = entries_of(lv.take(i as int));
            assert(before.push(t@).drop_last() =~= before);
            text::push_unique(&mut targets, t);
        }
        i += 1;
    }
    assert(lv.take(i as int) =~= lv);
    targets
}

/// Targets are distinct and not blank, and every line that is not blank is one.
pub proof fn law_targets(input: Seq<char>)
    ensures
        targets_of(input).no_duplicates(),
        forall|t: Seq<char>| #[trigger]
            targets_of(input).contains(t) <==> t.len() > 0 && exists|i: int|
                0 <= i < text::lines_of(input).len() && #[trigger] text::trimmed(
                    text::lines_of(input)[i],
                ) == t,
{
    let lines = text::lines_of(input);
    text::lemma_first_occurrences(entries_of(lines));
    assert forall|t: Seq<char>| #[trigger]
        targets_of(input).contains(t) <==> t.len() > 0 && exists|i: int|
            0 <= i < lines.len() && #[trigger] text::trimmed(lines[i]) == t by {
        lemma_entries(lines, t);
    }
}

/// Targets that are written one a line are read again as the same targets.
pub proof fn law_targets_are_read_again(input: Seq<char>)
    ensures
        targets_of(text::joined(targets_of(input), "\n"@)) == targets_of(input),
{
    let lines = text::lines_of(input);
    let targets = targets_of(input);
    law_targets(input);
    text::lemma_lines_hold_no_feed(input);
    assert forall|i: int| 0 <= i < targets.len() implies (#[trigger] targets[i]).len() > 0
        && !targets[i].contains('\n') && targets[i].last() != '\r' && text::trimmed(targets[i])
        == targets[i] by {
        let t = targets[i];
        assert(targets.contains(t));
        let k = choose|k: int| 0 <= k < lines.len() && #[trigger] text::trimmed(lines[k]) == t;
        text::lemma_trimmed(lines[k]);
    }
    reveal_strlit("\n");
    assert("\n"@ =~= seq!['\n']);
    text::lemma_lines_joined(targets);
    lemma_trimmed_entries(targets);
    text::lemma_distinct_items(targets);
}

proof fn lemma_trimmed_entries(lines: Seq<Seq<char>>)
    requires
        forall|i: int|
            0 <= i < lines.len() ==> (#[trigger] lines[i]).len() > 0 && text::trimmed(lines[i])
                == lines[i],
    ensures
        entries_of(lines) == lines,
    decreases lines.len(),
{
    if lines.len() > 0 {
        let before = lines.drop_last();
        assert forall|i: int| 0 <= i < before.len() implies (#[trigger] before[i]).len() > 0
            && text::trimmed(before[i]) == before[i] by {
            assert(before[i] == lines[i]);
        }
        lemma_trimmed_entries(before);
        assert(lines[lines.len() - 1] == lines.last());
        assert(before.push(lines.last()) =~= lines);
    } else {
        assert(entries_of(lines) =~= lines);
    }
}

proof fn lemma_entries(lines: Seq<Seq<char>>, t: Seq<char>)
    ensures
        entries_of(lines).contains(t) <==> t.len() > 0 && exists|i: int|
            0 <= i < lines.len() && #[trigger] text::trimmed(lines[i]) == t,
    decreases lines.len(),
{
    if lines.len() > 0 {
        let before = lines.drop_last();
        let last = text::trimmed(lines.last());
        lemma_entries(before, t);
        text::lemma_push_contains(entries_of(before), last, t);
        if exists|i: int| 0 <= i < before.len() && #[trigger] text::trimmed(before[i]) == t {
            let i = choose|i: int| 0 <= i < before.len() && #[trigger] text::trimmed(before[i]) == t;
            assert(text::trimmed(lines[i]) == t);
        }
        if exists|i: int| 0 <= i < lines.len() && #[trigger] text::trimmed(lines[i]) == t {
            let i = choose|i: int| 0 <= i < lines.len() && #[trigger] text::trimmed(lines[i]) == t;
            if i < before.len() {
                assert(text::trimmed(before[i]) == t);
            }
        }
        assert(text::trimmed(lines[lines.len() - 1]) == last);
    }
}

// ------------------------------------------------------------------- Buffers

/// The last `cap` items of `s`, or all of them where there are fewer.
pub open spec fn capped<A>(s: Seq<A>, cap: nat) -> Seq<A> {
    if s.len() > cap {
        s.skip(s.len() - cap)
    } else {
        s
    }
}

/// Adds an item to a buffer and drops the oldest ones beyond `cap`.
pub fn push_capped<T>(buf: &mut VecDeque<T>, item: T, cap: usize)
    ensures
        final(buf)@ == capped(old(buf)@.push(item), cap as nat),
{
    let ghost all = buf@.push(item);
    buf.push_back(item);
    let ghost mut k: int = 0;
    assert(all.skip(0) =~= all);
    while buf.len() > cap
        invariant
            0 <= k <= all.len(),
            buf@ == all.skip(k),
            k > 0 ==> all.len() - k >= cap,
        decreases buf@.len(),
    {
        let _ = buf.pop_front();
        proof {
            assert(all.skip(k).subrange(1, all.skip(k).len() as int) =~= all.skip(k + 1));
            k = k + 1;
        }
    }
    proof {
        if all.len() > cap {
            assert(buf@ =~= all.skip(all.len() - cap));
        }
    }
}

/// A capped buffer never holds more than its cap, ends with what was added last
/// and drops only from its front.
pub proof fn law_capped<A>(s: Seq<A>, item: A, cap: nat)
    requires
        cap > 0,
    ensures
        capped(s.push(item), cap).len() <= cap,
        capped(s.push(item), cap).last() == item,
        s.len() < cap ==> capped(s.push(item), cap) == s.push(item),
        s.len() == cap ==> capped(s.push(item), cap) == s.skip(1).push(item),
{
    if s.len() == cap {
        assert(capped(s.push(item), cap) =~= s.skip(1).push(item));
    }
}

// --------------------------------------------------------------------- Pings

/// The largest number of samples kept of a target.
pub const MAX_SAMPLES: usize = 7200;

/// The largest number of lines kept in the event log.
pub const MAX_LOG_LINES: usize = 2000;

/// A ping in the latency graph: when it was, since the start of the session,
/// and its round-trip time unless it was lost.
#[derive(Clone, Copy, Debug, PartialEq, Eq, Structural)]
pub struct Sample {
    pub at: Nanos,
    pub rtt: Option<Nanos>,
}

/// What the ping page knows of a target.
#[derive(Debug)]
pub struct PingTargetState {
    pub target: String,
    pub ip: Option<IpAddr>,
    pub stats: Stats,
    pub samples: VecDeque<Sample>,
}

impl PingTargetState {
    /// The figures fit together and the samples are within their limit.
    pub open spec fn wf(self) -> bool {
        self.stats.wf() && self.samples@.len() <= MAX_SAMPLES
    }

    /// A target of which nothing is known yet.
    pub open spec fn is_new(self, target: Seq<char>) -> bool {
        self.target@ == target && self.ip is None && self.stats.is_blank() && self.samples@.len()
            == 0
    }

    /// A target of which nothing is known yet.
    pub fn new(target: String) -> (r: Self)
        ensures
            r.is_new(target@),
            r.wf(),
    {
        PingTargetState { target, ip: None, stats: Stats::default(), samples: VecDeque::new() }
    }

    /// Whether the figures have room for what an event adds to them.
    pub open spec fn has_room(self, ev: PingEvent) -> bool {
        match ev.status {
            PingStatus::Reply { rtt, jitter } => self.stats.has_room(rtt, jitter),
            _ => self.stats.sent < u64::MAX,
        }
    }

    /// What an event makes of a target. The address of the first event that has
    /// one stays; errors count as sent unless they came before any ping; losses
    /// and replies are sampled, errors are not.
    pub open spec fn after(self, ev: PingEvent, at: Nanos, next: Self) -> bool {
        &&& next.target@ == self.target@
        &&& next.ip == (if self.ip is None {
            ev.ip
        } else {
            self.ip
        })
        &&& match ev.status {
            PingStatus::Reply { rtt, jitter } => {
                &&& self.stats.after_reply(rtt, jitter, next.stats)
                &&& next.samples@ == capped(
                    self.samples@.push(Sample { at, rtt: Some(rtt) }),
                    MAX_SAMPLES as nat,
                )
            },
            PingStatus::Timeout => {
                &&& self.stats.same_replies(next.stats)
                &&& next.stats.sent == self.stats.sent + 1
                &&& next.stats.last_status@ == "TIMEOUT"@
                &&& next.samples@ == capped(
                    self.samples@.push(Sample { at, rtt: None }),
                    MAX_SAMPLES as nat,
                )
            },
            PingStatus::Error(message) => {
                &&& self.stats.same_replies(next.stats)
                &&& next.stats.sent == self.stats.sent + (if ev.seq > 0 {
                    1int
                } else {
                    0
                })
                &&& next.stats.last_status@ == "ERROR: "@ + message@
                &&& next.samples@ == self.samples@
            },
        }
    }

    fn apply(&mut self, ev: &PingEvent, at: Nanos)
        requires
            old(self).wf(),
            old(self).has_room(*ev),
        ensures
            final(self).wf(),
            old(self).after(*ev, at, *final(self)),
    {
        if self.ip.is_none() {
            self.ip = ev.ip;
        }
        match &ev.status {
            PingStatus::Reply { rtt, jitter } => {
                self.stats.record_ok(*rtt, *jitter);
                push_capped(&mut self.samples, Sample { at, rtt: Some(*rtt) }, MAX_SAMPLES);
            },
            PingStatus::Timeout => {
                self.stats.record_timeout();
                push_capped(&mut self.samples, Sample { at, rtt: None }, MAX_SAMPLES);
            },
            PingStatus::Error(message) => {
                if ev.seq > 0 {
                    self.stats.sent = self.stats.sent + 1;
                }
                self.stats.record_error(message.as_str());
            },
        }
    }
}

/// The line of an event in the event log; `rtt` and `jitter` are times as the
/// page shows them.
pub open spec fn event_line(ev: PingEvent, rtt: Seq<char>, jitter_text: Seq<char>) -> Seq<char> {
    let head = "["@ + ev.timestamp@ + "] "@ + text::padded(ev.target@, 24);
    let seq = " seq="@ + text::padded(text::decimal_text(ev.seq as nat), 5);
    match ev.status {
        PingStatus::Reply { rtt: _, jitter } => head + seq + " RTT="@ + rtt + (if jitter is Some {
            "  jitter="@ + jitter_text
        } else {
            seq![]
        }),
        PingStatus::Timeout => head + seq + " TIMEOUT (packet loss)"@,
        PingStatus::Error(message) => head + " ERROR: "@ + message@,
    }
}

fn text_of_event(ev: &PingEvent, rtt: &str, jitter_text: &str) -> (r: String)
    ensures
        r@ == event_line(*ev, rtt@, jitter_text@),
{
    let mut s = "[".to_owned();
    s.append(ev.timestamp.as_str());
    s.append("] ");
    s.append(text::pad_right(ev.target.as_str(), 24).as_str());
    let mut number = " seq=".to_owned();
    number.append(text::pad_right(text::decimal(ev.seq as u128).as_str(), 5).as_str());
    match &ev.status {
        PingStatus::Reply { rtt: _, jitter } => {
            s.append(number.as_str());
            s.append(" RTT=");
            s.append(rtt);
            let mut tail = String::new();
            if jitter.is_some() {
                tail = "  jitter=".to_owned();
                tail.append(jitter_text);
            } else {
                assert(tail@ =~= seq![]);
            }
            s.append(tail.as_str());
        },
        PingStatus::Timeout => {
            s.append(number.as_str());
            s.append(" TIMEOUT (packet loss)");
        },
        PingStatus::Error(message) => {
            s.append(" ERROR: ");
            s.append(message.as_str());
        },
    }
    s
}

/// The state of the ping page.
#[derive(Debug)]
pub struct PingBoard {
    pub targets: Vec<PingTargetState>,
    pub log: VecDeque<String>,
}

/// The position of a target among those of the page, or their number.
pub open spec fn ping_position(targets: Seq<PingTargetState>, target: Seq<char>) -> nat
    decreases targets.len(),
{
    if targets.len() == 0 || targets[0].target@ == target {
        0
    } else {
        1 + ping_position(targets.skip(1), target)
    }
}

proof fn lemma_ping_position(targets: Seq<PingTargetState>, target: Seq<char>, i: int)
    requires
        0 <= i <= targets.len(),
        i < targets.len() ==> targets[i].target@ == target,
        forall|j: int| 0 <= j < i ==> (#[trigger] targets[j]).target@ != target,
    ensures
        ping_position(targets, target) == i,
    decreases targets.len(),
{
    if targets.len() > 0 && i > 0 {
        let r = targets.skip(1);
        assert(targets[0].target@ != target);
        assert forall|j: int| 0 <= j < i - 1 implies (#[trigger] r[j]).target@ != target by {
            assert(targets[j + 1].target@ != target);
        }
        lemma_ping_position(r, target, i - 1);
    }
}

impl PingBoard {
    /// Every target is well-formed and the log is within its limit.
    pub open spec fn wf(self) -> bool {
        &&& self.log@.len() <= MAX_LOG_LINES
        &&& forall|i: int| 0 <= i < self.targets@.len() ==> (#[trigger] self.targets@[i]).wf()
    }

    /// An empty page.
    pub fn new() -> (r: Self)
        ensures
            r.wf(),
            r.targets@.len() == 0,
            r.log@.len() == 0,
    {
        PingBoard { targets: Vec::new(), log: VecDeque::new() }
    }

    /// Whether the figures of the event's target have room for the event.
    pub open spec fn accepts(self, ev: PingEvent) -> bool {
        let k = ping_position(self.targets@, ev.target@);
        if k < self.targets@.len() {
            self.targets@[k as int].has_room(ev)
        } else {
            ev.status matches PingStatus::Reply { rtt, jitter } ==> rtt <= LONGEST && (
            jitter matches Some(j) ==> j <= LONGEST)
        }
    }

    fn find(&self, target: &str) -> (r: usize)
        ensures
            r == ping_position(self.targets@, target@),
            r <= self.targets@.len(),
            r < self.targets@.len() ==> self.targets@[r as int].target@ == target@,
    {
        let mut i: usize = 0;
        while i < self.targets.len() && !text::same(self.targets[i].target.as_str(), target)
            invariant
                i <= self.targets@.len(),
                forall|j: int| 0 <= j < i ==> (#[trigger] self.targets@[j]).target@ != target@,
            decreases self.targets@.len() - i,
        {
            i += 1;
        }
        proof {
            lemma_ping_position(self.targets@, target@, i as int);
        }
        i
    }

    /// Tests whether the figures of the event's target have room for the event.
    pub fn can_take(&self, ev: &PingEvent) -> (r: bool)
        requires
            self.wf(),
        ensures
            r == self.accepts(*ev),
    {
        let k = self.find(ev.target.as_str());
        if k < self.targets.len() {
            let stats = &self.targets[k].stats;
            match &ev.status {
                PingStatus::Reply { rtt, jitter } => stats.check_room(*rtt, *jitter),
                _ => stats.sent < u64::MAX,
            }
        } else {
            match &ev.status {
                PingStatus::Reply { rtt, jitter } => {
                    let jitter_fits = match jitter {
                        Some(j) => *j <= LONGEST,
                        None => true,
                    };
                    *rtt <= LONGEST && jitter_fits
                },
                _ => true,
            }
        }
    }

    /// Starts a session for the targets in `input`: they are new and the log is
    /// empty. Without a target the page stays as it is.
    pub fn start(&mut self, input: &str) -> (r: Result<Vec<String>, String>)
        requires
            old(self).wf(),
        ensures
            final(self).wf(),
            targets_of(input@).len() == 0 ==> r is Err && r->Err_0@
                == "Enter at least one target (IP or FQDN)."@ && *final(self) == *old(self),
            targets_of(input@).len() > 0 ==> {
                &&& r is Ok
                &&& r->Ok_0.deep_view() == targets_of(input@)
                &&& final(self).log@.len() == 0
                &&& final(self).targets@.len() == targets_of(input@).len()
                &&& forall|i: int|
                    0 <= i < final(self).targets@.len() ==> (#[trigger] final(
                        self).targets@[i]).is_new(targets_of(input@)[i])
            },
    {
        let names = parse_targets(input);
        if names.len() == 0 {
            return Err("Enter at least one target (IP or FQDN).".to_owned());
        }
        let mut targets: Vec<PingTargetState> = Vec::new();
        let mut i: usize = 0;
        while i < names.len()
            invariant
                names.deep_view() == targets_of(input@),
                i <= names@.len(),
                targets@.len() == i,
                forall|j: int| 0 <= j < i ==> (#[trigger] targets@[j]).wf(),
                forall|j: int|
                    0 <= j < i ==> (#[trigger] targets@[j]).is_new(targets_of(input@)[j]),
            decreases names@.len() - i,
        {
            assert(targets_of(input@)[i as int] == names@[i as int]@);
            targets.push(PingTargetState::new(names[i].clone()));
            i += 1;
        }
        self.targets = targets;
        self.log = VecDeque::new();
        Ok(names)
    }

    /// Clears the results: the figures of a running session start anew, those
    /// of an ended one go, and the log is emptied.
    pub fn clear_results(&mut self, running: bool)
        requires
            old(self).wf(),
        ensures
            final(self).wf(),
            final(self).log@.len() == 0,
            !running ==> final(self).targets@.len() == 0,
            running ==> {
                &&& final(self).targets@.len() == old(self).targets@.len()
                &&& forall|i: int|
                    0 <= i < final(self).targets@.len() ==> {
                        let t = #[trigger] final(self).targets@[i];
                        &&& t.target@ == old(self).targets@[i].target@
                        &&& t.ip == old(self).targets@[i].ip
                        &&& t.stats.is_blank()
                        &&& t.samples@.len() == 0
                    }
            },
    {
        let mut kept: Vec<PingTargetState> = Vec::new();
        if running {
            let mut i: usize = 0;
            while i < self.targets.len()
                invariant
                    i <= self.targets@.len(),
                    kept@.len() == i,
                    forall|j: int|
                        0 <= j < i ==> {
                            let t = #[trigger] kept@[j];
                            &&& t.wf()
                            &&& t.target@ == self.targets@[j].target@
                            &&& t.ip == self.targets@[j].ip
                            &&& t.stats.is_blank()
                            &&& t.samples@.len() == 0
                        },
                decreases self.targets@.len() - i,
            {
                let mut fresh = PingTargetState::new(self.targets[i].target.clone());
                fresh.ip = self.targets[i].ip;
                kept.push(fresh);
                i += 1;
            }
        }
        self.targets = kept;
        self.log = VecDeque::new();
    }

    /// Takes an event of a ping worker, which came `at` the given time since
    /// the start of the session; `rtt` and `jitter_text` are the times of a
    /// reply as the page shows them. An unknown target is added.
    pub fn on_ping_event(&mut self, ev: &PingEvent, at: Nanos, rtt: &str, jitter_text: &str)
        requires
            old(self).wf(),
            old(self).accepts(*ev),
        ensures
            final(self).wf(),
            final(self).log@.len() > 0,
            old(self).log@.len() < MAX_LOG_LINES ==> final(self).log@.drop_last() == old(
                self).log@,
            old(self).log@.len() >= MAX_LOG_LINES ==> final(self).log@.drop_last() == old(
                self).log@.skip(1),
            final(self).log@.last()@ == event_line(*ev, rtt@, jitter_text@),
            ({
                let k = ping_position(old(self).targets@, ev.target@) as int;
                let n = old(self).targets@.len();
                &&& final(self).targets@.len() == (if k < n {
                    n
                } else {
                    n + 1
                })
                &&& forall|i: int|
                    0 <= i < n && i != k ==> #[trigger] final(self).targets@[i] == old(
                        self).targets@[i]
                &&& if k < n {
                    old(self).targets@[k].after(*ev, at, final(self).targets@[k])
                } else {
                    exists|fresh: PingTargetState| #[trigger]
                        fresh.is_new(ev.target@) && fresh.after(*ev, at, final(self).targets@[k])
                }
            }),
    {
        let ghost before = *self;
        let k = self.find(ev.target.as_str());
        if k == self.targets.len() {
            let fresh = PingTargetState::new(ev.target.clone());
            self.targets.push(fresh);
        }
        let ghost middle = self.targets@;
        assert(middle[k as int].has_room(*ev));
        let state = &mut self.targets[k];
        state.apply(ev, at);
        proof {
            let after = self.targets@;
            assert(middle[k as int].after(*ev, at, after[k as int]));
            if k == before.targets@.len() {
                assert(middle[k as int].is_new(ev.target@));
            }
        }
        let line = text_of_event(ev, rtt, jitter_text);
        push_capped(&mut self.log, line, MAX_LOG_LINES);
        proof {
            let all = before.log@.push(line);
            assert(self.log@ == capped(all, MAX_LOG_LINES as nat));
            if before.log@.len() < MAX_LOG_LINES {
                assert(self.log@.drop_last() =~= before.log@);
            } else {
                assert(self.log@.drop_last() =~= before.log@.skip(1));
            }
        }
    }
}

// ------------------------------------------------------------- Latency graph

/// A reply in the latency graph.
#[derive(Clone, Copy, Debug, PartialEq, Eq, Structural)]
pub struct Point {
    pub at: Nanos,
    pub rtt: Nanos,
}

/// Replies without a loss between them.
#[derive(Debug)]
pub struct Segment {
    pub points: Vec<Point>,
}

impl DeepView for Segment {
    type V = Seq<Point>;

    open spec fn deep_view(&self) -> Seq<Point> {
        self.points@
    }
}

/// What the latency graph shows of a target: a line for each segment and a
/// mark for each loss.
#[derive(Debug)]
pub struct Series {
    pub segments: Vec<Segment>,
    pub losses: Vec<Nanos>,
}

/// The replies since the last loss.
pub open spec fn open_segment(samples: Seq<Sample>) -> Seq<Point>
    decreases samples.len(),
{
    if samples.len() == 0 {
        seq![]
    } else {
        match samples.last().rtt {
            Some(rtt) => open_segment(samples.drop_last()).push(
                Point { at: samples.last().at, rtt },
            ),
            None => seq![],
        }
    }
}

/// The runs of replies that a loss has ended.
pub open spec fn closed_segments(samples: Seq<Sample>) -> Seq<Seq<Point>>
    decreases samples.len(),
{
    if samples.len() == 0 {
        seq![]
    } else {
        let before = samples.drop_last();
        if samples.last().rtt is None && open_segment(before).len() > 0 {
            closed_segments(before).push(open_segment(before))
        } else {
            closed_segments(before)
        }
    }
}

/// The runs of replies without a loss between them.
pub open spec fn segments_of(samples: Seq<Sample>) -> Seq<Seq<Point>> {
    if open_segment(samples).len() > 0 {
        closed_segments(samples).push(open_segment(samples))
    } else {
        closed_segments(samples)
    }
}

/// The times of the losses.
pub open spec fn losses_of(samples: Seq<Sample>) -> Seq<Nanos>
    decreases samples.len(),
{
    if samples.len() == 0 {
        seq![]
    } else if samples.last().rtt is None {
        losses_of(samples.drop_last()).push(samples.last().at)
    } else {
        losses_of(samples.drop_last())
    }
}

/// What the latency graph shows for the given samples.
pub fn latency_series(samples: &VecDeque<Sample>) -> (r: Series)
    ensures
        r.segments.deep_view() == segments_of(samples@),
        r.losses@ == losses_of(samples@),
{
    let ghost sv = samples@;
    let mut segments: Vec<Segment> = Vec::new();
    let mut losses: Vec<Nanos> = Vec::new();
    let mut current: Vec<Point> = Vec::new();
    let mut i: usize = 0;
    assert(sv.take(0) =~= seq![]);
    assert(segments.deep_view() =~= seq![]);
    while i < samples.len()
        invariant
            sv == samples@,
            i <= samples@.len(),
            segments.deep_view() == closed_segments(sv.take(i as int)),
            current@ == open_segment(sv.take(i as int)),
            losses@ == losses_of(sv.take(i as int)),
        decreases samples@.len() - i,
    {
        assert(sv.take(i + 1).drop_last() =~= sv.take(i as int));
        assert(sv.take(i + 1).last() == sv[i as int]);
        let sample = samples[i];
        match sample.rtt {
            Some(rtt) => {
                current.push(Point { at: sample.at, rtt });
            },
            None => {
                losses.push(sample.at);
                if current.len() > 0 {
                    let segment = Segment { points: current };
                    let ghost before = segments;
                    segments.push(segment);
                    proof {
                        text::lemma_pushed_view(before, segments, segment);
                    }
                }
                current = Vec::new();
                assert(current@ =~= seq![]);
            },
        }
        i += 1;
    }
    assert(sv.take(i as int) =~= sv);
    if current.len() > 0 {
        let segment = Segment { points: current };
        let ghost before = segments;
        segments.push(segment);
        proof {
            text::lemma_pushed_view(before, segments, segment);
        }
    }
    Series { segments, losses }
}

/// The replies, in order.
pub open spec fn replies_of(samples: Seq<Sample>) -> Seq<Point>
    decreases samples.len(),
{
    if samples.len() == 0 {
        seq![]
    } else {
        match samples.last().rtt {
            Some(rtt) => replies_of(samples.drop_last()).push(Point { at: samples.last().at, rtt }),
            None => replies_of(samples.drop_last()),
        }
    }
}

/// The graph shows every sample once: the segments hold the replies in order,
/// none of them is empty, and the marks are the losses.
pub proof fn law_series_is_complete(samples: Seq<Sample>)
    ensures
        segments_of(samples).flatten() == replies_of(samples),
        forall|i: int|
            0 <= i < segments_of(samples).len() ==> (#[trigger] segments_of(samples)[i]).len() > 0,
        replies_of(samples).len() + losses_of(samples).len() == samples.len(),
{
    lemma_series(samples);
    let closed = closed_segments(samples);
    let open = open_segment(samples);
    if open.len() > 0 {
        closed.lemma_flatten_push(open);
    } else {
        assert(closed.flatten() + open =~= closed.flatten());
    }
}

proof fn lemma_series(samples: Seq<Sample>)
    ensures
        closed_segments(samples).flatten() + open_segment(samples) == replies_of(samples),
        forall|i: int|
            0 <= i < closed_segments(samples).len() ==> (#[trigger] closed_segments(
                samples,
            )[i]).len() > 0,
        replies_of(samples).len() + losses_of(samples).len() == samples.len(),
    decreases samples.len(),
{
    if samples.len() > 0 {
        let before = samples.drop_last();
        lemma_series(before);
        let closed = closed_segments(before);
        let open = open_segment(before);
        if samples.last().rtt is None {
            if open.len() > 0 {
                closed.lemma_flatten_push(open);
            }
            assert(closed_segments(samples).flatten() + Seq::<Point>::empty()
                =~= closed_segments(samples).flatten());
            assert(closed.flatten() + open =~= replies_of(before));
            if open.len() == 0 {
                assert(closed.flatten() + open =~= closed.flatten());
            }
        } else {
            assert(closed_segments(samples).flatten() + open_segment(samples)
                =~= replies_of(samples));
        }
    } else {
        assert(closed_segments(samples).flatten() + open_segment(samples) =~= replies_of(samples));
    }
}

// -------------------------------------------------------------------- Traces

/// What the trace page knows of a hop.
#[derive(Debug)]
pub struct HopRow {
    pub info: HopInfo,
    pub stats: Stats,
    pub prev_rtt: Option<Nanos>,
}

impl HopRow {
    /// Whether the figures have room for a result.
    pub open spec fn has_room(self, status: ProbeStatus) -> bool {
        match status {
            ProbeStatus::Reply { rtt } => self.stats.has_room(
                rtt,
                stats::jitter_of(self.prev_rtt, rtt),
            ),
            _ => self.stats.sent < u64::MAX,
        }
    }

    /// What the result of a probe makes of a hop.
    pub open spec fn after(self, status: ProbeStatus, next: Self) -> bool {
        &&& next.info == self.info
        &&& match status {
            ProbeStatus::Reply { rtt } => {
                &&& self.stats.after_reply(rtt, stats::jitter_of(self.prev_rtt, rtt), next.stats)
                &&& next.prev_rtt == Some(rtt)
            },
            ProbeStatus::Timeout => {
                &&& self.stats.same_replies(next.stats)
                &&& next.stats.sent == self.stats.sent + 1
                &&& next.stats.last_status@ == "TIMEOUT"@
                &&& next.prev_rtt == self.prev_rtt
            },
            ProbeStatus::Error(message) => {
                &&& self.stats.same_replies(next.stats)
                &&& next.stats.sent == self.stats.sent + 1
                &&& next.stats.last_status@ == "ERROR: "@ + message@
                &&& next.prev_rtt == self.prev_rtt
            },
        }
    }

    fn apply(&mut self, status: &ProbeStatus)
        requires
            old(self).stats.wf(),
            old(self).has_room(*status),
        ensures
            final(self).stats.wf(),
            old(self).after(*status, *final(self)),
    {
        match status {
            ProbeStatus::Reply { rtt } => {
                let jitter = jitter(self.prev_rtt, *rtt);
                self.prev_rtt = Some(*rtt);
                self.stats.record_ok(*rtt, jitter);
            },
            ProbeStatus::Timeout => {
                self.stats.record_timeout();
            },
            ProbeStatus::Error(message) => {
                self.stats.sent = self.stats.sent + 1;
                self.stats.record_error(message.as_str());
            },
        }
    }
}

/// What the trace page knows of a target.
#[derive(Debug)]
pub struct TraceTargetState {
    pub target: String,
    pub status: String,
    pub hops: Vec<HopRow>,
}

/// The position of the first row for the given hop and address, or the number
/// of rows.
pub open spec fn same_hop_position(rows: Seq<HopRow>, hop: u8, ip: Option<IpAddr>) -> nat
    decreases rows.len(),
{
    if rows.len() == 0 || (rows[0].info.hop == hop && rows[0].info.ip == ip) {
        0
    } else {
        1 + same_hop_position(rows.skip(1), hop, ip)
    }
}

/// The position of the first row with the given hop number, or the number of
/// rows.
pub open spec fn hop_position(rows: Seq<HopRow>, hop: u8) -> nat
    decreases rows.len(),
{
    if rows.len() == 0 || rows[0].info.hop == hop {
        0
    } else {
        1 + hop_position(rows.skip(1), hop)
    }
}

proof fn lemma_same_hop_position(rows: Seq<HopRow>, hop: u8, ip: Option<IpAddr>, i: int)
    requires
        0 <= i <= rows.len(),
        i < rows.len() ==> rows[i].info.hop == hop && rows[i].info.ip == ip,
        forall|j: int|
            0 <= j < i ==> !((#[trigger] rows[j]).info.hop == hop && rows[j].info.ip == ip),
    ensures
        same_hop_position(rows, hop, ip) == i,
    decreases rows.len(),
{
    if rows.len() > 0 && i > 0 {
        let r = rows.skip(1);
        assert(!(rows[0].info.hop == hop && rows[0].info.ip == ip));
        assert forall|j: int| 0 <= j < i - 1 implies !((#[trigger] r[j]).info.hop == hop
            && r[j].info.ip == ip) by {
            assert(r[j] == rows[j + 1]);
        }
        lemma_same_hop_position(r, hop, ip, i - 1);
    }
}

proof fn lemma_hop_position(rows: Seq<HopRow>, hop: u8, i: int)
    requires
        0 <= i <= rows.len(),
        i < rows.len() ==> rows[i].info.hop == hop,
        forall|j: int| 0 <= j < i ==> (#[trigger] rows[j]).info.hop != hop,
    ensures
        hop_position(rows, hop) == i,
    decreases rows.len(),
{
    if rows.len() > 0 && i > 0 {
        let r = rows.skip(1);
        assert(rows[0].info.hop != hop);
        assert forall|j: int| 0 <= j < i - 1 implies (#[trigger] r[j]).info.hop != hop by {
            assert(r[j] == rows[j + 1]);
        }
        lemma_hop_position(r, hop, i - 1);
    }
}

/// The row of a hop of a new path: a hop with the number and address of an old
/// row goes on with its figures, any other starts anew.
pub open spec fn row_for(old_rows: Seq<HopRow>, info: HopInfo, row: HopRow) -> bool {
    let k = same_hop_position(old_rows, info.hop, info.ip) as int;
    &&& row.info == info
    &&& if k < old_rows.len() {
        row.stats == old_rows[k].stats && row.prev_rtt == old_rows[k].prev_rtt
    } else {
        row.stats.is_blank() && row.prev_rtt is None
    }
}

fn same_ip(a: Option<IpAddr>, b: Option<IpAddr>) -> (r: bool)
    ensures
        r == (a == b),
{
    match (a, b) {
        (Some(x), Some(y)) => x == y,
        (None, None) => true,
        _ => false,
    }
}

fn row_of(old_rows: &Vec<HopRow>, info: HopInfo) -> (r: HopRow)
    requires
        forall|i: int| 0 <= i < old_rows@.len() ==> (#[trigger] old_rows@[i]).stats.wf(),
    ensures
        row_for(old_rows@, info, r),
        r.stats.wf(),
{
    let mut i: usize = 0;
    while i < old_rows.len() && !(old_rows[i].info.hop == info.hop && same_ip(
        old_rows[i].info.ip,
        info.ip,
    ))
        invariant
            i <= old_rows@.len(),
            forall|j: int|
                0 <= j < i ==> !((#[trigger] old_rows@[j]).info.hop == info.hop
                    && old_rows@[j].info.ip == info.ip),
        decreases old_rows@.len() - i,
    {
        i += 1;
    }
    proof {
        lemma_same_hop_position(old_rows@, info.hop, info.ip, i as int);
    }
    if i < old_rows.len() {
        HopRow {
            stats: clone_stats(&old_rows[i].stats),
            prev_rtt: old_rows[i].prev_rtt,
            info,
        }
    } else {
        HopRow { stats: Stats::default(), prev_rtt: None, info }
    }
}

impl TraceTargetState {
    /// The figures of every hop fit together.
    pub open spec fn wf(self) -> bool {
        forall|i: int| 0 <= i < self.hops@.len() ==> (#[trigger] self.hops@[i]).stats.wf()
    }

    /// A target without hops.
    pub open spec fn is_new(self, target: Seq<char>, status: Seq<char>) -> bool {
        self.target@ == target && self.status@ == status && self.hops@.len() == 0
    }

    /// Whether the figures of the event's hop have room for it.
    pub open spec fn has_room(self, ev: TraceEvent) -> bool {
        ev matches TraceEvent::Sample { target, hop, status } ==> {
            let k = hop_position(self.hops@, hop) as int;
            k < self.hops@.len() ==> self.hops@[k].has_room(status)
        }
    }

    /// What an event makes of a target.
    pub open spec fn after(self, ev: TraceEvent, next: Self) -> bool {
        &&& next.target@ == self.target@
        &&& match ev {
            TraceEvent::Status { target, message } => next.status@ == message@ && next.hops@
                == self.hops@,
            TraceEvent::Hops { target, hops } => {
                &&& next.status@ == self.status@
                &&& next.hops@.len() == hops@.len()
                &&& forall|i: int|
                    0 <= i < hops@.len() ==> row_for(
                        self.hops@,
                        hops@[i],
                        #[trigger] next.hops@[i],
                    )
            },
            TraceEvent::Sample { target, hop, status } => {
                let k = hop_position(self.hops@, hop) as int;
                &&& next.status@ == self.status@
                &&& next.hops@.len() == self.hops@.len()
                &&& forall|i: int|
                    0 <= i < self.hops@.len() && i != k ==> #[trigger] next.hops@[i]
                        == self.hops@[i]
                &&& k < self.hops@.len() ==> self.hops@[k].after(status, next.hops@[k])
            },
        }
    }

    fn find_hop(&self, hop: u8) -> (r: usize)
        ensures
            r == hop_position(self.hops@, hop),
            r <= self.hops@.len(),
    {
        let mut i: usize = 0;
        while i < self.hops.len() && self.hops[i].info.hop != hop
            invariant
                i <= self.hops@.len(),
                forall|j: int| 0 <= j < i ==> (#[trigger] self.hops@[j]).info.hop != hop,
            decreases self.hops@.len() - i,
        {
            i += 1;
        }
        proof {
            lemma_hop_position(self.hops@, hop, i as int);
        }
        i
    }

    fn replace_hops(&mut self, hops: Vec<HopInfo>)
        requires
            old(self).wf(),
        ensures
            final(self).wf(),
            final(self).target@ == old(self).target@,
            final(self).status@ == old(self).status@,
            final(self).hops@.len() == hops@.len(),
            forall|i: int|
                0 <= i < hops@.len() ==> row_for(
                    old(self).hops@,
                    hops@[i],
                    #[trigger] final(self).hops@[i],
                ),
    {
        let ghost all = hops@;
        let mut rest = hops;
        let mut rows: Vec<HopRow> = Vec::new();
        let ghost mut k: int = 0;
        assert(all.skip(0) =~= all);
        while rest.len() > 0
            invariant
                0 <= k <= all.len(),
                rest@ == all.skip(k),
                rows@.len() == k,
                forall|i: int|
                    0 <= i < self.hops@.len() ==> (#[trigger] self.hops@[i]).stats.wf(),
                forall|i: int| 0 <= i < k ==> (#[trigger] rows@[i]).stats.wf(),
                forall|i: int| 0 <= i < k ==> row_for(self.hops@, all[i], #[trigger] rows@[i]),
            decreases rest@.len(),
        {
            assert(all.skip(k)[0] == all[k]);
            let info = rest.remove(0);
            rows.push(row_of(&self.hops, info));
            proof {
                assert(rest@ =~= all.skip(k + 1));
                k = k + 1;
            }
        }
        self.hops = rows;
    }

    fn apply(&mut self, ev: TraceEvent)
        requires
            old(self).wf(),
            old(self).has_room(ev),
        ensures
            final(self).wf(),
            old(self).after(ev, *final(self)),
    {
        match ev {
            TraceEvent::Status { target: _, message } => {
                self.status = message;
            },
            TraceEvent::Hops { target: _, hops } => {
                self.replace_hops(hops);
            },
            TraceEvent::Sample { target: _, hop, status } => {
                let k = self.find_hop(hop);
                if k < self.hops.len() {
                    let row = &mut self.hops[k];
                    row.apply(&status);
                }
            },
        }
    }
}

/// The target that an event is about.
pub open spec fn event_target(ev: TraceEvent) -> Seq<char> {
    match ev {
        TraceEvent::Status { target, message } => target@,
        TraceEvent::Hops { target, hops } => target@,
        TraceEvent::Sample { target, hop, status } => target@,
    }
}

fn target_of(ev: &TraceEvent) -> (r: String)
    ensures
        r@ == event_target(*ev),
{
    match ev {
        TraceEvent::Status { target, message: _ } => target.clone(),
        TraceEvent::Hops { target, hops: _ } => target.clone(),
        TraceEvent::Sample { target, hop: _, status: _ } => target.clone(),
    }
}

/// The state of the trace page.
#[derive(Debug)]
pub struct TraceBoard {
    pub targets: Vec<TraceTargetState>,
}

/// The position of a target among those of the page, or their number.
pub open spec fn trace_position(targets: Seq<TraceTargetState>, target: Seq<char>) -> nat
    decreases targets.len(),
{
    if targets.len() == 0 || targets[0].target@ == target {
        0
    } else {
        1 + trace_position(targets.skip(1), target)
    }
}

proof fn lemma_trace_position(targets: Seq<TraceTargetState>, target: Seq<char>, i: int)
    requires
        0 <= i <= targets.len(),
        i < targets.len() ==> targets[i].target@ == target,
        forall|j: int| 0 <= j < i ==> (#[trigger] targets[j]).target@ != target,
    ensures
        trace_position(targets, target) == i,
    decreases targets.len(),
{
    if targets.len() > 0 && i > 0 {
        let r = targets.skip(1);
        assert(targets[0].target@ != target);
        assert forall|j: int| 0 <= j < i - 1 implies (#[trigger] r[j]).target@ != target by {
            assert(targets[j + 1].target@ != target);
        }
        lemma_trace_position(r, target, i - 1);
    }
}

impl TraceBoard {
    /// Every target is well-formed.
    pub open spec fn wf(self) -> bool {
        forall|i: int| 0 <= i < self.targets@.len() ==> (#[trigger] self.targets@[i]).wf()
    }

    /// An empty page.
    pub fn new() -> (r: Self)
        ensures
            r.wf(),
            r.targets@.len() == 0,
    {
        TraceBoard { targets: Vec::new() }
    }

    /// Whether the figures of the event's hop have room for the event.
    pub open spec fn accepts(self, ev: TraceEvent) -> bool {
        let k = trace_position(self.targets@, event_target(ev)) as int;
        k < self.targets@.len() ==> self.targets@[k].has_room(ev)
    }

    fn find(&self, target: &str) -> (r: usize)
        ensures
            r == trace_position(self.targets@, target@),
            r <= self.targets@.len(),
    {
        let mut i: usize = 0;
        while i < self.targets.len() && !text::same(self.targets[i].target.as_str(), target)
            invariant
                i <= self.targets@.len(),
                forall|j: int| 0 <= j < i ==> (#[trigger] self.targets@[j]).target@ != target@,
            decreases self.targets@.len() - i,
        {
            i += 1;
        }
        proof {
            lemma_trace_position(self.targets@, target@, i as int);
        }
        i
    }

    /// Tests whether the figures of the event's hop have room for the event.
    pub fn can_take(&self, ev: &TraceEvent) -> (r: bool)
        requires
            self.wf(),
        ensures
            r == self.accepts(*ev),
    {
        let name = target_of(ev);
        let k = self.find(name.as_str());
        if k == self.targets.len() {
            return true;
        }
        match ev {
            TraceEvent::Sample { target: _, hop, status } => {
                let state = &self.targets[k];
                let h = state.find_hop(*hop);
                if h == state.hops.len() {
                    return true;
                }
                let row = &state.hops[h];
                match status {
                    ProbeStatus::Reply { rtt } => row.stats.check_room(
                        *rtt,
                        jitter(row.prev_rtt, *rtt),
                    ),
                    _ => row.stats.sent < u64::MAX,
                }
            },
            _ => true,
        }
    }

    /// Takes an event of the trace engine. An unknown target is added.
    pub fn on_trace_event(&mut self, ev: TraceEvent)
        requires
            old(self).wf(),
            old(self).accepts(ev),
        ensures
            final(self).wf(),
            ({
                let k = trace_position(old(self).targets@, event_target(ev)) as int;
                let n = old(self).targets@.len();
                &&& final(self).targets@.len() == (if k < n {
                    n
                } else {
                    n + 1
                })
                &&& forall|i: int|
                    0 <= i < n && i != k ==> #[trigger] final(self).targets@[i] == old(
                        self).targets@[i]
                &&& if k < n {
                    old(self).targets@[k].after(ev, final(self).targets@[k])
                } else {
                    exists|fresh: TraceTargetState| #[trigger]
                        fresh.is_new(event_target(ev), seq![]) && fresh.after(
                            ev,
                            final(self).targets@[k],
                        )
                }
            }),
    {
        let ghost before = *self;
        let name = target_of(&ev);
        let k = self.find(name.as_str());
        if k == self.targets.len() {
            let fresh = TraceTargetState { target: name, status: String::new(), hops: Vec::new() };
            assert(fresh.status@ =~= seq![]);
            assert(fresh.is_new(event_target(ev), seq![]));
            self.targets.push(fresh);
        }
        let ghost middle = self.targets@;
        assert(middle[k as int].has_room(ev));
        let state = &mut self.targets[k];
        state.apply(ev);
        proof {
            let after = self.targets@;
            assert(middle[k as int].after(ev, after[k as int]));
        }
    }

    /// Starts a session for the targets in `input`: they are new. Without a
    /// target the page stays as it is.
    pub fn start(&mut self, input: &str) -> (r: Result<Vec<String>, String>)
        requires
            old(self).wf(),
        ensures
            final(self).wf(),
            targets_of(input@).len() == 0 ==> r is Err && r->Err_0@
                == "Enter at least one target (IP or FQDN)."@ && *final(self) == *old(self),
            targets_of(input@).len() > 0 ==> {
                &&& r is Ok
                &&& r->Ok_0.deep_view() == targets_of(input@)
                &&& final(self).targets@.len() == targets_of(input@).len()
                &&& forall|i: int|
                    0 <= i < final(self).targets@.len() ==> (#[trigger] final(
                        self).targets@[i]).is_new(targets_of(input@)[i], "starting…"@)
            },
    {
        let names = parse_targets(input);
        if names.len() == 0 {
            return Err("Enter at least one target (IP or FQDN).".to_owned());
        }
        let mut targets: Vec<TraceTargetState> = Vec::new();
        let mut i: usize = 0;
        while i < names.len()
            invariant
                names.deep_view() == targets_of(input@),
                i <= names@.len(),
                targets@.len() == i,
                forall|j: int| 0 <= j < i ==> (#[trigger] targets@[j]).wf(),
                forall|j: int|
                    0 <= j < i ==> (#[trigger] targets@[j]).is_new(
                        targets_of(input@)[j],
                        "starting…"@,
                    ),
            decreases names@.len() - i,
        {
            assert(targets_of(input@)[i as int] == names@[i as int]@);
            targets.push(
                TraceTargetState {
                    target: names[i].clone(),
                    status: "starting…".to_owned(),
                    hops: Vec::new(),
                },
            );
            i += 1;
        }
        self.targets = targets;
        Ok(names)
    }
}

/// A new path to a target keeps the figures of every hop that stays, with its
/// number and its address, where no two hops of the old path have both in
/// common.
pub proof fn law_figures_survive_a_new_path(
    old_rows: Seq<HopRow>,
    k: int,
    info: HopInfo,
    row: HopRow,
)
    requires
        0 <= k < old_rows.len(),
        forall|i: int, j: int|
            0 <= i < j < old_rows.len() ==> (#[trigger] old_rows[i]).info.hop != (
            #[trigger] old_rows[j]).info.hop || old_rows[i].info.ip != old_rows[j].info.ip,
        info.hop == old_rows[k].info.hop,
        info.ip == old_rows[k].info.ip,
        row_for(old_rows, info, row),
    ensures
        row.stats == old_rows[k].stats,
        row.prev_rtt == old_rows[k].prev_rtt,
{
    assert forall|j: int| 0 <= j < k implies !((#[trigger] old_rows[j]).info.hop == info.hop
        && old_rows[j].info.ip == info.ip) by {
        assert(old_rows[j].info.hop != old_rows[k].info.hop || old_rows[j].info.ip
            != old_rows[k].info.ip);
    }
    lemma_same_hop_position(old_rows, info.hop, info.ip, k);
}

// ------------------------------------------------------- Lookups and vendors

/// What background work reports to the window.
#[derive(Debug)]
pub enum Event {
    Ping(PingEvent),
    Trace(TraceEvent),
    Dns(DnsEvent),
    Arp(ArpEvent),
}

/// The state of the DNS page.
#[derive(Debug)]
pub struct DnsBoard {
    pub results: Vec<DnsAnswer>,
    pub running: bool,
}

impl DnsBoard {
    /// An empty page.
    pub fn new() -> (r: Self)
        ensures
            r.results@.len() == 0,
            !r.running,
    {
        DnsBoard { results: Vec::new(), running: false }
    }

    /// Takes an event of a lookup: answers are listed in the order in which
    /// they come.
    pub fn on_dns_event(&mut self, ev: DnsEvent)
        ensures
            match ev {
                DnsEvent::Answer(answer) => final(self).results@ == old(self).results@.push(answer)
                    && final(self).running == old(self).running,
                DnsEvent::Done => final(self).results@ == old(self).results@ && !final(
                    self).running,
            },
    {
        match ev {
            DnsEvent::Answer(answer) => {
                self.results.push(answer);
            },
            DnsEvent::Done => {
                self.running = false;
            },
        }
    }
}

/// How far the sweep of a subnet is.
#[derive(Clone, Copy, Debug, PartialEq, Eq, Structural)]
pub enum SweepView {
    /// No sweep was made.
    Idle,
    /// A sweep is going on.
    Running { done: usize, total: usize, alive: usize },
    /// The last sweep found this many hosts.
    Finished { alive: usize },
}

/// The state of the ARP page.
#[derive(Debug)]
pub struct ArpBoard {
    pub vendors: VendorTable,
    pub vendor_running: bool,
    pub message: Option<String>,
    pub sweep: SweepView,
}

impl ArpBoard {
    /// No OUI has two vendors.
    pub open spec fn wf(self) -> bool {
        self.vendors.wf()
    }

    /// An empty page.
    pub fn new() -> (r: Self)
        ensures
            r.wf(),
            r.vendors@ == Map::<Seq<char>, Seq<char>>::empty(),
            !r.vendor_running,
            r.message is None,
            r.sweep is Idle,
    {
        ArpBoard {
            vendors: VendorTable::new(),
            vendor_running: false,
            message: None,
            sweep: SweepView::Idle,
        }
    }

    /// Takes an event of a vendor lookup or a sweep. The result tells whether
    /// the table is to be read again: at the end of a sweep, which makes the
    /// hosts that replied appear in it.
    pub fn on_arp_event(&mut self, ev: ArpEvent) -> (reread: bool)
        requires
            old(self).wf(),
        ensures
            final(self).wf(),
            reread == (ev is ScanDone),
            match ev {
                ArpEvent::Vendor { oui, vendor } => final(self).vendors@ == old(
                    self).vendors@.insert(oui@, vendor@),
                _ => final(self).vendors@ == old(self).vendors@,
            },
            match ev {
                ArpEvent::Error(message) => final(self).message == Some(message),
                _ => final(self).message == old(self).message,
            },
            match ev {
                ArpEvent::Done => !final(self).vendor_running,
                _ => final(self).vendor_running == old(self).vendor_running,
            },
            match ev {
                ArpEvent::ScanProgress { done, total, alive } => final(self).sweep == (
                SweepView::Running { done, total, alive }),
                ArpEvent::ScanDone { alive } => final(self).sweep == (SweepView::Finished { alive }),
                _ => final(self).sweep == old(self).sweep,
            },
    {
        match ev {
            ArpEvent::Vendor { oui, vendor } => {
                self.vendors.insert(oui, vendor);
                false
            },
            ArpEvent::Error(message) => {
                self.message = Some(message);
                false
            },
            ArpEvent::Done => {
                self.vendor_running = false;
                false
            },
            ArpEvent::ScanProgress { done, total, alive } => {
                self.sweep = SweepView::Running { done, total, alive };
                false
            },
            ArpEvent::ScanDone { alive } => {
                self.sweep = SweepView::Finished { alive };
                true
            },
        }
    }
}

// --------------------------------------------------------- What events change

/// The entries of an input are its lines without the white space around them, in
/// order and without the blank ones.
pub proof fn law_entries(lines: Seq<Seq<char>>, a: Seq<char>, entry: Seq<char>, b: Seq<char>)
    requires
        text::all_space(a),
        text::all_space(b),
        entry.len() == 0 || !text::is_space(entry[0]) && !text::is_space(entry.last()),
    ensures
        entries_of(seq![]).len() == 0,
        entry.len() > 0 ==> entries_of(lines.push(a + entry + b)) == entries_of(lines).push(entry),
        entry.len() == 0 ==> entries_of(lines.push(a + entry + b)) == entries_of(lines),
{
    assert(lines.push(a + entry + b).drop_last() =~= lines);
    text::law_trimmed(a, entry, b);
}

/// A reply counts as sent and received and is the newest sample; a timeout counts
/// as sent and is a sample without a time; an error is no sample, and counts as
/// sent unless nothing was. The address of a target stays once it is known.
pub proof fn law_ping_event(s: PingTargetState, ev: PingEvent, at: Nanos, next: PingTargetState)
    requires
        s.after(ev, at, next),
        s.wf(),
    ensures
        next.target@ == s.target@,
        s.ip is Some ==> next.ip == s.ip,
        s.ip is None ==> next.ip == ev.ip,
        ev.status matches PingStatus::Reply { rtt, jitter } ==> {
            &&& next.stats.sent == s.stats.sent + 1
            &&& next.stats.received == s.stats.received + 1
            &&& next.stats.last_rtt == Some(rtt)
            &&& next.stats.last_jitter == jitter
            &&& next.stats.sum_rtt == s.stats.sum_rtt + rtt
            &&& next.stats.last_status@ == "OK"@
            &&& next.samples@.last() == (Sample { at, rtt: Some(rtt) })
            &&& s.samples@.len() < MAX_SAMPLES ==> next.samples@.drop_last() == s.samples@
        },
        ev.status is Timeout ==> {
            &&& next.stats.sent == s.stats.sent + 1
            &&& next.stats.received == s.stats.received
            &&& next.stats.sum_rtt == s.stats.sum_rtt
            &&& next.stats.last_rtt == s.stats.last_rtt
            &&& next.stats.last_status@ == "TIMEOUT"@
            &&& next.samples@.last() == (Sample { at, rtt: None })
            &&& s.samples@.len() < MAX_SAMPLES ==> next.samples@.drop_last() == s.samples@
        },
        ev.status matches PingStatus::Error(message) ==> {
            &&& ev.seq > 0 ==> next.stats.sent == s.stats.sent + 1
            &&& ev.seq == 0 ==> next.stats.sent == s.stats.sent
            &&& next.stats.received == s.stats.received
            &&& next.stats.sum_rtt == s.stats.sum_rtt
            &&& next.stats.last_rtt == s.stats.last_rtt
            &&& next.stats.last_status@ == "ERROR: "@ + message@
            &&& next.samples@ == s.samples@
        },
{
    if let PingStatus::Reply { rtt, jitter } = ev.status {
        let item = Sample { at, rtt: Some(rtt) };
        law_capped(s.samples@, item, MAX_SAMPLES as nat);
        assert(s.samples@.push(item).drop_last() =~= s.samples@);
    }
    if ev.status is Timeout {
        let item = Sample { at, rtt: None };
        law_capped(s.samples@, item, MAX_SAMPLES as nat);
        assert(s.samples@.push(item).drop_last() =~= s.samples@);
    }
}

/// A line of the log begins with the time and the target, and tells the sequence
/// number and the time and jitter of a reply, or the sequence number and the
/// loss, or the error.
pub proof fn law_event_line(ev: PingEvent, rtt: Seq<char>, jitter_text: Seq<char>)
    ensures
        ({
            let line = event_line(ev, rtt, jitter_text);
            let head = "["@ + ev.timestamp@ + "] "@ + text::padded(ev.target@, 24);
            let seq = " seq="@ + text::padded(text::decimal_text(ev.seq as nat), 5);
            &&& text::starts_with_text(line, "["@ + ev.timestamp@ + "] "@ + ev.target@)
            &&& ev.status matches PingStatus::Reply { rtt: _, jitter } ==> {
                &&& jitter is None ==> line == head + seq + " RTT="@ + rtt
                &&& jitter is Some ==> line == head + seq + " RTT="@ + rtt + "  jitter="@
                    + jitter_text
            }
            &&& ev.status is Timeout ==> line == head + seq + " TIMEOUT (packet loss)"@
            &&& ev.status matches PingStatus::Error(message) ==> line == head + " ERROR: "@
                + message@
        }),
{
    let line = event_line(ev, rtt, jitter_text);
    let head = "["@ + ev.timestamp@ + "] "@ + text::padded(ev.target@, 24);
    let start = "["@ + ev.timestamp@ + "] "@ + ev.target@;
    let seq = " seq="@ + text::padded(text::decimal_text(ev.seq as nat), 5);
    text::law_padded(ev.target@, 24);
    let shown = text::padded(ev.target@, 24);
    assert(ev.target@ =~= shown.take(ev.target@.len() as int));
    let before = "["@ + ev.timestamp@ + "] "@;
    assert(head.subrange(0, start.len() as int) =~= start) by {
        assert forall|i: int| 0 <= i < start.len() implies head[i] == #[trigger] start[i] by {
            if i >= before.len() {
                assert(head[i] == shown[i - before.len()]);
                assert(shown.take(ev.target@.len() as int)[i - before.len()] == ev.target@[i
                    - before.len()]);
            }
        }
    }
    assert(line.subrange(0, start.len() as int) =~= head.subrange(0, start.len() as int));
    if let PingStatus::Reply { rtt: _, jitter } = ev.status {
        assert(jitter is None ==> line =~= head + seq + " RTT="@ + rtt);
        assert(jitter is Some ==> line =~= head + seq + " RTT="@ + rtt + "  jitter="@ + jitter_text);
    }
}

/// An event is for the first target of its name, and for none where no target has
/// it.
pub proof fn law_targets_are_found(
    pings: Seq<PingTargetState>,
    traces: Seq<TraceTargetState>,
    target: Seq<char>,
    i: int,
)
    ensures
        0 <= i < pings.len() && pings[i].target@ == target && (forall|j: int|
            0 <= j < i ==> (#[trigger] pings[j]).target@ != target) ==> ping_position(pings, target)
            == i,
        (forall|j: int| 0 <= j < pings.len() ==> (#[trigger] pings[j]).target@ != target)
            ==> ping_position(pings, target) == pings.len(),
        0 <= i < traces.len() && traces[i].target@ == target && (forall|j: int|
            0 <= j < i ==> (#[trigger] traces[j]).target@ != target) ==> trace_position(
            traces,
            target,
        ) == i,
        (forall|j: int| 0 <= j < traces.len() ==> (#[trigger] traces[j]).target@ != target)
            ==> trace_position(traces, target) == traces.len(),
{
    if 0 <= i < pings.len() && pings[i].target@ == target && (forall|j: int|
        0 <= j < i ==> (#[trigger] pings[j]).target@ != target) {
        lemma_ping_position(pings, target, i);
    }
    if forall|j: int| 0 <= j < pings.len() ==> (#[trigger] pings[j]).target@ != target {
        lemma_ping_position(pings, target, pings.len() as int);
    }
    if 0 <= i < traces.len() && traces[i].target@ == target && (forall|j: int|
        0 <= j < i ==> (#[trigger] traces[j]).target@ != target) {
        lemma_trace_position(traces, target, i);
    }
    if forall|j: int| 0 <= j < traces.len() ==> (#[trigger] traces[j]).target@ != target {
        lemma_trace_position(traces, target, traces.len() as int);
    }
}

/// An event of a trace is for the target that it names.
pub proof fn law_event_targets(ev: TraceEvent)
    ensures
        ev matches TraceEvent::Status { target, message } ==> event_target(ev) == target@,
        ev matches TraceEvent::Hops { target, hops } ==> event_target(ev) == target@,
        ev matches TraceEvent::Sample { target, hop, status } ==> event_target(ev) == target@,
{
}

/// A reply behind a reply goes on with the last segment; behind a loss it begins
/// a new one, and a loss alone changes no segment.
pub proof fn law_losses_part_segments(samples: Seq<Sample>, at: Nanos, rtt: Nanos)
    ensures
        ({
            let reply = Sample { at, rtt: Some(rtt) };
            let loss = Sample { at, rtt: None };
            let point = Point { at, rtt };
            &&& samples.len() == 0 || samples.last().rtt is None ==> segments_of(
                samples.push(reply),
            ) == segments_of(samples).push(seq![point])
            &&& samples.len() > 0 && samples.last().rtt is Some ==> {
                &&& segments_of(samples).len() > 0
                &&& segments_of(samples.push(reply)) == segments_of(samples).drop_last().push(
                    segments_of(samples).last().push(point),
                )
            }
            &&& segments_of(samples.push(loss)) == segments_of(samples)
        }),
{
    let reply = Sample { at, rtt: Some(rtt) };
    let loss = Sample { at, rtt: None };
    let point = Point { at, rtt };
    assert(samples.push(reply).drop_last() =~= samples);
    assert(samples.push(loss).drop_last() =~= samples);
    let open = open_segment(samples);
    if samples.len() == 0 || samples.last().rtt is None {
        assert(open =~= seq![]);
        assert(open.push(point) =~= seq![point]);
    } else {
        assert(open.len() > 0);
        assert(segments_of(samples).drop_last() =~= closed_segments(samples));
    }
}

/// The replies and the losses are those of the samples, in order and with their
/// times.
pub proof fn law_samples_are_sorted_out(samples: Seq<Sample>, at: Nanos, rtt: Nanos)
    ensures
        replies_of(seq![]).len() == 0 && losses_of(seq![]).len() == 0,
        replies_of(samples.push(Sample { at, rtt: Some(rtt) })) == replies_of(samples).push(
            Point { at, rtt },
        ),
        losses_of(samples.push(Sample { at, rtt: Some(rtt) })) == losses_of(samples),
        replies_of(samples.push(Sample { at, rtt: None })) == replies_of(samples),
        losses_of(samples.push(Sample { at, rtt: None })) == losses_of(samples).push(at),
{
    assert(samples.push(Sample { at, rtt: Some(rtt) }).drop_last() =~= samples);
    assert(samples.push(Sample { at, rtt: None }).drop_last() =~= samples);
}

/// A sample changes the figures of the first row of its hop and no other row. A
/// reply adds its time and its distance to the time before it; a loss counts as
/// sent and changes no time.
pub proof fn law_hop_sample(row: HopRow, status: ProbeStatus, next: HopRow)
    requires
        row.after(status, next),
    ensures
        next.info == row.info,
        next.stats.sent == row.stats.sent + 1,
        status matches ProbeStatus::Reply { rtt } ==> {
            &&& next.prev_rtt == Some(rtt)
            &&& next.stats.received == row.stats.received + 1
            &&& next.stats.last_rtt == Some(rtt)
            &&& next.stats.sum_rtt == row.stats.sum_rtt + rtt
            &&& row.prev_rtt is None ==> next.stats.jitter_count == row.stats.jitter_count
            &&& row.prev_rtt matches Some(p) ==> {
                &&& next.stats.jitter_count == row.stats.jitter_count + 1
                &&& p <= rtt ==> next.stats.sum_jitter == row.stats.sum_jitter + (rtt - p)
                &&& rtt <= p ==> next.stats.sum_jitter == row.stats.sum_jitter + (p - rtt)
            }
            &&& next.stats.last_status@ == "OK"@
        },
        !(status is Reply) ==> {
            &&& next.prev_rtt == row.prev_rtt
            &&& next.stats.received == row.stats.received
            &&& next.stats.sum_rtt == row.stats.sum_rtt
            &&& next.stats.sum_jitter == row.stats.sum_jitter
            &&& next.stats.last_rtt == row.stats.last_rtt
        },
        status is Timeout ==> next.stats.last_status@ == "TIMEOUT"@,
        status matches ProbeStatus::Error(message) ==> next.stats.last_status@ == "ERROR: "@
            + message@,
{
}

/// What an event of a trace changes: the status, or the whole path, or the first
/// row of one hop; the rest stays as it is.
pub proof fn law_trace_event(
    s: TraceTargetState,
    ev: TraceEvent,
    next: TraceTargetState,
    k: int,
)
    requires
        s.after(ev, next),
    ensures
        next.target@ == s.target@,
        ev matches TraceEvent::Status { target, message } ==> next.status@ == message@ && next.hops@
            == s.hops@,
        ev matches TraceEvent::Hops { target, hops } ==> {
            &&& next.status@ == s.status@
            &&& next.hops@.len() == hops@.len()
            &&& forall|i: int| 0 <= i < hops@.len() ==> (#[trigger] next.hops@[i]).info == hops@[i]
            &&& forall|i: int|
                0 <= i < hops@.len() && (forall|j: int|
                    0 <= j < s.hops@.len() ==> (#[trigger] s.hops@[j]).info.hop != hops@[i].hop
                        || s.hops@[j].info.ip != hops@[i].ip) ==> (
                #[trigger] next.hops@[i]).stats.sent == 0 && next.hops@[i].stats.received == 0
                    && next.hops@[i].prev_rtt is None
        },
        ev matches TraceEvent::Sample { target, hop, status } ==> {
            &&& next.status@ == s.status@
            &&& next.hops@.len() == s.hops@.len()
            &&& forall|i: int|
                0 <= i < s.hops@.len() && s.hops@[i].info.hop != hop ==> #[trigger] next.hops@[i]
                    == s.hops@[i]
            &&& 0 <= k < s.hops@.len() && s.hops@[k].info.hop == hop && (forall|j: int|
                0 <= j < k ==> (#[trigger] s.hops@[j]).info.hop != hop) ==> s.hops@[k].after(
                status,
                next.hops@[k],
            )
        },
{
    if let TraceEvent::Hops { target, hops } = ev {
        assert forall|i: int|
            0 <= i < hops@.len() && (forall|j: int|
                0 <= j < s.hops@.len() ==> (#[trigger] s.hops@[j]).info.hop != hops@[i].hop
                    || s.hops@[j].info.ip != hops@[i].ip) implies (
        #[trigger] next.hops@[i]).stats.sent == 0 && next.hops@[i].stats.received == 0
            && next.hops@[i].prev_rtt is None by {
            lemma_same_hop_position(s.hops@, hops@[i].hop, hops@[i].ip, s.hops@.len() as int);
            assert(row_for(s.hops@, hops@[i], next.hops@[i]));
        }
        assert forall|i: int| 0 <= i < hops@.len() implies (#[trigger] next.hops@[i]).info
            == hops@[i] by {
            assert(row_for(s.hops@, hops@[i], next.hops@[i]));
        }
    }
    if let TraceEvent::Sample { target, hop, status } = ev {
        let p = hop_position(s.hops@, hop) as int;
        assert forall|i: int|
            0 <= i < s.hops@.len() && s.hops@[i].info.hop != hop implies #[trigger] next.hops@[i]
            == s.hops@[i] by {
            lemma_found_hop(s.hops@, hop);
        }
        if 0 <= k < s.hops@.len() && s.hops@[k].info.hop == hop && (forall|j: int|
            0 <= j < k ==> (#[trigger] s.hops@[j]).info.hop != hop) {
            lemma_hop_position(s.hops@, hop, k);
        }
    }
}

proof fn lemma_found_hop(rows: Seq<HopRow>, hop: u8)
    ensures
        hop_position(rows, hop) < rows.len() ==> rows[hop_position(rows, hop) as int].info.hop
            == hop,
    decreases rows.len(),
{
    if rows.len() > 0 && rows[0].info.hop != hop {
        lemma_found_hop(rows.skip(1), hop);
    }
}

/// A new target has its name and nothing else.
pub proof fn law_new_targets(
    s: PingTargetState,
    t: TraceTargetState,
    target: Seq<char>,
    status: Seq<char>,
)
    ensures
        s.is_new(target) ==> s.target@ == target && s.ip is None && s.stats.sent == 0
            && s.stats.received == 0 && s.samples@.len() == 0 && s.stats.mean_rtt() is None,
        t.is_new(target, status) ==> t.target@ == target && t.status@ == status && t.hops@.len()
            == 0,
{
}

/// A session takes every event for which its counters and sums have room: a
/// counter below its limit and times whose sums stay below the longest time.
pub proof fn law_room(s: PingTargetState, ev: PingEvent, row: HopRow, status: ProbeStatus)
    ensures
        s.stats.sent < u64::MAX && !(ev.status is Reply) ==> s.has_room(ev),
        s.stats.sent < u64::MAX ==> (ev.status matches PingStatus::Reply { rtt, jitter } ==> (
        s.stats.sum_rtt + rtt <= LONGEST && (jitter matches Some(j) ==> s.stats.sum_jitter + j
            <= LONGEST) ==> s.has_room(ev))),
        row.stats.sent < u64::MAX && !(status is Reply) ==> row.has_room(status),
        row.stats.sent < u64::MAX ==> (status matches ProbeStatus::Reply { rtt } ==> (
        row.stats.sum_rtt + rtt <= LONGEST && row.stats.sum_jitter + rtt <= LONGEST && (
        row.prev_rtt matches Some(p) ==> row.stats.sum_jitter + p <= LONGEST) ==> row.has_room(
            status,
        ))),
{
}

/// With the samples at their limit, a new one takes the place of the oldest.
pub proof fn law_oldest_sample_goes(
    s: PingTargetState,
    ev: PingEvent,
    at: Nanos,
    next: PingTargetState,
)
    requires
        s.after(ev, at, next),
        s.samples@.len() == MAX_SAMPLES,
    ensures
        ev.status matches PingStatus::Reply { rtt, jitter } ==> next.samples@ == s.samples@.skip(
            1,
        ).push(Sample { at, rtt: Some(rtt) }),
        ev.status is Timeout ==> next.samples@ == s.samples@.skip(1).push(Sample { at, rtt: None }),
        MAX_SAMPLES == 7200,
{
    if let PingStatus::Reply { rtt, jitter } = ev.status {
        law_capped(s.samples@, Sample { at, rtt: Some(rtt) }, MAX_SAMPLES as nat);
    }
    if ev.status is Timeout {
        law_capped(s.samples@, Sample { at, rtt: None }, MAX_SAMPLES as nat);
    }
}

/// A log keeps two thousand lines, and a target two hours of samples at one in a
/// second.
pub proof fn law_limits()
    ensures
        MAX_LOG_LINES == 2000,
        MAX_SAMPLES == 2 * 60 * 60,
{
}

} // verus!
