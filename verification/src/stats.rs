//! Latency statistics of one probed address.

use crate::units::{Nanos, LONGEST};
use vstd::prelude::*;

verus! {

/// What is known about the probes sent to one address.
#[derive(Debug)]
pub struct Stats {
    pub sent: u64,
    pub received: u64,
    pub last_rtt: Option<Nanos>,
    pub min_rtt: Option<Nanos>,
    pub max_rtt: Option<Nanos>,
    pub sum_rtt: Nanos,
    pub last_jitter: Option<Nanos>,
    pub sum_jitter: Nanos,
    pub jitter_count: u64,
    pub last_status: String,
}

impl Stats {
    /// No more replies than probes, and every figure about the replies fits
    /// their number: the sum lies between the extremes times the count.
    pub open spec fn wf(self) -> bool {
        &&& self.received <= self.sent
        &&& self.sum_rtt <= LONGEST
        &&& self.sum_jitter <= LONGEST
        &&& self.jitter_count <= self.received
        &&& self.jitter_count == 0 ==> self.sum_jitter == 0
        &&& self.received == 0 ==> {
            &&& self.min_rtt is None
            &&& self.max_rtt is None
            &&& self.last_rtt is None
            &&& self.sum_rtt == 0
        }
        &&& self.received > 0 ==> {
            &&& self.min_rtt is Some
            &&& self.max_rtt is Some
            &&& self.last_rtt is Some
            &&& self.min_rtt->0 <= self.last_rtt->0 <= self.max_rtt->0
            &&& self.min_rtt->0 * self.received <= self.sum_rtt
            &&& self.sum_rtt <= self.max_rtt->0 * self.received
        }
    }

    /// Whether there is room for one more reply with these times.
    pub open spec fn has_room(self, rtt: Nanos, jitter: Option<Nanos>) -> bool {
        &&& self.sent < u64::MAX
        &&& self.sum_rtt + rtt <= LONGEST
        &&& jitter matches Some(j) ==> self.sum_jitter + j <= LONGEST
    }

    /// The statistics after a reply.
    pub open spec fn after_reply(self, rtt: Nanos, jitter: Option<Nanos>, next: Self) -> bool {
        &&& next.sent == self.sent + 1
        &&& next.received == self.received + 1
        &&& next.last_rtt == Some(rtt)
        &&& next.min_rtt == Some(
            match self.min_rtt {
                Some(m) => if m <= rtt {
                    m
                } else {
                    rtt
                },
                None => rtt,
            },
        )
        &&& next.max_rtt == Some(
            match self.max_rtt {
                Some(m) => if m >= rtt {
                    m
                } else {
                    rtt
                },
                None => rtt,
            },
        )
        &&& next.sum_rtt == self.sum_rtt + rtt
        &&& next.last_jitter == jitter
        &&& match jitter {
            Some(j) => next.sum_jitter == self.sum_jitter + j && next.jitter_count
                == self.jitter_count + 1,
            None => next.sum_jitter == self.sum_jitter && next.jitter_count == self.jitter_count,
        }
        &&& next.last_status@ == "OK"@
    }

    /// Whether `self` and `next` agree on all that replies decide.
    pub open spec fn same_replies(self, next: Self) -> bool {
        &&& next.received == self.received
        &&& next.last_rtt == self.last_rtt
        &&& next.min_rtt == self.min_rtt
        &&& next.max_rtt == self.max_rtt
        &&& next.sum_rtt == self.sum_rtt
        &&& next.last_jitter == self.last_jitter
        &&& next.sum_jitter == self.sum_jitter
        &&& next.jitter_count == self.jitter_count
    }

    /// Statistics without any probe.
    pub open spec fn is_blank(self) -> bool {
        &&& self.sent == 0
        &&& self.received == 0
        &&& self.last_rtt is None
        &&& self.min_rtt is None
        &&& self.max_rtt is None
        &&& self.sum_rtt == 0
        &&& self.last_jitter is None
        &&& self.sum_jitter == 0
        &&& self.jitter_count == 0
        &&& self.last_status@.len() == 0
    }

    /// Tests whether there is room for one more reply with these times.
    pub fn check_room(&self, rtt: Nanos, jitter: Option<Nanos>) -> (r: bool)
        requires
            self.wf(),
        ensures
            r == self.has_room(rtt, jitter),
    {
        let jitter_fits = match jitter {
            Some(j) => j <= LONGEST - self.sum_jitter,
            None => true,
        };
        self.sent < u64::MAX && rtt <= LONGEST - self.sum_rtt && jitter_fits
    }

    /// Records a reply that took `rtt`.
    pub fn record_ok(&mut self, rtt: Nanos, jitter: Option<Nanos>)
        requires
            old(self).wf(),
            old(self).has_room(rtt, jitter),
        ensures
            final(self).wf(),
            old(self).after_reply(rtt, jitter, *final(self)),
    {
        let ghost before = *self;
        self.sent += 1;
        self.received += 1;
        self.last_rtt = Some(rtt);
        self.sum_rtt += rtt;
        self.min_rtt = Some(
            match self.min_rtt {
                Some(m) => if m <= rtt {
                    m
                } else {
                    rtt
                },
                None => rtt,
            },
        );
        self.max_rtt = Some(
            match self.max_rtt {
                Some(m) => if m >= rtt {
                    m
                } else {
                    rtt
                },
                None => rtt,
            },
        );
        self.last_jitter = jitter;
        if let Some(j) = jitter {
            self.sum_jitter += j;
            self.jitter_count += 1;
        }
        self.last_status = "OK".to_owned();
        proof {
            let n = before.received as int;
            let low = self.min_rtt->0 as int;
            let high = self.max_rtt->0 as int;
            if n == 0 {
                assert(low * 1 == rtt && high * 1 == rtt);
            } else {
                let m = before.min_rtt->0 as int;
                let x = before.max_rtt->0 as int;
                let sum = before.sum_rtt as int;
                assert(low * (n + 1) <= sum + rtt) by (nonlinear_arith)
                    requires
                        low <= m,
                        low <= rtt,
                        n > 0,
                        m * n <= sum,
                ;
                assert(sum + rtt <= high * (n + 1)) by (nonlinear_arith)
                    requires
                        high >= x,
                        high >= rtt,
                        n > 0,
                        sum <= x * n,
                ;
            }
        }
    }

    /// Records a probe that got no reply in time.
    pub fn record_timeout(&mut self)
        requires
            old(self).wf(),
            old(self).sent < u64::MAX,
        ensures
            final(self).wf(),
            final(self).sent == old(self).sent + 1,
            old(self).same_replies(*final(self)),
            final(self).last_status@ == "TIMEOUT"@,
    {
        self.sent += 1;
        self.last_status = "TIMEOUT".to_owned();
    }

    /// Records an error. Whether a probe was sent is for the caller to count.
    pub fn record_error(&mut self, msg: &str)
        ensures
            final(self).sent == old(self).sent,
            old(self).same_replies(*final(self)),
            final(self).last_status@ == "ERROR: "@ + msg@,
    {
        let mut status = "ERROR: ".to_owned();
        status.append(msg);
        self.last_status = status;
    }

    /// The number of probes without a reply.
    pub fn lost(&self) -> (r: u64)
        requires
            self.wf(),
        ensures
            r == self.sent - self.received,
    {
        self.sent - self.received
    }

    /// How much loss there is: more than 5 % is high.
    pub fn loss_level(&self) -> (r: LossLevel)
        requires
            self.wf(),
        ensures
            r == (if (self.sent - self.received) * 100 > 5 * self.sent {
                LossLevel::High
            } else if self.sent > self.received {
                LossLevel::Slight
            } else {
                LossLevel::Lossless
            }),
    {
        let lost: u128 = (self.sent - self.received) as u128;
        if lost * 100 > 5 * (self.sent as u128) {
            LossLevel::High
        } else if lost > 0 {
            LossLevel::Slight
        } else {
            LossLevel::Lossless
        }
    }

    /// The mean round-trip time of the replies, rounded down.
    pub fn avg_rtt(&self) -> (r: Option<Nanos>)
        ensures
            r == self.mean_rtt(),
    {
        if self.received > 0 {
            Some(self.sum_rtt / (self.received as u128))
        } else {
            None
        }
    }

    /// The mean jitter, rounded down.
    pub fn avg_jitter(&self) -> (r: Option<Nanos>)
        ensures
            r == self.mean_jitter(),
    {
        if self.jitter_count > 0 {
            Some(self.sum_jitter / (self.jitter_count as u128))
        } else {
            None
        }
    }

    /// The sum of the round-trip times divided by their number.
    pub open spec fn mean_rtt(self) -> Option<Nanos> {
        if self.received > 0 {
            Some((self.sum_rtt / (self.received as u128)) as Nanos)
        } else {
            None
        }
    }

    /// The sum of the jitters divided by their number.
    pub open spec fn mean_jitter(self) -> Option<Nanos> {
        if self.jitter_count > 0 {
            Some((self.sum_jitter / (self.jitter_count as u128)) as Nanos)
        } else {
            None
        }
    }
}

impl Default for Stats {
    fn default() -> (r: Stats)
        ensures
            r.is_blank(),
            r.wf(),
    {
        Stats {
            sent: 0,
            received: 0,
            last_rtt: None,
            min_rtt: None,
            max_rtt: None,
            sum_rtt: 0,
            last_jitter: None,
            sum_jitter: 0,
            jitter_count: 0,
            last_status: String::new(),
        }
    }
}

/// How much loss there is.
#[derive(Clone, Copy, Debug, PartialEq, Eq, Structural)]
pub enum LossLevel {
    /// No probe was lost.
    Lossless,
    /// Some were lost, but no more than one in twenty.
    Slight,
    /// More than one in twenty was lost.
    High,
}

/// A copy of the statistics.
pub fn clone_stats(s: &Stats) -> (r: Stats)
    ensures
        r == *s,
{
    Stats {
        sent: s.sent,
        received: s.received,
        last_rtt: s.last_rtt,
        min_rtt: s.min_rtt,
        max_rtt: s.max_rtt,
        sum_rtt: s.sum_rtt,
        last_jitter: s.last_jitter,
        sum_jitter: s.sum_jitter,
        jitter_count: s.jitter_count,
        last_status: s.last_status.clone(),
    }
}

/// The jitter of a reply: the difference to the round-trip time before it.
pub open spec fn jitter_of(prev: Option<Nanos>, rtt: Nanos) -> Option<Nanos> {
    match prev {
        Some(p) => Some(
            if rtt > p {
                (rtt - p) as Nanos
            } else {
                (p - rtt) as Nanos
            },
        ),
        None => None,
    }
}

/// Computes the variation between two consecutive round-trip times.
pub fn jitter(prev: Option<Nanos>, rtt: Nanos) -> (r: Option<Nanos>)
    ensures
        r == jitter_of(prev, rtt),
{
    match prev {
        Some(p) => Some(
            if rtt > p {
                rtt - p
            } else {
                p - rtt
            },
        ),
        None => None,
    }
}

/// The mean round-trip time lies between the shortest and the longest.
pub proof fn law_mean_between_extremes(s: Stats)
    requires
        s.wf(),
        s.received > 0,
    ensures
        s.min_rtt->0 <= s.mean_rtt()->0 <= s.max_rtt->0,
{
    let n = s.received as int;
    let sum = s.sum_rtt as int;
    let low = s.min_rtt->0 as int;
    let high = s.max_rtt->0 as int;
    assert(low <= sum / n <= high) by (nonlinear_arith)
        requires
            n > 0,
            low * n <= sum,
            sum <= high * n,
    ;
}

// ------------------------------------------------- What the figures describe

/// The round-trip times of the replies among the results of probes, in order;
/// None stands for a loss.
pub open spec fn replies_in(results: Seq<Option<Nanos>>) -> Seq<Nanos>
    decreases results.len(),
{
    if results.len() == 0 {
        seq![]
    } else {
        match results.last() {
            Some(rtt) => replies_in(results.drop_last()).push(rtt),
            None => replies_in(results.drop_last()),
        }
    }
}

/// The sum of the times.
pub open spec fn total_of(times: Seq<Nanos>) -> nat
    decreases times.len(),
{
    if times.len() == 0 {
        0
    } else {
        total_of(times.drop_last()) + times.last() as nat
    }
}

/// The differences between consecutive times.
pub open spec fn variations(times: Seq<Nanos>) -> Seq<Nanos>
    decreases times.len(),
{
    if times.len() < 2 {
        seq![]
    } else {
        variations(times.drop_last()).push(
            jitter_of(Some(times[times.len() - 2]), times.last())->0,
        )
    }
}

impl Stats {
    /// Whether the figures are those of the given results of probes: how many
    /// there were, how many replies, the last, shortest and longest of their
    /// times, and the sums of the times and of the variations between them.
    pub open spec fn describes(self, results: Seq<Option<Nanos>>) -> bool {
        let times = replies_in(results);
        &&& self.sent == results.len()
        &&& self.received == times.len()
        &&& self.sum_rtt == total_of(times)
        &&& self.sum_jitter == total_of(variations(times))
        &&& self.jitter_count == variations(times).len()
        &&& self.last_rtt == (if times.len() > 0 {
            Some(times.last())
        } else {
            None
        })
        &&& times.len() == 0 ==> self.min_rtt is None && self.max_rtt is None
        &&& times.len() > 0 ==> {
            &&& self.min_rtt is Some && times.contains(self.min_rtt->0)
            &&& self.max_rtt is Some && times.contains(self.max_rtt->0)
            &&& forall|i: int|
                0 <= i < times.len() ==> self.min_rtt->0 <= #[trigger] times[i] <= self.max_rtt->0
        }
    }
}

/// Blank statistics describe a session without probes.
pub proof fn law_blank_describes_nothing(s: Stats)
    requires
        s.is_blank(),
    ensures
        s.describes(seq![]),
{
}

/// Recording a reply, with its difference to the reply before it as jitter,
/// keeps the figures true of the session.
pub proof fn law_reply_is_described(s: Stats, results: Seq<Option<Nanos>>, rtt: Nanos, next: Stats)
    requires
        s.describes(results),
        s.after_reply(rtt, jitter_of(s.last_rtt, rtt), next),
    ensures
        next.describes(results.push(Some(rtt))),
{
    let times = replies_in(results);
    let more = replies_in(results.push(Some(rtt)));
    assert(results.push(Some(rtt)).drop_last() =~= results);
    assert(more == times.push(rtt));
    assert(more.drop_last() =~= times);
    if times.len() > 0 {
        assert(more[more.len() - 2] == times.last());
        let v = jitter_of(Some(times.last()), rtt)->0;
        assert(variations(more) == variations(times).push(v));
        assert(variations(more).drop_last() =~= variations(times));
        let low = choose|i: int| 0 <= i < times.len() && times[i] == s.min_rtt->0;
        let high = choose|i: int| 0 <= i < times.len() && times[i] == s.max_rtt->0;
        assert(more[low] == s.min_rtt->0);
        assert(more[high] == s.max_rtt->0);
    } else {
        assert(variations(times) =~= seq![]);
        assert(variations(more) =~= seq![]);
    }
    assert(more[times.len() as int] == rtt);
    assert forall|i: int| 0 <= i < more.len() implies next.min_rtt->0 <= #[trigger] more[i]
        <= next.max_rtt->0 by {
        if i < times.len() {
            assert(more[i] == times[i]);
        }
    }
}

/// Recording a loss keeps the figures true of the session.
pub proof fn law_loss_is_described(s: Stats, results: Seq<Option<Nanos>>, next: Stats)
    requires
        s.describes(results),
        s.same_replies(next),
        next.sent == s.sent + 1,
    ensures
        next.describes(results.push(None)),
{
    assert(results.push(None).drop_last() =~= results);
}

/// A mean of `n` times with the sum `total` is `m` where `n` times `m` is at
/// most the sum and `n` times the next number is more.
proof fn lemma_mean(total: nat, n: nat, m: nat)
    requires
        n > 0,
        m == total / n,
    ensures
        m * n <= total < (m + 1) * n,
{
    vstd::arithmetic::div_mod::lemma_fundamental_div_mod(total as int, n as int);
    assert(n * m == m * n) by (nonlinear_arith);
    assert((m + 1) * n == m * n + n) by (nonlinear_arith);
}

/// Of statistics that describe a session, the mean round-trip time is the sum
/// of the times of the replies divided by their number and rounded down, and
/// the mean jitter is the sum of the variations between consecutive replies
/// divided by their number and rounded down; there is none without a reply or a
/// variation.
pub proof fn law_means_of_a_session(s: Stats, results: Seq<Option<Nanos>>)
    requires
        s.wf(),
        s.describes(results),
    ensures
        ({
            let times = replies_in(results);
            let n = times.len();
            &&& s.mean_rtt() is Some <==> n > 0
            &&& s.mean_rtt() matches Some(m) ==> m * n <= total_of(times) < (m + 1) * n
        }),
        ({
            let steps = variations(replies_in(results));
            let n = steps.len();
            &&& s.mean_jitter() is Some <==> n > 0
            &&& s.mean_jitter() matches Some(m) ==> m * n <= total_of(steps) < (m + 1) * n
        }),
{
    if s.received > 0 {
        lemma_mean(s.sum_rtt as nat, s.received as nat, (s.sum_rtt / (s.received as u128)) as nat);
    }
    if s.jitter_count > 0 {
        lemma_mean(
            s.sum_jitter as nat,
            s.jitter_count as nat,
            (s.sum_jitter / (s.jitter_count as u128)) as nat,
        );
    }
}

proof fn lemma_total_bounds(times: Seq<Nanos>, low: nat, high: nat)
    requires
        forall|i: int| 0 <= i < times.len() ==> low <= #[trigger] times[i] <= high,
    ensures
        low * times.len() <= total_of(times) <= high * times.len(),
    decreases times.len(),
{
    if times.len() > 0 {
        lemma_total_bounds(times.drop_last(), low, high);
        let n = (times.len() - 1) as nat;
        assert(low <= times[times.len() - 1] <= high);
        assert(low * (n + 1) == low * n + low) by (nonlinear_arith);
        assert(high * (n + 1) == high * n + high) by (nonlinear_arith);
    }
}

/// The mean jitter of a session lies between any bounds that all its variations
/// keep to: it does not grow with the number of replies.
pub proof fn law_mean_jitter_between_bounds(
    s: Stats,
    results: Seq<Option<Nanos>>,
    low: nat,
    high: nat,
)
    requires
        s.wf(),
        s.describes(results),
        s.mean_jitter() is Some,
        forall|i: int|
            0 <= i < variations(replies_in(results)).len() ==> low <= #[trigger] variations(
                replies_in(results),
            )[i] <= high,
    ensures
        low <= s.mean_jitter()->0 <= high,
{
    let steps = variations(replies_in(results));
    let n = steps.len();
    law_means_of_a_session(s, results);
    lemma_total_bounds(steps, low, high);
    let m = s.mean_jitter()->0 as nat;
    assert(low <= m <= high) by (nonlinear_arith)
        requires
            n > 0,
            low * n <= total_of(steps) <= high * n,
            m * n <= total_of(steps) < (m + 1) * n,
    ;
}

/// The variations of a session are the distances between the times of
/// consecutive replies: one fewer than there are replies.
pub proof fn law_variations(times: Seq<Nanos>)
    ensures
        times.len() == 0 ==> variations(times).len() == 0,
        times.len() > 0 ==> variations(times).len() == times.len() - 1,
        forall|i: int|
            0 <= i < variations(times).len() ==> (times[i] + #[trigger] variations(times)[i]
                == times[i + 1] || times[i + 1] + variations(times)[i] == times[i]),
    decreases times.len(),
{
    if times.len() >= 2 {
        let before = times.drop_last();
        law_variations(before);
        assert forall|i: int| 0 <= i < variations(times).len() implies (times[i]
            + #[trigger] variations(times)[i] == times[i + 1] || times[i + 1] + variations(times)[i]
            == times[i]) by {
            if i < variations(before).len() {
                assert(variations(times)[i] == variations(before)[i]);
                assert(before[i] == times[i] && before[i + 1] == times[i + 1]);
            }
        }
    }
}

/// The jitter of a reply is its distance to the time before it, whichever is
/// longer, and the first reply has none.
pub proof fn law_jitter_is_a_distance(a: Nanos, b: Nanos)
    ensures
        jitter_of(None, b) is None,
        jitter_of(Some(a), b) is Some,
        a <= b ==> a + jitter_of(Some(a), b)->0 == b,
        b <= a ==> b + jitter_of(Some(a), b)->0 == a,
        jitter_of(Some(a), b) == jitter_of(Some(b), a),
{
}

/// The replies among the results are those that have a time, in order.
pub proof fn law_replies_in(results: Seq<Option<Nanos>>, rtt: Nanos)
    ensures
        replies_in(results.push(Some(rtt))) == replies_in(results).push(rtt),
        replies_in(results.push(None)) == replies_in(results),
        replies_in(results).len() <= results.len(),
    decreases results.len(),
{
    assert(results.push(Some(rtt)).drop_last() =~= results);
    assert(results.push(None).drop_last() =~= results);
    if results.len() > 0 {
        law_replies_in(results.drop_last(), rtt);
    }
}

/// Blank statistics have counted nothing and know no time.
pub proof fn law_blank(s: Stats)
    requires
        s.is_blank(),
    ensures
        s.sent == 0 && s.received == 0 && s.jitter_count == 0,
        s.sum_rtt == 0 && s.sum_jitter == 0,
        s.last_rtt is None && s.min_rtt is None && s.max_rtt is None && s.last_jitter is None,
        s.last_status@.len() == 0,
        s.mean_rtt() is None && s.mean_jitter() is None,
{
}

/// A reply is counted once, with its time and its jitter, and shortest and
/// longest times only move outwards.
pub proof fn law_reply_is_counted(s: Stats, rtt: Nanos, jitter: Option<Nanos>, next: Stats)
    requires
        s.after_reply(rtt, jitter, next),
    ensures
        next.sent == s.sent + 1 && next.received == s.received + 1,
        next.sum_rtt == s.sum_rtt + rtt,
        next.last_rtt == Some(rtt) && next.last_jitter == jitter,
        next.min_rtt is Some && next.min_rtt->0 <= rtt,
        next.max_rtt is Some && rtt <= next.max_rtt->0,
        s.min_rtt matches Some(m) ==> next.min_rtt->0 <= m && (next.min_rtt->0 == m
            || next.min_rtt->0 == rtt),
        s.max_rtt matches Some(m) ==> next.max_rtt->0 >= m && (next.max_rtt->0 == m
            || next.max_rtt->0 == rtt),
        s.min_rtt is None ==> next.min_rtt == Some(rtt),
        s.max_rtt is None ==> next.max_rtt == Some(rtt),
        jitter matches Some(j) ==> next.sum_jitter == s.sum_jitter + j && next.jitter_count
            == s.jitter_count + 1,
        jitter is None ==> next.sum_jitter == s.sum_jitter && next.jitter_count == s.jitter_count,
        next.last_status@ == "OK"@,
{
}

/// What is no reply leaves everything that was learned of the replies.
pub proof fn law_no_reply_changes_no_time(s: Stats, next: Stats)
    requires
        s.same_replies(next),
    ensures
        next.received == s.received && next.jitter_count == s.jitter_count,
        next.sum_rtt == s.sum_rtt && next.sum_jitter == s.sum_jitter,
        next.last_rtt == s.last_rtt && next.last_jitter == s.last_jitter,
        next.min_rtt == s.min_rtt && next.max_rtt == s.max_rtt,
        next.mean_rtt() == s.mean_rtt() && next.mean_jitter() == s.mean_jitter(),
{
}

} // verus!
