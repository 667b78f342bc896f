//! What the pages show: cell texts, levels, groupings and when to refresh.

use crate::dns::DnsAnswer;
use crate::netconfig::{self, IfaceInfo, RouteEntry};
use crate::text;
use crate::units::{Nanos, MILLISECOND};
use vstd::prelude::*;

verus! {

// ----------------------------------------------------------------- Refreshing

/// How often a page with automatic refresh reads its data again.
pub const AUTO_REFRESH: Nanos = 3_000_000_000;

/// Whether it is time to read the data of a page again: on a page without data
/// at once, and with automatic refresh when three seconds have passed.
pub fn needs_refresh(missing: bool, auto_refresh: bool, elapsed: Nanos) -> (r: bool)
    ensures
        r == (missing || (auto_refresh && elapsed >= AUTO_REFRESH)),
{
    missing || (auto_refresh && elapsed >= AUTO_REFRESH)
}

/// When the window is drawn again without input: every 200 ms while work is
/// going on, every 750 ms with automatic refresh, else not at all.
pub fn repaint_after(working: bool, auto_refresh: bool) -> (r: Option<Nanos>)
    ensures
        r == (if working {
            Some((200 * MILLISECOND) as Nanos)
        } else if auto_refresh {
            Some((750 * MILLISECOND) as Nanos)
        } else {
            None
        }),
{
    if working {
        Some(200 * MILLISECOND)
    } else if auto_refresh {
        Some(750 * MILLISECOND)
    } else {
        None
    }
}

// ---------------------------------------------------------------- Log actions

/// The deletion of log files, which takes a confirmation. Subfolders of the log
/// folder are given by name.
#[derive(Debug)]
pub struct LogActions {
    pub confirm: Option<String>,
    pub message: Option<String>,
}

impl LogActions {
    /// Nothing asked, nothing said.
    pub fn new() -> (r: Self)
        ensures
            r.confirm is None,
            r.message is None,
    {
        LogActions { confirm: None, message: None }
    }

    /// Whether the deletion of the files in `sub` waits for its confirmation.
    pub fn is_asking(&self, sub: &str) -> (r: bool)
        ensures
            r == (self.confirm.deep_view() == Some(sub@)),
    {
        match &self.confirm {
            Some(asked) => text::same(asked.as_str(), sub),
            None => false,
        }
    }

    /// Asks to confirm the deletion of the files in `sub`.
    pub fn ask(&mut self, sub: &str)
        ensures
            final(self).confirm.deep_view() == Some(sub@),
            final(self).message is None,
    {
        self.confirm = Some(sub.to_owned());
        self.message = None;
    }

    /// The deletion was called off.
    pub fn cancel(&mut self)
        ensures
            final(self).confirm is None,
            final(self).message == old(self).message,
    {
        self.confirm = None;
    }

    /// The deletion was confirmed and ended with the given result: the number
    /// of files deleted, or an error.
    pub fn deleted(&mut self, result: &Result<usize, String>)
        ensures
            final(self).confirm is None,
            final(self).message.deep_view() == Some(
                match result {
                    Ok(n) => text::decimal_text(*n as nat) + " log file(s) deleted."@,
                    Err(e) => e@,
                },
            ),
    {
        self.confirm = None;
        self.message = match result {
            Ok(n) => {
                let mut s = text::decimal(*n as u128);
                s.append(" log file(s) deleted.");
                Some(s)
            },
            Err(e) => Some(e.clone()),
        };
    }

    /// The folder of `sub` could not be opened.
    pub fn cannot_open(&mut self, sub: &str, error: &str)
        ensures
            final(self).confirm == old(self).confirm,
            final(self).message.deep_view() == Some("cannot open "@ + sub@ + "/: "@ + error@),
    {
        let mut s = "cannot open ".to_owned();
        s.append(sub);
        s.append("/: ");
        s.append(error);
        self.message = Some(s);
    }

    /// The message to show: none while a confirmation is asked for.
    pub fn shown_message(&self) -> (r: Option<String>)
        ensures
            r.deep_view() == (if self.confirm is Some {
                None
            } else {
                self.message.deep_view()
            }),
    {
        if self.confirm.is_some() {
            None
        } else {
            text::clone_option(&self.message)
        }
    }
}

// ---------------------------------------------------------------------- Cells

/// How a status is shown.
#[derive(Clone, Copy, Debug, PartialEq, Eq, Structural)]
pub enum Level {
    Good,
    Plain,
    Muted,
    Warning,
    Danger,
}

/// How the last status of a target is shown.
pub fn status_level(status: &str) -> (r: Level)
    ensures
        r == (if text::starts_with_text(status@, "ERROR"@) {
            Level::Danger
        } else if status@ == "TIMEOUT"@ {
            Level::Warning
        } else {
            Level::Plain
        }),
{
    if text::starts_with(status, "ERROR") {
        Level::Danger
    } else if text::same(status, "TIMEOUT") {
        Level::Warning
    } else {
        Level::Plain
    }
}

/// How the state of an ARP entry is shown.
pub fn arp_state_level(state: &str) -> (r: Level)
    ensures
        r == (if state@ == "reachable"@ {
            Level::Good
        } else if state@ == "incomplete"@ || state@ == "failed"@ {
            Level::Muted
        } else {
            Level::Warning
        }),
{
    if text::same(state, "reachable") {
        Level::Good
    } else if text::same(state, "incomplete") || text::same(state, "failed") {
        Level::Muted
    } else {
        Level::Warning
    }
}

/// The vendor cell of an ARP entry: the vendor, or a sign that it is being
/// looked up or not known.
pub fn vendor_cell(vendor: Option<&str>, looking_up: bool) -> (r: String)
    ensures
        r@ == (match vendor {
            Some(v) => v@,
            None => if looking_up {
                "…"@
            } else {
                "—"@
            },
        }),
{
    match vendor {
        Some(v) => v.to_owned(),
        None => if looking_up {
            "…".to_owned()
        } else {
            "—".to_owned()
        },
    }
}

/// A text, or a dash where there is none.
pub fn text_or_dash(value: &Option<String>) -> (r: String)
    ensures
        r@ == (match value.deep_view() {
            Some(v) => v,
            None => "—"@,
        }),
{
    match value {
        Some(v) => v.clone(),
        None => "—".to_owned(),
    }
}

/// The host cell of a hop: name and address, or the address, or a star for a
/// silent hop; the destination is marked.
pub open spec fn host_text(
    ip: Option<Seq<char>>,
    hostname: Option<Seq<char>>,
    is_destination: bool,
) -> Seq<char> {
    let host = match ip {
        Some(a) => match hostname {
            Some(name) => name + " ("@ + a + ")"@,
            None => a,
        },
        None => "*"@,
    };
    if is_destination {
        host + "  ⏵ destination"@
    } else {
        host
    }
}

/// The host cell of a hop; `ip` is its address as text.
pub fn host_cell(ip: &Option<String>, hostname: &Option<String>, is_destination: bool) -> (r: String)
    ensures
        r@ == host_text(ip.deep_view(), hostname.deep_view(), is_destination),
{
    let mut s = match ip {
        Some(a) => match hostname {
            Some(name) => {
                let mut t = name.clone();
                t.append(" (");
                t.append(a.as_str());
                t.append(")");
                t
            },
            None => a.clone(),
        },
        None => "*".to_owned(),
    };
    if is_destination {
        s.append("  ⏵ destination");
    }
    s
}

/// The answer cell of a DNS answer: its error, or its records one a line.
pub fn answer_cell(answer: &DnsAnswer) -> (r: String)
    ensures
        r@ == (match answer.error.deep_view() {
            Some(e) => e,
            None => text::joined(answer.records.deep_view(), "\n"@),
        }),
{
    match &answer.error {
        Some(e) => e.clone(),
        None => text::join(&answer.records, "\n"),
    }
}

/// Two decimal digits.
pub open spec fn two_digits(n: nat) -> Seq<char> {
    seq![text::digit_char(n / 10 % 10), text::digit_char(n % 10)]
}

/// A time since the start of a session: minutes and seconds.
pub fn minutes_and_seconds(seconds: u64) -> (r: String)
    ensures
        r@ == text::decimal_text(seconds as nat / 60) + ":"@ + two_digits(seconds as nat % 60),
{
    let mut s = text::decimal((seconds / 60) as u128);
    s.append(":");
    let rest: u64 = seconds % 60;
    let mut tail = text::decimal((rest / 10) as u128);
    tail.append(text::decimal((rest % 10) as u128).as_str());
    assert(tail@ =~= two_digits(seconds as nat % 60));
    s.append(tail.as_str());
    s
}

/// The heading of an interface: its name, and its other name where that
/// differs.
pub fn iface_heading(itf: &IfaceInfo) -> (r: String)
    ensures
        r@ == (match itf.friendly_name.deep_view() {
            Some(f) => if f == itf.name@ {
                itf.name@
            } else {
                itf.name@ + "  ("@ + f + ")"@
            },
            None => itf.name@,
        }),
{
    let mut s = itf.name.clone();
    if let Some(f) = &itf.friendly_name {
        if !text::same(f.as_str(), itf.name.as_str()) {
            s.append("  (");
            s.append(f.as_str());
            s.append(")");
        }
    }
    s
}

/// How the name of an interface is shown: the default one stands out, one that
/// is down is muted.
pub fn iface_level(itf: &IfaceInfo) -> (r: Level)
    ensures
        r == (if itf.is_default {
            Level::Good
        } else if !itf.is_up {
            Level::Muted
        } else {
            Level::Plain
        }),
{
    if itf.is_default {
        Level::Good
    } else if !itf.is_up {
        Level::Muted
    } else {
        Level::Plain
    }
}

// ------------------------------------------------------------------ Groupings

/// The positions at which `flags` has the given value, in order.
pub open spec fn positions(flags: Seq<bool>, value: bool) -> Seq<int>
    decreases flags.len(),
{
    if flags.len() == 0 {
        seq![]
    } else if flags.last() == value {
        positions(flags.drop_last(), value).push(flags.len() - 1)
    } else {
        positions(flags.drop_last(), value)
    }
}

/// Positions as numbers.
pub open spec fn as_ints(v: Seq<usize>) -> Seq<int> {
    Seq::new(v.len(), |i: int| v[i] as int)
}

fn split_positions(flags: &Vec<bool>) -> (r: (Vec<usize>, Vec<usize>))
    ensures
        as_ints(r.0@) == positions(flags@, true),
        as_ints(r.1@) == positions(flags@, false),
{
    let mut yes: Vec<usize> = Vec::new();
    let mut no: Vec<usize> = Vec::new();
    let mut i: usize = 0;
    assert(flags@.take(0) =~= seq![]);
    assert(as_ints(yes@) =~= seq![]);
    assert(as_ints(no@) =~= seq![]);
    while i < flags.len()
        invariant
            i <= flags@.len(),
            as_ints(yes@) == positions(flags@.take(i as int), true),
            as_ints(no@) == positions(flags@.take(i as int), false),
        decreases flags@.len() - i,
    {
        assert(flags@.take(i + 1).drop_last() =~= flags@.take(i as int));
        if flags[i] {
            let ghost before = yes@;
            yes.push(i);
            assert(as_ints(yes@) =~= as_ints(before).push(i as int));
        } else {
            let ghost before = no@;
            no.push(i);
            assert(as_ints(no@) =~= as_ints(before).push(i as int));
        }
        i += 1;
    }
    assert(flags@.take(i as int) =~= flags@);
    (yes, no)
}

/// The positions of the interfaces that are up, and of those that are down.
pub fn split_interfaces(interfaces: &Vec<IfaceInfo>) -> (r: (Vec<usize>, Vec<usize>))
    ensures
        as_ints(r.0@) == positions(
            Seq::new(interfaces@.len(), |i: int| interfaces@[i].is_up),
            true,
        ),
        as_ints(r.1@) == positions(
            Seq::new(interfaces@.len(), |i: int| interfaces@[i].is_up),
            false,
        ),
{
    let mut flags: Vec<bool> = Vec::new();
    let mut i: usize = 0;
    while i < interfaces.len()
        invariant
            i <= interfaces@.len(),
            flags@.len() == i,
            forall|j: int| 0 <= j < i ==> #[trigger] flags@[j] == interfaces@[j].is_up,
        decreases interfaces@.len() - i,
    {
        flags.push(interfaces[i].is_up);
        i += 1;
    }
    assert(flags@ =~= Seq::new(interfaces@.len(), |i: int| interfaces@[i].is_up));
    split_positions(&flags)
}

/// The positions of the IPv6 routes, and of the others.
pub fn split_routes(routes: &Vec<RouteEntry>) -> (r: (Vec<usize>, Vec<usize>))
    ensures
        as_ints(r.0@) == positions(
            Seq::new(
                routes@.len(),
                |i: int|
                    routes@[i].destination@.contains(':') || routes@[i].gateway@.contains(':'),
            ),
            true,
        ),
        as_ints(r.1@) == positions(
            Seq::new(
                routes@.len(),
                |i: int|
                    routes@[i].destination@.contains(':') || routes@[i].gateway@.contains(':'),
            ),
            false,
        ),
{
    let mut flags: Vec<bool> = Vec::new();
    let mut i: usize = 0;
    while i < routes.len()
        invariant
            i <= routes@.len(),
            flags@.len() == i,
            forall|j: int|
                0 <= j < i ==> #[trigger] flags@[j] == (routes@[j].destination@.contains(':')
                    || routes@[j].gateway@.contains(':')),
        decreases routes@.len() - i,
    {
        flags.push(netconfig::is_ipv6_route(&routes[i]));
        i += 1;
    }
    assert(flags@ =~= Seq::new(
        routes@.len(),
        |i: int| routes@[i].destination@.contains(':') || routes@[i].gateway@.contains(':'),
    ));
    split_positions(&flags)
}

/// A grouping shows everything once: a position is in one group or in the other
/// and never in both, and the groups keep the order.
pub proof fn law_grouping(flags: Seq<bool>, value: bool)
    ensures
        forall|i: int| #[trigger]
            positions(flags, value).contains(i) <==> 0 <= i < flags.len() && flags[i] == value,
        forall|i: int, j: int|
            0 <= i < j < positions(flags, value).len() ==> #[trigger] positions(flags, value)[i]
                < #[trigger] positions(flags, value)[j],
    decreases flags.len(),
{
    if flags.len() > 0 {
        let before = flags.drop_last();
        law_grouping(before, value);
        let p = positions(before, value);
        let q = positions(flags, value);
        assert forall|i: int| #[trigger]
            q.contains(i) <==> 0 <= i < flags.len() && flags[i] == value by {
            assert(p.contains(i) <==> 0 <= i < before.len() && before[i] == value);
            if p.contains(i) {
                let k = choose|k: int| 0 <= k < p.len() && p[k] == i;
                assert(q[k] == i);
            }
            if q.contains(i) {
                let k = choose|k: int| 0 <= k < q.len() && q[k] == i;
                if k < p.len() {
                    assert(p[k] == i);
                    assert(p.contains(i));
                }
            }
            if 0 <= i < flags.len() && flags[i] == value {
                if i < before.len() {
                    assert(before[i] == value);
                } else {
                    assert(q[p.len() as int] == i);
                }
            }
        }
        assert forall|i: int, j: int| 0 <= i < j < q.len() implies #[trigger] q[i]
            < #[trigger] q[j] by {
            assert(p[i] == q[i]);
            assert(p.contains(p[i]));
            assert(0 <= p[i] < before.len());
            if j < p.len() {
                assert(p[j] == q[j]);
            }
        }
    }
}

// ------------------------------------------------------------------- Messages

/// The message after an export.
pub open spec fn export_result(done: Seq<char>, result: Result<Seq<char>, Seq<char>>) -> Seq<char> {
    match result {
        Ok(path) => done + path,
        Err(e) => "Export failed: "@ + e,
    }
}

/// The message after the export of the ARP table.
pub fn table_exported(result: &Result<String, String>) -> (r: String)
    ensures
        match result {
            Ok(path) => r@ == export_result("Exported: "@, Ok(path@)),
            Err(e) => r@ == export_result("Exported: "@, Err(e@)),
        },
{
    export_message("Exported: ", result)
}

/// The message after the export of the network report.
pub fn report_exported(result: &Result<String, String>) -> (r: String)
    ensures
        match result {
            Ok(path) => r@ == export_result("Report exported: "@, Ok(path@)),
            Err(e) => r@ == export_result("Report exported: "@, Err(e@)),
        },
{
    export_message("Report exported: ", result)
}

fn export_message(done: &str, result: &Result<String, String>) -> (r: String)
    ensures
        match result {
            Ok(path) => r@ == export_result(done@, Ok(path@)),
            Err(e) => r@ == export_result(done@, Err(e@)),
        },
{
    match result {
        Ok(path) => {
            let mut s = done.to_owned();
            s.append(path.as_str());
            s
        },
        Err(e) => {
            let mut s = "Export failed: ".to_owned();
            s.append(e.as_str());
            s
        },
    }
}

/// A hop is shown by its address, with its name in front where it has one, or by
/// a star where nothing answered; the destination is marked.
pub proof fn law_host_text(ip: Seq<char>, name: Seq<char>)
    ensures
        host_text(Some(ip), None, false) == ip,
        host_text(Some(ip), Some(name), false) == name + " ("@ + ip + ")"@,
        host_text(None, Some(name), false) == "*"@ && host_text(None, None, false) == "*"@,
        host_text(Some(ip), None, true) == ip + "  ⏵ destination"@,
        host_text(Some(ip), Some(name), true) == name + " ("@ + ip + ")"@ + "  ⏵ destination"@,
        host_text(None, Some(name), true) == "*"@ + "  ⏵ destination"@,
        host_text(None, None, true) == "*"@ + "  ⏵ destination"@,
{
}

/// Two digits are the last two of a number.
pub proof fn law_two_digits(n: nat)
    ensures
        two_digits(n).len() == 2,
        text::unsigned_value(two_digits(n)) == Some(n % 100),
{
    let t = two_digits(n);
    let none = Seq::<char>::empty();
    let tens = n / 10 % 10;
    let units = n % 10;
    assert(n % 100 == tens * 10 + units);
    assert(text::is_digit(t[0]) && text::is_digit(t[1]));
    assert(t.drop_last() =~= none.push(t[0]));
    assert(t.drop_last().drop_last() =~= none);
    reveal_with_fuel(text::decimal_value, 3);
}

/// An export is reported by its path, and a failed one by its reason.
pub proof fn law_export_is_reported(done: Seq<char>, path: Seq<char>, e: Seq<char>)
    ensures
        export_result(done, Ok(path)) == done + path,
        export_result(done, Err(e)) == "Export failed: "@ + e,
{
}

/// Pages are read again every three seconds.
pub proof fn law_refresh()
    ensures
        AUTO_REFRESH == 3000 * MILLISECOND,
{
}

} // verus!
