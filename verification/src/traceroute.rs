//! MTR-style trace engine: the path is discovered once with the system
//! traceroute, then every responding hop is probed continuously so that each
//! hop gets live loss and latency statistics.

use crate::csv::{self, csv_line, error_field};
use crate::echo::PingError;
use crate::ip::{self, IpAddr};
use crate::source::SourceConfig;
use crate::text::{self, CharClass};
use crate::units::Nanos;
use crate::util::{self, CommandLine, Os};
use std::collections::BTreeMap;
use vstd::prelude::*;

verus! {

/// One hop of a path.
#[derive(Debug)]
pub struct HopInfo {
    pub hop: u8,
    pub ip: Option<IpAddr>,
    pub hostname: Option<String>,
    pub is_destination: bool,
}

/// What a hop is.
pub struct HopView {
    pub hop: u8,
    pub ip: Option<IpAddr>,
    pub hostname: Option<Seq<char>>,
    pub is_destination: bool,
}

impl DeepView for HopInfo {
    type V = HopView;

    open spec fn deep_view(&self) -> HopView {
        HopView {
            hop: self.hop,
            ip: self.ip,
            hostname: self.hostname.deep_view(),
            is_destination: self.is_destination,
        }
    }
}

/// The result of one probe.
#[derive(Debug)]
pub enum ProbeStatus {
    Reply { rtt: Nanos },
    Timeout,
    Error(String),
}

/// What the trace engine reports.
#[derive(Debug)]
pub enum TraceEvent {
    /// Discovery progress / engine status, shown under the target header.
    Status { target: String, message: String },
    /// Discovered path (sent again when hostnames are resolved).
    Hops { target: String, hops: Vec<HopInfo> },
    /// One probe result for one hop (full details go to the CSV log).
    Sample { target: String, hop: u8, status: ProbeStatus },
}

/// How to trace.
#[derive(Debug)]
pub struct TraceParams {
    pub max_hops: u8,
    pub probe_interval: Nanos,
    pub probe_timeout: Nanos,
    pub resolve_names: bool,
    pub source: SourceConfig,
}

// ------------------------------------------------------------------ Hop lines

/// The first address among the tokens, which may stand in brackets or before
/// a comma.
pub open spec fn first_address(tokens: Seq<Seq<char>>) -> Option<IpAddr>
    decreases tokens.len(),
{
    if tokens.len() == 0 {
        None
    } else {
        match ip::ip_value(text::strip(tokens[0], CharClass::HopMarks)) {
            Some(ip) => Some(ip),
            None => first_address(tokens.skip(1)),
        }
    }
}

/// The hop that a line of the system traceroute is about: the first token is
/// its number, from 1 to 255 and maybe with colons behind it, and the first
/// token after it that is an address is its address.
pub open spec fn hop_of_line(line: Seq<char>) -> Option<(u8, Option<IpAddr>)> {
    let t = text::words(line);
    if t.len() == 0 {
        None
    } else {
        match text::unsigned_value(text::strip_end(t[0], CharClass::Colon)) {
            Some(n) => if 1 <= n <= 255 {
                Some((n as u8, first_address(t.skip(1))))
            } else {
                None
            },
            None => None,
        }
    }
}

/// Parses one traceroute/tracert/tracepath output line into (hop, ip). Works
/// across locales: the hop number is the first token, the hop address is the
/// first token after it that parses as an IP.
pub fn parse_hop_line(line: &str) -> (r: Option<(u8, Option<IpAddr>)>)
    ensures
        r == hop_of_line(line@),
{
    let tokens = text::split_words(line);
    let ghost tv = text::words(line@);
    if tokens.len() == 0 {
        return None;
    }
    assert(tv[0] == tokens@[0]@);
    let number = text::remove_end(tokens[0].as_str(), &CharClass::Colon);
    let hop: u8 = match text::parse_u8(number.as_str()) {
        Some(n) => n,
        None => {
            return None;
        },
    };
    if hop == 0 {
        return None;
    }
    let ghost rest = tv.skip(1);
    let mut i: usize = 1;
    assert(rest.skip(0) =~= rest);
    while i < tokens.len()
        invariant
            tv == tokens.deep_view(),
            rest == tv.skip(1),
            1 <= i <= tokens@.len(),
            first_address(rest) == first_address(rest.skip(i - 1)),
            hop >= 1,
            tv == text::words(line@),
            text::unsigned_value(text::strip_end(tv[0], CharClass::Colon)) == Some(hop as nat),
        decreases tokens@.len() - i,
    {
        assert(rest.skip(i - 1)[0] == tokens@[i as int]@);
        let t = text::remove_around(tokens[i].as_str(), &CharClass::HopMarks);
        if let Some(address) = ip::parse_ip(t.as_str()) {
            return Some((hop, Some(address)));
        }
        assert(rest.skip(i - 1).skip(1) =~= rest.skip(i as int));
        i += 1;
    }
    assert(rest.skip(i - 1) =~= seq![]);
    Some((hop, None))
}

// ------------------------------------------------------------- Known hops

/// The hops after one more line about `hop`: the first address seen counts.
pub open spec fn with_hop(
    hops: Map<u8, Option<IpAddr>>,
    hop: u8,
    ip: Option<IpAddr>,
) -> Map<u8, Option<IpAddr>> {
    if hops.dom().contains(hop) && hops[hop] is Some {
        hops
    } else {
        hops.insert(hop, ip)
    }
}

/// What is known of a hop.
fn known_hop(hops: &BTreeMap<u8, Option<IpAddr>>, hop: u8) -> (r: Option<Option<IpAddr>>)
    ensures
        r == (if hops@.dom().contains(hop) {
            Some(hops@[hop])
        } else {
            None
        }),
{
    match hops.get(&hop) {
        Some(ip) => Some(*ip),
        None => None,
    }
}

/// Records what a line says about a hop: the first address seen for it is
/// kept.
pub fn record_hop(hops: &mut BTreeMap<u8, Option<IpAddr>>, hop: u8, ip: Option<IpAddr>)
    ensures
        final(hops)@ == with_hop(old(hops)@, hop, ip),
{
    match known_hop(hops, hop) {
        Some(Some(_)) => {},
        _ => {
            hops.insert(hop, ip);
        },
    }
}

/// The known hops with numbers below `n`, in the order of their numbers.
pub open spec fn hops_below(hops: Map<u8, Option<IpAddr>>, n: nat) -> Seq<(u8, Option<IpAddr>)>
    decreases n,
{
    if n == 0 {
        seq![]
    } else {
        let hop = (n - 1) as u8;
        if hops.dom().contains(hop) {
            hops_below(hops, (n - 1) as nat).push((hop, hops[hop]))
        } else {
            hops_below(hops, (n - 1) as nat)
        }
    }
}

/// The known hops, in the order of their numbers.
pub open spec fn listed(hops: Map<u8, Option<IpAddr>>) -> Seq<(u8, Option<IpAddr>)> {
    hops_below(hops, 256)
}

fn list_hops(hops: &BTreeMap<u8, Option<IpAddr>>) -> (r: Vec<(u8, Option<IpAddr>)>)
    ensures
        r@ == listed(hops@),
{
    let mut out: Vec<(u8, Option<IpAddr>)> = Vec::new();
    let mut n: u16 = 0;
    while n < 256
        invariant
            n <= 256,
            out@ == hops_below(hops@, n as nat),
        decreases 256 - n,
    {
        let hop = n as u8;
        if let Some(ip) = known_hop(hops, hop) {
            out.push((hop, ip));
        }
        n += 1;
    }
    out
}

/// Whether the numbers ascend.
pub open spec fn ascending(hops: Seq<(u8, Option<IpAddr>)>) -> bool {
    forall|i: int, j: int| 0 <= i < j < hops.len() ==> (#[trigger] hops[i]).0 < (#[trigger] hops[j]).0
}

/// Every known hop is listed once with what is known of it, in the order of
/// the numbers, and nothing else is.
pub proof fn law_known_hops_are_listed(hops: Map<u8, Option<IpAddr>>)
    ensures
        ascending(listed(hops)),
        forall|hop: u8, ip: Option<IpAddr>| #[trigger]
            listed(hops).contains((hop, ip)) <==> hops.dom().contains(hop) && hops[hop] == ip,
{
    lemma_hops_below(hops, 256);
}

proof fn lemma_hops_below(hops: Map<u8, Option<IpAddr>>, n: nat)
    requires
        n <= 256,
    ensures
        ascending(hops_below(hops, n)),
        forall|i: int|
            0 <= i < hops_below(hops, n).len() ==> (#[trigger] hops_below(hops, n)[i]).0 < n,
        forall|hop: u8, ip: Option<IpAddr>| #[trigger]
            hops_below(hops, n).contains((hop, ip)) <==> hop < n && hops.dom().contains(hop)
                && hops[hop] == ip,
    decreases n,
{
    if n > 0 {
        let k = (n - 1) as nat;
        let before = hops_below(hops, k);
        let all = hops_below(hops, n);
        lemma_hops_below(hops, k);
        let last = (n - 1) as u8;
        if hops.dom().contains(last) {
            assert forall|i: int, j: int| 0 <= i < j < all.len() implies (#[trigger] all[i]).0 < (
            #[trigger] all[j]).0 by {
                assert(all[i] == before[i]);
                if j < before.len() {
                    assert(all[j] == before[j]);
                }
            }
            assert forall|hop: u8, ip: Option<IpAddr>| #[trigger]
                all.contains((hop, ip)) <==> hop < n && hops.dom().contains(hop) && hops[hop]
                    == ip by {
                if all.contains((hop, ip)) {
                    let i = choose|i: int| 0 <= i < all.len() && all[i] == (hop, ip);
                    if i < before.len() {
                        assert(before[i] == (hop, ip));
                        assert(before.contains((hop, ip)));
                    }
                }
                if hop < n && hops.dom().contains(hop) && hops[hop] == ip {
                    if hop < k {
                        assert(before.contains((hop, ip)));
                        let i = choose|i: int| 0 <= i < before.len() && before[i] == (hop, ip);
                        assert(all[i] == (hop, ip));
                    } else {
                        assert(all[before.len() as int] == (hop, ip));
                    }
                }
            }
        }
    }
}

// ----------------------------------------------------------------------- Path

/// The position of the first hop that is the target, or the number of hops.
pub open spec fn destination_position(hops: Seq<(u8, Option<IpAddr>)>, target: IpAddr) -> nat
    decreases hops.len(),
{
    if hops.len() == 0 || hops[0].1 == Some(target) {
        0
    } else {
        1 + destination_position(hops.skip(1), target)
    }
}

/// A discovered hop of the path to the target.
pub open spec fn path_hop(hop: (u8, Option<IpAddr>), target: IpAddr) -> HopView {
    HopView { hop: hop.0, ip: hop.1, hostname: None, is_destination: hop.1 == Some(target) }
}

/// The number of the hop behind the last one.
pub open spec fn next_hop(hops: Seq<(u8, Option<IpAddr>)>) -> u8 {
    if hops.len() == 0 {
        1
    } else if hops.last().0 == 255 {
        255
    } else {
        (hops.last().0 + 1) as u8
    }
}

/// The path to the target: the discovered hops up to the target, or all of
/// them with the target behind them where it was not discovered.
pub open spec fn path_of(hops: Seq<(u8, Option<IpAddr>)>, target: IpAddr) -> Seq<HopView> {
    let p = destination_position(hops, target);
    if p < hops.len() {
        Seq::new(p + 1, |i: int| path_hop(hops[i], target))
    } else {
        Seq::new(hops.len(), |i: int| path_hop(hops[i], target)).push(
            HopView {
                hop: next_hop(hops),
                ip: Some(target),
                hostname: None,
                is_destination: true,
            },
        )
    }
}

proof fn lemma_destination_position(hops: Seq<(u8, Option<IpAddr>)>, target: IpAddr)
    ensures
        destination_position(hops, target) <= hops.len(),
        destination_position(hops, target) < hops.len() ==> hops[destination_position(
            hops,
            target,
        ) as int].1 == Some(target),
        forall|i: int|
            0 <= i < destination_position(hops, target) ==> (#[trigger] hops[i]).1 != Some(target),
    decreases hops.len(),
{
    if hops.len() > 0 && hops[0].1 != Some(target) {
        lemma_destination_position(hops.skip(1), target);
        assert forall|i: int| 0 <= i < destination_position(hops, target) implies (
        #[trigger] hops[i]).1 != Some(target) by {
            if i > 0 {
                assert(hops.skip(1)[i - 1] == hops[i]);
            }
        }
    }
}

/// Whether two addresses are the same.
fn is_target(ip: Option<IpAddr>, target: IpAddr) -> (r: bool)
    ensures
        r == (ip == Some(target)),
{
    match ip {
        Some(a) => a == target,
        None => false,
    }
}

/// Turns the discovered hops into an ordered list, making sure the final
/// destination is always present (and probed) even when discovery was
/// truncated by the hop limit or by a non-responding tail. What was discovered
/// after the destination is dropped.
pub fn build_hop_infos(known: &BTreeMap<u8, Option<IpAddr>>, target_ip: IpAddr) -> (r: Vec<
    HopInfo,
>)
    ensures
        r.deep_view() == path_of(listed(known@), target_ip),
{
    let list = list_hops(known);
    let ghost hops = list@;
    let ghost p = destination_position(hops, target_ip);
    let mut infos: Vec<HopInfo> = Vec::new();
    let mut i: usize = 0;
    proof {
        lemma_destination_position(hops, target_ip);
    }
    while i < list.len()
        invariant
            hops == list@,
            hops == listed(known@),
            p == destination_position(hops, target_ip),
            p <= hops.len(),
            p < hops.len() ==> hops[p as int].1 == Some(target_ip),
            forall|j: int| 0 <= j < p ==> (#[trigger] hops[j]).1 != Some(target_ip),
            i <= p,
            infos@.len() == i,
            forall|j: int|
                0 <= j < i ==> (#[trigger] infos@[j]).deep_view() == path_hop(hops[j], target_ip),
        decreases list@.len() - i,
    {
        let (hop, ip) = list[i];
        let is_destination = is_target(ip, target_ip);
        infos.push(HopInfo { hop, ip, hostname: None, is_destination });
        if is_destination {
            assert(i == p);
            assert(infos.deep_view() =~= path_of(hops, target_ip));
            return infos;
        }
        i += 1;
    }
    let next: u8 = if list.len() == 0 {
        1
    } else {
        let last = list[list.len() - 1].0;
        if last == 255 {
            255
        } else {
            last + 1
        }
    };
    infos.push(
        HopInfo { hop: next, ip: Some(target_ip), hostname: None, is_destination: true },
    );
    assert(infos.deep_view() =~= path_of(hops, target_ip));
    infos
}

/// The destination is always on the path: it is the last hop, and no other hop
/// is the destination.
pub proof fn law_path_ends_at_destination(hops: Seq<(u8, Option<IpAddr>)>, target: IpAddr)
    ensures
        path_of(hops, target).len() > 0,
        forall|i: int|
            0 <= i < path_of(hops, target).len() ==> {
                let hop = #[trigger] path_of(hops, target)[i];
                let last = i == path_of(hops, target).len() - 1;
                hop.is_destination == last && (hop.ip == Some(target)) == last
            },
{
    lemma_destination_position(hops, target);
}

/// The hops of a path have ascending numbers, unless the path had to be
/// completed behind hop 255.
pub proof fn law_path_ascends(hops: Seq<(u8, Option<IpAddr>)>, target: IpAddr)
    requires
        ascending(hops),
        hops.len() > 0 && hops.last().0 == 255 ==> destination_position(hops, target)
            < hops.len(),
    ensures
        forall|i: int, j: int|
            0 <= i < j < path_of(hops, target).len() ==> (#[trigger] path_of(hops, target)[i]).hop
                < (#[trigger] path_of(hops, target)[j]).hop,
{
    lemma_destination_position(hops, target);
    let path = path_of(hops, target);
    assert forall|i: int, j: int| 0 <= i < j < path.len() implies (#[trigger] path[i]).hop < (
    #[trigger] path[j]).hop by {
        if j < hops.len() {
            assert(hops[i].0 < hops[j].0);
        } else if i < hops.len() - 1 {
            assert(hops[i].0 < hops[hops.len() - 1].0);
        }
    }
}

/// The address of a hop that is known stays what it is, whatever later lines
/// say about it.
pub proof fn law_first_address_is_kept(
    hops: Map<u8, Option<IpAddr>>,
    known: u8,
    hop: u8,
    ip: Option<IpAddr>,
)
    requires
        hops.dom().contains(known),
        hops[known] is Some,
    ensures
        with_hop(hops, hop, ip).dom().contains(known),
        with_hop(hops, hop, ip)[known] == hops[known],
{
}

// ------------------------------------------------------------------ Discovery

/// The discovery of the path to one target.
#[derive(Debug)]
pub struct Discovery {
    pub hops: BTreeMap<u8, Option<IpAddr>>,
    pub target_ip: IpAddr,
}

/// The hops after one more line of the system traceroute.
pub open spec fn after_line(
    hops: Map<u8, Option<IpAddr>>,
    line: Seq<char>,
) -> Map<u8, Option<IpAddr>> {
    match hop_of_line(line) {
        Some((hop, ip)) => with_hop(hops, hop, ip),
        None => hops,
    }
}

/// The hops that the lines of the system traceroute tell of.
pub open spec fn discovered(lines: Seq<Seq<char>>) -> Map<u8, Option<IpAddr>>
    decreases lines.len(),
{
    if lines.len() == 0 {
        Map::empty()
    } else {
        after_line(discovered(lines.drop_last()), lines.last())
    }
}

impl Discovery {
    /// The start of a discovery.
    pub fn new(target_ip: IpAddr) -> (r: Self)
        ensures
            r.target_ip == target_ip,
            r.hops@ == discovered(seq![]),
    {
        Discovery { hops: BTreeMap::new(), target_ip }
    }

    /// Takes a line of the system traceroute; the path to report where the line
    /// is about a hop.
    pub fn on_line(&mut self, line: &str) -> (r: Option<Vec<HopInfo>>)
        ensures
            final(self).target_ip == old(self).target_ip,
            final(self).hops@ == after_line(old(self).hops@, line@),
            match r {
                Some(path) => hop_of_line(line@) is Some && path.deep_view() == path_of(
                    listed(final(self).hops@),
                    final(self).target_ip,
                ),
                None => hop_of_line(line@) is None,
            },
    {
        match parse_hop_line(line) {
            Some((hop, ip)) => {
                record_hop(&mut self.hops, hop, ip);
                Some(build_hop_infos(&self.hops, self.target_ip))
            },
            None => None,
        }
    }
}

/// A discovery that has taken some lines and then takes one more knows what
/// all of these lines tell.
pub proof fn law_discovery_accumulates(lines: Seq<Seq<char>>, line: Seq<char>)
    ensures
        after_line(discovered(lines), line) == discovered(lines.push(line)),
{
    assert(lines.push(line).drop_last() =~= lines);
}

/// The hostname to show for a hop: the one found, unless it is the address
/// itself.
pub fn hop_hostname(found: &Option<String>, ip_text: &str) -> (r: Option<String>)
    ensures
        r.deep_view() == (match found.deep_view() {
            Some(name) => if name == ip_text@ {
                None
            } else {
                Some(name)
            },
            None => None,
        }),
{
    match found {
        Some(name) => if text::same(name.as_str(), ip_text) {
            None
        } else {
            Some(name.clone())
        },
        None => None,
    }
}

/// A hop with the hostname that was found for its address; a silent hop has
/// none.
pub fn name_hop(info: HopInfo, found: &Option<String>, ip_text: &str) -> (r: HopInfo)
    ensures
        r.hop == info.hop && r.ip == info.ip && r.is_destination == info.is_destination,
        info.ip is None ==> r.hostname == info.hostname,
        info.ip is Some ==> r.hostname.deep_view() == (match found.deep_view() {
            Some(name) => if name == ip_text@ {
                None
            } else {
                Some(name)
            },
            None => None,
        }),
{
    let hostname = if info.ip.is_some() {
        hop_hostname(found, ip_text)
    } else {
        info.hostname
    };
    HopInfo { hop: info.hop, ip: info.ip, hostname, is_destination: info.is_destination }
}

/// What comes after the discovery of a path.
#[derive(Debug)]
pub enum AfterDiscovery {
    /// The session was stopped meanwhile: nothing more.
    Stopped,
    /// The hostnames of the hops are looked up, then the hops are probed.
    NameHops(Vec<HopInfo>),
    /// The hops are probed.
    Monitor(Vec<HopInfo>),
}

/// Decides what comes after the discovery of a path.
pub fn after_discovery(discovery: &Discovery, stopped: bool, resolve_names: bool) -> (r:
    AfterDiscovery)
    ensures
        stopped <==> r is Stopped,
        !stopped && resolve_names ==> (r matches AfterDiscovery::NameHops(infos)
            && infos.deep_view() == path_of(listed(discovery.hops@), discovery.target_ip)),
        !stopped && !resolve_names ==> (r matches AfterDiscovery::Monitor(infos)
            && infos.deep_view() == path_of(listed(discovery.hops@), discovery.target_ip)),
{
    if stopped {
        AfterDiscovery::Stopped
    } else {
        let infos = build_hop_infos(&discovery.hops, discovery.target_ip);
        if resolve_names {
            AfterDiscovery::NameHops(infos)
        } else {
            AfterDiscovery::Monitor(infos)
        }
    }
}

/// The hops that can be probed: silent ones cannot.
pub open spec fn probed(path: Seq<HopView>) -> Seq<(u8, IpAddr)>
    decreases path.len(),
{
    if path.len() == 0 {
        seq![]
    } else {
        match path.last().ip {
            Some(ip) => probed(path.drop_last()).push((path.last().hop, ip)),
            None => probed(path.drop_last()),
        }
    }
}

/// The hops to probe, with their addresses.
pub fn probed_hops(infos: &Vec<HopInfo>) -> (r: Vec<(u8, IpAddr)>)
    ensures
        r@ == probed(infos.deep_view()),
{
    let ghost path = infos.deep_view();
    let mut out: Vec<(u8, IpAddr)> = Vec::new();
    let mut i: usize = 0;
    assert(path.take(0) =~= seq![]);
    while i < infos.len()
        invariant
            path == infos.deep_view(),
            i <= infos@.len(),
            out@ == probed(path.take(i as int)),
        decreases infos@.len() - i,
    {
        assert(path.take(i + 1).drop_last() =~= path.take(i as int));
        assert(path.take(i + 1).last() == infos@[i as int].deep_view());
        if let Some(ip) = infos[i].ip {
            out.push((infos[i].hop, ip));
        }
        i += 1;
    }
    assert(path.take(i as int) =~= path);
    out
}

/// The destination is always probed, whatever was discovered.
pub proof fn law_destination_is_probed(hops: Seq<(u8, Option<IpAddr>)>, target: IpAddr)
    ensures
        probed(path_of(hops, target)).len() > 0,
        probed(path_of(hops, target)).last() == (path_of(hops, target).last().hop, target),
{
    law_path_ends_at_destination(hops, target);
    let path = path_of(hops, target);
    assert(path[path.len() - 1].ip == Some(target));
}

// ------------------------------------------------------------------- Commands

/// The options that name the source of the probes.
pub open spec fn source_options(
    source_ip: Option<Seq<char>>,
    iface: Option<Seq<char>>,
) -> Seq<Seq<char>> {
    (match source_ip {
        Some(ip) => seq!["-s"@, ip],
        None => seq![],
    }) + (match iface {
        Some(name) => seq!["-i"@, name],
        None => seq![],
    })
}

/// The commands that discover the path, in the order in which to try them.
pub open spec fn traceroute_words(
    os: Os,
    target: Seq<char>,
    max_hops: u8,
    source_ip: Option<Seq<char>>,
    iface: Option<Seq<char>>,
) -> Seq<util::CommandWords> {
    let hops = text::decimal_text(max_hops as nat);
    match os {
        Os::Windows => seq![
            util::words_of("tracert"@, seq!["-d"@, "-h"@, hops, "-w"@, "1000"@, target]),
        ],
        _ => seq![
            util::words_of(
                "traceroute"@,
                seq!["-n"@, "-m"@, hops, "-w"@, "2"@] + source_options(source_ip, iface) + seq![
                    target,
                ],
            ),
            util::words_of("tracepath"@, seq!["-n"@, "-m"@, hops, target]),
        ],
    }
}

/// The commands that discover the path, in the order in which to try them:
/// `tracepath` is the fallback when `traceroute` is not installed. The source
/// of the probes can be passed to `traceroute` only.
pub fn traceroute_commands(
    os: Os,
    target: &str,
    max_hops: u8,
    source_ip: &Option<String>,
    iface: &Option<String>,
) -> (r: Vec<CommandLine>)
    ensures
        r.deep_view() == traceroute_words(
            os,
            target@,
            max_hops,
            source_ip.deep_view(),
            iface.deep_view(),
        ),
{
    let hops = text::decimal(max_hops as u128);
    let ghost expected = traceroute_words(
        os,
        target@,
        max_hops,
        source_ip.deep_view(),
        iface.deep_view(),
    );
    if os == Os::Windows {
        let args = vec![
            "-d".to_owned(),
            "-h".to_owned(),
            hops,
            "-w".to_owned(),
            "1000".to_owned(),
            target.to_owned(),
        ];
        assert(args.deep_view() =~= expected[0].args);
        let r = vec![CommandLine { program: "tracert".to_owned(), args }];
        assert(r.deep_view() =~= expected);
        r
    } else {
        let mut args = vec![
            "-n".to_owned(),
            "-m".to_owned(),
            hops.clone(),
            "-w".to_owned(),
            "2".to_owned(),
        ];
        if let Some(ip) = source_ip {
            args.push("-s".to_owned());
            args.push(ip.clone());
        }
        if let Some(name) = iface {
            args.push("-i".to_owned());
            args.push(name.clone());
        }
        args.push(target.to_owned());
        assert(args.deep_view() =~= expected[0].args);
        let fallback = vec!["-n".to_owned(), "-m".to_owned(), hops, target.to_owned()];
        assert(fallback.deep_view() =~= expected[1].args);
        let r = vec![
            CommandLine { program: "traceroute".to_owned(), args },
            CommandLine { program: "tracepath".to_owned(), args: fallback },
        ];
        assert(r.deep_view() =~= expected);
        r
    }
}

/// What is known of the last attempt to launch a command.
pub open spec fn last_failure(failures: Seq<(String, String)>) -> Seq<char> {
    if failures.len() == 0 {
        seq![]
    } else {
        "`"@ + failures.last().0@ + "`: "@ + failures.last().1@
    }
}

/// The error when none of the commands could be launched; the failures are
/// programs and the reasons why they could not be started.
pub fn spawn_failure(failures: &Vec<(String, String)>) -> (r: String)
    ensures
        r@ == "could not launch a traceroute ("@ + last_failure(failures@)
            + "). On Linux, install the `traceroute` package (e.g. apt install traceroute)."@,
{
    let mut s = "could not launch a traceroute (".to_owned();
    let mut last = String::new();
    if failures.len() > 0 {
        let i = failures.len() - 1;
        last = "`".to_owned();
        last.append(failures[i].0.as_str());
        last.append("`: ");
        last.append(failures[i].1.as_str());
    } else {
        assert(last@ =~= seq![]);
    }
    s.append(last.as_str());
    s.append("). On Linux, install the `traceroute` package (e.g. apt install traceroute).");
    s
}

// -------------------------------------------------------------------- Texts

/// The status of a target whose name could not be resolved.
pub fn resolve_error_status(error: &str) -> (r: String)
    ensures
        r@ == "error: "@ + error@,
{
    let mut s = "error: ".to_owned();
    s.append(error);
    s
}

/// The status while the path is being discovered.
pub fn discovering_status(max_hops: u8) -> (r: String)
    ensures
        r@ == "discovering path (max "@ + text::decimal_text(max_hops as nat) + " hops)…"@,
{
    let mut s = "discovering path (max ".to_owned();
    s.append(text::decimal(max_hops as u128).as_str());
    s.append(" hops)…");
    s
}

/// The status while the hostnames of the hops are being looked up.
pub fn naming_status() -> (r: String)
    ensures
        r@ == "resolving hop hostnames…"@,
{
    "resolving hop hostnames…".to_owned()
}

/// The last status of a trace that was stopped.
pub fn stopped_status() -> (r: String)
    ensures
        r@ == "stopped"@,
{
    "stopped".to_owned()
}

/// The status while the hops are being probed; `interval` is the probe
/// interval in seconds, as text.
pub fn monitoring_status(responding: usize, interval: &str) -> (r: String)
    ensures
        r@ == "monitoring "@ + text::decimal_text(responding as nat) + " hop(s) every "@ + interval@
            + " s — silent hops (*) are not probed"@,
{
    let mut s = "monitoring ".to_owned();
    s.append(text::decimal(responding as u128).as_str());
    s.append(" hop(s) every ");
    s.append(interval);
    s.append(" s — silent hops (*) are not probed");
    s
}

/// The names of the discovery logs of the targets: one for each target, and none
/// is shared. The name holds the target, sanitized; where targets are sanitized
/// alike, all but the first are numbered.
pub fn discovery_file_names(stamp: &str, targets: &Vec<String>) -> (r: Vec<String>)
    ensures
        r@.len() == targets@.len(),
        forall|i: int|
            0 <= i < r@.len() ==> (#[trigger] r@[i])@ == util::target_file(
                "discovery_"@,
                stamp@,
                targets.deep_view(),
                i,
                ".log"@,
            ),
        r.deep_view().no_duplicates(),
        forall|i: int|
            0 <= i < r@.len() && util::stands_alone(targets.deep_view(), i) ==> (
            #[trigger] r@[i])@ == "discovery_"@ + stamp@ + "_"@ + util::file_name_text(
                targets@[i]@,
            ) + ".log"@,
{
    util::target_files("discovery_", stamp, targets, ".log")
}

/// The names of the probe logs of the targets: one for each target, and none
/// is shared. The name holds the target, sanitized; where targets are sanitized
/// alike, all but the first are numbered.
pub fn probe_file_names(stamp: &str, targets: &Vec<String>) -> (r: Vec<String>)
    ensures
        r@.len() == targets@.len(),
        forall|i: int|
            0 <= i < r@.len() ==> (#[trigger] r@[i])@ == util::target_file(
                "mtr_"@,
                stamp@,
                targets.deep_view(),
                i,
                ".csv"@,
            ),
        r.deep_view().no_duplicates(),
        forall|i: int|
            0 <= i < r@.len() && util::stands_alone(targets.deep_view(), i) ==> (
            #[trigger] r@[i])@ == "mtr_"@ + stamp@ + "_"@ + util::file_name_text(
                targets@[i]@,
            ) + ".csv"@,
{
    util::target_files("mtr_", stamp, targets, ".csv")
}

/// No discovery log has the name of a probe log.
pub proof fn law_trace_logs_are_distinct(
    stamp: Seq<char>,
    targets: Seq<Seq<char>>,
    i: int,
    j: int,
)
    ensures
        util::target_file("discovery_"@, stamp, targets, i, ".log"@) != util::target_file(
            "mtr_"@,
            stamp,
            targets,
            j,
            ".csv"@,
        ),
{
    reveal_strlit("discovery_");
    reveal_strlit("mtr_");
    assert(util::target_file("discovery_"@, stamp, targets, i, ".log"@)[0] == 'd');
    assert(util::target_file("mtr_"@, stamp, targets, j, ".csv"@)[0] == 'm');
}

/// A line of the discovery log.
pub fn discovery_log_line(now: &str, line: &str) -> (r: String)
    ensures
        r@ == "["@ + now@ + "] "@ + line@,
{
    let mut s = "[".to_owned();
    s.append(now);
    s.append("] ");
    s.append(line);
    s
}

/// A line of the discovery log for a line of the error output; blank lines
/// are not logged.
pub fn stderr_log_line(now: &str, line: &str) -> (r: Option<String>)
    ensures
        r.deep_view() == (if text::trimmed(line@).len() == 0 {
            None
        } else {
            Some("["@ + now@ + "] [stderr] "@ + line@)
        }),
{
    if text::is_blank(line) {
        None
    } else {
        let mut s = "[".to_owned();
        s.append(now);
        s.append("] [stderr] ");
        s.append(line);
        Some(s)
    }
}

// -------------------------------------------------------------------- Probing

/// The sequence number of a probe on the wire: its low 16 bits.
pub fn wire_seq(seq: u64) -> (r: u16)
    ensures
        r == seq % 0x1_0000,
{
    (seq % 0x1_0000) as u16
}

/// The continuous probing of one hop: the number of the last probe.
#[derive(Debug)]
pub struct HopProber {
    pub seq: u64,
}

impl HopProber {
    /// No probe was sent yet.
    pub fn new() -> (r: Self)
        ensures
            r.seq == 0,
    {
        HopProber { seq: 0 }
    }

    /// Starts the next probe; its number.
    pub fn next_seq(&mut self) -> (r: u64)
        requires
            old(self).seq < u64::MAX,
        ensures
            r == old(self).seq + 1,
            final(self).seq == r,
    {
        self.seq = self.seq + 1;
        self.seq
    }
}

/// The result of a probe.
pub fn probe_status(result: Result<Nanos, PingError>) -> (r: ProbeStatus)
    ensures
        r == (match result {
            Ok(rtt) => ProbeStatus::Reply { rtt },
            Err(PingError::Timeout) => ProbeStatus::Timeout,
            Err(PingError::Other(message)) => ProbeStatus::Error(message),
        }),
{
    match result {
        Ok(rtt) => ProbeStatus::Reply { rtt },
        Err(PingError::Timeout) => ProbeStatus::Timeout,
        Err(PingError::Other(message)) => ProbeStatus::Error(message),
    }
}

/// Whether the probing of a hop ends with this result: an error would only
/// repeat itself.
pub fn is_fatal(status: &ProbeStatus) -> (r: bool)
    ensures
        r == (status is Error),
{
    match status {
        ProbeStatus::Error(_) => true,
        _ => false,
    }
}

/// The fields of the first line of a probe log.
pub open spec fn probe_log_header() -> Seq<Seq<char>> {
    seq!["timestamp"@, "target"@, "hop"@, "ip"@, "seq"@, "status"@, "rtt_ms"@]
}

/// The first line of a probe log.
pub fn probe_header() -> (r: String)
    ensures
        r@ == csv::line_of(probe_log_header()),
{
    let fields = vec![
        "timestamp".to_owned(),
        "target".to_owned(),
        "hop".to_owned(),
        "ip".to_owned(),
        "seq".to_owned(),
        "status".to_owned(),
        "rtt_ms".to_owned(),
    ];
    assert(fields.deep_view() =~= probe_log_header());
    csv_line(&fields)
}

/// The status field of a probe.
pub open spec fn probe_status_field(status: ProbeStatus) -> Seq<char> {
    match status {
        ProbeStatus::Reply { rtt } => "OK"@,
        ProbeStatus::Timeout => "TIMEOUT"@,
        ProbeStatus::Error(message) => csv::error_status(message@),
    }
}

/// The fields of the line of a probe; `rtt_ms` is the round-trip time in
/// milliseconds, which only a reply has.
pub open spec fn probe_fields(
    timestamp: Seq<char>,
    target: Seq<char>,
    hop: u8,
    ip: Seq<char>,
    seq: u64,
    status: ProbeStatus,
    rtt_ms: Seq<char>,
) -> Seq<Seq<char>> {
    seq![
        timestamp,
        target,
        text::decimal_text(hop as nat),
        ip,
        text::decimal_text(seq as nat),
        probe_status_field(status),
        if status is Reply {
            rtt_ms
        } else {
            ""@
        },
    ]
}

/// The line of a probe in the probe log.
pub fn probe_csv_line(
    timestamp: &str,
    target: &str,
    hop: u8,
    ip: &str,
    seq: u64,
    status: &ProbeStatus,
    rtt_ms: &str,
) -> (r: String)
    ensures
        r@ == csv::line_of(
            probe_fields(timestamp@, target@, hop, ip@, seq, *status, rtt_ms@),
        ),
{
    let (field, rtt) = match status {
        ProbeStatus::Reply { rtt: _ } => ("OK".to_owned(), rtt_ms.to_owned()),
        ProbeStatus::Timeout => ("TIMEOUT".to_owned(), "".to_owned()),
        ProbeStatus::Error(message) => (error_field(message.as_str()), "".to_owned()),
    };
    let fields = vec![
        timestamp.to_owned(),
        target.to_owned(),
        text::decimal(hop as u128),
        ip.to_owned(),
        text::decimal(seq as u128),
        field,
        rtt,
    ];
    assert(fields.deep_view() =~= probe_fields(
        timestamp@,
        target@,
        hop,
        ip@,
        seq,
        *status,
        rtt_ms@,
    ));
    csv_line(&fields)
}

/// What is done with the result of a probe.
#[derive(Debug)]
pub struct ProbeReport {
    /// The line for the probe log.
    pub line: String,
    /// The event for the page.
    pub event: TraceEvent,
    /// Whether the hop is not probed any more.
    pub stop: bool,
}

/// What to do with the result of the probe `seq` of a hop; `ip` is the address
/// and `rtt_ms` the round-trip time in milliseconds, as texts.
pub fn probe_report(
    timestamp: &str,
    target: &str,
    hop: u8,
    ip: &str,
    seq: u64,
    status: ProbeStatus,
    rtt_ms: &str,
) -> (r: ProbeReport)
    ensures
        r.line@ == csv::line_of(
            probe_fields(timestamp@, target@, hop, ip@, seq, status, rtt_ms@),
        ),
        r.event matches TraceEvent::Sample { target: t, hop: h, status: s } && t@ == target@ && h
            == hop && s == status,
        r.stop == (status is Error),
{
    let line = probe_csv_line(timestamp, target, hop, ip, seq, &status, rtt_ms);
    let stop = is_fatal(&status);
    ProbeReport {
        line,
        event: TraceEvent::Sample { target: target.to_owned(), hop, status },
        stop,
    }
}

/// Every line of a probe log has the seven fields of its header, whatever a
/// probe ended with.
pub proof fn law_probe_line_fields(
    timestamp: Seq<char>,
    target: Seq<char>,
    hop: u8,
    ip: Seq<char>,
    seq: u64,
    status: ProbeStatus,
    rtt_ms: Seq<char>,
)
    requires
        !timestamp.contains(';') && !target.contains(';') && !ip.contains(';')
            && !rtt_ms.contains(';'),
    ensures
        text::fields(
            csv::line_of(probe_fields(timestamp, target, hop, ip, seq, status, rtt_ms)),
            ';',
        ) == probe_fields(timestamp, target, hop, ip, seq, status, rtt_ms),
        probe_fields(timestamp, target, hop, ip, seq, status, rtt_ms).len()
            == probe_log_header().len(),
{
    let fields = probe_fields(timestamp, target, hop, ip, seq, status, rtt_ms);
    text::lemma_decimal_chars(hop as nat);
    text::lemma_decimal_chars(seq as nat);
    reveal_strlit("OK");
    reveal_strlit("TIMEOUT");
    reveal_strlit("");
    if let ProbeStatus::Error(message) = status {
        csv::law_error_status_is_one_field(message@);
    }
    assert forall|i: int| 0 <= i < fields.len() implies !(#[trigger] fields[i]).contains(';') by {
        assert(i == 0 || i == 1 || i == 2 || i == 3 || i == 4 || i == 5 || i == 6);
    }
    csv::law_line_splits_back(fields);
}

// ------------------------------------------------------------ What a path is

/// The path holds the discovered hops as they were discovered, each with its
/// own number and address and in order, up to the first one that is the target.
/// Where none is, all of them are on the path and the target follows under the
/// next number.
pub proof fn law_path_keeps_discovered_hops(hops: Seq<(u8, Option<IpAddr>)>, target: IpAddr)
    ensures
        forall|i: int|
            0 <= i < path_of(hops, target).len() && i < hops.len() ==> {
                let hop = #[trigger] path_of(hops, target)[i];
                hop.hop == hops[i].0 && hop.ip == hops[i].1 && hop.hostname is None
                    && hop.is_destination == (hops[i].1 == Some(target))
            },
        forall|k: int|
            0 <= k < hops.len() && (#[trigger] hops[k]).1 == Some(target) && (forall|j: int|
                0 <= j < k ==> (#[trigger] hops[j]).1 != Some(target)) ==> path_of(
                hops,
                target,
            ).len() == k + 1,
        (forall|j: int| 0 <= j < hops.len() ==> (#[trigger] hops[j]).1 != Some(target)) ==> {
            let last = path_of(hops, target).last();
            &&& path_of(hops, target).len() == hops.len() + 1
            &&& last.ip == Some(target)
            &&& last.hostname is None
            &&& last.is_destination
            &&& hops.len() == 0 ==> last.hop == 1
            &&& hops.len() > 0 && hops.last().0 < 255 ==> last.hop == hops.last().0 + 1
            &&& hops.len() > 0 && hops.last().0 == 255 ==> last.hop == 255
        },
{
    lemma_destination_position(hops, target);
    let p = destination_position(hops, target) as int;
    assert forall|k: int|
        0 <= k < hops.len() && (#[trigger] hops[k]).1 == Some(target) && (forall|j: int|
            0 <= j < k ==> (#[trigger] hops[j]).1 != Some(target)) implies path_of(
        hops,
        target,
    ).len() == k + 1 by {
        if p < k {
            assert(hops[p].1 == Some(target));
        }
        if k < p {
            assert(hops[k].1 != Some(target));
        }
    }
    if forall|j: int| 0 <= j < hops.len() ==> (#[trigger] hops[j]).1 != Some(target) {
        if p < hops.len() {
            assert(hops[p].1 == Some(target));
        }
    }
}

/// The probed hops are those of the path that have an address, each with its
/// own, in the order of the path.
pub proof fn law_probed_hops_respond(path: Seq<HopView>)
    ensures
        forall|hop: u8, ip: IpAddr| #[trigger]
            probed(path).contains((hop, ip)) <==> exists|i: int|
                0 <= i < path.len() && (#[trigger] path[i]).hop == hop && path[i].ip == Some(ip),
        (forall|i: int| 0 <= i < path.len() ==> (#[trigger] path[i]).ip is Some) ==> {
            &&& probed(path).len() == path.len()
            &&& forall|i: int|
                0 <= i < path.len() ==> #[trigger] probed(path)[i] == (path[i].hop, path[i].ip->0)
        },
    decreases path.len(),
{
    if path.len() > 0 {
        let before = path.drop_last();
        let all = probed(path);
        law_probed_hops_respond(before);
        assert forall|hop: u8, ip: IpAddr| #[trigger]
            all.contains((hop, ip)) <==> exists|i: int|
                0 <= i < path.len() && (#[trigger] path[i]).hop == hop && path[i].ip == Some(
                    ip,
                ) by {
            let old = probed(before);
            if all.contains((hop, ip)) {
                let k = choose|k: int| 0 <= k < all.len() && all[k] == (hop, ip);
                if k < old.len() {
                    assert(old[k] == (hop, ip));
                    assert(old.contains((hop, ip)));
                    let i = choose|i: int|
                        0 <= i < before.len() && (#[trigger] before[i]).hop == hop && before[i].ip
                            == Some(ip);
                    assert(path[i].hop == hop);
                } else {
                    assert(path[path.len() - 1].hop == hop);
                }
            }
            if exists|i: int|
                0 <= i < path.len() && (#[trigger] path[i]).hop == hop && path[i].ip == Some(ip) {
                let i = choose|i: int|
                    0 <= i < path.len() && (#[trigger] path[i]).hop == hop && path[i].ip == Some(
                        ip,
                    );
                if i < before.len() {
                    assert(before[i].hop == hop);
                    assert(old.contains((hop, ip)));
                    let k = choose|k: int| 0 <= k < old.len() && old[k] == (hop, ip);
                    assert(all[k] == (hop, ip));
                } else {
                    assert(all[old.len() as int] == (hop, ip));
                }
            }
        }
        if forall|i: int| 0 <= i < path.len() ==> (#[trigger] path[i]).ip is Some {
            assert forall|i: int| 0 <= i < before.len() implies (#[trigger] before[i]).ip is Some by {
                assert(path[i].ip is Some);
            }
            assert(path[path.len() - 1].ip is Some);
            assert forall|i: int| 0 <= i < path.len() implies #[trigger] all[i] == (
                path[i].hop,
                path[i].ip->0,
            ) by {
                if i < before.len() {
                    assert(all[i] == probed(before)[i]);
                    assert(before[i] == path[i]);
                }
            }
        }
    }
}

/// Every discovered hop that responded, with no hop before it that is the
/// target, is probed under its number at its own address.
pub proof fn law_discovered_hops_are_probed(
    hops: Seq<(u8, Option<IpAddr>)>,
    target: IpAddr,
    i: int,
    ip: IpAddr,
)
    requires
        0 <= i < hops.len(),
        hops[i].1 == Some(ip),
        forall|j: int| 0 <= j < i ==> (#[trigger] hops[j]).1 != Some(target),
    ensures
        probed(path_of(hops, target)).contains((hops[i].0, ip)),
{
    let path = path_of(hops, target);
    lemma_destination_position(hops, target);
    let p = destination_position(hops, target) as int;
    if p < i {
        assert(hops[p].1 == Some(target));
    }
    law_path_keeps_discovered_hops(hops, target);
    law_probed_hops_respond(path);
    assert(path[i].hop == hops[i].0 && path[i].ip == Some(ip));
}

/// A line that begins with a number from 1 to 255, maybe with colons behind it,
/// is about the hop of that number; the address of the hop is the first address
/// among the tokens that follow, and none where there is none.
pub proof fn law_hop_line_is_read(line: Seq<char>, number: Seq<char>, n: nat, colons: Seq<char>)
    requires
        text::words(line).len() > 0,
        text::words(line)[0] == number + colons,
        text::unsigned_value(number) == Some(n),
        forall|i: int| 0 <= i < colons.len() ==> #[trigger] colons[i] == ':',
    ensures
        hop_of_line(line) is Some <==> 1 <= n <= 255,
        hop_of_line(line) matches Some((hop, ip)) ==> {
            &&& hop == n
            &&& forall|k: int|
                1 <= k < text::words(line).len() && ip::ip_value(
                    text::strip(#[trigger] text::words(line)[k], CharClass::HopMarks),
                ) is Some && (forall|j: int|
                    1 <= j < k ==> ip::ip_value(
                        text::strip(#[trigger] text::words(line)[j], CharClass::HopMarks),
                    ) is None) ==> ip == ip::ip_value(
                    text::strip(text::words(line)[k], CharClass::HopMarks),
                )
            &&& (forall|j: int|
                1 <= j < text::words(line).len() ==> ip::ip_value(
                    text::strip(#[trigger] text::words(line)[j], CharClass::HopMarks),
                ) is None) ==> ip is None
        },
{
    let t = text::words(line);
    let d = number;
    assert(d.len() > 0 && d.last() != ':') by {
        let last = d[d.len() - 1];
        if d[0] == '+' {
            assert(d.skip(1)[d.len() - 2] == last);
        }
        assert(text::is_digit(last));
    }
    assert(text::strip_end(d + colons, CharClass::Colon) == d) by {
        let none = Seq::<char>::empty();
        if text::in_class(d[0], CharClass::Colon) {
            assert(d[0] == ':');
            assert(text::is_digit(d[0]));
        }
        text::law_stripped(none, d, colons, CharClass::Colon);
    }
    let rest = t.skip(1);
    if 1 <= n <= 255 {
        let found = first_address(rest);
        assert forall|k: int|
            1 <= k < t.len() && ip::ip_value(
                text::strip(#[trigger] t[k], CharClass::HopMarks),
            ) is Some && (forall|j: int|
                1 <= j < k ==> ip::ip_value(
                    text::strip(#[trigger] t[j], CharClass::HopMarks),
                ) is None) implies found == ip::ip_value(
            text::strip(t[k], CharClass::HopMarks),
        ) by {
            assert(rest[k - 1] == t[k]);
            assert forall|j: int| 0 <= j < k - 1 implies ip::ip_value(
                text::strip(#[trigger] rest[j], CharClass::HopMarks),
            ) is None by {
                assert(rest[j] == t[j + 1]);
            }
            lemma_first_address(rest, k - 1);
        }
        if forall|j: int|
            1 <= j < t.len() ==> ip::ip_value(
                text::strip(#[trigger] t[j], CharClass::HopMarks),
            ) is None {
            assert forall|j: int| 0 <= j < rest.len() implies ip::ip_value(
                text::strip(#[trigger] rest[j], CharClass::HopMarks),
            ) is None by {
                assert(rest[j] == t[j + 1]);
            }
            lemma_first_address(rest, rest.len() as int);
        }
    }
}

proof fn lemma_first_address(tokens: Seq<Seq<char>>, k: int)
    requires
        0 <= k <= tokens.len(),
        forall|j: int|
            0 <= j < k ==> ip::ip_value(
                text::strip(#[trigger] tokens[j], CharClass::HopMarks),
            ) is None,
    ensures
        k == tokens.len() ==> first_address(tokens) is None,
        k < tokens.len() && ip::ip_value(text::strip(tokens[k], CharClass::HopMarks)) is Some
            ==> first_address(tokens) == ip::ip_value(text::strip(tokens[k], CharClass::HopMarks)),
    decreases tokens.len(),
{
    if k > 0 {
        let rest = tokens.skip(1);
        assert(ip::ip_value(text::strip(tokens[0], CharClass::HopMarks)) is None);
        assert forall|j: int| 0 <= j < k - 1 implies ip::ip_value(
            text::strip(#[trigger] rest[j], CharClass::HopMarks),
        ) is None by {
            assert(rest[j] == tokens[j + 1]);
        }
        lemma_first_address(rest, k - 1);
        if k < tokens.len() {
            assert(rest[k - 1] == tokens[k]);
        }
    }
}

/// A line that does not begin with a number is about no hop.
pub proof fn law_other_lines_are_no_hops(line: Seq<char>)
    requires
        text::words(line).len() == 0 || (exists|i: int|
            0 <= i < text::words(line)[0].len() && !('0' <= #[trigger] text::words(line)[0][i]
                <= '9') && text::words(line)[0][i] != ':' && text::words(line)[0][i] != '+'),
    ensures
        hop_of_line(line) is None,
{
    let t = text::words(line);
    if t.len() > 0 {
        let w = t[0];
        let i = choose|i: int|
            0 <= i < w.len() && !('0' <= #[trigger] w[i] <= '9') && w[i] != ':' && w[i] != '+';
        let u = text::strip_end(w, CharClass::Colon);
        text::lemma_stripped_end_keeps(w, CharClass::Colon, i);
        assert(u[i] == w[i]);
        if u[0] == '+' {
            assert(u.skip(1)[i - 1] == w[i]);
        }
    }
}

/// What is known of a hop after a line about it is the first address that a
/// line had for it; other hops stay as they are.
pub proof fn law_line_adds_what_it_says(
    hops: Map<u8, Option<IpAddr>>,
    line: Seq<char>,
    other: u8,
)
    ensures
        hop_of_line(line) is None ==> after_line(hops, line) == hops,
        hop_of_line(line) matches Some((hop, ip)) ==> {
            let next = after_line(hops, line);
            &&& next.dom() == hops.dom().insert(hop)
            &&& next[hop] == (if hops.dom().contains(hop) && hops[hop] is Some {
                hops[hop]
            } else {
                ip
            })
            &&& other != hop && hops.dom().contains(other) ==> next[other] == hops[other]
        },
{
    if let Some((hop, ip)) = hop_of_line(line) {
        assert(after_line(hops, line).dom() =~= hops.dom().insert(hop));
    }
}

/// The commands that discover a path ask for numeric output, the hop limit and
/// the target, which comes last; on Unix the tool of that name comes first, with
/// the source options that were asked for, and its replacement second.
pub proof fn law_traceroute_commands(
    os: Os,
    target: Seq<char>,
    max_hops: u8,
    source_ip: Option<Seq<char>>,
    iface: Option<Seq<char>>,
)
    ensures
        ({
            let all = traceroute_words(os, target, max_hops, source_ip, iface);
            &&& forall|i: int|
                0 <= i < all.len() ==> {
                    let c = #[trigger] all[i];
                    &&& c.args.last() == target
                    &&& c.args.contains(text::decimal_text(max_hops as nat))
                    &&& c.args.contains(
                        if os == Os::Windows {
                            "-d"@
                        } else {
                            "-n"@
                        },
                    )
                }
            &&& os == Os::Windows ==> all.len() == 1 && all[0].program == "tracert"@
                && all[0].args[1] == "-h"@ && all[0].args[2] == text::decimal_text(max_hops as nat)
                && all[0].args[3] == "-w"@ && all[0].args[4] == "1000"@
            &&& os != Os::Windows ==> {
                &&& all.len() == 2
                &&& all[0].program == "traceroute"@
                &&& all[1].program == "tracepath"@
                &&& all[0].args[1] == "-m"@ && all[0].args[2] == text::decimal_text(max_hops as nat)
                &&& all[1].args[1] == "-m"@ && all[1].args[2] == text::decimal_text(max_hops as nat)
                &&& all[1].args.len() == 4
                &&& all[0].args[3] == "-w"@ && all[0].args[4] == "2"@
                &&& source_ip is None && iface is None ==> all[0].args.len() == 6
                &&& source_ip matches Some(ip) ==> all[0].args[5] == "-s"@ && all[0].args[6] == ip
                &&& iface matches Some(name) ==> {
                    let n = all[0].args.len() as int;
                    all[0].args[n - 3] == "-i"@ && all[0].args[n - 2] == name
                }
                &&& all[0].args.len() == 6 + (if source_ip is Some {
                    2int
                } else {
                    0
                }) + (if iface is Some {
                    2int
                } else {
                    0
                })
            }
        }),
{
    let all = traceroute_words(os, target, max_hops, source_ip, iface);
    assert forall|i: int| 0 <= i < all.len() implies {
        let c = #[trigger] all[i];
        &&& c.args.last() == target
        &&& c.args.contains(text::decimal_text(max_hops as nat))
        &&& c.args.contains(
            if os == Os::Windows {
                "-d"@
            } else {
                "-n"@
            },
        )
    } by {
        let c = all[i];
        assert(c.args[2] == text::decimal_text(max_hops as nat));
        assert(c.args[0] == (if os == Os::Windows {
            "-d"@
        } else {
            "-n"@
        }));
    }
}

/// The fields of a probe line are what was logged: time, target, hop, address,
/// sequence number and status, and the round-trip time of a reply only.
pub proof fn law_probe_fields_are_logged(
    timestamp: Seq<char>,
    target: Seq<char>,
    hop: u8,
    ip: Seq<char>,
    seq: u64,
    status: ProbeStatus,
    rtt_ms: Seq<char>,
)
    ensures
        ({
            let f = probe_fields(timestamp, target, hop, ip, seq, status, rtt_ms);
            &&& f.len() == 7
            &&& f[0] == timestamp && f[1] == target && f[3] == ip
            &&& text::unsigned_value(f[2]) == Some(hop as nat)
            &&& text::unsigned_value(f[4]) == Some(seq as nat)
            &&& status is Reply ==> f[5] == "OK"@ && f[6] == rtt_ms
            &&& status is Timeout ==> f[5] == "TIMEOUT"@ && f[6].len() == 0
            &&& status matches ProbeStatus::Error(message) ==> {
                &&& f[6].len() == 0
                &&& f[5].len() == 7 + message@.len()
                &&& f[5].take(7) == "ERROR: "@
                &&& forall|i: int|
                    0 <= i < message@.len() ==> #[trigger] f[5][7 + i] == (if message@[i] == ';' {
                        ','
                    } else {
                        message@[i]
                    })
            }
        }),
{
    reveal_strlit("");
    reveal_strlit("ERROR: ");
    text::law_numerals_are_read(hop as nat);
    text::law_numerals_are_read(seq as nat);
    let f = probe_fields(timestamp, target, hop, ip, seq, status, rtt_ms);
    if let ProbeStatus::Error(message) = status {
        assert(f[5].take(7) =~= "ERROR: "@);
        assert forall|i: int| 0 <= i < message@.len() implies #[trigger] f[5][7 + i] == (
        if message@[i] == ';' {
            ','
        } else {
            message@[i]
        }) by {
            assert(f[5][7 + i] == csv::safe_message(message@)[i]);
        }
    }
}

/// The columns of a probe log.
pub proof fn law_probe_log_columns()
    ensures
        probe_log_header().len() == 7,
        probe_log_header()[0] == "timestamp"@ && probe_log_header()[1] == "target"@,
        probe_log_header()[2] == "hop"@ && probe_log_header()[3] == "ip"@,
        probe_log_header()[4] == "seq"@ && probe_log_header()[5] == "status"@,
        probe_log_header()[6] == "rtt_ms"@,
{
}

/// When no command found a path, the last one that failed is named, with its
/// reason.
pub proof fn law_last_failure_is_told(failures: Seq<(String, String)>)
    ensures
        failures.len() == 0 ==> last_failure(failures).len() == 0,
        failures.len() > 0 ==> last_failure(failures) == "`"@ + failures[failures.len() - 1].0@
            + "`: "@ + failures[failures.len() - 1].1@,
{
}

} // verus!
