//! The network configuration of the host: interfaces, name servers and
//! routes, and the report on them.

use crate::arp;
use crate::ip::{self, format_ipv4};
use crate::order::{self, stable_sort, Ranked};
use crate::subnets;
use crate::text;
use crate::util::{self, Captured, CommandLine, ExportFile, Os};
use vstd::prelude::*;

verus! {

/// One interface of the host, as the report shows it.
#[derive(Debug)]
pub struct IfaceInfo {
    pub name: String,
    pub friendly_name: Option<String>,
    pub mac: Option<String>,
    pub ipv4: Vec<String>,
    pub ipv6: Vec<String>,
    pub gateway: Option<String>,
    pub is_up: bool,
    pub is_default: bool,
    pub if_type: String,
    pub dns: Vec<String>,
}

/// The texts of an interface.
#[verifier::ext_equal]
pub struct IfaceRow {
    pub name: Seq<char>,
    pub friendly_name: Option<Seq<char>>,
    pub mac: Option<Seq<char>>,
    pub ipv4: Seq<Seq<char>>,
    pub ipv6: Seq<Seq<char>>,
    pub gateway: Option<Seq<char>>,
    pub is_up: bool,
    pub is_default: bool,
    pub if_type: Seq<char>,
    pub dns: Seq<Seq<char>>,
}

impl DeepView for IfaceInfo {
    type V = IfaceRow;

    open spec fn deep_view(&self) -> IfaceRow {
        IfaceRow {
            name: self.name@,
            friendly_name: self.friendly_name.deep_view(),
            mac: self.mac.deep_view(),
            ipv4: self.ipv4.deep_view(),
            ipv6: self.ipv6.deep_view(),
            gateway: self.gateway.deep_view(),
            is_up: self.is_up,
            is_default: self.is_default,
            if_type: self.if_type@,
            dns: self.dns.deep_view(),
        }
    }
}

/// One route of the routing table.
#[derive(Debug)]
pub struct RouteEntry {
    pub destination: String,
    pub gateway: String,
    pub interface: String,
    pub info: String,
}

/// The texts of a route.
#[verifier::ext_equal]
pub struct RouteRow {
    pub destination: Seq<char>,
    pub gateway: Seq<char>,
    pub interface: Seq<char>,
    pub info: Seq<char>,
}

impl DeepView for RouteEntry {
    type V = RouteRow;

    open spec fn deep_view(&self) -> RouteRow {
        RouteRow {
            destination: self.destination@,
            gateway: self.gateway@,
            interface: self.interface@,
            info: self.info@,
        }
    }
}

/// The network configuration of the host.
#[derive(Debug)]
pub struct NetReport {
    pub generated_at: String,
    pub hostname: String,
    pub domain: Option<String>,
    pub dns_servers: Vec<String>,
    pub interfaces: Vec<IfaceInfo>,
    pub routes: Vec<RouteEntry>,
    pub routes_raw: String,
    pub raw_sections: Vec<(String, String)>,
}

// ---------------------------------------------------------------- Interfaces

/// The netmask of a prefix length, as a number; lengths beyond 32 count as 32.
pub open spec fn mask_of(prefix: u8) -> u32 {
    (0x1_0000_0000 - subnets::network_size(
        if prefix <= 32 {
            prefix
        } else {
            32
        },
    )) as u32
}

/// The netmask of a prefix length.
pub fn prefix_to_mask(prefix: u8) -> (r: u32)
    ensures
        r == mask_of(prefix),
{
    let size = subnets::size_of_network(
        if prefix <= 32 {
            prefix
        } else {
            32
        },
    );
    (0x1_0000_0000 - size) as u32
}

/// The gateway of an interface. IPv6 addresses are given as text.
#[derive(Debug)]
pub struct Gateway {
    pub ipv4: Vec<u32>,
    pub ipv6: Vec<String>,
    pub mac: String,
}

/// An interface as the system describes it. IPv4 addresses are numbers; IPv6
/// addresses, name servers and the type are given as text.
#[derive(Debug)]
pub struct RawInterface {
    pub name: String,
    pub friendly_name: Option<String>,
    pub mac: Option<String>,
    pub ipv4: Vec<(u32, u8)>,
    pub ipv6: Vec<(String, u8)>,
    pub gateway: Option<Gateway>,
    pub is_up: bool,
    pub is_default: bool,
    pub if_type: String,
    pub dns: Vec<String>,
}

/// An IPv4 network as text: address, prefix length and mask.
pub open spec fn ipv4_network_text(addr: u32, prefix: u8) -> Seq<char> {
    ip::ipv4_text(addr) + "/"@ + text::decimal_text(prefix as nat) + " (mask "@ + ip::ipv4_text(
        mask_of(prefix),
    ) + ")"@
}

/// An IPv6 network as text: address and prefix length.
pub open spec fn ipv6_network_text(addr: Seq<char>, prefix: u8) -> Seq<char> {
    addr + "/"@ + text::decimal_text(prefix as nat)
}

/// The addresses of a gateway: IPv4 first.
pub open spec fn gateway_addresses(g: Gateway) -> Seq<Seq<char>> {
    Seq::new(g.ipv4@.len(), |i: int| ip::ipv4_text(g.ipv4@[i])) + g.ipv6.deep_view()
}

/// A gateway as text: its addresses and its MAC.
pub open spec fn gateway_text(g: Gateway) -> Seq<char> {
    text::joined(gateway_addresses(g), ", "@) + " (MAC "@ + g.mac@ + ")"@
}

/// What the report shows of an interface.
pub open spec fn iface_row(raw: RawInterface) -> IfaceRow {
    IfaceRow {
        name: raw.name@,
        friendly_name: raw.friendly_name.deep_view(),
        mac: raw.mac.deep_view(),
        ipv4: Seq::new(
            raw.ipv4@.len(),
            |i: int| ipv4_network_text(raw.ipv4@[i].0, raw.ipv4@[i].1),
        ),
        ipv6: Seq::new(
            raw.ipv6@.len(),
            |i: int| ipv6_network_text(raw.ipv6@[i].0@, raw.ipv6@[i].1),
        ),
        gateway: match raw.gateway {
            Some(g) => Some(gateway_text(g)),
            None => None,
        },
        is_up: raw.is_up,
        is_default: raw.is_default,
        if_type: raw.if_type@,
        dns: raw.dns.deep_view(),
    }
}

fn ipv4_network(addr: u32, prefix: u8) -> (r: String)
    ensures
        r@ == ipv4_network_text(addr, prefix),
{
    let mut s = format_ipv4(addr);
    s.append("/");
    s.append(text::decimal(prefix as u128).as_str());
    s.append(" (mask ");
    s.append(format_ipv4(prefix_to_mask(prefix)).as_str());
    s.append(")");
    s
}

fn ipv4_networks(nets: &Vec<(u32, u8)>) -> (r: Vec<String>)
    ensures
        r.deep_view() == Seq::new(
            nets@.len(),
            |i: int| ipv4_network_text(nets@[i].0, nets@[i].1),
        ),
{
    let mut out: Vec<String> = Vec::new();
    let mut i: usize = 0;
    while i < nets.len()
        invariant
            i <= nets@.len(),
            out@.len() == i,
            forall|j: int|
                0 <= j < i ==> (#[trigger] out@[j])@ == ipv4_network_text(nets@[j].0, nets@[j].1),
        decreases nets@.len() - i,
    {
        out.push(ipv4_network(nets[i].0, nets[i].1));
        i += 1;
    }
    assert(out.deep_view() =~= Seq::new(
        nets@.len(),
        |i: int| ipv4_network_text(nets@[i].0, nets@[i].1),
    ));
    out
}

fn ipv6_networks(nets: &Vec<(String, u8)>) -> (r: Vec<String>)
    ensures
        r.deep_view() == Seq::new(
            nets@.len(),
            |i: int| ipv6_network_text(nets@[i].0@, nets@[i].1),
        ),
{
    let mut out: Vec<String> = Vec::new();
    let mut i: usize = 0;
    while i < nets.len()
        invariant
            i <= nets@.len(),
            out@.len() == i,
            forall|j: int|
                0 <= j < i ==> (#[trigger] out@[j])@ == ipv6_network_text(nets@[j].0@, nets@[j].1),
        decreases nets@.len() - i,
    {
        let mut s = nets[i].0.clone();
        s.append("/");
        s.append(text::decimal(nets[i].1 as u128).as_str());
        out.push(s);
        i += 1;
    }
    assert(out.deep_view() =~= Seq::new(
        nets@.len(),
        |i: int| ipv6_network_text(nets@[i].0@, nets@[i].1),
    ));
    out
}

fn describe_gateway(g: &Gateway) -> (r: String)
    ensures
        r@ == gateway_text(*g),
{
    let mut parts: Vec<String> = Vec::new();
    let mut i: usize = 0;
    while i < g.ipv4.len()
        invariant
            i <= g.ipv4@.len(),
            parts@.len() == i,
            forall|j: int| 0 <= j < i ==> (#[trigger] parts@[j])@ == ip::ipv4_text(g.ipv4@[j]),
        decreases g.ipv4@.len() - i,
    {
        parts.push(format_ipv4(g.ipv4[i]));
        i += 1;
    }
    let ghost n = g.ipv4@.len();
    let mut k: usize = 0;
    while k < g.ipv6.len()
        invariant
            k <= g.ipv6@.len(),
            n == g.ipv4@.len(),
            parts@.len() == n + k,
            forall|j: int| 0 <= j < n ==> (#[trigger] parts@[j])@ == ip::ipv4_text(g.ipv4@[j]),
            forall|j: int| n <= j < n + k ==> (#[trigger] parts@[j])@ == g.ipv6@[j - n]@,
        decreases g.ipv6@.len() - k,
    {
        parts.push(g.ipv6[k].clone());
        k += 1;
    }
    assert(parts.deep_view() =~= gateway_addresses(*g));
    let mut s = text::join(&parts, ", ");
    s.append(" (MAC ");
    s.append(g.mac.as_str());
    s.append(")");
    s
}

/// What the report shows of an interface.
pub fn describe_interface(raw: &RawInterface) -> (r: IfaceInfo)
    ensures
        r.deep_view() == iface_row(*raw),
{
    let r = IfaceInfo {
        name: raw.name.clone(),
        friendly_name: text::clone_option(&raw.friendly_name),
        mac: text::clone_option(&raw.mac),
        ipv4: ipv4_networks(&raw.ipv4),
        ipv6: ipv6_networks(&raw.ipv6),
        gateway: match &raw.gateway {
            Some(g) => Some(describe_gateway(g)),
            None => None,
        },
        is_up: raw.is_up,
        is_default: raw.is_default,
        if_type: raw.if_type.clone(),
        dns: text::clone_list(&raw.dns),
    };
    r
}

/// The order of interfaces: default first, then active ones, then by name.
pub open spec fn iface_order() -> spec_fn(IfaceRow, IfaceRow) -> bool {
    |a: IfaceRow, b: IfaceRow|
        if a.is_default != b.is_default {
            a.is_default
        } else if a.is_up != b.is_up {
            a.is_up
        } else {
            order::text_at_most(a.name, b.name)
        }
}

impl Ranked for IfaceInfo {
    open spec fn at_most(self, other: Self) -> bool {
        iface_order()(self.deep_view(), other.deep_view())
    }

    proof fn total(a: Self, b: Self) {
        order::lemma_text_total(a.name@, b.name@);
    }

    proof fn transitive(a: Self, b: Self, c: Self) {
        if order::text_at_most(a.name@, b.name@) && order::text_at_most(b.name@, c.name@) {
            order::lemma_text_transitive(a.name@, b.name@, c.name@);
        }
    }

    fn is_at_most(&self, other: &Self) -> (r: bool) {
        if self.is_default != other.is_default {
            self.is_default
        } else if self.is_up != other.is_up {
            self.is_up
        } else {
            order::is_text_at_most(self.name.as_str(), other.name.as_str())
        }
    }
}

/// The name servers of the interfaces, in order.
pub open spec fn interface_dns(raws: Seq<RawInterface>) -> Seq<Seq<char>>
    decreases raws.len(),
{
    if raws.len() == 0 {
        seq![]
    } else {
        interface_dns(raws.drop_last()) + raws.last().dns.deep_view()
    }
}

fn add_servers(servers: &mut Vec<String>, more: &Vec<String>, Ghost(known): Ghost<Seq<Seq<char>>>)
    requires
        old(servers).deep_view() == text::first_occurrences(known),
    ensures
        final(servers).deep_view() == text::first_occurrences(known + more.deep_view()),
{
    let ghost mv = more.deep_view();
    let mut i: usize = 0;
    assert(known + mv.take(0) =~= known);
    while i < more.len()
        invariant
            mv == more.deep_view(),
            i <= more@.len(),
            servers.deep_view() == text::first_occurrences(known + mv.take(i as int)),
        decreases more@.len() - i,
    {
        assert((known + mv.take(i + 1)).drop_last() =~= known + mv.take(i as int));
        assert((known + mv.take(i + 1)).last() == more@[i as int]@);
        text::push_unique(servers, more[i].clone());
        i += 1;
    }
    assert(mv.take(i as int) =~= mv);
}

/// Collects the host network configuration from what the system reports.
pub fn gather(
    hostname: String,
    now: String,
    raws: &Vec<RawInterface>,
    domain: Option<String>,
    extra_dns: &Vec<String>,
    routes: Vec<RouteEntry>,
    routes_raw: String,
    raw_sections: Vec<(String, String)>,
) -> (r: NetReport)
    ensures
        r.hostname == hostname && r.generated_at == now && r.domain == domain,
        r.routes == routes && r.routes_raw == routes_raw && r.raw_sections == raw_sections,
        order::stable_sorted(
            Seq::new(raws@.len(), |i: int| iface_row(raws@[i])),
            r.interfaces.deep_view(),
            iface_order(),
        ),
        r.dns_servers.deep_view() == text::first_occurrences(
            interface_dns(raws@) + extra_dns.deep_view(),
        ),
{
    let mut interfaces: Vec<IfaceInfo> = Vec::new();
    let mut dns_servers: Vec<String> = Vec::new();
    let mut i: usize = 0;
    assert(raws@.take(0) =~= seq![]);
    assert(dns_servers.deep_view() =~= seq![]);
    while i < raws.len()
        invariant
            i <= raws@.len(),
            interfaces@.len() == i,
            forall|j: int|
                0 <= j < i ==> (#[trigger] interfaces@[j]).deep_view() == iface_row(raws@[j]),
            dns_servers.deep_view() == text::first_occurrences(
                interface_dns(raws@.take(i as int)),
            ),
        decreases raws@.len() - i,
    {
        assert(raws@.take(i + 1).drop_last() =~= raws@.take(i as int));
        add_servers(
            &mut dns_servers,
            &raws[i].dns,
            Ghost(interface_dns(raws@.take(i as int))),
        );
        interfaces.push(describe_interface(&raws[i]));
        i += 1;
    }
    assert(raws@.take(i as int) =~= raws@);
    let ghost before = interfaces;
    let interfaces = stable_sort(interfaces);
    proof {
        let f = |x: IfaceInfo| x.deep_view();
        order::lemma_stable_sorted_map(
            before@,
            interfaces@,
            order::rank::<IfaceInfo>(),
            f,
            iface_order(),
        );
        assert(Seq::new(raws@.len(), |i: int| iface_row(raws@[i])) =~= Seq::new(
            before@.len(),
            |i: int| f(before@[i]),
        ));
        assert(interfaces.deep_view() =~= Seq::new(interfaces@.len(), |i: int| f(interfaces@[i])));
    }
    add_servers(&mut dns_servers, extra_dns, Ghost(interface_dns(raws@)));
    NetReport {
        generated_at: now,
        hostname,
        domain,
        dns_servers,
        interfaces,
        routes,
        routes_raw,
        raw_sections,
    }
}

/// No name server is listed twice, and none that was reported is missing.
pub proof fn law_dns_servers(raws: Seq<RawInterface>, extra: Seq<Seq<char>>)
    ensures
        text::first_occurrences(interface_dns(raws) + extra).no_duplicates(),
        forall|server: Seq<char>| #[trigger]
            text::first_occurrences(interface_dns(raws) + extra).contains(server)
                <==> interface_dns(raws).contains(server) || extra.contains(server),
{
    let all = interface_dns(raws) + extra;
    text::lemma_first_occurrences(all);
    assert forall|server: Seq<char>| #[trigger]
        text::first_occurrences(all).contains(server) <==> interface_dns(raws).contains(server)
            || extra.contains(server) by {
        if interface_dns(raws).contains(server) {
            let i = choose|i: int|
                0 <= i < interface_dns(raws).len() && interface_dns(raws)[i] == server;
            assert(all[i] == server);
        }
        if extra.contains(server) {
            let i = choose|i: int| 0 <= i < extra.len() && extra[i] == server;
            assert(all[interface_dns(raws).len() + i] == server);
        }
        if all.contains(server) {
            let i = choose|i: int| 0 <= i < all.len() && all[i] == server;
            if i >= interface_dns(raws).len() {
                assert(extra[i - interface_dns(raws).len()] == server);
            }
        }
    }
}

// -------------------------------------------------------------------- Routes

/// Helper: the token right after `key` in a whitespace-split line.
pub fn token_after(tokens: &Vec<String>, key: &str) -> (r: Option<String>)
    ensures
        r.deep_view() == text::token_following(tokens.deep_view(), key@),
{
    let ghost tv = tokens.deep_view();
    let mut i: usize = 0;
    while i < tokens.len() && !text::same(tokens[i].as_str(), key)
        invariant
            tv == tokens.deep_view(),
            i <= tokens@.len(),
            forall|j: int| 0 <= j < i ==> #[trigger] tv[j] != key@,
        decreases tokens@.len() - i,
    {
        i += 1;
    }
    proof {
        text::lemma_token_position(tv, key@, i as int);
    }
    if tokens.len() - i > 1 {
        Some(tokens[i + 1].clone())
    } else {
        None
    }
}

/// Whether the lines end inside a table of `netstat -rn`: a heading that
/// begins with "Destination" opens it, a blank line closes it.
pub open spec fn in_bsd_table(lines: Seq<Seq<char>>) -> bool
    decreases lines.len(),
{
    if lines.len() == 0 {
        false
    } else {
        let t = text::words(lines.last());
        if t.len() == 0 {
            false
        } else if t[0] == "Destination"@ {
            true
        } else {
            in_bsd_table(lines.drop_last())
        }
    }
}

/// The routes in the lines of `netstat -rn`: the columns are destination,
/// gateway, flags and interface.
pub open spec fn bsd_routes(lines: Seq<Seq<char>>) -> Seq<RouteRow>
    decreases lines.len(),
{
    if lines.len() == 0 {
        seq![]
    } else {
        let before = lines.drop_last();
        let t = text::words(lines.last());
        if t.len() >= 4 && t[0] != "Destination"@ && in_bsd_table(before) {
            bsd_routes(before).push(
                RouteRow {
                    destination: t[0],
                    gateway: t[1],
                    interface: t[3],
                    info: "flags "@ + t[2],
                },
            )
        } else {
            bsd_routes(before)
        }
    }
}

/// Parses `netstat -rn` (macOS / BSD; also the Linux fallback).
pub fn parse_routes_bsd(raw: &str) -> (r: Vec<RouteEntry>)
    ensures
        r.deep_view() == bsd_routes(text::lines_of(raw@)),
{
    let lines = text::split_lines(raw);
    let ghost lv = text::lines_of(raw@);
    let mut out: Vec<RouteEntry> = Vec::new();
    let mut in_table = false;
    let mut i: usize = 0;
    assert(lv.take(0) =~= seq![]);
    assert(out.deep_view() =~= seq![]);
    while i < lines.len()
        invariant
            lv == lines.deep_view(),
            i <= lines@.len(),
            in_table == in_bsd_table(lv.take(i as int)),
            out.deep_view() == bsd_routes(lv.take(i as int)),
        decreases lines@.len() - i,
    {
        assert(lv.take(i + 1).drop_last() =~= lv.take(i as int));
        assert(lv.take(i + 1).last() == lines@[i as int]@);
        let t = text::split_words(lines[i].as_str());
        let ghost tv = text::words(lines@[i as int]@);
        if t.len() == 0 {
            in_table = false;
        } else {
            assert(tv[0] == t@[0]@);
            if text::same(t[0].as_str(), "Destination") {
                in_table = true;
            } else if in_table && t.len() >= 4 {
                assert(tv[1] == t@[1]@ && tv[2] == t@[2]@ && tv[3] == t@[3]@);
                let mut info = "flags ".to_owned();
                info.append(t[2].as_str());
                let route = RouteEntry {
                    destination: t[0].clone(),
                    gateway: t[1].clone(),
                    interface: t[3].clone(),
                    info,
                };
                let ghost before = out;
                out.push(route);
                proof {
                    text::lemma_pushed_view(before, out, route);
                }
            }
        }
        i += 1;
    }
    assert(lv.take(i as int) =~= lv);
    out
}

/// A keyword of a route with its value, if the route has it.
pub open spec fn keyword_value(t: Seq<Seq<char>>, key: Seq<char>) -> Seq<Seq<char>> {
    match text::token_following(t, key) {
        Some(v) => seq![key + " "@ + v],
        None => seq![],
    }
}

/// The route in a line of `ip route show`; blank lines and those that begin
/// with `#` have none.
pub open spec fn ip_route(line: Seq<char>) -> Option<RouteRow> {
    let t = text::words(line);
    if t.len() == 0 || text::starts_with_text(t[0], "#"@) {
        None
    } else {
        Some(
            RouteRow {
                destination: t[0],
                gateway: arp::token_or(text::token_following(t, "via"@), "on-link"@),
                interface: arp::token_or(text::token_following(t, "dev"@), "?"@),
                info: text::joined(
                    keyword_value(t, "proto"@) + keyword_value(t, "scope"@) + keyword_value(
                        t,
                        "metric"@,
                    ) + keyword_value(t, "src"@),
                    ", "@,
                ),
            },
        )
    }
}

/// The routes in the lines of `ip route show`.
pub open spec fn ip_routes(lines: Seq<Seq<char>>) -> Seq<RouteRow>
    decreases lines.len(),
{
    if lines.len() == 0 {
        seq![]
    } else {
        match ip_route(lines.last()) {
            Some(row) => ip_routes(lines.drop_last()).push(row),
            None => ip_routes(lines.drop_last()),
        }
    }
}

fn push_keyword(info: &mut Vec<String>, t: &Vec<String>, key: &str)
    ensures
        final(info).deep_view() == old(info).deep_view() + keyword_value(t.deep_view(), key@),
{
    let ghost before = *info;
    if let Some(v) = token_after(t, key) {
        let mut s = key.to_owned();
        s.append(" ");
        s.append(v.as_str());
        info.push(s);
        proof {
            text::lemma_pushed_view(before, *info, s);
        }
    }
    assert(info.deep_view() =~= before.deep_view() + keyword_value(t.deep_view(), key@));
}

fn parse_ip_route(line: &str) -> (r: Option<RouteEntry>)
    ensures
        r.deep_view() == ip_route(line@),
{
    let t = text::split_words(line);
    if t.len() == 0 {
        return None;
    }
    assert(t.deep_view()[0] == t@[0]@);
    if text::starts_with(t[0].as_str(), "#") {
        return None;
    }
    let mut info: Vec<String> = Vec::new();
    push_keyword(&mut info, &t, "proto");
    assert(info.deep_view() =~= keyword_value(t.deep_view(), "proto"@));
    push_keyword(&mut info, &t, "scope");
    push_keyword(&mut info, &t, "metric");
    push_keyword(&mut info, &t, "src");
    Some(
        RouteEntry {
            destination: t[0].clone(),
            gateway: match token_after(&t, "via") {
                Some(v) => v,
                None => "on-link".to_owned(),
            },
            interface: match token_after(&t, "dev") {
                Some(v) => v,
                None => "?".to_owned(),
            },
            info: text::join(&info, ", "),
        },
    )
}

/// Parses `ip route show` (Linux).
pub fn parse_routes_iproute(raw: &str) -> (r: Vec<RouteEntry>)
    ensures
        r.deep_view() == ip_routes(text::lines_of(raw@)),
{
    let lines = text::split_lines(raw);
    let ghost lv = text::lines_of(raw@);
    let mut out: Vec<RouteEntry> = Vec::new();
    let mut i: usize = 0;
    assert(lv.take(0) =~= seq![]);
    assert(out.deep_view() =~= seq![]);
    while i < lines.len()
        invariant
            lv == lines.deep_view(),
            i <= lines@.len(),
            out.deep_view() == ip_routes(lv.take(i as int)),
        decreases lines@.len() - i,
    {
        assert(lv.take(i + 1).drop_last() =~= lv.take(i as int));
        assert(lv.take(i + 1).last() == lines@[i as int]@);
        if let Some(route) = parse_ip_route(lines[i].as_str()) {
            let ghost before = out;
            out.push(route);
            proof {
                text::lemma_pushed_view(before, out, route);
            }
        }
        i += 1;
    }
    assert(lv.take(i as int) =~= lv);
    out
}

/// Whether a line ends the active routes of `route print`.
pub open spec fn ends_active(line: Seq<char>) -> bool {
    text::trimmed(line).len() == 0 || text::starts_with_text(text::trimmed(line), "="@)
        || text::starts_with_text(text::trimmed(line), "Persistent"@)
}

/// Whether the lines end inside the active routes of `route print`.
pub open spec fn in_active_routes(lines: Seq<Seq<char>>) -> bool
    decreases lines.len(),
{
    if lines.len() == 0 {
        false
    } else {
        let line = lines.last();
        if text::starts_with_text(text::trimmed(line), "Active Routes:"@) {
            true
        } else if text::starts_with_text(text::trimmed(line), "Network Destination"@) {
            in_active_routes(lines.drop_last())
        } else {
            !ends_active(line) && in_active_routes(lines.drop_last())
        }
    }
}

/// The route in a line among the active routes of `route print`: the columns
/// are destination, mask, gateway, interface and metric.
pub open spec fn windows_route(line: Seq<char>) -> Option<RouteRow> {
    let tl = text::trimmed(line);
    let t = text::words(tl);
    if !text::starts_with_text(tl, "Active Routes:"@) && !text::starts_with_text(
        tl,
        "Network Destination"@,
    ) && !ends_active(line) && t.len() >= 5 && ip::ipv4_value(t[0]) is Some {
        Some(
            RouteRow {
                destination: t[0] + " "@ + t[1],
                gateway: t[2],
                interface: t[3],
                info: "metric "@ + t[4],
            },
        )
    } else {
        None
    }
}

/// The active routes in the lines of `route print`.
pub open spec fn windows_routes(lines: Seq<Seq<char>>) -> Seq<RouteRow>
    decreases lines.len(),
{
    if lines.len() == 0 {
        seq![]
    } else {
        let before = lines.drop_last();
        if in_active_routes(before) && windows_route(lines.last()) is Some {
            windows_routes(before).push(windows_route(lines.last())->0)
        } else {
            windows_routes(before)
        }
    }
}

fn windows_route_of(t: &Vec<String>) -> (r: Option<RouteEntry>)
    ensures
        r.deep_view() == (if t@.len() >= 5 && ip::ipv4_value(t@[0]@) is Some {
            Some(
                RouteRow {
                    destination: t@[0]@ + " "@ + t@[1]@,
                    gateway: t@[2]@,
                    interface: t@[3]@,
                    info: "metric "@ + t@[4]@,
                },
            )
        } else {
            None
        }),
{
    if t.len() >= 5 && ip::parse_ipv4(t[0].as_str()).is_some() {
        let mut destination = t[0].clone();
        destination.append(" ");
        destination.append(t[1].as_str());
        let mut info = "metric ".to_owned();
        info.append(t[4].as_str());
        Some(RouteEntry { destination, gateway: t[2].clone(), interface: t[3].clone(), info })
    } else {
        None
    }
}

/// Parses the "Active Routes" IPv4 table of `route print` (Windows).
pub fn parse_routes_win(raw: &str) -> (r: Vec<RouteEntry>)
    ensures
        r.deep_view() == windows_routes(text::lines_of(raw@)),
{
    let lines = text::split_lines(raw);
    let ghost lv = text::lines_of(raw@);
    let mut out: Vec<RouteEntry> = Vec::new();
    let mut in_active = false;
    let mut i: usize = 0;
    assert(lv.take(0) =~= seq![]);
    assert(out.deep_view() =~= seq![]);
    while i < lines.len()
        invariant
            lv == lines.deep_view(),
            i <= lines@.len(),
            in_active == in_active_routes(lv.take(i as int)),
            out.deep_view() == windows_routes(lv.take(i as int)),
        decreases lines@.len() - i,
    {
        assert(lv.take(i + 1).drop_last() =~= lv.take(i as int));
        assert(lv.take(i + 1).last() == lines@[i as int]@);
        let tl = text::trim(lines[i].as_str());
        let line = tl.as_str();
        if text::starts_with(line, "Active Routes:") {
            in_active = true;
        } else if in_active && !text::starts_with(line, "Network Destination") {
            if text::starts_with(line, "=") || line.is_empty() || text::starts_with(
                line,
                "Persistent",
            ) {
                in_active = false;
            } else {
                let t = text::split_words(line);
                proof {
                    let tv = text::words(line@);
                    assert(forall|k: int| 0 <= k < t@.len() ==> #[trigger] tv[k] == t@[k]@);
                }
                if let Some(route) = windows_route_of(&t) {
                    let ghost before = out;
                    out.push(route);
                    proof {
                        text::lemma_pushed_view(before, out, route);
                    }
                }
            }
        }
        i += 1;
    }
    assert(lv.take(i as int) =~= lv);
    out
}

/// The outputs that the routing table is read from.
#[derive(Clone, Copy, Debug, PartialEq, Eq, Structural)]
pub enum RouteFormat {
    /// `netstat -rn`
    Netstat,
    /// `ip route show` and `ip -6 route show`
    IpRoute,
    /// `route print`
    RoutePrint,
}

/// The format to ask for first.
pub fn route_format(os: Os) -> (r: RouteFormat)
    ensures
        r == (match os {
            Os::Windows => RouteFormat::RoutePrint,
            Os::MacOs => RouteFormat::Netstat,
            Os::Unix => RouteFormat::IpRoute,
        }),
{
    match os {
        Os::Windows => RouteFormat::RoutePrint,
        Os::MacOs => RouteFormat::Netstat,
        Os::Unix => RouteFormat::IpRoute,
    }
}

/// The format to ask for when the output shows that the first command could
/// not be run: `netstat -rn` in place of `ip route show`.
pub fn fallback_route_format(format: RouteFormat, raw: &str) -> (r: Option<RouteFormat>)
    ensures
        r == (if format == RouteFormat::IpRoute && text::starts_with_text(raw@, "Cannot run"@) {
            Some(RouteFormat::Netstat)
        } else {
            None
        }),
{
    if format == RouteFormat::IpRoute && text::starts_with(raw, "Cannot run") {
        Some(RouteFormat::Netstat)
    } else {
        None
    }
}

/// The command that prints the routing table: of `ip`, the IPv4 table.
pub open spec fn route_command_words(format: RouteFormat) -> util::CommandWords {
    match format {
        RouteFormat::Netstat => util::words_of("netstat"@, seq!["-rn"@]),
        RouteFormat::IpRoute => util::words_of("ip"@, seq!["route"@, "show"@]),
        RouteFormat::RoutePrint => util::words_of("route"@, seq!["print"@]),
    }
}

/// The command that prints the routing table: of `ip`, the IPv4 table.
pub fn route_command(format: RouteFormat) -> (r: CommandLine)
    ensures
        r.deep_view() == route_command_words(format),
{
    let r = match format {
        RouteFormat::Netstat => CommandLine {
            program: "netstat".to_owned(),
            args: vec!["-rn".to_owned()],
        },
        RouteFormat::IpRoute => CommandLine {
            program: "ip".to_owned(),
            args: vec!["route".to_owned(), "show".to_owned()],
        },
        RouteFormat::RoutePrint => CommandLine {
            program: "route".to_owned(),
            args: vec!["print".to_owned()],
        },
    };
    assert(r.deep_view().args =~= route_command_words(format).args);
    r
}

/// The further command whose output belongs to the table: for `ip`, the one
/// that prints the IPv6 table.
pub fn second_route_command(format: RouteFormat) -> (r: Option<CommandLine>)
    ensures
        r.deep_view() == (if format == RouteFormat::IpRoute {
            Some(util::words_of("ip"@, seq!["-6"@, "route"@, "show"@]))
        } else {
            None
        }),
{
    if format == RouteFormat::IpRoute {
        let args = vec!["-6".to_owned(), "route".to_owned(), "show".to_owned()];
        assert(args.deep_view() =~= seq!["-6"@, "route"@, "show"@]);
        Some(CommandLine { program: "ip".to_owned(), args })
    } else {
        None
    }
}

/// The raw table: the output of the first command, or both outputs under
/// headings where there are two.
pub open spec fn routes_raw_text(first: Seq<char>, second: Option<Seq<char>>) -> Seq<char> {
    match second {
        None => first,
        Some(v6) => "# IPv4\n"@ + first + "\n# IPv6\n"@ + v6,
    }
}

/// The routing table in the output of the given format.
pub open spec fn routes_of(format: RouteFormat, raw: Seq<char>) -> Seq<RouteRow> {
    match format {
        RouteFormat::Netstat => bsd_routes(text::lines_of(raw)),
        RouteFormat::IpRoute => ip_routes(text::lines_of(raw)),
        RouteFormat::RoutePrint => windows_routes(text::lines_of(raw)),
    }
}

/// The routes that a command printed: one that could not be started, or that
/// printed nothing, has none.
pub open spec fn routes_printed(format: RouteFormat, outcome: Captured) -> Seq<RouteRow> {
    routes_of(format, util::printed(outcome))
}

fn parse_printed(format: RouteFormat, outcome: &Captured) -> (r: Vec<RouteEntry>)
    ensures
        r.deep_view() == routes_printed(format, *outcome),
{
    let text = util::printed_text(outcome);
    let printed = text.as_str();
    match format {
        RouteFormat::Netstat => parse_routes_bsd(printed),
        RouteFormat::IpRoute => parse_routes_iproute(printed),
        RouteFormat::RoutePrint => parse_routes_win(printed),
    }
}

/// Returns the parsed routing table plus the raw command output it came from.
/// The routes are those that the commands printed; the raw output shows all
/// that the user sees of them.
pub fn gather_routes(
    format: RouteFormat,
    first: &Captured,
    second: &Option<Captured>,
) -> (r: (Vec<RouteEntry>, String))
    ensures
        r.1@ == routes_raw_text(
            util::captured_text(route_command_words(format).program, *first),
            match second {
                Some(v6) => Some(util::captured_text(route_command_words(format).program, *v6)),
                None => None,
            },
        ),
        r.0.deep_view() == routes_printed(format, *first) + (match second {
            Some(v6) => routes_printed(format, *v6),
            None => seq![],
        }),
{
    let program = route_command(format).program;
    let first_text = util::run_capture(program.as_str(), first);
    let mut routes = parse_printed(format, first);
    let ghost first_routes = routes.deep_view();
    match second {
        None => {
            assert(routes.deep_view() =~= first_routes + Seq::<RouteRow>::empty());
            (routes, first_text)
        },
        Some(v6) => {
            let mut raw = "# IPv4\n".to_owned();
            raw.append(first_text.as_str());
            raw.append("\n# IPv6\n");
            raw.append(util::run_capture(program.as_str(), v6).as_str());
            let mut more = parse_printed(format, v6);
            let ghost more_view = more.deep_view();
            routes.append(&mut more);
            assert(routes.deep_view() =~= first_routes + more_view);
            (routes, raw)
        },
    }
}

/// A command that printed nothing has no route, in any format.
pub proof fn law_nothing_printed_has_no_route(format: RouteFormat, output: Seq<char>)
    requires
        text::trimmed(output).len() == 0,
    ensures
        routes_of(format, output).len() == 0,
{
    text::lemma_blank(output);
    text::lemma_space_lines(output);
    lemma_space_routes(text::lines_of(output));
}

/// A command that could not be started has no route, in any format.
pub proof fn law_failed_command_has_no_route(format: RouteFormat, outcome: Captured)
    requires
        outcome is Failed,
    ensures
        routes_printed(format, outcome).len() == 0,
{
}

proof fn lemma_space_routes(lines: Seq<Seq<char>>)
    requires
        forall|i: int| 0 <= i < lines.len() ==> text::all_space(#[trigger] lines[i]),
    ensures
        bsd_routes(lines).len() == 0,
        ip_routes(lines).len() == 0,
        windows_routes(lines).len() == 0,
    decreases lines.len(),
{
    if lines.len() > 0 {
        let before = lines.drop_last();
        assert forall|i: int| 0 <= i < before.len() implies text::all_space(
            #[trigger] before[i],
        ) by {
            assert(before[i] == lines[i]);
        }
        lemma_space_routes(before);
        assert(text::all_space(lines[lines.len() - 1]));
        text::lemma_space_words(lines.last());
        text::lemma_blank(lines.last());
    }
}

/// Whether a route is an IPv6 route: its destination or its gateway is an
/// IPv6 address.
pub fn is_ipv6_route(route: &RouteEntry) -> (r: bool)
    ensures
        r == (route.destination@.contains(':') || route.gateway@.contains(':')),
{
    text::contains_char(route.destination.as_str(), ':') || text::contains_char(
        route.gateway.as_str(),
        ':',
    )
}

// -------------------------------------------------------- Domain and servers

/// What the lines of a resolver configuration set.
pub struct ResolverSettings {
    pub domain: Option<Seq<char>>,
    pub servers: Seq<Seq<char>>,
}

/// The settings in the lines of a resolver configuration: the last `domain`
/// counts, a `search` list gives its first entry where no domain is known
/// yet, and each `nameserver` is a server.
pub open spec fn resolver_settings(lines: Seq<Seq<char>>) -> ResolverSettings
    decreases lines.len(),
{
    if lines.len() == 0 {
        ResolverSettings { domain: None, servers: seq![] }
    } else {
        let before = resolver_settings(lines.drop_last());
        let line = text::trimmed(lines.last());
        if text::starts_with_text(line, "domain "@) {
            ResolverSettings {
                domain: Some(text::trimmed(line.skip("domain "@.len() as int))),
                ..before
            }
        } else if text::starts_with_text(line, "search "@) {
            let list = text::words(line.skip("search "@.len() as int));
            if before.domain is None && list.len() > 0 {
                ResolverSettings { domain: Some(list[0]), ..before }
            } else {
                before
            }
        } else if text::starts_with_text(line, "nameserver "@) {
            ResolverSettings {
                servers: before.servers.push(
                    text::trimmed(line.skip("nameserver "@.len() as int)),
                ),
                ..before
            }
        } else {
            before
        }
    }
}

/// DNS domain and DNS servers in a resolver configuration (`/etc/resolv.conf`).
pub fn domain_and_dns(content: &str) -> (r: (Option<String>, Vec<String>))
    ensures
        r.0.deep_view() == resolver_settings(text::lines_of(content@)).domain,
        r.1.deep_view() == resolver_settings(text::lines_of(content@)).servers,
{
    let lines = text::split_lines(content);
    let ghost lv = text::lines_of(content@);
    let mut domain: Option<String> = None;
    let mut dns: Vec<String> = Vec::new();
    let mut i: usize = 0;
    assert(lv.take(0) =~= seq![]);
    assert(dns.deep_view() =~= seq![]);
    while i < lines.len()
        invariant
            lv == lines.deep_view(),
            i <= lines@.len(),
            domain.deep_view() == resolver_settings(lv.take(i as int)).domain,
            dns.deep_view() == resolver_settings(lv.take(i as int)).servers,
        decreases lines@.len() - i,
    {
        assert(lv.take(i + 1).drop_last() =~= lv.take(i as int));
        assert(lv.take(i + 1).last() == lines@[i as int]@);
        let line = text::trim(lines[i].as_str());
        if let Some(rest) = text::strip_prefix(line.as_str(), "domain ") {
            domain = Some(text::trim(rest.as_str()));
        } else if let Some(rest) = text::strip_prefix(line.as_str(), "search ") {
            let list = text::split_words(rest.as_str());
            if domain.is_none() && list.len() > 0 {
                assert(list.deep_view()[0] == list@[0]@);
                domain = Some(list[0].clone());
            }
        } else if let Some(rest) = text::strip_prefix(line.as_str(), "nameserver ") {
            let server = text::trim(rest.as_str());
            let ghost before = dns;
            dns.push(server);
            proof {
                text::lemma_pushed_view(before, dns, server);
            }
        }
        i += 1;
    }
    assert(lv.take(i as int) =~= lv);
    (domain, dns)
}

/// The DNS domain in the value of the environment variable `USERDNSDOMAIN`
/// (Windows): an empty value counts as none.
pub fn windows_domain(value: Option<String>) -> (r: Option<String>)
    ensures
        r == (match value {
            Some(v) => if v@.len() == 0 {
                None
            } else {
                Some(v)
            },
            None => None,
        }),
{
    match value {
        Some(v) => if v.as_str().is_empty() {
            None
        } else {
            Some(v)
        },
        None => None,
    }
}

// -------------------------------------------------------------- Raw sections

/// Where a raw section of the report comes from.
#[derive(Debug)]
pub enum RawSource {
    Command(CommandLine),
    File(String),
}

/// What a raw source is.
pub enum RawSourceView {
    Command(util::CommandWords),
    File(Seq<char>),
}

impl DeepView for RawSource {
    type V = RawSourceView;

    open spec fn deep_view(&self) -> RawSourceView {
        match self {
            RawSource::Command(c) => RawSourceView::Command(c.deep_view()),
            RawSource::File(path) => RawSourceView::File(path@),
        }
    }
}

/// The raw sections of a platform: their titles and sources.
pub open spec fn raw_sections_of(os: Os) -> Seq<(Seq<char>, RawSourceView)> {
    match os {
        Os::Windows => seq![
            (
                "ipconfig /all"@,
                RawSourceView::Command(util::words_of("ipconfig"@, seq!["/all"@])),
            ),
            ("route print"@, RawSourceView::Command(util::words_of("route"@, seq!["print"@]))),
        ],
        Os::MacOs => seq![
            ("ifconfig -a"@, RawSourceView::Command(util::words_of("ifconfig"@, seq!["-a"@]))),
            ("netstat -rn"@, RawSourceView::Command(util::words_of("netstat"@, seq!["-rn"@]))),
            ("scutil --dns"@, RawSourceView::Command(util::words_of("scutil"@, seq!["--dns"@]))),
        ],
        Os::Unix => seq![
            ("ip addr"@, RawSourceView::Command(util::words_of("ip"@, seq!["addr"@]))),
            ("ip route"@, RawSourceView::Command(util::words_of("ip"@, seq!["route"@]))),
            ("/etc/resolv.conf"@, RawSourceView::File("/etc/resolv.conf"@)),
        ],
    }
}

fn simple_command(program: &str, arg: &str) -> (r: RawSource)
    ensures
        r.deep_view() == RawSourceView::Command(util::words_of(program@, seq![arg@])),
{
    let args = vec![arg.to_owned()];
    assert(args.deep_view() =~= seq![arg@]);
    RawSource::Command(CommandLine { program: program.to_owned(), args })
}

/// The system tools and files whose raw output the report shows, for
/// verification or copy/paste.
pub fn raw_sections(os: Os) -> (r: Vec<(String, RawSource)>)
    ensures
        r@.len() == raw_sections_of(os).len(),
        forall|i: int|
            0 <= i < r@.len() ==> (#[trigger] r@[i]).0@ == raw_sections_of(os)[i].0
                && r@[i].1.deep_view() == raw_sections_of(os)[i].1,
{
    match os {
        Os::Windows => vec![
            ("ipconfig /all".to_owned(), simple_command("ipconfig", "/all")),
            ("route print".to_owned(), simple_command("route", "print")),
        ],
        Os::MacOs => vec![
            ("ifconfig -a".to_owned(), simple_command("ifconfig", "-a")),
            ("netstat -rn".to_owned(), simple_command("netstat", "-rn")),
            ("scutil --dns".to_owned(), simple_command("scutil", "--dns")),
        ],
        Os::Unix => vec![
            ("ip addr".to_owned(), simple_command("ip", "addr")),
            ("ip route".to_owned(), simple_command("ip", "route")),
            ("/etc/resolv.conf".to_owned(), RawSource::File("/etc/resolv.conf".to_owned())),
        ],
    }
}

/// The text of a raw section that is a file.
pub fn file_section(content: &Result<String, String>) -> (r: String)
    ensures
        match content {
            Ok(t) => r@ == t@,
            Err(e) => r@ == "could not read: "@ + e@,
        },
{
    match content {
        Ok(t) => t.clone(),
        Err(e) => {
            let mut s = "could not read: ".to_owned();
            s.append(e.as_str());
            s
        },
    }
}

// -------------------------------------------------------------------- Report

/// A line of the report.
pub open spec fn report_line(key: Seq<char>, value: Seq<char>) -> Seq<char> {
    key + value + "\n"@
}

/// A line of the report where there is a value.
pub open spec fn optional_line(key: Seq<char>, value: Option<Seq<char>>) -> Seq<char> {
    match value {
        Some(v) => report_line(key, v),
        None => seq![],
    }
}

/// A line of the report for each value.
pub open spec fn lines_for(key: Seq<char>, values: Seq<Seq<char>>) -> Seq<char>
    decreases values.len(),
{
    if values.len() == 0 {
        seq![]
    } else {
        lines_for(key, values.drop_last()) + report_line(key, values.last())
    }
}

/// The title of an interface: its name, its other name where that differs,
/// and whether it is the default one.
pub open spec fn iface_title(row: IfaceRow) -> Seq<char> {
    "\n["@ + row.name + "]"@ + (match row.friendly_name {
        Some(f) => if f != row.name {
            " ("@ + f + ")"@
        } else {
            seq![]
        },
        None => seq![],
    }) + (if row.is_default {
        "  [default interface]"@
    } else {
        ""@
    }) + "\n"@
}

/// The part of the report on an interface.
pub open spec fn iface_text(row: IfaceRow) -> Seq<char> {
    iface_title(row) + report_line(
        "  State   : "@,
        if row.is_up {
            "UP"@
        } else {
            "DOWN"@
        },
    ) + report_line("  Type    : "@, row.if_type) + optional_line("  MAC     : "@, row.mac)
        + lines_for("  IPv4    : "@, row.ipv4) + lines_for("  IPv6    : "@, row.ipv6)
        + optional_line("  Gateway : "@, row.gateway) + (if row.dns.len() == 0 {
        seq![]
    } else {
        report_line("  DNS     : "@, text::joined(row.dns, ", "@))
    })
}

/// The part of the report on the interfaces.
pub open spec fn ifaces_text(rows: Seq<IfaceRow>) -> Seq<char>
    decreases rows.len(),
{
    if rows.len() == 0 {
        seq![]
    } else {
        ifaces_text(rows.drop_last()) + iface_text(rows.last())
    }
}

/// A line of the routing table.
pub open spec fn route_line(row: RouteRow) -> Seq<char> {
    text::padded(row.destination, 28) + " "@ + text::padded(row.gateway, 20) + " "@ + text::padded(
        row.interface,
        10,
    ) + " "@ + row.info + "\n"@
}

/// The lines of the routing table.
pub open spec fn route_lines(rows: Seq<RouteRow>) -> Seq<char>
    decreases rows.len(),
{
    if rows.len() == 0 {
        seq![]
    } else {
        route_lines(rows.drop_last()) + route_line(rows.last())
    }
}

/// The part of the report on the routes: the raw output where no route was
/// recognized.
pub open spec fn routes_text(rows: Seq<RouteRow>, raw: Seq<char>) -> Seq<char> {
    if rows.len() == 0 {
        raw
    } else {
        route_line(
            RouteRow {
                destination: "Destination"@,
                gateway: "Gateway"@,
                interface: "Interface"@,
                info: "Info"@,
            },
        ) + route_lines(rows)
    }
}

/// The raw sections of the report.
pub open spec fn sections_text(sections: Seq<(String, String)>) -> Seq<char>
    decreases sections.len(),
{
    if sections.len() == 0 {
        seq![]
    } else {
        sections_text(sections.drop_last()) + ("\n=== "@ + sections.last().0@ + " ===\n"@
            + sections.last().1@ + "\n"@)
    }
}

/// The full report.
pub open spec fn report_of(report: NetReport) -> Seq<char> {
    "NETWORK CONFIGURATION REPORT — generated "@ + report.generated_at@ + "\n\n"@ + report_line(
        "Hostname : "@,
        report.hostname@,
    ) + report_line("Domain   : "@, arp::token_or(report.domain.deep_view(), "(none)"@))
        + report_line(
        "DNS      : "@,
        if report.dns_servers@.len() == 0 {
            "(none detected)"@
        } else {
            text::joined(report.dns_servers.deep_view(), ", "@)
        },
    ) + "\n"@ + "=== INTERFACES ===\n"@ + ifaces_text(report.interfaces.deep_view())
        + "\n=== ROUTES ===\n"@ + routes_text(report.routes.deep_view(), report.routes_raw@)
        + sections_text(report.raw_sections@)
}

fn push_line(s: &mut String, key: &str, value: &str)
    ensures
        final(s)@ == old(s)@ + report_line(key@, value@),
{
    let ghost before = s@;
    s.append(key);
    s.append(value);
    s.append("\n");
    assert(s@ =~= before + report_line(key@, value@));
}

fn push_optional(s: &mut String, key: &str, value: &Option<String>)
    ensures
        final(s)@ == old(s)@ + optional_line(key@, value.deep_view()),
{
    match value {
        Some(v) => {
            push_line(s, key, v.as_str());
        },
        None => {
            assert(s@ =~= s@ + Seq::<char>::empty());
        },
    }
}

fn push_lines(s: &mut String, key: &str, values: &Vec<String>)
    ensures
        final(s)@ == old(s)@ + lines_for(key@, values.deep_view()),
{
    let ghost vv = values.deep_view();
    let ghost before = s@;
    let mut i: usize = 0;
    assert(vv.take(0) =~= seq![]);
    assert(s@ =~= before + lines_for(key@, vv.take(0)));
    while i < values.len()
        invariant
            vv == values.deep_view(),
            i <= values@.len(),
            s@ == before + lines_for(key@, vv.take(i as int)),
        decreases values@.len() - i,
    {
        assert(vv.take(i + 1).drop_last() =~= vv.take(i as int));
        assert(vv.take(i + 1).last() == values@[i as int]@);
        push_line(s, key, values[i].as_str());
        i += 1;
        assert(s@ =~= before + lines_for(key@, vv.take(i as int)));
    }
    assert(vv.take(i as int) =~= vv);
}

fn title_of(itf: &IfaceInfo) -> (r: String)
    ensures
        r@ == iface_title(itf.deep_view()),
{
    let mut s = "\n[".to_owned();
    s.append(itf.name.as_str());
    s.append("]");
    let other = match &itf.friendly_name {
        Some(f) => if text::same(f.as_str(), itf.name.as_str()) {
            String::new()
        } else {
            let mut t = " (".to_owned();
            t.append(f.as_str());
            t.append(")");
            t
        },
        None => String::new(),
    };
    proof {
        if other@.len() == 0 {
            assert(other@ =~= seq![]);
        }
    }
    s.append(other.as_str());
    s.append(
        if itf.is_default {
            "  [default interface]"
        } else {
            ""
        },
    );
    s.append("\n");
    s
}

fn text_of_iface(itf: &IfaceInfo) -> (r: String)
    ensures
        r@ == iface_text(itf.deep_view()),
{
    let mut s = title_of(itf);
    push_line(
        &mut s,
        "  State   : ",
        if itf.is_up {
            "UP"
        } else {
            "DOWN"
        },
    );
    push_line(&mut s, "  Type    : ", itf.if_type.as_str());
    push_optional(&mut s, "  MAC     : ", &itf.mac);
    push_lines(&mut s, "  IPv4    : ", &itf.ipv4);
    push_lines(&mut s, "  IPv6    : ", &itf.ipv6);
    push_optional(&mut s, "  Gateway : ", &itf.gateway);
    if itf.dns.len() == 0 {
        assert(s@ =~= s@ + Seq::<char>::empty());
    } else {
        push_line(&mut s, "  DNS     : ", text::join(&itf.dns, ", ").as_str());
    }
    s
}

fn push_route(s: &mut String, destination: &str, gateway: &str, interface: &str, info: &str)
    ensures
        final(s)@ == old(s)@ + route_line(
            RouteRow {
                destination: destination@,
                gateway: gateway@,
                interface: interface@,
                info: info@,
            },
        ),
{
    let mut line = text::pad_right(destination, 28);
    line.append(" ");
    line.append(text::pad_right(gateway, 20).as_str());
    line.append(" ");
    line.append(text::pad_right(interface, 10).as_str());
    line.append(" ");
    line.append(info);
    line.append("\n");
    s.append(line.as_str());
}

fn text_of_routes(routes: &Vec<RouteEntry>, raw: &str) -> (r: String)
    ensures
        r@ == routes_text(routes.deep_view(), raw@),
{
    if routes.len() == 0 {
        return raw.to_owned();
    }
    let ghost rows = routes.deep_view();
    let mut s = String::new();
    push_route(&mut s, "Destination", "Gateway", "Interface", "Info");
    let ghost head = s@;
    let mut i: usize = 0;
    proof {
        assert(rows.take(0) =~= seq![]);
        assert(head =~= route_line(
            RouteRow {
                destination: "Destination"@,
                gateway: "Gateway"@,
                interface: "Interface"@,
                info: "Info"@,
            },
        ));
        assert(s@ =~= head + route_lines(rows.take(0)));
    }
    while i < routes.len()
        invariant
            rows == routes.deep_view(),
            i <= routes@.len(),
            s@ == head + route_lines(rows.take(i as int)),
        decreases routes@.len() - i,
    {
        assert(rows.take(i + 1).drop_last() =~= rows.take(i as int));
        assert(rows.take(i + 1).last() == routes@[i as int].deep_view());
        let route = &routes[i];
        push_route(
            &mut s,
            route.destination.as_str(),
            route.gateway.as_str(),
            route.interface.as_str(),
            route.info.as_str(),
        );
        i += 1;
        assert(s@ =~= head + route_lines(rows.take(i as int)));
    }
    assert(rows.take(i as int) =~= rows);
    s
}

fn text_of_ifaces(interfaces: &Vec<IfaceInfo>) -> (r: String)
    ensures
        r@ == ifaces_text(interfaces.deep_view()),
{
    let ghost rows = interfaces.deep_view();
    let mut s = String::new();
    let mut i: usize = 0;
    assert(rows.take(0) =~= seq![]);
    assert(s@ =~= ifaces_text(rows.take(0)));
    while i < interfaces.len()
        invariant
            rows == interfaces.deep_view(),
            i <= interfaces@.len(),
            s@ == ifaces_text(rows.take(i as int)),
        decreases interfaces@.len() - i,
    {
        assert(rows.take(i + 1).drop_last() =~= rows.take(i as int));
        assert(rows.take(i + 1).last() == interfaces@[i as int].deep_view());
        s.append(text_of_iface(&interfaces[i]).as_str());
        i += 1;
    }
    assert(rows.take(i as int) =~= rows);
    s
}

fn text_of_sections(sections: &Vec<(String, String)>) -> (r: String)
    ensures
        r@ == sections_text(sections@),
{
    let mut s = String::new();
    let mut i: usize = 0;
    assert(sections@.take(0) =~= seq![]);
    assert(s@ =~= sections_text(sections@.take(0)));
    while i < sections.len()
        invariant
            i <= sections@.len(),
            s@ == sections_text(sections@.take(i as int)),
        decreases sections@.len() - i,
    {
        assert(sections@.take(i + 1).drop_last() =~= sections@.take(i as int));
        assert(sections@.take(i + 1).last() == sections@[i as int]);
        let mut section = "\n=== ".to_owned();
        section.append(sections[i].0.as_str());
        section.append(" ===\n");
        section.append(sections[i].1.as_str());
        section.append("\n");
        s.append(section.as_str());
        i += 1;
    }
    assert(sections@.take(i as int) =~= sections@);
    s
}

/// Full text report, for the file export.
pub fn report_text(report: &NetReport) -> (r: String)
    ensures
        r@ == report_of(*report),
{
    let mut s = "NETWORK CONFIGURATION REPORT — generated ".to_owned();
    s.append(report.generated_at.as_str());
    s.append("\n\n");
    push_line(&mut s, "Hostname : ", report.hostname.as_str());
    match &report.domain {
        Some(domain) => {
            push_line(&mut s, "Domain   : ", domain.as_str());
        },
        None => {
            push_line(&mut s, "Domain   : ", "(none)");
        },
    }
    if report.dns_servers.len() == 0 {
        push_line(&mut s, "DNS      : ", "(none detected)");
    } else {
        push_line(&mut s, "DNS      : ", text::join(&report.dns_servers, ", ").as_str());
    }
    s.append("\n");
    s.append("=== INTERFACES ===\n");
    s.append(text_of_ifaces(&report.interfaces).as_str());
    s.append("\n=== ROUTES ===\n");
    s.append(text_of_routes(&report.routes, report.routes_raw.as_str()).as_str());
    s.append(text_of_sections(&report.raw_sections).as_str());
    s
}

/// The export of the report into the netconfig log subfolder: the file and
/// what is written to it. Whether that succeeds is told by
/// [`util::export_step`].
pub fn export(report: &NetReport, log_dir: &str, stamp: &str) -> (r: ExportFile)
    ensures
        r.parts.deep_view() == util::export_parts(log_dir@, "netconfig"@, stamp@),
        r.text@ == report_of(*report),
{
    util::export_file(log_dir, "netconfig", stamp, report_text(report))
}

// ----------------------------------------------------- What a report shows

/// The report shows every address of an interface, in order: the i-th text is
/// the i-th address, a slash and its own prefix length, with the mask behind it
/// for IPv4. Nothing else that the system says of the interface is lost.
pub proof fn law_every_address_is_shown(raw: RawInterface)
    ensures
        iface_row(raw).ipv4.len() == raw.ipv4@.len(),
        iface_row(raw).ipv6.len() == raw.ipv6@.len(),
        forall|i: int|
            0 <= i < raw.ipv4@.len() ==> {
                let shown = #[trigger] iface_row(raw).ipv4[i];
                shown == ip::ipv4_text(raw.ipv4@[i].0) + "/"@ + text::decimal_text(
                    raw.ipv4@[i].1 as nat,
                ) + " (mask "@ + ip::ipv4_text(mask_of(raw.ipv4@[i].1)) + ")"@
            },
        forall|i: int|
            0 <= i < raw.ipv6@.len() ==> {
                let shown = #[trigger] iface_row(raw).ipv6[i];
                shown == raw.ipv6@[i].0@ + "/"@ + text::decimal_text(raw.ipv6@[i].1 as nat)
            },
        iface_row(raw).dns.len() == raw.dns@.len(),
        forall|i: int| 0 <= i < raw.dns@.len() ==> #[trigger] iface_row(raw).dns[i] == raw.dns@[i]@,
        iface_row(raw).name == raw.name@,
        iface_row(raw).if_type == raw.if_type@,
        iface_row(raw).is_up == raw.is_up,
        iface_row(raw).is_default == raw.is_default,
        iface_row(raw).mac is Some <==> raw.mac is Some,
        raw.mac matches Some(m) ==> iface_row(raw).mac == Some(m@),
        iface_row(raw).friendly_name is Some <==> raw.friendly_name is Some,
        raw.friendly_name matches Some(f) ==> iface_row(raw).friendly_name == Some(f@),
        iface_row(raw).gateway is Some <==> raw.gateway is Some,
{
}

/// The gateway of an interface is shown with every address that it has and with
/// its MAC address.
pub proof fn law_every_gateway_address_is_shown(raw: RawInterface, i: int)
    requires
        raw.gateway is Some,
    ensures
        iface_row(raw).gateway is Some,
        0 <= i < raw.gateway->0.ipv4@.len() ==> text::contains_text(
            iface_row(raw).gateway->0,
            ip::ipv4_text(raw.gateway->0.ipv4@[i]),
        ),
        0 <= i < raw.gateway->0.ipv6@.len() ==> text::contains_text(
            iface_row(raw).gateway->0,
            raw.gateway->0.ipv6@[i]@,
        ),
        text::contains_text(iface_row(raw).gateway->0, raw.gateway->0.mac@),
{
    let g = raw.gateway->0;
    let all = gateway_addresses(g);
    let list = text::joined(all, ", "@);
    let head = list + " (MAC "@;
    text::lemma_part_within(head, g.mac@, g.mac@);
    text::lemma_part_within(head + g.mac@, ")"@, g.mac@);
    if 0 <= i < g.ipv4@.len() {
        let a = ip::ipv4_text(g.ipv4@[i]);
        assert(all[i] == a);
        text::law_joined_holds_parts(all, ", "@, i);
        text::lemma_part_within(list, " (MAC "@, a);
        text::lemma_part_within(head, g.mac@, a);
        text::lemma_part_within(head + g.mac@, ")"@, a);
    }
    if 0 <= i < g.ipv6@.len() {
        let a = g.ipv6@[i]@;
        let k = g.ipv4@.len() + i;
        assert(all[k] == a);
        text::law_joined_holds_parts(all, ", "@, k);
        text::lemma_part_within(list, " (MAC "@, a);
        text::lemma_part_within(head, g.mac@, a);
        text::lemma_part_within(head + g.mac@, ")"@, a);
    }
}

/// The mask of a prefix length leaves out as many addresses as the network has;
/// a prefix length over 32 counts as 32.
pub proof fn law_mask_covers_the_network(prefix: u8)
    ensures
        prefix <= 32 ==> mask_of(prefix) + vstd::arithmetic::power2::pow2((32 - prefix) as nat)
            == 0x1_0000_0000,
        prefix > 32 ==> mask_of(prefix) == 0xffff_ffff,
        prefix == 0 ==> mask_of(prefix) == 0,
{
    vstd::arithmetic::power2::lemma2_to64();
    if prefix < 32 {
        vstd::arithmetic::power2::lemma_pow2_strictly_increases((32 - prefix) as nat, 33);
        assert(vstd::arithmetic::power2::pow2((32 - prefix) as nat) <= 0x1_0000_0000) by {
            if prefix > 0 {
                vstd::arithmetic::power2::lemma_pow2_strictly_increases((32 - prefix) as nat, 32);
            }
        }
    }
    vstd::arithmetic::power2::lemma_pow2_pos((32 - (if prefix <= 32 {
        prefix
    } else {
        32
    })) as nat);
}

/// The default interface comes before the others, then those that are up before
/// those that are down, and interfaces alike in both by name.
pub proof fn law_interface_order(a: IfaceRow, b: IfaceRow)
    ensures
        a.is_default && !b.is_default ==> iface_order()(a, b) && !iface_order()(b, a),
        a.is_default == b.is_default && a.is_up && !b.is_up ==> iface_order()(a, b)
            && !iface_order()(b, a),
        a.is_default == b.is_default && a.is_up == b.is_up ==> (iface_order()(a, b)
            <==> order::text_at_most(a.name, b.name)),
{
}

/// The name servers of the interfaces are those of each of them, one interface
/// after the other.
pub proof fn law_interface_dns(a: Seq<RawInterface>, b: Seq<RawInterface>, r: RawInterface)
    ensures
        interface_dns(seq![r]) == r.dns.deep_view(),
        interface_dns(a + b) == interface_dns(a) + interface_dns(b),
    decreases b.len(),
{
    let one = seq![r];
    assert(one.drop_last() =~= Seq::empty());
    assert(interface_dns(one.drop_last()) =~= seq![]);
    assert(interface_dns(one) =~= r.dns.deep_view());
    if b.len() == 0 {
        assert(a + b =~= a);
        assert(interface_dns(a + b) =~= interface_dns(a) + interface_dns(b));
    } else {
        assert((a + b).drop_last() =~= a + b.drop_last());
        law_interface_dns(a, b.drop_last(), r);
        assert(interface_dns(a + b) =~= interface_dns(a) + interface_dns(b));
    }
}

// ------------------------------------------------------- What a route line says

/// A route of `ip route` goes to the first word of its line, through the address
/// behind `via` or on the link, by the interface behind `dev`; its details are
/// the values that the line has behind the four keywords, each with its keyword.
pub proof fn law_ip_route(line: Seq<char>)
    requires
        text::words(line).len() > 0,
        !text::starts_with_text(text::words(line)[0], "#"@),
    ensures
        ip_route(line) is Some,
        ip_route(line)->0.destination == text::words(line)[0],
        text::token_following(text::words(line), "via"@) matches Some(v) ==> ip_route(
            line,
        )->0.gateway == v,
        text::token_following(text::words(line), "via"@) is None ==> ip_route(line)->0.gateway
            == "on-link"@,
        text::token_following(text::words(line), "dev"@) matches Some(v) ==> ip_route(
            line,
        )->0.interface == v,
        text::token_following(text::words(line), "dev"@) is None ==> ip_route(line)->0.interface
            == "?"@,
        forall|key: Seq<char>|
            (key == "proto"@ || key == "scope"@ || key == "metric"@ || key == "src"@) && (
            #[trigger] text::token_following(text::words(line), key)) is Some
                ==> text::contains_text(
                ip_route(line)->0.info,
                key + " "@ + text::token_following(text::words(line), key)->0,
            ),
        text::token_following(text::words(line), "proto"@) is None && text::token_following(
            text::words(line),
            "scope"@,
        ) is None && text::token_following(text::words(line), "metric"@) is None
            && text::token_following(text::words(line), "src"@) is None ==> ip_route(
            line,
        )->0.info.len() == 0,
{
    let t = text::words(line);
    let p = keyword_value(t, "proto"@);
    let s = keyword_value(t, "scope"@);
    let m = keyword_value(t, "metric"@);
    let r = keyword_value(t, "src"@);
    let all = p + s + m + r;
    assert forall|key: Seq<char>|
        (key == "proto"@ || key == "scope"@ || key == "metric"@ || key == "src"@) && (
        #[trigger] text::token_following(t, key)) is Some implies text::contains_text(
        ip_route(line)->0.info,
        key + " "@ + text::token_following(t, key)->0,
    ) by {
        let shown = key + " "@ + text::token_following(t, key)->0;
        assert(keyword_value(t, key) == seq![shown]);
        let i: int = if key == "proto"@ {
            0
        } else if key == "scope"@ {
            p.len() as int
        } else if key == "metric"@ {
            (p + s).len() as int
        } else {
            (p + s + m).len() as int
        };
        assert(all[i] == shown);
        text::law_joined_holds_parts(all, ", "@, i);
    }
}

/// Blank lines and comments are no routes.
pub proof fn law_comments_are_no_routes(line: Seq<char>)
    requires
        text::words(line).len() == 0 || text::words(line)[0].len() > 0 && text::words(line)[0][0]
            == '#',
    ensures
        ip_route(line) is None,
{
    if text::words(line).len() > 0 {
        reveal_strlit("#");
        let w = text::words(line)[0];
        assert(w.subrange(0, 1) =~= "#"@);
    }
}

/// The routes of `ip route` are those of its lines, in order.
pub proof fn law_each_ip_route_is_read(lines: Seq<Seq<char>>, line: Seq<char>)
    ensures
        ip_routes(seq![]).len() == 0,
        ip_route(line) matches Some(row) ==> ip_routes(lines.push(line)) == ip_routes(lines).push(
            row,
        ),
        ip_route(line) is None ==> ip_routes(lines.push(line)) == ip_routes(lines),
{
    assert(lines.push(line).drop_last() =~= lines);
}

/// A table of `netstat` runs from a line that begins with `Destination` up to
/// the next blank line.
pub proof fn law_netstat_table(lines: Seq<Seq<char>>)
    ensures
        in_bsd_table(lines) <==> exists|k: int|
            0 <= k < lines.len() && text::words(#[trigger] lines[k]).len() > 0 && text::words(
                lines[k],
            )[0] == "Destination"@ && (forall|j: int|
                k < j < lines.len() ==> text::words(#[trigger] lines[j]).len() > 0),
    decreases lines.len(),
{
    if lines.len() > 0 {
        let before = lines.drop_last();
        law_netstat_table(before);
        let t = text::words(lines.last());
        if in_bsd_table(lines) {
            if t[0] == "Destination"@ {
                let k = lines.len() - 1;
                assert(text::words(lines[k])[0] == "Destination"@);
            } else {
                let k = choose|k: int|
                    0 <= k < before.len() && text::words(#[trigger] before[k]).len() > 0
                        && text::words(before[k])[0] == "Destination"@ && (forall|j: int|
                        k < j < before.len() ==> text::words(#[trigger] before[j]).len() > 0);
                assert(lines[k] == before[k]);
                assert forall|j: int| k < j < lines.len() implies text::words(
                    #[trigger] lines[j],
                ).len() > 0 by {
                    if j < before.len() {
                        assert(before[j] == lines[j]);
                    }
                }
            }
        }
        if exists|k: int|
            0 <= k < lines.len() && text::words(#[trigger] lines[k]).len() > 0 && text::words(
                lines[k],
            )[0] == "Destination"@ && (forall|j: int|
                k < j < lines.len() ==> text::words(#[trigger] lines[j]).len() > 0) {
            let k = choose|k: int|
                0 <= k < lines.len() && text::words(#[trigger] lines[k]).len() > 0 && text::words(
                    lines[k],
                )[0] == "Destination"@ && (forall|j: int|
                    k < j < lines.len() ==> text::words(#[trigger] lines[j]).len() > 0);
            if k < before.len() {
                assert(text::words(lines[lines.len() - 1]).len() > 0);
                assert(before[k] == lines[k]);
                assert forall|j: int| k < j < before.len() implies text::words(
                    #[trigger] before[j],
                ).len() > 0 by {
                    assert(before[j] == lines[j]);
                }
            }
        }
    }
}

/// Within a table of `netstat`, a line of four words or more is a route with its
/// destination, gateway, flags and interface; no other line is.
pub proof fn law_netstat_route(lines: Seq<Seq<char>>, line: Seq<char>)
    ensures
        bsd_routes(seq![]).len() == 0,
        text::words(line).len() >= 4 && text::words(line)[0] != "Destination"@ && in_bsd_table(lines)
            ==> bsd_routes(lines.push(line)) == bsd_routes(lines).push(
            RouteRow {
                destination: text::words(line)[0],
                gateway: text::words(line)[1],
                interface: text::words(line)[3],
                info: "flags "@ + text::words(line)[2],
            },
        ),
        text::words(line).len() < 4 || text::words(line)[0] == "Destination"@ || !in_bsd_table(lines)
            ==> bsd_routes(lines.push(line)) == bsd_routes(lines),
{
    assert(lines.push(line).drop_last() =~= lines);
}

/// The active routes run from their heading to a line that is blank or begins
/// with an equals sign or with `Persistent`.
pub proof fn law_active_routes(lines: Seq<Seq<char>>)
    ensures
        in_active_routes(lines) <==> exists|k: int|
            0 <= k < lines.len() && text::starts_with_text(
                text::trimmed(#[trigger] lines[k]),
                "Active Routes:"@,
            ) && (forall|j: int|
                k < j < lines.len() ==> !text::all_space(#[trigger] lines[j])
                    && !text::starts_with_text(text::trimmed(lines[j]), "="@)
                    && !text::starts_with_text(text::trimmed(lines[j]), "Persistent"@)),
    decreases lines.len(),
{
    if lines.len() > 0 {
        let before = lines.drop_last();
        let line = lines.last();
        law_active_routes(before);
        text::lemma_blank(line);
        if text::starts_with_text(text::trimmed(line), "Network Destination"@) {
            lemma_column_heads_end_nothing(text::trimmed(line));
        }
        if in_active_routes(lines) {
            if text::starts_with_text(text::trimmed(line), "Active Routes:"@) {
                let k = lines.len() - 1;
                assert(text::starts_with_text(text::trimmed(lines[k]), "Active Routes:"@));
            } else {
                let k = choose|k: int|
                    0 <= k < before.len() && text::starts_with_text(
                        text::trimmed(#[trigger] before[k]),
                        "Active Routes:"@,
                    ) && (forall|j: int|
                        k < j < before.len() ==> !text::all_space(#[trigger] before[j])
                            && !text::starts_with_text(text::trimmed(before[j]), "="@)
                            && !text::starts_with_text(text::trimmed(before[j]), "Persistent"@));
                assert(lines[k] == before[k]);
                assert forall|j: int| k < j < lines.len() implies !text::all_space(
                    #[trigger] lines[j],
                ) && !text::starts_with_text(text::trimmed(lines[j]), "="@)
                    && !text::starts_with_text(text::trimmed(lines[j]), "Persistent"@) by {
                    if j < before.len() {
                        assert(before[j] == lines[j]);
                    }
                }
            }
        }
        if exists|k: int|
            0 <= k < lines.len() && text::starts_with_text(
                text::trimmed(#[trigger] lines[k]),
                "Active Routes:"@,
            ) && (forall|j: int|
                k < j < lines.len() ==> !text::all_space(#[trigger] lines[j])
                    && !text::starts_with_text(text::trimmed(lines[j]), "="@)
                    && !text::starts_with_text(text::trimmed(lines[j]), "Persistent"@)) {
            let k = choose|k: int|
                0 <= k < lines.len() && text::starts_with_text(
                    text::trimmed(#[trigger] lines[k]),
                    "Active Routes:"@,
                ) && (forall|j: int|
                    k < j < lines.len() ==> !text::all_space(#[trigger] lines[j])
                        && !text::starts_with_text(text::trimmed(lines[j]), "="@)
                        && !text::starts_with_text(text::trimmed(lines[j]), "Persistent"@));
            if k < before.len() {
                assert(!text::all_space(lines[lines.len() - 1]));
                assert(before[k] == lines[k]);
                assert forall|j: int| k < j < before.len() implies !text::all_space(
                    #[trigger] before[j],
                ) && !text::starts_with_text(text::trimmed(before[j]), "="@)
                    && !text::starts_with_text(text::trimmed(before[j]), "Persistent"@) by {
                    assert(before[j] == lines[j]);
                }
            }
        }
    }
}

proof fn lemma_column_heads_end_nothing(t: Seq<char>)
    requires
        text::starts_with_text(t, "Network Destination"@),
    ensures
        t.len() > 0,
        !text::starts_with_text(t, "="@),
        !text::starts_with_text(t, "Persistent"@),
{
    reveal_strlit("Network Destination");
    reveal_strlit("=");
    reveal_strlit("Persistent");
    assert(t.subrange(0, "Network Destination"@.len() as int)[0] == 'N');
    assert(t[0] == 'N');
    if text::starts_with_text(t, "="@) {
        assert(t.subrange(0, "="@.len() as int)[0] == '=');
    }
    if text::starts_with_text(t, "Persistent"@) {
        assert(t.subrange(0, "Persistent"@.len() as int)[0] == 'P');
    }
}

/// Among the active routes, a line of five words or more that begins with an
/// address is a route with its destination and mask, gateway, interface and
/// metric; no line outside them is one.
pub proof fn law_windows_route(lines: Seq<Seq<char>>, line: Seq<char>)
    ensures
        windows_routes(seq![]).len() == 0,
        in_active_routes(lines) && text::words(text::trimmed(line)).len() >= 5 && ip::ipv4_value(
            text::words(text::trimmed(line))[0],
        ) is Some && !text::starts_with_text(text::trimmed(line), "Active Routes:"@)
            && !text::starts_with_text(text::trimmed(line), "Network Destination"@)
            && !text::starts_with_text(text::trimmed(line), "="@) && !text::starts_with_text(
            text::trimmed(line),
            "Persistent"@,
        ) ==> windows_routes(lines.push(line)) == windows_routes(lines).push(
            RouteRow {
                destination: text::words(text::trimmed(line))[0] + " "@ + text::words(
                    text::trimmed(line),
                )[1],
                gateway: text::words(text::trimmed(line))[2],
                interface: text::words(text::trimmed(line))[3],
                info: "metric "@ + text::words(text::trimmed(line))[4],
            },
        ),
        !in_active_routes(lines) || text::words(text::trimmed(line)).len() < 5 || ip::ipv4_value(
            text::words(text::trimmed(line))[0],
        ) is None ==> windows_routes(lines.push(line)) == windows_routes(lines),
{
    assert(lines.push(line).drop_last() =~= lines);
    let tl = text::trimmed(line);
    if tl.len() == 0 {
        text::lemma_space_words(tl);
    }
}

/// Each format of routes is read from the lines of the output, and each has the
/// command that prints it.
pub proof fn law_route_formats(raw: Seq<char>)
    ensures
        routes_of(RouteFormat::Netstat, raw) == bsd_routes(text::lines_of(raw)),
        routes_of(RouteFormat::IpRoute, raw) == ip_routes(text::lines_of(raw)),
        routes_of(RouteFormat::RoutePrint, raw) == windows_routes(text::lines_of(raw)),
        route_command_words(RouteFormat::Netstat).program == "netstat"@,
        route_command_words(RouteFormat::Netstat).args == seq!["-rn"@],
        route_command_words(RouteFormat::IpRoute).program == "ip"@,
        route_command_words(RouteFormat::IpRoute).args == seq!["route"@, "show"@],
        route_command_words(RouteFormat::RoutePrint).program == "route"@,
        route_command_words(RouteFormat::RoutePrint).args == seq!["print"@],
{
}

/// The text of the routes holds the output of both commands, the IPv4 routes
/// first where there are two.
pub proof fn law_raw_routes_are_kept(first: Seq<char>, second: Seq<char>)
    ensures
        routes_raw_text(first, None) == first,
        routes_raw_text(first, Some(second)) == "# IPv4\n"@ + first + "\n# IPv6\n"@ + second,
{
}

/// A resolver configuration names its servers one to a line, in order; the domain
/// is the last one that a `domain` line names, or else the first of the first
/// search list that has one.
pub proof fn law_resolver_line(lines: Seq<Seq<char>>, line: Seq<char>, value: Seq<char>)
    ensures
        resolver_settings(seq![]).domain is None,
        resolver_settings(seq![]).servers.len() == 0,
        text::trimmed(line) == "nameserver "@ + value ==> {
            let next = resolver_settings(lines.push(line));
            next.servers == resolver_settings(lines).servers.push(text::trimmed(value))
                && next.domain == resolver_settings(lines).domain
        },
        text::trimmed(line) == "domain "@ + value ==> {
            let next = resolver_settings(lines.push(line));
            next.domain == Some(text::trimmed(value)) && next.servers == resolver_settings(
                lines,
            ).servers
        },
        text::trimmed(line) == "search "@ + value ==> {
            let next = resolver_settings(lines.push(line));
            &&& next.servers == resolver_settings(lines).servers
            &&& next.domain == (match resolver_settings(lines).domain {
                Some(d) => Some(d),
                None => if text::words(value).len() > 0 {
                    Some(text::words(value)[0])
                } else {
                    None
                },
            })
        },
        !text::starts_with_text(text::trimmed(line), "nameserver "@) && !text::starts_with_text(
            text::trimmed(line),
            "domain "@,
        ) && !text::starts_with_text(text::trimmed(line), "search "@) ==> resolver_settings(
            lines.push(line),
        ) == resolver_settings(lines),
{
    assert(lines.push(line).drop_last() =~= lines);
    reveal_strlit("nameserver ");
    reveal_strlit("domain ");
    reveal_strlit("search ");
    let t = text::trimmed(line);
    let n = "nameserver "@;
    let d = "domain "@;
    let s = "search "@;
    assert(n[0] == 'n' && d[0] == 'd' && s[0] == 's');
    if t == n + value {
        assert(t.subrange(0, n.len() as int) =~= n);
        assert(t.skip(n.len() as int) =~= value);
        assert(t[0] == 'n');
        assert(!text::starts_with_text(t, d)) by {
            if text::starts_with_text(t, d) {
                assert(t.subrange(0, d.len() as int)[0] == 'd');
            }
        }
        assert(!text::starts_with_text(t, s)) by {
            if text::starts_with_text(t, s) {
                assert(t.subrange(0, s.len() as int)[0] == 's');
            }
        }
    }
    if t == d + value {
        assert(t.subrange(0, d.len() as int) =~= d);
        assert(t.skip(d.len() as int) =~= value);
    }
    if t == s + value {
        assert(t.subrange(0, s.len() as int) =~= s);
        assert(t.skip(s.len() as int) =~= value);
        assert(t[0] == 's');
        assert(!text::starts_with_text(t, d)) by {
            if text::starts_with_text(t, d) {
                assert(t.subrange(0, d.len() as int)[0] == 'd');
            }
        }
    }
}

/// Each raw section is headed by the command line that prints it, or by the path
/// of the file that it is read from.
pub proof fn law_raw_sections_are_named(os: Os)
    ensures
        raw_sections_of(os).len() == (if os == Os::Windows {
            2int
        } else {
            3
        }),
        forall|i: int|
            0 <= i < raw_sections_of(os).len() ==> match (#[trigger] raw_sections_of(os)[i]).1 {
                RawSourceView::Command(c) => raw_sections_of(os)[i].0 == c.program + " "@
                    + text::joined(c.args, " "@),
                RawSourceView::File(path) => raw_sections_of(os)[i].0 == path,
            },
{
    reveal_strlit(" ");
    reveal_strlit("ipconfig /all");
    reveal_strlit("ipconfig");
    reveal_strlit("/all");
    reveal_strlit("route print");
    reveal_strlit("route");
    reveal_strlit("print");
    reveal_strlit("ifconfig -a");
    reveal_strlit("ifconfig");
    reveal_strlit("-a");
    reveal_strlit("netstat -rn");
    reveal_strlit("netstat");
    reveal_strlit("-rn");
    reveal_strlit("scutil --dns");
    reveal_strlit("scutil");
    reveal_strlit("--dns");
    reveal_strlit("ip addr");
    reveal_strlit("ip route");
    reveal_strlit("ip");
    reveal_strlit("addr");
    let all = raw_sections_of(os);
    assert forall|i: int| 0 <= i < all.len() implies match (#[trigger] all[i]).1 {
        RawSourceView::Command(c) => all[i].0 == c.program + " "@ + text::joined(c.args, " "@),
        RawSourceView::File(path) => all[i].0 == path,
    } by {
        if let RawSourceView::Command(c) = all[i].1 {
            assert(c.args.len() == 1);
            assert(text::joined(c.args, " "@) == c.args[0]);
            assert(all[i].0 =~= c.program + " "@ + c.args[0]);
        }
    }
}

proof fn lemma_line_for(key: Seq<char>, values: Seq<Seq<char>>, i: int)
    requires
        0 <= i < values.len(),
    ensures
        text::contains_text(lines_for(key, values), key + values[i] + "\n"@),
    decreases values.len(),
{
    let before = values.drop_last();
    let line = report_line(key, values[i]);
    text::lemma_part_within(lines_for(key, before), report_line(key, values.last()), line);
    if i < before.len() {
        assert(before[i] == values[i]);
        lemma_line_for(key, before, i);
    }
}

/// The text of an interface has a line for each of its addresses, for its MAC
/// address and its gateway where it has them, and for all its name servers, and
/// says whether it is up.
pub proof fn law_interface_text_is_complete(row: IfaceRow, i: int)
    ensures
        0 <= i < row.ipv4.len() ==> text::contains_text(
            iface_text(row),
            "  IPv4    : "@ + row.ipv4[i] + "\n"@,
        ),
        0 <= i < row.ipv6.len() ==> text::contains_text(
            iface_text(row),
            "  IPv6    : "@ + row.ipv6[i] + "\n"@,
        ),
        row.mac matches Some(m) ==> text::contains_text(
            iface_text(row),
            "  MAC     : "@ + m + "\n"@,
        ),
        row.gateway matches Some(g) ==> text::contains_text(
            iface_text(row),
            "  Gateway : "@ + g + "\n"@,
        ),
        row.dns.len() > 0 ==> text::contains_text(
            iface_text(row),
            "  DNS     : "@ + text::joined(row.dns, ", "@) + "\n"@,
        ),
        row.is_up ==> text::contains_text(iface_text(row), "  State   : "@ + "UP"@ + "\n"@),
        !row.is_up ==> text::contains_text(iface_text(row), "  State   : "@ + "DOWN"@ + "\n"@),
        text::contains_text(iface_text(row), "  Type    : "@ + row.if_type + "\n"@),
        text::starts_with_text(iface_text(row), "\n["@ + row.name + "]"@),
{
    let state = report_line(
        "  State   : "@,
        if row.is_up {
            "UP"@
        } else {
            "DOWN"@
        },
    );
    let kind = report_line("  Type    : "@, row.if_type);
    let mac = optional_line("  MAC     : "@, row.mac);
    let v4 = lines_for("  IPv4    : "@, row.ipv4);
    let v6 = lines_for("  IPv6    : "@, row.ipv6);
    let gateway = optional_line("  Gateway : "@, row.gateway);
    let dns = if row.dns.len() == 0 {
        seq![]
    } else {
        report_line("  DNS     : "@, text::joined(row.dns, ", "@))
    };
    let title = iface_title(row);
    let a = title + state;
    let b = a + kind;
    let c = b + mac;
    let d = c + v4;
    let e = d + v6;
    let f = e + gateway;
    let all = iface_text(row);
    assert(all == f + dns);
    let head = "\n["@ + row.name + "]"@;
    assert(all.subrange(0, head.len() as int) =~= head);
    text::lemma_part_within(title, state, state);
    text::lemma_part_within(a, kind, state);
    text::lemma_part_within(b, mac, state);
    text::lemma_part_within(c, v4, state);
    text::lemma_part_within(d, v6, state);
    text::lemma_part_within(e, gateway, state);
    text::lemma_part_within(f, dns, state);
    text::lemma_part_within(a, kind, kind);
    text::lemma_part_within(b, mac, kind);
    text::lemma_part_within(c, v4, kind);
    text::lemma_part_within(d, v6, kind);
    text::lemma_part_within(e, gateway, kind);
    text::lemma_part_within(f, dns, kind);
    text::lemma_part_within(b, mac, mac);
    text::lemma_part_within(c, v4, mac);
    text::lemma_part_within(d, v6, mac);
    text::lemma_part_within(e, gateway, mac);
    text::lemma_part_within(f, dns, mac);
    text::lemma_part_within(e, gateway, gateway);
    text::lemma_part_within(f, dns, gateway);
    text::lemma_part_within(f, dns, dns);
    if 0 <= i < row.ipv4.len() {
        let line = "  IPv4    : "@ + row.ipv4[i] + "\n"@;
        lemma_line_for("  IPv4    : "@, row.ipv4, i);
        text::lemma_part_within(c, v4, line);
        text::lemma_part_within(d, v6, line);
        text::lemma_part_within(e, gateway, line);
        text::lemma_part_within(f, dns, line);
    }
    if 0 <= i < row.ipv6.len() {
        let line = "  IPv6    : "@ + row.ipv6[i] + "\n"@;
        lemma_line_for("  IPv6    : "@, row.ipv6, i);
        text::lemma_part_within(d, v6, line);
        text::lemma_part_within(e, gateway, line);
        text::lemma_part_within(f, dns, line);
    }
}

proof fn lemma_iface_among(rows: Seq<IfaceRow>, i: int)
    requires
        0 <= i < rows.len(),
    ensures
        text::contains_text(ifaces_text(rows), iface_text(rows[i])),
    decreases rows.len(),
{
    let before = rows.drop_last();
    text::lemma_part_within(ifaces_text(before), iface_text(rows.last()), iface_text(rows[i]));
    if i < before.len() {
        assert(before[i] == rows[i]);
        lemma_iface_among(before, i);
    }
}

proof fn lemma_route_among(rows: Seq<RouteRow>, i: int)
    requires
        0 <= i < rows.len(),
    ensures
        text::contains_text(route_lines(rows), route_line(rows[i])),
    decreases rows.len(),
{
    let before = rows.drop_last();
    text::lemma_part_within(route_lines(before), route_line(rows.last()), route_line(rows[i]));
    if i < before.len() {
        assert(before[i] == rows[i]);
        lemma_route_among(before, i);
    }
}

proof fn lemma_section_among(sections: Seq<(String, String)>, i: int)
    requires
        0 <= i < sections.len(),
    ensures
        text::contains_text(
            sections_text(sections),
            "\n=== "@ + sections[i].0@ + " ===\n"@ + sections[i].1@ + "\n"@,
        ),
    decreases sections.len(),
{
    let before = sections.drop_last();
    let last = "\n=== "@ + sections.last().0@ + " ===\n"@ + sections.last().1@ + "\n"@;
    text::lemma_part_within(
        sections_text(before),
        last,
        "\n=== "@ + sections[i].0@ + " ===\n"@ + sections[i].1@ + "\n"@,
    );
    if i < before.len() {
        assert(before[i] == sections[i]);
        lemma_section_among(before, i);
    }
}

/// A line of the table of routes has the values in columns: the destination from
/// the first on, the gateway from column 29, the interface from column 50 and
/// the details from column 61.
pub proof fn law_route_columns(row: RouteRow)
    requires
        row.destination.len() <= 28,
        row.gateway.len() <= 20,
        row.interface.len() <= 10,
    ensures
        ({
            let line = route_line(row);
            &&& line.len() == 62 + row.info.len()
            &&& line.subrange(0, row.destination.len() as int) == row.destination
            &&& line.subrange(29, 29int + row.gateway.len()) == row.gateway
            &&& line.subrange(50, 50int + row.interface.len()) == row.interface
            &&& line.subrange(61, 61int + row.info.len()) == row.info
            &&& line.last() == '\n'
        }),
{
    reveal_strlit(" ");
    reveal_strlit("\n");
    let line = route_line(row);
    assert(line.subrange(0, row.destination.len() as int) =~= row.destination);
    assert(line.subrange(29, 29int + row.gateway.len()) =~= row.gateway);
    assert(line.subrange(50, 50int + row.interface.len()) =~= row.interface);
    assert(line.subrange(61, 61int + row.info.len()) =~= row.info);
}

/// The report holds the text of every interface, a line for every route or the
/// raw output where none was read, and every raw section.
pub proof fn law_report_is_complete(report: NetReport, i: int)
    ensures
        0 <= i < report.interfaces@.len() ==> text::contains_text(
            report_of(report),
            iface_text(report.interfaces.deep_view()[i]),
        ),
        0 <= i < report.routes@.len() ==> text::contains_text(
            report_of(report),
            route_line(report.routes.deep_view()[i]),
        ),
        report.routes@.len() == 0 ==> text::contains_text(report_of(report), report.routes_raw@),
        0 <= i < report.raw_sections@.len() ==> text::contains_text(
            report_of(report),
            "\n=== "@ + report.raw_sections@[i].0@ + " ===\n"@ + report.raw_sections@[i].1@
                + "\n"@,
        ),
        text::contains_text(report_of(report), "Hostname : "@ + report.hostname@ + "\n"@),
        report.domain matches Some(d) ==> text::contains_text(
            report_of(report),
            "Domain   : "@ + d@ + "\n"@,
        ),
        report.dns_servers@.len() > 0 ==> text::contains_text(
            report_of(report),
            "DNS      : "@ + text::joined(report.dns_servers.deep_view(), ", "@) + "\n"@,
        ),
{
    let a = "NETWORK CONFIGURATION REPORT — generated "@ + report.generated_at@ + "\n\n"@;
    let host = report_line("Hostname : "@, report.hostname@);
    let domain = report_line(
        "Domain   : "@,
        arp::token_or(report.domain.deep_view(), "(none)"@),
    );
    let dns = report_line(
        "DNS      : "@,
        if report.dns_servers@.len() == 0 {
            "(none detected)"@
        } else {
            text::joined(report.dns_servers.deep_view(), ", "@)
        },
    );
    let ifaces = ifaces_text(report.interfaces.deep_view());
    let routes = routes_text(report.routes.deep_view(), report.routes_raw@);
    let sections = sections_text(report.raw_sections@);
    let b = a + host;
    let c = b + domain;
    let d = c + dns;
    let e = d + "\n"@;
    let f = e + "=== INTERFACES ===\n"@;
    let g = f + ifaces;
    let h = g + "\n=== ROUTES ===\n"@;
    let k = h + routes;
    assert(report_of(report) == k + sections);
    text::lemma_part_within(a, host, host);
    text::lemma_part_within(b, domain, host);
    text::lemma_part_within(c, dns, host);
    text::lemma_part_within(d, "\n"@, host);
    text::lemma_part_within(e, "=== INTERFACES ===\n"@, host);
    text::lemma_part_within(f, ifaces, host);
    text::lemma_part_within(g, "\n=== ROUTES ===\n"@, host);
    text::lemma_part_within(h, routes, host);
    text::lemma_part_within(k, sections, host);
    text::lemma_part_within(b, domain, domain);
    text::lemma_part_within(c, dns, domain);
    text::lemma_part_within(d, "\n"@, domain);
    text::lemma_part_within(e, "=== INTERFACES ===\n"@, domain);
    text::lemma_part_within(f, ifaces, domain);
    text::lemma_part_within(g, "\n=== ROUTES ===\n"@, domain);
    text::lemma_part_within(h, routes, domain);
    text::lemma_part_within(k, sections, domain);
    text::lemma_part_within(c, dns, dns);
    text::lemma_part_within(d, "\n"@, dns);
    text::lemma_part_within(e, "=== INTERFACES ===\n"@, dns);
    text::lemma_part_within(f, ifaces, dns);
    text::lemma_part_within(g, "\n=== ROUTES ===\n"@, dns);
    text::lemma_part_within(h, routes, dns);
    text::lemma_part_within(k, sections, dns);
    if 0 <= i < report.interfaces@.len() {
        let one = iface_text(report.interfaces.deep_view()[i]);
        lemma_iface_among(report.interfaces.deep_view(), i);
        text::lemma_part_within(f, ifaces, one);
        text::lemma_part_within(g, "\n=== ROUTES ===\n"@, one);
        text::lemma_part_within(h, routes, one);
        text::lemma_part_within(k, sections, one);
    }
    if report.routes@.len() == 0 {
        text::lemma_part_within(h, routes, routes);
        text::lemma_part_within(k, sections, routes);
    }
    if 0 <= i < report.routes@.len() {
        let rows = report.routes.deep_view();
        let one = route_line(rows[i]);
        lemma_route_among(rows, i);
        let heads = RouteRow {
            destination: "Destination"@,
            gateway: "Gateway"@,
            interface: "Interface"@,
            info: "Info"@,
        };
        text::lemma_part_within(route_line(heads), route_lines(rows), one);
        text::lemma_part_within(h, routes, one);
        text::lemma_part_within(k, sections, one);
    }
    if 0 <= i < report.raw_sections@.len() {
        lemma_section_among(report.raw_sections@, i);
        let one = "\n=== "@ + report.raw_sections@[i].0@ + " ===\n"@ + report.raw_sections@[i].1@
            + "\n"@;
        text::lemma_part_within(k, sections, one);
    }
}

/// The title of an interface has its name, its other name where it has a
/// different one, and a mark where it is the default interface.
pub proof fn law_interface_title(row: IfaceRow)
    ensures
        row.friendly_name is None && !row.is_default ==> iface_title(row) == "\n["@ + row.name
            + "]"@ + "\n"@,
        row.friendly_name == Some(row.name) && !row.is_default ==> iface_title(row) == "\n["@
            + row.name + "]"@ + "\n"@,
        row.friendly_name matches Some(f) ==> (f != row.name ==> text::contains_text(
            iface_title(row),
            "]"@ + " ("@ + f + ")"@,
        )),
        row.is_default ==> text::contains_text(
            iface_title(row),
            "  [default interface]"@ + "\n"@,
        ),
{
    reveal_strlit("");
    let t = iface_title(row);
    let head = "\n["@ + row.name;
    let other = match row.friendly_name {
        Some(f) => if f != row.name {
            " ("@ + f + ")"@
        } else {
            seq![]
        },
        None => seq![],
    };
    let mark = if row.is_default {
        "  [default interface]"@
    } else {
        ""@
    };
    assert(t == head + "]"@ + other + mark + "\n"@);
    if other.len() == 0 && !row.is_default {
        assert(t =~= head + "]"@ + "\n"@);
    }
    if let Some(f) = row.friendly_name {
        if f != row.name {
            let shown = "]"@ + " ("@ + f + ")"@;
            assert(t =~= head + shown + (mark + "\n"@));
            text::law_text_within(t, shown);
        }
    }
    if row.is_default {
        let shown = "  [default interface]"@ + "\n"@;
        assert(t =~= (head + "]"@ + other) + shown + seq![]);
        text::law_text_within(t, shown);
    }
}

/// Where there is no domain or no name server, the report says so.
pub proof fn law_report_defaults(report: NetReport)
    ensures
        report.domain is None ==> text::contains_text(
            report_of(report),
            "Domain   : "@ + "(none)"@ + "\n"@,
        ),
        report.dns_servers@.len() == 0 ==> text::contains_text(
            report_of(report),
            "DNS      : "@ + "(none detected)"@ + "\n"@,
        ),
{
    let a = "NETWORK CONFIGURATION REPORT — generated "@ + report.generated_at@ + "\n\n"@;
    let b = a + report_line("Hostname : "@, report.hostname@);
    let domain = report_line(
        "Domain   : "@,
        arp::token_or(report.domain.deep_view(), "(none)"@),
    );
    let dns = report_line(
        "DNS      : "@,
        if report.dns_servers@.len() == 0 {
            "(none detected)"@
        } else {
            text::joined(report.dns_servers.deep_view(), ", "@)
        },
    );
    let ifaces = ifaces_text(report.interfaces.deep_view());
    let routes = routes_text(report.routes.deep_view(), report.routes_raw@);
    let sections = sections_text(report.raw_sections@);
    let rest = "\n"@ + "=== INTERFACES ===\n"@ + ifaces + "\n=== ROUTES ===\n"@ + routes + sections;
    assert(report_of(report) =~= b + domain + (dns + rest));
    assert(report_of(report) =~= (b + domain) + dns + rest);
    text::law_text_within(report_of(report), domain);
    text::law_text_within(report_of(report), dns);
}

/// The parts of a report come in order: the time, the host, its domain and name
/// servers, the interfaces, the routes and the raw sections.
pub proof fn law_report_order(report: NetReport)
    ensures
        exists|a: Seq<char>, b: Seq<char>, c: Seq<char>|
            report_of(report) == #[trigger] (a + "=== INTERFACES ===\n"@ + b
                + "\n=== ROUTES ===\n"@ + c) && text::starts_with_text(
                a,
                "NETWORK CONFIGURATION REPORT — generated "@ + report.generated_at@,
            ) && b == ifaces_text(report.interfaces.deep_view()) && c == routes_text(
                report.routes.deep_view(),
                report.routes_raw@,
            ) + sections_text(report.raw_sections@),
{
    let head = "NETWORK CONFIGURATION REPORT — generated "@ + report.generated_at@;
    let domain = report_line(
        "Domain   : "@,
        arp::token_or(report.domain.deep_view(), "(none)"@),
    );
    let dns = report_line(
        "DNS      : "@,
        if report.dns_servers@.len() == 0 {
            "(none detected)"@
        } else {
            text::joined(report.dns_servers.deep_view(), ", "@)
        },
    );
    let a = head + "\n\n"@ + report_line("Hostname : "@, report.hostname@) + domain + dns + "\n"@;
    let b = ifaces_text(report.interfaces.deep_view());
    let c = routes_text(report.routes.deep_view(), report.routes_raw@) + sections_text(
        report.raw_sections@,
    );
    assert(a.subrange(0, head.len() as int) =~= head);
    assert(report_of(report) =~= a + "=== INTERFACES ===\n"@ + b + "\n=== ROUTES ===\n"@ + c);
}

/// The details of a route come in a fixed order: protocol, scope, metric and
/// source.
pub proof fn law_route_details(line: Seq<char>, p: Seq<char>, s: Seq<char>, m: Seq<char>, r: Seq<char>)
    requires
        ip_route(line) is Some,
        text::token_following(text::words(line), "proto"@) == Some(p),
        text::token_following(text::words(line), "scope"@) == Some(s),
        text::token_following(text::words(line), "metric"@) == Some(m),
        text::token_following(text::words(line), "src"@) == Some(r),
    ensures
        ip_route(line)->0.info == text::joined(
            seq!["proto "@ + p, "scope "@ + s, "metric "@ + m, "src "@ + r],
            ", "@,
        ),
{
    reveal_strlit(" ");
    reveal_strlit("proto");
    reveal_strlit("scope");
    reveal_strlit("metric");
    reveal_strlit("src");
    reveal_strlit("proto ");
    reveal_strlit("scope ");
    reveal_strlit("metric ");
    reveal_strlit("src ");
    let t = text::words(line);
    assert("proto"@ + " "@ + p =~= "proto "@ + p);
    assert("scope"@ + " "@ + s =~= "scope "@ + s);
    assert("metric"@ + " "@ + m =~= "metric "@ + m);
    assert("src"@ + " "@ + r =~= "src "@ + r);
    let all = keyword_value(t, "proto"@) + keyword_value(t, "scope"@) + keyword_value(t, "metric"@)
        + keyword_value(t, "src"@);
    assert(all =~= seq!["proto "@ + p, "scope "@ + s, "metric "@ + m, "src "@ + r]);
}

/// The gateway of an interface is shown by its addresses, IPv4 before IPv6, with
/// its MAC address behind them.
pub proof fn law_gateway_text(g: Gateway)
    ensures
        gateway_addresses(g).len() == g.ipv4@.len() + g.ipv6@.len(),
        forall|i: int|
            0 <= i < g.ipv4@.len() ==> #[trigger] gateway_addresses(g)[i] == ip::ipv4_text(
                g.ipv4@[i],
            ),
        forall|i: int|
            0 <= i < g.ipv6@.len() ==> gateway_addresses(g)[g.ipv4@.len() + i] == (
            #[trigger] g.ipv6@[i])@,
        gateway_text(g) == text::joined(gateway_addresses(g), ", "@) + " (MAC "@ + g.mac@ + ")"@,
{
}

/// The table of routes has its headings in the first line.
pub proof fn law_routes_have_headings(rows: Seq<RouteRow>, raw: Seq<char>)
    requires
        rows.len() > 0,
    ensures
        text::starts_with_text(routes_text(rows, raw), "Destination"@),
        routes_text(rows, raw).subrange(29, 29int + "Gateway"@.len()) == "Gateway"@,
        routes_text(rows, raw).subrange(50, 50int + "Interface"@.len()) == "Interface"@,
        routes_text(rows, raw).subrange(61, 61int + "Info"@.len()) == "Info"@,
{
    reveal_strlit("Destination");
    reveal_strlit("Gateway");
    reveal_strlit("Interface");
    reveal_strlit("Info");
    let heads = RouteRow {
        destination: "Destination"@,
        gateway: "Gateway"@,
        interface: "Interface"@,
        info: "Info"@,
    };
    law_route_columns(heads);
    let first = route_line(heads);
    let all = routes_text(rows, raw);
    assert(all == first + route_lines(rows));
    assert(all.subrange(0, heads.destination.len() as int) =~= first.subrange(
        0,
        heads.destination.len() as int,
    ));
    assert(all.subrange(29, 29int + "Gateway"@.len()) =~= first.subrange(
        29,
        29int + "Gateway"@.len(),
    ));
    assert(all.subrange(50, 50int + "Interface"@.len()) =~= first.subrange(
        50,
        50int + "Interface"@.len(),
    ));
    assert(all.subrange(61, 61int + "Info"@.len()) =~= first.subrange(61, 61int + "Info"@.len()));
}

/// The raw sections of each system: the interfaces first, then the routes, and
/// on Unix the resolver behind them.
pub proof fn law_raw_sections()
    ensures
        raw_sections_of(Os::Windows)[0].0 == "ipconfig /all"@,
        raw_sections_of(Os::Windows)[1].0 == "route print"@,
        raw_sections_of(Os::MacOs)[0].0 == "ifconfig -a"@,
        raw_sections_of(Os::MacOs)[1].0 == "netstat -rn"@,
        raw_sections_of(Os::MacOs)[2].0 == "scutil --dns"@,
        raw_sections_of(Os::Unix)[0].0 == "ip addr"@,
        raw_sections_of(Os::Unix)[1].0 == "ip route"@,
        raw_sections_of(Os::Unix)[2].0 == "/etc/resolv.conf"@,
        raw_sections_of(Os::Unix)[2].1 is File,
{
}

/// Interfaces, routes and sections come in order in the report.
pub proof fn law_report_keeps_order(
    ifaces: Seq<IfaceRow>,
    iface: IfaceRow,
    routes: Seq<RouteRow>,
    route: RouteRow,
    sections: Seq<(String, String)>,
    section: (String, String),
)
    ensures
        ifaces_text(seq![]).len() == 0,
        ifaces_text(ifaces.push(iface)) == ifaces_text(ifaces) + iface_text(iface),
        route_lines(seq![]).len() == 0,
        route_lines(routes.push(route)) == route_lines(routes) + route_line(route),
        sections_text(seq![]).len() == 0,
        sections_text(sections.push(section)) == sections_text(sections) + ("\n=== "@ + section.0@
            + " ===\n"@ + section.1@ + "\n"@),
{
    assert(ifaces.push(iface).drop_last() =~= ifaces);
    assert(routes.push(route).drop_last() =~= routes);
    assert(sections.push(section).drop_last() =~= sections);
}

/// A line of the table of routes holds all its values in full, however long they
/// are.
pub proof fn law_route_line_holds_values(row: RouteRow)
    ensures
        route_line(row) == text::padded(row.destination, 28) + " "@ + text::padded(row.gateway, 20)
            + " "@ + text::padded(row.interface, 10) + " "@ + row.info + "\n"@,
{
}

/// The lines of an interface come in order: its state and type, its MAC address,
/// its IPv4 and IPv6 addresses, its gateway and its name servers.
pub proof fn law_interface_lines_in_order(row: IfaceRow, v4: Seq<char>, v6: Seq<char>)
    requires
        row.ipv4 == seq![v4],
        row.ipv6 == seq![v6],
        row.mac is Some,
        row.gateway is Some,
        row.dns.len() > 0,
    ensures
        iface_text(row) == iface_title(row) + ("  State   : "@ + (if row.is_up {
            "UP"@
        } else {
            "DOWN"@
        }) + "\n"@) + ("  Type    : "@ + row.if_type + "\n"@) + ("  MAC     : "@ + row.mac->0
            + "\n"@) + ("  IPv4    : "@ + v4 + "\n"@) + ("  IPv6    : "@ + v6 + "\n"@) + (
        "  Gateway : "@ + row.gateway->0 + "\n"@) + ("  DNS     : "@ + text::joined(row.dns, ", "@)
            + "\n"@),
{
    let none = Seq::<Seq<char>>::empty();
    assert(seq![v4].drop_last() =~= none);
    assert(seq![v6].drop_last() =~= none);
    assert(lines_for("  IPv4    : "@, none) =~= seq![]);
    assert(lines_for("  IPv6    : "@, none) =~= seq![]);
    assert(lines_for("  IPv4    : "@, row.ipv4) =~= "  IPv4    : "@ + v4 + "\n"@);
    assert(lines_for("  IPv6    : "@, row.ipv6) =~= "  IPv6    : "@ + v6 + "\n"@);
}

} // verus!
