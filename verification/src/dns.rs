//! DNS lookup: names are resolved, or IPs reverse-resolved, with the system
//! resolver and with custom DNS servers, so that answers from different servers
//! can be compared.

use crate::ip::{self, IpAddr};
use crate::session;
use crate::source::{self, SourceConfig};
use crate::text;
use crate::units::Nanos;
use std::str::FromStr;
use vstd::prelude::*;

verus! {

/// The answer of one server to one query.
#[derive(Debug)]
pub struct DnsAnswer {
    pub timestamp: String,
    pub query: String,
    pub rtype: String,
    pub server: String,
    pub records: Vec<String>,
    pub duration: Nanos,
    pub error: Option<String>,
}

/// What an answer says.
pub struct AnswerView {
    pub timestamp: Seq<char>,
    pub query: Seq<char>,
    pub rtype: Seq<char>,
    pub server: Seq<char>,
    pub records: Seq<Seq<char>>,
    pub duration: Nanos,
    pub error: Option<Seq<char>>,
}

impl DeepView for DnsAnswer {
    type V = AnswerView;

    open spec fn deep_view(&self) -> AnswerView {
        AnswerView {
            timestamp: self.timestamp@,
            query: self.query@,
            rtype: self.rtype@,
            server: self.server@,
            records: self.records.deep_view(),
            duration: self.duration,
            error: self.error.deep_view(),
        }
    }
}

/// What a lookup reports.
#[derive(Debug)]
pub enum DnsEvent {
    Answer(DnsAnswer),
    Done,
}

// --------------------------------------------------------------- Record types

/// The record types to choose from.
pub open spec fn offered_types() -> Seq<Seq<char>> {
    seq!["A"@, "AAAA"@, "CNAME"@, "MX"@, "NS"@, "TXT"@, "SOA"@, "SRV"@, "PTR"@]
}

/// The record types to choose from.
pub fn record_types() -> (r: Vec<String>)
    ensures
        r.deep_view() == offered_types(),
{
    let r = vec![
        "A".to_owned(),
        "AAAA".to_owned(),
        "CNAME".to_owned(),
        "MX".to_owned(),
        "NS".to_owned(),
        "TXT".to_owned(),
        "SOA".to_owned(),
        "SRV".to_owned(),
        "PTR".to_owned(),
    ];
    assert(r.deep_view() =~= offered_types());
    r
}

/// The number of a record type that the resolver knows by name.
pub open spec fn record_code(name: Seq<char>) -> Option<u16> {
    if name == "A"@ {
        Some(1)
    } else if name == "AAAA"@ {
        Some(28)
    } else if name == "ANAME"@ {
        Some(65305)
    } else if name == "AXFR"@ {
        Some(252)
    } else if name == "CAA"@ {
        Some(257)
    } else if name == "CDNSKEY"@ {
        Some(60)
    } else if name == "CDS"@ {
        Some(59)
    } else if name == "CNAME"@ {
        Some(5)
    } else if name == "CSYNC"@ {
        Some(62)
    } else if name == "DNSKEY"@ {
        Some(48)
    } else if name == "DS"@ {
        Some(43)
    } else if name == "HINFO"@ {
        Some(13)
    } else if name == "HTTPS"@ {
        Some(65)
    } else if name == "KEY"@ {
        Some(25)
    } else if name == "MX"@ {
        Some(15)
    } else if name == "NAPTR"@ {
        Some(35)
    } else if name == "NSEC"@ {
        Some(47)
    } else if name == "NSEC3"@ {
        Some(50)
    } else if name == "NSEC3PARAM"@ {
        Some(51)
    } else if name == "NS"@ {
        Some(2)
    } else if name == "NULL"@ {
        Some(10)
    } else if name == "OPENPGPKEY"@ {
        Some(61)
    } else if name == "PTR"@ {
        Some(12)
    } else if name == "RRSIG"@ {
        Some(46)
    } else if name == "SIG"@ {
        Some(24)
    } else if name == "SOA"@ {
        Some(6)
    } else if name == "SRV"@ {
        Some(33)
    } else if name == "SSHFP"@ {
        Some(44)
    } else if name == "SVCB"@ {
        Some(64)
    } else if name == "TLSA"@ {
        Some(52)
    } else if name == "TXT"@ {
        Some(16)
    } else if name == "TSIG"@ {
        Some(250)
    } else if name == "ANY"@ || name == "*"@ {
        Some(255)
    } else {
        None
    }
}

/// Whether a text holds no lowercase ASCII letter.
pub open spec fn no_lowercase(s: Seq<char>) -> bool {
    forall|i: int| 0 <= i < s.len() ==> !('a' <= #[trigger] s[i] <= 'z')
}

/// `RecordType::from_str` of `hickory_resolver`, with the number of the type by
/// `u16::from`: the names of the types it knows, and their numbers. Texts with
/// lowercase letters are left out: debug builds of that function do not take
/// them.
#[verifier::external_body]
fn resolver_type(name: &str) -> (r: Option<u16>)
    requires
        no_lowercase(name@),
    ensures
        r == record_code(name@),
{
    hickory_resolver::proto::rr::RecordType::from_str(name).ok().map(u16::from)
}

fn check_no_lowercase(s: &str) -> (r: bool)
    ensures
        r == no_lowercase(s@),
{
    let cs = text::chars_of(s);
    let mut i: usize = 0;
    while i < cs.len()
        invariant
            cs@ == s@,
            i <= cs@.len(),
            forall|j: int| 0 <= j < i ==> !('a' <= #[trigger] cs@[j] <= 'z'),
        decreases cs@.len() - i,
    {
        if 'a' <= cs[i] && cs[i] <= 'z' {
            return false;
        }
        i += 1;
    }
    true
}

/// The number of the record type that a text names in capitals.
pub open spec fn type_of(rtype: Seq<char>) -> Option<u16> {
    if no_lowercase(text::trimmed(rtype)) {
        record_code(text::trimmed(rtype))
    } else {
        None
    }
}

/// The number of the record type that a text names.
pub fn record_type(rtype: &str) -> (r: Option<u16>)
    ensures
        r == type_of(rtype@),
{
    let name = text::trim(rtype);
    if check_no_lowercase(name.as_str()) {
        resolver_type(name.as_str())
    } else {
        None
    }
}

// ------------------------------------------------------------------- Requests

/// The custom servers and the entries that are no addresses, of a list with one
/// entry a line; blank lines are passed over.
pub open spec fn servers_in(lines: Seq<Seq<char>>) -> (Seq<IpAddr>, Seq<Seq<char>>)
    decreases lines.len(),
{
    if lines.len() == 0 {
        (seq![], seq![])
    } else {
        let (good, bad) = servers_in(lines.drop_last());
        let t = text::trimmed(lines.last());
        if t.len() == 0 {
            (good, bad)
        } else {
            match ip::ip_value(t) {
                Some(ip) => (good.push(ip), bad),
                None => (good, bad.push(t)),
            }
        }
    }
}

/// The custom servers of a list with one address a line.
pub fn parse_servers(list: &str) -> (r: Result<Vec<IpAddr>, String>)
    ensures
        ({
            let (good, bad) = servers_in(text::lines_of(list@));
            if bad.len() == 0 {
                r is Ok && r->Ok_0@ == good
            } else {
                r is Err && r->Err_0@ == "Invalid DNS server address: "@ + text::joined(bad, ", "@)
            }
        }),
{
    let lines = text::split_lines(list);
    let ghost lv = text::lines_of(list@);
    let mut good: Vec<IpAddr> = Vec::new();
    let mut bad: Vec<String> = Vec::new();
    let mut i: usize = 0;
    assert(lv.take(0) =~= seq![]);
    assert(bad.deep_view() =~= seq![]);
    while i < lines.len()
        invariant
            lv == lines.deep_view(),
            i <= lines@.len(),
            good@ == servers_in(lv.take(i as int)).0,
            bad.deep_view() == servers_in(lv.take(i as int)).1,
        decreases lines@.len() - i,
    {
        assert(lv.take(i + 1).drop_last() =~= lv.take(i as int));
        assert(lv.take(i + 1).last() == lines@[i as int]@);
        let t = text::trim(lines[i].as_str());
        if !t.as_str().is_empty() {
            match ip::parse_ip(t.as_str()) {
                Some(ip) => {
                    good.push(ip);
                },
                None => {
                    let ghost before = bad;
                    bad.push(t);
                    proof {
                        text::lemma_pushed_view(before, bad, t);
                    }
                },
            }
        }
        i += 1;
    }
    assert(lv.take(i as int) =~= lv);
    if bad.len() == 0 {
        Ok(good)
    } else {
        let mut s = "Invalid DNS server address: ".to_owned();
        s.append(text::join(&bad, ", ").as_str());
        Err(s)
    }
}

/// What is wrong with a request, if anything: it needs a target, a server and
/// a known record type.
pub open spec fn request_error(
    targets: nat,
    rtype: Seq<char>,
    use_system: bool,
    custom: nat,
) -> Option<Seq<char>> {
    if targets == 0 {
        Some("Enter at least one name or IP to resolve."@)
    } else if !use_system && custom == 0 {
        Some("Enable system DNS or provide at least one custom server."@)
    } else if type_of(rtype) is None {
        Some("unsupported record type: "@ + rtype)
    } else {
        None
    }
}

/// Checks a request; the number of its record type.
pub fn check_request(targets: usize, rtype: &str, use_system: bool, custom: usize) -> (r: Result<
    u16,
    String,
>)
    ensures
        match request_error(targets as nat, rtype@, use_system, custom as nat) {
            Some(e) => r is Err && r->Err_0@ == e,
            None => r is Ok && Some(r->Ok_0) == type_of(rtype@),
        },
{
    if targets == 0 {
        return Err("Enter at least one name or IP to resolve.".to_owned());
    }
    if !use_system && custom == 0 {
        return Err("Enable system DNS or provide at least one custom server.".to_owned());
    }
    match record_type(rtype) {
        Some(code) => Ok(code),
        None => {
            let mut s = "unsupported record type: ".to_owned();
            s.append(rtype);
            Err(s)
        },
    }
}

/// The record types offered are all known: a request for one of them is never
/// refused for its type.
pub proof fn law_offered_types_are_known(i: int)
    requires
        0 <= i < offered_types().len(),
    ensures
        type_of(offered_types()[i]) is Some,
{
    let name = offered_types()[i];
    reveal_strlit("A");
    reveal_strlit("AAAA");
    reveal_strlit("CNAME");
    reveal_strlit("MX");
    reveal_strlit("NS");
    reveal_strlit("TXT");
    reveal_strlit("SOA");
    reveal_strlit("SRV");
    reveal_strlit("PTR");
    assert(i == 0 || i == 1 || i == 2 || i == 3 || i == 4 || i == 5 || i == 6 || i == 7 || i == 8);
    assert(record_code(name) is Some);
    assert(name.len() > 0 && 'A' <= name[0] <= 'Z' && 'A' <= name.last() <= 'Z');
    assert(text::trimmed(name) =~= name);
}

// -------------------------------------------------------------------- Servers

/// The time that a server has for an answer.
pub const QUERY_TIMEOUT: Nanos = 3_000_000_000;

/// How often a query is sent to a server.
pub const QUERY_ATTEMPTS: usize = 1;

/// How to reach a custom server.
#[derive(Clone, Copy, Debug, PartialEq, Eq, Structural)]
pub struct NameServer {
    pub ip: IpAddr,
    pub port: u16,
    pub tcp: bool,
    pub bind: Option<IpAddr>,
}

/// The ways to reach a custom server: UDP first, then TCP, both from the local
/// address that the source asks for. The source applies to custom servers
/// only; the system resolver keeps its own routing.
pub fn name_servers(server: IpAddr, source: &SourceConfig) -> (r: Result<Vec<NameServer>, String>)
    ensures
        match source::binding(source.deep_view(), server) {
            Ok(bind) => r is Ok && r->Ok_0@ == endpoints(server, bind),
            Err(e) => r is Err && r->Err_0@ == e,
        },
{
    match source.bind_ip_for(&server) {
        Ok(bind) => {
            let r = vec![
                NameServer { ip: server, port: 53, tcp: false, bind },
                NameServer { ip: server, port: 53, tcp: true, bind },
            ];
            assert(r@ =~= endpoints(server, bind));
            Ok(r)
        },
        Err(e) => Err(e),
    }
}

/// The two ways to reach a server.
pub open spec fn endpoints(server: IpAddr, bind: Option<IpAddr>) -> Seq<NameServer> {
    seq![
        NameServer { ip: server, port: 53, tcp: false, bind },
        NameServer { ip: server, port: 53, tcp: true, bind },
    ]
}

/// The answer that tells of a server that could not be set up.
pub fn setup_failure(timestamp: &str, rtype: &str, server: &str, error: &str) -> (r: DnsAnswer)
    ensures
        r.deep_view() == (AnswerView {
            timestamp: timestamp@,
            query: "(resolver setup)"@,
            rtype: rtype@,
            server: server@,
            records: seq![],
            duration: 0,
            error: Some(error@),
        }),
{
    let r = DnsAnswer {
        timestamp: timestamp.to_owned(),
        query: "(resolver setup)".to_owned(),
        rtype: rtype.to_owned(),
        server: server.to_owned(),
        records: Vec::new(),
        duration: 0,
        error: Some(error.to_owned()),
    };
    assert(r.records.deep_view() =~= seq![]);
    r
}

/// The error for a system configuration that cannot be read.
pub fn system_error(error: &str) -> (r: String)
    ensures
        r@ == "cannot read system DNS configuration: "@ + error@,
{
    let mut s = "cannot read system DNS configuration: ".to_owned();
    s.append(error);
    s
}

// -------------------------------------------------------------------- Lookups

/// What to ask a server.
#[derive(Clone, Copy, Debug, PartialEq, Eq, Structural)]
pub enum Lookup {
    /// The name of an address.
    Reverse(IpAddr),
    /// The records of a type, by its number.
    Forward(u16),
}

/// What to ask for a target: an IP means a reverse (PTR) lookup, whatever the
/// selected record type.
pub open spec fn lookup_of(target: Seq<char>, code: u16) -> Lookup {
    match ip::ip_value(target) {
        Some(ip) => Lookup::Reverse(ip),
        None => Lookup::Forward(code),
    }
}

/// What to ask a server for a target.
pub fn lookup_for(target: &str, code: u16) -> (r: Lookup)
    ensures
        r == lookup_of(target@, code),
{
    match ip::parse_ip(target) {
        Some(ip) => Lookup::Reverse(ip),
        None => Lookup::Forward(code),
    }
}

/// The record type that an answer for a target shows.
pub open spec fn shown_type(target: Seq<char>, rtype: Seq<char>) -> Seq<char> {
    if ip::ip_value(target) is Some {
        "PTR"@
    } else {
        rtype
    }
}

/// The answer of a server for a target.
pub fn answer(
    timestamp: &str,
    target: &str,
    rtype: &str,
    server: &str,
    result: Result<Vec<String>, String>,
    duration: Nanos,
) -> (r: DnsAnswer)
    ensures
        r.deep_view() == (AnswerView {
            timestamp: timestamp@,
            query: target@,
            rtype: shown_type(target@, rtype@),
            server: server@,
            records: match result {
                Ok(records) => records.deep_view(),
                Err(_) => seq![],
            },
            duration,
            error: match result {
                Ok(_) => None,
                Err(e) => Some(e@),
            },
        }),
{
    let shown = match ip::parse_ip(target) {
        Some(_) => "PTR",
        None => rtype,
    };
    let (records, error): (Vec<String>, Option<String>) = match result {
        Ok(records) => (records, None),
        Err(e) => (Vec::new(), Some(e)),
    };
    if error.is_some() {
        assert(records.deep_view() =~= seq![]);
    }
    DnsAnswer {
        timestamp: timestamp.to_owned(),
        query: target.to_owned(),
        rtype: shown.to_owned(),
        server: server.to_owned(),
        records,
        duration,
        error,
    }
}

/// Entering an IP address performs a reverse lookup, and the answer says so,
/// whatever record type was selected.
pub proof fn law_address_is_looked_up_in_reverse(target: Seq<char>, code: u16, rtype: Seq<char>)
    requires
        ip::ip_value(target) is Some,
    ensures
        lookup_of(target, code) == Lookup::Reverse(ip::ip_value(target)->0),
        shown_type(target, rtype) == "PTR"@,
{
}

/// The queries of a run, as positions of targets and servers: every target is
/// asked of every server, one target after another.
pub open spec fn queries_of(targets: nat, servers: nat) -> Seq<(int, int)>
    decreases targets,
{
    if targets == 0 {
        seq![]
    } else {
        queries_of((targets - 1) as nat, servers) + Seq::new(
            servers,
            |s: int| (targets - 1, s),
        )
    }
}

/// Positions as numbers.
pub open spec fn as_positions(v: Seq<(usize, usize)>) -> Seq<(int, int)> {
    Seq::new(v.len(), |i: int| (v[i].0 as int, v[i].1 as int))
}

/// The queries of a run, as positions of targets and servers.
pub fn queries(targets: usize, servers: usize) -> (r: Vec<(usize, usize)>)
    ensures
        as_positions(r@) == queries_of(targets as nat, servers as nat),
{
    let mut out: Vec<(usize, usize)> = Vec::new();
    let mut t: usize = 0;
    assert(as_positions(out@) =~= queries_of(0, servers as nat));
    while t < targets
        invariant
            t <= targets,
            as_positions(out@) == queries_of(t as nat, servers as nat),
        decreases targets - t,
    {
        let ghost before = as_positions(out@);
        let ghost row = Seq::new(servers as nat, |s: int| (t as int, s));
        let mut s: usize = 0;
        assert(before + row.take(0) =~= before);
        while s < servers
            invariant
                s <= servers,
                row == Seq::new(servers as nat, |s: int| (t as int, s)),
                as_positions(out@) == before + row.take(s as int),
            decreases servers - s,
        {
            let ghost earlier = out@;
            out.push((t, s));
            s += 1;
            assert(as_positions(out@) =~= as_positions(earlier).push((t as int, s - 1)));
            assert(row.take(s as int) =~= row.take(s - 1).push((t as int, s - 1)));
            assert(as_positions(out@) =~= before + row.take(s as int));
        }
        t += 1;
        assert(row.take(s as int) =~= row);
        assert(as_positions(out@) =~= queries_of(t as nat, servers as nat));
    }
    out
}

/// Every target is asked of every server, and no question is asked twice.
pub proof fn law_queries_are_complete(targets: nat, servers: nat)
    ensures
        queries_of(targets, servers).no_duplicates(),
        forall|t: int, s: int|
            #[trigger] queries_of(targets, servers).contains((t, s)) <==> 0 <= t < targets && 0 <= s
                < servers,
    decreases targets,
{
    if targets > 0 {
        let before = queries_of((targets - 1) as nat, servers);
        let row = Seq::new(servers, |s: int| (targets - 1, s));
        let all = queries_of(targets, servers);
        law_queries_are_complete((targets - 1) as nat, servers);
        assert forall|t: int, s: int|
            #[trigger] all.contains((t, s)) <==> 0 <= t < targets && 0 <= s < servers by {
            assert(before.contains((t, s)) <==> 0 <= t < targets - 1 && 0 <= s < servers);
            if before.contains((t, s)) {
                let k = choose|k: int| 0 <= k < before.len() && before[k] == (t, s);
                assert(all[k] == (t, s));
            }
            if t == targets - 1 && 0 <= s < servers {
                assert(all[before.len() + s] == (t, s));
            }
            if all.contains((t, s)) {
                let k = choose|k: int| 0 <= k < all.len() && all[k] == (t, s);
                if k < before.len() {
                    assert(before[k] == (t, s));
                } else {
                    assert(all[k] == row[k - before.len()]);
                }
            }
        }
        assert forall|i: int, j: int| 0 <= i < all.len() && 0 <= j < all.len() && i != j implies
            all[i] != all[j] by {
            if i < before.len() {
                assert(before[i] == all[i]);
                assert(before.contains((before[i].0, before[i].1)));
            }
            if j < before.len() {
                assert(before[j] == all[j]);
                assert(before.contains((before[j].0, before[j].1)));
            }
        }
    }
}

/// A server that is asked.
#[derive(Clone, Copy, Debug, PartialEq, Eq, Structural)]
pub enum Server {
    System,
    Custom(IpAddr),
}

/// The servers of a run, in the order in which they are set up and asked: the
/// system's, if it is used, then the custom ones.
pub open spec fn servers_of(use_system: bool, custom: Seq<IpAddr>) -> Seq<Server> {
    (if use_system {
        seq![Server::System]
    } else {
        seq![]
    }) + Seq::new(custom.len(), |i: int| Server::Custom(custom[i]))
}

/// The servers of a run, in the order in which they are set up and asked.
pub fn servers(use_system: bool, custom: &Vec<IpAddr>) -> (r: Vec<Server>)
    ensures
        r@ == servers_of(use_system, custom@),
{
    let mut out: Vec<Server> = Vec::new();
    if use_system {
        out.push(Server::System);
    }
    let ghost head = out@;
    let mut i: usize = 0;
    while i < custom.len()
        invariant
            i <= custom@.len(),
            out@ =~= head + Seq::new(i as nat, |j: int| Server::Custom(custom@[j])),
        decreases custom@.len() - i,
    {
        out.push(Server::Custom(custom[i]));
        i += 1;
    }
    assert(out@ =~= servers_of(use_system, custom@));
    out
}

/// The run of a request: the queries, and how many were answered.
#[derive(Debug)]
pub struct DnsRun {
    pub queries: Vec<(usize, usize)>,
    pub answered: usize,
}

/// The report that a run is done, once that many queries were answered.
pub open spec fn done_report(queries: nat, answered: nat) -> Seq<DnsEvent> {
    if answered == queries {
        seq![DnsEvent::Done]
    } else {
        seq![]
    }
}

/// All that a run has reported once its first queries had the given answers.
pub open spec fn run_reports(queries: nat, answers: Seq<DnsAnswer>) -> Seq<DnsEvent> {
    Seq::new(answers.len(), |i: int| DnsEvent::Answer(answers[i])) + done_report(
        queries,
        answers.len(),
    )
}

impl DnsRun {
    /// No more queries were answered than there are.
    pub open spec fn wf(self) -> bool {
        self.answered <= self.queries@.len()
    }

    /// A run of that many targets on the servers that could be set up, and
    /// what it reports at once: without a query, that it is done.
    pub fn start(targets: usize, servers: usize) -> (r: (DnsRun, Vec<DnsEvent>))
        ensures
            r.0.wf(),
            r.0.answered == 0,
            as_positions(r.0.queries@) == queries_of(targets as nat, servers as nat),
            r.1@ == run_reports(r.0.queries@.len(), seq![]),
    {
        let queries = queries(targets, servers);
        let mut events: Vec<DnsEvent> = Vec::new();
        if queries.len() == 0 {
            events.push(DnsEvent::Done);
        }
        assert(events@ =~= run_reports(queries@.len(), seq![]));
        (DnsRun { queries, answered: 0 }, events)
    }

    /// The positions of the target and the server of the next query; None
    /// after the last one.
    pub fn next_query(&self) -> (r: Option<(usize, usize)>)
        requires
            self.wf(),
        ensures
            r == (if self.answered < self.queries@.len() {
                Some(self.queries@[self.answered as int])
            } else {
                None
            }),
    {
        if self.answered < self.queries.len() {
            Some(self.queries[self.answered])
        } else {
            None
        }
    }

    /// Takes the answer to the query that was made; what to report: the
    /// answer, and after the last query that the run is done.
    pub fn on_answer(&mut self, answer: DnsAnswer) -> (r: Vec<DnsEvent>)
        requires
            old(self).answered < old(self).queries@.len(),
        ensures
            final(self).wf(),
            final(self).queries == old(self).queries,
            final(self).answered == old(self).answered + 1,
            r@ == seq![DnsEvent::Answer(answer)] + done_report(
                old(self).queries@.len(),
                (old(self).answered + 1) as nat,
            ),
    {
        let count: usize = self.queries.len();
        let mut events: Vec<DnsEvent> = Vec::new();
        events.push(DnsEvent::Answer(answer));
        self.answered = self.answered + 1;
        if self.answered == count {
            events.push(DnsEvent::Done);
        }
        assert(events@ =~= seq![DnsEvent::Answer(answer)] + done_report(
            self.queries@.len(),
            self.answered as nat,
        ));
        events
    }
}

/// What a run has reported before an answer and what it reports on the answer
/// is all that it has reported after it.
pub proof fn law_run_reports_accumulate(
    queries: nat,
    answers: Seq<DnsAnswer>,
    answer: DnsAnswer,
)
    requires
        answers.len() < queries,
    ensures
        run_reports(queries, answers.push(answer)) == run_reports(queries, answers) + (
        seq![DnsEvent::Answer(answer)] + done_report(queries, answers.len() + 1)),
{
    assert(run_reports(queries, answers.push(answer)) =~= run_reports(queries, answers) + (
    seq![DnsEvent::Answer(answer)] + done_report(queries, answers.len() + 1)));
}

/// A run reports each answer in the order of the queries, and that it is done
/// last and once.
pub proof fn law_run_ends_once(queries: nat, answers: Seq<DnsAnswer>)
    requires
        answers.len() == queries,
    ensures
        run_reports(queries, answers).len() == queries + 1,
        forall|i: int|
            0 <= i < queries ==> #[trigger] run_reports(queries, answers)[i] == DnsEvent::Answer(
                answers[i],
            ),
        run_reports(queries, answers).last() == DnsEvent::Done,
{
}

/// A request that can be run.
#[derive(Debug)]
pub struct DnsRequest {
    pub targets: Vec<String>,
    pub code: u16,
    pub custom: Vec<IpAddr>,
    pub source: SourceConfig,
}

/// Makes a request of what is entered on the page: the targets and the custom
/// servers one a line, and the source that was selected. Of several errors the
/// first counts: a server that is no address, the source, then what is wrong
/// with the request itself.
pub fn prepare(
    input: &str,
    servers: &str,
    rtype: &str,
    use_system: bool,
    source: Result<SourceConfig, String>,
) -> (r: Result<DnsRequest, String>)
    ensures
        ({
            let (good, bad) = servers_in(text::lines_of(servers@));
            let targets = session::targets_of(input@);
            if bad.len() > 0 {
                r is Err && r->Err_0@ == "Invalid DNS server address: "@ + text::joined(bad, ", "@)
            } else if source is Err {
                r is Err && r->Err_0@ == source->Err_0@
            } else {
                match request_error(targets.len(), rtype@, use_system, good.len()) {
                    Some(e) => r is Err && r->Err_0@ == e,
                    None => {
                        &&& r is Ok
                        &&& r->Ok_0.targets.deep_view() == targets
                        &&& Some(r->Ok_0.code) == type_of(rtype@)
                        &&& r->Ok_0.custom@ == good
                        &&& r->Ok_0.source == source->Ok_0
                    },
                }
            }
        }),
{
    let targets = session::parse_targets(input);
    let custom = match parse_servers(servers) {
        Ok(list) => list,
        Err(e) => {
            return Err(e);
        },
    };
    let source = match source {
        Ok(s) => s,
        Err(e) => {
            return Err(e);
        },
    };
    match check_request(targets.len(), rtype, use_system, custom.len()) {
        Ok(code) => Ok(DnsRequest { targets, code, custom, source }),
        Err(e) => Err(e),
    }
}

/// What an answer says in the log: its records or its error.
pub open spec fn outcome_text(a: AnswerView) -> Seq<char> {
    match a.error {
        Some(e) => "ERROR: "@ + e,
        None => text::joined(a.records, ", "@),
    }
}

/// The line of an answer in the log; `millis` is its duration in milliseconds,
/// as text.
pub fn log_line(a: &DnsAnswer, millis: &str) -> (r: String)
    ensures
        r@ == "["@ + a.timestamp@ + "] server="@ + a.server@ + " type="@ + a.rtype@ + " query="@
            + a.query@ + " ("@ + millis@ + " ms) -> "@ + outcome_text(a.deep_view()),
{
    let mut s = "[".to_owned();
    s.append(a.timestamp.as_str());
    s.append("] server=");
    s.append(a.server.as_str());
    s.append(" type=");
    s.append(a.rtype.as_str());
    s.append(" query=");
    s.append(a.query.as_str());
    s.append(" (");
    s.append(millis);
    s.append(" ms) -> ");
    let outcome = match &a.error {
        Some(e) => {
            let mut t = "ERROR: ".to_owned();
            t.append(e.as_str());
            t
        },
        None => text::join(&a.records, ", "),
    };
    s.append(outcome.as_str());
    s
}

/// The name of the log of a run.
pub fn log_file_name(stamp: &str) -> (r: String)
    ensures
        r@ == "dns_"@ + stamp@ + ".log"@,
{
    let mut s = "dns_".to_owned();
    s.append(stamp);
    s.append(".log");
    s
}

// ------------------------------------------------------------- What is asked

/// Every way to reach a custom server leads to the server's own address at port
/// 53, from the local address that was given: UDP first, then TCP. So two
/// servers never share a way.
pub proof fn law_endpoints_lead_to_the_server(
    server: IpAddr,
    other: IpAddr,
    bind: Option<IpAddr>,
)
    ensures
        endpoints(server, bind).len() == 2,
        forall|i: int|
            0 <= i < endpoints(server, bind).len() ==> {
                let way = #[trigger] endpoints(server, bind)[i];
                way.ip == server && way.port == 53 && way.bind == bind
            },
        !endpoints(server, bind)[0].tcp && endpoints(server, bind)[1].tcp,
        server != other ==> forall|i: int, j: int|
            0 <= i < 2 && 0 <= j < 2 ==> #[trigger] endpoints(server, bind)[i]
                != #[trigger] endpoints(other, bind)[j],
{
}

/// A target that is no address is asked for by name, with the record type that
/// was selected, and the answer shows that type.
pub proof fn law_names_are_looked_up(target: Seq<char>, code: u16, rtype: Seq<char>)
    requires
        ip::ip_value(target) is None,
    ensures
        lookup_of(target, code) == Lookup::Forward(code),
        shown_type(target, rtype) == rtype,
{
}

/// The record types offered are those of forward and reverse lookups, and each
/// stands for the number that the protocol gives it.
pub proof fn law_offered_types()
    ensures
        offered_types().len() == 9,
        offered_types().contains("A"@) && type_of("A"@) == Some(1u16),
        offered_types().contains("AAAA"@) && type_of("AAAA"@) == Some(28u16),
        offered_types().contains("CNAME"@) && type_of("CNAME"@) == Some(5u16),
        offered_types().contains("MX"@) && type_of("MX"@) == Some(15u16),
        offered_types().contains("NS"@) && type_of("NS"@) == Some(2u16),
        offered_types().contains("TXT"@) && type_of("TXT"@) == Some(16u16),
        offered_types().contains("SOA"@) && type_of("SOA"@) == Some(6u16),
        offered_types().contains("SRV"@) && type_of("SRV"@) == Some(33u16),
        offered_types().contains("PTR"@) && type_of("PTR"@) == Some(12u16),
{
    reveal_strlit("A");
    reveal_strlit("AAAA");
    reveal_strlit("ANAME");
    reveal_strlit("AXFR");
    reveal_strlit("CAA");
    reveal_strlit("CDNSKEY");
    reveal_strlit("CDS");
    reveal_strlit("CNAME");
    reveal_strlit("CSYNC");
    reveal_strlit("DNSKEY");
    reveal_strlit("DS");
    reveal_strlit("HINFO");
    reveal_strlit("HTTPS");
    reveal_strlit("KEY");
    reveal_strlit("MX");
    reveal_strlit("NAPTR");
    reveal_strlit("NSEC");
    reveal_strlit("NSEC3");
    reveal_strlit("NSEC3PARAM");
    reveal_strlit("NS");
    reveal_strlit("NULL");
    reveal_strlit("OPENPGPKEY");
    reveal_strlit("PTR");
    reveal_strlit("RRSIG");
    reveal_strlit("SIG");
    reveal_strlit("SOA");
    reveal_strlit("SRV");
    reveal_strlit("SSHFP");
    reveal_strlit("SVCB");
    reveal_strlit("TLSA");
    reveal_strlit("TXT");
    let t = offered_types();
    assert(t[0] == "A"@ && t[1] == "AAAA"@ && t[2] == "CNAME"@ && t[3] == "MX"@ && t[4] == "NS"@
        && t[5] == "TXT"@ && t[6] == "SOA"@ && t[7] == "SRV"@ && t[8] == "PTR"@);
    assert forall|i: int| 0 <= i < 9 implies type_of(#[trigger] t[i]) == record_code(t[i]) by {
        let name = t[i];
        let none = Seq::<char>::empty();
        assert('A' <= name[0] <= 'Z' && 'A' <= name.last() <= 'Z');
        text::law_trimmed(none, name, none);
        assert(none + name + none =~= name);
    }
    assert(type_of(t[0]) == Some(1u16));
    assert(type_of(t[1]) == Some(28u16));
    assert(type_of(t[2]) == Some(5u16));
    assert(type_of(t[3]) == Some(15u16));
    assert(type_of(t[4]) == Some(2u16));
    assert(type_of(t[5]) == Some(16u16));
    assert(type_of(t[6]) == Some(6u16));
    assert(type_of(t[7]) == Some(33u16));
    assert(type_of(t[8]) == Some(12u16));
}

/// A record type is known by its name with or without white space around it.
pub proof fn law_types_are_trimmed(rtype: Seq<char>)
    ensures
        type_of(text::trimmed(rtype)) == type_of(rtype),
{
    text::lemma_trimmed(rtype);
}

/// The servers of a list are its addresses, in order, and what is no address is
/// told apart; nothing that is not blank is passed over.
pub proof fn law_servers_in(lines: Seq<Seq<char>>, line: Seq<char>)
    ensures
        servers_in(seq![]).0.len() == 0 && servers_in(seq![]).1.len() == 0,
        text::all_space(line) ==> servers_in(lines.push(line)) == servers_in(lines),
        !text::all_space(line) ==> match ip::ip_value(text::trimmed(line)) {
            Some(ip) => servers_in(lines.push(line)).0 == servers_in(lines).0.push(ip)
                && servers_in(lines.push(line)).1 == servers_in(lines).1,
            None => servers_in(lines.push(line)).0 == servers_in(lines).0 && servers_in(
                lines.push(line),
            ).1 == servers_in(lines).1.push(text::trimmed(line)),
        },
{
    assert(lines.push(line).drop_last() =~= lines);
    text::lemma_blank(line);
}

/// A request is refused exactly when it has no target, no server or no known
/// record type, and each reason has a message of its own.
pub proof fn law_requests_that_are_refused(
    targets: nat,
    rtype: Seq<char>,
    use_system: bool,
    custom: nat,
)
    ensures
        request_error(targets, rtype, use_system, custom) is None <==> targets > 0 && (use_system
            || custom > 0) && type_of(rtype) is Some,
        targets == 0 ==> request_error(targets, rtype, use_system, custom) == Some(
            "Enter at least one name or IP to resolve."@,
        ),
        targets > 0 && !use_system && custom == 0 ==> request_error(
            targets,
            rtype,
            use_system,
            custom,
        ) == Some("Enable system DNS or provide at least one custom server."@),
        targets > 0 && (use_system || custom > 0) && type_of(rtype) is None ==> request_error(
            targets,
            rtype,
            use_system,
            custom,
        ) == Some("unsupported record type: "@ + rtype),
{
}

/// The system's server is asked before the custom ones, which are asked in the
/// order of the list, each once.
pub proof fn law_servers_of_a_run(custom: Seq<IpAddr>)
    ensures
        servers_of(true, custom).len() == custom.len() + 1,
        servers_of(true, custom)[0] == Server::System,
        forall|i: int|
            0 <= i < custom.len() ==> servers_of(true, custom)[i + 1] == Server::Custom(
                #[trigger] custom[i],
            ),
        servers_of(false, custom).len() == custom.len(),
        forall|i: int|
            0 <= i < custom.len() ==> #[trigger] servers_of(false, custom)[i] == Server::Custom(
                custom[i],
            ),
{
}

/// One target is asked of all servers before the next one is.
pub proof fn law_queries_come_in_order(targets: nat, servers: nat, t: int, s: int)
    requires
        0 <= t < targets,
        0 <= s < servers,
    ensures
        queries_of(targets, servers).len() == targets * servers,
        0 <= t * servers + s < queries_of(targets, servers).len(),
        queries_of(targets, servers)[t * servers + s] == (t, s),
    decreases targets,
{
    let before = queries_of((targets - 1) as nat, servers);
    lemma_queries_len((targets - 1) as nat, servers);
    lemma_queries_len(targets, servers);
    assert(targets * servers == (targets - 1) * servers + servers) by (nonlinear_arith);
    if t < targets - 1 {
        law_queries_come_in_order((targets - 1) as nat, servers, t, s);
        assert(queries_of(targets, servers)[t * servers + s] == before[t * servers + s]);
    }
}

proof fn lemma_queries_len(targets: nat, servers: nat)
    ensures
        queries_of(targets, servers).len() == targets * servers,
    decreases targets,
{
    if targets > 0 {
        lemma_queries_len((targets - 1) as nat, servers);
        assert(targets * servers == (targets - 1) * servers + servers) by (nonlinear_arith);
    } else {
        assert(targets * servers == 0) by (nonlinear_arith)
            requires
                targets == 0,
        ;
    }
}

/// What the log says of an answer holds each of its records, or its error.
pub proof fn law_outcomes_are_logged(a: AnswerView, i: int)
    ensures
        a.error matches Some(e) ==> outcome_text(a) == "ERROR: "@ + e,
        a.error is None && 0 <= i < a.records.len() ==> text::contains_text(
            outcome_text(a),
            a.records[i],
        ),
        a.error is None && a.records.len() == 1 ==> outcome_text(a) == a.records[0],
{
    if a.error is None && 0 <= i < a.records.len() {
        text::law_joined_holds_parts(a.records, ", "@, i);
    }
}

/// The numbers of the other record types that are known by name.
pub proof fn law_other_types()
    ensures
        record_code("ANAME"@) == Some(65305u16),
        record_code("AXFR"@) == Some(252u16),
        record_code("CAA"@) == Some(257u16),
        record_code("CDNSKEY"@) == Some(60u16),
        record_code("CDS"@) == Some(59u16),
        record_code("CSYNC"@) == Some(62u16),
        record_code("DNSKEY"@) == Some(48u16),
        record_code("DS"@) == Some(43u16),
        record_code("HINFO"@) == Some(13u16),
        record_code("HTTPS"@) == Some(65u16),
        record_code("KEY"@) == Some(25u16),
        record_code("NAPTR"@) == Some(35u16),
        record_code("NSEC"@) == Some(47u16),
        record_code("NSEC3"@) == Some(50u16),
        record_code("NSEC3PARAM"@) == Some(51u16),
        record_code("NULL"@) == Some(10u16),
        record_code("OPENPGPKEY"@) == Some(61u16),
        record_code("RRSIG"@) == Some(46u16),
        record_code("SIG"@) == Some(24u16),
        record_code("SSHFP"@) == Some(44u16),
        record_code("SVCB"@) == Some(64u16),
        record_code("TLSA"@) == Some(52u16),
        record_code("TSIG"@) == Some(250u16),
        record_code("ANY"@) == Some(255u16),
        record_code("*"@) == Some(255u16),
{
    reveal_strlit("A");
    reveal_strlit("AAAA");
    reveal_strlit("ANAME");
    reveal_strlit("AXFR");
    reveal_strlit("CAA");
    reveal_strlit("CDNSKEY");
    reveal_strlit("CDS");
    reveal_strlit("CNAME");
    reveal_strlit("CSYNC");
    reveal_strlit("DNSKEY");
    reveal_strlit("DS");
    reveal_strlit("HINFO");
    reveal_strlit("HTTPS");
    reveal_strlit("KEY");
    reveal_strlit("MX");
    reveal_strlit("NAPTR");
    reveal_strlit("NSEC");
    reveal_strlit("NSEC3");
    reveal_strlit("NSEC3PARAM");
    reveal_strlit("NS");
    reveal_strlit("NULL");
    reveal_strlit("OPENPGPKEY");
    reveal_strlit("PTR");
    reveal_strlit("RRSIG");
    reveal_strlit("SIG");
    reveal_strlit("SOA");
    reveal_strlit("SRV");
    reveal_strlit("SSHFP");
    reveal_strlit("SVCB");
    reveal_strlit("TLSA");
    reveal_strlit("TXT");
    reveal_strlit("TSIG");
    reveal_strlit("ANY");
    reveal_strlit("*");
    assert("A"@ =~= seq!['A']);
    assert("AAAA"@ =~= seq!['A', 'A', 'A', 'A']);
    assert("ANAME"@ =~= seq!['A', 'N', 'A', 'M', 'E']);
    assert("AXFR"@ =~= seq!['A', 'X', 'F', 'R']);
    assert("CAA"@ =~= seq!['C', 'A', 'A']);
    assert("CDNSKEY"@ =~= seq!['C', 'D', 'N', 'S', 'K', 'E', 'Y']);
    assert("CDS"@ =~= seq!['C', 'D', 'S']);
    assert("CNAME"@ =~= seq!['C', 'N', 'A', 'M', 'E']);
    assert("CSYNC"@ =~= seq!['C', 'S', 'Y', 'N', 'C']);
    assert("DNSKEY"@ =~= seq!['D', 'N', 'S', 'K', 'E', 'Y']);
    assert("DS"@ =~= seq!['D', 'S']);
    assert("HINFO"@ =~= seq!['H', 'I', 'N', 'F', 'O']);
    assert("HTTPS"@ =~= seq!['H', 'T', 'T', 'P', 'S']);
    assert("KEY"@ =~= seq!['K', 'E', 'Y']);
    assert("MX"@ =~= seq!['M', 'X']);
    assert("NAPTR"@ =~= seq!['N', 'A', 'P', 'T', 'R']);
    assert("NSEC"@ =~= seq!['N', 'S', 'E', 'C']);
    assert("NSEC3"@ =~= seq!['N', 'S', 'E', 'C', '3']);
    assert("NSEC3PARAM"@ =~= seq!['N', 'S', 'E', 'C', '3', 'P', 'A', 'R', 'A', 'M']);
    assert("NS"@ =~= seq!['N', 'S']);
    assert("NULL"@ =~= seq!['N', 'U', 'L', 'L']);
    assert("OPENPGPKEY"@ =~= seq!['O', 'P', 'E', 'N', 'P', 'G', 'P', 'K', 'E', 'Y']);
    assert("PTR"@ =~= seq!['P', 'T', 'R']);
    assert("RRSIG"@ =~= seq!['R', 'R', 'S', 'I', 'G']);
    assert("SIG"@ =~= seq!['S', 'I', 'G']);
    assert("SOA"@ =~= seq!['S', 'O', 'A']);
    assert("SRV"@ =~= seq!['S', 'R', 'V']);
    assert("SSHFP"@ =~= seq!['S', 'S', 'H', 'F', 'P']);
    assert("SVCB"@ =~= seq!['S', 'V', 'C', 'B']);
    assert("TLSA"@ =~= seq!['T', 'L', 'S', 'A']);
    assert("TXT"@ =~= seq!['T', 'X', 'T']);
    assert("TSIG"@ =~= seq!['T', 'S', 'I', 'G']);
    assert("ANY"@ =~= seq!['A', 'N', 'Y']);
    assert("*"@ =~= seq!['*']);
    assert("*"@[0] == '*' && "A"@[0] == 'A');
}

/// A record type is written in capital letters: with a small letter in it, it is
/// not known.
pub proof fn law_types_are_capitals(rtype: Seq<char>, i: int)
    requires
        0 <= i < text::trimmed(rtype).len(),
        'a' <= text::trimmed(rtype)[i] <= 'z',
    ensures
        type_of(rtype) is None,
{
}

/// Positions are pairs of numbers, one for one.
pub proof fn law_positions(v: Seq<(usize, usize)>)
    ensures
        as_positions(v).len() == v.len(),
        forall|i: int|
            0 <= i < v.len() ==> (#[trigger] as_positions(v)[i]).0 == v[i].0 && as_positions(v)[i].1
                == v[i].1,
{
}

/// The reports of a run are its answers, in order, and the end behind the last.
pub proof fn law_run_reports(queries: nat, answers: Seq<DnsAnswer>)
    ensures
        forall|i: int|
            0 <= i < answers.len() ==> #[trigger] run_reports(queries, answers)[i]
                == DnsEvent::Answer(answers[i]),
        answers.len() == queries ==> run_reports(queries, answers).len() == queries + 1
            && run_reports(queries, answers).last() is Done,
        answers.len() != queries ==> run_reports(queries, answers).len() == answers.len(),
{
}

/// No other name is a record type.
pub proof fn law_no_other_types(name: Seq<char>)
    requires
        name != "A"@,
        name != "AAAA"@,
        name != "ANAME"@,
        name != "AXFR"@,
        name != "CAA"@,
        name != "CDNSKEY"@,
        name != "CDS"@,
        name != "CNAME"@,
        name != "CSYNC"@,
        name != "DNSKEY"@,
        name != "DS"@,
        name != "HINFO"@,
        name != "HTTPS"@,
        name != "KEY"@,
        name != "MX"@,
        name != "NAPTR"@,
        name != "NSEC"@,
        name != "NSEC3"@,
        name != "NSEC3PARAM"@,
        name != "NS"@,
        name != "NULL"@,
        name != "OPENPGPKEY"@,
        name != "PTR"@,
        name != "RRSIG"@,
        name != "SIG"@,
        name != "SOA"@,
        name != "SRV"@,
        name != "SSHFP"@,
        name != "SVCB"@,
        name != "TLSA"@,
        name != "TXT"@,
        name != "TSIG"@,
        name != "ANY"@,
        name != "*"@,
    ensures
        record_code(name) is None,
{
}

/// A server has three seconds for an answer and is asked once.
pub proof fn law_query_limits()
    ensures
        QUERY_TIMEOUT == 3 * 1_000_000_000,
        QUERY_ATTEMPTS == 1,
{
}

} // verus!
