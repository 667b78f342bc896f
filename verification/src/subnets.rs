//! The local subnets and the sweep of their hosts.

use crate::arp::{ArpEvent, ArpNotice};
use crate::ip::{self, format_ipv4};
use crate::text;
use crate::units::Nanos;
use vstd::arithmetic::power2;
use vstd::prelude::*;

verus! {

/// The number of addresses in an IPv4 network with the given prefix length.
pub open spec fn network_size(prefix: u8) -> nat {
    power2::pow2((32 - prefix) as nat)
}

/// The first address of the network that `addr` belongs to.
pub open spec fn network_of(addr: u32, prefix: u8) -> nat {
    (addr - addr as nat % network_size(prefix)) as nat
}

/// The usable host addresses of `addr/prefix`: those between the network
/// address and the broadcast address.
pub open spec fn hosts_of(addr: u32, prefix: u8) -> Seq<u32> {
    let count = network_size(prefix) - 2;
    Seq::new(
        if count > 0 {
            count as nat
        } else {
            0
        },
        |i: int| (network_of(addr, prefix) + 1 + i) as u32,
    )
}

/// The number of addresses in a network with the given prefix length.
pub fn size_of_network(prefix: u8) -> (r: u64)
    requires
        prefix <= 32,
    ensures
        r == network_size(prefix),
        1 <= r <= 0x1_0000_0000,
{
    let mut size: u64 = 1;
    let mut bits: u8 = 32;
    proof {
        power2::lemma2_to64();
    }
    while bits > prefix
        invariant
            prefix <= bits <= 32,
            size == power2::pow2((32 - bits) as nat),
            1 <= size,
        decreases bits,
    {
        proof {
            power2::lemma_pow2_adds((32 - bits) as nat, 1);
            power2::lemma2_to64();
            if 32 - bits < 31 {
                power2::lemma_pow2_strictly_increases((32 - bits) as nat, 31);
            }
        }
        size = size * 2;
        bits = bits - 1;
    }
    proof {
        power2::lemma2_to64();
        if prefix > 0 {
            power2::lemma_pow2_strictly_increases((32 - prefix) as nat, 32);
        }
    }
    size
}

/// A network lies within the address space: the addresses are numbered in 32
/// bits and the sizes of networks divide their number.
proof fn lemma_network_fits(addr: u32, prefix: u8)
    requires
        prefix <= 32,
    ensures
        addr as nat % network_size(prefix) <= addr,
        network_of(addr, prefix) <= addr,
        addr < network_of(addr, prefix) + network_size(prefix) <= 0x1_0000_0000,
{
    let size = network_size(prefix);
    let blocks = power2::pow2(prefix as nat);
    power2::lemma_pow2_pos((32 - prefix) as nat);
    power2::lemma_pow2_adds((32 - prefix) as nat, prefix as nat);
    power2::lemma2_to64();
    let q = addr as nat / size;
    vstd::arithmetic::div_mod::lemma_fundamental_div_mod(addr as int, size as int);
    assert(size * q >= 0) by (nonlinear_arith)
        requires
            size > 0,
            q >= 0,
    ;
    assert(network_of(addr, prefix) == size * q);
    assert(addr < size * blocks);
    assert(q < blocks) by (nonlinear_arith)
        requires
            addr < size * blocks,
            size * q <= addr,
            size > 0,
    ;
    assert(size * q + size <= size * blocks) by (nonlinear_arith)
        requires
            q + 1 <= blocks,
            size > 0,
    ;
}

/// All usable host addresses of `addr/prefix` (network and broadcast
/// excluded).
pub fn enumerate_hosts(addr: u32, prefix: u8) -> (r: Vec<u32>)
    requires
        prefix <= 32,
    ensures
        r@ == hosts_of(addr, prefix),
{
    let size = size_of_network(prefix);
    proof {
        lemma_network_fits(addr, prefix);
    }
    let network: u64 = addr as u64 - addr as u64 % size;
    let mut hosts: Vec<u32> = Vec::new();
    let mut next: u64 = network + 1;
    let ghost all = hosts_of(addr, prefix);
    while next < network + size - 1
        invariant
            1 <= size <= 0x1_0000_0000,
            size == network_size(prefix),
            network == network_of(addr, prefix),
            network + size <= 0x1_0000_0000,
            all == hosts_of(addr, prefix),
            network + 1 <= next,
            next <= network + size - 1 || next == network + 1,
            hosts@.len() == next - network - 1,
            forall|i: int| 0 <= i < hosts@.len() ==> #[trigger] hosts@[i] == network + 1 + i,
        decreases network + size - next,
    {
        hosts.push(next as u32);
        next = next + 1;
    }
    assert(hosts@ =~= all);
    hosts
}

/// The usable hosts of a network: all its addresses but the first and the
/// last, in ascending order.
pub proof fn law_hosts(addr: u32, prefix: u8)
    requires
        prefix <= 30,
    ensures
        hosts_of(addr, prefix).len() == network_size(prefix) - 2,
        forall|host: u32|
            hosts_of(addr, prefix).contains(host) <==> network_of(addr, prefix) < host
                < network_of(addr, prefix) + network_size(prefix) - 1,
        forall|i: int, j: int|
            0 <= i < j < hosts_of(addr, prefix).len() ==> #[trigger] hosts_of(addr, prefix)[i]
                < #[trigger] hosts_of(addr, prefix)[j],
{
    power2::lemma2_to64();
    lemma_network_fits(addr, prefix);
    if prefix < 30 {
        power2::lemma_pow2_strictly_increases(2, (32 - prefix) as nat);
    }
    let h = hosts_of(addr, prefix);
    let n = network_of(addr, prefix);
    assert forall|host: u32|
        h.contains(host) <==> n < host < n + network_size(prefix) - 1 by {
        if n < host < n + network_size(prefix) - 1 {
            assert(h[host - n - 1] == host);
        }
    }
}

// ------------------------------------------------------------- Local subnets

/// A local IPv4 subnet that can be swept. The hosts are addresses as numbers.
#[derive(Debug)]
pub struct Subnet {
    pub label: String,
    pub hosts: Vec<u32>,
}

/// What a subnet is.
pub struct SubnetView {
    pub label: Seq<char>,
    pub hosts: Seq<u32>,
}

impl DeepView for Subnet {
    type V = SubnetView;

    open spec fn deep_view(&self) -> SubnetView {
        SubnetView { label: self.label@, hosts: self.hosts@ }
    }
}

/// An interface of the host with its IPv4 networks, each an address and a
/// prefix length.
#[derive(Debug)]
pub struct Interface {
    pub name: String,
    pub is_up: bool,
    pub ipv4: Vec<(u32, u8)>,
}

/// A network of a named interface.
pub struct Attachment {
    pub iface: Seq<char>,
    pub addr: u32,
    pub prefix: u8,
}

/// The networks of an interface, in order.
pub open spec fn networks_of(name: Seq<char>, nets: Seq<(u32, u8)>) -> Seq<Attachment> {
    Seq::new(nets.len(), |i: int| Attachment { iface: name, addr: nets[i].0, prefix: nets[i].1 })
}

/// The networks of the interfaces that are up, in order.
pub open spec fn attachments(interfaces: Seq<Interface>) -> Seq<Attachment>
    decreases interfaces.len(),
{
    if interfaces.len() == 0 {
        seq![]
    } else {
        let last = interfaces.last();
        attachments(interfaces.drop_last()) + (if last.is_up {
            networks_of(last.name@, last.ipv4@)
        } else {
            seq![]
        })
    }
}

/// Whether a network is small enough to sweep and has hosts.
pub open spec fn sweepable(a: Attachment) -> bool {
    22 <= a.prefix <= 30
}

/// What tells one subnet from another: its first host and its prefix length.
pub open spec fn subnet_key(a: Attachment) -> (u32, u8) {
    (hosts_of(a.addr, a.prefix)[0], a.prefix)
}

/// The subnets met, each once, in order.
pub open spec fn subnet_keys(all: Seq<Attachment>) -> Seq<(u32, u8)>
    decreases all.len(),
{
    if all.len() == 0 {
        seq![]
    } else {
        let rest = subnet_keys(all.drop_last());
        if sweepable(all.last()) && !rest.contains(subnet_key(all.last())) {
            rest.push(subnet_key(all.last()))
        } else {
            rest
        }
    }
}

/// The label of a subnet: interface, first host, prefix and number of hosts.
pub open spec fn subnet_label(a: Attachment) -> Seq<char> {
    a.iface + " — "@ + ip::ipv4_text(subnet_key(a).0) + "/"@ + text::decimal_text(a.prefix as nat)
        + " ("@ + text::decimal_text(hosts_of(a.addr, a.prefix).len()) + " hosts)"@
}

/// The subnets to offer: of the networks that share a key, the first.
pub open spec fn subnets_of(all: Seq<Attachment>) -> Seq<SubnetView>
    decreases all.len(),
{
    if all.len() == 0 {
        seq![]
    } else {
        let rest = subnets_of(all.drop_last());
        let last = all.last();
        if sweepable(last) && !subnet_keys(all.drop_last()).contains(subnet_key(last)) {
            rest.push(
                SubnetView { label: subnet_label(last), hosts: hosts_of(last.addr, last.prefix) },
            )
        } else {
            rest
        }
    }
}

fn is_known(keys: &Vec<(u32, u8)>, key: (u32, u8)) -> (r: bool)
    ensures
        r == keys@.contains(key),
{
    let mut i: usize = 0;
    while i < keys.len()
        invariant
            i <= keys@.len(),
            forall|j: int| 0 <= j < i ==> #[trigger] keys@[j] != key,
        decreases keys@.len() - i,
    {
        if keys[i].0 == key.0 && keys[i].1 == key.1 {
            assert(keys@[i as int] == key);
            return true;
        }
        i += 1;
    }
    false
}

fn label_of(name: &str, first: u32, prefix: u8, count: usize) -> (r: String)
    ensures
        r@ == name@ + " — "@ + ip::ipv4_text(first) + "/"@ + text::decimal_text(prefix as nat)
            + " ("@ + text::decimal_text(count as nat) + " hosts)"@,
{
    let mut s = name.to_owned();
    s.append(" — ");
    s.append(format_ipv4(first).as_str());
    s.append("/");
    s.append(text::decimal(prefix as u128).as_str());
    s.append(" (");
    s.append(text::decimal(count as u128).as_str());
    s.append(" hosts)");
    s
}

/// Lists the local IPv4 subnets of up interfaces that are small enough to
/// sweep (at most 1024 hosts, i.e. prefix at least 22).
pub fn local_subnets(interfaces: &Vec<Interface>) -> (r: Vec<Subnet>)
    ensures
        r.deep_view() == subnets_of(attachments(interfaces@)),
{
    let mut out: Vec<Subnet> = Vec::new();
    let mut keys: Vec<(u32, u8)> = Vec::new();
    let mut i: usize = 0;
    assert(interfaces@.take(0) =~= seq![]);
    assert(out.deep_view() =~= seq![]);
    while i < interfaces.len()
        invariant
            i <= interfaces@.len(),
            keys@ == subnet_keys(attachments(interfaces@.take(i as int))),
            out.deep_view() == subnets_of(attachments(interfaces@.take(i as int))),
        decreases interfaces@.len() - i,
    {
        let itf = &interfaces[i];
        let ghost before = attachments(interfaces@.take(i as int));
        let ghost nets = networks_of(itf.name@, itf.ipv4@);
        assert(interfaces@.take(i + 1).drop_last() =~= interfaces@.take(i as int));
        if itf.is_up {
            let mut j: usize = 0;
            assert(before + nets.take(0) =~= before);
            while j < itf.ipv4.len()
                invariant
                    j <= itf.ipv4@.len(),
                    nets == networks_of(itf.name@, itf.ipv4@),
                    keys@ == subnet_keys(before + nets.take(j as int)),
                    out.deep_view() == subnets_of(before + nets.take(j as int)),
                decreases itf.ipv4@.len() - j,
            {
                let ghost all = before + nets.take(j as int);
                let ghost more = before + nets.take(j + 1);
                assert(more.drop_last() =~= all);
                assert(more.last() == nets[j as int]);
                let (addr, prefix) = itf.ipv4[j];
                if 22 <= prefix && prefix <= 30 {
                    let hosts = enumerate_hosts(addr, prefix);
                    proof {
                        law_hosts(addr, prefix);
                        lemma_small(prefix);
                    }
                    let key = (hosts[0], prefix);
                    if !is_known(&keys, key) {
                        keys.push(key);
                        let label = label_of(itf.name.as_str(), hosts[0], prefix, hosts.len());
                        let subnet = Subnet { label, hosts };
                        let ghost listed = out;
                        out.push(subnet);
                        proof {
                            text::lemma_pushed_view(listed, out, subnet);
                        }
                    }
                }
                j += 1;
            }
            assert(nets.take(j as int) =~= nets);
        } else {
            assert(before + seq![] =~= before);
        }
        i += 1;
    }
    assert(interfaces@.take(i as int) =~= interfaces@);
    out
}

proof fn lemma_small(prefix: u8)
    requires
        22 <= prefix <= 30,
    ensures
        4 <= network_size(prefix) <= 1024,
{
    power2::lemma2_to64();
    if prefix < 30 {
        power2::lemma_pow2_strictly_increases(2, (32 - prefix) as nat);
    }
    if prefix > 22 {
        power2::lemma_pow2_strictly_increases((32 - prefix) as nat, 10);
    }
}

/// Every subnet offered has hosts, and no more than 1024.
pub proof fn law_subnets_are_small(all: Seq<Attachment>)
    ensures
        forall|i: int|
            0 <= i < subnets_of(all).len() ==> 0 < (#[trigger] subnets_of(all)[i]).hosts.len()
                <= 1024,
    decreases all.len(),
{
    if all.len() > 0 {
        let before = subnets_of(all.drop_last());
        law_subnets_are_small(all.drop_last());
        if sweepable(all.last()) {
            lemma_small(all.last().prefix);
        }
        assert forall|i: int| 0 <= i < subnets_of(all).len() implies 0 < (#[trigger] subnets_of(
            all,
        )[i]).hosts.len() <= 1024 by {
            if i < before.len() {
                assert(subnets_of(all)[i] == before[i]);
            }
        }
    }
}

/// No subnet is offered twice: the keys of the subnets offered are distinct.
pub proof fn law_subnets_are_distinct(all: Seq<Attachment>)
    ensures
        subnet_keys(all).no_duplicates(),
        subnets_of(all).len() == subnet_keys(all).len(),
        forall|i: int|
            0 <= i < subnets_of(all).len() ==> (#[trigger] subnets_of(all)[i]).hosts[0]
                == subnet_keys(all)[i].0,
        forall|a: Attachment|
            all.contains(a) && sweepable(a) ==> #[trigger] subnet_keys(all).contains(
                subnet_key(a),
            ),
    decreases all.len(),
{
    if all.len() > 0 {
        let before = all.drop_last();
        law_subnets_are_distinct(before);
        let keys = subnet_keys(before);
        assert forall|i: int| 0 <= i < subnets_of(all).len() implies (#[trigger] subnets_of(
            all,
        )[i]).hosts[0] == subnet_keys(all)[i].0 by {
            if i < keys.len() {
                assert(subnets_of(all)[i] == subnets_of(before)[i]);
            }
        }
        assert forall|a: Attachment| all.contains(a) && sweepable(a) implies #[trigger] subnet_keys(
            all,
        ).contains(subnet_key(a)) by {
            let k = choose|k: int| 0 <= k < all.len() && all[k] == a;
            if k < before.len() {
                assert(before[k] == a);
                assert(keys.contains(subnet_key(a)));
                let m = choose|m: int| 0 <= m < keys.len() && keys[m] == subnet_key(a);
                assert(subnet_keys(all)[m] == subnet_key(a));
            } else if !keys.contains(subnet_key(a)) {
                assert(subnet_keys(all)[keys.len() as int] == subnet_key(a));
            }
        }
    }
}

// --------------------------------------------------------------------- Sweep

/// The largest number of threads that sweep a subnet.
pub const MAX_WORKERS: usize = 64;

/// The number of threads that sweep `total` hosts.
pub fn worker_count(total: usize) -> (r: usize)
    ensures
        r == (if total < MAX_WORKERS {
            total
        } else {
            MAX_WORKERS
        }),
{
    if total < MAX_WORKERS {
        total
    } else {
        MAX_WORKERS
    }
}

/// The sequence number of the probe for the host with the given index: one
/// more than the index, within 16 bits.
pub fn probe_seq(index: usize) -> (r: u16)
    ensures
        r == (index + 1) % 0x1_0000,
{
    let low: usize = index % 0x1_0000;
    if low == 0xffff {
        0
    } else {
        (low + 1) as u16
    }
}

/// How long a probe of a sweep waits for a reply.
pub const PROBE_TIMEOUT: Nanos = 1_000_000_000;

/// The probe of a host in a sweep.
#[derive(Clone, Copy, Debug, PartialEq, Eq, Structural)]
pub struct HostProbe {
    /// The index of the host.
    pub index: usize,
    pub seq: u16,
    pub timeout: Nanos,
}

/// The progress of a sweep that several threads share: how many hosts there
/// are, were handed out, were probed and replied.
#[derive(Debug)]
pub struct Sweep {
    pub total: usize,
    pub next: usize,
    pub done: usize,
    pub alive: usize,
}

impl Sweep {
    /// Hosts are probed after they were handed out, and reply when probed.
    pub open spec fn wf(self) -> bool {
        self.alive <= self.done <= self.next <= self.total
    }

    /// The start of a sweep of `total` hosts.
    pub fn new(total: usize) -> (r: Self)
        ensures
            r.wf(),
            r.total == total,
            r.next == 0,
    {
        Sweep { total, next: 0, done: 0, alive: 0 }
    }

    /// The probe of the next host, if one is left: each host is probed once.
    pub fn take_next(&mut self) -> (r: Option<HostProbe>)
        requires
            old(self).wf(),
        ensures
            final(self).wf(),
            final(self).total == old(self).total,
            final(self).done == old(self).done,
            final(self).alive == old(self).alive,
            match r {
                Some(probe) => {
                    &&& probe.index == old(self).next
                    &&& probe.index < old(self).total
                    &&& probe.seq == (probe.index + 1) % 0x1_0000
                    &&& probe.timeout == PROBE_TIMEOUT
                    &&& final(self).next == probe.index + 1
                },
                None => old(self).next == old(self).total && final(self).next == old(self).next,
            },
    {
        if self.next < self.total {
            let i = self.next;
            self.next = i + 1;
            Some(HostProbe { index: i, seq: probe_seq(i), timeout: PROBE_TIMEOUT })
        } else {
            None
        }
    }

    /// Records that a host was probed and whether it replied; the progress to
    /// report.
    pub fn record(&mut self, replied: bool) -> (r: ArpEvent)
        requires
            old(self).wf(),
            old(self).done < old(self).next,
        ensures
            final(self).wf(),
            final(self).total == old(self).total,
            final(self).next == old(self).next,
            final(self).done == old(self).done + 1,
            final(self).alive == old(self).alive + (if replied {
                1int
            } else {
                0
            }),
            r.deep_view() == (ArpNotice::ScanProgress {
                done: final(self).done as nat,
                total: final(self).total as nat,
                alive: final(self).alive as nat,
            }),
    {
        self.done = self.done + 1;
        if replied {
            self.alive = self.alive + 1;
        }
        ArpEvent::ScanProgress { done: self.done, total: self.total, alive: self.alive }
    }

    /// The report on the whole sweep.
    pub fn summary(&self) -> (r: ArpEvent)
        ensures
            r.deep_view() == (ArpNotice::ScanDone { alive: self.alive as nat }),
    {
        ArpEvent::ScanDone { alive: self.alive }
    }
}

/// A network has one address for a prefix length of 32 and twice as many for each
/// bit less.
pub proof fn law_network_sizes(prefix: u8)
    requires
        prefix < 32,
    ensures
        network_size(32) == 1,
        network_size(prefix) == 2 * network_size((prefix + 1) as u8),
{
    power2::lemma2_to64();
    power2::lemma_pow2_unfold((32 - prefix) as nat);
}

/// The network of an address begins at a multiple of its size and holds the
/// address.
pub proof fn law_network_holds_the_address(addr: u32, prefix: u8)
    requires
        prefix <= 32,
    ensures
        network_of(addr, prefix) % network_size(prefix) == 0,
        network_of(addr, prefix) <= addr < network_of(addr, prefix) + network_size(prefix),
{
    lemma_network_fits(addr, prefix);
    power2::lemma_pow2_pos((32 - prefix) as nat);
    let size = network_size(prefix) as int;
    let q = addr as int / size;
    vstd::arithmetic::div_mod::lemma_fundamental_div_mod(addr as int, size);
    vstd::arithmetic::div_mod::lemma_mod_multiples_basic(q, size);
    assert(network_of(addr, prefix) == q * size) by (nonlinear_arith)
        requires
            network_of(addr, prefix) == addr as int - addr as int % size,
            addr as int == size * q + addr as int % size,
    ;
}

/// A network can be swept where it has from 2 to 1022 hosts.
pub proof fn law_sweepable_by_size(a: Attachment)
    requires
        a.prefix <= 32,
    ensures
        sweepable(a) <==> 2 <= hosts_of(a.addr, a.prefix).len() <= 1022,
{
    power2::lemma2_to64();
    let k = (32 - a.prefix) as nat;
    if sweepable(a) {
        lemma_small(a.prefix);
    } else if a.prefix > 30 {
        assert(k == 0 || k == 1);
    } else {
        if k > 11 {
            power2::lemma_pow2_strictly_increases(11, k);
        }
    }
}

/// The networks are those of the interfaces that are up, each of them and with
/// the name of its interface.
pub proof fn law_attachments(interfaces: Seq<Interface>, a: Attachment)
    ensures
        attachments(interfaces).contains(a) <==> exists|i: int, j: int|
            #![trigger interfaces[i].ipv4@[j]]
            0 <= i < interfaces.len() && interfaces[i].is_up && 0 <= j < interfaces[i].ipv4@.len()
                && a.iface == interfaces[i].name@ && a.addr == interfaces[i].ipv4@[j].0 && a.prefix
                == interfaces[i].ipv4@[j].1,
    decreases interfaces.len(),
{
    let all = attachments(interfaces);
    if interfaces.len() > 0 {
        let before = interfaces.drop_last();
        let last = interfaces.last();
        law_attachments(before, a);
        let old = attachments(before);
        let new = networks_of(last.name@, last.ipv4@);
        if all.contains(a) {
            let k = choose|k: int| 0 <= k < all.len() && all[k] == a;
            if k < old.len() {
                assert(old[k] == a);
                assert(old.contains(a));
                let (i, j) = choose|i: int, j: int|
                    #![trigger before[i].ipv4@[j]]
                    0 <= i < before.len() && before[i].is_up && 0 <= j < before[i].ipv4@.len()
                        && a.iface == before[i].name@ && a.addr == before[i].ipv4@[j].0 && a.prefix
                        == before[i].ipv4@[j].1;
                assert(interfaces[i] == before[i]);
                assert(interfaces[i].ipv4@[j] == before[i].ipv4@[j]);
            } else {
                let i = interfaces.len() - 1;
                let j = k - old.len();
                assert(interfaces[i] == last);
                assert(new[j] == a);
                assert(interfaces[i].ipv4@[j].0 == a.addr);
            }
        }
        if exists|i: int, j: int|
            #![trigger interfaces[i].ipv4@[j]]
            0 <= i < interfaces.len() && interfaces[i].is_up && 0 <= j < interfaces[i].ipv4@.len()
                && a.iface == interfaces[i].name@ && a.addr == interfaces[i].ipv4@[j].0 && a.prefix
                == interfaces[i].ipv4@[j].1 {
            let (i, j) = choose|i: int, j: int|
                #![trigger interfaces[i].ipv4@[j]]
                0 <= i < interfaces.len() && interfaces[i].is_up && 0 <= j
                    < interfaces[i].ipv4@.len() && a.iface == interfaces[i].name@ && a.addr
                    == interfaces[i].ipv4@[j].0 && a.prefix == interfaces[i].ipv4@[j].1;
            if i < before.len() {
                assert(before[i].ipv4@[j].0 == a.addr);
                assert(old.contains(a));
                let k = choose|k: int| 0 <= k < old.len() && old[k] == a;
                assert(all[k] == a);
            } else {
                assert(new[j] == a);
                assert(all[old.len() + j] == a);
            }
        }
    }
}

/// Every subnet that is offered is one of an attached network that can be swept,
/// with its hosts, and its label names its interface, its first host, its prefix
/// length and the number of its hosts.
pub proof fn law_subnets_are_attached(all: Seq<Attachment>, i: int)
    requires
        0 <= i < subnets_of(all).len(),
    ensures
        exists|k: int|
            0 <= k < all.len() && sweepable(#[trigger] all[k]) && subnets_of(all)[i].hosts
                == hosts_of(all[k].addr, all[k].prefix) && subnets_of(all)[i].label == all[k].iface
                + " — "@ + ip::ipv4_text(hosts_of(all[k].addr, all[k].prefix)[0]) + "/"@
                + text::decimal_text(all[k].prefix as nat) + " ("@ + text::decimal_text(
                hosts_of(all[k].addr, all[k].prefix).len(),
            ) + " hosts)"@,
    decreases all.len(),
{
    let before = all.drop_last();
    let old = subnets_of(before);
    if i < old.len() {
        assert(subnets_of(all)[i] == old[i]);
        law_subnets_are_attached(before, i);
        let k = choose|k: int|
            0 <= k < before.len() && sweepable(#[trigger] before[k]) && old[i].hosts == hosts_of(
                before[k].addr,
                before[k].prefix,
            ) && old[i].label == before[k].iface + " — "@ + ip::ipv4_text(
                hosts_of(before[k].addr, before[k].prefix)[0],
            ) + "/"@ + text::decimal_text(before[k].prefix as nat) + " ("@ + text::decimal_text(
                hosts_of(before[k].addr, before[k].prefix).len(),
            ) + " hosts)"@;
        assert(all[k] == before[k]);
    } else {
        let k = all.len() - 1;
        assert(all[k] == all.last());
        assert(subnets_of(all)[i].label == subnet_label(all[k]));
    }
}

proof fn lemma_hosts_by_key(a: Attachment)
    requires
        sweepable(a),
    ensures
        hosts_of(a.addr, a.prefix).len() == network_size(subnet_key(a).1) - 2,
        forall|j: int|
            0 <= j < hosts_of(a.addr, a.prefix).len() ==> #[trigger] hosts_of(a.addr, a.prefix)[j]
                == subnet_key(a).0 + j,
{
    lemma_small(a.prefix);
    lemma_network_fits(a.addr, a.prefix);
}

proof fn lemma_subnet_of_key(all: Seq<Attachment>, a: Attachment)
    requires
        sweepable(a),
        subnet_keys(all).contains(subnet_key(a)),
    ensures
        exists|i: int|
            0 <= i < subnets_of(all).len() && (#[trigger] subnets_of(all)[i]).hosts == hosts_of(
                a.addr,
                a.prefix,
            ),
    decreases all.len(),
{
    let before = all.drop_last();
    let keys = subnet_keys(before);
    let old = subnets_of(before);
    let last = all.last();
    law_subnets_are_distinct(before);
    if keys.contains(subnet_key(a)) {
        lemma_subnet_of_key(before, a);
        let i = choose|i: int|
            0 <= i < old.len() && (#[trigger] old[i]).hosts == hosts_of(a.addr, a.prefix);
        assert(subnets_of(all)[i] == old[i]);
    } else {
        let k = choose|k: int| 0 <= k < subnet_keys(all).len() && subnet_keys(all)[k] == subnet_key(a);
        if k < keys.len() {
            assert(keys[k] == subnet_key(a));
        }
        assert(subnet_key(last) == subnet_key(a));
        lemma_hosts_by_key(a);
        lemma_hosts_by_key(last);
        assert(hosts_of(a.addr, a.prefix) =~= hosts_of(last.addr, last.prefix));
        assert(subnets_of(all)[old.len() as int].hosts == hosts_of(last.addr, last.prefix));
    }
}

/// Every attached network that can be swept is offered with all its hosts.
pub proof fn law_sweepable_networks_are_offered(all: Seq<Attachment>, k: int)
    requires
        0 <= k < all.len(),
        sweepable(all[k]),
    ensures
        exists|i: int|
            0 <= i < subnets_of(all).len() && (#[trigger] subnets_of(all)[i]).hosts == hosts_of(
                all[k].addr,
                all[k].prefix,
            ),
{
    law_subnets_are_distinct(all);
    assert(all.contains(all[k]));
    assert(subnet_keys(all).contains(subnet_key(all[k])));
    lemma_subnet_of_key(all, all[k]);
}

/// The networks come in the order of the interfaces and of the addresses of each.
pub proof fn law_attachments_in_order(interfaces: Seq<Interface>, itf: Interface)
    ensures
        attachments(seq![]).len() == 0,
        !itf.is_up ==> attachments(interfaces.push(itf)) == attachments(interfaces),
        itf.is_up ==> {
            let old = attachments(interfaces);
            let new = attachments(interfaces.push(itf));
            &&& new.len() == old.len() + itf.ipv4@.len()
            &&& new.take(old.len() as int) == old
            &&& forall|j: int|
                0 <= j < itf.ipv4@.len() ==> {
                    let a = new[old.len() + j];
                    a.iface == itf.name@ && a.addr == (#[trigger] itf.ipv4@[j]).0 && a.prefix
                        == itf.ipv4@[j].1
                }
        },
{
    assert(interfaces.push(itf).drop_last() =~= interfaces);
    let old = attachments(interfaces);
    let new = attachments(interfaces.push(itf));
    if itf.is_up {
        assert(new.take(old.len() as int) =~= old);
    } else {
        assert(new =~= old);
    }
}

/// A network adds one subnet at most, behind those that are there, and adds none
/// where it cannot be swept.
pub proof fn law_subnets_in_order(all: Seq<Attachment>, a: Attachment)
    ensures
        subnets_of(seq![]).len() == 0,
        !sweepable(a) ==> subnets_of(all.push(a)) == subnets_of(all),
        subnets_of(all.push(a)) == subnets_of(all) || (subnets_of(all.push(a)).len() == subnets_of(
            all,
        ).len() + 1 && subnets_of(all.push(a)).drop_last() == subnets_of(all) && subnets_of(
            all.push(a),
        ).last().hosts == hosts_of(a.addr, a.prefix)),
{
    assert(all.push(a).drop_last() =~= all);
    let new = subnets_of(all.push(a));
    if new.len() == subnets_of(all).len() + 1 {
        assert(new.drop_last() =~= subnets_of(all));
    }
}

/// A host has a second to answer a sweep, and 64 of them are probed at a time.
pub proof fn law_sweep_limits()
    ensures
        PROBE_TIMEOUT == 1_000_000_000,
        MAX_WORKERS == 64,
{
}

} // verus!
