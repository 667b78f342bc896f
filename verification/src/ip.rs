//! IP addresses: their textual forms, their order and the classes that the
//! tools tell apart.

use crate::text;
use vstd::prelude::*;

verus! {

/// An IPv4 or IPv6 address, as the number that its octets form in network
/// order.
#[derive(Clone, Copy, Debug, PartialEq, Eq, Structural)]
pub enum IpAddr {
    V4(u32),
    V6(u128),
}

impl DeepView for IpAddr {
    type V = IpAddr;

    open spec fn deep_view(&self) -> IpAddr {
        *self
    }
}

impl IpAddr {
    /// Whether this is an IPv4 address.
    pub fn is_ipv4(&self) -> (r: bool)
        ensures
            r == (self is V4),
    {
        match self {
            IpAddr::V4(_) => true,
            IpAddr::V6(_) => false,
        }
    }

    /// Whether this is a multicast address: 224.0.0.0/4 or ff00::/8.
    pub fn is_multicast(&self) -> (r: bool)
        ensures
            r == multicast(*self),
    {
        match self {
            IpAddr::V4(v) => *v >= 0xe000_0000 && *v <= 0xefff_ffff,
            IpAddr::V6(v) => *v >= 0xff00_0000_0000_0000_0000_0000_0000_0000,
        }
    }
}

/// Membership of 224.0.0.0/4 or ff00::/8.
pub open spec fn multicast(ip: IpAddr) -> bool {
    match ip {
        IpAddr::V4(v) => 0xe000_0000 <= v <= 0xefff_ffff,
        IpAddr::V6(v) => v >= 0xff00_0000_0000_0000_0000_0000_0000_0000,
    }
}

/// The order of addresses that may be missing: none first, then IPv4, then
/// IPv6, each by number.
pub open spec fn ip_at_most(a: Option<IpAddr>, b: Option<IpAddr>) -> bool {
    match (a, b) {
        (None, _) => true,
        (Some(_), None) => false,
        (Some(IpAddr::V4(x)), Some(IpAddr::V4(y))) => x <= y,
        (Some(IpAddr::V4(_)), Some(IpAddr::V6(_))) => true,
        (Some(IpAddr::V6(_)), Some(IpAddr::V4(_))) => false,
        (Some(IpAddr::V6(x)), Some(IpAddr::V6(y))) => x <= y,
    }
}

/// Compares two addresses that may be missing.
pub fn is_at_most(a: Option<IpAddr>, b: Option<IpAddr>) -> (r: bool)
    ensures
        r == ip_at_most(a, b),
{
    match (a, b) {
        (None, _) => true,
        (Some(_), None) => false,
        (Some(IpAddr::V4(x)), Some(IpAddr::V4(y))) => x <= y,
        (Some(IpAddr::V4(_)), Some(IpAddr::V6(_))) => true,
        (Some(IpAddr::V6(_)), Some(IpAddr::V4(_))) => false,
        (Some(IpAddr::V6(x)), Some(IpAddr::V6(y))) => x <= y,
    }
}

// --------------------------------------------------------------------- IPv4

/// The value of one part of a dotted IPv4 address: one to three digits
/// without a leading zero, at most 255.
pub open spec fn octet_value(s: Seq<char>) -> Option<nat> {
    if 1 <= s.len() <= 3 && text::all_digits(s) && (s.len() > 1 ==> s[0] != '0') && text::decimal_value(s)
        <= 255 {
        Some(text::decimal_value(s))
    } else {
        None
    }
}

/// The number made of four octets in network order.
pub open spec fn octets_value(a: nat, b: nat, c: nat, d: nat) -> nat {
    a * 0x100_0000 + b * 0x1_0000 + c * 0x100 + d
}

/// The address that a dotted IPv4 text denotes.
pub open spec fn ipv4_value(s: Seq<char>) -> Option<u32> {
    let f = text::fields(s, '.');
    if f.len() == 4 && octet_value(f[0]) is Some && octet_value(f[1]) is Some && octet_value(
        f[2],
    ) is Some && octet_value(f[3]) is Some {
        Some(
            octets_value(
                octet_value(f[0])->0,
                octet_value(f[1])->0,
                octet_value(f[2])->0,
                octet_value(f[3])->0,
            ) as u32,
        )
    } else {
        None
    }
}

fn parse_octet(s: &str) -> (r: Option<u32>)
    ensures
        r matches Some(v) ==> octet_value(s@) == Some(v as nat) && v <= 255,
        r is None ==> octet_value(s@) is None,
{
    let cs = text::chars_of(s);
    let n = cs.len();
    if n == 0 || n > 3 || (n > 1 && cs[0] == '0') {
        return None;
    }
    let mut value: u32 = 0;
    let mut i: usize = 0;
    assert(cs@.take(0) =~= seq![]);
    while i < n
        invariant
            cs@ == s@,
            n == cs@.len(),
            n <= 3,
            i <= n,
            forall|j: int| 0 <= j < i ==> text::is_digit(#[trigger] cs@[j]),
            value == text::decimal_value(cs@.take(i as int)),
            i == 0 ==> value == 0,
            i == 1 ==> value < 10,
            i == 2 ==> value < 100,
            i == 3 ==> value < 1000,
        decreases n - i,
    {
        let c = cs[i];
        if !('0' <= c && c <= '9') {
            return None;
        }
        assert(cs@.take(i + 1).drop_last() =~= cs@.take(i as int));
        value = value * 10 + ((c as u32) - 48);
        i += 1;
    }
    assert(cs@.take(i as int) =~= cs@);
    if value <= 255 {
        Some(value)
    } else {
        None
    }
}

/// Reads a dotted IPv4 address.
pub fn parse_ipv4(s: &str) -> (r: Option<u32>)
    ensures
        r == ipv4_value(s@),
{
    let f = text::split_on(s, '.');
    let ghost fv = text::fields(s@, '.');
    if f.len() != 4 {
        return None;
    }
    assert(fv[0] == f@[0]@ && fv[1] == f@[1]@ && fv[2] == f@[2]@ && fv[3] == f@[3]@);
    match (
        parse_octet(f[0].as_str()),
        parse_octet(f[1].as_str()),
        parse_octet(f[2].as_str()),
        parse_octet(f[3].as_str()),
    ) {
        (Some(a), Some(b), Some(c), Some(d)) => Some(a * 0x100_0000 + b * 0x1_0000 + c * 0x100 + d),
        _ => None,
    }
}

/// The dotted text of an IPv4 address.
pub open spec fn ipv4_text(v: u32) -> Seq<char> {
    text::decimal_text((v / 0x100_0000) as nat).push('.') + (text::decimal_text(
        ((v / 0x1_0000) % 0x100) as nat,
    ).push('.') + (text::decimal_text(((v / 0x100) % 0x100) as nat).push('.') + text::decimal_text(
        (v % 0x100) as nat,
    )))
}

/// Writes an IPv4 address in dotted form.
pub fn format_ipv4(v: u32) -> (r: String)
    ensures
        r@ == ipv4_text(v),
{
    let mut out = text::decimal((v / 0x100_0000) as u128);
    out.push('.');
    out.append(text::decimal(((v / 0x1_0000) % 0x100) as u128).as_str());
    out.push('.');
    out.append(text::decimal(((v / 0x100) % 0x100) as u128).as_str());
    out.push('.');
    out.append(text::decimal((v % 0x100) as u128).as_str());
    assert(out@ =~= ipv4_text(v));
    out
}

/// An IPv4 address read back from its text is the same address.
pub proof fn law_ipv4_round_trip(v: u32)
    ensures
        ipv4_value(ipv4_text(v)) == Some(v),
{
    let a = (v / 0x100_0000) as nat;
    let b = ((v / 0x1_0000) % 0x100) as nat;
    let c = ((v / 0x100) % 0x100) as nat;
    let d = (v % 0x100) as nat;
    lemma_octet_text(a);
    lemma_octet_text(b);
    lemma_octet_text(c);
    lemma_octet_text(d);
    lemma_dotted(
        text::decimal_text(a),
        text::decimal_text(b),
        text::decimal_text(c),
        text::decimal_text(d),
    );
    assert(octets_value(a, b, c, d) == v);
}

/// The fields of four texts with dots between them.
proof fn lemma_dotted(a: Seq<char>, b: Seq<char>, c: Seq<char>, d: Seq<char>)
    requires
        !a.contains('.') && !b.contains('.') && !c.contains('.') && !d.contains('.'),
    ensures
        text::fields(a.push('.') + (b.push('.') + (c.push('.') + d)), '.') == seq![a, b, c, d],
{
    text::lemma_fields_single(d, '.');
    text::lemma_fields_cons(c, d, '.');
    text::lemma_fields_cons(b, c.push('.') + d, '.');
    text::lemma_fields_cons(a, b.push('.') + (c.push('.') + d), '.');
    assert(text::fields(a.push('.') + (b.push('.') + (c.push('.') + d)), '.') =~= seq![
        a,
        b,
        c,
        d,
    ]);
}

proof fn lemma_octet_text(n: nat)
    requires
        n <= 255,
    ensures
        octet_value(text::decimal_text(n)) == Some(n),
        !text::decimal_text(n).contains('.'),
{
    text::lemma_decimal_round_trip(n);
    reveal_with_fuel(text::decimal_text, 4);
}

// --------------------------------------------------------------------- IPv6

/// The number that a sequence of hexadecimal digits denotes.
pub open spec fn hex_value(s: Seq<char>) -> Option<nat>
    decreases s.len(),
{
    if s.len() == 0 {
        Some(0)
    } else {
        match (hex_value(s.drop_last()), text::hex_digit(s.last())) {
            (Some(high), Some(low)) => Some(high * 16 + low),
            _ => None,
        }
    }
}

/// The value of one group of an IPv6 address: one to four hexadecimal digits.
pub open spec fn group_value(s: Seq<char>) -> Option<nat> {
    if 1 <= s.len() <= 4 {
        hex_value(s)
    } else {
        None
    }
}

/// The groups that the given fields denote. The last field may be a dotted
/// IPv4 address, which stands for two groups, where `v4_tail` allows it.
pub open spec fn group_list(fs: Seq<Seq<char>>, v4_tail: bool) -> Option<Seq<nat>>
    decreases fs.len(),
{
    if fs.len() == 0 {
        Some(seq![])
    } else if v4_tail && fs.len() == 1 && ipv4_value(fs[0]) is Some {
        let v = ipv4_value(fs[0])->0;
        Some(seq![(v / 0x1_0000) as nat, (v % 0x1_0000) as nat])
    } else {
        match (group_value(fs[0]), group_list(fs.skip(1), v4_tail)) {
            (Some(g), Some(rest)) => Some(seq![g] + rest),
            _ => None,
        }
    }
}

/// The groups of a colon-separated part of an IPv6 address, which may be
/// empty.
pub open spec fn part_groups(s: Seq<char>, v4_tail: bool) -> Option<Seq<nat>> {
    if s.len() == 0 {
        Some(seq![])
    } else {
        group_list(text::fields(s, ':'), v4_tail)
    }
}

/// Whether `::` stands at position `i`.
pub open spec fn gap_at(s: Seq<char>, i: int) -> bool {
    0 <= i && i + 1 < s.len() && s[i] == ':' && s[i + 1] == ':'
}

/// The position of the first `::`, or the length of `s`.
pub open spec fn find_gap(s: Seq<char>) -> nat
    decreases s.len(),
{
    if s.len() == 0 || gap_at(s, 0) {
        0
    } else {
        1 + find_gap(s.skip(1))
    }
}

/// The number made of eight groups in network order.
pub open spec fn groups_value(g: Seq<nat>) -> nat {
    ((((((g[0] * 0x1_0000 + g[1]) * 0x1_0000 + g[2]) * 0x1_0000 + g[3]) * 0x1_0000 + g[4])
        * 0x1_0000 + g[5]) * 0x1_0000 + g[6]) * 0x1_0000 + g[7]
}

/// The address that an IPv6 text denotes: eight groups, or fewer around one
/// `::` that stands for at least one group of zeros.
pub open spec fn ipv6_value(s: Seq<char>) -> Option<u128> {
    let p = find_gap(s) as int;
    if p >= s.len() {
        match part_groups(s, true) {
            Some(g) => if g.len() == 8 {
                Some(groups_value(g) as u128)
            } else {
                None
            },
            None => None,
        }
    } else {
        match (part_groups(s.take(p), false), part_groups(s.skip(p + 2), true)) {
            (Some(h), Some(t)) => if h.len() + t.len() <= 7 {
                Some(groups_value(with_zeros(h, t)) as u128)
            } else {
                None
            },
            _ => None,
        }
    }
}

/// The eight groups that begin with `h`, end with `t` and are zero between.
pub open spec fn with_zeros(h: Seq<nat>, t: Seq<nat>) -> Seq<nat> {
    h + Seq::new((8 - h.len() - t.len()) as nat, |i: int| 0nat) + t
}

/// The address that a text denotes.
pub open spec fn ip_value(s: Seq<char>) -> Option<IpAddr> {
    match ipv4_value(s) {
        Some(v) => Some(IpAddr::V4(v)),
        None => match ipv6_value(s) {
            Some(v) => Some(IpAddr::V6(v)),
            None => None,
        },
    }
}

fn parse_group(s: &str) -> (r: Option<u16>)
    ensures
        r matches Some(v) ==> group_value(s@) == Some(v as nat),
        r is None ==> group_value(s@) is None,
{
    let cs = text::chars_of(s);
    let n = cs.len();
    if n == 0 || n > 4 {
        return None;
    }
    let mut value: u32 = 0;
    let mut i: usize = 0;
    assert(cs@.take(0) =~= seq![]);
    while i < n
        invariant
            cs@ == s@,
            n == cs@.len(),
            n <= 4,
            i <= n,
            hex_value(cs@.take(i as int)) == Some(value as nat),
            i == 0 ==> value == 0,
            i == 1 ==> value < 0x10,
            i == 2 ==> value < 0x100,
            i == 3 ==> value < 0x1000,
            i == 4 ==> value < 0x1_0000,
        decreases n - i,
    {
        let ghost next = cs@.take(i + 1);
        assert(next.drop_last() =~= cs@.take(i as int));
        assert(next.last() == cs@[i as int]);
        match text::parse_hex_digit(cs[i]) {
            Some(d) => {
                value = value * 16 + (d as u32);
            },
            None => {
                proof {
                    lemma_hex_value_prefix(cs@, i + 1);
                }
                return None;
            },
        }
        i += 1;
    }
    assert(cs@.take(i as int) =~= cs@);
    Some(value as u16)
}

proof fn lemma_hex_value_prefix(s: Seq<char>, n: int)
    requires
        0 <= n <= s.len(),
        hex_value(s.take(n)) is None,
    ensures
        hex_value(s) is None,
    decreases s.len() - n,
{
    if n == s.len() {
        assert(s.take(n) =~= s);
    } else {
        assert(s.take(n + 1).drop_last() =~= s.take(n));
        lemma_hex_value_prefix(s, n + 1);
    }
}

/// The groups as natural numbers.
spec fn group_view(v: Seq<u16>) -> Seq<nat> {
    Seq::new(v.len(), |i: int| v[i] as nat)
}

fn parse_part(s: &str, v4_tail: bool) -> (r: Option<Vec<u16>>)
    ensures
        r matches Some(v) ==> part_groups(s@, v4_tail) == Some(group_view(v@)),
        r is None ==> part_groups(s@, v4_tail) is None,
{
    if s.is_empty() {
        let v: Vec<u16> = Vec::new();
        assert(group_view(v@) =~= seq![]);
        return Some(v);
    }
    let f = text::split_on(s, ':');
    let ghost fv = text::fields(s@, ':');
    let mut out: Vec<u16> = Vec::new();
    let mut i: usize = 0;
    assert(fv.skip(0) =~= fv);
    assert(forall|rest: Seq<nat>| #[trigger] (group_view(out@) + rest) =~= rest);
    while i < f.len()
        invariant
            fv == f.deep_view(),
            part_groups(s@, v4_tail) == group_list(fv, v4_tail),
            i <= f@.len(),
            group_list(fv, v4_tail) == prepend(group_view(out@), group_list(fv.skip(i as int), v4_tail)),
        decreases f@.len() - i,
    {
        let ghost here = fv.skip(i as int);
        assert(here[0] == f@[i as int]@);
        assert(here.skip(1) =~= fv.skip(i + 1));
        if v4_tail && i + 1 == f.len() {
            if let Some(v) = parse_ipv4(f[i].as_str()) {
                let ghost before = out@;
                out.push((v / 0x1_0000) as u16);
                out.push((v % 0x1_0000) as u16);
                assert(group_view(out@) =~= group_view(before) + seq![
                    (v / 0x1_0000) as nat,
                    (v % 0x1_0000) as nat,
                ]);
                return Some(out);
            }
        }
        assert(!(v4_tail && here.len() == 1 && ipv4_value(here[0]) is Some));
        match parse_group(f[i].as_str()) {
            Some(g) => {
                assert(group_list(here, v4_tail) == prepend(
                    seq![g as nat],
                    group_list(fv.skip(i + 1), v4_tail),
                ));
                let ghost before = out@;
                out.push(g);
                proof {
                    assert(group_view(out@) =~= group_view(before).push(g as nat));
                    lemma_prepend(group_view(before), g as nat, group_list(fv.skip(i + 1), v4_tail));
                }
            },
            None => {
                return None;
            },
        }
        i += 1;
    }
    assert(fv.skip(i as int) =~= seq![]);
    assert(group_view(out@) + seq![] =~= group_view(out@));
    Some(out)
}

/// `head` before the groups of `rest`, where there are any.
spec fn prepend(head: Seq<nat>, rest: Option<Seq<nat>>) -> Option<Seq<nat>> {
    match rest {
        Some(r) => Some(head + r),
        None => None,
    }
}

proof fn lemma_prepend(head: Seq<nat>, g: nat, rest: Option<Seq<nat>>)
    ensures
        prepend(head, prepend(seq![g], rest)) == prepend(head.push(g), rest),
{
    match rest {
        Some(r) => {
            assert(head + (seq![g] + r) =~= head.push(g) + r);
        },
        None => {},
    }
}

proof fn lemma_find_gap(s: Seq<char>, i: int)
    requires
        0 <= i <= s.len(),
        i < s.len() ==> gap_at(s, i),
        forall|j: int| 0 <= j < i ==> !#[trigger] gap_at(s, j),
    ensures
        find_gap(s) == i,
    decreases s.len(),
{
    if s.len() > 0 && i > 0 {
        let r = s.skip(1);
        assert(!gap_at(s, 0));
        assert(i - 1 < r.len() ==> gap_at(r, i - 1));
        assert forall|j: int| 0 <= j < i - 1 implies !#[trigger] gap_at(r, j) by {
            assert(!gap_at(s, j + 1));
        }
        lemma_find_gap(r, i - 1);
    }
}

fn assemble(head: &Vec<u16>, tail: &Vec<u16>) -> (r: u128)
    requires
        head@.len() + tail@.len() <= 8,
    ensures
        r == groups_value(with_zeros(group_view(head@), group_view(tail@))),
{
    let mut g: Vec<u16> = Vec::new();
    let mut i: usize = 0;
    let ghost all = with_zeros(group_view(head@), group_view(tail@));
    while i < 8
        invariant
            i <= 8,
            head@.len() + tail@.len() <= 8,
            all == with_zeros(group_view(head@), group_view(tail@)),
            all.len() == 8,
            g@.len() == i,
            forall|j: int| 0 <= j < i ==> g@[j] as nat == all[j],
        decreases 8 - i,
    {
        let v: u16 = if i < head.len() {
            head[i]
        } else if i < 8 - tail.len() {
            0
        } else {
            tail[i - (8 - tail.len())]
        };
        g.push(v);
        i += 1;
    }
    let a: u128 = (g[0] as u128) * 0x1_0000 + (g[1] as u128);
    let b: u128 = (a * 0x1_0000 + (g[2] as u128)) * 0x1_0000 + (g[3] as u128);
    let c: u128 = (b * 0x1_0000 + (g[4] as u128)) * 0x1_0000 + (g[5] as u128);
    (c * 0x1_0000 + (g[6] as u128)) * 0x1_0000 + (g[7] as u128)
}

/// Reads an IPv6 address.
pub fn parse_ipv6(s: &str) -> (r: Option<u128>)
    ensures
        r == ipv6_value(s@),
{
    let cs = text::chars_of(s);
    let n = cs.len();
    let mut p: usize = 0;
    while p < n && !(cs[p] == ':' && n - p > 1 && cs[p + 1] == ':')
        invariant
            cs@ == s@,
            n == cs@.len(),
            p <= n,
            forall|j: int| 0 <= j < p ==> !#[trigger] gap_at(s@, j),
        decreases n - p,
    {
        p += 1;
    }
    proof {
        lemma_find_gap(s@, p as int);
    }
    if p == n {
        match parse_part(s, true) {
            Some(g) => if g.len() == 8 {
                let none: Vec<u16> = Vec::new();
                let v = assemble(&g, &none);
                assert(with_zeros(group_view(g@), group_view(none@)) =~= group_view(g@));
                Some(v)
            } else {
                None
            },
            None => None,
        }
    } else {
        let head_text = text::string_of(vstd::slice::slice_subrange(cs.as_slice(), 0, p));
        let tail_text = text::string_of(vstd::slice::slice_subrange(cs.as_slice(), p + 2, n));
        assert(head_text@ =~= s@.take(p as int));
        assert(tail_text@ =~= s@.skip(p + 2));
        match (parse_part(head_text.as_str(), false), parse_part(tail_text.as_str(), true)) {
            (Some(h), Some(t)) => if h.len() <= 7 && t.len() <= 7 - h.len() {
                Some(assemble(&h, &t))
            } else {
                None
            },
            _ => None,
        }
    }
}

/// Reads an IPv4 or IPv6 address.
pub fn parse_ip(s: &str) -> (r: Option<IpAddr>)
    ensures
        r == ip_value(s@),
{
    match parse_ipv4(s) {
        Some(v) => Some(IpAddr::V4(v)),
        None => match parse_ipv6(s) {
            Some(v) => Some(IpAddr::V6(v)),
            None => None,
        },
    }
}

// ------------------------------------------------------- What addresses are

/// An address has a dot or a colon in it.
pub proof fn law_addresses_have_a_mark(s: Seq<char>)
    ensures
        ip_value(s) is Some ==> s.contains('.') || s.contains(':'),
        ipv4_value(s) is Some ==> s.contains('.'),
{
    if !s.contains('.') {
        text::lemma_fields_single(s, '.');
    }
    if !s.contains('.') && !s.contains(':') {
        text::lemma_fields_single(s, ':');
        assert forall|j: int| 0 <= j < s.len() implies !#[trigger] gap_at(s, j) by {
            assert(s.contains(s[j]));
        }
        lemma_find_gap(s, s.len() as int);
        let f = text::fields(s, ':');
        assert(f.skip(1) =~= Seq::empty());
        assert(group_list(f.skip(1), true) == Some(Seq::<nat>::empty()));
    }
}

proof fn lemma_octet_is_numeral(s: Seq<char>)
    requires
        octet_value(s) is Some,
    ensures
        s == text::decimal_text(octet_value(s)->0),
        octet_value(s)->0 <= 255,
{
    assert forall|i: int| 0 <= i < s.len() implies '0' <= #[trigger] s[i] <= '9' by {
        assert(text::is_digit(s[i]));
    }
    text::law_numerals_are_unique(s);
}

proof fn lemma_four_joined(a: Seq<char>, b: Seq<char>, c: Seq<char>, d: Seq<char>)
    ensures
        text::joined(seq![a, b, c, d], seq!['.']) == a.push('.') + (b.push('.') + (c.push('.') + d)),
{
    let dot = seq!['.'];
    assert(seq![a, b, c, d] =~= seq![a] + (seq![b] + (seq![c] + seq![d])));
    text::law_joined_first(a, seq![b] + (seq![c] + seq![d]), dot);
    text::law_joined_first(b, seq![c] + seq![d], dot);
    text::law_joined_first(c, seq![d], dot);
    text::law_joined_first(d, seq![], dot);
    assert(text::joined(seq![a, b, c, d], dot) =~= a.push('.') + (b.push('.') + (c.push('.') + d)));
}

proof fn lemma_bytes_of(v: u32, a: nat, b: nat, c: nat, d: nat)
    requires
        a <= 255 && b <= 255 && c <= 255 && d <= 255,
        v == a * 0x100_0000 + b * 0x1_0000 + c * 0x100 + d,
    ensures
        v / 0x100_0000 == a,
        (v / 0x1_0000) % 0x100 == b,
        (v / 0x100) % 0x100 == c,
        v % 0x100 == d,
{
    let n = v as int;
    let ab = a * 0x100 + b;
    let abc = ab * 0x100 + c;
    vstd::arithmetic::div_mod::lemma_fundamental_div_mod_converse(
        n,
        0x100_0000,
        a as int,
        (b * 0x1_0000 + c * 0x100 + d) as int,
    );
    vstd::arithmetic::div_mod::lemma_fundamental_div_mod_converse(
        n,
        0x1_0000,
        ab as int,
        (c * 0x100 + d) as int,
    );
    vstd::arithmetic::div_mod::lemma_fundamental_div_mod_converse(n, 0x100, abc as int, d as int);
    vstd::arithmetic::div_mod::lemma_fundamental_div_mod_converse(
        ab as int,
        0x100,
        a as int,
        b as int,
    );
    vstd::arithmetic::div_mod::lemma_fundamental_div_mod_converse(
        abc as int,
        0x100,
        ab as int,
        c as int,
    );
}

/// An IPv4 address has one text only: a text is read as an address exactly when
/// it is the text of that address.
pub proof fn law_ipv4_text_is_unique(s: Seq<char>, v: u32)
    ensures
        ipv4_value(s) == Some(v) <==> s == ipv4_text(v),
{
    if s == ipv4_text(v) {
        law_ipv4_round_trip(v);
    }
    if ipv4_value(s) == Some(v) {
        lemma_dotted_is_text(s, v);
    }
}

proof fn lemma_dotted_is_text(s: Seq<char>, v: u32)
    requires
        ipv4_value(s) == Some(v),
    ensures
        s == ipv4_text(v),
{
    let f = text::fields(s, '.');
    lemma_octet_is_numeral(f[0]);
    lemma_octet_is_numeral(f[1]);
    lemma_octet_is_numeral(f[2]);
    lemma_octet_is_numeral(f[3]);
    lemma_bytes_of(
        v,
        octet_value(f[0])->0,
        octet_value(f[1])->0,
        octet_value(f[2])->0,
        octet_value(f[3])->0,
    );
    text::law_fields_are_joined_back(s, '.');
    assert(f =~= seq![f[0], f[1], f[2], f[3]]);
    lemma_four_joined(f[0], f[1], f[2], f[3]);
}

/// The text of an IPv4 address is its four bytes, from the highest down, as
/// numerals with dots between them.
pub proof fn law_ipv4_text_is_dotted(a: u8, b: u8, c: u8, d: u8)
    ensures
        ipv4_text((a * 0x100_0000 + b * 0x1_0000 + c * 0x100 + d) as u32) == text::joined(
            seq![
                text::decimal_text(a as nat),
                text::decimal_text(b as nat),
                text::decimal_text(c as nat),
                text::decimal_text(d as nat),
            ],
            "."@,
        ),
{
    reveal_strlit(".");
    let v = (a * 0x100_0000 + b * 0x1_0000 + c * 0x100 + d) as u32;
    lemma_bytes_of(v, a as nat, b as nat, c as nat, d as nat);
    assert("."@ =~= seq!['.']);
    lemma_four_joined(
        text::decimal_text(a as nat),
        text::decimal_text(b as nat),
        text::decimal_text(c as nat),
        text::decimal_text(d as nat),
    );
}

/// Multicast addresses are those whose first byte is from 224 to 239 in IPv4 and
/// 255 in IPv6.
pub proof fn law_multicast_by_first_byte(v4: u32, v6: u128)
    ensures
        multicast(IpAddr::V4(v4)) <==> 224 <= v4 / 0x100_0000 <= 239,
        multicast(IpAddr::V6(v6)) <==> v6 / 0x100_0000_0000_0000_0000_0000_0000_0000 == 255,
{
}

/// Addresses have a total order: what is no address comes first, then the IPv4
/// addresses by number, then the IPv6 addresses by number.
pub proof fn law_address_order(a: Option<IpAddr>, b: Option<IpAddr>, c: Option<IpAddr>)
    ensures
        ip_at_most(a, a),
        ip_at_most(a, b) || ip_at_most(b, a),
        ip_at_most(a, b) && ip_at_most(b, a) ==> a == b,
        ip_at_most(a, b) && ip_at_most(b, c) ==> ip_at_most(a, c),
        a is None ==> ip_at_most(a, b),
        a is Some && a->0 is V4 && b is Some && b->0 is V6 ==> ip_at_most(a, b),
        a matches Some(IpAddr::V4(x)) ==> (b matches Some(IpAddr::V4(y)) ==> (ip_at_most(a, b)
            <==> x <= y)),
        a matches Some(IpAddr::V6(x)) ==> (b matches Some(IpAddr::V6(y)) ==> (ip_at_most(a, b)
            <==> x <= y)),
{
}

/// Hexadecimal digits are read from the highest to the lowest.
pub proof fn law_hex_is_positional(s: Seq<char>, c: char)
    ensures
        hex_value(seq![]) == Some(0nat),
        text::hex_digit(c) is Some && hex_value(s) is Some ==> hex_value(s.push(c)) == Some(
            16 * hex_value(s)->0 + text::hex_digit(c)->0,
        ),
        hex_value(s) is None || text::hex_digit(c) is None ==> hex_value(s.push(c)) is None,
{
    assert(s.push(c).drop_last() =~= s);
}

/// Whether each part is a group: one to four hexadecimal digits.
pub open spec fn all_groups(g: Seq<Seq<char>>) -> bool {
    forall|i: int|
        0 <= i < g.len() ==> 1 <= (#[trigger] g[i]).len() <= 4 && (forall|j: int|
            0 <= j < g[i].len() ==> text::hex_digit(#[trigger] g[i][j]) is Some)
}

proof fn lemma_hex_text(s: Seq<char>)
    requires
        s.len() <= 4,
        forall|j: int| 0 <= j < s.len() ==> text::hex_digit(#[trigger] s[j]) is Some,
    ensures
        hex_value(s) is Some,
        s.len() == 0 ==> hex_value(s)->0 < 1,
        s.len() == 1 ==> hex_value(s)->0 < 0x10,
        s.len() == 2 ==> hex_value(s)->0 < 0x100,
        s.len() == 3 ==> hex_value(s)->0 < 0x1000,
        s.len() == 4 ==> hex_value(s)->0 < 0x1_0000,
        !s.contains(':'),
        !s.contains('.'),
    decreases s.len(),
{
    if s.len() > 0 {
        let front = s.drop_last();
        assert forall|j: int| 0 <= j < front.len() implies text::hex_digit(
            #[trigger] front[j],
        ) is Some by {
            assert(front[j] == s[j]);
        }
        lemma_hex_text(front);
        assert(text::hex_digit(s[s.len() - 1]) is Some);
    }
}

proof fn lemma_group_list(g: Seq<Seq<char>>, v4_tail: bool)
    requires
        all_groups(g),
    ensures
        group_list(g, v4_tail) is Some,
        group_list(g, v4_tail)->0.len() == g.len(),
        forall|i: int|
            0 <= i < g.len() ==> #[trigger] group_list(g, v4_tail)->0[i] == hex_value(g[i])->0,
        forall|i: int| 0 <= i < g.len() ==> #[trigger] group_list(g, v4_tail)->0[i] < 0x1_0000,
        forall|i: int|
            0 <= i < g.len() ==> !(#[trigger] g[i]).contains(':') && !g[i].contains('.'),
    decreases g.len(),
{
    if g.len() > 0 {
        let rest = g.skip(1);
        assert forall|i: int| 0 <= i < rest.len() implies 1 <= (#[trigger] rest[i]).len() <= 4 && (
        forall|j: int|
            0 <= j < rest[i].len() ==> text::hex_digit(#[trigger] rest[i][j]) is Some) by {
            assert(rest[i] == g[i + 1]);
        }
        lemma_group_list(rest, v4_tail);
        assert(1 <= g[0].len() <= 4);
        lemma_hex_text(g[0]);
        law_addresses_have_a_mark(g[0]);
        let all = group_list(g, v4_tail)->0;
        assert forall|i: int| 0 <= i < g.len() implies #[trigger] all[i] == hex_value(g[i])->0
            && all[i] < 0x1_0000 by {
            if i > 0 {
                assert(all[i] == group_list(rest, v4_tail)->0[i - 1]);
                assert(rest[i - 1] == g[i]);
            }
        }
        assert forall|i: int| 0 <= i < g.len() implies !(#[trigger] g[i]).contains(':')
            && !g[i].contains('.') by {
            if i > 0 {
                assert(rest[i - 1] == g[i]);
            }
        }
    }
}

/// Where two colons stand together, a field is empty.
proof fn lemma_gap_is_an_empty_field(s: Seq<char>, i: int)
    requires
        gap_at(s, i),
    ensures
        exists|k: int| 0 <= k < text::fields(s, ':').len() && (#[trigger] text::fields(s, ':')[k]).len()
            == 0,
    decreases s.len(),
{
    text::lemma_find_char(s, ':');
    let f = text::find_char(s, ':') as int;
    if f > i {
        assert(s[i] != ':');
    }
    let rest = s.skip(f + 1);
    let all = text::fields(s, ':');
    if f == i {
        assert(rest[0] == ':');
        let below = text::fields(rest, ':');
        assert(below[0] == rest.take(0));
        assert(all[1] == below[0]);
        assert(all[1].len() == 0);
    } else {
        assert(gap_at(rest, i - f - 1));
        lemma_gap_is_an_empty_field(rest, i - f - 1);
        let below = text::fields(rest, ':');
        let k = choose|k: int| 0 <= k < below.len() && (#[trigger] below[k]).len() == 0;
        assert(all[k + 1] == below[k]);
    }
}

proof fn lemma_joined_parts(g: Seq<Seq<char>>)
    requires
        g.len() > 0,
        forall|i: int| 0 <= i < g.len() ==> (#[trigger] g[i]).len() > 0 && !g[i].contains(':'),
    ensures
        text::fields(text::joined(g, seq![':']), ':') == g,
        forall|j: int| !#[trigger] gap_at(text::joined(g, seq![':']), j),
        text::joined(g, seq![':']).len() > 0,
        text::joined(g, seq![':']).last() != ':',
        text::joined(g, seq![':'])[0] != ':',
{
    let s = text::joined(g, seq![':']);
    text::lemma_fields_joined(g, ':');
    assert forall|j: int| !#[trigger] gap_at(s, j) by {
        if gap_at(s, j) {
            lemma_gap_is_an_empty_field(s, j);
            let k = choose|k: int| 0 <= k < g.len() && (#[trigger] g[k]).len() == 0;
            assert(g[k].len() > 0);
        }
    }
    let last = g[g.len() - 1];
    assert(last.len() > 0 && !last.contains(':'));
    assert(s.last() == last[last.len() - 1]);
    assert(last.contains(last[last.len() - 1]));
    let first = g[0];
    assert(first.len() > 0 && !first.contains(':'));
    assert(g =~= seq![first] + g.skip(1));
    text::law_joined_first(first, g.skip(1), seq![':']);
    assert(s[0] == first[0]);
    assert(first.contains(first[0]));
}

proof fn lemma_joined_groups(g: Seq<Seq<char>>)
    requires
        all_groups(g),
        g.len() > 0,
    ensures
        text::fields(text::joined(g, seq![':']), ':') == g,
        forall|j: int| !#[trigger] gap_at(text::joined(g, seq![':']), j),
        text::joined(g, seq![':']).len() > 0,
        text::joined(g, seq![':']).last() != ':',
        text::joined(g, seq![':'])[0] != ':',
{
    lemma_group_list(g, false);
    lemma_joined_parts(g);
}

/// Eight groups with colons between them are an IPv6 address, each group worth
/// sixteen bits, the first the highest.
pub proof fn law_ipv6_groups(g: Seq<Seq<char>>)
    requires
        g.len() == 8,
        all_groups(g),
    ensures
        ipv6_value(text::joined(g, ":"@)) is Some,
        ipv6_value(text::joined(g, ":"@))->0 == hex_value(g[0])->0
            * 0x1_0000_0000_0000_0000_0000_0000_0000 + hex_value(g[1])->0
            * 0x1_0000_0000_0000_0000_0000_0000 + hex_value(g[2])->0
            * 0x1_0000_0000_0000_0000_0000 + hex_value(g[3])->0 * 0x1_0000_0000_0000_0000
            + hex_value(g[4])->0 * 0x1_0000_0000_0000 + hex_value(g[5])->0 * 0x1_0000_0000
            + hex_value(g[6])->0 * 0x1_0000 + hex_value(g[7])->0,
{
    reveal_strlit(":");
    assert(":"@ =~= seq![':']);
    let s = text::joined(g, ":"@);
    lemma_joined_groups(g);
    lemma_find_gap(s, s.len() as int);
    lemma_group_list(g, true);
    let v = group_list(g, true)->0;
    assert(v[0] < 0x1_0000 && v[1] < 0x1_0000 && v[2] < 0x1_0000 && v[3] < 0x1_0000);
    assert(v[4] < 0x1_0000 && v[5] < 0x1_0000 && v[6] < 0x1_0000 && v[7] < 0x1_0000);
}

/// Two colons stand for the groups of zero that are missing: an address with
/// them is the address with those zeros written out.
pub proof fn law_ipv6_gap_is_zeros(h: Seq<Seq<char>>, t: Seq<Seq<char>>)
    requires
        all_groups(h),
        all_groups(t),
        h.len() + t.len() <= 7,
    ensures
        ipv6_value(text::joined(h, ":"@) + "::"@ + text::joined(t, ":"@)) is Some,
        ipv6_value(text::joined(h, ":"@) + "::"@ + text::joined(t, ":"@)) == ipv6_value(
            text::joined(
                h + Seq::new((8 - h.len() - t.len()) as nat, |i: int| "0"@) + t,
                ":"@,
            ),
        ),
{
    reveal_strlit(":");
    reveal_strlit("::");
    reveal_strlit("0");
    let colon = seq![':'];
    assert(":"@ =~= colon);
    let hs = text::joined(h, colon);
    let ts = text::joined(t, colon);
    let s = hs + "::"@ + ts;
    let p = hs.len() as int;
    if h.len() > 0 {
        lemma_joined_groups(h);
    }
    if t.len() > 0 {
        lemma_joined_groups(t);
    }
    lemma_group_list(h, false);
    lemma_group_list(t, true);
    assert(s[p] == ':' && s[p + 1] == ':');
    assert forall|j: int| 0 <= j < p implies !#[trigger] gap_at(s, j) by {
        if j + 1 < p {
            assert(!gap_at(hs, j));
            assert(s[j] == hs[j] && s[j + 1] == hs[j + 1]);
        } else {
            assert(s[j] == hs.last());
        }
    }
    lemma_find_gap(s, p);
    assert(s.take(p) =~= hs);
    assert(s.skip(p + 2) =~= ts);
    let hv = group_list(h, false)->0;
    let tv = group_list(t, true)->0;
    assert(part_groups(hs, false) == Some(hv)) by {
        if h.len() == 0 {
            assert(hv =~= Seq::empty());
        }
    }
    assert(part_groups(ts, true) == Some(tv)) by {
        if t.len() == 0 {
            assert(tv =~= Seq::empty());
        }
    }
    let n = (8 - h.len() - t.len()) as nat;
    let zeros = Seq::new(n, |i: int| "0"@);
    let all = h + zeros + t;
    assert(text::hex_digit("0"@[0]) == Some(0nat));
    assert forall|i: int| 0 <= i < all.len() implies 1 <= (#[trigger] all[i]).len() <= 4 && (forall|
        j: int,
    |
        0 <= j < all[i].len() ==> text::hex_digit(#[trigger] all[i][j]) is Some) by {
        if i < h.len() {
            assert(all[i] == h[i]);
        } else if i < h.len() + n {
            assert(all[i] == "0"@);
        } else {
            assert(all[i] == t[i - h.len() - n]);
        }
    }
    let u = text::joined(all, colon);
    lemma_joined_groups(all);
    lemma_find_gap(u, u.len() as int);
    lemma_group_list(all, true);
    let v = group_list(all, true)->0;
    assert(hex_value("0"@) == Some(0nat)) by {
        assert("0"@.drop_last() =~= Seq::empty());
        assert(hex_value("0"@.drop_last()) == Some(0nat));
    }
    assert forall|i: int| 0 <= i < 8 implies #[trigger] v[i] == with_zeros(hv, tv)[i] by {
        assert(v[i] == hex_value(all[i])->0);
        if i < h.len() {
            assert(all[i] == h[i]);
            assert(hv[i] == hex_value(h[i])->0);
        } else if i < h.len() + n {
            assert(all[i] == "0"@);
        } else {
            assert(all[i] == t[i - h.len() - n]);
            assert(tv[i - h.len() - n] == hex_value(t[i - h.len() - n])->0);
        }
    }
    assert(v =~= with_zeros(hv, tv));
}

/// The text of an IPv4 address is read as that address.
pub proof fn law_ipv4_addresses_are_read(v: u32)
    ensures
        ip_value(ipv4_text(v)) == Some(IpAddr::V4(v)),
{
    law_ipv4_round_trip(v);
}

/// A text without a dot is an IPv6 address or none at all.
pub proof fn law_ipv6_addresses_are_read(s: Seq<char>)
    requires
        !s.contains('.'),
    ensures
        ip_value(s) is Some <==> ipv6_value(s) is Some,
        ipv6_value(s) matches Some(v) ==> ip_value(s) == Some(IpAddr::V6(v)),
{
    law_addresses_have_a_mark(s);
}

/// Without two colons together an IPv6 address has eight groups, no fewer and no
/// more.
pub proof fn law_ipv6_has_eight_groups(g: Seq<Seq<char>>)
    requires
        all_groups(g),
        g.len() > 0,
        g.len() != 8,
    ensures
        ipv6_value(text::joined(g, ":"@)) is None,
{
    reveal_strlit(":");
    assert(":"@ =~= seq![':']);
    let s = text::joined(g, ":"@);
    lemma_joined_groups(g);
    lemma_find_gap(s, s.len() as int);
    lemma_group_list(g, true);
}

/// Two colons stand for one group at least: with eight groups beside them there
/// is no address.
pub proof fn law_ipv6_gap_is_not_empty(h: Seq<Seq<char>>, t: Seq<Seq<char>>)
    requires
        all_groups(h),
        all_groups(t),
        h.len() + t.len() >= 8,
    ensures
        ipv6_value(text::joined(h, ":"@) + "::"@ + text::joined(t, ":"@)) is None,
{
    reveal_strlit(":");
    reveal_strlit("::");
    let colon = seq![':'];
    assert(":"@ =~= colon);
    let hs = text::joined(h, colon);
    let ts = text::joined(t, colon);
    let s = hs + "::"@ + ts;
    let p = hs.len() as int;
    if h.len() > 0 {
        lemma_joined_groups(h);
    }
    if t.len() > 0 {
        lemma_joined_groups(t);
    }
    lemma_group_list(h, false);
    lemma_group_list(t, true);
    assert(s[p] == ':' && s[p + 1] == ':');
    assert forall|j: int| 0 <= j < p implies !#[trigger] gap_at(s, j) by {
        if j + 1 < p {
            assert(!gap_at(hs, j));
            assert(s[j] == hs[j] && s[j + 1] == hs[j + 1]);
        } else {
            assert(s[j] == hs.last());
        }
    }
    lemma_find_gap(s, p);
    assert(s.take(p) =~= hs);
    assert(s.skip(p + 2) =~= ts);
}

proof fn lemma_ipv4_text_chars(v: u32)
    ensures
        ipv4_text(v).len() > 0,
        !ipv4_text(v).contains(':'),
        ipv4_text(v).contains('.'),
{
    let s = ipv4_text(v);
    let a = text::decimal_text((v / 0x100_0000) as nat);
    let b = text::decimal_text(((v / 0x1_0000) % 0x100) as nat);
    let c = text::decimal_text(((v / 0x100) % 0x100) as nat);
    let d = text::decimal_text((v % 0x100) as nat);
    text::lemma_decimal_chars((v / 0x100_0000) as nat);
    text::lemma_decimal_chars(((v / 0x1_0000) % 0x100) as nat);
    text::lemma_decimal_chars(((v / 0x100) % 0x100) as nat);
    text::lemma_decimal_chars((v % 0x100) as nat);
    assert(s[a.len() as int] == '.');
    assert forall|i: int| 0 <= i < s.len() implies s[i] != ':' by {
        let nb = a.len() + 1;
        let nc = nb + b.len() + 1;
        let nd = nc + c.len() + 1;
        if i < a.len() {
            assert(s[i] == a[i]);
            assert(text::is_digit(a[i]));
        } else if nb <= i < nb + b.len() {
            assert(s[i] == b[i - nb]);
            assert(text::is_digit(b[i - nb]));
        } else if nc <= i < nc + c.len() {
            assert(s[i] == c[i - nc]);
            assert(text::is_digit(c[i - nc]));
        } else if nd <= i {
            assert(s[i] == d[i - nd]);
            assert(text::is_digit(d[i - nd]));
        } else {
            assert(s[i] == '.');
        }
    }
}

proof fn lemma_group_list_tail(g: Seq<Seq<char>>, v: u32)
    requires
        all_groups(g),
    ensures
        group_list(g.push(ipv4_text(v)), true) is Some,
        group_list(g.push(ipv4_text(v)), true)->0 == group_list(g, true)->0 + seq![
            (v / 0x1_0000) as nat,
            (v % 0x1_0000) as nat,
        ],
    decreases g.len(),
{
    let all = g.push(ipv4_text(v));
    law_ipv4_round_trip(v);
    lemma_group_list(g, true);
    if g.len() == 0 {
        assert(all[0] == ipv4_text(v));
        assert(group_list(all, true)->0 =~= group_list(g, true)->0 + seq![
            (v / 0x1_0000) as nat,
            (v % 0x1_0000) as nat,
        ]);
    } else {
        let rest = g.skip(1);
        assert forall|i: int| 0 <= i < rest.len() implies 1 <= (#[trigger] rest[i]).len() <= 4 && (
        forall|j: int|
            0 <= j < rest[i].len() ==> text::hex_digit(#[trigger] rest[i][j]) is Some) by {
            assert(rest[i] == g[i + 1]);
        }
        lemma_group_list_tail(rest, v);
        lemma_group_list(rest, true);
        assert(all.skip(1) =~= rest.push(ipv4_text(v)));
        assert(1 <= g[0].len() <= 4);
        lemma_hex_text(g[0]);
        law_addresses_have_a_mark(g[0]);
        assert(all[0] == g[0]);
        assert(group_list(all, true)->0 =~= group_list(g, true)->0 + seq![
            (v / 0x1_0000) as nat,
            (v % 0x1_0000) as nat,
        ]);
    }
}

/// An IPv4 address at the end of an IPv6 address stands for its last two groups.
pub proof fn law_ipv4_tail(g: Seq<Seq<char>>, v: u32, x: Seq<char>, y: Seq<char>)
    requires
        g.len() == 6,
        all_groups(g),
        all_groups(seq![x, y]),
        hex_value(x) == Some((v / 0x1_0000) as nat),
        hex_value(y) == Some((v % 0x1_0000) as nat),
    ensures
        ipv6_value(text::joined(g.push(ipv4_text(v)), ":"@)) is Some,
        ipv6_value(text::joined(g.push(ipv4_text(v)), ":"@)) == ipv6_value(
            text::joined(g + seq![x, y], ":"@),
        ),
{
    reveal_strlit(":");
    let colon = seq![':'];
    assert(":"@ =~= colon);
    let parts = g.push(ipv4_text(v));
    let s = text::joined(parts, colon);
    lemma_group_list(g, true);
    lemma_ipv4_text_chars(v);
    assert forall|i: int| 0 <= i < parts.len() implies (#[trigger] parts[i]).len() > 0
        && !parts[i].contains(':') by {
        if i < 6 {
            assert(parts[i] == g[i]);
            assert(1 <= g[i].len());
        }
    }
    lemma_joined_parts(parts);
    lemma_find_gap(s, s.len() as int);
    lemma_group_list_tail(g, v);
    let all = g + seq![x, y];
    assert forall|i: int| 0 <= i < all.len() implies 1 <= (#[trigger] all[i]).len() <= 4 && (forall|
        j: int,
    |
        0 <= j < all[i].len() ==> text::hex_digit(#[trigger] all[i][j]) is Some) by {
        if i < 6 {
            assert(all[i] == g[i]);
        } else {
            assert(all[i] == seq![x, y][i - 6]);
        }
    }
    let u = text::joined(all, colon);
    lemma_joined_groups(all);
    lemma_find_gap(u, u.len() as int);
    lemma_group_list(all, true);
    let w = group_list(all, true)->0;
    let z = group_list(parts, true)->0;
    assert forall|i: int| 0 <= i < 8 implies #[trigger] w[i] == z[i] by {
        assert(w[i] == hex_value(all[i])->0);
        if i < 6 {
            assert(all[i] == g[i]);
        } else {
            assert(all[i] == seq![x, y][i - 6]);
        }
    }
    assert(w =~= z);
}

proof fn lemma_bad_group(fs: Seq<Seq<char>>, v4_tail: bool, i: int)
    requires
        0 <= i < fs.len(),
        group_value(fs[i]) is None,
        !fs[i].contains('.'),
    ensures
        group_list(fs, v4_tail) is None,
    decreases fs.len(),
{
    law_addresses_have_a_mark(fs[i]);
    if i > 0 {
        assert(fs.skip(1)[i - 1] == fs[i]);
        lemma_bad_group(fs.skip(1), v4_tail, i - 1);
    }
}

/// A group that is empty or has more than four digits, or anything in it that is
/// no hexadecimal digit, makes a text without a dot no IPv6 address.
pub proof fn law_ipv6_bad_group(parts: Seq<Seq<char>>, i: int, j: int)
    requires
        0 <= i < parts.len(),
        forall|k: int|
            0 <= k < parts.len() ==> (#[trigger] parts[k]).len() > 0 && !parts[k].contains(':')
                && !parts[k].contains('.'),
        parts[i].len() > 4 || (0 <= j < parts[i].len() && text::hex_digit(parts[i][j]) is None),
    ensures
        ipv6_value(text::joined(parts, ":"@)) is None,
{
    reveal_strlit(":");
    let colon = seq![':'];
    assert(":"@ =~= colon);
    let s = text::joined(parts, colon);
    lemma_joined_parts(parts);
    lemma_find_gap(s, s.len() as int);
    if parts[i].len() <= 4 {
        lemma_bad_digit(parts[i], j);
    }
    lemma_bad_group(parts, true, i);
}

proof fn lemma_bad_digit(s: Seq<char>, j: int)
    requires
        0 <= j < s.len(),
        text::hex_digit(s[j]) is None,
    ensures
        hex_value(s) is None,
    decreases s.len(),
{
    if j < s.len() - 1 {
        assert(s.drop_last()[j] == s[j]);
        lemma_bad_digit(s.drop_last(), j);
    }
}

/// A text without two colons together that has a field, between colons, which is
/// no group and has no dot, is no IPv6 address: so are a colon at either end, too
/// many digits, and anything that is no digit.
pub proof fn law_ipv6_bad_field(s: Seq<char>, i: int, j: int)
    requires
        s.len() > 0,
        forall|k: int| 0 <= k < s.len() - 1 ==> !(#[trigger] s[k] == ':' && s[k + 1] == ':'),
        0 <= i < text::fields(s, ':').len(),
        !text::fields(s, ':')[i].contains('.'),
        text::fields(s, ':')[i].len() == 0 || text::fields(s, ':')[i].len() > 4 || (0 <= j
            < text::fields(s, ':')[i].len() && text::hex_digit(text::fields(s, ':')[i][j]) is None),
    ensures
        ipv6_value(s) is None,
{
    let f = text::fields(s, ':');
    assert forall|k: int| 0 <= k < s.len() implies !#[trigger] gap_at(s, k) by {
        if k < s.len() - 1 {
            assert(!(s[k] == ':' && s[k + 1] == ':'));
        }
    }
    lemma_find_gap(s, s.len() as int);
    if 1 <= f[i].len() <= 4 {
        lemma_bad_digit(f[i], j);
    }
    lemma_bad_group(f, true, i);
}

proof fn lemma_first_gap(s: Seq<char>, i: int)
    requires
        gap_at(s, i),
    ensures
        find_gap(s) <= i,
        gap_at(s, find_gap(s) as int),
    decreases s.len(),
{
    if !gap_at(s, 0) {
        assert(gap_at(s.skip(1), i - 1));
        lemma_first_gap(s.skip(1), i - 1);
        let p = find_gap(s.skip(1)) as int;
        assert(s.skip(1)[p] == s[p + 1] && s.skip(1)[p + 1] == s[p + 2]);
    }
}

/// Two colons stand together once at most.
pub proof fn law_ipv6_has_one_gap(s: Seq<char>, i: int, j: int)
    requires
        0 <= i,
        i + 2 <= j,
        j + 1 < s.len(),
        s[i] == ':' && s[i + 1] == ':' && s[j] == ':' && s[j + 1] == ':',
    ensures
        ipv6_value(s) is None,
{
    assert(gap_at(s, i));
    lemma_first_gap(s, i);
    let p = find_gap(s) as int;
    let rest = s.skip(p + 2);
    let k = j - p - 2;
    assert(rest[k] == s[j] && rest[k + 1] == s[j + 1]);
    lemma_gap_is_an_empty_field(rest, k);
    let f = text::fields(rest, ':');
    let m = choose|m: int| 0 <= m < f.len() && (#[trigger] f[m]).len() == 0;
    assert(!f[m].contains('.'));
    lemma_bad_group(f, true, m);
}

/// An IPv4 address at the end stands for two groups behind two colons as well.
pub proof fn law_ipv4_tail_with_gap(
    h: Seq<Seq<char>>,
    t: Seq<Seq<char>>,
    v: u32,
    x: Seq<char>,
    y: Seq<char>,
)
    requires
        all_groups(h),
        all_groups(t),
        all_groups(seq![x, y]),
        h.len() + t.len() <= 5,
        hex_value(x) == Some((v / 0x1_0000) as nat),
        hex_value(y) == Some((v % 0x1_0000) as nat),
    ensures
        ipv6_value(text::joined(h, ":"@) + "::"@ + text::joined(t.push(ipv4_text(v)), ":"@))
            is Some,
        ipv6_value(text::joined(h, ":"@) + "::"@ + text::joined(t.push(ipv4_text(v)), ":"@))
            == ipv6_value(text::joined(h, ":"@) + "::"@ + text::joined(t + seq![x, y], ":"@)),
{
    reveal_strlit(":");
    reveal_strlit("::");
    let colon = seq![':'];
    assert(":"@ =~= colon);
    let parts = t.push(ipv4_text(v));
    let all = t + seq![x, y];
    lemma_group_list(t, true);
    lemma_ipv4_text_chars(v);
    assert forall|i: int| 0 <= i < parts.len() implies (#[trigger] parts[i]).len() > 0
        && !parts[i].contains(':') by {
        if i < t.len() {
            assert(parts[i] == t[i]);
            assert(1 <= t[i].len());
        }
    }
    assert forall|i: int| 0 <= i < all.len() implies 1 <= (#[trigger] all[i]).len() <= 4 && (forall|
        j: int,
    |
        0 <= j < all[i].len() ==> text::hex_digit(#[trigger] all[i][j]) is Some) by {
        if i < t.len() {
            assert(all[i] == t[i]);
        } else {
            assert(all[i] == seq![x, y][i - t.len()]);
        }
    }
    lemma_joined_parts(parts);
    lemma_joined_groups(all);
    lemma_group_list_tail(t, v);
    lemma_group_list(all, true);
    lemma_group_list(h, false);
    let w = group_list(all, true)->0;
    let z = group_list(parts, true)->0;
    assert forall|i: int| 0 <= i < w.len() implies #[trigger] w[i] == z[i] by {
        assert(w[i] == hex_value(all[i])->0);
        if i < t.len() {
            assert(all[i] == t[i]);
        } else {
            assert(all[i] == seq![x, y][i - t.len()]);
        }
    }
    assert(w =~= z);
    lemma_value_with_gap(h, text::joined(parts, colon));
    lemma_value_with_gap(h, text::joined(all, colon));
}

proof fn lemma_value_with_gap(h: Seq<Seq<char>>, ts: Seq<char>)
    requires
        all_groups(h),
        part_groups(ts, true) is Some,
    ensures
        group_list(h, false) is Some,
        group_list(h, false)->0.len() + part_groups(ts, true)->0.len() <= 7 ==> ipv6_value(
            text::joined(h, seq![':']) + "::"@ + ts,
        ) == Some(
            groups_value(with_zeros(group_list(h, false)->0, part_groups(ts, true)->0)) as u128,
        ),
{
    reveal_strlit("::");
    let hs = text::joined(h, seq![':']);
    let s = hs + "::"@ + ts;
    let p = hs.len() as int;
    if h.len() > 0 {
        lemma_joined_groups(h);
    }
    lemma_group_list(h, false);
    assert(s[p] == ':' && s[p + 1] == ':');
    assert forall|j: int| 0 <= j < p implies !#[trigger] gap_at(s, j) by {
        if j + 1 < p {
            assert(!gap_at(hs, j));
            assert(s[j] == hs[j] && s[j + 1] == hs[j + 1]);
        } else {
            assert(s[j] == hs.last());
        }
    }
    lemma_find_gap(s, p);
    assert(s.take(p) =~= hs);
    assert(s.skip(p + 2) =~= ts);
    let hv = group_list(h, false)->0;
    assert(part_groups(hs, false) == Some(hv)) by {
        if h.len() == 0 {
            assert(hv =~= Seq::empty());
        }
    }
}

} // verus!
