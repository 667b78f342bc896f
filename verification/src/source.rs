//! The source of probes: the interface or address that they are bound to.

use crate::ip::{self, IpAddr};
use crate::order::{self, stable_sort, Ranked};
use crate::text;
use vstd::prelude::*;

verus! {

/// An interface that probes can be bound to.
#[derive(Debug)]
pub struct IfaceSource {
    pub name: String,
    pub index: u32,
    pub addrs: Vec<IpAddr>,
}

/// What an interface source is.
pub struct IfaceSourceView {
    pub name: Seq<char>,
    pub index: u32,
    pub addrs: Seq<IpAddr>,
}

impl DeepView for IfaceSource {
    type V = IfaceSourceView;

    open spec fn deep_view(&self) -> IfaceSourceView {
        IfaceSourceView { name: self.name@, index: self.index, addrs: self.addrs@ }
    }
}

impl IfaceSource {
    /// A copy of the interface source.
    pub fn copy(&self) -> (r: IfaceSource)
        ensures
            r.deep_view() == self.deep_view(),
    {
        let mut addrs: Vec<IpAddr> = Vec::new();
        let mut i: usize = 0;
        while i < self.addrs.len()
            invariant
                i <= self.addrs@.len(),
                addrs@ == self.addrs@.take(i as int),
            decreases self.addrs@.len() - i,
        {
            addrs.push(self.addrs[i]);
            i += 1;
            assert(addrs@ =~= self.addrs@.take(i as int));
        }
        assert(addrs@ =~= self.addrs@);
        IfaceSource { name: self.name.clone(), index: self.index, addrs }
    }
}

/// The source of probes. Without an address and an interface, the system
/// routing decides.
#[derive(Debug)]
pub struct SourceConfig {
    pub ip: Option<IpAddr>,
    pub iface: Option<IfaceSource>,
}

/// What a source is.
pub struct SourceView {
    pub ip: Option<IpAddr>,
    pub iface: Option<IfaceSourceView>,
}

impl DeepView for SourceConfig {
    type V = SourceView;

    open spec fn deep_view(&self) -> SourceView {
        SourceView { ip: self.ip, iface: self.iface.deep_view() }
    }
}

/// The source that leaves everything to the system routing.
pub open spec fn default_source() -> SourceView {
    SourceView { ip: None, iface: None }
}

impl Default for SourceConfig {
    fn default() -> (r: SourceConfig)
        ensures
            r.deep_view() == default_source(),
    {
        SourceConfig { ip: None, iface: None }
    }
}

/// Whether two addresses are of one IP version.
pub open spec fn same_family(a: IpAddr, b: IpAddr) -> bool {
    (a is V4) == (b is V4)
}

/// The first address of the IP version of `dest`.
pub open spec fn first_of_family(addrs: Seq<IpAddr>, dest: IpAddr) -> Option<IpAddr>
    decreases addrs.len(),
{
    if addrs.len() == 0 {
        None
    } else if same_family(addrs[0], dest) {
        Some(addrs[0])
    } else {
        first_of_family(addrs.skip(1), dest)
    }
}

fn find_of_family(addrs: &Vec<IpAddr>, dest: IpAddr) -> (r: Option<IpAddr>)
    ensures
        r == first_of_family(addrs@, dest),
{
    let mut i: usize = 0;
    assert(addrs@.skip(0) =~= addrs@);
    while i < addrs.len()
        invariant
            i <= addrs@.len(),
            first_of_family(addrs@, dest) == first_of_family(addrs@.skip(i as int), dest),
        decreases addrs@.len() - i,
    {
        if addrs[i].is_ipv4() == dest.is_ipv4() {
            return Some(addrs[i]);
        }
        assert(addrs@.skip(i as int).skip(1) =~= addrs@.skip(i + 1));
        i += 1;
    }
    None
}

/// The IP version of an address, in words.
pub open spec fn family_name(ip: IpAddr) -> Seq<char> {
    match ip {
        IpAddr::V4(_) => "IPv4"@,
        IpAddr::V6(_) => "IPv6"@,
    }
}

/// The local address to bind probes to `dest` to: none with the system
/// routing, the custom address, or the address of the interface that has the IP
/// version of `dest`; or why there is no such address.
pub open spec fn binding(source: SourceView, dest: IpAddr) -> Result<Option<IpAddr>, Seq<char>> {
    match (source.ip, source.iface) {
        (Some(ip), _) => if same_family(ip, dest) {
            Ok(Some(ip))
        } else {
            Err(
                "the source IP is not an "@ + family_name(dest)
                    + " address, as the destination is"@,
            )
        },
        (None, Some(iface)) => match first_of_family(iface.addrs, dest) {
            Some(ip) => Ok(Some(ip)),
            None => Err(
                "interface "@ + iface.name + " has no "@ + family_name(dest) + " address"@,
            ),
        },
        (None, None) => Ok(None),
    }
}

impl SourceConfig {
    /// The local address to bind probes to `dest` to.
    pub fn bind_ip_for(&self, dest: &IpAddr) -> (r: Result<Option<IpAddr>, String>)
        ensures
            match binding(self.deep_view(), *dest) {
                Ok(bind) => r == Ok::<Option<IpAddr>, String>(bind),
                Err(e) => r is Err && r->Err_0@ == e,
            },
    {
        let family = if dest.is_ipv4() {
            "IPv4"
        } else {
            "IPv6"
        };
        match (&self.ip, &self.iface) {
            (Some(ip), _) => if ip.is_ipv4() == dest.is_ipv4() {
                Ok(Some(*ip))
            } else {
                let mut s = "the source IP is not an ".to_owned();
                s.append(family);
                s.append(" address, as the destination is");
                Err(s)
            },
            (None, Some(iface)) => match find_of_family(&iface.addrs, *dest) {
                Some(ip) => Ok(Some(ip)),
                None => {
                    let mut s = "interface ".to_owned();
                    s.append(iface.name.as_str());
                    s.append(" has no ");
                    s.append(family);
                    s.append(" address");
                    Err(s)
                },
            },
            (None, None) => Ok(None),
        }
    }
}

// ------------------------------------------------------------------ Selector

/// What is selected as the source.
#[derive(Clone, Copy, Debug, PartialEq, Eq, Structural)]
pub enum SourceSel {
    Default,
    Iface(usize),
    CustomIp,
}

/// "Advanced > Source" selector state (one per feature tab).
#[derive(Debug)]
pub struct SourceUi {
    pub sel: SourceSel,
    pub custom_ip: String,
}

impl Default for SourceUi {
    fn default() -> (r: SourceUi)
        ensures
            r.sel == SourceSel::Default,
            r.custom_ip@.len() == 0,
    {
        SourceUi { sel: SourceSel::Default, custom_ip: String::new() }
    }
}

/// An interface that can be selected as the source.
#[derive(Debug)]
pub struct IfaceChoice {
    pub label: String,
    pub source: IfaceSource,
}

/// What a choice is.
pub struct ChoiceView {
    pub label: Seq<char>,
    pub source: IfaceSourceView,
}

impl DeepView for IfaceChoice {
    type V = ChoiceView;

    open spec fn deep_view(&self) -> ChoiceView {
        ChoiceView { label: self.label@, source: self.source.deep_view() }
    }
}

/// The error for a custom address that is none; `quoted` is the text that was
/// entered, in quotes.
pub fn invalid_source(quoted: &str) -> (r: String)
    ensures
        r@ == "invalid source IP: "@ + quoted@,
{
    let mut s = "invalid source IP: ".to_owned();
    s.append(quoted);
    s
}

/// Converts the selector state into the source of probes.
pub fn source_config(src: &SourceUi, ifaces: &Vec<IfaceChoice>) -> (r: Result<SourceConfig, String>)
    ensures
        match src.sel {
            SourceSel::Default => r is Ok && r->Ok_0.deep_view() == default_source(),
            SourceSel::Iface(i) => if i < ifaces@.len() {
                r is Ok && r->Ok_0.deep_view() == (SourceView {
                    ip: None,
                    iface: Some(ifaces@[i as int].source.deep_view()),
                })
            } else {
                r is Err && r->Err_0@
                    == "the interface list changed — reselect the source interface"@
            },
            SourceSel::CustomIp => match ip::ip_value(text::trimmed(src.custom_ip@)) {
                Some(ip) => r is Ok && r->Ok_0.deep_view() == (SourceView {
                    ip: Some(ip),
                    iface: None,
                }),
                None => r is Err && r->Err_0@ == "invalid source IP: "@ + text::quoted(
                    text::trimmed(src.custom_ip@),
                ),
            },
        },
{
    match src.sel {
        SourceSel::Default => Ok(SourceConfig::default()),
        SourceSel::Iface(i) => if i < ifaces.len() {
            Ok(SourceConfig { ip: None, iface: Some(ifaces[i].source.copy()) })
        } else {
            Err("the interface list changed — reselect the source interface".to_owned())
        },
        SourceSel::CustomIp => {
            let trimmed = text::trim(src.custom_ip.as_str());
            match ip::parse_ip(trimmed.as_str()) {
                Some(ip) => Ok(SourceConfig { ip: Some(ip), iface: None }),
                None => Err(invalid_source(text::quote(trimmed.as_str()).as_str())),
            }
        },
    }
}

/// The text of the selection.
pub fn selected_text(src: &SourceUi, ifaces: &Vec<IfaceChoice>) -> (r: String)
    ensures
        r@ == (match src.sel {
            SourceSel::Default => "Default (system routing)"@,
            SourceSel::Iface(i) => if i < ifaces@.len() {
                ifaces@[i as int].label@
            } else {
                "?"@
            },
            SourceSel::CustomIp => "Custom IP…"@,
        }),
{
    match src.sel {
        SourceSel::Default => "Default (system routing)".to_owned(),
        SourceSel::Iface(i) => if i < ifaces.len() {
            ifaces[i].label.clone()
        } else {
            "?".to_owned()
        },
        SourceSel::CustomIp => "Custom IP…".to_owned(),
    }
}

/// Goes back to the system routing where the selected interface is no longer
/// in a list of `count` interfaces.
pub fn forget_missing(src: &mut SourceUi, count: usize)
    ensures
        final(src).custom_ip == old(src).custom_ip,
        final(src).sel == (match old(src).sel {
            SourceSel::Iface(i) => if i >= count {
                SourceSel::Default
            } else {
                old(src).sel
            },
            _ => old(src).sel,
        }),
{
    if let SourceSel::Iface(i) = src.sel {
        if i >= count {
            src.sel = SourceSel::Default;
        }
    }
}

/// An interface as the system describes it. IPv6 addresses come with their
/// text.
#[derive(Debug)]
pub struct HostInterface {
    pub name: String,
    pub index: u32,
    pub ipv4: Vec<u32>,
    pub ipv6: Vec<(u128, String)>,
}

/// The addresses of an interface: IPv4 first.
pub open spec fn addresses_of(itf: HostInterface) -> Seq<IpAddr> {
    Seq::new(itf.ipv4@.len(), |i: int| IpAddr::V4(itf.ipv4@[i])) + Seq::new(
        itf.ipv6@.len(),
        |i: int| IpAddr::V6(itf.ipv6@[i].0),
    )
}

/// The label of an interface: its name and its first IPv4 address, or else its
/// first address.
pub open spec fn choice_label(itf: HostInterface) -> Seq<char> {
    itf.name@ + " ("@ + (if itf.ipv4@.len() > 0 {
        ip::ipv4_text(itf.ipv4@[0])
    } else {
        itf.ipv6@[0].1@
    }) + ")"@
}

/// The choice for an interface; one without an address cannot be chosen.
pub open spec fn choice_of(itf: HostInterface) -> Option<ChoiceView> {
    if itf.ipv4@.len() == 0 && itf.ipv6@.len() == 0 {
        None
    } else {
        Some(
            ChoiceView {
                label: choice_label(itf),
                source: IfaceSourceView {
                    name: itf.name@,
                    index: itf.index,
                    addrs: addresses_of(itf),
                },
            },
        )
    }
}

/// The choices for the interfaces, in order.
pub open spec fn choices_of(interfaces: Seq<HostInterface>) -> Seq<ChoiceView>
    decreases interfaces.len(),
{
    if interfaces.len() == 0 {
        seq![]
    } else {
        match choice_of(interfaces.last()) {
            Some(c) => choices_of(interfaces.drop_last()).push(c),
            None => choices_of(interfaces.drop_last()),
        }
    }
}

/// The order of the choices: by label.
pub open spec fn by_label() -> spec_fn(ChoiceView, ChoiceView) -> bool {
    |a: ChoiceView, b: ChoiceView| order::text_at_most(a.label, b.label)
}

impl Ranked for IfaceChoice {
    open spec fn at_most(self, other: Self) -> bool {
        order::text_at_most(self.label@, other.label@)
    }

    proof fn total(a: Self, b: Self) {
        order::lemma_text_total(a.label@, b.label@);
    }

    proof fn transitive(a: Self, b: Self, c: Self) {
        order::lemma_text_transitive(a.label@, b.label@, c.label@);
    }

    fn is_at_most(&self, other: &Self) -> (r: bool) {
        order::is_text_at_most(self.label.as_str(), other.label.as_str())
    }
}

fn choose_interface(itf: &HostInterface) -> (r: Option<IfaceChoice>)
    ensures
        r.deep_view() == choice_of(*itf),
{
    if itf.ipv4.len() == 0 && itf.ipv6.len() == 0 {
        return None;
    }
    let mut addrs: Vec<IpAddr> = Vec::new();
    let ghost all = addresses_of(*itf);
    let mut i: usize = 0;
    while i < itf.ipv4.len()
        invariant
            i <= itf.ipv4@.len(),
            all == addresses_of(*itf),
            addrs@ == all.take(i as int),
        decreases itf.ipv4@.len() - i,
    {
        addrs.push(IpAddr::V4(itf.ipv4[i]));
        i += 1;
        assert(addrs@ =~= all.take(i as int));
    }
    let mut k: usize = 0;
    while k < itf.ipv6.len()
        invariant
            k <= itf.ipv6@.len(),
            all == addresses_of(*itf),
            addrs@ == all.take(itf.ipv4@.len() + k),
        decreases itf.ipv6@.len() - k,
    {
        addrs.push(IpAddr::V6(itf.ipv6[k].0));
        k += 1;
        assert(addrs@ =~= all.take(itf.ipv4@.len() + k));
    }
    assert(addrs@ =~= all);
    let mut label = itf.name.clone();
    label.append(" (");
    if itf.ipv4.len() > 0 {
        label.append(ip::format_ipv4(itf.ipv4[0]).as_str());
    } else {
        label.append(itf.ipv6[0].1.as_str());
    }
    label.append(")");
    Some(
        IfaceChoice {
            label,
            source: IfaceSource { name: itf.name.clone(), index: itf.index, addrs },
        },
    )
}

/// The interfaces that probes can be bound to, sorted by label.
pub fn gather_ifaces(interfaces: &Vec<HostInterface>) -> (r: Vec<IfaceChoice>)
    ensures
        order::stable_sorted(choices_of(interfaces@), r.deep_view(), by_label()),
{
    let mut out: Vec<IfaceChoice> = Vec::new();
    let mut i: usize = 0;
    assert(interfaces@.take(0) =~= seq![]);
    assert(out.deep_view() =~= seq![]);
    while i < interfaces.len()
        invariant
            i <= interfaces@.len(),
            out.deep_view() == choices_of(interfaces@.take(i as int)),
        decreases interfaces@.len() - i,
    {
        assert(interfaces@.take(i + 1).drop_last() =~= interfaces@.take(i as int));
        if let Some(choice) = choose_interface(&interfaces[i]) {
            let ghost before = out;
            out.push(choice);
            proof {
                text::lemma_pushed_view(before, out, choice);
            }
        }
        i += 1;
    }
    assert(interfaces@.take(i as int) =~= interfaces@);
    let ghost before = out;
    let sorted = stable_sort(out);
    proof {
        let f = |c: IfaceChoice| c.deep_view();
        order::lemma_stable_sorted_map(
            before@,
            sorted@,
            order::rank::<IfaceChoice>(),
            f,
            by_label(),
        );
        assert(before.deep_view() =~= Seq::new(before@.len(), |i: int| f(before@[i])));
        assert(sorted.deep_view() =~= Seq::new(sorted@.len(), |i: int| f(sorted@[i])));
    }
    sorted
}

/// Probes to a destination are bound only to an address of its IP version.
pub proof fn law_bind_family(addrs: Seq<IpAddr>, dest: IpAddr)
    ensures
        match first_of_family(addrs, dest) {
            Some(ip) => same_family(ip, dest) && addrs.contains(ip),
            None => forall|i: int| 0 <= i < addrs.len() ==> !same_family(#[trigger] addrs[i], dest),
        },
    decreases addrs.len(),
{
    if addrs.len() > 0 && !same_family(addrs[0], dest) {
        law_bind_family(addrs.skip(1), dest);
        match first_of_family(addrs.skip(1), dest) {
            Some(ip) => {
                let k = choose|k: int| 0 <= k < addrs.skip(1).len() && addrs.skip(1)[k] == ip;
                assert(addrs[k + 1] == ip);
            },
            None => {
                assert forall|i: int| 0 <= i < addrs.len() implies !same_family(
                    #[trigger] addrs[i],
                    dest,
                ) by {
                    if i > 0 {
                        assert(addrs.skip(1)[i - 1] == addrs[i]);
                    }
                }
            },
        }
    } else if addrs.len() > 0 {
        assert(addrs[0] == first_of_family(addrs, dest)->0);
    }
}

/// Two addresses are of one family where both are IPv4 or both are IPv6.
pub proof fn law_families(a: u32, b: u32, c: u128, d: u128)
    ensures
        same_family(IpAddr::V4(a), IpAddr::V4(b)),
        same_family(IpAddr::V6(c), IpAddr::V6(d)),
        !same_family(IpAddr::V4(a), IpAddr::V6(c)),
        !same_family(IpAddr::V6(c), IpAddr::V4(a)),
        family_name(IpAddr::V4(a)) == "IPv4"@,
        family_name(IpAddr::V6(c)) == "IPv6"@,
{
}

proof fn lemma_first_of_family(addrs: Seq<IpAddr>, dest: IpAddr, k: int)
    requires
        0 <= k < addrs.len(),
        same_family(addrs[k], dest),
        forall|j: int| 0 <= j < k ==> !same_family(#[trigger] addrs[j], dest),
    ensures
        first_of_family(addrs, dest) == Some(addrs[k]),
    decreases addrs.len(),
{
    if k > 0 {
        let rest = addrs.skip(1);
        assert(!same_family(addrs[0], dest));
        assert forall|j: int| 0 <= j < k - 1 implies !same_family(#[trigger] rest[j], dest) by {
            assert(rest[j] == addrs[j + 1]);
        }
        lemma_first_of_family(rest, dest, k - 1);
    }
}

/// Traffic leaves from the source address that was asked for, or else from the
/// first address of the interface that was asked for, always of the family of
/// the destination; where nothing was asked for, from any.
pub proof fn law_binding(source: SourceView, dest: IpAddr, k: int)
    ensures
        source.ip is None && source.iface is None ==> binding(source, dest) == Ok::<
            Option<IpAddr>,
            Seq<char>,
        >(None),
        source.ip matches Some(ip) ==> (same_family(ip, dest) ==> binding(source, dest) == Ok::<
            Option<IpAddr>,
            Seq<char>,
        >(Some(ip))),
        source.ip matches Some(ip) ==> (!same_family(ip, dest) ==> binding(source, dest) is Err),
        source.ip is None ==> (source.iface matches Some(iface) ==> {
            &&& 0 <= k < iface.addrs.len() && same_family(iface.addrs[k], dest) && (forall|j: int|
                0 <= j < k ==> !same_family(#[trigger] iface.addrs[j], dest)) ==> binding(
                source,
                dest,
            ) == Ok::<Option<IpAddr>, Seq<char>>(Some(iface.addrs[k]))
            &&& (forall|j: int|
                0 <= j < iface.addrs.len() ==> !same_family(#[trigger] iface.addrs[j], dest))
                ==> binding(source, dest) == Err::<Option<IpAddr>, Seq<char>>(
                "interface "@ + iface.name + " has no "@ + family_name(dest) + " address"@,
            )
        }),
        binding(source, dest) matches Ok(Some(ip)) ==> same_family(ip, dest),
{
    if let Some(iface) = source.iface {
        law_bind_family(iface.addrs, dest);
        if 0 <= k < iface.addrs.len() && same_family(iface.addrs[k], dest) && (forall|j: int|
            0 <= j < k ==> !same_family(#[trigger] iface.addrs[j], dest)) {
            lemma_first_of_family(iface.addrs, dest, k);
        }
        if forall|j: int|
            0 <= j < iface.addrs.len() ==> !same_family(#[trigger] iface.addrs[j], dest) {
            if first_of_family(iface.addrs, dest) is Some {
                let ip = first_of_family(iface.addrs, dest)->0;
                let j = choose|j: int| 0 <= j < iface.addrs.len() && iface.addrs[j] == ip;
                assert(!same_family(iface.addrs[j], dest));
            }
        }
    }
}

/// The addresses of an interface are its IPv4 addresses and then its IPv6
/// addresses, each of them and in order.
pub proof fn law_interface_addresses(itf: HostInterface)
    ensures
        addresses_of(itf).len() == itf.ipv4@.len() + itf.ipv6@.len(),
        forall|i: int|
            0 <= i < itf.ipv4@.len() ==> #[trigger] addresses_of(itf)[i] == IpAddr::V4(
                itf.ipv4@[i],
            ),
        forall|i: int|
            0 <= i < itf.ipv6@.len() ==> #[trigger] addresses_of(itf)[itf.ipv4@.len() + i]
                == IpAddr::V6(itf.ipv6@[i].0),
{
}

/// An interface can be chosen where it has an address. The choice carries its
/// name, its index and all its addresses, and is labelled with the name and the
/// first address.
pub proof fn law_choice(itf: HostInterface)
    ensures
        choice_of(itf) is Some <==> itf.ipv4@.len() > 0 || itf.ipv6@.len() > 0,
        choice_of(itf) matches Some(c) ==> {
            &&& c.source.name == itf.name@
            &&& c.source.index == itf.index
            &&& c.source.addrs == addresses_of(itf)
            &&& itf.ipv4@.len() > 0 ==> c.label == itf.name@ + " ("@ + ip::ipv4_text(itf.ipv4@[0])
                + ")"@
            &&& itf.ipv4@.len() == 0 ==> c.label == itf.name@ + " ("@ + itf.ipv6@[0].1@ + ")"@
        },
{
}

/// Every interface with an address is among the choices, in order, and no other.
pub proof fn law_choices_are_complete(interfaces: Seq<HostInterface>, itf: HostInterface)
    ensures
        choices_of(seq![]).len() == 0,
        choice_of(itf) matches Some(c) ==> choices_of(interfaces.push(itf)) == choices_of(
            interfaces,
        ).push(c),
        choice_of(itf) is None ==> choices_of(interfaces.push(itf)) == choices_of(interfaces),
{
    assert(interfaces.push(itf).drop_last() =~= interfaces);
}

/// Without a choice there is no source address and no interface.
pub proof fn law_default_source()
    ensures
        default_source().ip is None,
        default_source().iface is None,
{
}

/// A source address of the other family is refused, and the message names the
/// family of the destination.
pub proof fn law_wrong_family_is_refused(source: SourceView, dest: IpAddr, ip: IpAddr)
    requires
        source.ip == Some(ip),
        !same_family(ip, dest),
    ensures
        binding(source, dest) == Err::<Option<IpAddr>, Seq<char>>(
            "the source IP is not an "@ + (if dest is V4 {
                "IPv4"@
            } else {
                "IPv6"@
            }) + " address, as the destination is"@,
        ),
{
}

/// Choices are in the order of their labels.
pub proof fn law_choices_by_label(a: ChoiceView, b: ChoiceView)
    ensures
        by_label()(a, b) <==> order::text_at_most(a.label, b.label),
{
}

} // verus!
