//! The ARP/neighbor table: parsing the output of the system tools, and the
//! inventory made of it.

use crate::ip;
use crate::mac::{self, normalize_mac, oui_of};
use crate::netconfig::token_after;
use crate::order::{self, stable_sort, Ranked};
use crate::text::{self, CharClass};
use crate::util::{self, Captured, CommandLine, ExportFile, Os};
use crate::vendors::VendorTable;
use vstd::prelude::*;

verus! {

/// One line of the table.
#[derive(Debug)]
pub struct ArpEntry {
    pub ip: String,
    pub mac: String,
    pub iface: String,
    pub state: String,
}

/// The texts of an entry.
pub struct ArpRow {
    pub ip: Seq<char>,
    pub mac: Seq<char>,
    pub iface: Seq<char>,
    pub state: Seq<char>,
}

impl DeepView for ArpEntry {
    type V = ArpRow;

    open spec fn deep_view(&self) -> ArpRow {
        ArpRow { ip: self.ip@, mac: self.mac@, iface: self.iface@, state: self.state@ }
    }
}

/// What the background work on the table reports.
#[derive(Debug)]
pub enum ArpEvent {
    Vendor { oui: String, vendor: String },
    Error(String),
    Done,
    ScanProgress { done: usize, total: usize, alive: usize },
    ScanDone { alive: usize },
}

/// What an event says.
pub enum ArpNotice {
    Vendor { oui: Seq<char>, vendor: Seq<char> },
    Error(Seq<char>),
    Done,
    ScanProgress { done: nat, total: nat, alive: nat },
    ScanDone { alive: nat },
}

impl DeepView for ArpEvent {
    type V = ArpNotice;

    open spec fn deep_view(&self) -> ArpNotice {
        match self {
            ArpEvent::Vendor { oui, vendor } => ArpNotice::Vendor { oui: oui@, vendor: vendor@ },
            ArpEvent::Error(message) => ArpNotice::Error(message@),
            ArpEvent::Done => ArpNotice::Done,
            ArpEvent::ScanProgress { done, total, alive } => ArpNotice::ScanProgress {
                done: *done as nat,
                total: *total as nat,
                alive: *alive as nat,
            },
            ArpEvent::ScanDone { alive } => ArpNotice::ScanDone { alive: *alive as nat },
        }
    }
}

/// The text of an optional token, or `default`.
pub open spec fn token_or(token: Option<Seq<char>>, default: Seq<char>) -> Seq<char> {
    match token {
        Some(t) => t,
        None => default,
    }
}

// -------------------------------------------------------------- BSD `arp -an`

/// Whether a token is put in parentheses.
pub open spec fn in_parens(t: Seq<char>) -> bool {
    t.len() > 0 && t[0] == '(' && t.last() == ')'
}

/// The position of the first token in parentheses, or the number of tokens.
pub open spec fn parens_position(tokens: Seq<Seq<char>>) -> nat
    decreases tokens.len(),
{
    if tokens.len() == 0 || in_parens(tokens[0]) {
        0
    } else {
        1 + parens_position(tokens.skip(1))
    }
}

/// The entry of a line like
/// `? (192.168.1.1) at a4:2b:b0:11:22:33 on en0 ifscope [ethernet]`: a line
/// without an address in parentheses has none.
pub open spec fn bsd_row(line: Seq<char>) -> Option<ArpRow> {
    let tokens = text::words(line);
    let p = parens_position(tokens) as int;
    if p >= tokens.len() {
        None
    } else {
        let address = mac::normal_mac(
            token_or(text::token_following(tokens, "at"@), "(incomplete)"@),
        );
        Some(
            ArpRow {
                ip: text::strip(tokens[p], CharClass::Parens),
                mac: token_or(address, "(incomplete)"@),
                iface: token_or(text::token_following(tokens, "on"@), "?"@),
                state: if address is Some {
                    "reachable"@
                } else {
                    "incomplete"@
                },
            },
        )
    }
}

/// The entries of the lines, in order.
pub open spec fn bsd_rows(lines: Seq<Seq<char>>) -> Seq<ArpRow>
    decreases lines.len(),
{
    if lines.len() == 0 {
        seq![]
    } else {
        match bsd_row(lines.last()) {
            Some(row) => bsd_rows(lines.drop_last()).push(row),
            None => bsd_rows(lines.drop_last()),
        }
    }
}

fn check_in_parens(t: &str) -> (r: bool)
    ensures
        r == in_parens(t@),
{
    let cs = text::chars_of(t);
    cs.len() > 0 && cs[0] == '(' && cs[cs.len() - 1] == ')'
}

proof fn lemma_parens_position(tokens: Seq<Seq<char>>, i: int)
    requires
        0 <= i <= tokens.len(),
        i < tokens.len() ==> in_parens(tokens[i]),
        forall|j: int| 0 <= j < i ==> !in_parens(#[trigger] tokens[j]),
    ensures
        parens_position(tokens) == i,
    decreases tokens.len(),
{
    if tokens.len() > 0 && i > 0 {
        let r = tokens.skip(1);
        assert(!in_parens(tokens[0]));
        assert forall|j: int| 0 <= j < i - 1 implies !in_parens(#[trigger] r[j]) by {
            assert(!in_parens(tokens[j + 1]));
        }
        lemma_parens_position(r, i - 1);
    }
}

fn parse_bsd_line(line: &str) -> (r: Option<ArpEntry>)
    ensures
        r.deep_view() == bsd_row(line@),
{
    let tokens = text::split_words(line);
    let ghost tv = text::words(line@);
    let mut i: usize = 0;
    while i < tokens.len() && !check_in_parens(tokens[i].as_str())
        invariant
            tv == tokens.deep_view(),
            i <= tokens@.len(),
            forall|j: int| 0 <= j < i ==> !in_parens(#[trigger] tv[j]),
        decreases tokens@.len() - i,
    {
        i += 1;
    }
    proof {
        lemma_parens_position(tv, i as int);
    }
    if i == tokens.len() {
        return None;
    }
    let ip = text::remove_around(tokens[i].as_str(), &CharClass::Parens);
    let raw_mac = match token_after(&tokens, "at") {
        Some(t) => t,
        None => "(incomplete)".to_owned(),
    };
    let iface = match token_after(&tokens, "on") {
        Some(t) => t,
        None => "?".to_owned(),
    };
    match normalize_mac(raw_mac.as_str()) {
        Some(mac) => Some(ArpEntry { ip, mac, iface, state: "reachable".to_owned() }),
        None => Some(
            ArpEntry {
                ip,
                mac: "(incomplete)".to_owned(),
                iface,
                state: "incomplete".to_owned(),
            },
        ),
    }
}

/// Parses the output of `arp -an` (macOS and BSD).
pub fn parse_bsd_arp(raw: &str) -> (r: Vec<ArpEntry>)
    ensures
        r.deep_view() == bsd_rows(text::lines_of(raw@)),
{
    let lines = text::split_lines(raw);
    let ghost lv = text::lines_of(raw@);
    let mut entries: Vec<ArpEntry> = Vec::new();
    let mut i: usize = 0;
    assert(lv.take(0) =~= seq![]);
    assert(entries.deep_view() =~= seq![]);
    while i < lines.len()
        invariant
            lv == lines.deep_view(),
            i <= lines@.len(),
            entries.deep_view() == bsd_rows(lv.take(i as int)),
        decreases lines@.len() - i,
    {
        assert(lv.take(i + 1).drop_last() =~= lv.take(i as int));
        assert(lv.take(i + 1).last() == lines@[i as int]@);
        if let Some(entry) = parse_bsd_line(lines[i].as_str()) {
            let ghost before = entries;
            entries.push(entry);
            proof {
                text::lemma_pushed_view(before, entries, entry);
            }
        }
        i += 1;
    }
    assert(lv.take(i as int) =~= lv);
    entries
}

// --------------------------------------------------------- Linux `ip neigh`

/// Whether `s` consists of ASCII capitals.
pub open spec fn all_capitals(s: Seq<char>) -> bool {
    forall|i: int| 0 <= i < s.len() ==> 'A' <= #[trigger] s[i] <= 'Z'
}

/// The entry of a line like
/// `192.168.1.1 dev eth0 lladdr a4:2b:b0:11:22:33 REACHABLE`: a line that
/// does not begin with an address has none.
pub open spec fn neigh_row(line: Seq<char>) -> Option<ArpRow> {
    let tokens = text::words(line);
    if tokens.len() == 0 || ip::ip_value(tokens[0]) is None {
        None
    } else {
        let address = match text::token_following(tokens, "lladdr"@) {
            Some(t) => mac::normal_mac(t),
            None => None,
        };
        Some(
            ArpRow {
                ip: tokens[0],
                mac: token_or(address, "(incomplete)"@),
                iface: token_or(text::token_following(tokens, "dev"@), "?"@),
                state: if all_capitals(tokens.last()) {
                    text::lowered(tokens.last())
                } else {
                    "?"@
                },
            },
        )
    }
}

/// The entries of the lines, in order.
pub open spec fn neigh_rows(lines: Seq<Seq<char>>) -> Seq<ArpRow>
    decreases lines.len(),
{
    if lines.len() == 0 {
        seq![]
    } else {
        match neigh_row(lines.last()) {
            Some(row) => neigh_rows(lines.drop_last()).push(row),
            None => neigh_rows(lines.drop_last()),
        }
    }
}

fn check_all_capitals(s: &str) -> (r: bool)
    ensures
        r == all_capitals(s@),
{
    let cs = text::chars_of(s);
    let mut i: usize = 0;
    while i < cs.len()
        invariant
            cs@ == s@,
            i <= cs@.len(),
            forall|j: int| 0 <= j < i ==> 'A' <= #[trigger] cs@[j] <= 'Z',
        decreases cs@.len() - i,
    {
        if !('A' <= cs[i] && cs[i] <= 'Z') {
            return false;
        }
        i += 1;
    }
    true
}

fn parse_neigh_line(line: &str) -> (r: Option<ArpEntry>)
    ensures
        r.deep_view() == neigh_row(line@),
{
    let tokens = text::split_words(line);
    let ghost tv = text::words(line@);
    if tokens.len() == 0 {
        return None;
    }
    assert(tv[0] == tokens@[0]@);
    assert(tv.last() == tokens@.last()@);
    if ip::parse_ip(tokens[0].as_str()).is_none() {
        return None;
    }
    let mac = match token_after(&tokens, "lladdr") {
        Some(t) => match normalize_mac(t.as_str()) {
            Some(m) => m,
            None => "(incomplete)".to_owned(),
        },
        None => "(incomplete)".to_owned(),
    };
    let iface = match token_after(&tokens, "dev") {
        Some(t) => t,
        None => "?".to_owned(),
    };
    let last = tokens[tokens.len() - 1].as_str();
    let state = if check_all_capitals(last) {
        text::to_lower(last)
    } else {
        "?".to_owned()
    };
    Some(ArpEntry { ip: tokens[0].clone(), mac, iface, state })
}

/// Parses the output of `ip neigh show` (Linux).
pub fn parse_ip_neigh(raw: &str) -> (r: Vec<ArpEntry>)
    ensures
        r.deep_view() == neigh_rows(text::lines_of(raw@)),
{
    let lines = text::split_lines(raw);
    let ghost lv = text::lines_of(raw@);
    let mut entries: Vec<ArpEntry> = Vec::new();
    let mut i: usize = 0;
    assert(lv.take(0) =~= seq![]);
    assert(entries.deep_view() =~= seq![]);
    while i < lines.len()
        invariant
            lv == lines.deep_view(),
            i <= lines@.len(),
            entries.deep_view() == neigh_rows(lv.take(i as int)),
        decreases lines@.len() - i,
    {
        assert(lv.take(i + 1).drop_last() =~= lv.take(i as int));
        assert(lv.take(i + 1).last() == lines@[i as int]@);
        if let Some(entry) = parse_neigh_line(lines[i].as_str()) {
            let ghost before = entries;
            entries.push(entry);
            proof {
                text::lemma_pushed_view(before, entries, entry);
            }
        }
        i += 1;
    }
    assert(lv.take(i as int) =~= lv);
    entries
}

// ----------------------------------------------------------- Windows `arp -a`

/// The first token that is an IPv4 address.
pub open spec fn first_ipv4(tokens: Seq<Seq<char>>) -> Option<Seq<char>>
    decreases tokens.len(),
{
    if tokens.len() == 0 {
        None
    } else if ip::ipv4_value(tokens[0]) is Some {
        Some(tokens[0])
    } else {
        first_ipv4(tokens.skip(1))
    }
}

/// Whether a line heads the section of an interface, like
/// `Interface: 192.168.1.10 --- 0x4`.
pub open spec fn heads_section(line: Seq<char>) -> bool {
    text::words(line).len() >= 2 && text::contains_text(line, "---"@)
}

/// The interface whose section the lines end in: the address in the last
/// heading that has one.
pub open spec fn current_section(lines: Seq<Seq<char>>) -> Seq<char>
    decreases lines.len(),
{
    if lines.len() == 0 {
        seq![]
    } else if heads_section(lines.last()) {
        token_or(first_ipv4(text::words(lines.last())), current_section(lines.drop_last()))
    } else {
        current_section(lines.drop_last())
    }
}

/// The entry of a line in the section of `iface`: address, MAC and type.
pub open spec fn windows_row(line: Seq<char>, iface: Seq<char>) -> Option<ArpRow> {
    let tokens = text::words(line);
    if !heads_section(line) && tokens.len() >= 3 && ip::ipv4_value(tokens[0]) is Some
        && mac::normal_mac(tokens[1]) is Some {
        Some(
            ArpRow {
                ip: tokens[0],
                mac: mac::normal_mac(tokens[1])->0,
                iface,
                state: tokens[2],
            },
        )
    } else {
        None
    }
}

/// The entries of the lines, in order.
pub open spec fn windows_rows(lines: Seq<Seq<char>>) -> Seq<ArpRow>
    decreases lines.len(),
{
    if lines.len() == 0 {
        seq![]
    } else {
        match windows_row(lines.last(), current_section(lines.drop_last())) {
            Some(row) => windows_rows(lines.drop_last()).push(row),
            None => windows_rows(lines.drop_last()),
        }
    }
}

fn find_ipv4(tokens: &Vec<String>) -> (r: Option<String>)
    ensures
        r.deep_view() == first_ipv4(tokens.deep_view()),
{
    let ghost tv = tokens.deep_view();
    let mut i: usize = 0;
    assert(tv.skip(0) =~= tv);
    while i < tokens.len()
        invariant
            tv == tokens.deep_view(),
            i <= tokens@.len(),
            first_ipv4(tv) == first_ipv4(tv.skip(i as int)),
        decreases tokens@.len() - i,
    {
        assert(tv.skip(i as int)[0] == tokens@[i as int]@);
        if ip::parse_ipv4(tokens[i].as_str()).is_some() {
            return Some(tokens[i].clone());
        }
        assert(tv.skip(i as int).skip(1) =~= tv.skip(i + 1));
        i += 1;
    }
    None
}

/// Parses the output of `arp -a` (Windows), in any language.
pub fn parse_windows_arp(raw: &str) -> (r: Vec<ArpEntry>)
    ensures
        r.deep_view() == windows_rows(text::lines_of(raw@)),
{
    let lines = text::split_lines(raw);
    let ghost lv = text::lines_of(raw@);
    let mut entries: Vec<ArpEntry> = Vec::new();
    let mut iface = String::new();
    let mut i: usize = 0;
    assert(lv.take(0) =~= seq![]);
    assert(iface@ =~= seq![]);
    assert(entries.deep_view() =~= seq![]);
    while i < lines.len()
        invariant
            lv == lines.deep_view(),
            i <= lines@.len(),
            iface@ == current_section(lv.take(i as int)),
            entries.deep_view() == windows_rows(lv.take(i as int)),
        decreases lines@.len() - i,
    {
        assert(lv.take(i + 1).drop_last() =~= lv.take(i as int));
        assert(lv.take(i + 1).last() == lines@[i as int]@);
        let line = lines[i].as_str();
        let tokens = text::split_words(line);
        let ghost tv = text::words(line@);
        if tokens.len() >= 2 && text::contains(line, "---") {
            if let Some(address) = find_ipv4(&tokens) {
                iface = address;
            }
        } else if tokens.len() >= 3 {
            assert(tv[0] == tokens@[0]@ && tv[1] == tokens@[1]@ && tv[2] == tokens@[2]@);
            if ip::parse_ipv4(tokens[0].as_str()).is_some() {
                if let Some(mac) = normalize_mac(tokens[1].as_str()) {
                    let ghost before = entries;
                    let entry = ArpEntry {
                        ip: tokens[0].clone(),
                        mac,
                        iface: iface.clone(),
                        state: tokens[2].clone(),
                    };
                    entries.push(entry);
                    proof {
                        text::lemma_pushed_view(before, entries, entry);
                    }
                }
            }
        }
        i += 1;
    }
    assert(lv.take(i as int) =~= lv);
    entries
}

// ----------------------------------------------------------------- Inventory

/// The outputs that the table is read from.
#[derive(Clone, Copy, Debug, PartialEq, Eq, Structural)]
pub enum TableFormat {
    /// `arp -an`
    Bsd,
    /// `ip neigh show`
    IpNeigh,
    /// `arp -a` of Windows
    Windows,
}

/// The command that prints the table in the given format.
pub open spec fn table_command_words(format: TableFormat) -> util::CommandWords {
    match format {
        TableFormat::Bsd => util::words_of("arp"@, seq!["-an"@]),
        TableFormat::IpNeigh => util::words_of("ip"@, seq!["neigh"@, "show"@]),
        TableFormat::Windows => util::words_of("arp"@, seq!["-a"@]),
    }
}

/// The command that prints the table in the given format.
pub fn table_command(format: TableFormat) -> (r: CommandLine)
    ensures
        r.deep_view() == table_command_words(format),
{
    let r = match format {
        TableFormat::Bsd => CommandLine {
            program: "arp".to_owned(),
            args: vec!["-an".to_owned()],
        },
        TableFormat::IpNeigh => CommandLine {
            program: "ip".to_owned(),
            args: vec!["neigh".to_owned(), "show".to_owned()],
        },
        TableFormat::Windows => CommandLine {
            program: "arp".to_owned(),
            args: vec!["-a".to_owned()],
        },
    };
    assert(r.deep_view().args =~= table_command_words(format).args);
    r
}

/// The format to ask for first.
pub fn table_format(os: Os) -> (r: TableFormat)
    ensures
        r == (match os {
            Os::MacOs => TableFormat::Bsd,
            Os::Windows => TableFormat::Windows,
            Os::Unix => TableFormat::IpNeigh,
        }),
{
    match os {
        Os::MacOs => TableFormat::Bsd,
        Os::Windows => TableFormat::Windows,
        Os::Unix => TableFormat::IpNeigh,
    }
}

/// The format to ask for when the output shows that the first command could
/// not be run: `arp -an` in place of `ip neigh show`.
pub fn fallback_format(format: TableFormat, raw: &str) -> (r: Option<TableFormat>)
    ensures
        r == (if format == TableFormat::IpNeigh && text::starts_with_text(raw@, "Cannot run"@) {
            Some(TableFormat::Bsd)
        } else {
            None
        }),
{
    if format == TableFormat::IpNeigh && text::starts_with(raw, "Cannot run") {
        Some(TableFormat::Bsd)
    } else {
        None
    }
}

/// The entries in the output of the command for a format.
pub open spec fn table_rows(format: TableFormat, raw: Seq<char>) -> Seq<ArpRow> {
    match format {
        TableFormat::Bsd => bsd_rows(text::lines_of(raw)),
        TableFormat::IpNeigh => neigh_rows(text::lines_of(raw)),
        TableFormat::Windows => windows_rows(text::lines_of(raw)),
    }
}

/// Whether an entry is a multicast or broadcast pseudo-entry.
pub open spec fn is_noise(row: ArpRow) -> bool {
    ||| ip::ip_value(row.ip) is Some && ip::multicast(ip::ip_value(row.ip)->0)
    ||| row.ip == "255.255.255.255"@
    ||| row.mac == "ff:ff:ff:ff:ff:ff"@
}

/// The entries that are devices.
pub open spec fn devices(rows: Seq<ArpRow>) -> Seq<ArpRow> {
    rows.filter(|row: ArpRow| !is_noise(row))
}

/// The order of the inventory: by IP address.
pub open spec fn by_address() -> spec_fn(ArpRow, ArpRow) -> bool {
    |a: ArpRow, b: ArpRow| ip::ip_at_most(ip::ip_value(a.ip), ip::ip_value(b.ip))
}

impl Ranked for ArpEntry {
    open spec fn at_most(self, other: Self) -> bool {
        ip::ip_at_most(ip::ip_value(self.ip@), ip::ip_value(other.ip@))
    }

    proof fn total(a: Self, b: Self) {
    }

    proof fn transitive(a: Self, b: Self, c: Self) {
    }

    fn is_at_most(&self, other: &Self) -> (r: bool) {
        ip::is_at_most(ip::parse_ip(self.ip.as_str()), ip::parse_ip(other.ip.as_str()))
    }
}

fn check_noise(entry: &ArpEntry) -> (r: bool)
    ensures
        r == is_noise(entry.deep_view()),
{
    let multicast = match ip::parse_ip(entry.ip.as_str()) {
        Some(address) => address.is_multicast(),
        None => false,
    };
    multicast || text::same(entry.ip.as_str(), "255.255.255.255") || text::same(
        entry.mac.as_str(),
        "ff:ff:ff:ff:ff:ff",
    )
}

fn retain_devices(entries: &mut Vec<ArpEntry>)
    ensures
        final(entries).deep_view() == devices(old(entries).deep_view()),
{
    let ghost rows = entries.deep_view();
    let ghost keep = |row: ArpRow| !is_noise(row);
    let ghost mut k: int = 0;
    let mut i: usize = 0;
    proof {
        reveal(Seq::filter);
        assert(rows.take(0).filter(keep) =~= seq![]);
        assert(entries.deep_view() =~= rows.take(0).filter(keep) + rows.skip(0));
    }
    while i < entries.len()
        invariant
            0 <= k <= rows.len(),
            i <= entries@.len(),
            entries@.len() - i == rows.len() - k,
            keep == (|row: ArpRow| !is_noise(row)),
            rows.take(k).filter(keep).len() == i,
            entries.deep_view() == rows.take(k).filter(keep) + rows.skip(k),
        decreases entries@.len() - i,
    {
        let ghost before = entries.deep_view();
        proof {
            reveal(Seq::filter);
            assert(rows.take(k + 1).drop_last() =~= rows.take(k));
            assert(rows.take(k + 1).last() == rows[k]);
            assert(before[i as int] == rows.skip(k)[0]);
        }
        if check_noise(&entries[i]) {
            entries.remove(i);
            assert(entries.deep_view() =~= before.remove(i as int));
        } else {
            i += 1;
        }
        proof {
            assert(entries.deep_view() =~= rows.take(k + 1).filter(keep) + rows.skip(k + 1));
            k = k + 1;
        }
    }
    assert(rows.take(k) =~= rows);
    assert(entries.deep_view() =~= rows.filter(keep));
}

/// Reads the table from the outcome of the command for a format. Returns the
/// inventory plus the raw command output for verification. The inventory is in
/// what the command printed: multicast and broadcast pseudo-entries are left
/// out, and the devices are sorted by address.
pub fn gather(format: TableFormat, outcome: &Captured) -> (r: (Vec<ArpEntry>, String))
    ensures
        order::stable_sorted(
            devices(table_rows(format, util::printed(*outcome))),
            r.0.deep_view(),
            by_address(),
        ),
        r.1@ == util::captured_text(table_command_words(format).program, *outcome),
{
    let raw = util::run_capture(table_command(format).program.as_str(), outcome);
    let text = util::printed_text(outcome);
    let printed = text.as_str();
    let mut entries = match format {
        TableFormat::Bsd => parse_bsd_arp(printed),
        TableFormat::IpNeigh => parse_ip_neigh(printed),
        TableFormat::Windows => parse_windows_arp(printed),
    };
    retain_devices(&mut entries);
    let ghost before = entries;
    let sorted = stable_sort(entries);
    proof {
        let f = |e: ArpEntry| e.deep_view();
        order::lemma_stable_sorted_map(
            before@,
            sorted@,
            order::rank::<ArpEntry>(),
            f,
            by_address(),
        );
        assert(before.deep_view() =~= Seq::new(before@.len(), |i: int| f(before@[i])));
        assert(sorted.deep_view() =~= Seq::new(sorted@.len(), |i: int| f(sorted@[i])));
    }
    (sorted, raw)
}

/// The inventory holds the devices of the table and no pseudo-entry, in the
/// order of their addresses.
pub proof fn law_inventory(rows: Seq<ArpRow>, inventory: Seq<ArpRow>)
    requires
        order::stable_sorted(devices(rows), inventory, by_address()),
    ensures
        forall|row: ArpRow| #[trigger]
            inventory.contains(row) <==> rows.contains(row) && !is_noise(row),
        forall|i: int, j: int|
            0 <= i < j < inventory.len() ==> ip::ip_at_most(
                ip::ip_value((#[trigger] inventory[i]).ip),
                ip::ip_value((#[trigger] inventory[j]).ip),
            ),
{
    order::law_stable_sort_keeps(devices(rows), inventory, by_address());
    let keep = |row: ArpRow| !is_noise(row);
    assert forall|row: ArpRow| #[trigger]
        inventory.contains(row) <==> rows.contains(row) && !is_noise(row) by {
        let kept = rows.filter(keep);
        if kept.contains(row) {
            let i = choose|i: int| 0 <= i < kept.len() && kept[i] == row;
            rows.lemma_filter_pred(keep, i);
            rows.lemma_filter_contains_rev(keep, row);
        }
        if rows.contains(row) && !is_noise(row) {
            let i = choose|i: int| 0 <= i < rows.len() && rows[i] == row;
            rows.lemma_filter_contains(keep, i);
        }
    }
    assert forall|i: int, j: int| 0 <= i < j < inventory.len() implies ip::ip_at_most(
        ip::ip_value((#[trigger] inventory[i]).ip),
        ip::ip_value((#[trigger] inventory[j]).ip),
    ) by {
        assert(by_address()(inventory[i], inventory[j]));
    }
}

/// Whether an entry is a real, reachable device: it has a valid MAC and its
/// state is not an incomplete or failed one.
pub open spec fn reachable(row: ArpRow) -> bool {
    mac::normal_mac(row.mac) is Some && row.state != "incomplete"@ && row.state != "failed"@
        && row.state != "none"@
}

/// Whether an entry is a real, reachable device. Works across the states of
/// the platforms (macOS reachable/incomplete, Linux reachable/stale/
/// incomplete, Windows dynamic/static).
pub fn is_reachable(entry: &ArpEntry) -> (r: bool)
    ensures
        r == reachable(entry.deep_view()),
{
    normalize_mac(entry.mac.as_str()).is_some() && !(text::same(
        entry.state.as_str(),
        "incomplete",
    ) || text::same(entry.state.as_str(), "failed") || text::same(entry.state.as_str(), "none"))
}

// -------------------------------------------------------------------- Export

/// The vendor of an entry, if it is known.
pub open spec fn vendor_of(row: ArpRow, vendors: Map<Seq<char>, Seq<char>>) -> Option<Seq<char>> {
    match mac::oui_text(row.mac) {
        Some(oui) => vendors.get(oui),
        None => None,
    }
}

/// The known vendor of an entry.
pub fn entry_vendor<'a>(entry: &ArpEntry, vendors: &'a VendorTable) -> (r: Option<&'a str>)
    requires
        vendors.wf(),
    ensures
        match r {
            Some(vendor) => vendor_of(entry.deep_view(), vendors@) == Some(vendor@),
            None => vendor_of(entry.deep_view(), vendors@) is None,
        },
{
    match oui_of(entry.mac.as_str()) {
        Some(oui) => vendors.get(oui.as_str()),
        None => None,
    }
}

/// A line of the exported table.
pub open spec fn export_line(
    ip: Seq<char>,
    mac: Seq<char>,
    vendor: Seq<char>,
    iface: Seq<char>,
    state: Seq<char>,
) -> Seq<char> {
    text::padded(ip, 40) + " "@ + text::padded(mac, 18) + " "@ + text::padded(vendor, 30) + " "@
        + text::padded(iface, 10) + " "@ + state + "\n"@
}

/// The lines of the entries.
pub open spec fn export_lines(
    rows: Seq<ArpRow>,
    vendors: Map<Seq<char>, Seq<char>>,
) -> Seq<char>
    decreases rows.len(),
{
    if rows.len() == 0 {
        seq![]
    } else {
        let row = rows.last();
        export_lines(rows.drop_last(), vendors) + export_line(
            row.ip,
            row.mac,
            token_or(vendor_of(row, vendors), "-"@),
            row.iface,
            row.state,
        )
    }
}

/// The exported table.
pub open spec fn export_table(
    rows: Seq<ArpRow>,
    vendors: Map<Seq<char>, Seq<char>>,
    raw: Seq<char>,
    now: Seq<char>,
) -> Seq<char> {
    "ARP TABLE — generated "@ + now + "\n\n"@ + export_line(
        "IP"@,
        "MAC"@,
        "Vendor"@,
        "Interface"@,
        "State"@,
    ) + export_lines(rows, vendors) + "\n=== RAW OUTPUT ===\n"@ + raw
}

fn export_line_text(ip: &str, mac: &str, vendor: &str, iface: &str, state: &str) -> (r: String)
    ensures
        r@ == export_line(ip@, mac@, vendor@, iface@, state@),
{
    let mut s = text::pad_right(ip, 40);
    s.append(" ");
    s.append(text::pad_right(mac, 18).as_str());
    s.append(" ");
    s.append(text::pad_right(vendor, 30).as_str());
    s.append(" ");
    s.append(text::pad_right(iface, 10).as_str());
    s.append(" ");
    s.append(state);
    s.append("\n");
    s
}

/// The text of the exported table, with the vendors that are known.
pub fn export_text(
    entries: &Vec<ArpEntry>,
    vendors: &VendorTable,
    raw: &str,
    now: &str,
) -> (r: String)
    requires
        vendors.wf(),
    ensures
        r@ == export_table(entries.deep_view(), vendors@, raw@, now@),
{
    let ghost rows = entries.deep_view();
    let mut s = "ARP TABLE — generated ".to_owned();
    s.append(now);
    s.append("\n\n");
    s.append(export_line_text("IP", "MAC", "Vendor", "Interface", "State").as_str());
    let ghost head = s@;
    let mut i: usize = 0;
    assert(rows.take(0) =~= seq![]);
    assert(s@ =~= head + export_lines(rows.take(0), vendors@));
    while i < entries.len()
        invariant
            vendors.wf(),
            rows == entries.deep_view(),
            i <= entries@.len(),
            s@ == head + export_lines(rows.take(i as int), vendors@),
        decreases entries@.len() - i,
    {
        assert(rows.take(i + 1).drop_last() =~= rows.take(i as int));
        assert(rows.take(i + 1).last() == entries@[i as int].deep_view());
        let entry = &entries[i];
        let vendor = match entry_vendor(entry, vendors) {
            Some(v) => v,
            None => "-",
        };
        let line = export_line_text(
            entry.ip.as_str(),
            entry.mac.as_str(),
            vendor,
            entry.iface.as_str(),
            entry.state.as_str(),
        );
        s.append(line.as_str());
        i += 1;
        assert(s@ =~= head + export_lines(rows.take(i as int), vendors@));
    }
    assert(rows.take(i as int) =~= rows);
    s.append("\n=== RAW OUTPUT ===\n");
    s.append(raw);
    s
}

/// The OUIs of the entries whose vendor is not known, in order.
pub open spec fn unresolved_ouis(
    rows: Seq<ArpRow>,
    vendors: Map<Seq<char>, Seq<char>>,
) -> Seq<Seq<char>>
    decreases rows.len(),
{
    if rows.len() == 0 {
        seq![]
    } else {
        let rest = unresolved_ouis(rows.drop_last(), vendors);
        match mac::oui_text(rows.last().mac) {
            Some(oui) => if vendors.dom().contains(oui) {
                rest
            } else {
                rest.push(oui)
            },
            None => rest,
        }
    }
}

/// The OUIs of the entries whose vendor is not known.
pub fn unresolved(entries: &Vec<ArpEntry>, vendors: &VendorTable) -> (r: Vec<String>)
    requires
        vendors.wf(),
    ensures
        r.deep_view() == unresolved_ouis(entries.deep_view(), vendors@),
{
    let ghost rows = entries.deep_view();
    let mut out: Vec<String> = Vec::new();
    let mut i: usize = 0;
    assert(rows.take(0) =~= seq![]);
    assert(out.deep_view() =~= seq![]);
    while i < entries.len()
        invariant
            vendors.wf(),
            rows == entries.deep_view(),
            i <= entries@.len(),
            out.deep_view() == unresolved_ouis(rows.take(i as int), vendors@),
        decreases entries@.len() - i,
    {
        assert(rows.take(i + 1).drop_last() =~= rows.take(i as int));
        assert(rows.take(i + 1).last() == entries@[i as int].deep_view());
        if let Some(oui) = oui_of(entries[i].mac.as_str()) {
            if vendors.get(oui.as_str()).is_none() {
                let ghost before = out;
                out.push(oui);
                proof {
                    text::lemma_pushed_view(before, out, oui);
                }
            }
        }
        i += 1;
    }
    assert(rows.take(i as int) =~= rows);
    out
}

/// The export of the table into the arp log subfolder: the file and what is
/// written to it. Whether that succeeds is told by [`util::export_step`].
pub fn export(
    entries: &Vec<ArpEntry>,
    vendors: &VendorTable,
    raw: &str,
    now: &str,
    log_dir: &str,
    stamp: &str,
) -> (r: ExportFile)
    requires
        vendors.wf(),
    ensures
        r.parts.deep_view() == util::export_parts(log_dir@, "arp"@, stamp@),
        r.text@ == export_table(entries.deep_view(), vendors@, raw@, now@),
{
    util::export_file(log_dir, "arp", stamp, export_text(entries, vendors, raw, now))
}

// ------------------------------------------------------------ What is read

/// A line of the neighbor table that begins with an address and has a MAC
/// address behind the first `lladdr` is an entry of that address with that MAC
/// address in normal form, whatever the rest of the line says.
pub proof fn law_neighbor_keeps_its_mac(line: Seq<char>, i: int)
    requires
        0 <= i,
        i + 1 < text::words(line).len(),
        text::words(line)[i] == "lladdr"@,
        forall|j: int| 0 <= j < i ==> #[trigger] text::words(line)[j] != "lladdr"@,
        ip::ip_value(text::words(line)[0]) is Some,
        mac::normal_mac(text::words(line)[i + 1]) is Some,
    ensures
        neigh_row(line) is Some,
        neigh_row(line)->0.ip == text::words(line)[0],
        Some(neigh_row(line)->0.mac) == mac::normal_mac(text::words(line)[i + 1]),
{
    text::lemma_token_position(text::words(line), "lladdr"@, i);
}

proof fn lemma_keywords_are_no_addresses()
    ensures
        ip::ip_value("dev"@) is None,
        ip::ip_value("lladdr"@) is None,
        "dev"@ != "lladdr"@,
{
    reveal_strlit("dev");
    reveal_strlit("lladdr");
    assert forall|c: char| c == '.' || c == ':' implies !"dev"@.contains(c) && !"lladdr"@.contains(
        c,
    ) by {
        if "dev"@.contains(c) {
            let i = choose|i: int| 0 <= i < "dev"@.len() && "dev"@[i] == c;
            assert(i == 0 || i == 1 || i == 2);
        }
        if "lladdr"@.contains(c) {
            let i = choose|i: int| 0 <= i < "lladdr"@.len() && "lladdr"@[i] == c;
            assert(i == 0 || i == 1 || i == 2 || i == 3 || i == 4 || i == 5);
        }
    }
    ip::law_addresses_have_a_mark("dev"@);
    ip::law_addresses_have_a_mark("lladdr"@);
}

/// A neighbor with a MAC address is read as its address, its MAC address, its
/// interface and its state in lower case, in every state.
pub proof fn law_neighbor_line(
    line: Seq<char>,
    address: Seq<char>,
    iface: Seq<char>,
    m: Seq<char>,
    state: Seq<char>,
)
    requires
        text::words(line) == seq![address, "dev"@, iface, "lladdr"@, m, state],
        ip::ip_value(address) is Some,
        iface != "lladdr"@,
        mac::normal_mac(m) is Some,
        forall|i: int| 0 <= i < state.len() ==> 'A' <= #[trigger] state[i] <= 'Z',
    ensures
        neigh_row(line) == Some(
            ArpRow {
                ip: address,
                mac: mac::normal_mac(m)->0,
                iface,
                state: text::lowered(state),
            },
        ),
{
    let t = text::words(line);
    lemma_keywords_are_no_addresses();
    text::lemma_token_position(t, "lladdr"@, 3);
    text::lemma_token_position(t, "dev"@, 1);
    assert(t.last() == state);
    assert(all_capitals(state));
}

/// A neighbor without a MAC address is read as incomplete, with its address, its
/// interface and its state in lower case.
pub proof fn law_unresolved_neighbor_line(
    line: Seq<char>,
    address: Seq<char>,
    iface: Seq<char>,
    state: Seq<char>,
)
    requires
        text::words(line) == seq![address, "dev"@, iface, state],
        ip::ip_value(address) is Some,
        iface != "lladdr"@,
        state.len() > 0,
        forall|i: int| 0 <= i < state.len() ==> 'A' <= #[trigger] state[i] <= 'Z',
    ensures
        neigh_row(line) == Some(
            ArpRow { ip: address, mac: "(incomplete)"@, iface, state: text::lowered(state) },
        ),
{
    let t = text::words(line);
    lemma_keywords_are_no_addresses();
    reveal_strlit("lladdr");
    assert(state != "lladdr"@) by {
        if state == "lladdr"@ {
            assert('A' <= state[0] <= 'Z');
        }
    }
    text::lemma_token_position(t, "lladdr"@, 4);
    text::lemma_token_position(t, "dev"@, 1);
    assert(t.last() == state);
    assert(all_capitals(state));
}

/// A line that does not begin with an address is no neighbor.
pub proof fn law_other_lines_are_no_neighbors(line: Seq<char>)
    requires
        text::words(line).len() == 0 || ip::ip_value(text::words(line)[0]) is None,
    ensures
        neigh_row(line) is None,
{
}

/// A line of a BSD table is read as the address in parentheses, the MAC address
/// behind `at` and the interface behind `on`, whatever follows them; without a
/// MAC address the entry is incomplete.
pub proof fn law_bsd_line(
    line: Seq<char>,
    name: Seq<char>,
    address: Seq<char>,
    m: Seq<char>,
    iface: Seq<char>,
    rest: Seq<Seq<char>>,
)
    requires
        text::words(line) == seq![
            name,
            seq!['('] + address + seq![')'],
            "at"@,
            m,
            "on"@,
            iface,
        ] + rest,
        name.len() > 0,
        name[0] != '(',
        name != "at"@,
        name != "on"@,
        m != "on"@,
        address.len() > 0,
        address[0] != '(' && address[0] != ')',
        address.last() != '(' && address.last() != ')',
    ensures
        mac::normal_mac(m) matches Some(n) ==> bsd_row(line) == Some(
            ArpRow { ip: address, mac: n, iface, state: "reachable"@ },
        ),
        mac::normal_mac(m) is None ==> bsd_row(line) == Some(
            ArpRow { ip: address, mac: "(incomplete)"@, iface, state: "incomplete"@ },
        ),
{
    let t = text::words(line);
    let shown = seq!['('] + address + seq![')'];
    reveal_strlit("at");
    reveal_strlit("on");
    assert(t[0] == name && t[1] == shown && t[2] == "at"@ && t[3] == m && t[4] == "on"@ && t[5]
        == iface);
    assert(shown[0] == '(' && shown.last() == ')');
    assert("at"@[0] == 'a' && "on"@[0] == 'o');
    lemma_parens_position(t, 1);
    text::lemma_token_position(t, "at"@, 2);
    text::lemma_token_position(t, "on"@, 4);
    text::law_stripped(seq!['('], address, seq![')'], CharClass::Parens);
}

/// A line of a BSD table without parentheses is no entry.
pub proof fn law_other_lines_are_no_bsd_entries(line: Seq<char>)
    requires
        forall|i: int|
            0 <= i < text::words(line).len() ==> (#[trigger] text::words(line)[i]).len() == 0
                || text::words(line)[i][0] != '(' || text::words(line)[i].last() != ')',
    ensures
        bsd_row(line) is None,
{
    let t = text::words(line);
    lemma_parens_position(t, t.len() as int);
}

/// A line of a Windows table that begins with an address and a MAC address is an
/// entry of the current section, of the kind that the third column names.
pub proof fn law_windows_line(before: Seq<Seq<char>>, line: Seq<char>)
    requires
        text::words(line).len() >= 3,
        ip::ipv4_value(text::words(line)[0]) is Some,
        mac::normal_mac(text::words(line)[1]) is Some,
        !text::contains_text(line, "---"@),
    ensures
        windows_rows(before.push(line)) == windows_rows(before).push(
            ArpRow {
                ip: text::words(line)[0],
                mac: mac::normal_mac(text::words(line)[1])->0,
                iface: current_section(before),
                state: text::words(line)[2],
            },
        ),
        current_section(before.push(line)) == current_section(before),
{
    assert(before.push(line).drop_last() =~= before);
}

proof fn lemma_first_ipv4(tokens: Seq<Seq<char>>, k: int)
    requires
        0 <= k < tokens.len(),
        ip::ipv4_value(tokens[k]) is Some,
        forall|j: int| 0 <= j < k ==> ip::ipv4_value(#[trigger] tokens[j]) is None,
    ensures
        first_ipv4(tokens) == Some(tokens[k]),
    decreases tokens.len(),
{
    if k > 0 {
        let rest = tokens.skip(1);
        assert(ip::ipv4_value(tokens[0]) is None);
        assert forall|j: int| 0 <= j < k - 1 implies ip::ipv4_value(#[trigger] rest[j]) is None by {
            assert(rest[j] == tokens[j + 1]);
        }
        lemma_first_ipv4(rest, k - 1);
    }
}

/// A section of a Windows table is headed by a line with three hyphens and is
/// named by the first address in it; no other line begins a section, and the
/// heading is no entry.
pub proof fn law_windows_section(before: Seq<Seq<char>>, line: Seq<char>, k: int)
    ensures
        text::words(line).len() >= 2 && text::contains_text(line, "---"@) && 0 <= k < text::words(
            line,
        ).len() && ip::ipv4_value(text::words(line)[k]) is Some && (forall|j: int|
            0 <= j < k ==> ip::ipv4_value(#[trigger] text::words(line)[j]) is None)
            ==> current_section(before.push(line)) == text::words(line)[k] && windows_rows(
            before.push(line),
        ) == windows_rows(before),
        text::words(line).len() < 2 || !text::contains_text(line, "---"@) ==> current_section(
            before.push(line),
        ) == current_section(before),
        current_section(seq![]).len() == 0,
{
    let t = text::words(line);
    assert(before.push(line).drop_last() =~= before);
    if 0 <= k < t.len() && ip::ipv4_value(t[k]) is Some && (forall|j: int|
        0 <= j < k ==> ip::ipv4_value(#[trigger] t[j]) is None) {
        lemma_first_ipv4(t, k);
    }
}

/// Lines that are too short, or that do not begin with an address and a MAC
/// address, are no entries of a Windows table.
pub proof fn law_other_lines_are_no_windows_entries(before: Seq<Seq<char>>, line: Seq<char>)
    requires
        text::words(line).len() < 3 || ip::ipv4_value(text::words(line)[0]) is None
            || mac::normal_mac(text::words(line)[1]) is None,
    ensures
        windows_rows(before.push(line)) == windows_rows(before),
{
    assert(before.push(line).drop_last() =~= before);
}

/// The entries of a table are those of its lines, in the order of the lines.
pub proof fn law_each_line_is_read(lines: Seq<Seq<char>>, line: Seq<char>)
    ensures
        bsd_rows(seq![]).len() == 0 && neigh_rows(seq![]).len() == 0 && windows_rows(seq![]).len()
            == 0,
        bsd_row(line) matches Some(row) ==> bsd_rows(lines.push(line)) == bsd_rows(lines).push(row),
        bsd_row(line) is None ==> bsd_rows(lines.push(line)) == bsd_rows(lines),
        neigh_row(line) matches Some(row) ==> neigh_rows(lines.push(line)) == neigh_rows(
            lines,
        ).push(row),
        neigh_row(line) is None ==> neigh_rows(lines.push(line)) == neigh_rows(lines),
{
    assert(lines.push(line).drop_last() =~= lines);
}

/// Each format is read from the lines of the output, and each has the command
/// that prints it.
pub proof fn law_table_formats(raw: Seq<char>)
    ensures
        table_rows(TableFormat::Bsd, raw) == bsd_rows(text::lines_of(raw)),
        table_rows(TableFormat::IpNeigh, raw) == neigh_rows(text::lines_of(raw)),
        table_rows(TableFormat::Windows, raw) == windows_rows(text::lines_of(raw)),
        table_command_words(TableFormat::Bsd).program == "arp"@,
        table_command_words(TableFormat::Bsd).args == seq!["-an"@],
        table_command_words(TableFormat::IpNeigh).program == "ip"@,
        table_command_words(TableFormat::IpNeigh).args == seq!["neigh"@, "show"@],
        table_command_words(TableFormat::Windows).program == "arp"@,
        table_command_words(TableFormat::Windows).args == seq!["-a"@],
{
}

proof fn lemma_broadcast_text()
    ensures
        "255.255.255.255"@ == ip::ipv4_text(0xffff_ffff),
{
    reveal_strlit("255.255.255.255");
    reveal_with_fuel(text::decimal_text, 4);
    let d = text::decimal_text(255);
    assert(d =~= seq!['2', '5', '5']);
    assert(0xffff_ffffu32 / 0x100_0000 == 255);
    assert((0xffff_ffffu32 / 0x1_0000) % 0x100 == 255);
    assert((0xffff_ffffu32 / 0x100) % 0x100 == 255);
    assert(0xffff_ffffu32 % 0x100 == 255);
    assert(ip::ipv4_text(0xffff_ffff) =~= "255.255.255.255"@);
}

/// Of the entries with an IPv4 address, those whose first byte is from 224 to
/// 239, those of the broadcast address and those with the broadcast MAC address
/// are no devices, and all others are.
pub proof fn law_noise_by_address(row: ArpRow, v: u32)
    requires
        row.ip == ip::ipv4_text(v),
    ensures
        is_noise(row) <==> 224 <= v / 0x100_0000 <= 239 || v == 0xffff_ffff || row.mac
            == "ff:ff:ff:ff:ff:ff"@,
{
    ip::law_ipv4_addresses_are_read(v);
    ip::law_ipv4_round_trip(v);
    ip::law_ipv4_round_trip(0xffff_ffff);
    lemma_broadcast_text();
}

/// Of the entries with an IPv6 address, those whose first byte is 255 and those
/// with the broadcast MAC address are no devices, and all others are.
pub proof fn law_noise_by_ipv6_address(row: ArpRow, v: u128)
    requires
        ip::ip_value(row.ip) == Some(ip::IpAddr::V6(v)),
    ensures
        is_noise(row) <==> v / 0x100_0000_0000_0000_0000_0000_0000_0000 == 255 || row.mac
            == "ff:ff:ff:ff:ff:ff"@,
{
    lemma_broadcast_text();
    ip::law_ipv4_addresses_are_read(0xffff_ffff);
}

/// An entry can be reached where it has a MAC address and its state is none of
/// those in which there was no answer; the entry without a MAC address cannot.
pub proof fn law_reachable_entries(row: ArpRow)
    ensures
        reachable(row) ==> mac::normal_mac(row.mac) is Some,
        row.state == "incomplete"@ || row.state == "failed"@ || row.state == "none"@ ==> !reachable(
            row,
        ),
        mac::normal_mac(row.mac) is Some && row.state != "incomplete"@ && row.state != "failed"@
            && row.state != "none"@ ==> reachable(row),
        row.mac == "(incomplete)"@ ==> !reachable(row),
{
    if row.mac == "(incomplete)"@ && mac::normal_mac(row.mac) is Some {
        lemma_incomplete_is_no_mac();
    }
}

proof fn lemma_incomplete_is_no_mac()
    ensures
        mac::normal_mac("(incomplete)"@) is None,
{
    reveal_strlit("(incomplete)");
    let s = "(incomplete)"@;
    let none = Seq::<char>::empty();
    assert(s[0] == '(' && s[11] == ')');
    text::law_trimmed(none, s, none);
    assert(none + s + none =~= s);
    let r = text::replaced(text::lowered(s), '-', ':');
    assert(!r.contains(':')) by {
        if r.contains(':') {
            let i = choose|i: int| 0 <= i < r.len() && r[i] == ':';
            assert(i == 0 || i == 1 || i == 2 || i == 3 || i == 4 || i == 5 || i == 6 || i == 7 || i
                == 8 || i == 9 || i == 10 || i == 11);
        }
    }
    text::lemma_fields_single(r, ':');
}

/// The vendor of an entry is the one that is known for the first three groups of
/// its MAC address.
pub proof fn law_vendor_by_prefix(
    row: ArpRow,
    vendors: Map<Seq<char>, Seq<char>>,
    m: Seq<char>,
    vendor: Seq<char>,
)
    requires
        mac::normal_mac(row.mac) == Some(m),
    ensures
        vendor_of(row, vendors.insert(m.take(8), vendor)) == Some(vendor),
        vendor_of(row, vendors.remove(m.take(8))) is None,
        mac::oui_text(row.mac) == Some(m.take(8)),
{
    mac::law_prefix_is_three_groups(row.mac);
    mac::law_normal_mac_shape(row.mac);
    assert(mac::oui_text(row.mac)->0 =~= m.take(8));
}

/// An entry without a MAC address has no vendor.
pub proof fn law_no_vendor_without_mac(row: ArpRow, vendors: Map<Seq<char>, Seq<char>>)
    requires
        mac::normal_mac(row.mac) is None,
    ensures
        vendor_of(row, vendors) is None,
{
    mac::law_prefix_is_three_groups(row.mac);
}

/// The prefixes without a known vendor are those of the entries, each as often
/// as it occurs and no other.
pub proof fn law_unresolved_prefixes(
    rows: Seq<ArpRow>,
    vendors: Map<Seq<char>, Seq<char>>,
    oui: Seq<char>,
)
    ensures
        unresolved_ouis(rows, vendors).contains(oui) <==> !vendors.dom().contains(oui) && exists|
            i: int,
        |
            0 <= i < rows.len() && mac::oui_text((#[trigger] rows[i]).mac) == Some(oui),
    decreases rows.len(),
{
    let found = unresolved_ouis(rows, vendors);
    if rows.len() > 0 {
        let before = rows.drop_last();
        let rest = unresolved_ouis(before, vendors);
        law_unresolved_prefixes(before, vendors, oui);
        if let Some(o) = mac::oui_text(rows.last().mac) {
            text::lemma_push_contains(rest, o, oui);
        }
        if exists|i: int|
            0 <= i < before.len() && mac::oui_text((#[trigger] before[i]).mac) == Some(oui) {
            let i = choose|i: int|
                0 <= i < before.len() && mac::oui_text((#[trigger] before[i]).mac) == Some(oui);
            assert(rows[i] == before[i]);
        }
        if exists|i: int|
            0 <= i < rows.len() && mac::oui_text((#[trigger] rows[i]).mac) == Some(oui) {
            let i = choose|i: int|
                0 <= i < rows.len() && mac::oui_text((#[trigger] rows[i]).mac) == Some(oui);
            if i < before.len() {
                assert(before[i] == rows[i]);
            } else {
                assert(rows[i] == rows.last());
            }
        }
        if mac::oui_text(rows.last().mac) == Some(oui) {
            assert(rows[rows.len() - 1].mac == rows.last().mac);
        }
    }
}

/// A line of the exported table has the values in columns: the address from the
/// first on, the MAC address from column 41, the vendor from column 60, the
/// interface from column 91 and the state from column 102.
pub proof fn law_export_columns(
    ip: Seq<char>,
    mac: Seq<char>,
    vendor: Seq<char>,
    iface: Seq<char>,
    state: Seq<char>,
)
    requires
        ip.len() <= 40,
        mac.len() <= 18,
        vendor.len() <= 30,
        iface.len() <= 10,
    ensures
        ({
            let line = export_line(ip, mac, vendor, iface, state);
            &&& line.len() == 103 + state.len()
            &&& line.subrange(0, ip.len() as int) == ip
            &&& line.subrange(41, 41int + mac.len()) == mac
            &&& line.subrange(60, 60int + vendor.len()) == vendor
            &&& line.subrange(91, 91int + iface.len()) == iface
            &&& line.subrange(102, 102int + state.len()) == state
            &&& line.last() == '\n'
        }),
{
    reveal_strlit(" ");
    reveal_strlit("\n");
    let line = export_line(ip, mac, vendor, iface, state);
    assert(line.subrange(0, ip.len() as int) =~= ip);
    assert(line.subrange(41, 41int + mac.len()) =~= mac);
    assert(line.subrange(60, 60int + vendor.len()) =~= vendor);
    assert(line.subrange(91, 91int + iface.len()) =~= iface);
    assert(line.subrange(102, 102int + state.len()) =~= state);
}

proof fn lemma_export_lines(rows: Seq<ArpRow>, vendors: Map<Seq<char>, Seq<char>>, i: int)
    requires
        0 <= i < rows.len(),
    ensures
        text::contains_text(
            export_lines(rows, vendors),
            export_line(
                rows[i].ip,
                rows[i].mac,
                match vendor_of(rows[i], vendors) {
                    Some(v) => v,
                    None => "-"@,
                },
                rows[i].iface,
                rows[i].state,
            ),
        ),
    decreases rows.len(),
{
    let before = rows.drop_last();
    let row = rows[i];
    let line = export_line(
        row.ip,
        row.mac,
        token_or(vendor_of(row, vendors), "-"@),
        row.iface,
        row.state,
    );
    let last = rows.last();
    let last_line = export_line(
        last.ip,
        last.mac,
        token_or(vendor_of(last, vendors), "-"@),
        last.iface,
        last.state,
    );
    text::lemma_part_within(export_lines(before, vendors), last_line, line);
    if i < before.len() {
        assert(before[i] == row);
        lemma_export_lines(before, vendors, i);
    }
}

/// The exported table has a line for every entry, with its vendor or a hyphen,
/// and the output that was read in full at its end.
pub proof fn law_export_is_complete(
    rows: Seq<ArpRow>,
    vendors: Map<Seq<char>, Seq<char>>,
    raw: Seq<char>,
    now: Seq<char>,
    i: int,
)
    ensures
        0 <= i < rows.len() ==> text::contains_text(
            export_table(rows, vendors, raw, now),
            export_line(
                rows[i].ip,
                rows[i].mac,
                match vendor_of(rows[i], vendors) {
                    Some(v) => v,
                    None => "-"@,
                },
                rows[i].iface,
                rows[i].state,
            ),
        ),
        export_table(rows, vendors, raw, now).len() >= raw.len(),
        export_table(rows, vendors, raw, now).skip(
            export_table(rows, vendors, raw, now).len() - raw.len(),
        ) == raw,
        text::contains_text(export_table(rows, vendors, raw, now), now),
{
    let head = "ARP TABLE — generated "@ + now;
    let titles = export_line("IP"@, "MAC"@, "Vendor"@, "Interface"@, "State"@);
    let lines = export_lines(rows, vendors);
    let mark = "\n=== RAW OUTPUT ===\n"@;
    let all = export_table(rows, vendors, raw, now);
    assert(all.skip(all.len() - raw.len()) =~= raw);
    text::lemma_part_within("ARP TABLE — generated "@, now, now);
    text::lemma_part_within(head, "\n\n"@, now);
    text::lemma_part_within(head + "\n\n"@, titles, now);
    text::lemma_part_within(head + "\n\n"@ + titles, lines, now);
    text::lemma_part_within(head + "\n\n"@ + titles + lines, mark, now);
    text::lemma_part_within(head + "\n\n"@ + titles + lines + mark, raw, now);
    if 0 <= i < rows.len() {
        lemma_export_lines(rows, vendors, i);
        let line = export_line(
            rows[i].ip,
            rows[i].mac,
            token_or(vendor_of(rows[i], vendors), "-"@),
            rows[i].iface,
            rows[i].state,
        );
        text::lemma_part_within(head + "\n\n"@ + titles, lines, line);
        text::lemma_part_within(head + "\n\n"@ + titles + lines, mark, line);
        text::lemma_part_within(head + "\n\n"@ + titles + lines + mark, raw, line);
    }
}

/// What a line of the neighbor table leaves out is shown as such: a question mark
/// for the interface and for a state that is none, and no MAC address where none
/// is behind `lladdr`.
pub proof fn law_neighbor_defaults(line: Seq<char>)
    requires
        text::words(line).len() > 0,
        ip::ip_value(text::words(line)[0]) is Some,
    ensures
        neigh_row(line) is Some,
        neigh_row(line)->0.ip == text::words(line)[0],
        !text::words(line).contains("dev"@) ==> neigh_row(line)->0.iface == "?"@,
        !text::words(line).contains("lladdr"@) ==> neigh_row(line)->0.mac == "(incomplete)"@,
        text::token_following(text::words(line), "lladdr"@) matches Some(m) ==> (mac::normal_mac(
            m,
        ) is None ==> neigh_row(line)->0.mac == "(incomplete)"@),
        (exists|i: int|
            0 <= i < text::words(line).last().len() && !('A' <= #[trigger] text::words(
                line,
            ).last()[i] <= 'Z')) ==> neigh_row(line)->0.state == "?"@,
{
    let t = text::words(line);
    if !t.contains("dev"@) {
        text::law_token_following(t, "dev"@, seq![], seq![]);
    }
    if !t.contains("lladdr"@) {
        text::law_token_following(t, "lladdr"@, seq![], seq![]);
    }
}

/// What a line of a BSD table leaves out is shown as such.
pub proof fn law_bsd_defaults(line: Seq<char>)
    requires
        bsd_row(line) is Some,
    ensures
        !text::words(line).contains("on"@) ==> bsd_row(line)->0.iface == "?"@,
        !text::words(line).contains("at"@) ==> bsd_row(line)->0.mac == "(incomplete)"@ && bsd_row(
            line,
        )->0.state == "incomplete"@,
{
    let t = text::words(line);
    if !t.contains("on"@) {
        text::law_token_following(t, "on"@, seq![], seq![]);
    }
    if !t.contains("at"@) {
        text::law_token_following(t, "at"@, seq![], seq![]);
        lemma_incomplete_is_no_mac();
    }
}

/// A heading without an address leaves the section as it was.
pub proof fn law_windows_section_without_address(before: Seq<Seq<char>>, line: Seq<char>)
    requires
        forall|j: int|
            0 <= j < text::words(line).len() ==> ip::ipv4_value(
                #[trigger] text::words(line)[j],
            ) is None,
    ensures
        current_section(before.push(line)) == current_section(before),
{
    assert(before.push(line).drop_last() =~= before);
    lemma_no_ipv4(text::words(line));
}

proof fn lemma_no_ipv4(tokens: Seq<Seq<char>>)
    requires
        forall|j: int| 0 <= j < tokens.len() ==> ip::ipv4_value(#[trigger] tokens[j]) is None,
    ensures
        first_ipv4(tokens) is None,
    decreases tokens.len(),
{
    if tokens.len() > 0 {
        let rest = tokens.skip(1);
        assert(ip::ipv4_value(tokens[0]) is None);
        assert forall|j: int| 0 <= j < rest.len() implies ip::ipv4_value(
            #[trigger] rest[j],
        ) is None by {
            assert(rest[j] == tokens[j + 1]);
        }
        lemma_no_ipv4(rest);
    }
}

/// Entries are ordered by the numbers of their addresses.
pub proof fn law_entries_by_number(a: ArpRow, b: ArpRow, x: u32, y: u32)
    requires
        a.ip == ip::ipv4_text(x),
        b.ip == ip::ipv4_text(y),
    ensures
        by_address()(a, b) <==> x <= y,
{
    ip::law_ipv4_addresses_are_read(x);
    ip::law_ipv4_addresses_are_read(y);
}

/// IPv4 entries come before IPv6 entries, which are ordered by number too, and
/// what has no address comes first.
pub proof fn law_entries_by_family(a: ArpRow, b: ArpRow)
    ensures
        ip::ip_value(a.ip) is None ==> by_address()(a, b),
        ip::ip_value(a.ip) is Some && ip::ip_value(b.ip) is None ==> !by_address()(a, b),
        ip::ip_value(a.ip) matches Some(ip::IpAddr::V4(x)) ==> (ip::ip_value(b.ip) matches Some(
            ip::IpAddr::V6(y),
        ) ==> by_address()(a, b) && !by_address()(b, a)),
        ip::ip_value(a.ip) matches Some(ip::IpAddr::V6(x)) ==> (ip::ip_value(b.ip) matches Some(
            ip::IpAddr::V6(y),
        ) ==> (by_address()(a, b) <==> x <= y)),
{
}

/// The devices are the entries that are no noise, all of them and in order.
pub proof fn law_devices(rows: Seq<ArpRow>, row: ArpRow)
    ensures
        devices(seq![]).len() == 0,
        is_noise(row) ==> devices(rows.push(row)) == devices(rows),
        !is_noise(row) ==> devices(rows.push(row)) == devices(rows).push(row),
{
    reveal(Seq::filter);
    assert(rows.push(row).drop_last() =~= rows);
}

/// In any line of the neighbor table the interface is what follows `dev`, and the
/// last word is the state where it is in capital letters.
pub proof fn law_neighbor_fields(line: Seq<char>)
    requires
        text::words(line).len() > 0,
        ip::ip_value(text::words(line)[0]) is Some,
    ensures
        neigh_row(line) is Some,
        text::token_following(text::words(line), "dev"@) matches Some(i) ==> neigh_row(
            line,
        )->0.iface == i,
        text::token_following(text::words(line), "dev"@) is None ==> neigh_row(line)->0.iface
            == "?"@,
        text::token_following(text::words(line), "lladdr"@) is None ==> neigh_row(line)->0.mac
            == "(incomplete)"@,
        (forall|i: int|
            0 <= i < text::words(line).last().len() ==> 'A' <= #[trigger] text::words(
                line,
            ).last()[i] <= 'Z') ==> neigh_row(line)->0.state == text::lowered(
            text::words(line).last(),
        ),
{
    if forall|i: int|
        0 <= i < text::words(line).last().len() ==> 'A' <= #[trigger] text::words(line).last()[i]
            <= 'Z' {
        assert(all_capitals(text::words(line).last()));
    }
}

/// In any line of a BSD table the address is the first word in parentheses, the
/// MAC address is what follows `at` and the interface is what follows `on`.
pub proof fn law_bsd_fields(line: Seq<char>, p: int)
    requires
        0 <= p < text::words(line).len(),
        text::words(line)[p].len() > 0,
        text::words(line)[p][0] == '(' && text::words(line)[p].last() == ')',
        forall|j: int|
            0 <= j < p ==> (#[trigger] text::words(line)[j]).len() == 0 || text::words(line)[j][0]
                != '(' || text::words(line)[j].last() != ')',
    ensures
        bsd_row(line) is Some,
        bsd_row(line)->0.ip == text::strip(text::words(line)[p], CharClass::Parens),
        text::token_following(text::words(line), "on"@) matches Some(i) ==> bsd_row(line)->0.iface
            == i,
        text::token_following(text::words(line), "on"@) is None ==> bsd_row(line)->0.iface == "?"@,
        text::token_following(text::words(line), "at"@) matches Some(m) ==> (mac::normal_mac(
            m,
        ) matches Some(n) ==> bsd_row(line)->0.mac == n && bsd_row(line)->0.state
            == "reachable"@),
        text::token_following(text::words(line), "at"@) matches Some(m) ==> (mac::normal_mac(
            m,
        ) is None ==> bsd_row(line)->0.mac == "(incomplete)"@ && bsd_row(line)->0.state
            == "incomplete"@),
        text::token_following(text::words(line), "at"@) is None ==> bsd_row(line)->0.mac
            == "(incomplete)"@ && bsd_row(line)->0.state == "incomplete"@,
{
    lemma_parens_position(text::words(line), p);
    lemma_incomplete_is_no_mac();
}

/// Each entry with an unknown prefix adds it, known prefixes and entries without
/// a MAC address add nothing.
pub proof fn law_unresolved_prefixes_in_order(
    rows: Seq<ArpRow>,
    vendors: Map<Seq<char>, Seq<char>>,
    row: ArpRow,
)
    ensures
        unresolved_ouis(seq![], vendors).len() == 0,
        mac::normal_mac(row.mac) is None ==> unresolved_ouis(rows.push(row), vendors)
            == unresolved_ouis(rows, vendors),
        mac::normal_mac(row.mac) matches Some(m) ==> unresolved_ouis(rows.push(row), vendors) == (
        if vendors.dom().contains(m.take(8)) {
            unresolved_ouis(rows, vendors)
        } else {
            unresolved_ouis(rows, vendors).push(m.take(8))
        }),
{
    assert(rows.push(row).drop_last() =~= rows);
    mac::law_prefix_is_three_groups(row.mac);
    if let Some(m) = mac::normal_mac(row.mac) {
        mac::law_normal_mac_shape(row.mac);
        assert(mac::oui_text(row.mac)->0 =~= m.take(8));
    }
}

/// A line of the exported table holds all its values in full, however long they
/// are, and ends the line behind the state.
pub proof fn law_export_line_holds_values(
    ip: Seq<char>,
    mac: Seq<char>,
    vendor: Seq<char>,
    iface: Seq<char>,
    state: Seq<char>,
)
    ensures
        export_line(ip, mac, vendor, iface, state) == text::padded(ip, 40) + " "@ + text::padded(
            mac,
            18,
        ) + " "@ + text::padded(vendor, 30) + " "@ + text::padded(iface, 10) + " "@ + state
            + "\n"@,
{
}

/// The lines of the exported table come in the order of the entries, behind the
/// headings.
pub proof fn law_export_order(
    rows: Seq<ArpRow>,
    row: ArpRow,
    vendors: Map<Seq<char>, Seq<char>>,
    raw: Seq<char>,
    now: Seq<char>,
)
    ensures
        export_lines(seq![], vendors).len() == 0,
        export_lines(rows.push(row), vendors) == export_lines(rows, vendors) + export_line(
            row.ip,
            row.mac,
            match vendor_of(row, vendors) {
                Some(v) => v,
                None => "-"@,
            },
            row.iface,
            row.state,
        ),
        export_table(rows, vendors, raw, now) == "ARP TABLE — generated "@ + now + "\n\n"@
            + export_line("IP"@, "MAC"@, "Vendor"@, "Interface"@, "State"@) + export_lines(
            rows,
            vendors,
        ) + "\n=== RAW OUTPUT ===\n"@ + raw,
{
    assert(rows.push(row).drop_last() =~= rows);
}

} // verus!
