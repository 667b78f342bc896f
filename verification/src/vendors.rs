//! Vendor identification: the table of known vendors, the offline lookup in
//! the IEEE OUI database and the online lookup.

use crate::arp::{ArpEvent, ArpNotice};
use crate::mac::{self, normalize_mac, oui_of};
use crate::text;
use crate::units::Nanos;
use crate::util::{self, CommandLine};
use vstd::prelude::*;

verus! {

// -------------------------------------------------------------- Vendor table

/// The vendors found so far, by OUI prefix.
#[derive(Debug)]
pub struct VendorTable {
    pairs: Vec<(String, String)>,
}

impl View for VendorTable {
    type V = Map<Seq<char>, Seq<char>>;

    closed spec fn view(&self) -> Map<Seq<char>, Seq<char>> {
        pairs_map(self.pairs@)
    }
}

spec fn holds_key(pairs: Seq<(String, String)>, k: Seq<char>) -> bool {
    exists|i: int| 0 <= i < pairs.len() && (#[trigger] pairs[i]).0@ == k
}

spec fn value_of(pairs: Seq<(String, String)>, k: Seq<char>) -> Seq<char> {
    let i = choose|i: int| 0 <= i < pairs.len() && (#[trigger] pairs[i]).0@ == k;
    pairs[i].1@
}

spec fn pairs_map(pairs: Seq<(String, String)>) -> Map<Seq<char>, Seq<char>> {
    Map::new(|k: Seq<char>| holds_key(pairs, k), |k: Seq<char>| value_of(pairs, k))
}

impl VendorTable {
    /// No OUI is listed twice.
    pub closed spec fn wf(self) -> bool {
        forall|i: int, j: int|
            0 <= i < j < self.pairs@.len() ==> (#[trigger] self.pairs@[i]).0@ != (
            #[trigger] self.pairs@[j]).0@
    }

    /// An empty table.
    pub fn new() -> (r: Self)
        ensures
            r.wf(),
            r@ == Map::<Seq<char>, Seq<char>>::empty(),
    {
        let r = VendorTable { pairs: Vec::new() };
        assert(r@ =~= Map::<Seq<char>, Seq<char>>::empty());
        r
    }

    fn position(&self, oui: &str) -> (r: Option<usize>)
        requires
            self.wf(),
        ensures
            match r {
                Some(i) => i < self.pairs@.len() && self.pairs@[i as int].0@ == oui@,
                None => !holds_key(self.pairs@, oui@),
            },
    {
        let mut i: usize = 0;
        while i < self.pairs.len()
            invariant
                i <= self.pairs@.len(),
                forall|j: int| 0 <= j < i ==> (#[trigger] self.pairs@[j]).0@ != oui@,
            decreases self.pairs@.len() - i,
        {
            if text::same(self.pairs[i].0.as_str(), oui) {
                return Some(i);
            }
            i += 1;
        }
        None
    }

    proof fn lemma_at(self, i: int)
        requires
            self.wf(),
            0 <= i < self.pairs@.len(),
        ensures
            self@.dom().contains(self.pairs@[i].0@),
            self@[self.pairs@[i].0@] == self.pairs@[i].1@,
    {
        let k = self.pairs@[i].0@;
        let j = choose|j: int| 0 <= j < self.pairs@.len() && (#[trigger] self.pairs@[j]).0@ == k;
        assert(holds_key(self.pairs@, k));
        assert(j == i) by {
            if j < i {
                assert(self.pairs@[j].0@ != self.pairs@[i].0@);
            } else if i < j {
                assert(self.pairs@[i].0@ != self.pairs@[j].0@);
            }
        }
    }

    /// The vendor of `oui`, if it is known.
    pub fn get(&self, oui: &str) -> (r: Option<&str>)
        requires
            self.wf(),
        ensures
            match r {
                Some(vendor) => self@.dom().contains(oui@) && self@[oui@] == vendor@,
                None => !self@.dom().contains(oui@),
            },
    {
        match self.position(oui) {
            Some(i) => {
                proof {
                    self.lemma_at(i as int);
                }
                Some(self.pairs[i].1.as_str())
            },
            None => None,
        }
    }

    /// Records the vendor of `oui`, in place of what was known of it.
    pub fn insert(&mut self, oui: String, vendor: String)
        requires
            old(self).wf(),
        ensures
            final(self).wf(),
            final(self)@ == old(self)@.insert(oui@, vendor@),
    {
        let ghost before = *self;
        match self.position(oui.as_str()) {
            Some(i) => {
                self.pairs.set(i, (oui, vendor));
                proof {
                    assert(self.wf());
                    self.lemma_at(i as int);
                    assert forall|k: Seq<char>| #[trigger]
                        self@.dom().contains(k) == before@.insert(oui@, vendor@).dom().contains(k)
                        by {
                        lemma_same_keys(before.pairs@, self.pairs@, i as int, k);
                    }
                    assert forall|k: Seq<char>| #[trigger]
                        self@.dom().contains(k) implies self@[k] == before@.insert(
                        oui@,
                        vendor@,
                    )[k] by {
                        if k != oui@ {
                            let j = choose|j: int|
                                0 <= j < self.pairs@.len() && (#[trigger] self.pairs@[j]).0@ == k;
                            self.lemma_at(j);
                            assert(before.pairs@[j] == self.pairs@[j]);
                            before.lemma_at(j);
                        }
                    }
                    assert(self@ =~= before@.insert(oui@, vendor@));
                }
            },
            None => {
                self.pairs.push((oui, vendor));
                proof {
                    let n = before.pairs@.len() as int;
                    assert forall|i: int, j: int|
                        0 <= i < j < self.pairs@.len() implies (#[trigger] self.pairs@[i]).0@ != (
                    #[trigger] self.pairs@[j]).0@ by {
                        assert(before.pairs@[i] == self.pairs@[i]);
                        if j < n {
                            assert(before.pairs@[j] == self.pairs@[j]);
                        }
                    }
                    self.lemma_at(n);
                    assert forall|k: Seq<char>| #[trigger]
                        self@.dom().contains(k) == before@.insert(oui@, vendor@).dom().contains(k)
                        by {
                        if holds_key(before.pairs@, k) {
                            let j = choose|j: int|
                                0 <= j < before.pairs@.len() && (#[trigger] before.pairs@[j]).0@
                                    == k;
                            assert(self.pairs@[j] == before.pairs@[j]);
                        }
                        if holds_key(self.pairs@, k) && k != oui@ {
                            let j = choose|j: int|
                                0 <= j < self.pairs@.len() && (#[trigger] self.pairs@[j]).0@ == k;
                            assert(self.pairs@[j] == before.pairs@[j]);
                        }
                    }
                    assert forall|k: Seq<char>| #[trigger]
                        self@.dom().contains(k) implies self@[k] == before@.insert(
                        oui@,
                        vendor@,
                    )[k] by {
                        if k != oui@ {
                            let j = choose|j: int|
                                0 <= j < self.pairs@.len() && (#[trigger] self.pairs@[j]).0@ == k;
                            assert(self.pairs@[j] == before.pairs@[j]);
                            self.lemma_at(j);
                            before.lemma_at(j);
                        }
                    }
                    assert(self@ =~= before@.insert(oui@, vendor@));
                }
            },
        }
    }
}

/// Replacing the value of a pair keeps the keys.
proof fn lemma_same_keys(
    before: Seq<(String, String)>,
    after: Seq<(String, String)>,
    i: int,
    k: Seq<char>,
)
    requires
        0 <= i < before.len(),
        after.len() == before.len(),
        after[i].0@ == before[i].0@,
        forall|j: int| 0 <= j < before.len() && j != i ==> #[trigger] after[j] == before[j],
    ensures
        holds_key(after, k) == holds_key(before, k),
{
    if holds_key(before, k) {
        let j = choose|j: int| 0 <= j < before.len() && (#[trigger] before[j]).0@ == k;
        assert(after[j].0@ == k);
    }
    if holds_key(after, k) {
        let j = choose|j: int| 0 <= j < after.len() && (#[trigger] after[j]).0@ == k;
        assert(before[j].0@ == k);
    }
}

// ------------------------------------------------------------ Offline lookup

/// The IEEE OUI database of the `mac_oui` crate.
#[verifier::external_type_specification]
#[verifier::external_body]
pub struct ExOui(mac_oui::Oui);

/// The company that each MAC address is registered to, by the number that the
/// address denotes.
pub uninterp spec fn oui_companies(db: mac_oui::Oui) -> Map<u64, Seq<char>>;

/// `mac_oui::Oui::default`: parses the database that is compiled into the
/// crate, which succeeds. Which companies it lists is left unsaid.
#[verifier::external_body]
fn embedded_database() -> (r: Option<mac_oui::Oui>)
    ensures
        r is Some,
{
    mac_oui::Oui::default().ok()
}

/// `mac_oui::Oui::lookup_by_mac`: an address in normal form is always
/// accepted, and the answer is the company whose block holds the number of the
/// address, if there is one.
#[verifier::external_body]
fn company_of(db: &mac_oui::Oui, mac: &str) -> (r: Result<Option<String>, String>)
    requires
        mac::is_normal_mac(mac@),
    ensures
        r is Ok,
        r->Ok_0.deep_view() == oui_companies(*db).get(mac::mac_number(mac@)),
{
    db.lookup_by_mac(mac).map(|found| found.map(|entry| entry.company_name.clone()))
}

/// The vendor name to show for the outcome of a lookup.
pub open spec fn vendor_shown(found: Result<Option<Seq<char>>, Seq<char>>) -> Seq<char> {
    match found {
        Ok(Some(company)) => company,
        Ok(None) => "Unknown (not in OUI database)"@,
        Err(e) => "lookup failed: "@ + e,
    }
}

/// The vendor name to show for the outcome of a lookup in the database.
pub fn vendor_text(found: &Result<Option<String>, String>) -> (r: String)
    ensures
        match found {
            Ok(company) => r@ == vendor_shown(Ok(company.deep_view())),
            Err(e) => r@ == vendor_shown(Err(e@)),
        },
{
    match found {
        Ok(Some(company)) => company.clone(),
        Ok(None) => "Unknown (not in OUI database)".to_owned(),
        Err(e) => {
            let mut s = "lookup failed: ".to_owned();
            s.append(e.as_str());
            s
        },
    }
}

/// The OUI database, built at most once.
pub struct OuiDb {
    built: Option<Option<mac_oui::Oui>>,
}

impl View for OuiDb {
    /// None before the database is built; then what it holds, or None when it
    /// could not be loaded.
    type V = Option<Option<Map<u64, Seq<char>>>>;

    closed spec fn view(&self) -> Option<Option<Map<u64, Seq<char>>>> {
        match self.built {
            None => None,
            Some(None) => Some(None),
            Some(Some(db)) => Some(Some(oui_companies(db))),
        }
    }
}

impl OuiDb {
    /// A database that is not built yet.
    pub fn new() -> (r: Self)
        ensures
            r@ is None,
    {
        OuiDb { built: None }
    }
}

/// Builds the OUI database unless it was built before, so that the first
/// vendor lookup does not pay for it.
pub fn warm_oui_db(db: &mut OuiDb)
    ensures
        final(db)@ is Some,
        old(db)@ is None ==> final(db)@->0 is Some,
        old(db)@ is Some ==> final(db)@ == old(db)@,
{
    if db.built.is_none() {
        db.built = Some(embedded_database());
    }
}

/// The reports on the given MACs, in order: those that are no MACs are passed
/// over.
pub open spec fn vendor_notices(
    companies: Map<u64, Seq<char>>,
    macs: Seq<Seq<char>>,
) -> Seq<ArpNotice>
    decreases macs.len(),
{
    if macs.len() == 0 {
        seq![]
    } else {
        let rest = vendor_notices(companies, macs.drop_last());
        match mac::normal_mac(macs.last()) {
            Some(m) => rest.push(
                ArpNotice::Vendor {
                    oui: mac::oui_text(macs.last())->0,
                    vendor: vendor_shown(Ok(companies.get(mac::mac_number(m)))),
                },
            ),
            None => rest,
        }
    }
}

/// All that a lookup reports: an error when the database could not be loaded,
/// else the vendors; and that it is done.
pub open spec fn lookup_notices(
    companies: Option<Map<u64, Seq<char>>>,
    macs: Seq<Seq<char>>,
) -> Seq<ArpNotice> {
    match companies {
        None => seq![ArpNotice::Error("failed to load the OUI database"@), ArpNotice::Done],
        Some(c) => vendor_notices(c, macs).push(ArpNotice::Done),
    }
}

/// Resolves vendors for the given MACs from the embedded IEEE OUI database,
/// which is built on first use: works offline.
pub fn lookup_vendors(db: &mut OuiDb, macs: &Vec<String>) -> (r: Vec<ArpEvent>)
    ensures
        final(db)@ is Some,
        old(db)@ is None ==> final(db)@->0 is Some,
        old(db)@ is Some ==> final(db)@ == old(db)@,
        r.deep_view() == lookup_notices(final(db)@->0, macs.deep_view()),
{
    warm_oui_db(db);
    let mut events: Vec<ArpEvent> = Vec::new();
    match &db.built {
        Some(Some(oui)) => {
            let ghost mv = macs.deep_view();
            let ghost companies = oui_companies(*oui);
            let mut i: usize = 0;
            assert(mv.take(0) =~= seq![]);
            assert(events.deep_view() =~= seq![]);
            while i < macs.len()
                invariant
                    mv == macs.deep_view(),
                    companies == oui_companies(*oui),
                    i <= macs@.len(),
                    events.deep_view() == vendor_notices(companies, mv.take(i as int)),
                decreases macs@.len() - i,
            {
                assert(mv.take(i + 1).drop_last() =~= mv.take(i as int));
                assert(mv.take(i + 1).last() == macs@[i as int]@);
                if let Some(normalized) = normalize_mac(macs[i].as_str()) {
                    proof {
                        mac::law_normal_mac_shape(macs@[i as int]@);
                    }
                    if let Some(prefix) = oui_of(macs[i].as_str()) {
                        let found = company_of(oui, normalized.as_str());
                        let event = ArpEvent::Vendor { oui: prefix, vendor: vendor_text(&found) };
                        let ghost before = events;
                        events.push(event);
                        proof {
                            text::lemma_pushed_view(before, events, event);
                        }
                    }
                }
                i += 1;
            }
            assert(mv.take(i as int) =~= mv);
        },
        _ => {
            events.push(ArpEvent::Error("failed to load the OUI database".to_owned()));
        },
    }
    let ghost before = events;
    events.push(ArpEvent::Done);
    proof {
        text::lemma_pushed_view(before, events, ArpEvent::Done);
        if db@->0 is None {
            assert(events.deep_view() =~= lookup_notices(db@->0, macs.deep_view()));
        }
    }
    events
}

/// Every lookup ends by reporting that it is done, exactly once.
pub proof fn law_lookup_ends_once(companies: Option<Map<u64, Seq<char>>>, macs: Seq<Seq<char>>)
    ensures
        lookup_notices(companies, macs).len() > 0,
        forall|i: int|
            0 <= i < lookup_notices(companies, macs).len() ==> (#[trigger] lookup_notices(
                companies,
                macs,
            )[i] is Done <==> i == lookup_notices(companies, macs).len() - 1),
{
    if let Some(c) = companies {
        lemma_only_vendors(c, macs);
    }
}

proof fn lemma_only_vendors(companies: Map<u64, Seq<char>>, macs: Seq<Seq<char>>)
    ensures
        forall|i: int|
            0 <= i < vendor_notices(companies, macs).len() ==> #[trigger] vendor_notices(
                companies,
                macs,
            )[i] is Vendor,
    decreases macs.len(),
{
    if macs.len() > 0 {
        lemma_only_vendors(companies, macs.drop_last());
    }
}

// ------------------------------------------------------------- Online lookup

/// The pause between two online queries: the free service takes about one
/// request a second.
pub const ONLINE_PAUSE: Nanos = 1_100_000_000;

/// The OUIs of the given MACs, in order; those that are no MACs have none.
pub open spec fn ouis_of(macs: Seq<Seq<char>>) -> Seq<Seq<char>>
    decreases macs.len(),
{
    if macs.len() == 0 {
        seq![]
    } else {
        match mac::oui_text(macs.last()) {
            Some(oui) => ouis_of(macs.drop_last()).push(oui),
            None => ouis_of(macs.drop_last()),
        }
    }
}

/// The OUIs to query online: each of them once.
pub fn online_queries(macs: &Vec<String>) -> (r: Vec<String>)
    ensures
        r.deep_view() == text::first_occurrences(ouis_of(macs.deep_view())),
{
    let ghost mv = macs.deep_view();
    let mut queries: Vec<String> = Vec::new();
    let mut i: usize = 0;
    assert(mv.take(0) =~= seq![]);
    assert(queries.deep_view() =~= seq![]);
    while i < macs.len()
        invariant
            mv == macs.deep_view(),
            i <= macs@.len(),
            queries.deep_view() == text::first_occurrences(ouis_of(mv.take(i as int))),
        decreases macs@.len() - i,
    {
        assert(mv.take(i + 1).drop_last() =~= mv.take(i as int));
        assert(mv.take(i + 1).last() == macs@[i as int]@);
        if let Some(oui) = oui_of(macs[i].as_str()) {
            let ghost seen = ouis_of(mv.take(i as int));
            assert(seen.push(oui@).drop_last() =~= seen);
            text::push_unique(&mut queries, oui);
        }
        i += 1;
    }
    assert(mv.take(i as int) =~= mv);
    queries
}

/// How long to wait before the query with the given index: the first one is
/// sent at once.
pub fn online_pause(index: usize) -> (r: Nanos)
    ensures
        r == (if index == 0 {
            0
        } else {
            ONLINE_PAUSE
        }),
{
    if index == 0 {
        0
    } else {
        ONLINE_PAUSE
    }
}

/// Each OUI among the MACs is queried online exactly once, in the order of its
/// first appearance, and nothing else is.
pub proof fn law_online_queries_are_unique(macs: Seq<Seq<char>>)
    ensures
        text::first_occurrences(ouis_of(macs)).no_duplicates(),
        forall|oui: Seq<char>|
            text::first_occurrences(ouis_of(macs)).contains(oui) <==> exists|i: int|
                0 <= i < macs.len() && #[trigger] mac::oui_text(macs[i]) == Some(oui),
{
    text::lemma_first_occurrences(ouis_of(macs));
    assert forall|oui: Seq<char>|
        text::first_occurrences(ouis_of(macs)).contains(oui) <==> exists|i: int|
            0 <= i < macs.len() && #[trigger] mac::oui_text(macs[i]) == Some(oui) by {
        lemma_ouis_of(macs, oui);
    }
}

/// Only the OUI prefix of a device is sent online: lists of MACs that agree on
/// the prefixes give the same queries.
pub proof fn law_online_sends_only_prefixes(a: Seq<Seq<char>>, b: Seq<Seq<char>>)
    requires
        a.len() == b.len(),
        forall|i: int|
            0 <= i < a.len() ==> #[trigger] mac::oui_text(a[i]) == mac::oui_text(b[i]),
    ensures
        text::first_occurrences(ouis_of(a)) == text::first_occurrences(ouis_of(b)),
{
    lemma_same_ouis(a, b);
}

proof fn lemma_same_ouis(a: Seq<Seq<char>>, b: Seq<Seq<char>>)
    requires
        a.len() == b.len(),
        forall|i: int|
            0 <= i < a.len() ==> #[trigger] mac::oui_text(a[i]) == mac::oui_text(b[i]),
    ensures
        ouis_of(a) == ouis_of(b),
    decreases a.len(),
{
    if a.len() > 0 {
        assert forall|i: int| 0 <= i < a.len() - 1 implies #[trigger] mac::oui_text(
            a.drop_last()[i],
        ) == mac::oui_text(b.drop_last()[i]) by {
            assert(mac::oui_text(a[i]) == mac::oui_text(b[i]));
        }
        lemma_same_ouis(a.drop_last(), b.drop_last());
        assert(mac::oui_text(a[a.len() - 1]) == mac::oui_text(b[a.len() - 1]));
    }
}

proof fn lemma_ouis_of(macs: Seq<Seq<char>>, oui: Seq<char>)
    ensures
        ouis_of(macs).contains(oui) <==> exists|i: int|
            0 <= i < macs.len() && #[trigger] mac::oui_text(macs[i]) == Some(oui),
    decreases macs.len(),
{
    if macs.len() > 0 {
        let before = macs.drop_last();
        lemma_ouis_of(before, oui);
        if exists|i: int| 0 <= i < before.len() && #[trigger] mac::oui_text(before[i]) == Some(oui) {
            let i = choose|i: int|
                0 <= i < before.len() && #[trigger] mac::oui_text(before[i]) == Some(oui);
            assert(mac::oui_text(macs[i]) == Some(oui));
        }
        if exists|i: int| 0 <= i < macs.len() && #[trigger] mac::oui_text(macs[i]) == Some(oui) {
            let i = choose|i: int|
                0 <= i < macs.len() && #[trigger] mac::oui_text(macs[i]) == Some(oui);
            if i < before.len() {
                assert(mac::oui_text(before[i]) == Some(oui));
            }
        }
        if let Some(last) = mac::oui_text(macs.last()) {
            text::lemma_push_contains(ouis_of(before), last, oui);
            assert(mac::oui_text(macs[macs.len() - 1]) == Some(last));
        }
    }
}

/// The command that queries the service for an OUI: only the prefix,
/// zero-padded to a full MAC, is sent.
pub open spec fn online_command_words(oui: Seq<char>) -> util::CommandWords {
    util::words_of(
        "curl"@,
        seq![
            "-s"@,
            "--max-time"@,
            "6"@,
            "-w"@,
            "\n%{http_code}"@,
            "https://api.macvendors.com/"@ + oui + ":00:00:00"@,
        ],
    )
}

/// The command that queries the macvendors.com API for an OUI.
pub fn online_command(oui: &str) -> (r: CommandLine)
    ensures
        r.deep_view() == online_command_words(oui@),
{
    let mut url = "https://api.macvendors.com/".to_owned();
    url.append(oui);
    url.append(":00:00:00");
    let args = vec![
        "-s".to_owned(),
        "--max-time".to_owned(),
        "6".to_owned(),
        "-w".to_owned(),
        "\n%{http_code}".to_owned(),
        url,
    ];
    assert(args.deep_view() =~= online_command_words(oui@).args);
    CommandLine { program: "curl".to_owned(), args }
}

/// The vendor name for an HTTP status and the text of the body.
pub open spec fn online_vendor(code: Seq<char>, body: Seq<char>) -> Seq<char> {
    if code == "200"@ {
        if body.len() > 0 {
            body
        } else {
            "Unknown"@
        }
    } else if code == "404"@ {
        "Unknown (not found online)"@
    } else if code == "429"@ {
        "rate limited — try again"@
    } else if code == "000"@ || code.len() == 0 {
        "network error (curl could not connect)"@
    } else {
        "HTTP "@ + code
    }
}

fn online_vendor_text(code: &str, body: &str) -> (r: String)
    ensures
        r@ == online_vendor(code@, body@),
{
    if text::same(code, "200") {
        if body.is_empty() {
            "Unknown".to_owned()
        } else {
            body.to_owned()
        }
    } else if text::same(code, "404") {
        "Unknown (not found online)".to_owned()
    } else if text::same(code, "429") {
        "rate limited — try again".to_owned()
    } else if text::same(code, "000") || code.is_empty() {
        "network error (curl could not connect)".to_owned()
    } else {
        let mut s = "HTTP ".to_owned();
        s.append(code);
        s
    }
}

/// The vendor name in the output of the query command: the last line is the
/// HTTP status, the lines before it are the body.
pub open spec fn online_answer(output: Seq<char>) -> Seq<char> {
    let lines = text::lines_of(output);
    if lines.len() == 0 {
        online_vendor(seq![], seq![])
    } else {
        online_vendor(
            text::trimmed(lines.last()),
            text::trimmed(text::joined(lines.drop_last(), " "@)),
        )
    }
}

/// The texts of the outcome of the query command: its output, or the reason
/// why it could not be run.
pub open spec fn outcome_texts(outcome: Result<String, String>) -> Result<Seq<char>, Seq<char>> {
    match outcome {
        Ok(output) => Ok(output@),
        Err(e) => Err(e@),
    }
}

/// The vendor name for the outcome of the query command.
pub open spec fn vendor_found(outcome: Result<Seq<char>, Seq<char>>) -> Seq<char> {
    match outcome {
        Ok(output) => online_answer(output),
        Err(e) => "cannot run curl: "@ + e,
    }
}

/// The vendor name for the outcome of the query command.
pub fn query_macvendors(outcome: &Result<String, String>) -> (r: String)
    ensures
        r@ == vendor_found(outcome_texts(*outcome)),
{
    match outcome {
        Ok(output) => {
            let mut lines = text::split_lines(output.as_str());
            let ghost lv = text::lines_of(output@);
            let code = match lines.pop() {
                Some(last) => text::trim(last.as_str()),
                None => String::new(),
            };
            proof {
                if lv.len() > 0 {
                    assert(lines.deep_view() =~= lv.drop_last());
                } else {
                    assert(code@ =~= seq![]);
                }
            }
            let body = text::trim(text::join(&lines, " ").as_str());
            online_vendor_text(code.as_str(), body.as_str())
        },
        Err(e) => {
            let mut s = "cannot run curl: ".to_owned();
            s.append(e.as_str());
            s
        },
    }
}

/// An online lookup: the OUIs to query, and how many queries were answered.
#[derive(Debug)]
pub struct OnlineLookup {
    pub queries: Vec<String>,
    pub answered: usize,
}

/// A query to make: after a pause, by running a command.
#[derive(Debug)]
pub struct OnlineQuery {
    pub pause: Nanos,
    pub command: CommandLine,
}

/// The report on the query with the given index.
pub open spec fn online_notice(
    queries: Seq<Seq<char>>,
    index: int,
    outcome: Result<Seq<char>, Seq<char>>,
) -> ArpNotice {
    ArpNotice::Vendor { oui: queries[index], vendor: vendor_found(outcome) }
}

/// The report that the lookup is done, once that many queries were answered.
pub open spec fn done_notice(queries: Seq<Seq<char>>, answered: nat) -> Seq<ArpNotice> {
    if answered == queries.len() {
        seq![ArpNotice::Done]
    } else {
        seq![]
    }
}

/// All that an online lookup has reported once its first queries had the given
/// outcomes.
pub open spec fn online_notices(
    queries: Seq<Seq<char>>,
    outcomes: Seq<Result<Seq<char>, Seq<char>>>,
) -> Seq<ArpNotice> {
    Seq::new(outcomes.len(), |i: int| online_notice(queries, i, outcomes[i])) + done_notice(
        queries,
        outcomes.len(),
    )
}

impl OnlineLookup {
    /// No more queries were answered than there are.
    pub open spec fn wf(self) -> bool {
        self.answered <= self.queries@.len()
    }

    /// An online lookup of the vendors of the given MACs, and what it reports
    /// at once: without a query to make, that it is done.
    pub fn start(macs: &Vec<String>) -> (r: (OnlineLookup, Vec<ArpEvent>))
        ensures
            r.0.wf(),
            r.0.answered == 0,
            r.0.queries.deep_view() == text::first_occurrences(ouis_of(macs.deep_view())),
            r.1.deep_view() == online_notices(r.0.queries.deep_view(), seq![]),
    {
        let queries = online_queries(macs);
        let mut events: Vec<ArpEvent> = Vec::new();
        if queries.len() == 0 {
            events.push(ArpEvent::Done);
        }
        assert(events.deep_view() =~= online_notices(queries.deep_view(), seq![]));
        (OnlineLookup { queries, answered: 0 }, events)
    }

    /// The next query to make; None after the last one.
    pub fn next_query(&self) -> (r: Option<OnlineQuery>)
        requires
            self.wf(),
        ensures
            r is Some <==> self.answered < self.queries@.len(),
            r matches Some(query) ==> {
                &&& query.pause == (if self.answered == 0 {
                    0
                } else {
                    ONLINE_PAUSE
                })
                &&& query.command.deep_view() == online_command_words(
                    self.queries.deep_view()[self.answered as int],
                )
            },
    {
        if self.answered < self.queries.len() {
            Some(
                OnlineQuery {
                    pause: online_pause(self.answered),
                    command: online_command(self.queries[self.answered].as_str()),
                },
            )
        } else {
            None
        }
    }

    /// Takes the outcome of the query that was made; what to report: the
    /// vendor, and after the last query that the lookup is done.
    pub fn on_answer(&mut self, outcome: &Result<String, String>) -> (r: Vec<ArpEvent>)
        requires
            old(self).answered < old(self).queries@.len(),
        ensures
            final(self).wf(),
            final(self).queries == old(self).queries,
            final(self).answered == old(self).answered + 1,
            r.deep_view() == seq![
                online_notice(
                    old(self).queries.deep_view(),
                    old(self).answered as int,
                    outcome_texts(*outcome),
                ),
            ] + done_notice(old(self).queries.deep_view(), (old(self).answered + 1) as nat),
    {
        let ghost queries = self.queries.deep_view();
        let ghost index = self.answered as int;
        let count: usize = self.queries.len();
        let mut events: Vec<ArpEvent> = Vec::new();
        events.push(
            ArpEvent::Vendor {
                oui: self.queries[self.answered].clone(),
                vendor: query_macvendors(outcome),
            },
        );
        self.answered = self.answered + 1;
        if self.answered == count {
            events.push(ArpEvent::Done);
        }
        assert(events.deep_view() =~= seq![
            online_notice(queries, index, outcome_texts(*outcome)),
        ] + done_notice(queries, (index + 1) as nat));
        events
    }
}

/// What a lookup has reported before an answer and what it reports on the
/// answer is all that it has reported after it.
pub proof fn law_online_reports_accumulate(
    queries: Seq<Seq<char>>,
    outcomes: Seq<Result<Seq<char>, Seq<char>>>,
    outcome: Result<Seq<char>, Seq<char>>,
)
    requires
        outcomes.len() < queries.len(),
    ensures
        online_notices(queries, outcomes.push(outcome)) == online_notices(queries, outcomes) + (
        seq![online_notice(queries, outcomes.len() as int, outcome)] + done_notice(
            queries,
            outcomes.len() + 1,
        )),
{
    assert(online_notices(queries, outcomes.push(outcome)) =~= online_notices(queries, outcomes) + (
    seq![online_notice(queries, outcomes.len() as int, outcome)] + done_notice(
        queries,
        outcomes.len() + 1,
    )));
}

/// Whatever the queries of an online lookup give, each distinct OUI among the
/// MACs gets one report with its vendor, in the order of first appearance, and
/// the report that the lookup is done comes last and once.
pub proof fn law_online_lookup_is_complete(
    macs: Seq<Seq<char>>,
    outcomes: Seq<Result<Seq<char>, Seq<char>>>,
)
    requires
        outcomes.len() == text::first_occurrences(ouis_of(macs)).len(),
    ensures
        ({
            let queries = text::first_occurrences(ouis_of(macs));
            let notices = online_notices(queries, outcomes);
            &&& queries.no_duplicates()
            &&& forall|oui: Seq<char>|
                queries.contains(oui) <==> exists|i: int|
                    0 <= i < macs.len() && #[trigger] mac::oui_text(macs[i]) == Some(oui)
            &&& notices.len() == queries.len() + 1
            &&& forall|i: int|
                0 <= i < queries.len() ==> #[trigger] notices[i] == (ArpNotice::Vendor {
                    oui: queries[i],
                    vendor: vendor_found(outcomes[i]),
                })
            &&& forall|i: int|
                0 <= i < notices.len() ==> (#[trigger] notices[i] is Done <==> i
                    == notices.len() - 1)
        }),
{
    law_online_queries_are_unique(macs);
}

// ------------------------------------------------------- What is reported

/// A company that was found is shown by its name.
pub proof fn law_vendor_shown(company: Seq<char>, e: Seq<char>)
    ensures
        vendor_shown(Ok(Some(company))) == company,
        vendor_shown(Ok(None)) == "Unknown (not in OUI database)"@,
        vendor_shown(Err(e)) == "lookup failed: "@ + e,
{
}

/// Every MAC address is reported with the first three groups of its normal form
/// and the company that the database has for its number; what is no MAC address
/// is passed over.
pub proof fn law_each_mac_is_reported(
    companies: Map<u64, Seq<char>>,
    macs: Seq<Seq<char>>,
    mac: Seq<char>,
)
    ensures
        vendor_notices(companies, seq![]).len() == 0,
        mac::normal_mac(mac) is None ==> vendor_notices(companies, macs.push(mac))
            == vendor_notices(companies, macs),
        mac::normal_mac(mac) matches Some(m) ==> vendor_notices(companies, macs.push(mac))
            == vendor_notices(companies, macs).push(
            ArpNotice::Vendor {
                oui: m.take(8),
                vendor: if companies.dom().contains(mac::mac_number(m)) {
                    companies[mac::mac_number(m)]
                } else {
                    "Unknown (not in OUI database)"@
                },
            },
        ),
{
    assert(macs.push(mac).drop_last() =~= macs);
    if let Some(m) = mac::normal_mac(mac) {
        mac::law_prefix_is_three_groups(mac);
        mac::law_normal_mac_shape(mac);
        assert(mac::oui_text(mac)->0 =~= m.take(8));
    }
}

/// Without a database there is one error, and the lookup is over.
pub proof fn law_lookup_without_database(macs: Seq<Seq<char>>)
    ensures
        lookup_notices(None, macs).len() == 2,
        lookup_notices(None, macs)[0] == ArpNotice::Error("failed to load the OUI database"@),
        lookup_notices(None, macs)[1] is Done,
{
}

/// With a database the reports are those of the MAC addresses, and then the
/// lookup is over.
pub proof fn law_lookup_with_database(companies: Map<u64, Seq<char>>, macs: Seq<Seq<char>>)
    ensures
        lookup_notices(Some(companies), macs).drop_last() == vendor_notices(companies, macs),
        lookup_notices(Some(companies), macs).last() is Done,
{
    assert(lookup_notices(Some(companies), macs).drop_last() =~= vendor_notices(companies, macs));
}

/// A prefix is asked for each MAC address, in order.
pub proof fn law_prefixes_of(macs: Seq<Seq<char>>, mac: Seq<char>)
    ensures
        ouis_of(seq![]).len() == 0,
        mac::normal_mac(mac) is None ==> ouis_of(macs.push(mac)) == ouis_of(macs),
        mac::normal_mac(mac) matches Some(m) ==> ouis_of(macs.push(mac)) == ouis_of(macs).push(
            m.take(8),
        ),
{
    assert(macs.push(mac).drop_last() =~= macs);
    mac::law_prefix_is_three_groups(mac);
    if let Some(m) = mac::normal_mac(mac) {
        mac::law_normal_mac_shape(mac);
        assert(mac::oui_text(mac)->0 =~= m.take(8));
    }
}

/// The request for a prefix is one of six words: the service is asked for the
/// prefix with three groups of zeros behind it, for six seconds at most, and the
/// answer has its code in a last line.
pub proof fn law_online_request(oui: Seq<char>, other: Seq<char>)
    ensures
        online_command_words(oui).program == "curl"@,
        online_command_words(oui).args.len() == 6,
        online_command_words(oui).args[0] == "-s"@,
        online_command_words(oui).args[1] == "--max-time"@,
        online_command_words(oui).args[2] == "6"@,
        online_command_words(oui).args[3] == "-w"@,
        online_command_words(oui).args[4] == "\n%{http_code}"@,
        online_command_words(oui).args[5] == "https://api.macvendors.com/"@ + oui + ":00:00:00"@,
        oui != other ==> online_command_words(oui).args[5] != online_command_words(other).args[5],
{
    let x = online_command_words(oui).args[5];
    let y = online_command_words(other).args[5];
    if x == y {
        let n = "https://api.macvendors.com/"@.len() as int;
        assert(x.len() == n + oui.len() + ":00:00:00"@.len());
        assert(y.len() == n + other.len() + ":00:00:00"@.len());
        assert(oui =~= x.subrange(n, n + oui.len()));
        assert(other =~= y.subrange(n, n + other.len()));
    }
}

/// An answer of one line and a code in the next is read by its code: with 200 the
/// line is the vendor, with 404 there is none, with 429 the service wants a
/// pause, without a connection the network failed, and other codes are shown.
pub proof fn law_online_answer(body: Seq<char>, code: Seq<char>)
    requires
        body.len() > 0,
        !body.contains('\n'),
        !text::is_space(body[0]) && !text::is_space(body.last()),
        code.len() > 0,
        !code.contains('\n'),
        !text::is_space(code[0]) && !text::is_space(code.last()),
    ensures
        code == "200"@ ==> online_answer(body + "\n"@ + code) == body,
        code == "404"@ ==> online_answer(body + "\n"@ + code) == "Unknown (not found online)"@,
        code == "429"@ ==> online_answer(body + "\n"@ + code) == "rate limited — try again"@,
        code == "000"@ ==> online_answer(body + "\n"@ + code)
            == "network error (curl could not connect)"@,
        code != "200"@ && code != "404"@ && code != "429"@ && code != "000"@ ==> online_answer(
            body + "\n"@ + code,
        ) == "HTTP "@ + code,
{
    reveal_strlit("\n");
    reveal_strlit("200");
    reveal_strlit("404");
    reveal_strlit("429");
    reveal_strlit("000");
    assert("\n"@ =~= seq!['\n']);
    let none = Seq::<char>::empty();
    let output = body + "\n"@ + code;
    text::law_first_line(body, code);
    text::law_first_line(code, none);
    let lines = text::lines_of(output);
    assert(lines =~= seq![body, code]);
    assert(lines.drop_last() =~= seq![body]);
    assert(text::joined(lines.drop_last(), " "@) == body);
    text::law_trimmed(none, body, none);
    text::law_trimmed(none, code, none);
    assert(none + body + none =~= body);
    assert(none + code + none =~= code);
    let c2 = "200"@;
    let c4 = "404"@;
    let c9 = "429"@;
    let c0 = "000"@;
    assert(c2[0] == '2' && c4[0] == '4' && c4[1] == '0' && c9[0] == '4' && c9[1] == '2' && c0[0]
        == '0');
}

/// An answer that is empty is one of a failed network, and a command that could
/// not be run is told with its reason.
pub proof fn law_online_failures(e: Seq<char>, output: Seq<char>)
    ensures
        online_answer(seq![]) == "network error (curl could not connect)"@,
        vendor_found(Err(e)) == "cannot run curl: "@ + e,
        vendor_found(Ok(output)) == online_answer(output),
{
    reveal_strlit("200");
    reveal_strlit("404");
    reveal_strlit("429");
}

/// An answer of two lines and a code is read as the two lines with a blank
/// between them.
pub proof fn law_online_answer_of_lines(first: Seq<char>, second: Seq<char>)
    requires
        first.len() > 0 && second.len() > 0,
        !first.contains('\n') && !second.contains('\n'),
        !text::is_space(first[0]) && !text::is_space(first.last()),
        !text::is_space(second[0]) && !text::is_space(second.last()),
    ensures
        online_answer(first + "\n"@ + (second + "\n"@ + "200"@)) == first + " "@ + second,
{
    reveal_strlit("\n");
    reveal_strlit("200");
    reveal_strlit(" ");
    assert("\n"@ =~= seq!['\n']);
    let none = Seq::<char>::empty();
    let code = "200"@;
    let rest = second + "\n"@ + code;
    assert(!code.contains('\n')) by {
        if code.contains('\n') {
            let i = choose|i: int| 0 <= i < code.len() && code[i] == '\n';
            assert(i == 0 || i == 1 || i == 2);
        }
    }
    text::law_first_line(first, rest);
    text::law_first_line(second, code);
    text::law_first_line(code, none);
    let lines = text::lines_of(first + "\n"@ + rest);
    assert(lines =~= seq![first, second, code]);
    assert(lines.drop_last() =~= seq![first] + seq![second]);
    text::law_joined_first(first, seq![second], " "@);
    text::law_joined_first(second, seq![], " "@);
    let body = first + " "@ + second;
    assert(body[0] == first[0] && body.last() == second.last());
    text::law_trimmed(none, body, none);
    assert(none + body + none =~= body);
    assert(code[0] == '2' && code[2] == '0');
    text::law_trimmed(none, code, none);
    assert(none + code + none =~= code);
}

/// A code of success without a vendor tells of none.
pub proof fn law_online_answer_without_vendor()
    ensures
        online_answer("\n200"@) == "Unknown"@,
{
    reveal_strlit("\n200");
    reveal_strlit("200");
    let none = Seq::<char>::empty();
    let code = "200"@;
    assert("\n200"@ =~= none + seq!['\n'] + code);
    assert(!code.contains('\n')) by {
        if code.contains('\n') {
            let i = choose|i: int| 0 <= i < code.len() && code[i] == '\n';
            assert(i == 0 || i == 1 || i == 2);
        }
    }
    text::law_first_line(none, code);
    text::law_first_line(code, none);
    let lines = text::lines_of("\n200"@);
    assert(lines =~= seq![none, code]);
    assert(lines.drop_last() =~= seq![none]);
    text::law_trimmed(none, none, none);
    assert(none + none + none =~= none);
    assert(code[0] == '2' && code[2] == '0');
    text::law_trimmed(none, code, none);
    assert(none + code + none =~= code);
}

/// What a command gave back is kept as text.
pub proof fn law_outcome_texts(output: String, e: String)
    ensures
        outcome_texts(Ok(output)) == Ok::<Seq<char>, Seq<char>>(output@),
        outcome_texts(Err(e)) == Err::<Seq<char>, Seq<char>>(e@),
{
}

/// An answer has its code in the last line and the vendor in the lines before it,
/// with blanks between them; white space around either is ignored.
pub proof fn law_online_answer_by_lines(
    output: Seq<char>,
    body: Seq<Seq<char>>,
    last: Seq<char>,
)
    requires
        text::lines_of(output) == body.push(last),
    ensures
        online_answer(output) == online_vendor(
            text::trimmed(last),
            text::trimmed(text::joined(body, " "@)),
        ),
{
    assert(body.push(last).drop_last() =~= body);
}

/// What a code means, whatever came with it.
pub proof fn law_online_codes(code: Seq<char>, body: Seq<char>)
    ensures
        body.len() > 0 ==> online_vendor("200"@, body) == body,
        body.len() == 0 ==> online_vendor("200"@, body) == "Unknown"@,
        online_vendor("404"@, body) == "Unknown (not found online)"@,
        online_vendor("429"@, body) == "rate limited — try again"@,
        online_vendor("000"@, body) == "network error (curl could not connect)"@,
        online_vendor(seq![], body) == "network error (curl could not connect)"@,
        code.len() > 0 && code != "200"@ && code != "404"@ && code != "429"@ && code != "000"@
            ==> online_vendor(code, body) == "HTTP "@ + code,
{
    reveal_strlit("200");
    reveal_strlit("404");
    reveal_strlit("429");
    reveal_strlit("000");
    let c2 = "200"@;
    let c4 = "404"@;
    let c9 = "429"@;
    let c0 = "000"@;
    assert(c2[0] == '2' && c4[0] == '4' && c4[1] == '0' && c9[0] == '4' && c9[1] == '2' && c0[0]
        == '0');
}

/// The service takes one request in a second: the pause between two is longer.
pub proof fn law_online_pause()
    ensures
        ONLINE_PAUSE == 1_100_000_000,
        ONLINE_PAUSE > 1_000_000_000,
{
}

} // verus!
