use rustytools::arp::ArpEvent;
use rustytools::vendors::{
    lookup_vendors, online_command, online_pause, online_queries, query_macvendors, vendor_text,
    warm_oui_db, OnlineLookup, OuiDb, VendorTable,
};

fn strings(items: &[&str]) -> Vec<String> {
    items.iter().map(|s| s.to_string()).collect()
}

#[test]
fn oui_database_lookup() {
    // 00:00:0c is Cisco's historic OUI — a stable fixture to validate the
    // embedded database and our full-MAC lookup usage.
    let db = mac_oui::Oui::default().expect("embedded OUI database must load");
    let entry = db
        .lookup_by_mac("00:00:0c:12:34:56")
        .expect("lookup must not fail")
        .expect("Cisco OUI must be present");
    assert!(entry.company_name.to_lowercase().contains("cisco"), "{}", entry.company_name);
}

#[test]
fn vendors_from_the_embedded_database() {
    let mut db = OuiDb::new();
    warm_oui_db(&mut db);
    let events = lookup_vendors(&mut db, &strings(&["0:0:C:12:34:56", "nothing", "02:00:00:00:00:01"]));
    assert_eq!(events.len(), 3);
    match &events[0] {
        ArpEvent::Vendor { oui, vendor } => {
            assert_eq!(oui, "00:00:0c");
            assert!(vendor.to_lowercase().contains("cisco"), "{vendor}");
        }
        other => panic!("{other:?}"),
    }
    match &events[1] {
        ArpEvent::Vendor { oui, vendor } => {
            assert_eq!(oui, "02:00:00");
            assert_eq!(vendor, "Unknown (not in OUI database)");
        }
        other => panic!("{other:?}"),
    }
    assert!(matches!(events[2], ArpEvent::Done));
}

#[test]
fn vendor_texts() {
    assert_eq!(vendor_text(&Ok(Some("Acme".to_string()))), "Acme");
    assert_eq!(vendor_text(&Ok(None)), "Unknown (not in OUI database)");
    assert_eq!(vendor_text(&Err("bad".to_string())), "lookup failed: bad");
}

#[test]
fn vendor_table_keeps_the_last_value() {
    let mut t = VendorTable::new();
    assert_eq!(t.get("a4:2b:b0"), None);
    t.insert("a4:2b:b0".to_string(), "First".to_string());
    t.insert("00:00:0c".to_string(), "Cisco".to_string());
    t.insert("a4:2b:b0".to_string(), "Second".to_string());
    assert_eq!(t.get("a4:2b:b0"), Some("Second"));
    assert_eq!(t.get("00:00:0c"), Some("Cisco"));
}

#[test]
fn online_queries_are_unique_prefixes() {
    let macs = strings(&["a4:2b:b0:1:2:3", "x", "00:00:0c:1:2:3", "A4-2B-B0-99-99-99"]);
    assert_eq!(online_queries(&macs), ["a4:2b:b0", "00:00:0c"]);
    let other = strings(&["a4:2b:b0:f:f:f", "y", "00:00:0c:0:0:0", "A4-2B-B0-00-00-00"]);
    assert_eq!(online_queries(&other), online_queries(&macs));
    assert_eq!(online_pause(0), 0);
    assert_eq!(online_pause(1), 1_100_000_000);
}

#[test]
fn online_query_command() {
    let c = online_command("a4:2b:b0");
    assert_eq!(c.program, "curl");
    assert_eq!(
        c.args,
        [
            "-s",
            "--max-time",
            "6",
            "-w",
            "\n%{http_code}",
            "https://api.macvendors.com/a4:2b:b0:00:00:00"
        ]
    );
}

#[test]
fn online_answers() {
    let ok = |s: &str| query_macvendors(&Ok(s.to_string()));
    assert_eq!(ok("Acme Corp\n200"), "Acme Corp");
    assert_eq!(ok(" Acme\nCorp \n200\n"), "Acme Corp");
    assert_eq!(ok("\n200"), "Unknown");
    assert_eq!(ok("{}\n404"), "Unknown (not found online)");
    assert_eq!(ok("slow down\n429"), "rate limited — try again");
    assert_eq!(ok("\n000"), "network error (curl could not connect)");
    assert_eq!(ok(""), "network error (curl could not connect)");
    assert_eq!(ok("oops\n503"), "HTTP 503");
    assert_eq!(query_macvendors(&Err("no such file".to_string())), "cannot run curl: no such file");
}

#[test]
fn online_lookup_reports_each_oui_and_ends() {
    let macs = strings(&["a4:2b:b0:1:2:3", "x", "00:00:0c:1:2:3", "A4-2B-B0-99-99-99"]);
    let (mut lookup, events) = OnlineLookup::start(&macs);
    assert!(events.is_empty());
    let query = lookup.next_query().unwrap();
    assert_eq!(query.pause, 0);
    assert_eq!(query.command.args[5], "https://api.macvendors.com/a4:2b:b0:00:00:00");
    let events = lookup.on_answer(&Ok("Acme\n200".to_string()));
    assert_eq!(events.len(), 1);
    assert!(matches!(&events[0], ArpEvent::Vendor { oui, vendor } if oui == "a4:2b:b0" && vendor == "Acme"));
    let query = lookup.next_query().unwrap();
    assert_eq!(query.pause, 1_100_000_000);
    assert_eq!(query.command.args[5], "https://api.macvendors.com/00:00:0c:00:00:00");
    let events = lookup.on_answer(&Err("gone".to_string()));
    assert_eq!(events.len(), 2);
    assert!(matches!(&events[0], ArpEvent::Vendor { oui, vendor }
        if oui == "00:00:0c" && vendor == "cannot run curl: gone"));
    assert!(matches!(events[1], ArpEvent::Done));
    assert!(lookup.next_query().is_none());
    let (lookup, events) = OnlineLookup::start(&strings(&["x"]));
    assert!(lookup.next_query().is_none());
    assert!(matches!(events[..], [ArpEvent::Done]));
}

#[test]
fn first_lookup_loads_the_database() {
    let events = lookup_vendors(&mut OuiDb::new(), &strings(&["00:00:0c:12:34:56"]));
    assert_eq!(events.len(), 2);
    assert!(matches!(&events[0], ArpEvent::Vendor { vendor, .. } if vendor.to_lowercase().contains("cisco")));
    assert!(matches!(events[1], ArpEvent::Done));
}
