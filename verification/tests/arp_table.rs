use rustytools::arp::{
    entry_vendor, export, export_text, fallback_format, gather, is_reachable, parse_bsd_arp, parse_ip_neigh,
    parse_windows_arp, table_command, table_format, unresolved, ArpEntry, TableFormat,
};
use rustytools::mac::{normalize_mac, oui_of};
use rustytools::util::{Captured, Os};
use rustytools::vendors::VendorTable;

fn output(stdout: &str, stderr: &str) -> Captured {
    Captured::Output { stdout: stdout.to_string(), stderr: stderr.to_string() }
}

fn entry(ip: &str, mac: &str, iface: &str, state: &str) -> ArpEntry {
    ArpEntry {
        ip: ip.to_string(),
        mac: mac.to_string(),
        iface: iface.to_string(),
        state: state.to_string(),
    }
}

#[test]
fn mac_normalization() {
    // macOS arp drops leading zeros; Windows uses dashes.
    assert_eq!(normalize_mac("a4:2b:b0:1:2:3").as_deref(), Some("a4:2b:b0:01:02:03"));
    assert_eq!(normalize_mac("A4-2B-B0-11-22-33").as_deref(), Some("a4:2b:b0:11:22:33"));
    assert_eq!(normalize_mac("(incomplete)"), None);
    assert_eq!(oui_of("A4-2B-B0-11-22-33").as_deref(), Some("a4:2b:b0"));
}

#[test]
fn mac_edge_cases() {
    assert_eq!(normalize_mac("  0:0:0:0:0:0 ").as_deref(), Some("00:00:00:00:00:00"));
    assert_eq!(normalize_mac(":::::").as_deref(), Some("00:00:00:00:00:00"));
    assert_eq!(normalize_mac("a4:2b:b0:11:22"), None);
    assert_eq!(normalize_mac("a4:2b:b0:11:22:33:44"), None);
    assert_eq!(normalize_mac("a4:2b:b0:11:22:333"), None);
    assert_eq!(normalize_mac("a4:2b:b0:11:22:3g"), None);
    assert_eq!(normalize_mac(""), None);
    assert_eq!(oui_of("nothing"), None);
    // A normalized address stays as it is.
    let once = normalize_mac("A-B-C-D-E-F").unwrap();
    assert_eq!(once, "0a:0b:0c:0d:0e:0f");
    assert_eq!(normalize_mac(&once), Some(once));
}

#[test]
fn bsd_arp_parsing() {
    let raw = "? (192.168.1.1) at a4:2b:b0:1:22:33 on en0 ifscope [ethernet]\n\
               ? (192.168.1.50) at (incomplete) on en0 ifscope [ethernet]\n";
    let entries = parse_bsd_arp(raw);
    assert_eq!(entries.len(), 2);
    assert_eq!(entries[0].ip, "192.168.1.1");
    assert_eq!(entries[0].mac, "a4:2b:b0:01:22:33");
    assert_eq!(entries[0].iface, "en0");
    assert_eq!(entries[1].state, "incomplete");
}

#[test]
fn bsd_arp_details() {
    let entries = parse_bsd_arp("no address here\nhost (10.0.0.1)\r\n\n? ((1.2.3.4)) at 1:2:3:4:5:6");
    assert_eq!(entries.len(), 2);
    assert_eq!(entries[0].ip, "10.0.0.1");
    assert_eq!(entries[0].mac, "(incomplete)");
    assert_eq!(entries[0].iface, "?");
    assert_eq!(entries[0].state, "incomplete");
    assert_eq!(entries[1].ip, "1.2.3.4");
    assert_eq!(entries[1].mac, "01:02:03:04:05:06");
    assert_eq!(entries[1].state, "reachable");
}

#[test]
fn ip_neigh_parsing() {
    let raw = "192.168.1.1 dev eth0 lladdr a4:2b:b0:11:22:33 REACHABLE\n\
               fe80::1 dev eth0 lladdr a4:2b:b0:11:22:34 router STALE\n\
               192.168.1.9 dev eth0  FAILED\n\
               192.168.1.8 dev eth0 lladdr a4:2b:b0:11:22:35 used 5\n\
               garbage dev eth0\n";
    let entries = parse_ip_neigh(raw);
    assert_eq!(entries.len(), 4);
    assert_eq!(entries[0].mac, "a4:2b:b0:11:22:33");
    assert_eq!(entries[0].iface, "eth0");
    assert_eq!(entries[0].state, "reachable");
    assert_eq!(entries[1].ip, "fe80::1");
    assert_eq!(entries[1].state, "stale");
    assert_eq!(entries[2].mac, "(incomplete)");
    assert_eq!(entries[2].state, "failed");
    assert_eq!(entries[3].state, "?");
}

#[test]
fn windows_arp_parsing() {
    let raw = "\nInterface: 192.168.1.10 --- 0x4\n\
               \x20 Internet Address      Physical Address      Type\n\
               \x20 192.168.1.1           a4-2b-b0-11-22-33     dynamic\n\
               \x20 192.168.1.255         ff-ff-ff-ff-ff-ff     static\n\
               \nInterface: 10.0.0.2 --- 0x5\n\
               \x20 10.0.0.1              a4-2b-b0-11-22-34     dynamic\n";
    let entries = parse_windows_arp(raw);
    assert_eq!(entries.len(), 3);
    assert_eq!(entries[0].ip, "192.168.1.1");
    assert_eq!(entries[0].iface, "192.168.1.10");
    assert_eq!(entries[0].state, "dynamic");
    assert_eq!(entries[2].iface, "10.0.0.2");
}

#[test]
fn inventory_is_filtered_and_sorted() {
    let raw = "? (192.168.1.20) at 1:1:1:1:1:1 on en0\n\
               ? (224.0.0.251) at 1:0:5e:0:0:fb on en0\n\
               ? (255.255.255.255) at 2:2:2:2:2:2 on en0\n\
               ? (192.168.1.255) at ff:ff:ff:ff:ff:ff on en0\n\
               ? (unknown) at 3:3:3:3:3:3 on en0\n\
               ? (192.168.1.3) at 4:4:4:4:4:4 on en0\n\
               ? (192.168.1.20) at 5:5:5:5:5:5 on en1\n";
    let (entries, shown) = gather(TableFormat::Bsd, &output(raw, ""));
    assert_eq!(shown, raw);
    let ips: Vec<&str> = entries.iter().map(|e| e.ip.as_str()).collect();
    // What is no address comes first, equal addresses keep their order.
    assert_eq!(ips, ["unknown", "192.168.1.3", "192.168.1.20", "192.168.1.20"]);
    assert_eq!(entries[2].iface, "en0");
    assert_eq!(entries[3].iface, "en1");
}

#[test]
fn inventory_of_other_formats() {
    let raw = "ff02::1 dev eth0 lladdr 33:33:00:00:00:01 NOARP\n10.0.0.9 dev eth0 STALE\n\
               ::1 dev lo lladdr 0:0:0:0:0:0 NOARP\n10.0.0.10 dev eth0 STALE\n";
    let (entries, _) = gather(TableFormat::IpNeigh, &output(raw, ""));
    let ips: Vec<&str> = entries.iter().map(|e| e.ip.as_str()).collect();
    assert_eq!(ips, ["10.0.0.9", "10.0.0.10", "::1"]);
    let (entries, shown) = gather(TableFormat::Windows, &output("", ""));
    assert_eq!((entries.len(), shown.as_str()), (0, "(arp: no output)"));
    let failed = Captured::Failed { reason: "missing (here)".to_string() };
    let (entries, shown) = gather(TableFormat::Bsd, &failed);
    assert_eq!((entries.len(), shown.as_str()), (0, "Cannot run `arp`: missing (here)"));
}

#[test]
fn table_commands() {
    assert_eq!(table_format(Os::MacOs), TableFormat::Bsd);
    assert_eq!(table_format(Os::Windows), TableFormat::Windows);
    assert_eq!(table_format(Os::Unix), TableFormat::IpNeigh);
    let c = table_command(TableFormat::IpNeigh);
    assert_eq!(c.program, "ip");
    assert_eq!(c.args, ["neigh", "show"]);
    let c = table_command(TableFormat::Bsd);
    assert_eq!((c.program.as_str(), c.args[0].as_str()), ("arp", "-an"));
    let c = table_command(TableFormat::Windows);
    assert_eq!((c.program.as_str(), c.args[0].as_str()), ("arp", "-a"));
    assert_eq!(
        fallback_format(TableFormat::IpNeigh, "Cannot run `ip`: not found"),
        Some(TableFormat::Bsd)
    );
    assert_eq!(fallback_format(TableFormat::IpNeigh, "10.0.0.1 dev eth0"), None);
    assert_eq!(fallback_format(TableFormat::Bsd, "Cannot run `arp`: not found"), None);
}

#[test]
fn reachable_entries() {
    let mac = "a4:2b:b0:11:22:33";
    assert!(is_reachable(&entry("10.0.0.1", mac, "en0", "reachable")));
    assert!(is_reachable(&entry("10.0.0.1", mac, "en0", "stale")));
    assert!(is_reachable(&entry("10.0.0.1", mac, "en0", "dynamic")));
    assert!(!is_reachable(&entry("10.0.0.1", mac, "en0", "incomplete")));
    assert!(!is_reachable(&entry("10.0.0.1", mac, "en0", "failed")));
    assert!(!is_reachable(&entry("10.0.0.1", mac, "en0", "none")));
    assert!(!is_reachable(&entry("10.0.0.1", "(incomplete)", "en0", "reachable")));
}

#[test]
fn exported_table() {
    let entries = vec![
        entry("10.0.0.1", "a4:2b:b0:11:22:33", "eth0", "reachable"),
        entry("10.0.0.2", "(incomplete)", "eth0", "failed"),
    ];
    let mut vendors = VendorTable::new();
    vendors.insert("a4:2b:b0".to_string(), "Acme".to_string());
    let text = export_text(&entries, &vendors, "raw text", "2026-06-11 14:03:27.123");
    let mut expected = String::from("ARP TABLE — generated 2026-06-11 14:03:27.123\n\n");
    for (a, b, c, d, e) in [
        ("IP", "MAC", "Vendor", "Interface", "State"),
        ("10.0.0.1", "a4:2b:b0:11:22:33", "Acme", "eth0", "reachable"),
        ("10.0.0.2", "(incomplete)", "-", "eth0", "failed"),
    ] {
        expected.push_str(&format!("{a:<40} {b:<18} {c:<30} {d:<10} {e}\n"));
    }
    expected.push_str("\n=== RAW OUTPUT ===\nraw text");
    assert_eq!(text, expected);
    let now = "2026-06-11 14:03:27.123";
    let file = export(&entries, &vendors, "raw text", now, "/var/log", "20260611_140327");
    assert_eq!(file.parts, ["/var/log", "arp", "arp_20260611_140327.txt"]);
    assert_eq!(file.text, expected);
}

#[test]
fn vendors_of_entries() {
    let entries = vec![
        entry("10.0.0.1", "a4:2b:b0:11:22:33", "eth0", "reachable"),
        entry("10.0.0.2", "(incomplete)", "eth0", "failed"),
        entry("10.0.0.3", "00:00:0c:11:22:33", "eth0", "reachable"),
    ];
    let mut vendors = VendorTable::new();
    assert_eq!(unresolved(&entries, &vendors), ["a4:2b:b0", "00:00:0c"]);
    vendors.insert("a4:2b:b0".to_string(), "Acme".to_string());
    assert_eq!(unresolved(&entries, &vendors), ["00:00:0c"]);
    assert_eq!(entry_vendor(&entries[0], &vendors), Some("Acme"));
    assert_eq!(entry_vendor(&entries[1], &vendors), None);
    assert_eq!(entry_vendor(&entries[2], &vendors), None);
}
