use rustytools::netconfig::{
    domain_and_dns, export, fallback_route_format, file_section, gather, gather_routes, is_ipv6_route,
    parse_routes_bsd, parse_routes_iproute, parse_routes_win, prefix_to_mask, raw_sections, report_text,
    route_command, route_format, second_route_command, token_after, windows_domain, Gateway, RawInterface,
    RawSource, RouteFormat,
};
use rustytools::ip::{format_ipv4, parse_ipv4};
use rustytools::util::{Captured, Os};

fn output(stdout: &str, stderr: &str) -> Captured {
    Captured::Output { stdout: stdout.to_string(), stderr: stderr.to_string() }
}

fn interface(name: &str, is_up: bool, is_default: bool, dns: &[&str]) -> RawInterface {
    RawInterface {
        name: name.to_string(),
        friendly_name: None,
        mac: None,
        ipv4: Vec::new(),
        ipv6: Vec::new(),
        gateway: None,
        is_up,
        is_default,
        if_type: "Ethernet".to_string(),
        dns: dns.iter().map(|d| d.to_string()).collect(),
    }
}

#[test]
fn masks() {
    assert_eq!(format_ipv4(prefix_to_mask(0)), "0.0.0.0");
    assert_eq!(format_ipv4(prefix_to_mask(8)), "255.0.0.0");
    assert_eq!(format_ipv4(prefix_to_mask(22)), "255.255.252.0");
    assert_eq!(format_ipv4(prefix_to_mask(32)), "255.255.255.255");
    assert_eq!(format_ipv4(prefix_to_mask(200)), "255.255.255.255");
}

#[test]
fn tokens_after_a_key() {
    let t: Vec<String> = "a via b via c".split(' ').map(|s| s.to_string()).collect();
    assert_eq!(token_after(&t, "via").as_deref(), Some("b"));
    assert_eq!(token_after(&t, "c"), None);
    assert_eq!(token_after(&t, "x"), None);
}

#[test]
fn bsd_routes() {
    let raw = "Routing tables\n\nInternet:\n\
               Destination        Gateway            Flags        Netif Expire\n\
               default            192.168.1.254      UGSc           en0\n\
               127                127.0.0.1          UCS            lo0\n\
               short line\n\
               \nInternet6:\n\
               Destination  Gateway  Flags  Netif\n\
               default  fe80::1%en0  UGc  en0\n\n\
               after the table it ends\n";
    let routes = parse_routes_bsd(raw);
    assert_eq!(routes.len(), 3);
    assert_eq!(routes[0].destination, "default");
    assert_eq!(routes[0].gateway, "192.168.1.254");
    assert_eq!(routes[0].interface, "en0");
    assert_eq!(routes[0].info, "flags UGSc");
    assert_eq!(routes[2].gateway, "fe80::1%en0");
    assert!(is_ipv6_route(&routes[2]));
    assert!(!is_ipv6_route(&routes[0]));
}

#[test]
fn iproute_routes() {
    let raw = "# IPv4\ndefault via 192.168.1.1 dev eth0 proto dhcp src 192.168.1.10 metric 100\n\
               10.0.0.0/8 dev eth1 scope link\n\nunreachable 1.2.3.4\n# IPv6\n::1 dev lo metric 256\n";
    let routes = parse_routes_iproute(raw);
    assert_eq!(routes.len(), 4);
    assert_eq!(routes[0].gateway, "192.168.1.1");
    assert_eq!(routes[0].interface, "eth0");
    assert_eq!(routes[0].info, "proto dhcp, metric 100, src 192.168.1.10");
    assert_eq!(routes[1].gateway, "on-link");
    assert_eq!(routes[1].info, "scope link");
    assert_eq!(routes[2].interface, "?");
    assert_eq!(routes[2].info, "");
    assert_eq!(routes[3].destination, "::1");
}

#[test]
fn windows_routes() {
    let raw = "Interface List\n===\nIPv4 Route Table\n===\nActive Routes:\n\
               Network Destination        Netmask          Gateway       Interface  Metric\n\
               \x20         0.0.0.0          0.0.0.0      192.168.1.1    192.168.1.10     35\n\
               \x20       127.0.0.0        255.0.0.0         On-link         127.0.0.1    331\n\
               ===\n\
               10.0.0.0  255.0.0.0  1.1.1.1  2.2.2.2  1\n\
               Persistent Routes:\n  None\n";
    let routes = parse_routes_win(raw);
    assert_eq!(routes.len(), 2);
    assert_eq!(routes[0].destination, "0.0.0.0 0.0.0.0");
    assert_eq!(routes[0].gateway, "192.168.1.1");
    assert_eq!(routes[0].interface, "192.168.1.10");
    assert_eq!(routes[0].info, "metric 35");
    assert_eq!(routes[1].gateway, "On-link");
}

#[test]
fn route_commands() {
    assert_eq!(route_format(Os::Windows), RouteFormat::RoutePrint);
    assert_eq!(route_format(Os::MacOs), RouteFormat::Netstat);
    assert_eq!(route_format(Os::Unix), RouteFormat::IpRoute);
    assert_eq!(route_command(RouteFormat::IpRoute).args, ["route", "show"]);
    assert_eq!(route_command(RouteFormat::Netstat).program, "netstat");
    assert_eq!(route_command(RouteFormat::RoutePrint).args, ["print"]);
    assert_eq!(second_route_command(RouteFormat::IpRoute).unwrap().args, ["-6", "route", "show"]);
    assert!(second_route_command(RouteFormat::Netstat).is_none());
    assert_eq!(
        fallback_route_format(RouteFormat::IpRoute, "Cannot run `ip`: x"),
        Some(RouteFormat::Netstat)
    );
    assert_eq!(fallback_route_format(RouteFormat::IpRoute, "default via 1.1.1.1"), None);
    let (routes, raw) = gather_routes(
        RouteFormat::IpRoute,
        &output("default via 1.1.1.1 dev e", ""),
        &Some(output("::1 dev lo", "")),
    );
    assert_eq!(raw, "# IPv4\ndefault via 1.1.1.1 dev e\n# IPv6\n::1 dev lo");
    assert_eq!(routes.len(), 2);
    let (routes, raw) = gather_routes(RouteFormat::Netstat, &output("nothing", ""), &None);
    assert_eq!((routes.len(), raw.as_str()), (0, "nothing"));
    let (routes, _) = gather_routes(RouteFormat::RoutePrint, &output("Active Routes:\n1.0.0.0 a b c d", ""), &None);
    assert_eq!(routes.len(), 1);
}

#[test]
fn notes_are_no_routes() {
    let v4 = output("default via 10.0.0.1 dev eth0\n", "");
    let (routes, raw) = gather_routes(RouteFormat::IpRoute, &v4, &Some(output("", "")));
    assert_eq!(routes.len(), 1);
    assert_eq!(routes[0].destination, "default");
    assert_eq!(routes[0].gateway, "10.0.0.1");
    assert_eq!(routes[0].interface, "eth0");
    assert_eq!(raw, "# IPv4\ndefault via 10.0.0.1 dev eth0\n\n# IPv6\n(ip: no output)");
    let failed = Captured::Failed { reason: "not found".to_string() };
    let (routes, raw) = gather_routes(RouteFormat::IpRoute, &v4, &Some(failed));
    assert_eq!(routes.len(), 1);
    assert!(raw.ends_with("Cannot run `ip`: not found"));
    let (routes, raw) = gather_routes(RouteFormat::IpRoute, &output(" \n", " "), &None);
    assert_eq!((routes.len(), raw.as_str()), (0, "(ip: no output)"));
    let both = output("default via 10.0.0.1 dev eth0\n", "10.0.0.0/8 dev eth1");
    assert_eq!(gather_routes(RouteFormat::IpRoute, &both, &None).0.len(), 2);
}

#[test]
fn resolver_configuration() {
    let (domain, dns) = domain_and_dns(
        "# comment\nsearch first.example second.example\nnameserver 10.0.0.1\n  nameserver  10.0.0.2 \nnameserver\n",
    );
    assert_eq!(domain.as_deref(), Some("first.example"));
    assert_eq!(dns, ["10.0.0.1", "10.0.0.2"]);
    let (domain, _) = domain_and_dns("domain a.example\nsearch b.example\ndomain c.example");
    assert_eq!(domain.as_deref(), Some("c.example"));
    assert_eq!(domain_and_dns(""), (None, Vec::new()));
    assert_eq!(windows_domain(Some(String::new())), None);
    assert_eq!(windows_domain(Some("corp".to_string())).as_deref(), Some("corp"));
    assert_eq!(windows_domain(None), None);
}

#[test]
fn sections_of_platforms() {
    let unix = raw_sections(Os::Unix);
    assert_eq!(unix.len(), 3);
    assert_eq!(unix[0].0, "ip addr");
    assert!(matches!(&unix[2].1, RawSource::File(p) if p == "/etc/resolv.conf"));
    let mac = raw_sections(Os::MacOs);
    assert!(matches!(&mac[2].1, RawSource::Command(c) if c.program == "scutil" && c.args == ["--dns"]));
    assert_eq!(raw_sections(Os::Windows)[0].0, "ipconfig /all");
    assert_eq!(file_section(&Ok("text".to_string())), "text");
    assert_eq!(file_section(&Err("gone".to_string())), "could not read: gone");
}

#[test]
fn gathered_report() {
    let mut eth = interface("eth0", true, true, &["10.0.0.1", "10.0.0.2"]);
    eth.friendly_name = Some("Office".to_string());
    eth.mac = Some("a4:2b:b0:11:22:33".to_string());
    eth.ipv4 = vec![(parse_ipv4("192.168.1.10").unwrap(), 24)];
    eth.ipv6 = vec![("fe80::1".to_string(), 64)];
    eth.gateway = Some(Gateway {
        ipv4: vec![parse_ipv4("192.168.1.1").unwrap()],
        ipv6: vec!["fe80::2".to_string()],
        mac: "00:00:0c:11:22:33".to_string(),
    });
    let raws = vec![
        interface("zz", true, false, &[]),
        interface("aa", false, false, &["10.0.0.2"]),
        interface("bb", true, false, &[]),
        eth,
    ];
    let (routes, routes_raw) = gather_routes(RouteFormat::IpRoute, &output("default via 192.168.1.1 dev eth0", ""), &None);
    let report = gather(
        "host".to_string(),
        "now".to_string(),
        &raws,
        Some("corp".to_string()),
        &vec!["10.0.0.1".to_string(), "9.9.9.9".to_string()],
        routes,
        routes_raw,
        vec![("title".to_string(), "content".to_string())],
    );
    let names: Vec<&str> = report.interfaces.iter().map(|i| i.name.as_str()).collect();
    assert_eq!(names, ["eth0", "bb", "zz", "aa"]);
    assert_eq!(report.dns_servers, ["10.0.0.2", "10.0.0.1", "9.9.9.9"]);
    assert_eq!(report.interfaces[0].ipv4, ["192.168.1.10/24 (mask 255.255.255.0)"]);
    assert_eq!(report.interfaces[0].ipv6, ["fe80::1/64"]);
    assert_eq!(
        report.interfaces[0].gateway.as_deref(),
        Some("192.168.1.1, fe80::2 (MAC 00:00:0c:11:22:33)")
    );
    let mut expected = String::from(
        "NETWORK CONFIGURATION REPORT — generated now\n\n\
         Hostname : host\nDomain   : corp\nDNS      : 10.0.0.2, 10.0.0.1, 9.9.9.9\n\n\
         === INTERFACES ===\n\
         \n[eth0] (Office)  [default interface]\n  State   : UP\n  Type    : Ethernet\n\
         \x20 MAC     : a4:2b:b0:11:22:33\n  IPv4    : 192.168.1.10/24 (mask 255.255.255.0)\n\
         \x20 IPv6    : fe80::1/64\n  Gateway : 192.168.1.1, fe80::2 (MAC 00:00:0c:11:22:33)\n\
         \x20 DNS     : 10.0.0.1, 10.0.0.2\n\
         \n[bb]\n  State   : UP\n  Type    : Ethernet\n\
         \n[zz]\n  State   : UP\n  Type    : Ethernet\n\
         \n[aa]\n  State   : DOWN\n  Type    : Ethernet\n  DNS     : 10.0.0.2\n\
         \n=== ROUTES ===\n",
    );
    expected.push_str(&format!("{:<28} {:<20} {:<10} {}\n", "Destination", "Gateway", "Interface", "Info"));
    expected.push_str(&format!("{:<28} {:<20} {:<10} {}\n", "default", "192.168.1.1", "eth0", ""));
    expected.push_str("\n=== title ===\ncontent\n");
    assert_eq!(report_text(&report), expected);
    let file = export(&report, " /var/log ", "20260611_140327");
    assert_eq!(file.parts, ["/var/log", "netconfig", "netconfig_20260611_140327.txt"]);
    assert_eq!(file.text, expected);
    assert_eq!(export(&report, " ", "s").parts[0], "logs");
}

#[test]
fn empty_report() {
    let report = gather(
        "host".to_string(),
        "now".to_string(),
        &Vec::new(),
        None,
        &Vec::new(),
        Vec::new(),
        "raw routes".to_string(),
        Vec::new(),
    );
    assert_eq!(
        report_text(&report),
        "NETWORK CONFIGURATION REPORT — generated now\n\nHostname : host\nDomain   : (none)\n\
         DNS      : (none detected)\n\n=== INTERFACES ===\n\n=== ROUTES ===\nraw routes"
    );
}
