use rustytools::dns::{
    answer, check_request, log_file_name, log_line, lookup_for, name_servers, parse_servers, prepare,
    queries, record_type, record_types, servers, setup_failure, system_error, DnsEvent, DnsRun, Lookup, Server,
};
use rustytools::ip::{parse_ip, IpAddr};
use rustytools::source::{
    forget_missing, gather_ifaces, invalid_source, selected_text, source_config, HostInterface,
    IfaceSource, SourceConfig, SourceSel, SourceUi,
};
use rustytools::util::{
    create_error, export_file_name, export_step, folder_error, log_base, open_in_file_manager, resolve_host,
    run_capture, sanitize_filename, write_error, Captured, ExportStep, Os,
};

fn ip(s: &str) -> IpAddr {
    parse_ip(s).unwrap()
}

#[test]
fn known_record_types() {
    let codes: Vec<u16> = record_types().iter().map(|t| record_type(t).unwrap()).collect();
    assert_eq!(codes, [1, 28, 5, 15, 2, 16, 6, 33, 12]);
    for (name, code) in [
        ("ANAME", 65305), ("AXFR", 252), ("CAA", 257), ("CDNSKEY", 60), ("CDS", 59), ("CSYNC", 62),
        ("DNSKEY", 48), ("DS", 43), ("HINFO", 13), ("HTTPS", 65), ("KEY", 25), ("NAPTR", 35), ("NSEC", 47),
        ("NSEC3", 50), ("NSEC3PARAM", 51), ("NULL", 10), ("OPENPGPKEY", 61), ("RRSIG", 46), ("SIG", 24),
        ("SSHFP", 44), ("SVCB", 64), ("TLSA", 52), ("TSIG", 250), ("ANY", 255), ("*", 255),
    ] {
        assert_eq!(record_type(name), Some(code), "{name}");
    }
    assert_eq!(record_type(" MX "), Some(15));
    assert_eq!(record_type("mx"), None);
    assert_eq!(record_type("NOPE"), None);
    assert_eq!(record_type(""), None);
}

#[test]
fn requests() {
    assert_eq!(check_request(1, "A", true, 0), Ok(1));
    assert_eq!(check_request(2, "PTR", false, 1), Ok(12));
    assert_eq!(
        check_request(0, "X", false, 0),
        Err("Enter at least one name or IP to resolve.".to_string())
    );
    assert_eq!(
        check_request(1, "X", false, 0),
        Err("Enable system DNS or provide at least one custom server.".to_string())
    );
    assert_eq!(check_request(1, "X", true, 0), Err("unsupported record type: X".to_string()));
}

#[test]
fn custom_servers() {
    assert_eq!(
        parse_servers(" 8.8.8.8\n\n2001:4860:4860::8888 \n"),
        Ok(vec![ip("8.8.8.8"), ip("2001:4860:4860::8888")])
    );
    assert_eq!(parse_servers(""), Ok(Vec::new()));
    assert_eq!(
        parse_servers("one\n8.8.8.8\n two "),
        Err("Invalid DNS server address: one, two".to_string())
    );
}

#[test]
fn servers_and_their_source() {
    let list = name_servers(ip("8.8.8.8"), &SourceConfig::default()).unwrap();
    assert_eq!(list.len(), 2);
    assert_eq!((list[0].port, list[0].tcp, list[0].bind), (53, false, None));
    assert!(list[1].tcp);
    let custom = SourceConfig { ip: Some(ip("10.0.0.1")), iface: None };
    assert_eq!(name_servers(ip("8.8.8.8"), &custom).unwrap()[1].bind, Some(ip("10.0.0.1")));
    assert_eq!(
        name_servers(ip("::1"), &custom),
        Err("the source IP is not an IPv6 address, as the destination is".to_string())
    );
    let iface = SourceConfig {
        ip: None,
        iface: Some(IfaceSource { name: "eth0".to_string(), index: 2, addrs: vec![ip("fe80::1")] }),
    };
    assert_eq!(iface.bind_ip_for(&ip("::1")), Ok(Some(ip("fe80::1"))));
    assert_eq!(
        iface.bind_ip_for(&ip("8.8.8.8")),
        Err("interface eth0 has no IPv4 address".to_string())
    );
}

#[test]
fn lookups_and_answers() {
    assert_eq!(lookup_for("example.com", 15), Lookup::Forward(15));
    assert_eq!(lookup_for("8.8.8.8", 15), Lookup::Reverse(ip("8.8.8.8")));
    let a = answer("t", "8.8.8.8", "MX", "system", Ok(vec!["dns.google.".to_string()]), 7);
    assert_eq!((a.rtype.as_str(), a.duration, a.error.as_deref()), ("PTR", 7, None));
    assert_eq!(
        log_line(&a, "1.5"),
        "[t] server=system type=PTR query=8.8.8.8 (1.5 ms) -> dns.google."
    );
    let a = answer("t", "example.com", "MX", "1.1.1.1", Err("no record".to_string()), 7);
    assert_eq!(a.rtype, "MX");
    assert!(a.records.is_empty());
    assert_eq!(
        log_line(&a, "0.0"),
        "[t] server=1.1.1.1 type=MX query=example.com (0.0 ms) -> ERROR: no record"
    );
    let s = setup_failure("t", "A", "system", &system_error("x"));
    assert_eq!(s.query, "(resolver setup)");
    assert_eq!(s.error.as_deref(), Some("cannot read system DNS configuration: x"));
    assert_eq!(log_file_name("20260611_140327"), "dns_20260611_140327.log");
}

#[test]
fn sources() {
    let ifaces = gather_ifaces(&vec![
        HostInterface {
            name: "wlan0".to_string(),
            index: 3,
            ipv4: Vec::new(),
            ipv6: vec![(1, "::1".to_string())],
        },
        HostInterface { name: "none".to_string(), index: 4, ipv4: Vec::new(), ipv6: Vec::new() },
        HostInterface {
            name: "eth0".to_string(),
            index: 2,
            ipv4: vec![0x0a00_0001, 0x0a00_0002],
            ipv6: vec![(2, "::2".to_string())],
        },
    ]);
    let labels: Vec<&str> = ifaces.iter().map(|c| c.label.as_str()).collect();
    assert_eq!(labels, ["eth0 (10.0.0.1)", "wlan0 (::1)"]);
    assert_eq!(ifaces[0].source.addrs, [ip("10.0.0.1"), ip("10.0.0.2"), ip("::2")]);

    let mut ui = SourceUi::default();
    let s = source_config(&ui, &ifaces).unwrap();
    assert!(s.ip.is_none() && s.iface.is_none());
    assert_eq!(selected_text(&ui, &ifaces), "Default (system routing)");
    ui.sel = SourceSel::Iface(0);
    assert_eq!(selected_text(&ui, &ifaces), "eth0 (10.0.0.1)");
    assert_eq!(selected_text(&ui, &Vec::new()), "?");
    let s = source_config(&ui, &ifaces).unwrap();
    assert_eq!(s.iface.unwrap().name, "eth0");
    ui.sel = SourceSel::Iface(2);
    assert_eq!(
        source_config(&ui, &ifaces).unwrap_err(),
        "the interface list changed — reselect the source interface"
    );
    forget_missing(&mut ui, 2);
    assert_eq!(ui.sel, SourceSel::Default);
    ui.sel = SourceSel::CustomIp;
    assert_eq!(selected_text(&ui, &ifaces), "Custom IP…");
    ui.custom_ip = " 10.0.0.9 ".to_string();
    assert_eq!(source_config(&ui, &ifaces).unwrap().ip, Some(ip("10.0.0.9")));
    ui.custom_ip = " no\"pe ".to_string();
    assert_eq!(source_config(&ui, &ifaces).unwrap_err(), "invalid source IP: \"no\\\"pe\"");
    assert_eq!(invalid_source("\"x\""), "invalid source IP: \"x\"");
    forget_missing(&mut ui, 0);
    assert_eq!(ui.sel, SourceSel::CustomIp);
}

#[test]
fn hosts() {
    let found: Result<Vec<IpAddr>, String> = Ok(vec![ip("::1"), ip("10.0.0.1"), ip("10.0.0.2")]);
    assert_eq!(resolve_host("example.com", &found), Ok(ip("10.0.0.1")));
    assert_eq!(resolve_host("1.2.3.4", &found), Ok(ip("1.2.3.4")));
    assert_eq!(resolve_host("1.2.3.4", &Err("x".to_string())), Ok(ip("1.2.3.4")));
    assert_eq!(resolve_host("v6.example", &Ok(vec![ip("::2"), ip("::1")])), Ok(ip("::2")));
    assert_eq!(
        resolve_host("example.com", &Ok(Vec::new())),
        Err("DNS resolution returned no address".to_string())
    );
    assert_eq!(
        resolve_host("example.com", &Err("timeout".to_string())),
        Err("DNS resolution failed: timeout".to_string())
    );
}

#[test]
fn captured_output() {
    let out = |a: &str, b: &str| {
        run_capture("tool", &Captured::Output { stdout: a.to_string(), stderr: b.to_string() })
    };
    assert_eq!(out("a\n", " \n"), "a\n");
    assert_eq!(out("a\n", "warn\n"), "a\nwarn\n");
    assert_eq!(out(" ", ""), "(tool: no output)");
    assert_eq!(
        run_capture("tool", &Captured::Failed { reason: "not found".to_string() }),
        "Cannot run `tool`: not found"
    );
}

#[test]
fn file_names_and_folders() {
    assert_eq!(sanitize_filename("srv-01.example.com"), "srv-01.example.com");
    assert_eq!(sanitize_filename("a/b\\c:d;e f"), "a_b_c_d_e_f");
    assert_eq!(sanitize_filename("été٣"), "été٣");
    assert_eq!(sanitize_filename("fe80::1%en0"), "fe80__1_en0");
    let once = sanitize_filename("a b");
    assert_eq!(sanitize_filename(&once), once);
    assert_eq!(log_base("  "), "logs");
    assert_eq!(log_base(" /tmp/x "), "/tmp/x");
    let c = open_in_file_manager(Os::Unix, "/tmp/x");
    assert_eq!((c.program.as_str(), c.args[0].as_str()), ("xdg-open", "/tmp/x"));
    assert_eq!(open_in_file_manager(Os::MacOs, "x").program, "open");
    assert_eq!(open_in_file_manager(Os::Windows, "x").program, "explorer");
}

#[test]
fn folder_and_file_errors() {
    assert_eq!(folder_error("x"), "failed to create log directory: x");
    assert_eq!(create_error("/a", "x"), "failed to create log file /a: x");
    assert_eq!(write_error("/a", "x"), "failed to write /a: x");
    assert_eq!(export_file_name("arp", "20260611_140327"), "arp_20260611_140327.txt");
}

#[test]
fn queries_of_a_run() {
    assert_eq!(queries(2, 3), [(0, 0), (0, 1), (0, 2), (1, 0), (1, 1), (1, 2)]);
    assert!(queries(0, 3).is_empty());
    assert!(queries(3, 0).is_empty());
}

#[test]
fn prepared_requests() {
    let none = || Ok(SourceConfig::default());
    let r = prepare("a\nb\na", "8.8.8.8", "MX", false, none()).unwrap();
    assert_eq!(r.targets, ["a", "b"]);
    assert_eq!((r.code, r.custom), (15, vec![ip("8.8.8.8")]));
    let e = |input, servers, rtype, system, source| prepare(input, servers, rtype, system, source).unwrap_err();
    assert_eq!(e("", "x", "?", false, Err("s".to_string())), "Invalid DNS server address: x");
    assert_eq!(e("", "", "?", false, Err("s".to_string())), "s");
    assert_eq!(e("", "", "?", false, none()), "Enter at least one name or IP to resolve.");
    assert_eq!(e("a", "", "?", true, none()), "unsupported record type: ?");
}

#[test]
fn exports_stop_at_the_first_failure() {
    let failed = || Some(Err("full".to_string()));
    assert!(matches!(export_step(&None, &None, "p"), ExportStep::CreateFolder));
    assert!(matches!(export_step(&Some(Ok(())), &None, "p"), ExportStep::Write));
    assert!(matches!(
        export_step(&failed(), &None, "p"),
        ExportStep::Finished(Err(e)) if e == "failed to create log directory: full"
    ));
    assert!(matches!(
        export_step(&Some(Ok(())), &failed(), "p"),
        ExportStep::Finished(Err(e)) if e == "failed to write p: full"
    ));
    assert!(matches!(
        export_step(&Some(Ok(())), &Some(Ok(())), "p"),
        ExportStep::Finished(Ok(path)) if path == "p"
    ));
}

#[test]
fn runs_ask_every_server_and_end() {
    let custom = vec![ip("8.8.8.8"), ip("1.1.1.1")];
    assert_eq!(
        servers(true, &custom),
        [Server::System, Server::Custom(ip("8.8.8.8")), Server::Custom(ip("1.1.1.1"))]
    );
    assert_eq!(servers(false, &custom).len(), 2);
    let (run, events) = DnsRun::start(3, 0);
    assert!(run.next_query().is_none());
    assert!(matches!(events[..], [DnsEvent::Done]));
    let (mut run, events) = DnsRun::start(1, 2);
    assert!(events.is_empty());
    assert_eq!(run.next_query(), Some((0, 0)));
    let events = run.on_answer(answer("t", "a", "A", "system", Ok(Vec::new()), 0));
    assert!(matches!(&events[..], [DnsEvent::Answer(a)] if a.server == "system"));
    assert_eq!(run.next_query(), Some((0, 1)));
    let events = run.on_answer(answer("t", "a", "A", "8.8.8.8", Err("x".to_string()), 0));
    assert!(matches!(&events[..], [DnsEvent::Answer(_), DnsEvent::Done]));
    assert_eq!(run.next_query(), None);
}
