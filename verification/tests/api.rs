use piwifi::api::{
    apply_firewall_rule, check_login, clamp_lines, default_lines, dns_result, dnsmasq_log_entries,
    extract_token, get_arp_devices, get_connected_clients, parse_arp_line, parse_log_line,
    route_result, sanitize_hostname, system_log_entries, validate_alias, verify_auth, AliasError,
    ApiResponse, FirewallRuleRequest, HostnameError, RuleError,
};
use piwifi::ip::is_valid_ip;

fn rule(action: &str, ip: Option<&str>, port: Option<u16>) -> FirewallRuleRequest {
    FirewallRuleRequest {
        action: action.to_string(),
        interface: "eth0".to_string(),
        protocol: "tcp".to_string(),
        port: 8080,
        target_ip: ip.map(|s| s.to_string()),
        target_port: port,
    }
}

#[test]
fn api_response_ok_and_err() {
    let r = ApiResponse::ok(7u32);
    assert!(r.success);
    assert_eq!(r.data, Some(7));
    assert_eq!(r.error, None);
    let r = ApiResponse::<u32>::err("bad".to_string());
    assert!(!r.success);
    assert_eq!(r.data, None);
    assert_eq!(r.error.as_deref(), Some("bad"));
}

#[test]
fn hostname_is_let_through_or_refused() {
    assert_eq!(sanitize_hostname("example.com").unwrap(), "example.com");
    assert_eq!(sanitize_hostname("a").unwrap(), "a");
    assert_eq!(sanitize_hostname(&"h".repeat(255)).unwrap().len(), 255);
    assert_eq!(sanitize_hostname(&"h".repeat(256)), Err(HostnameError::Length));
    assert_eq!(sanitize_hostname(""), Err(HostnameError::Length));
    for bad in ["a;b", "a|b", "a&b", "$x", "`x`", "it's", "\"q\"", "a<b", "a>b", "a\nb"] {
        assert_eq!(sanitize_hostname(bad), Err(HostnameError::Metacharacter));
    }
    // The metacharacter is found before the length is.
    assert_eq!(sanitize_hostname(&format!("{};", "h".repeat(300))), Err(HostnameError::Metacharacter));
    assert_eq!(HostnameError::Length.message(), "Invalid hostname: length out of range");
    assert_eq!(
        HostnameError::Metacharacter.message(),
        "Invalid hostname: contains shell metacharacters"
    );
}

#[test]
fn alias_is_checked() {
    assert_eq!(validate_alias("Living Room-TV_2"), Ok(()));
    assert_eq!(validate_alias(""), Err(AliasError::Length));
    assert_eq!(validate_alias(&"a".repeat(64)), Ok(()));
    assert_eq!(validate_alias(&"a".repeat(65)), Err(AliasError::Length));
    assert_eq!(validate_alias("semi;colon"), Err(AliasError::Character));
    assert_eq!(validate_alias("tab\there"), Err(AliasError::Character));
    assert_eq!(AliasError::Length.message(), "Alias must be 1-64 characters");
}

#[test]
fn rule_requests_are_dispatched() {
    let plan = apply_firewall_rule(&rule("allow", None, None)).unwrap();
    assert_eq!(
        plan[0].shell_line(),
        "sudo iptables -A INPUT -i eth0 -p tcp --dport 8080 -m state --state NEW -j ACCEPT"
    );
    let plan = apply_firewall_rule(&rule("block", None, None)).unwrap();
    assert_eq!(plan[0].shell_line(), "sudo iptables -A INPUT -i eth0 -p tcp --dport 8080 -j DROP");
    let plan = apply_firewall_rule(&rule("forward", Some("10.0.0.9"), Some(80))).unwrap();
    assert_eq!(plan.len(), 3);
    assert!(plan[0].shell_line().ends_with("--to-destination 10.0.0.9:80"));
    assert_eq!(apply_firewall_rule(&rule("forward", Some("10.0.0.9"), None)).unwrap_err(), RuleError::MissingTarget);
    assert_eq!(apply_firewall_rule(&rule("forward", None, Some(80))).unwrap_err(), RuleError::MissingTarget);
    assert_eq!(apply_firewall_rule(&rule("Allow", None, None)).unwrap_err(), RuleError::UnknownAction);
    assert_eq!(apply_firewall_rule(&rule("", None, None)).unwrap_err(), RuleError::UnknownAction);
    assert_eq!(RuleError::MissingTarget.message(), "Missing target IP/port");
    assert_eq!(RuleError::UnknownAction.message(), "Unknown action");
}

#[test]
fn token_is_what_follows_bearer() {
    assert_eq!(extract_token(Some("Bearer abc.def")).as_deref(), Some("abc.def"));
    assert_eq!(extract_token(Some("Bearer ")).as_deref(), Some(""));
    assert_eq!(extract_token(Some("bearer abc")), None);
    assert_eq!(extract_token(Some("Bearer")), None);
    assert_eq!(extract_token(None), None);
    assert!(verify_auth(Some("Bearer x")));
    assert!(!verify_auth(Some("Basic x")));
    assert!(!verify_auth(None));
}

#[test]
fn login_is_for_the_administrator() {
    assert!(check_login("admin", "piwifi"));
    assert!(!check_login("admin", "piwifi "));
    assert!(!check_login("Admin", "piwifi"));
    assert!(!check_login("", ""));
}

#[test]
fn lines_are_clamped() {
    assert_eq!(default_lines(), 100);
    assert_eq!(clamp_lines(0), 1);
    assert_eq!(clamp_lines(1), 1);
    assert_eq!(clamp_lines(250), 250);
    assert_eq!(clamp_lines(500), 500);
    assert_eq!(clamp_lines(501), 500);
    assert_eq!(clamp_lines(usize::MAX), 500);
}

#[test]
fn log_line_is_split_at_three_spaces() {
    let e = parse_log_line("Jan01 host proc[1]: an ERROR happened here", None).unwrap();
    assert_eq!(e.timestamp, "Jan01");
    assert_eq!(e.message, "an ERROR happened here");
    assert_eq!(e.level, "error");
    assert!(parse_log_line("too few spaces", None).is_none());
    let e = parse_log_line("a b c ", None).unwrap();
    assert_eq!((e.timestamp.as_str(), e.message.as_str(), e.level.as_str()), ("a", "", "info"));
    let e = parse_log_line("a  b rest of it", None).unwrap();
    assert_eq!(e.message, "rest of it");
}

#[test]
fn log_level_goes_by_the_words() {
    let level = |m: &str| parse_log_line(&format!("t h p {}", m), None).unwrap().level;
    assert_eq!(level("some error"), "error");
    assert_eq!(level("WARN and ERROR"), "error");
    assert_eq!(level("a warning"), "warn");
    assert_eq!(level("WARN"), "warn");
    assert_eq!(level("Warn"), "info");
    assert_eq!(level("DEBUG"), "debug");
    assert_eq!(level("debug"), "info");
    assert_eq!(level("INFO"), "info");
    assert_eq!(level("plain"), "info");
}

#[test]
fn log_filter_ignores_case() {
    assert!(parse_log_line("t h p DHCP request", Some("dhcp")).is_some());
    assert!(parse_log_line("t h p dhcp request", Some("DHCP REQ")).is_some());
    assert!(parse_log_line("t h p dhcp request", Some("dns")).is_none());
    assert!(parse_log_line("t h p anything", Some("")).is_some());
    // The filter looks at the message only.
    assert!(parse_log_line("stamp h p message", Some("stamp")).is_none());
}

#[test]
fn system_log_is_newest_first() {
    let out = "t1 h p first\nshort\nt2 h p second error\nt3 h p third\n";
    let entries = system_log_entries(out, None);
    let stamps: Vec<&str> = entries.iter().map(|e| e.timestamp.as_str()).collect();
    assert_eq!(stamps, vec!["t3", "t2", "t1"]);
    assert_eq!(entries[1].level, "error");
    let entries = system_log_entries(out, Some("IR"));
    let stamps: Vec<&str> = entries.iter().map(|e| e.timestamp.as_str()).collect();
    assert_eq!(stamps, vec!["t3", "t1"]);
    assert!(system_log_entries("", None).is_empty());
}

#[test]
fn service_log_keeps_the_last_lines_oldest_first() {
    let content = "t1 h p DHCPACK error\nt2 h p query[A] x\nt3 h p an ERROR\nbad\nt5 h p reply x\nt6 h p started\n";
    let entries = dnsmasq_log_entries(content, 100);
    let got: Vec<(&str, &str)> = entries.iter().map(|e| (e.timestamp.as_str(), e.level.as_str())).collect();
    assert_eq!(
        got,
        vec![("t1", "info"), ("t2", "debug"), ("t3", "error"), ("t5", "debug"), ("t6", "info")]
    );
    let entries = dnsmasq_log_entries(content, 3);
    let stamps: Vec<&str> = entries.iter().map(|e| e.timestamp.as_str()).collect();
    assert_eq!(stamps, vec!["t5", "t6"]);
    let entries = dnsmasq_log_entries(content, 0);
    let stamps: Vec<&str> = entries.iter().map(|e| e.timestamp.as_str()).collect();
    assert_eq!(stamps, vec!["t6"]);
}

#[test]
fn clients_come_from_the_lease_file() {
    assert!(get_connected_clients(None).is_empty());
    let leases = "1700000000 aa:bb:cc:dd:ee:ff 192.168.100.51 laptop 01:aa\nshort line here\n1700000001 11:22:33:44:55:66 192.168.100.52 *\n";
    let clients = get_connected_clients(Some(leases));
    assert_eq!(clients.len(), 2);
    assert_eq!(clients[0].hostname, "laptop");
    assert_eq!(clients[0].mac, "aa:bb:cc:dd:ee:ff");
    assert_eq!(clients[0].ip, "192.168.100.51");
    assert_eq!(clients[0].lease_expires, "Active");
    assert_eq!(clients[1].hostname, "*");
}

#[test]
fn arp_line_names_an_address_and_a_hardware_address() {
    assert_eq!(
        parse_arp_line("? (192.168.1.100) at aa:bb:cc:dd:ee:ff [ether] on eth0"),
        Some(("192.168.1.100".to_string(), "aa:bb:cc:dd:ee:ff".to_string()))
    );
    assert_eq!(
        parse_arp_line("host ((10.0.0.1)) at 0:1:2:3:4:5"),
        Some(("10.0.0.1".to_string(), "0:1:2:3:4:5".to_string()))
    );
    assert_eq!(parse_arp_line("? (192.168.1.100) at <incomplete> on eth0"), None);
    assert_eq!(parse_arp_line("? (192.168.1.300) at aa:bb:cc:dd:ee:ff"), None);
    assert_eq!(parse_arp_line("? (192.168.1.1) at"), None);
    assert_eq!(parse_arp_line(""), None);
}

#[test]
fn arp_devices_are_listed_in_order() {
    let out = "? (10.0.0.2) at aa:bb:cc:dd:ee:01 [ether] on eth0\n? (10.0.0.3) at <incomplete> on eth0\n? (10.0.0.4) at aa:bb:cc:dd:ee:04 [ether] on eth0\n";
    let devices = get_arp_devices(out);
    assert_eq!(devices.len(), 2);
    assert_eq!(devices[0].ip, "10.0.0.2");
    assert_eq!(devices[1].mac, "aa:bb:cc:dd:ee:04");
    assert_eq!(devices[1].hostname, "");
    assert!(devices[1].alias.is_none() && devices[1].vendor.is_none() && !devices[1].is_static);
}

#[test]
fn ip_addresses_are_dotted_quads() {
    for ok in ["0.0.0.0", "255.255.255.255", "192.168.1.50", "10.0.0.1"] {
        assert!(is_valid_ip(ok), "{}", ok);
    }
    for bad in ["", "1.2.3", "1.2.3.4.5", "256.1.1.1", "1.2.3.04", "1.2.3.+4", "1..2.3", "a.b.c.d", " 1.2.3.4", "1.2.3.4 ", "1.2.3.1000"] {
        assert!(!is_valid_ip(bad), "{}", bad);
    }
}

#[test]
fn dns_result_reports_records_or_the_error() {
    let r = dns_result(true, "93.184.216.34\n\n  \n2606:2800::1\n", " warn \n");
    assert!(r.success);
    assert_eq!(r.records, vec!["93.184.216.34", "2606:2800::1"]);
    assert_eq!(r.error, None);
    let r = dns_result(true, "\n", " no servers \n");
    assert!(r.records.is_empty());
    assert_eq!(r.error.as_deref(), Some("no servers"));
    let r = dns_result(false, "1.2.3.4\n", "timed out");
    assert_eq!(r.records, vec!["1.2.3.4"]);
    assert_eq!(r.error.as_deref(), Some("timed out"));
}

#[test]
fn route_result_keeps_the_hops() {
    let out = "traceroute to example.com (1.2.3.4), 10 hops max\n 1  10.0.0.1  1.2 ms\n\n 2  * * *\n 3  gateway.to.net  9 ms\n";
    let r = route_result(true, out, "ignored");
    assert_eq!(r.hops, vec![" 1  10.0.0.1  1.2 ms", " 2  * * *"]);
    assert_eq!(r.error, None);
    let r = route_result(false, "", " unknown host \n");
    assert!(r.hops.is_empty());
    assert_eq!(r.error.as_deref(), Some("unknown host"));
}
