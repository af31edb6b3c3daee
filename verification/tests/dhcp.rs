use piwifi::dhcp::{
    count_dhcp_leases, format_lease_time, parse_lease_time, read_dhcp_config, render_dhcp_config,
    set_dhcp_config, set_static_ip, validate, write_dhcp_config, write_static_ip_config,
    DHCPConfig, MalformedConfig, StaticIpError, StaticIpRequest, ValidationError,
};

fn config() -> DHCPConfig {
    DHCPConfig {
        dhcp_start: "192.168.1.50".to_string(),
        dhcp_end: "192.168.1.100".to_string(),
        lease_time: 3600,
        dns_servers: vec!["8.8.8.8".to_string()],
        local_domain: "local".to_string(),
    }
}

#[test]
fn write_then_read_gives_identical_values() {
    let c = config();
    let text = render_dhcp_config(&c);
    let status = read_dhcp_config(&text, None).unwrap();
    assert!(status.enabled);
    assert_eq!(status.config.dhcp_start, "192.168.1.50");
    assert_eq!(status.config.dhcp_end, "192.168.1.100");
    assert_eq!(status.config.lease_time, 3600);
    assert_eq!(status.config.dns_servers, vec!["8.8.8.8"]);
    assert_eq!(status.config.local_domain, "local");
    assert_eq!(status.active_leases, 0);
}

#[test]
fn rendered_file_has_the_directives_in_order() {
    let mut c = config();
    c.dns_servers.push("1.1.1.1".to_string());
    c.lease_time = 7200;
    assert_eq!(
        render_dhcp_config(&c),
        "# PiWifi DHCP Configuration\n\
         dhcp-range=192.168.1.50,192.168.1.100,2h\n\
         server=8.8.8.8\n\
         server=1.1.1.1\n\
         local-domain=local\n\
         # End PiWifi DHCP Configuration\n"
    );
}

#[test]
fn round_trip_keeps_the_order_of_resolvers() {
    let mut c = config();
    c.dns_servers = vec!["9.9.9.9".to_string(), "1.1.1.1".to_string(), "8.8.4.4".to_string()];
    c.lease_time = 86400 * 3;
    c.local_domain = "lan.example".to_string();
    let status = read_dhcp_config(&render_dhcp_config(&c), Some("a\nb\n")).unwrap();
    assert_eq!(status.config.dns_servers, vec!["9.9.9.9", "1.1.1.1", "8.8.4.4"]);
    assert_eq!(status.config.lease_time, 86400 * 3);
    assert_eq!(status.config.local_domain, "lan.example");
    assert_eq!(status.active_leases, 2);
}

#[test]
fn round_trip_rounds_an_inexact_lease_time_down() {
    let mut c = config();
    c.lease_time = 3700;
    let status = read_dhcp_config(&render_dhcp_config(&c), None).unwrap();
    assert_eq!(status.config.lease_time, 3600);
}

#[test]
fn write_always_restarts_the_service() {
    let u = write_dhcp_config(&config());
    assert_eq!(u.path, "/etc/dnsmasq.d/piwifi.conf");
    assert_eq!(u.contents, render_dhcp_config(&config()));
    assert_eq!(u.plan.len(), 1);
    assert_eq!(u.plan[0].shell_line(), "sudo systemctl restart dnsmasq");
}

#[test]
fn lease_time_is_written_in_the_largest_unit_reached() {
    assert_eq!(format_lease_time(0), "0s");
    assert_eq!(format_lease_time(59), "59s");
    assert_eq!(format_lease_time(60), "1m");
    assert_eq!(format_lease_time(119), "1m");
    assert_eq!(format_lease_time(3599), "59m");
    assert_eq!(format_lease_time(3600), "1h");
    assert_eq!(format_lease_time(86399), "23h");
    assert_eq!(format_lease_time(86400), "1d");
    assert_eq!(format_lease_time(u32::MAX), "49710d");
}

#[test]
fn lease_time_is_read_with_its_unit() {
    assert_eq!(parse_lease_time("45s"), Some(45));
    assert_eq!(parse_lease_time("5m"), Some(300));
    assert_eq!(parse_lease_time(" 12h\n"), Some(43200));
    assert_eq!(parse_lease_time("2d"), Some(172800));
    assert_eq!(parse_lease_time("+2d"), Some(172800));
    assert_eq!(parse_lease_time("12"), None);
    assert_eq!(parse_lease_time("h"), None);
    assert_eq!(parse_lease_time(""), None);
    assert_eq!(parse_lease_time("12w"), None);
    assert_eq!(parse_lease_time("-1h"), None);
    assert_eq!(parse_lease_time("1.5h"), None);
    assert_eq!(parse_lease_time("49710d"), Some(49710 * 86400));
    assert_eq!(parse_lease_time("49711d"), None);
    assert_eq!(parse_lease_time("4294967295s"), Some(u32::MAX));
    assert_eq!(parse_lease_time("4294967296s"), None);
}

#[test]
fn validation_names_the_first_fault() {
    assert_eq!(validate(&config()), Ok(()));
    let mut c = config();
    c.dhcp_start = "192.168.1.100".to_string();
    assert_eq!(validate(&c), Err(ValidationError::PoolOrder));
    c.dhcp_start = "192.168.1.200".to_string();
    assert_eq!(validate(&c), Err(ValidationError::PoolOrder));
    c.dhcp_start = "192.168.1.x".to_string();
    c.lease_time = 0;
    assert_eq!(validate(&c), Err(ValidationError::MalformedAddress));
    let mut c = config();
    c.lease_time = 0;
    c.dns_servers.clear();
    assert_eq!(validate(&c), Err(ValidationError::LeaseTime));
    c.lease_time = 1;
    assert_eq!(validate(&c), Err(ValidationError::NoDnsServer));
}

#[test]
fn validation_compares_addresses_as_numbers() {
    let mut c = config();
    c.dhcp_start = "192.168.1.9".to_string();
    c.dhcp_end = "192.168.1.10".to_string();
    assert_eq!(validate(&c), Ok(()));
    c.dhcp_start = "192.168.1.10".to_string();
    c.dhcp_end = "192.168.1.9".to_string();
    assert_eq!(validate(&c), Err(ValidationError::PoolOrder));
}

#[test]
fn refused_settings_change_nothing() {
    let mut c = config();
    c.dns_servers.clear();
    assert_eq!(set_dhcp_config(&c).unwrap_err(), ValidationError::NoDnsServer);
    let u = set_dhcp_config(&config()).unwrap();
    assert_eq!(u.contents, render_dhcp_config(&config()));
    assert_eq!(u.plan.len(), 1);
}

#[test]
fn validation_errors_have_messages() {
    assert_eq!(ValidationError::PoolOrder.message(), "DHCP start must be less than end");
    assert_eq!(ValidationError::LeaseTime.message(), "Lease time must be greater than 0");
    assert_eq!(ValidationError::NoDnsServer.message(), "At least one DNS server is required");
}

#[test]
fn reading_passes_over_comments_and_other_lines() {
    let text = "# comment\n\n  interface=eth0\r\n  dhcp-range=10.0.0.2,10.0.0.9,30m  \nserver=1.1.1.1\nlocal-domain=home\nserver=\n";
    let status = read_dhcp_config(text, None).unwrap();
    assert!(status.enabled);
    assert_eq!(status.config.dhcp_start, "10.0.0.2");
    assert_eq!(status.config.dhcp_end, "10.0.0.9");
    assert_eq!(status.config.lease_time, 1800);
    assert_eq!(status.config.dns_servers, vec!["1.1.1.1", ""]);
    assert_eq!(status.config.local_domain, "home");
}

#[test]
fn a_file_without_a_pool_is_not_enabled() {
    let status = read_dhcp_config("server=1.1.1.1\n", None).unwrap();
    assert!(!status.enabled);
    assert_eq!(status.config.dhcp_start, "");
    assert_eq!(status.config.lease_time, 3600);
    assert_eq!(status.config.local_domain, "piwifi.local");
    let status = read_dhcp_config("", None).unwrap();
    assert!(!status.enabled);
    assert!(status.config.dns_servers.is_empty());
}

#[test]
fn a_malformed_pool_fails_the_read() {
    assert_eq!(read_dhcp_config("dhcp-range=10.0.0.2,10.0.0.9\n", None).unwrap_err(), MalformedConfig);
    assert_eq!(read_dhcp_config("dhcp-range=10.0.0.2,10.0.0.9,soon\nserver=1\n", None).unwrap_err(), MalformedConfig);
    assert!(read_dhcp_config("dhcp-range=\n", None).is_err());
}

#[test]
fn the_last_pool_holds() {
    let status = read_dhcp_config("dhcp-range=a,b,1h\ndhcp-range=c,d,2m,extra\n", None).unwrap();
    assert_eq!(status.config.dhcp_start, "c");
    assert_eq!(status.config.dhcp_end, "d");
    assert_eq!(status.config.lease_time, 120);
}

#[test]
fn leases_are_counted_by_lines() {
    assert_eq!(count_dhcp_leases(None), 0);
    assert_eq!(count_dhcp_leases(Some("")), 0);
    assert_eq!(count_dhcp_leases(Some("1 aa 10.0.0.2 host *\n")), 1);
    assert_eq!(count_dhcp_leases(Some("a\nb\nc")), 3);
}

#[test]
fn static_hosts_never_hold_an_address_twice() {
    let first = write_static_ip_config("", "AA:BB:CC:DD:EE:FF", "10.0.0.5", "nas");
    assert_eq!(first, "dhcp-host=AA:BB:CC:DD:EE:FF,10.0.0.5,nas\n");
    let second = write_static_ip_config(&first, "11:22:33:44:55:66", "10.0.0.6", "tv");
    assert_eq!(
        second,
        "dhcp-host=AA:BB:CC:DD:EE:FF,10.0.0.5,nas\ndhcp-host=11:22:33:44:55:66,10.0.0.6,tv\n"
    );
    let third = write_static_ip_config(&second, "AA:BB:CC:DD:EE:FF", "10.0.0.7", "nas2");
    assert_eq!(
        third,
        "dhcp-host=11:22:33:44:55:66,10.0.0.6,tv\ndhcp-host=AA:BB:CC:DD:EE:FF,10.0.0.7,nas2\n"
    );
    assert_eq!(third.matches("AA:BB:CC:DD:EE:FF").count(), 1);
}

#[test]
fn static_ip_request_is_checked_before_anything_is_written() {
    let req = |mac: &str, ip: &str, host: &str| StaticIpRequest {
        mac: mac.to_string(),
        ip: ip.to_string(),
        hostname: host.to_string(),
    };
    assert_eq!(set_static_ip(&req("nope", "10.0.0.5", "nas"), "").unwrap_err(), StaticIpError::InvalidMac);
    assert_eq!(set_static_ip(&req("aa:bb:cc:dd:ee:ff", "10.0.0.256", "nas"), "").unwrap_err(), StaticIpError::InvalidIp);
    assert_eq!(set_static_ip(&req("aa:bb:cc:dd:ee:ff", "10.0.0.5", ""), "").unwrap_err(), StaticIpError::InvalidHostname);
    let long = "h".repeat(64);
    assert_eq!(set_static_ip(&req("aa:bb:cc:dd:ee:ff", "10.0.0.5", &long), "").unwrap_err(), StaticIpError::InvalidHostname);
    let ok = "h".repeat(63);
    let u = set_static_ip(&req("aa:bb:cc:dd:ee:ff", "10.0.0.5", &ok), "old=1\n").unwrap();
    assert_eq!(u.path, "/etc/dnsmasq.d/static_hosts.conf");
    assert_eq!(u.contents, format!("old=1\ndhcp-host=aa:bb:cc:dd:ee:ff,10.0.0.5,{}\n", ok));
    assert_eq!(u.plan[0].shell_line(), "sudo systemctl restart dnsmasq");
    assert_eq!(StaticIpError::InvalidIp.message(), "Invalid IP format");
}
