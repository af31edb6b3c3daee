use piwifi::api::{get_disk_usage, get_ram_usage, get_uptime, parse_interfaces};
use piwifi::bandwidth::{
    get_arp_mapping, get_bandwidth_stats, lookup_neighbour, parse_nf_conntrack, usage_by_address,
};
use piwifi::ranking::top_ranked;

#[test]
fn uptime_is_days_hours_minutes() {
    assert_eq!(get_uptime("93784 1000\n"), "1d 2h 3m");
    assert_eq!(get_uptime("59"), "0d 0h 0m");
    assert_eq!(get_uptime("86399 x"), "0d 23h 59m");
    // A fraction is no whole number.
    assert_eq!(get_uptime("12345.67 54321.00\n"), "0d 0h 0m");
    assert_eq!(get_uptime(""), "0d 0h 0m");
    assert_eq!(get_uptime("18446744073709551615"), "213503982334601d 7h 0m");
}

#[test]
fn ram_usage_is_what_is_not_available() {
    let meminfo = "MemTotal:        8000000 kB\nMemFree:          100000 kB\nMemAvailable:    2000000 kB\n";
    assert_eq!(get_ram_usage(meminfo), 75);
    assert_eq!(get_ram_usage("MemTotal: 3 kB\nMemAvailable: 2 kB\n"), 33);
    assert_eq!(get_ram_usage("MemAvailable: 2 kB\n"), 0);
    assert_eq!(get_ram_usage("MemTotal: 10 kB\n"), 100);
    assert_eq!(get_ram_usage("MemTotal: 10 kB\nMemAvailable: 20 kB\n"), 0);
    assert_eq!(get_ram_usage("MemTotal: x kB\nMemAvailable: 0 kB\n"), 0);
    assert_eq!(get_ram_usage(" MemTotal: 10 kB\n"), 0);
    assert_eq!(get_ram_usage("MemTotal: 10\nMemTotal:\nMemAvailable: 5\n"), 50);
    assert_eq!(get_ram_usage(""), 0);
}

#[test]
fn disk_usage_is_used_against_total() {
    let df = "Filesystem 1B-blocks Used Available Use% Mounted on\n/dev/root 1000 250 750 25% /\n";
    assert_eq!(get_disk_usage(df), 25);
    assert_eq!(get_disk_usage("header only\n"), 0);
    assert_eq!(get_disk_usage("h\n/dev/root 1000 250 750\n"), 0);
    assert_eq!(get_disk_usage("h\n/dev/root 0 250 750 25% /\n"), 0);
    assert_eq!(get_disk_usage("h\n/dev/root 3 1 2 33% /\n"), 33);
    assert_eq!(get_disk_usage("h\n/dev/root 1 18446744073709551615 2 33% /\n"), u32::MAX);
    assert_eq!(get_disk_usage(""), 0);
}

#[test]
fn interfaces_are_read_from_the_listing() {
    let out = "1: lo: <LOOPBACK,UP,LOWER_UP> mtu 65536\n    link/loopback 00:00:00:00:00:00 brd 00:00:00:00:00:00\n    inet 127.0.0.1/8 scope host lo\n    inet6 ::1/128 scope host\n2: eth0: <BROADCAST,MULTICAST> mtu 1500\n    link/ether aa:bb:cc:dd:ee:ff brd ff:ff:ff:ff:ff:ff\n    inet 192.168.100.1/24 brd 192.168.100.255 scope global eth0\n";
    let found = parse_interfaces(out);
    assert_eq!(found.len(), 2);
    assert_eq!(found[0].name, "lo");
    assert_eq!(found[0].status, "UP");
    assert_eq!(found[0].addresses, vec!["127.0.0.1/8", "::1/128"]);
    assert_eq!(found[0].mac, "");
    assert_eq!(found[1].name, "eth0");
    assert_eq!(found[1].status, "DOWN");
    assert_eq!(found[1].addresses, vec!["192.168.100.1/24"]);
    assert_eq!(found[1].mac, "aa:bb:cc:dd:ee:ff");
}

#[test]
fn interface_lines_before_any_interface_are_passed_over() {
    assert!(parse_interfaces("").is_empty());
    assert!(parse_interfaces("    inet 10.0.0.1/8\n    link/ether aa:bb\n").is_empty());
    // A starting line with one colon only names no interface.
    let found = parse_interfaces("1: lo: <UP>\n2: broken\n    inet 10.0.0.1/8\n");
    assert_eq!(found.len(), 1);
    assert_eq!(found[0].name, "lo");
    assert!(found[0].addresses.is_empty());
    let found = parse_interfaces("7:a:UP:x\ninet\ninet6 \nlink/ether\n");
    assert_eq!(found.len(), 1);
    assert_eq!(found[0].name, "a");
    assert_eq!(found[0].status, "UP");
    assert!(found[0].addresses.is_empty());
}

#[test]
fn flows_are_read_from_the_connection_table() {
    let table = "ipv4 2 tcp 6 431999 ESTABLISHED src=192.168.1.100 dst=8.8.8.8 sport=1 dport=443 bytes=1500 src=8.8.8.8 dst=192.168.1.100 bytes=900\n\
                 too short line\n\
                 ipv4 2 udp 17 29 src=192.168.1.101 dst=1.1.1.1 bytes=0\n\
                 ipv4 2 udp 17 29 src=192.168.1.102 dst=1.1.1.1 bytes=x bytes=77 bytes=\n\
                 ipv4 2 udp 17 29 dst=1.1.1.1 bytes=5 more\n";
    let flows = parse_nf_conntrack(table);
    assert_eq!(
        flows,
        vec![("8.8.8.8".to_string(), 900, 0), ("192.168.1.102".to_string(), 77, 0)]
    );
    assert!(parse_nf_conntrack("").is_empty());
}

#[test]
fn usage_adds_up_by_address() {
    let flows = vec![
        ("a".to_string(), 5, 0),
        ("b".to_string(), 7, 0),
        ("a".to_string(), 6, 0),
        ("a".to_string(), u64::MAX, 0),
    ];
    assert_eq!(
        usage_by_address(&flows),
        vec![("a".to_string(), u64::MAX), ("b".to_string(), 7)]
    );
}

#[test]
fn top_ranked_orders_by_weight_then_name() {
    let items = vec![
        ("d".to_string(), 1),
        ("b".to_string(), 9),
        ("c".to_string(), 1),
        ("a".to_string(), 5),
    ];
    let names = |v: Vec<(String, u64)>| v.into_iter().map(|p| p.0).collect::<Vec<_>>();
    assert_eq!(names(top_ranked(items.clone(), 10)), vec!["b", "a", "c", "d"]);
    assert_eq!(names(top_ranked(items.clone(), 3)), vec!["b", "a", "c"]);
    assert!(top_ranked(items, 0).is_empty());
    assert!(top_ranked(Vec::new(), 5).is_empty());
}

#[test]
fn neighbour_table_gives_the_last_entry_for_an_address() {
    let out = "? (10.0.0.2) at aa:bb:cc:dd:ee:01 [ether] on eth0\n? (10.0.0.2) at aa:bb:cc:dd:ee:02 [ether] on eth0\n? (10.0.0.3) at <incomplete> on eth0\n";
    let table = get_arp_mapping(out);
    assert_eq!(table.len(), 2);
    assert_eq!(lookup_neighbour(&table, "10.0.0.2").as_deref(), Some("aa:bb:cc:dd:ee:02"));
    assert_eq!(lookup_neighbour(&table, "10.0.0.3"), None);
}

#[test]
fn bandwidth_report_names_the_heaviest_first() {
    let table = "x x x x src=10.0.0.2 bytes=100\nx x x x src=10.0.0.3 bytes=400\nx x x x src=10.0.0.2 bytes=50\nx x x x src=10.0.0.9 bytes=150\nx x x x src=10.0.0.1 bytes=150\n";
    let arp = "? (10.0.0.2) at aa:bb:cc:dd:ee:02 [ether] on eth0\n";
    let report = get_bandwidth_stats(Some(table), Some(arp));
    let got: Vec<(&str, u64, &str, &str)> = report
        .iter()
        .map(|s| (s.ip.as_str(), s.bytes_sent, s.device_mac.as_str(), s.device_name.as_str()))
        .collect();
    assert_eq!(
        got,
        vec![
            ("10.0.0.3", 400, "unknown", "10.0.0.3"),
            ("10.0.0.1", 150, "unknown", "10.0.0.1"),
            ("10.0.0.2", 150, "aa:bb:cc:dd:ee:02", ""),
            ("10.0.0.9", 150, "unknown", "10.0.0.9"),
        ]
    );
    assert!(report.iter().all(|s| s.bytes_recv == 0 && s.packets_sent == 0 && s.packets_recv == 0));
    assert!(get_bandwidth_stats(None, Some(arp)).is_empty());
    assert_eq!(get_bandwidth_stats(Some(table), None).len(), 4);
}

#[test]
fn bandwidth_report_names_twenty_at_most() {
    let mut table = String::new();
    for i in 0..30 {
        table.push_str(&format!("x x x x src=10.0.0.{} bytes={}\n", i, 1000 + i));
    }
    let report = get_bandwidth_stats(Some(&table), None);
    assert_eq!(report.len(), 20);
    assert_eq!(report[0].ip, "10.0.0.29");
    assert_eq!(report[0].bytes_sent, 1029);
    assert_eq!(report[19].ip, "10.0.0.10");
}
