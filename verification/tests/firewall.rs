use piwifi::command::{advance, begin, Command, CommandOutput, PlanRun, Progress, SystemCommand};
use piwifi::firewall::FirewallManager;
use piwifi::network::{NetworkConfig, NetworkManager};

fn lines(plan: &[Command]) -> Vec<String> {
    plan.iter().map(|c| c.shell_line()).collect()
}

#[test]
fn init_flushes_then_sets_policies_then_appends() {
    let plan = FirewallManager::init();
    assert_eq!(
        lines(&plan),
        vec![
            "sudo iptables -F",
            "sudo iptables -X",
            "sudo iptables -t nat -F",
            "sudo iptables -t nat -X",
            "sudo iptables -t mangle -F",
            "sudo iptables -t mangle -X",
            "sudo iptables -P INPUT DROP",
            "sudo iptables -P OUTPUT ACCEPT",
            "sudo iptables -P FORWARD DROP",
            "sudo iptables -A INPUT -i lo -j ACCEPT",
            "sudo iptables -A INPUT -m state --state RELATED,ESTABLISHED -j ACCEPT",
            "sudo iptables -A INPUT -i eth0 -p tcp --dport 22 -m state --state NEW -j ACCEPT",
            "sudo iptables -A INPUT -i eth0 -p tcp --dport 80 -m state --state NEW -j ACCEPT",
            "sudo iptables -A INPUT -i eth0 -p tcp --dport 443 -m state --state NEW -j ACCEPT",
            "sudo iptables -A INPUT -i eth0 -p udp --dport 67:68 -j ACCEPT",
            "sudo iptables -A INPUT -i eth0 -p udp --dport 53 -j ACCEPT",
            "sudo iptables -A INPUT -i eth0 -p tcp --dport 53 -j ACCEPT",
            "sudo iptables -A INPUT -p icmp -j ACCEPT",
            "sudo iptables -A FORWARD -i eth0 -o wlan0 -m state --state NEW,RELATED,ESTABLISHED -j ACCEPT",
            "sudo iptables -A FORWARD -i wlan0 -o eth0 -m state --state RELATED,ESTABLISHED -j ACCEPT",
        ]
    );
    assert!(plan.iter().all(|c| c.sudo && !c.best_effort));
}

#[test]
fn init_lets_no_new_session_in_from_the_uplink() {
    for c in FirewallManager::init() {
        let line = c.shell_line();
        if line.contains("FORWARD") && line.contains("-i wlan0") {
            assert!(!line.contains("NEW"));
        }
    }
}

#[test]
fn allow_twice_gives_two_rules() {
    let a = FirewallManager::allow_port("eth0", "tcp", 8080);
    let b = FirewallManager::allow_port("eth0", "tcp", 8080);
    assert_eq!(
        lines(&a),
        vec!["sudo iptables -A INPUT -i eth0 -p tcp --dport 8080 -m state --state NEW -j ACCEPT"]
    );
    assert_eq!(lines(&a), lines(&b));
}

#[test]
fn block_drops_the_port() {
    assert_eq!(
        lines(&FirewallManager::block_port("wlan0", "udp", 0)),
        vec!["sudo iptables -A INPUT -i wlan0 -p udp --dport 0 -j DROP"]
    );
    assert_eq!(
        lines(&FirewallManager::block_port("wlan0", "udp", 65535)),
        vec!["sudo iptables -A INPUT -i wlan0 -p udp --dport 65535 -j DROP"]
    );
}

#[test]
fn rate_limit_accepts_within_the_limit_and_drops_the_rest() {
    assert_eq!(
        lines(&FirewallManager::enable_rate_limit("eth0", "tcp", 22)),
        vec![
            "sudo iptables -A INPUT -i eth0 -p tcp --dport 22 -m limit --limit 25/minute --limit-burst 100 -j ACCEPT",
            "sudo iptables -A INPUT -i eth0 -p tcp --dport 22 -j DROP",
        ]
    );
}

#[test]
fn port_forward_is_three_rules() {
    assert_eq!(
        lines(&FirewallManager::port_forward(8080, "192.168.100.10", 80, "tcp")),
        vec![
            "sudo iptables -t nat -A PREROUTING -p tcp --dport 8080 -j DNAT --to-destination 192.168.100.10:80",
            "sudo iptables -A FORWARD -p tcp -d 192.168.100.10 --dport 80 -m state --state NEW,RELATED,ESTABLISHED -j ACCEPT",
            "sudo iptables -A FORWARD -p tcp -s 192.168.100.10 --sport 80 -m state --state RELATED,ESTABLISHED -j ACCEPT",
        ]
    );
}

#[test]
fn logging_show_save_restore() {
    assert_eq!(
        FirewallManager::enable_logging()[0].args,
        vec!["-A", "INPUT", "-j", "LOG", "--log-prefix", "FIREWALL_DROP: ", "--log-level", "7"]
    );
    assert_eq!(lines(&FirewallManager::show_rules()), vec!["sudo iptables -L -n -v"]);
    assert_eq!(
        lines(&FirewallManager::save_rules()),
        vec!["sudo sh -c mkdir -p /etc/iptables && iptables-save > /etc/iptables/rules.v4"]
    );
    assert_eq!(
        lines(&FirewallManager::restore_rules()),
        vec!["sudo iptables-restore < /etc/iptables/rules.v4"]
    );
}

#[test]
fn configure_eth_passes_over_two_failures() {
    let plan = NetworkManager::configure_eth(&NetworkConfig::default());
    assert_eq!(
        lines(&plan),
        vec![
            "sudo ip addr flush dev eth0",
            "sudo ip addr add 192.168.100.1/24 dev eth0",
            "sudo ip link set eth0 up",
            "sudo ip route add default via 192.168.100.1",
            "sudo sysctl -w net.ipv4.ip_forward=1",
        ]
    );
    let tolerant: Vec<bool> = plan.iter().map(|c| c.best_effort).collect();
    assert_eq!(tolerant, vec![true, false, false, true, false]);
}

#[test]
fn base_posture_is_interface_then_filter() {
    let config = NetworkConfig::default();
    let plan = NetworkManager::apply_base_network_posture(&config);
    let mut want = lines(&NetworkManager::configure_eth(&config));
    want.extend(lines(&FirewallManager::init()));
    assert_eq!(lines(&plan), want);
    assert_eq!(plan.len(), 25);
}

#[test]
fn enable_nat_is_base_posture_masquerade_and_save() {
    let config = NetworkConfig::default();
    let plan = NetworkManager::enable_nat(&config);
    let base = lines(&NetworkManager::apply_base_network_posture(&config));
    let all = lines(&plan);
    assert_eq!(all.len(), base.len() + 2);
    assert_eq!(&all[..base.len()], &base[..]);
    assert_eq!(all[base.len()], "sudo iptables -t nat -A POSTROUTING -o wlan0 -j MASQUERADE");
    assert_eq!(all[base.len() + 1], "sudo sh -c iptables-save > /etc/iptables/rules.v4");
}

#[test]
fn disable_nat_flushes_two_chains_only() {
    assert_eq!(
        lines(&NetworkManager::disable_nat()),
        vec!["sudo iptables -F FORWARD", "sudo iptables -t nat -F POSTROUTING"]
    );
}

#[test]
fn stop_and_status() {
    assert_eq!(lines(&NetworkManager::stop_dhcp()), vec!["sudo systemctl stop dnsmasq"]);
    assert_eq!(
        lines(&NetworkManager::status()),
        vec!["ip -4 addr show eth0", "cat /proc/sys/net/ipv4/ip_forward"]
    );
    assert_eq!(
        NetworkManager::status_report("2: eth0: <UP>\n    inet 192.168.100.1/24\n", " 1\n"),
        "ETH0:\n2: eth0: <UP>\n    inet 192.168.100.1/24\n\nIP Forwarding: 1"
    );
}

#[test]
fn default_config_values() {
    let c = NetworkConfig::default();
    assert_eq!(c.eth_ip, "192.168.100.1");
    assert_eq!(c.eth_netmask, "255.255.255.0");
    assert_eq!(c.eth_cidr, 24);
    assert_eq!(c.dhcp_start, "192.168.100.50");
    assert_eq!(c.dhcp_end, "192.168.100.200");
    assert_eq!(c.dns_upstream, vec!["8.8.8.8", "8.8.4.4"]);
    assert_eq!(c.dns_domain, "piwifi.local");
    assert!(c.nat_enabled && c.firewall_enabled);
    assert_eq!(c.dhcp_option_60.as_deref(), Some("PiWifi-EdgeRouter"));
    assert_eq!(c.dhcp_option_61, None);
    assert_eq!(c.dhcp_option_vendor_name.as_deref(), Some("PiWifi"));
}

#[test]
fn start_dhcp_writes_the_configuration_before_the_restart() {
    let u = NetworkManager::start_dhcp(&NetworkConfig::default());
    assert_eq!(u.path, "/etc/dnsmasq.d/piwifi.conf");
    assert_eq!(
        lines(&u.plan),
        vec!["sudo systemctl enable dnsmasq", "sudo systemctl restart dnsmasq"]
    );
    let want = "# PiWifi dnsmasq configuration\n# DHCP server\ninterface=eth0\nbind-interfaces\nlisten-address=192.168.100.1\ndhcp-range=192.168.100.50,192.168.100.200\ndhcp-lease-max=250\ndhcp-option=option:router,192.168.100.1\ndhcp-option=option:dns-server,192.168.100.1\n\n# DHCP Edge Router Options (RFC 2132)\n# Option 60: Vendor Class Identifier - identifies this as PiWifi router to upstream DHCP\n# Option 61: Client Identifier - specific hardware identification\ndhcp-option=option:vendor-class-identifier,PiWifi-EdgeRouter\n\n# DNS settings\ndomain=piwifi.local\nlocal=/piwifi.local\nexpand-hosts\n\n# Upstream DNS servers\nserver=8.8.8.8\nserver=8.8.4.4\n\n# Performance\ncache-size=1000\nlog-queries\nlog-facility=/var/log/dnsmasq.log\n\n# Don't read /etc/hosts\nno-hosts\nno-resolv\n\n# Security\nserver=/google.com/8.8.8.8\naddress=/#/127.0.0.1\n";
    assert_eq!(u.contents, want);
}

#[test]
fn dnsmasq_config_with_both_options_and_no_resolver() {
    let mut c = NetworkConfig::default();
    c.dhcp_option_60 = None;
    c.dhcp_option_61 = Some("01:02".to_string());
    c.dns_upstream.clear();
    let text = NetworkManager::render_dnsmasq_config(&c);
    assert!(text.contains("identification\ndhcp-option=option:client-id,01:02\n\n# DNS settings\n"));
    assert!(text.contains("# Upstream DNS servers\n\n\n# Performance\n"));
    c.dhcp_option_60 = Some("X".to_string());
    let text = NetworkManager::render_dnsmasq_config(&c);
    assert!(text.contains(
        "dhcp-option=option:vendor-class-identifier,X\ndhcp-option=option:client-id,01:02\n\n# DNS"
    ));
    c.dhcp_option_60 = None;
    c.dhcp_option_61 = None;
    let text = NetworkManager::render_dnsmasq_config(&c);
    assert!(text.contains("identification\n\n\n# DNS settings\n"));
}

#[test]
fn a_plan_stops_at_the_first_failure_that_counts() {
    let plan = NetworkManager::configure_eth(&NetworkConfig::default());
    assert_eq!(begin(&plan), Progress::Run(0));
    // The flush may fail.
    assert_eq!(advance(&plan, 0, false), Progress::Run(1));
    assert_eq!(advance(&plan, 1, true), Progress::Run(2));
    assert_eq!(advance(&plan, 2, false), Progress::Failed(2));
    assert_eq!(advance(&plan, 3, false), Progress::Run(4));
    assert_eq!(advance(&plan, 4, true), Progress::Finished);
    assert_eq!(advance(&plan, 4, false), Progress::Failed(4));
    assert_eq!(advance(&plan, 5, false), Progress::Finished);
    assert_eq!(begin(&Vec::new()), Progress::Finished);
}

#[test]
fn a_command_reports_what_its_program_wrote_or_why_it_failed() {
    let plain = SystemCommand::run("ip", &["-4", "addr"]);
    assert_eq!(plain.shell_line(), "ip -4 addr");
    assert!(!plain.sudo);
    let ok = plain.outcome(CommandOutput { success: true, stdout: "out".to_string(), stderr: "warn".to_string() });
    assert_eq!(ok.unwrap(), "out");
    let bad = plain.outcome(CommandOutput { success: false, stdout: "out".to_string(), stderr: "boom".to_string() });
    assert_eq!(bad.unwrap_err().message, "Command failed: ip boom");
    let elevated = SystemCommand::run_sudo("iptables", &[]);
    assert_eq!(elevated.shell_line(), "sudo iptables ");
    let bad = elevated.outcome(CommandOutput { success: false, stdout: String::new(), stderr: "denied".to_string() });
    assert_eq!(bad.unwrap_err().message, "Command failed: denied");
    assert!(SystemCommand::run("x", &[]).ignoring_failure().best_effort);
}

fn gave(success: bool, stdout: &str, stderr: &str) -> CommandOutput {
    CommandOutput { success, stdout: stdout.to_string(), stderr: stderr.to_string() }
}

#[test]
fn a_run_returns_what_every_request_wrote() {
    let mut run = PlanRun::start(NetworkManager::status());
    assert_eq!(run.current().unwrap().shell_line(), "ip -4 addr show eth0");
    run.report(gave(true, "addresses", ""));
    assert_eq!(run.current().unwrap().shell_line(), "cat /proc/sys/net/ipv4/ip_forward");
    run.report(gave(true, "1", "noise"));
    assert!(run.current().is_none());
    assert_eq!(run.finish().unwrap(), vec!["addresses", "1"]);
}

#[test]
fn a_run_returns_the_first_error_and_runs_nothing_after_it() {
    let mut run = PlanRun::start(NetworkManager::configure_eth(&NetworkConfig::default()));
    // The flush may fail: it counts as having written nothing.
    run.report(gave(false, "ignored", "no such device"));
    assert_eq!(run.current().unwrap().shell_line(), "sudo ip addr add 192.168.100.1/24 dev eth0");
    run.report(gave(true, "ok", ""));
    run.report(gave(false, "", "link is busy"));
    assert!(run.current().is_none());
    // What is reported after the failure changes nothing.
    run.report(gave(false, "", "later"));
    run.report(gave(true, "later", ""));
    assert_eq!(run.finish().unwrap_err().message, "Command failed: link is busy");
}

#[test]
fn a_run_that_is_not_over_has_no_result() {
    let run = PlanRun::start(FirewallManager::init());
    assert_eq!(run.finish().unwrap_err().message, "Command not run");
    let run = PlanRun::start(Vec::new());
    assert!(run.current().is_none());
    assert!(run.finish().unwrap().is_empty());
}

#[test]
fn a_failure_that_is_passed_over_lets_the_run_finish() {
    let mut run = PlanRun::start(vec![SystemCommand::run("true", &[]).ignoring_failure()]);
    run.report(gave(false, "x", "y"));
    assert_eq!(run.finish().unwrap(), vec![""]);
}
