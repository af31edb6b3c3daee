//! The LAN side of the router: its configuration, the requests that set the
//! interface up, the address translation, and the DHCP and DNS service.

use vstd::prelude::*;
use crate::command::{
    owned, plain, plan_view, sudo, tolerant, Command, CommandView, ConfigUpdate, SystemCommand,
};
use crate::firewall::{init_plan, iptables, lan, uplink, FirewallManager};
use crate::text::{
    append_chars, append_str, chars_of, decimal_chars, decimal_digits, string_of, texts, trim,
    trim_end, trimmed, trimmed_end,
};

verus! {

/// What the LAN side is set up with.
#[derive(Debug)]
pub struct NetworkConfig {
    /// The address of the LAN interface.
    pub eth_ip: String,
    pub eth_netmask: String,
    /// The prefix length that goes with the address.
    pub eth_cidr: u8,
    /// The first address of the DHCP pool.
    pub dhcp_start: String,
    /// The last address of the DHCP pool.
    pub dhcp_end: String,
    /// The resolvers that DNS queries are passed on to.
    pub dns_upstream: Vec<String>,
    /// The local DNS domain.
    pub dns_domain: String,
    pub nat_enabled: bool,
    pub firewall_enabled: bool,
    /// The vendor class to announce (DHCP option 60).
    pub dhcp_option_60: Option<String>,
    /// The client identifier to announce (DHCP option 61).
    pub dhcp_option_61: Option<String>,
    pub dhcp_option_vendor_name: Option<String>,
}

/// What a [`NetworkConfig`] holds.
pub struct NetworkConfigView {
    pub eth_ip: Seq<char>,
    pub eth_netmask: Seq<char>,
    pub eth_cidr: u8,
    pub dhcp_start: Seq<char>,
    pub dhcp_end: Seq<char>,
    pub dns_upstream: Seq<Seq<char>>,
    pub dns_domain: Seq<char>,
    pub nat_enabled: bool,
    pub firewall_enabled: bool,
    pub dhcp_option_60: Option<Seq<char>>,
    pub dhcp_option_61: Option<Seq<char>>,
    pub dhcp_option_vendor_name: Option<Seq<char>>,
}

impl View for NetworkConfig {
    type V = NetworkConfigView;

    open spec fn view(&self) -> NetworkConfigView {
        NetworkConfigView {
            eth_ip: self.eth_ip@,
            eth_netmask: self.eth_netmask@,
            eth_cidr: self.eth_cidr,
            dhcp_start: self.dhcp_start@,
            dhcp_end: self.dhcp_end@,
            dns_upstream: texts(self.dns_upstream@),
            dns_domain: self.dns_domain@,
            nat_enabled: self.nat_enabled,
            firewall_enabled: self.firewall_enabled,
            dhcp_option_60: self.dhcp_option_60.deep_view(),
            dhcp_option_61: self.dhcp_option_61.deep_view(),
            dhcp_option_vendor_name: self.dhcp_option_vendor_name.deep_view(),
        }
    }
}

/// The configuration that is used where none is given.
pub open spec fn default_config() -> NetworkConfigView {
    NetworkConfigView {
        eth_ip: "192.168.100.1"@,
        eth_netmask: "255.255.255.0"@,
        eth_cidr: 24,
        dhcp_start: "192.168.100.50"@,
        dhcp_end: "192.168.100.200"@,
        dns_upstream: seq!["8.8.8.8"@, "8.8.4.4"@],
        dns_domain: "piwifi.local"@,
        nat_enabled: true,
        firewall_enabled: true,
        dhcp_option_60: Some("PiWifi-EdgeRouter"@),
        dhcp_option_61: None,
        dhcp_option_vendor_name: Some("PiWifi"@),
    }
}

impl Default for NetworkConfig {
    fn default() -> (c: Self)
        ensures
            c@ == default_config(),
    {
        let c = NetworkConfig {
            eth_ip: "192.168.100.1".to_string(),
            eth_netmask: "255.255.255.0".to_string(),
            eth_cidr: 24,
            dhcp_start: "192.168.100.50".to_string(),
            dhcp_end: "192.168.100.200".to_string(),
            dns_upstream: owned(&["8.8.8.8", "8.8.4.4"]),
            dns_domain: "piwifi.local".to_string(),
            nat_enabled: true,
            firewall_enabled: true,
            dhcp_option_60: Some("PiWifi-EdgeRouter".to_string()),
            dhcp_option_61: None,
            dhcp_option_vendor_name: Some("PiWifi".to_string()),
        };
        assert(c@.dns_upstream =~= seq!["8.8.8.8"@, "8.8.4.4"@]);
        c
    }
}

/// A call of the interface tool with elevated rights.
pub open spec fn ip_tool(args: Seq<Seq<char>>) -> CommandView {
    sudo("ip"@, args)
}

/// The requests that set the LAN interface up: the addresses that it has
/// are removed (a failure is passed over); the configured address is
/// assigned; the interface is brought up; a default route is installed (a
/// failure is passed over); forwarding between interfaces is switched on.
pub open spec fn configure_eth_plan(c: NetworkConfigView) -> Seq<CommandView> {
    seq![
        tolerant(ip_tool(seq!["addr"@, "flush"@, "dev"@, lan()])),
        ip_tool(
            seq![
                "addr"@,
                "add"@,
                c.eth_ip + "/"@ + decimal_digits(c.eth_cidr as nat),
                "dev"@,
                lan(),
            ],
        ),
        ip_tool(seq!["link"@, "set"@, lan(), "up"@]),
        tolerant(ip_tool(seq!["route"@, "add"@, "default"@, "via"@, c.eth_ip])),
        sudo("sysctl"@, seq!["-w"@, "net.ipv4.ip_forward=1"@]),
    ]
}

/// The base posture of the network: the LAN interface is set up, then the
/// packet filter is brought into its default posture.
pub open spec fn base_posture_plan(c: NetworkConfigView) -> Seq<CommandView> {
    configure_eth_plan(c) + init_plan()
}

/// What leaves through the uplink is given the uplink's address.
pub open spec fn masquerade_rule() -> CommandView {
    iptables(
        seq!["-t"@, "nat"@, "-A"@, "POSTROUTING"@, "-o"@, uplink(), "-j"@, "MASQUERADE"@],
    )
}

/// The request that writes the rules in force to the rules file.
pub open spec fn save_rules_command() -> CommandView {
    sudo("sh"@, seq!["-c"@, "iptables-save > /etc/iptables/rules.v4"@])
}

/// Address translation: the base posture, then the masquerading rule, then
/// the rules are written to the rules file.
pub open spec fn enable_nat_plan(c: NetworkConfigView) -> Seq<CommandView> {
    base_posture_plan(c) + seq![masquerade_rule(), save_rules_command()]
}

/// The end of address translation: the forward chain and the chain of the
/// NAT table that rewrites what leaves are emptied, and nothing else.
pub open spec fn disable_nat_plan() -> Seq<CommandView> {
    seq![
        iptables(seq!["-F"@, "FORWARD"@]),
        iptables(seq!["-t"@, "nat"@, "-F"@, "POSTROUTING"@]),
    ]
}

/// The lines that announce the vendor class and the client identifier to
/// the upstream network, for those of the two that are configured, without
/// the white space at the end.
pub open spec fn dhcp_options(c: NetworkConfigView) -> Seq<char> {
    trimmed_end(
        (match c.dhcp_option_60 {
            Some(v) => "dhcp-option=option:vendor-class-identifier,"@ + v + "\n"@,
            None => Seq::empty(),
        }) + (match c.dhcp_option_61 {
            Some(v) => "dhcp-option=option:client-id,"@ + v + "\n"@,
            None => Seq::empty(),
        }),
    )
}

/// One `server=` line for each upstream resolver, with a line feed between
/// each two lines.
pub open spec fn upstream_servers(dns: Seq<Seq<char>>) -> Seq<char>
    decreases dns.len(),
{
    if dns.len() == 0 {
        Seq::empty()
    } else if dns.len() == 1 {
        "server="@ + dns[0]
    } else {
        upstream_servers(dns.drop_last()) + "\n"@ + "server="@ + dns.last()
    }
}

/// The configuration of the DHCP and DNS service for the LAN side.
pub open spec fn dnsmasq_config(c: NetworkConfigView) -> Seq<char> {
    "# PiWifi dnsmasq configuration\n# DHCP server\ninterface=eth0\nbind-interfaces\nlisten-address="@
        + c.eth_ip + "\ndhcp-range="@ + c.dhcp_start + ","@ + c.dhcp_end
        + "\ndhcp-lease-max=250\ndhcp-option=option:router,"@ + c.eth_ip
        + "\ndhcp-option=option:dns-server,"@ + c.eth_ip
        + "\n\n# DHCP Edge Router Options (RFC 2132)\n# Option 60: Vendor Class Identifier - identifies this as PiWifi router to upstream DHCP\n# Option 61: Client Identifier - specific hardware identification\n"@
        + dhcp_options(c) + "\n\n# DNS settings\ndomain="@ + c.dns_domain + "\nlocal=/"@
        + c.dns_domain + "\nexpand-hosts\n\n# Upstream DNS servers\n"@ + upstream_servers(
        c.dns_upstream,
    )
        + "\n\n# Performance\ncache-size=1000\nlog-queries\nlog-facility=/var/log/dnsmasq.log\n\n# Don't read /etc/hosts\nno-hosts\nno-resolv\n\n# Security\nserver=/google.com/8.8.8.8\naddress=/#/127.0.0.1\n"@
}

/// The requests that make the service start at boot and start it anew.
pub open spec fn start_service_plan() -> Seq<CommandView> {
    seq![
        sudo("systemctl"@, seq!["enable"@, "dnsmasq"@]),
        sudo("systemctl"@, seq!["restart"@, "dnsmasq"@]),
    ]
}

/// Address translation is switched on last: in the plan that switches it
/// on, the interface is set up first, then the packet filter is brought
/// into its default posture, and only then is the masquerading rule
/// appended; writing the rules to the rules file is the last request.
pub proof fn lemma_nat_order(c: NetworkConfigView)
    ensures
        enable_nat_plan(c).len() == 27,
        enable_nat_plan(c).subrange(0, 5) == configure_eth_plan(c),
        enable_nat_plan(c).subrange(5, 25) == init_plan(),
        enable_nat_plan(c)[25] == masquerade_rule(),
        enable_nat_plan(c)[26] == save_rules_command(),
        crate::firewall::is_rule(enable_nat_plan(c)[25]),
{
    crate::firewall::lemma_init_order();
    let p = enable_nat_plan(c);
    assert(configure_eth_plan(c).len() == 5);
    assert(p.subrange(0, 5) =~= configure_eth_plan(c));
    assert(p.subrange(5, 25) =~= init_plan());
}

/// Appends the requests of `more` to `plan`.
pub fn extend_plan(plan: &mut Vec<Command>, more: Vec<Command>)
    ensures
        plan_view(final(plan)@) == plan_view(old(plan)@) + plan_view(more@),
{
    let mut more = more;
    let ghost m = more@;
    plan.append(&mut more);
    assert(plan_view(plan@) =~= plan_view(old(plan)@) + plan_view(m));
}

pub struct NetworkManager;

impl NetworkManager {
    /// The requests that set the LAN interface up: see
    /// [`configure_eth_plan`].
    pub fn configure_eth(config: &NetworkConfig) -> (plan: Vec<Command>)
        ensures
            plan_view(plan@) == configure_eth_plan(config@),
    {
        let ghost want = configure_eth_plan(config@);
        let mut addr: Vec<char> = chars_of(config.eth_ip.as_str());
        append_str(&mut addr, "/");
        let digits = decimal_chars(config.eth_cidr as u64);
        append_chars(&mut addr, digits.as_slice());
        let addr = string_of(addr.as_slice());
        let c0 = SystemCommand::run_sudo("ip", &["addr", "flush", "dev", "eth0"]).ignoring_failure();
        assert(c0@.args =~= want[0].args);
        let c1 = SystemCommand::run_sudo("ip", &["addr", "add", addr.as_str(), "dev", "eth0"]);
        assert(c1@.args =~= want[1].args);
        let c2 = SystemCommand::run_sudo("ip", &["link", "set", "eth0", "up"]);
        assert(c2@.args =~= want[2].args);
        let c3 = SystemCommand::run_sudo(
            "ip",
            &["route", "add", "default", "via", config.eth_ip.as_str()],
        ).ignoring_failure();
        assert(c3@.args =~= want[3].args);
        let c4 = SystemCommand::run_sudo("sysctl", &["-w", "net.ipv4.ip_forward=1"]);
        assert(c4@.args =~= want[4].args);
        let mut plan: Vec<Command> = Vec::new();
        plan.push(c0);
        plan.push(c1);
        plan.push(c2);
        plan.push(c3);
        plan.push(c4);
        assert(plan_view(plan@) =~= want);
        plan
    }

    /// The requests that bring the network into its base posture: the LAN
    /// interface first, then the packet filter. Running them again is the
    /// way to reset the network to its defaults.
    pub fn apply_base_network_posture(config: &NetworkConfig) -> (plan: Vec<Command>)
        ensures
            plan_view(plan@) == base_posture_plan(config@),
    {
        let mut plan = Self::configure_eth(config);
        extend_plan(&mut plan, FirewallManager::init());
        plan
    }

    /// The requests that switch address translation on: see
    /// [`enable_nat_plan`].
    pub fn enable_nat(config: &NetworkConfig) -> (plan: Vec<Command>)
        ensures
            plan_view(plan@) == enable_nat_plan(config@),
    {
        let mut plan = Self::apply_base_network_posture(config);
        let c = SystemCommand::run_sudo(
            "iptables",
            &["-t", "nat", "-A", "POSTROUTING", "-o", "wlan0", "-j", "MASQUERADE"],
        );
        assert(c@.args =~= masquerade_rule().args);
        let mut tail: Vec<Command> = Vec::new();
        tail.push(c);
        extend_plan(&mut tail, Self::save_iptables_rules());
        assert(plan_view(tail@) =~= seq![masquerade_rule(), save_rules_command()]);
        extend_plan(&mut plan, tail);
        plan
    }

    /// The request that writes the rules in force to the rules file.
    pub fn save_iptables_rules() -> (plan: Vec<Command>)
        ensures
            plan_view(plan@) == seq![save_rules_command()],
    {
        let c = SystemCommand::run_sudo("sh", &["-c", "iptables-save > /etc/iptables/rules.v4"]);
        assert(c@.args =~= save_rules_command().args);
        let mut plan: Vec<Command> = Vec::new();
        plan.push(c);
        assert(plan_view(plan@) =~= seq![save_rules_command()]);
        plan
    }

    /// The requests that switch address translation off: see
    /// [`disable_nat_plan`].
    pub fn disable_nat() -> (plan: Vec<Command>)
        ensures
            plan_view(plan@) == disable_nat_plan(),
    {
        let c0 = SystemCommand::run_sudo("iptables", &["-F", "FORWARD"]);
        assert(c0@.args =~= disable_nat_plan()[0].args);
        let c1 = SystemCommand::run_sudo("iptables", &["-t", "nat", "-F", "POSTROUTING"]);
        assert(c1@.args =~= disable_nat_plan()[1].args);
        let mut plan: Vec<Command> = Vec::new();
        plan.push(c0);
        plan.push(c1);
        assert(plan_view(plan@) =~= disable_nat_plan());
        plan
    }

    /// The configuration of the DHCP and DNS service: see
    /// [`dnsmasq_config`].
    pub fn render_dnsmasq_config(config: &NetworkConfig) -> (out: String)
        ensures
            out@ == dnsmasq_config(config@),
    {
        let mut options: Vec<char> = Vec::new();
        if let Some(v) = &config.dhcp_option_60 {
            append_str(&mut options, "dhcp-option=option:vendor-class-identifier,");
            append_str(&mut options, v.as_str());
            append_str(&mut options, "\n");
        }
        let ghost first = options@;
        if let Some(v) = &config.dhcp_option_61 {
            append_str(&mut options, "dhcp-option=option:client-id,");
            append_str(&mut options, v.as_str());
            append_str(&mut options, "\n");
        }
        proof {
            let a = match config@.dhcp_option_60 {
                Some(v) => "dhcp-option=option:vendor-class-identifier,"@ + v + "\n"@,
                None => Seq::empty(),
            };
            let b = match config@.dhcp_option_61 {
                Some(v) => "dhcp-option=option:client-id,"@ + v + "\n"@,
                None => Seq::empty(),
            };
            assert(first =~= a);
            assert(options@ =~= a + b);
        }
        let options = trim_end(options.as_slice());
        let mut servers: Vec<char> = Vec::new();
        let ghost dns = config@.dns_upstream;
        let mut i: usize = 0;
        assert(dns.take(0) =~= Seq::<Seq<char>>::empty());
        while i < config.dns_upstream.len()
            invariant
                i <= config.dns_upstream.len(),
                dns == config@.dns_upstream,
                servers@ == upstream_servers(dns.take(i as int)),
            decreases config.dns_upstream.len() - i,
        {
            let ghost before = servers@;
            if i > 0 {
                append_str(&mut servers, "\n");
            }
            append_str(&mut servers, "server=");
            append_str(&mut servers, config.dns_upstream[i].as_str());
            proof {
                let next = dns.take(i + 1);
                assert(next.drop_last() =~= dns.take(i as int));
                assert(next.last() == config.dns_upstream@[i as int]@);
                if i == 0 {
                    assert(servers@ =~= "server="@ + next[0]);
                } else {
                    assert(servers@ =~= before + "\n"@ + "server="@ + next.last());
                }
            }
            i += 1;
        }
        assert(dns.take(dns.len() as int) =~= dns);
        let mut out: Vec<char> = Vec::new();
        append_str(
            &mut out,
            "# PiWifi dnsmasq configuration\n# DHCP server\ninterface=eth0\nbind-interfaces\nlisten-address=",
        );
        append_str(&mut out, config.eth_ip.as_str());
        append_str(&mut out, "\ndhcp-range=");
        append_str(&mut out, config.dhcp_start.as_str());
        append_str(&mut out, ",");
        append_str(&mut out, config.dhcp_end.as_str());
        append_str(&mut out, "\ndhcp-lease-max=250\ndhcp-option=option:router,");
        append_str(&mut out, config.eth_ip.as_str());
        append_str(&mut out, "\ndhcp-option=option:dns-server,");
        append_str(&mut out, config.eth_ip.as_str());
        append_str(
            &mut out,
            "\n\n# DHCP Edge Router Options (RFC 2132)\n# Option 60: Vendor Class Identifier - identifies this as PiWifi router to upstream DHCP\n# Option 61: Client Identifier - specific hardware identification\n",
        );
        append_chars(&mut out, options.as_slice());
        append_str(&mut out, "\n\n# DNS settings\ndomain=");
        append_str(&mut out, config.dns_domain.as_str());
        append_str(&mut out, "\nlocal=/");
        append_str(&mut out, config.dns_domain.as_str());
        append_str(&mut out, "\nexpand-hosts\n\n# Upstream DNS servers\n");
        append_chars(&mut out, servers.as_slice());
        append_str(
            &mut out,
            "\n\n# Performance\ncache-size=1000\nlog-queries\nlog-facility=/var/log/dnsmasq.log\n\n# Don't read /etc/hosts\nno-hosts\nno-resolv\n\n# Security\nserver=/google.com/8.8.8.8\naddress=/#/127.0.0.1\n",
        );
        assert(out@ =~= dnsmasq_config(config@));
        string_of(out.as_slice())
    }

    /// The change that starts the DHCP and DNS service: its configuration
    /// is written, then the service is enabled and restarted.
    pub fn start_dhcp(config: &NetworkConfig) -> (u: ConfigUpdate)
        ensures
            u.path@ == "/etc/dnsmasq.d/piwifi.conf"@,
            u.contents@ == dnsmasq_config(config@),
            plan_view(u.plan@) == start_service_plan(),
    {
        let c0 = SystemCommand::run_sudo("systemctl", &["enable", "dnsmasq"]);
        assert(c0@.args =~= seq!["enable"@, "dnsmasq"@]);
        let c1 = SystemCommand::run_sudo("systemctl", &["restart", "dnsmasq"]);
        assert(c1@.args =~= seq!["restart"@, "dnsmasq"@]);
        let mut plan: Vec<Command> = Vec::new();
        plan.push(c0);
        plan.push(c1);
        assert(plan_view(plan@) =~= start_service_plan());
        ConfigUpdate {
            path: "/etc/dnsmasq.d/piwifi.conf".to_string(),
            contents: Self::render_dnsmasq_config(config),
            plan,
        }
    }

    /// The request that stops the DHCP and DNS service.
    pub fn stop_dhcp() -> (plan: Vec<Command>)
        ensures
            plan_view(plan@) == seq![sudo("systemctl"@, seq!["stop"@, "dnsmasq"@])],
    {
        let c = SystemCommand::run_sudo("systemctl", &["stop", "dnsmasq"]);
        assert(c@.args =~= seq!["stop"@, "dnsmasq"@]);
        let mut plan: Vec<Command> = Vec::new();
        plan.push(c);
        assert(plan_view(plan@) =~= seq![sudo("systemctl"@, seq!["stop"@, "dnsmasq"@])]);
        plan
    }

    /// The two requests whose output the status report is made of: the
    /// addresses of the LAN interface, and the forwarding switch.
    pub fn status() -> (plan: Vec<Command>)
        ensures
            plan_view(plan@) == seq![
                plain("ip"@, seq!["-4"@, "addr"@, "show"@, lan()]),
                plain("cat"@, seq!["/proc/sys/net/ipv4/ip_forward"@]),
            ],
    {
        let c0 = SystemCommand::run("ip", &["-4", "addr", "show", "eth0"]);
        assert(c0@.args =~= seq!["-4"@, "addr"@, "show"@, lan()]);
        let c1 = SystemCommand::run("cat", &["/proc/sys/net/ipv4/ip_forward"]);
        assert(c1@.args =~= seq!["/proc/sys/net/ipv4/ip_forward"@]);
        let mut plan: Vec<Command> = Vec::new();
        plan.push(c0);
        plan.push(c1);
        assert(plan_view(plan@) =~= seq![
            plain("ip"@, seq!["-4"@, "addr"@, "show"@, lan()]),
            plain("cat"@, seq!["/proc/sys/net/ipv4/ip_forward"@]),
        ]);
        plan
    }

    /// The status report, made of what the two requests of
    /// [`status`](Self::status) wrote.
    pub fn status_report(eth_status: &str, forward_enabled: &str) -> (report: String)
        ensures
            report@ == "ETH0:\n"@ + eth_status@ + "\nIP Forwarding: "@ + trimmed(forward_enabled@),
    {
        let mut out: Vec<char> = chars_of("ETH0:\n");
        append_str(&mut out, eth_status);
        append_str(&mut out, "\nIP Forwarding: ");
        let f = chars_of(forward_enabled);
        let t = trim(f.as_slice());
        append_chars(&mut out, t.as_slice());
        string_of(out.as_slice())
    }
}

} // verus!
