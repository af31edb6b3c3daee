//! The packet filter: the requests that bring it into its default posture,
//! and the requests for single rules.

use vstd::prelude::*;
use crate::command::{plan_view, sudo, Command, CommandView, SystemCommand};
use crate::text::{decimal_chars, decimal_digits, string_of};

verus! {

/// A rule of the packet filter as a caller describes it.
#[derive(Debug)]
pub struct FirewallRule {
    pub name: String,
    pub protocol: String,
    pub port: u16,
    /// `ACCEPT`, `DROP` or `REJECT`.
    pub action: String,
}

/// The interface that serves the downstream clients.
pub open spec fn lan() -> Seq<char> {
    "eth0"@
}

/// The interface that carries the association to the upstream network.
pub open spec fn uplink() -> Seq<char> {
    "wlan0"@
}

/// A call of the packet filter's tool.
pub open spec fn iptables(args: Seq<Seq<char>>) -> CommandView {
    sudo("iptables"@, args)
}

/// Empties every chain and removes every user chain of the filter, NAT and
/// mangle tables.
pub open spec fn flush_everything() -> Seq<CommandView> {
    seq![
        iptables(seq!["-F"@]),
        iptables(seq!["-X"@]),
        iptables(seq!["-t"@, "nat"@, "-F"@]),
        iptables(seq!["-t"@, "nat"@, "-X"@]),
        iptables(seq!["-t"@, "mangle"@, "-F"@]),
        iptables(seq!["-t"@, "mangle"@, "-X"@]),
    ]
}

/// Default policies: what comes in or passes through is dropped, what goes
/// out is accepted.
pub open spec fn default_policies() -> Seq<CommandView> {
    seq![
        iptables(seq!["-P"@, "INPUT"@, "DROP"@]),
        iptables(seq!["-P"@, "OUTPUT"@, "ACCEPT"@]),
        iptables(seq!["-P"@, "FORWARD"@, "DROP"@]),
    ]
}

/// Loopback traffic is accepted.
pub open spec fn accept_loopback() -> CommandView {
    iptables(seq!["-A"@, "INPUT"@, "-i"@, "lo"@, "-j"@, "ACCEPT"@])
}

/// Traffic of established and related connections is accepted.
pub open spec fn accept_established() -> CommandView {
    iptables(
        seq![
            "-A"@,
            "INPUT"@,
            "-m"@,
            "state"@,
            "--state"@,
            "RELATED,ESTABLISHED"@,
            "-j"@,
            "ACCEPT"@,
        ],
    )
}

/// New connections to `port` that come in on `interface` are accepted.
pub open spec fn allow_rule(interface: Seq<char>, protocol: Seq<char>, port: u16) -> CommandView {
    iptables(
        seq![
            "-A"@,
            "INPUT"@,
            "-i"@,
            interface,
            "-p"@,
            protocol,
            "--dport"@,
            decimal_digits(port as nat),
            "-m"@,
            "state"@,
            "--state"@,
            "NEW"@,
            "-j"@,
            "ACCEPT"@,
        ],
    )
}

/// Traffic to `port` that comes in on `interface` is dropped.
pub open spec fn block_rule(interface: Seq<char>, protocol: Seq<char>, port: u16) -> CommandView {
    iptables(
        seq![
            "-A"@,
            "INPUT"@,
            "-i"@,
            interface,
            "-p"@,
            protocol,
            "--dport"@,
            decimal_digits(port as nat),
            "-j"@,
            "DROP"@,
        ],
    )
}

/// Traffic to `port` that comes in on `interface` is accepted up to 25
/// packets a minute after a burst of 100.
pub open spec fn limit_rule(interface: Seq<char>, protocol: Seq<char>, port: u16) -> CommandView {
    iptables(
        seq![
            "-A"@,
            "INPUT"@,
            "-i"@,
            interface,
            "-p"@,
            protocol,
            "--dport"@,
            decimal_digits(port as nat),
            "-m"@,
            "limit"@,
            "--limit"@,
            "25/minute"@,
            "--limit-burst"@,
            "100"@,
            "-j"@,
            "ACCEPT"@,
        ],
    )
}

/// Traffic of `protocol` to the ports `ports` that comes in on the LAN
/// interface is accepted.
pub open spec fn accept_service(protocol: Seq<char>, ports: Seq<char>) -> CommandView {
    iptables(
        seq!["-A"@, "INPUT"@, "-i"@, lan(), "-p"@, protocol, "--dport"@, ports, "-j"@, "ACCEPT"@],
    )
}

/// Echo traffic is accepted.
pub open spec fn accept_icmp() -> CommandView {
    iptables(seq!["-A"@, "INPUT"@, "-p"@, "icmp"@, "-j"@, "ACCEPT"@])
}

/// Traffic that passes from `from` to `to` is accepted in the connection
/// states `states`.
pub open spec fn forward_rule(from: Seq<char>, to: Seq<char>, states: Seq<char>) -> CommandView {
    iptables(
        seq![
            "-A"@,
            "FORWARD"@,
            "-i"@,
            from,
            "-o"@,
            to,
            "-m"@,
            "state"@,
            "--state"@,
            states,
            "-j"@,
            "ACCEPT"@,
        ],
    )
}

/// The default posture of the packet filter, in the order in which it is
/// brought about: everything is flushed; the default policies are set; then
/// the exceptions are appended: loopback, established connections, the
/// management ports (22, 80, 443) on the LAN interface, DHCP and DNS on the
/// LAN interface, echo traffic, and forwarding, where sessions may be opened
/// from the LAN towards the uplink and only answers come back.
pub open spec fn init_plan() -> Seq<CommandView> {
    flush_everything() + default_policies() + seq![
        accept_loopback(),
        accept_established(),
        allow_rule(lan(), "tcp"@, 22),
        allow_rule(lan(), "tcp"@, 80),
        allow_rule(lan(), "tcp"@, 443),
        accept_service("udp"@, "67:68"@),
        accept_service("udp"@, "53"@),
        accept_service("tcp"@, "53"@),
        accept_icmp(),
        forward_rule(lan(), uplink(), "NEW,RELATED,ESTABLISHED"@),
        forward_rule(uplink(), lan(), "RELATED,ESTABLISHED"@),
    ]
}

/// The three rules that forward `external_port` to `internal_port` of
/// `internal_ip`: the redirection, the acceptance of the redirected traffic,
/// and the acceptance of the answers.
pub open spec fn port_forward_plan(
    external_port: u16,
    internal_ip: Seq<char>,
    internal_port: u16,
    protocol: Seq<char>,
) -> Seq<CommandView> {
    seq![
        iptables(
            seq![
                "-t"@,
                "nat"@,
                "-A"@,
                "PREROUTING"@,
                "-p"@,
                protocol,
                "--dport"@,
                decimal_digits(external_port as nat),
                "-j"@,
                "DNAT"@,
                "--to-destination"@,
                internal_ip + ":"@ + decimal_digits(internal_port as nat),
            ],
        ),
        iptables(
            seq![
                "-A"@,
                "FORWARD"@,
                "-p"@,
                protocol,
                "-d"@,
                internal_ip,
                "--dport"@,
                decimal_digits(internal_port as nat),
                "-m"@,
                "state"@,
                "--state"@,
                "NEW,RELATED,ESTABLISHED"@,
                "-j"@,
                "ACCEPT"@,
            ],
        ),
        iptables(
            seq![
                "-A"@,
                "FORWARD"@,
                "-p"@,
                protocol,
                "-s"@,
                internal_ip,
                "--sport"@,
                decimal_digits(internal_port as nat),
                "-m"@,
                "state"@,
                "--state"@,
                "RELATED,ESTABLISHED"@,
                "-j"@,
                "ACCEPT"@,
            ],
        ),
    ]
}

/// The rule that logs what reaches the end of the input chain.
pub open spec fn logging_rule() -> CommandView {
    iptables(
        seq![
            "-A"@,
            "INPUT"@,
            "-j"@,
            "LOG"@,
            "--log-prefix"@,
            "FIREWALL_DROP: "@,
            "--log-level"@,
            "7"@,
        ],
    )
}

/// What a call of the packet filter's tool does: its first argument, or
/// the third where the first two name a table.
pub open spec fn operation(c: CommandView) -> Seq<char> {
    if c.args.len() >= 3 && c.args[0] == "-t"@ {
        c.args[2]
    } else if c.args.len() >= 1 {
        c.args[0]
    } else {
        Seq::empty()
    }
}

/// A call that empties chains or removes them.
pub open spec fn is_flush(c: CommandView) -> bool {
    operation(c) == "-F"@ || operation(c) == "-X"@
}

/// A call that sets the default policy of a chain.
pub open spec fn is_policy(c: CommandView) -> bool {
    operation(c) == "-P"@
}

/// A call that appends a rule to a chain.
pub open spec fn is_rule(c: CommandView) -> bool {
    operation(c) == "-A"@
}

proof fn lemma_operations()
    ensures
        "-t"@ != "-F"@,
        "-t"@ != "-X"@,
        "-t"@ != "-P"@,
        "-t"@ != "-A"@,
        "-F"@ != "-X"@,
        "-F"@ != "-P"@,
        "-F"@ != "-A"@,
        "-X"@ != "-P"@,
        "-X"@ != "-A"@,
        "-P"@ != "-A"@,
{
    reveal_strlit("-t");
    reveal_strlit("-F");
    reveal_strlit("-X");
    reveal_strlit("-P");
    reveal_strlit("-A");
    assert("-t"@[1] == 't');
    assert("-F"@[1] == 'F');
    assert("-X"@[1] == 'X');
    assert("-P"@[1] == 'P');
    assert("-A"@[1] == 'A');
}

/// The default posture is brought about in three stages, and in this
/// order: first everything is flushed, then the default policies are set,
/// and only then are the rules appended that make exceptions from them. So
/// no rule of an earlier posture outlives the flush, and no exception is
/// in force before the policy that it is an exception from.
pub proof fn lemma_init_order()
    ensures
        init_plan().len() == 20,
        forall|i: int| 0 <= i < 6 ==> is_flush(#[trigger] init_plan()[i]),
        forall|i: int| 6 <= i < 9 ==> is_policy(#[trigger] init_plan()[i]),
        forall|i: int| 9 <= i < 20 ==> is_rule(#[trigger] init_plan()[i]),
        forall|i: int, j: int|
            0 <= i < 20 && 0 <= j < 20 && is_flush(#[trigger] init_plan()[i]) && is_policy(
                #[trigger] init_plan()[j],
            ) ==> i < j,
        forall|i: int, j: int|
            0 <= i < 20 && 0 <= j < 20 && is_policy(#[trigger] init_plan()[i]) && is_rule(
                #[trigger] init_plan()[j],
            ) ==> i < j,
{
    lemma_operations();
    let p = init_plan();
    assert(p.len() == 20);
    assert(is_flush(p[0]));
    assert(is_flush(p[1]));
    assert(is_flush(p[2]));
    assert(is_flush(p[3]));
    assert(is_flush(p[4]));
    assert(is_flush(p[5]));
    assert(is_policy(p[6]));
    assert(is_policy(p[7]));
    assert(is_policy(p[8]));
    assert(is_rule(p[9]));
    assert(is_rule(p[10]));
    assert(is_rule(p[11]));
    assert(is_rule(p[12]));
    assert(is_rule(p[13]));
    assert(is_rule(p[14]));
    assert(is_rule(p[15]));
    assert(is_rule(p[16]));
    assert(is_rule(p[17]));
    assert(is_rule(p[18]));
    assert(is_rule(p[19]));
}

/// The decimal writing of a port number.
pub fn port_text(port: u16) -> (s: String)
    ensures
        s@ == decimal_digits(port as nat),
{
    let d = decimal_chars(port as u64);
    string_of(d.as_slice())
}

pub struct FirewallManager;

impl FirewallManager {
    /// The requests that bring the packet filter into its default posture:
    /// see [`init_plan`].
    pub fn init() -> (plan: Vec<Command>)
        ensures
            plan_view(plan@) == init_plan(),
    {
        let mut plan: Vec<Command> = Vec::new();
        plan.push(SystemCommand::run_sudo("iptables", &["-F"]));
        plan.push(SystemCommand::run_sudo("iptables", &["-X"]));
        plan.push(SystemCommand::run_sudo("iptables", &["-t", "nat", "-F"]));
        plan.push(SystemCommand::run_sudo("iptables", &["-t", "nat", "-X"]));
        plan.push(SystemCommand::run_sudo("iptables", &["-t", "mangle", "-F"]));
        plan.push(SystemCommand::run_sudo("iptables", &["-t", "mangle", "-X"]));
        plan.push(SystemCommand::run_sudo("iptables", &["-P", "INPUT", "DROP"]));
        plan.push(SystemCommand::run_sudo("iptables", &["-P", "OUTPUT", "ACCEPT"]));
        plan.push(SystemCommand::run_sudo("iptables", &["-P", "FORWARD", "DROP"]));
        plan.push(SystemCommand::run_sudo("iptables", &["-A", "INPUT", "-i", "lo", "-j", "ACCEPT"]));
        plan.push(
            SystemCommand::run_sudo(
                "iptables",
                &["-A", "INPUT", "-m", "state", "--state", "RELATED,ESTABLISHED", "-j", "ACCEPT"],
            ),
        );
        plan.push(allow("eth0", "tcp", 22));
        plan.push(allow("eth0", "tcp", 80));
        plan.push(allow("eth0", "tcp", 443));
        plan.push(service("udp", "67:68"));
        plan.push(service("udp", "53"));
        plan.push(service("tcp", "53"));
        plan.push(SystemCommand::run_sudo("iptables", &["-A", "INPUT", "-p", "icmp", "-j", "ACCEPT"]));
        plan.push(forward("eth0", "wlan0", "NEW,RELATED,ESTABLISHED"));
        plan.push(forward("wlan0", "eth0", "RELATED,ESTABLISHED"));
        proof {
            let v = plan_view(plan@);
            let want = init_plan();
            assert(v.len() == want.len());
            assert(v[0].args =~= want[0].args);
            assert(v[1].args =~= want[1].args);
            assert(v[2].args =~= want[2].args);
            assert(v[3].args =~= want[3].args);
            assert(v[4].args =~= want[4].args);
            assert(v[5].args =~= want[5].args);
            assert(v[6].args =~= want[6].args);
            assert(v[7].args =~= want[7].args);
            assert(v[8].args =~= want[8].args);
            assert(v[9].args =~= want[9].args);
            assert(v[10].args =~= want[10].args);
            assert(v[17].args =~= want[17].args);
            assert(v =~= want);
        }
        plan
    }

    /// The request that lets new connections to `port` in on `interface`.
    /// Nothing is taken away: a second request adds a second rule.
    pub fn allow_port(interface: &str, protocol: &str, port: u16) -> (plan: Vec<Command>)
        ensures
            plan_view(plan@) == seq![allow_rule(interface@, protocol@, port)],
    {
        let mut plan: Vec<Command> = Vec::new();
        plan.push(allow(interface, protocol, port));
        assert(plan_view(plan@) =~= seq![allow_rule(interface@, protocol@, port)]);
        plan
    }

    /// The request that drops traffic to `port` that comes in on
    /// `interface`. Nothing is taken away: a second request adds a second
    /// rule.
    pub fn block_port(interface: &str, protocol: &str, port: u16) -> (plan: Vec<Command>)
        ensures
            plan_view(plan@) == seq![block_rule(interface@, protocol@, port)],
    {
        let mut plan: Vec<Command> = Vec::new();
        plan.push(block(interface, protocol, port));
        assert(plan_view(plan@) =~= seq![block_rule(interface@, protocol@, port)]);
        plan
    }

    /// The requests that limit the rate of traffic to `port`: what is within
    /// the limit is accepted, the rest is dropped.
    pub fn enable_rate_limit(interface: &str, protocol: &str, port: u16) -> (plan: Vec<Command>)
        ensures
            plan_view(plan@) == seq![
                limit_rule(interface@, protocol@, port),
                block_rule(interface@, protocol@, port),
            ],
    {
        let mut plan: Vec<Command> = Vec::new();
        let p = port_text(port);
        let c = SystemCommand::run_sudo(
            "iptables",
            &[
                "-A",
                "INPUT",
                "-i",
                interface,
                "-p",
                protocol,
                "--dport",
                p.as_str(),
                "-m",
                "limit",
                "--limit",
                "25/minute",
                "--limit-burst",
                "100",
                "-j",
                "ACCEPT",
            ],
        );
        assert(c@.args =~= limit_rule(interface@, protocol@, port).args);
        plan.push(c);
        plan.push(block(interface, protocol, port));
        assert(plan_view(plan@) =~= seq![
            limit_rule(interface@, protocol@, port),
            block_rule(interface@, protocol@, port),
        ]);
        plan
    }

    /// The three requests that forward `external_port` to `internal_port` of
    /// `internal_ip`: see [`port_forward_plan`]. They are one unit: where the
    /// work on them stops early, the redirection stands without the rules
    /// that let its traffic pass.
    pub fn port_forward(
        external_port: u16,
        internal_ip: &str,
        internal_port: u16,
        protocol: &str,
    ) -> (plan: Vec<Command>)
        ensures
            plan_view(plan@) == port_forward_plan(
                external_port,
                internal_ip@,
                internal_port,
                protocol@,
            ),
    {
        let ext = port_text(external_port);
        let inner = port_text(internal_port);
        let mut target: Vec<char> = crate::text::chars_of(internal_ip);
        crate::text::append_str(&mut target, ":");
        crate::text::append_str(&mut target, inner.as_str());
        let target = string_of(target.as_slice());
        let ghost want = port_forward_plan(external_port, internal_ip@, internal_port, protocol@);
        let mut plan: Vec<Command> = Vec::new();
        let c0 = SystemCommand::run_sudo(
            "iptables",
            &[
                "-t",
                "nat",
                "-A",
                "PREROUTING",
                "-p",
                protocol,
                "--dport",
                ext.as_str(),
                "-j",
                "DNAT",
                "--to-destination",
                target.as_str(),
            ],
        );
        assert(c0@.args =~= want[0].args);
        let c1 = SystemCommand::run_sudo(
            "iptables",
            &[
                "-A",
                "FORWARD",
                "-p",
                protocol,
                "-d",
                internal_ip,
                "--dport",
                inner.as_str(),
                "-m",
                "state",
                "--state",
                "NEW,RELATED,ESTABLISHED",
                "-j",
                "ACCEPT",
            ],
        );
        assert(c1@.args =~= want[1].args);
        let c2 = SystemCommand::run_sudo(
            "iptables",
            &[
                "-A",
                "FORWARD",
                "-p",
                protocol,
                "-s",
                internal_ip,
                "--sport",
                inner.as_str(),
                "-m",
                "state",
                "--state",
                "RELATED,ESTABLISHED",
                "-j",
                "ACCEPT",
            ],
        );
        assert(c2@.args =~= want[2].args);
        plan.push(c0);
        plan.push(c1);
        plan.push(c2);
        assert(plan_view(plan@) =~= want);
        plan
    }

    /// The request that logs what reaches the end of the input chain.
    pub fn enable_logging() -> (plan: Vec<Command>)
        ensures
            plan_view(plan@) == seq![logging_rule()],
    {
        let mut plan: Vec<Command> = Vec::new();
        let c = SystemCommand::run_sudo(
            "iptables",
            &["-A", "INPUT", "-j", "LOG", "--log-prefix", "FIREWALL_DROP: ", "--log-level", "7"],
        );
        assert(c@.args =~= logging_rule().args);
        plan.push(c);
        assert(plan_view(plan@) =~= seq![logging_rule()]);
        plan
    }

    /// The request that lists the rules in force.
    pub fn show_rules() -> (plan: Vec<Command>)
        ensures
            plan_view(plan@) == seq![iptables(seq!["-L"@, "-n"@, "-v"@])],
    {
        let mut plan: Vec<Command> = Vec::new();
        let c = SystemCommand::run_sudo("iptables", &["-L", "-n", "-v"]);
        assert(c@.args =~= seq!["-L"@, "-n"@, "-v"@]);
        plan.push(c);
        assert(plan_view(plan@) =~= seq![iptables(seq!["-L"@, "-n"@, "-v"@])]);
        plan
    }

    /// The request that writes the rules in force to the rules file.
    pub fn save_rules() -> (plan: Vec<Command>)
        ensures
            plan_view(plan@) == seq![
                sudo(
                    "sh"@,
                    seq![
                        "-c"@,
                        "mkdir -p /etc/iptables && iptables-save > /etc/iptables/rules.v4"@,
                    ],
                ),
            ],
    {
        let mut plan: Vec<Command> = Vec::new();
        let c = SystemCommand::run_sudo(
            "sh",
            &["-c", "mkdir -p /etc/iptables && iptables-save > /etc/iptables/rules.v4"],
        );
        assert(c@.args =~= seq![
            "-c"@,
            "mkdir -p /etc/iptables && iptables-save > /etc/iptables/rules.v4"@,
        ]);
        plan.push(c);
        assert(plan_view(plan@) =~= seq![
            sudo(
                "sh"@,
                seq!["-c"@, "mkdir -p /etc/iptables && iptables-save > /etc/iptables/rules.v4"@],
            ),
        ]);
        plan
    }

    /// The request that puts the rules of the rules file in force.
    pub fn restore_rules() -> (plan: Vec<Command>)
        ensures
            plan_view(plan@) == seq![
                sudo("iptables-restore"@, seq!["<"@, "/etc/iptables/rules.v4"@]),
            ],
    {
        let mut plan: Vec<Command> = Vec::new();
        let c = SystemCommand::run_sudo("iptables-restore", &["<", "/etc/iptables/rules.v4"]);
        assert(c@.args =~= seq!["<"@, "/etc/iptables/rules.v4"@]);
        plan.push(c);
        assert(plan_view(plan@) =~= seq![
            sudo("iptables-restore"@, seq!["<"@, "/etc/iptables/rules.v4"@]),
        ]);
        plan
    }
}

fn allow(interface: &str, protocol: &str, port: u16) -> (c: Command)
    ensures
        c@ == allow_rule(interface@, protocol@, port),
{
    let p = port_text(port);
    let c = SystemCommand::run_sudo(
        "iptables",
        &[
            "-A",
            "INPUT",
            "-i",
            interface,
            "-p",
            protocol,
            "--dport",
            p.as_str(),
            "-m",
            "state",
            "--state",
            "NEW",
            "-j",
            "ACCEPT",
        ],
    );
    assert(c@.args =~= allow_rule(interface@, protocol@, port).args);
    c
}

fn block(interface: &str, protocol: &str, port: u16) -> (c: Command)
    ensures
        c@ == block_rule(interface@, protocol@, port),
{
    let p = port_text(port);
    let c = SystemCommand::run_sudo(
        "iptables",
        &["-A", "INPUT", "-i", interface, "-p", protocol, "--dport", p.as_str(), "-j", "DROP"],
    );
    assert(c@.args =~= block_rule(interface@, protocol@, port).args);
    c
}

fn service(protocol: &str, ports: &str) -> (c: Command)
    ensures
        c@ == accept_service(protocol@, ports@),
{
    let c = SystemCommand::run_sudo(
        "iptables",
        &["-A", "INPUT", "-i", "eth0", "-p", protocol, "--dport", ports, "-j", "ACCEPT"],
    );
    assert(c@.args =~= accept_service(protocol@, ports@).args);
    c
}

fn forward(from: &str, to: &str, states: &str) -> (c: Command)
    ensures
        c@ == forward_rule(from@, to@, states@),
{
    let c = SystemCommand::run_sudo(
        "iptables",
        &["-A", "FORWARD", "-i", from, "-o", to, "-m", "state", "--state", states, "-j", "ACCEPT"],
    );
    assert(c@.args =~= forward_rule(from@, to@, states@).args);
    c
}

} // verus!
