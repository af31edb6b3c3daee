//! The DHCP and DNS service: its configuration, the file that holds it, and
//! the list of fixed leases.

use vstd::prelude::*;
use crate::command::{
    join, joined, plan_view, sudo, Command, CommandView, ConfigUpdate, SystemCommand,
};
use crate::ip::{is_ipv4, is_valid_ip};
use crate::mac::{format_mac, normalized_mac};
use crate::ip::{ipv4_value, parse_ipv4};
use crate::text::{
    append_chars, append_str, byte_len, chars_of, contains_part, decimal_chars, decimal_digits,
    has_part, is_space, lemma_texts_push, lines, parse_decimal, parse_unsigned, rows,
    slice_chars, split, split_chars, split_lines, string_of, strip_prefix, text_len, texts, trim,
    trimmed,
};

verus! {

/// The settings of the DHCP service.
#[derive(Debug)]
pub struct DHCPConfig {
    /// The first address of the pool.
    pub dhcp_start: String,
    /// The last address of the pool.
    pub dhcp_end: String,
    /// How long a lease lasts, in seconds.
    pub lease_time: u32,
    /// The resolvers that queries are passed on to, in order.
    pub dns_servers: Vec<String>,
    pub local_domain: String,
}

/// What a [`DHCPConfig`] holds.
pub struct DHCPConfigView {
    pub dhcp_start: Seq<char>,
    pub dhcp_end: Seq<char>,
    pub lease_time: u32,
    pub dns_servers: Seq<Seq<char>>,
    pub local_domain: Seq<char>,
}

impl View for DHCPConfig {
    type V = DHCPConfigView;

    open spec fn view(&self) -> DHCPConfigView {
        DHCPConfigView {
            dhcp_start: self.dhcp_start@,
            dhcp_end: self.dhcp_end@,
            lease_time: self.lease_time,
            dns_servers: texts(self.dns_servers@),
            local_domain: self.local_domain@,
        }
    }
}

/// The settings as the configuration file has them, whether the file holds
/// a pool at all, and how many leases are out.
#[derive(Debug)]
pub struct DHCPStatus {
    pub enabled: bool,
    pub config: DHCPConfig,
    pub active_leases: usize,
}

/// Why settings are refused.
#[derive(Clone, Copy, Debug, PartialEq, Eq, Structural)]
pub enum ValidationError {
    /// A bound of the pool is not an IPv4 address.
    MalformedAddress,
    /// The pool's first address is not below its last.
    PoolOrder,
    /// The lease time is zero.
    LeaseTime,
    /// No resolver is given.
    NoDnsServer,
}

impl ValidationError {
    /// The message that goes with the error.
    pub open spec fn text(self) -> Seq<char> {
        match self {
            ValidationError::MalformedAddress => "DHCP range bounds must be IPv4 addresses"@,
            ValidationError::PoolOrder => "DHCP start must be less than end"@,
            ValidationError::LeaseTime => "Lease time must be greater than 0"@,
            ValidationError::NoDnsServer => "At least one DNS server is required"@,
        }
    }

    /// The message that goes with the error.
    pub fn message(&self) -> (m: String)
        ensures
            m@ == self.text(),
    {
        match self {
            ValidationError::MalformedAddress => "DHCP range bounds must be IPv4 addresses".to_string(),
            ValidationError::PoolOrder => "DHCP start must be less than end".to_string(),
            ValidationError::LeaseTime => "Lease time must be greater than 0".to_string(),
            ValidationError::NoDnsServer => "At least one DNS server is required".to_string(),
        }
    }
}

/// The first reason to refuse the settings, if there is one: the bounds of
/// the pool are addresses; the first is below the last, as numbers; the
/// lease time is not zero; there is a resolver.
pub open spec fn validation(c: DHCPConfigView) -> Result<(), ValidationError> {
    if ipv4_value(c.dhcp_start) is None || ipv4_value(c.dhcp_end) is None {
        Err(ValidationError::MalformedAddress)
    } else if ipv4_value(c.dhcp_start)->0 >= ipv4_value(c.dhcp_end)->0 {
        Err(ValidationError::PoolOrder)
    } else if c.lease_time == 0 {
        Err(ValidationError::LeaseTime)
    } else if c.dns_servers.len() == 0 {
        Err(ValidationError::NoDnsServer)
    } else {
        Ok(())
    }
}

/// Checks the settings: see [`validation`].
pub fn validate(config: &DHCPConfig) -> (r: Result<(), ValidationError>)
    ensures
        r == validation(config@),
{
    let start = chars_of(config.dhcp_start.as_str());
    let end = chars_of(config.dhcp_end.as_str());
    let a = parse_ipv4(start.as_slice());
    let b = parse_ipv4(end.as_slice());
    match (a, b) {
        (Some(lo), Some(hi)) => {
            if lo >= hi {
                Err(ValidationError::PoolOrder)
            } else if config.lease_time == 0 {
                Err(ValidationError::LeaseTime)
            } else if config.dns_servers.len() == 0 {
                Err(ValidationError::NoDnsServer)
            } else {
                Ok(())
            }
        },
        _ => Err(ValidationError::MalformedAddress),
    }
}

// ---------------------------------------------------------------------------
// Lease times
// ---------------------------------------------------------------------------

/// A lease time as the file writes it: a whole number of the largest unit
/// that the time reaches (seconds, minutes, hours, days), rounded down.
pub open spec fn lease_text(seconds: u32) -> Seq<char> {
    if seconds < 60 {
        decimal_digits(seconds as nat).push('s')
    } else if seconds < 3600 {
        decimal_digits((seconds / 60) as nat).push('m')
    } else if seconds < 86400 {
        decimal_digits((seconds / 3600) as nat).push('h')
    } else {
        decimal_digits((seconds / 86400) as nat).push('d')
    }
}

/// The seconds in a unit of time, by the unit's letter.
pub open spec fn unit_seconds(unit: char) -> Option<nat> {
    if unit == 's' {
        Some(1)
    } else if unit == 'm' {
        Some(60)
    } else if unit == 'h' {
        Some(3600)
    } else if unit == 'd' {
        Some(86400)
    } else {
        None
    }
}

/// The seconds that a lease time stands for: a number, then the letter of a
/// unit, with white space around them passed over. There is none where the
/// text is not of that form or the seconds do not fit 32 bits.
pub open spec fn lease_seconds(text: Seq<char>) -> Option<u32> {
    let t = trimmed(text);
    if t.len() == 0 {
        None
    } else {
        match (parse_unsigned(t.drop_last(), u32::MAX as nat), unit_seconds(t.last())) {
            (Some(n), Some(unit)) => if n * unit <= u32::MAX {
                Some((n * unit) as u32)
            } else {
                None
            },
            _ => None,
        }
    }
}

/// Writes a lease time: see [`lease_text`].
pub fn lease_chars(seconds: u32) -> (out: Vec<char>)
    ensures
        out@ == lease_text(seconds),
{
    let (n, unit): (u32, char) = if seconds < 60 {
        (seconds, 's')
    } else if seconds < 3600 {
        (seconds / 60, 'm')
    } else if seconds < 86400 {
        (seconds / 3600, 'h')
    } else {
        (seconds / 86400, 'd')
    };
    let mut out = decimal_chars(n as u64);
    out.push(unit);
    out
}

/// Writes a lease time: see [`lease_text`].
pub fn format_lease_time(seconds: u32) -> (s: String)
    ensures
        s@ == lease_text(seconds),
{
    let out = lease_chars(seconds);
    string_of(out.as_slice())
}

/// Reads a lease time: see [`lease_seconds`].
pub fn lease_of(text: &[char]) -> (r: Option<u32>)
    ensures
        r == lease_seconds(text@),
{
    let t = trim(text);
    if t.len() == 0 {
        return None;
    }
    let unit: u64 = match t[t.len() - 1] {
        's' => 1,
        'm' => 60,
        'h' => 3600,
        'd' => 86400,
        _ => {
            return None;
        },
    };
    let digits = slice_chars(t.as_slice(), 0, t.len() - 1);
    assert(digits@ =~= t@.drop_last());
    match parse_decimal(digits.as_slice(), u32::MAX as u64) {
        Some(n) => {
            assert(n * unit <= 0xFFFF_FFFF * 86400) by (nonlinear_arith)
                requires
                    n <= 0xFFFF_FFFF,
                    unit <= 86400,
            ;
            let total: u64 = n * unit;
            if total <= u32::MAX as u64 {
                Some(total as u32)
            } else {
                None
            }
        },
        None => None,
    }
}

/// Reads a lease time: see [`lease_seconds`].
pub fn parse_lease_time(lease_str: &str) -> (r: Option<u32>)
    ensures
        r == lease_seconds(lease_str@),
{
    let chars = chars_of(lease_str);
    lease_of(chars.as_slice())
}

// ---------------------------------------------------------------------------
// Writing the configuration file
// ---------------------------------------------------------------------------

/// The lines with a line feed after each of them.
pub open spec fn unlines(ls: Seq<Seq<char>>) -> Seq<char>
    decreases ls.len(),
{
    if ls.len() == 0 {
        Seq::empty()
    } else {
        unlines(ls.drop_last()) + ls.last().push('\n')
    }
}

pub proof fn lemma_unlines_push(ls: Seq<Seq<char>>, l: Seq<char>)
    ensures
        unlines(ls.push(l)) == unlines(ls) + l.push('\n'),
{
    assert(ls.push(l).drop_last() =~= ls);
}

/// The line that gives the pool and the lease time.
pub open spec fn range_line(c: DHCPConfigView) -> Seq<char> {
    "dhcp-range="@ + c.dhcp_start + ","@ + c.dhcp_end + ","@ + lease_text(c.lease_time)
}

/// The line that names one resolver.
pub open spec fn server_line(dns: Seq<char>) -> Seq<char> {
    "server="@ + dns
}

/// The line that names the local domain.
pub open spec fn domain_line(c: DHCPConfigView) -> Seq<char> {
    "local-domain="@ + c.local_domain
}

/// The lines of the configuration file: a heading, the pool with the lease
/// time, one line for each resolver in order, the local domain, a closing
/// comment.
pub open spec fn config_lines(c: DHCPConfigView) -> Seq<Seq<char>> {
    seq!["# PiWifi DHCP Configuration"@, range_line(c)] + c.dns_servers.map_values(
        |d: Seq<char>| server_line(d),
    ) + seq![domain_line(c), "# End PiWifi DHCP Configuration"@]
}

/// The configuration file for the settings.
pub open spec fn rendered(c: DHCPConfigView) -> Seq<char> {
    unlines(config_lines(c))
}

/// The request that restarts the service.
pub open spec fn restart_command() -> CommandView {
    sudo("systemctl"@, seq!["restart"@, "dnsmasq"@])
}

/// The configuration file for the settings: see [`rendered`].
pub fn render_dhcp_config(config: &DHCPConfig) -> (out: String)
    ensures
        out@ == rendered(config@),
{
    let ghost c = config@;
    let ghost ls = config_lines(c);
    let ghost servers = c.dns_servers.map_values(|d: Seq<char>| server_line(d));
    let mut out: Vec<char> = Vec::new();
    append_str(&mut out, "# PiWifi DHCP Configuration");
    out.push('\n');
    append_str(&mut out, "dhcp-range=");
    append_str(&mut out, config.dhcp_start.as_str());
    append_str(&mut out, ",");
    append_str(&mut out, config.dhcp_end.as_str());
    append_str(&mut out, ",");
    let lease = lease_chars(config.lease_time);
    append_chars(&mut out, lease.as_slice());
    out.push('\n');
    let ghost head = seq!["# PiWifi DHCP Configuration"@, range_line(c)];
    proof {
        let e = Seq::<Seq<char>>::empty();
        lemma_unlines_push(e, "# PiWifi DHCP Configuration"@);
        lemma_unlines_push(e.push("# PiWifi DHCP Configuration"@), range_line(c));
        assert(head =~= e.push("# PiWifi DHCP Configuration"@).push(range_line(c)));
        assert(unlines(e) =~= Seq::<char>::empty());
        assert(out@ =~= unlines(head));
        assert(head + servers.take(0) =~= head);
    }
    let mut i: usize = 0;
    while i < config.dns_servers.len()
        invariant
            i <= config.dns_servers.len(),
            c == config@,
            servers == c.dns_servers.map_values(|d: Seq<char>| server_line(d)),
            head == seq!["# PiWifi DHCP Configuration"@, range_line(c)],
            out@ == unlines(head + servers.take(i as int)),
        decreases config.dns_servers.len() - i,
    {
        let ghost before = out@;
        append_str(&mut out, "server=");
        append_str(&mut out, config.dns_servers[i].as_str());
        out.push('\n');
        proof {
            let next = head + servers.take(i + 1);
            let line = server_line(config.dns_servers@[i as int]@);
            assert(next =~= (head + servers.take(i as int)).push(line));
            lemma_unlines_push(head + servers.take(i as int), line);
            assert(out@ =~= before + line.push('\n'));
        }
        i += 1;
    }
    proof {
        assert(servers.take(servers.len() as int) =~= servers);
    }
    let ghost mid = head + servers;
    let ghost before = out@;
    append_str(&mut out, "local-domain=");
    append_str(&mut out, config.local_domain.as_str());
    out.push('\n');
    append_str(&mut out, "# End PiWifi DHCP Configuration");
    out.push('\n');
    proof {
        assert(ls =~= mid.push(domain_line(c)).push("# End PiWifi DHCP Configuration"@));
        lemma_unlines_push(mid, domain_line(c));
        lemma_unlines_push(mid.push(domain_line(c)), "# End PiWifi DHCP Configuration"@);
        assert(out@ =~= before + domain_line(c).push('\n')
            + "# End PiWifi DHCP Configuration"@.push('\n'));
    }
    string_of(out.as_slice())
}

/// The change that puts the settings in force: the configuration file is
/// written, and then the service is restarted, always.
pub fn write_dhcp_config(config: &DHCPConfig) -> (u: ConfigUpdate)
    ensures
        u.path@ == "/etc/dnsmasq.d/piwifi.conf"@,
        u.contents@ == rendered(config@),
        plan_view(u.plan@) == seq![restart_command()],
{
    ConfigUpdate {
        path: "/etc/dnsmasq.d/piwifi.conf".to_string(),
        contents: render_dhcp_config(config),
        plan: restart_dnsmasq_service(),
    }
}

/// The request that restarts the service.
pub fn restart_dnsmasq_service() -> (plan: Vec<Command>)
    ensures
        plan_view(plan@) == seq![restart_command()],
{
    let c = SystemCommand::run_sudo("systemctl", &["restart", "dnsmasq"]);
    assert(c@.args =~= seq!["restart"@, "dnsmasq"@]);
    let mut plan: Vec<Command> = Vec::new();
    plan.push(c);
    assert(plan_view(plan@) =~= seq![restart_command()]);
    plan
}

/// Checks the settings and, where they pass, gives the change that puts
/// them in force. Settings that do not pass change nothing.
pub fn set_dhcp_config(config: &DHCPConfig) -> (r: Result<ConfigUpdate, ValidationError>)
    ensures
        match r {
            Ok(u) => {
                &&& validation(config@) is Ok
                &&& u.path@ == "/etc/dnsmasq.d/piwifi.conf"@
                &&& u.contents@ == rendered(config@)
                &&& plan_view(u.plan@) == seq![restart_command()]
            },
            Err(e) => validation(config@) == Err::<(), ValidationError>(e),
        },
{
    match validate(config) {
        Ok(_) => Ok(write_dhcp_config(config)),
        Err(e) => Err(e),
    }
}

// ---------------------------------------------------------------------------
// Reading the configuration file
// ---------------------------------------------------------------------------

/// What has been read of a configuration file.
pub struct Parsed {
    /// Whether a pool was found.
    pub enabled: bool,
    pub config: DHCPConfigView,
}

/// What is known before anything is read: no pool, a lease time of an hour,
/// no resolver, and the domain `piwifi.local`.
pub open spec fn nothing_read() -> Parsed {
    Parsed {
        enabled: false,
        config: DHCPConfigView {
            dhcp_start: Seq::empty(),
            dhcp_end: Seq::empty(),
            lease_time: 3600,
            dns_servers: Seq::empty(),
            local_domain: "piwifi.local"@,
        },
    }
}

/// What is known after a pool was read: its parts, separated by commas, are
/// the first address, the last address and the lease time. A pool without
/// its three parts or with a lease time that cannot be read makes the file
/// malformed.
pub open spec fn read_pool(p: Parsed, pool: Seq<char>) -> Option<Parsed> {
    let parts = split(pool, ',');
    if parts.len() >= 3 && lease_seconds(parts[2]) is Some {
        Some(
            Parsed {
                enabled: true,
                config: DHCPConfigView {
                    dhcp_start: parts[0],
                    dhcp_end: parts[1],
                    lease_time: lease_seconds(parts[2])->0,
                    ..p.config
                },
            },
        )
    } else {
        None
    }
}

/// What is known after one more line. White space around the line is passed
/// over, and so are an empty line, a comment and a line of another kind. A
/// pool replaces the pool read before, a domain the domain read before, and
/// a resolver is added to the resolvers. A pool without its three parts
/// (first address, last address, lease time) or with a lease time that
/// cannot be read makes the file malformed.
pub open spec fn read_line(p: Parsed, line: Seq<char>) -> Option<Parsed> {
    let t = trimmed(line);
    if t.len() == 0 || t[0] == '#' {
        Some(p)
    } else if "dhcp-range="@.is_prefix_of(t) {
        read_pool(p, t.skip("dhcp-range="@.len() as int))
    } else if "server="@.is_prefix_of(t) {
        Some(
            Parsed {
                config: DHCPConfigView {
                    dns_servers: p.config.dns_servers.push(t.skip("server="@.len() as int)),
                    ..p.config
                },
                ..p
            },
        )
    } else if "local-domain="@.is_prefix_of(t) {
        Some(
            Parsed {
                config: DHCPConfigView {
                    local_domain: t.skip("local-domain="@.len() as int),
                    ..p.config
                },
                ..p
            },
        )
    } else {
        Some(p)
    }
}

/// What is known after the lines `ls`, read in order; nothing where one of
/// them makes the file malformed.
pub open spec fn read_lines(p: Parsed, ls: Seq<Seq<char>>) -> Option<Parsed>
    decreases ls.len(),
{
    if ls.len() == 0 {
        Some(p)
    } else {
        match read_lines(p, ls.drop_last()) {
            Some(q) => read_line(q, ls.last()),
            None => None,
        }
    }
}

/// What a configuration file says.
pub open spec fn parsed(content: Seq<char>) -> Option<Parsed> {
    read_lines(nothing_read(), lines(content))
}

/// The number of leases that a lease file holds: one to a line.
pub open spec fn lease_count(leases: Option<Seq<char>>) -> nat {
    match leases {
        Some(text) => lines(text).len(),
        None => 0,
    }
}

/// The configuration file is malformed.
#[derive(Clone, Copy, Debug, PartialEq, Eq, Structural)]
pub struct MalformedConfig;

/// The number of leases that are out, given the lease file where there is
/// one: a missing file means that none is out.
pub fn count_dhcp_leases(leases: Option<&str>) -> (n: usize)
    ensures
        n == lease_count(
            match leases {
                Some(t) => Some(t@),
                None => None,
            },
        ),
{
    match leases {
        Some(text) => {
            let chars = chars_of(text);
            let ls = split_lines(chars.as_slice());
            assert(rows(ls@).len() == ls@.len());
            ls.len()
        },
        None => 0,
    }
}

/// Reads the settings from the text of the configuration file, and counts
/// the leases of the lease file where there is one. The result says whether
/// the file holds a pool at all. A malformed file is an error.
pub fn read_dhcp_config(content: &str, leases: Option<&str>) -> (r: Result<
    DHCPStatus,
    MalformedConfig,
>)
    ensures
        match r {
            Ok(status) => {
                &&& parsed(content@) is Some
                &&& status.enabled == parsed(content@)->0.enabled
                &&& status.config@ == parsed(content@)->0.config
                &&& status.active_leases == lease_count(
                    match leases {
                        Some(t) => Some(t@),
                        None => None,
                    },
                )
            },
            Err(_) => parsed(content@) is None,
        },
{
    let chars = chars_of(content);
    let ls = split_lines(chars.as_slice());
    let mut enabled = false;
    let mut dhcp_start = String::new();
    let mut dhcp_end = String::new();
    let mut lease_time: u32 = 3600;
    let mut dns_servers: Vec<String> = Vec::new();
    let mut local_domain = "piwifi.local".to_string();
    let ghost all = lines(content@);
    let mut i: usize = 0;
    proof {
        assert(all.take(0) =~= Seq::<Seq<char>>::empty());
        assert(texts(dns_servers@) =~= Seq::<Seq<char>>::empty());
    }
    while i < ls.len()
        invariant
            i <= ls.len(),
            rows(ls@) == all,
            all == lines(content@),
            read_lines(nothing_read(), all.take(i as int)) == Some(
                Parsed {
                    enabled,
                    config: DHCPConfigView {
                        dhcp_start: dhcp_start@,
                        dhcp_end: dhcp_end@,
                        lease_time,
                        dns_servers: texts(dns_servers@),
                        local_domain: local_domain@,
                    },
                },
            ),
        decreases ls.len() - i,
    {
        proof {
            assert(all.take(i + 1).drop_last() =~= all.take(i as int));
            assert(all.take(i + 1).last() == ls@[i as int]@);
        }
        let ghost rest = all.skip(i + 1);
        let t = trim(ls[i].as_slice());
        if t.len() == 0 || t[0] == '#' {
        } else if let Some(range) = strip_prefix(t.as_slice(), "dhcp-range=") {
            let parts = split_chars(range.as_slice(), ',');
            if parts.len() < 3 {
                proof {
                    lemma_malformed(nothing_read(), all, i as int);
                }
                return Err(MalformedConfig);
            }
            assert(rows(parts@)[0] == parts@[0]@);
            assert(rows(parts@)[1] == parts@[1]@);
            assert(rows(parts@)[2] == parts@[2]@);
            match lease_of(parts[2].as_slice()) {
                Some(lease) => {
                    enabled = true;
                    dhcp_start = string_of(parts[0].as_slice());
                    dhcp_end = string_of(parts[1].as_slice());
                    lease_time = lease;
                },
                None => {
                    proof {
                        lemma_malformed(nothing_read(), all, i as int);
                    }
                    return Err(MalformedConfig);
                },
            }
        } else if let Some(server) = strip_prefix(t.as_slice(), "server=") {
            let s = string_of(server.as_slice());
            proof {
                lemma_texts_push(dns_servers@, s);
            }
            dns_servers.push(s);
        } else if let Some(domain) = strip_prefix(t.as_slice(), "local-domain=") {
            local_domain = string_of(domain.as_slice());
        }
        i += 1;
    }
    assert(all.take(all.len() as int) =~= all);
    assert(rows(ls@).len() == ls@.len());
    Ok(
        DHCPStatus {
            enabled,
            config: DHCPConfig { dhcp_start, dhcp_end, lease_time, dns_servers, local_domain },
            active_leases: count_dhcp_leases(leases),
        },
    )
}

/// Once a line makes the file malformed, no line after it mends that.
pub proof fn lemma_malformed(p: Parsed, ls: Seq<Seq<char>>, i: int)
    requires
        0 <= i < ls.len(),
        read_lines(p, ls.take(i + 1)) is None,
    ensures
        read_lines(p, ls) is None,
    decreases ls.len() - i,
{
    if i + 1 < ls.len() {
        assert(ls.take(i + 2).drop_last() =~= ls.take(i + 1));
        lemma_malformed(p, ls, i + 1);
    } else {
        assert(ls.take(i + 1) =~= ls);
    }
}


// ---------------------------------------------------------------------------
// Fixed leases
// ---------------------------------------------------------------------------

/// A request to give a device a fixed address.
#[derive(Debug)]
pub struct StaticIpRequest {
    pub mac: String,
    pub ip: String,
    pub hostname: String,
}

/// Why a request for a fixed address is refused.
#[derive(Clone, Copy, Debug, PartialEq, Eq, Structural)]
pub enum StaticIpError {
    /// The hardware address is malformed.
    InvalidMac,
    /// The address is no IPv4 address.
    InvalidIp,
    /// The host name is empty or longer than 63 bytes.
    InvalidHostname,
}

impl StaticIpError {
    /// The message that goes with the error.
    pub open spec fn text(self) -> Seq<char> {
        match self {
            StaticIpError::InvalidMac => "Invalid MAC format"@,
            StaticIpError::InvalidIp => "Invalid IP format"@,
            StaticIpError::InvalidHostname => "Hostname must be 1-63 characters"@,
        }
    }

    /// The message that goes with the error.
    pub fn message(&self) -> (m: String)
        ensures
            m@ == self.text(),
    {
        match self {
            StaticIpError::InvalidMac => "Invalid MAC format".to_string(),
            StaticIpError::InvalidIp => "Invalid IP format".to_string(),
            StaticIpError::InvalidHostname => "Hostname must be 1-63 characters".to_string(),
        }
    }
}

/// The line that binds an address and a host name to a hardware address.
pub open spec fn host_line(mac: Seq<char>, ip: Seq<char>, hostname: Seq<char>) -> Seq<char> {
    "dhcp-host="@ + mac + ","@ + ip + ","@ + hostname
}

/// The lines that do not mention `mac`.
pub open spec fn lines_without(ls: Seq<Seq<char>>, mac: Seq<char>) -> Seq<Seq<char>> {
    ls.filter(|l: Seq<char>| !has_part(l, mac))
}

/// The list of fixed leases after `mac` was bound: the lines of the list
/// as it was that do not mention `mac`, then the line for `mac`. So the
/// list never holds two lines for one address.
pub open spec fn static_hosts(
    existing: Seq<char>,
    mac: Seq<char>,
    ip: Seq<char>,
    hostname: Seq<char>,
) -> Seq<char> {
    let kept = joined(lines_without(lines(existing), mac), "\n"@);
    (if kept.len() > 0 {
        kept + "\n"@
    } else {
        kept
    }) + host_line(mac, ip, hostname) + "\n"@
}

/// No line that is kept of the list of fixed leases mentions the address
/// that is bound: the list holds the address on its new line only.
pub proof fn lemma_static_hosts_once(ls: Seq<Seq<char>>, mac: Seq<char>)
    ensures
        forall|i: int|
            0 <= i < lines_without(ls, mac).len() ==> !has_part(
                #[trigger] lines_without(ls, mac)[i],
                mac,
            ),
{
    let pred = |l: Seq<char>| !has_part(l, mac);
    assert forall|i: int| 0 <= i < lines_without(ls, mac).len() implies !has_part(
        #[trigger] lines_without(ls, mac)[i],
        mac,
    ) by {
        ls.lemma_filter_pred(pred, i);
    }
}

/// The first reason to refuse a request for a fixed address, if there is
/// one.
pub open spec fn static_ip_check(mac: Seq<char>, ip: Seq<char>, hostname: Seq<char>) -> Result<
    (),
    StaticIpError,
> {
    if normalized_mac(mac) is Err {
        Err(StaticIpError::InvalidMac)
    } else if !is_ipv4(ip) {
        Err(StaticIpError::InvalidIp)
    } else if byte_len(hostname) == 0 || byte_len(hostname) > 63 {
        Err(StaticIpError::InvalidHostname)
    } else {
        Ok(())
    }
}

/// The list of fixed leases after `mac` was bound to `ip` and `hostname`:
/// see [`static_hosts`].
pub fn write_static_ip_config(existing: &str, mac: &str, ip: &str, hostname: &str) -> (out: String)
    ensures
        out@ == static_hosts(existing@, mac@, ip@, hostname@),
{
    let chars = chars_of(existing);
    let ls = split_lines(chars.as_slice());
    let needle = chars_of(mac);
    let ghost all = lines(existing@);
    let ghost pred = |l: Seq<char>| !has_part(l, mac@);
    let mut kept: Vec<String> = Vec::new();
    let mut i: usize = 0;
    proof {
        assert(all.take(0) =~= Seq::<Seq<char>>::empty());
        assert(texts(kept@) =~= all.take(0).filter(pred));
    }
    while i < ls.len()
        invariant
            i <= ls.len(),
            rows(ls@) == all,
            needle@ == mac@,
            pred == (|l: Seq<char>| !has_part(l, mac@)),
            texts(kept@) == all.take(i as int).filter(pred),
        decreases ls.len() - i,
    {
        proof {
            assert(all.take(i + 1).drop_last() =~= all.take(i as int));
            assert(all.take(i + 1).last() == ls@[i as int]@);
            reveal_with_fuel(Seq::filter, 2);
        }
        if !contains_part(ls[i].as_slice(), needle.as_slice()) {
            let line = string_of(ls[i].as_slice());
            proof {
                lemma_texts_push(kept@, line);
            }
            kept.push(line);
        }
        i += 1;
    }
    assert(all.take(all.len() as int) =~= all);
    let mut out = join(&kept, "\n");
    if out.len() > 0 {
        append_str(&mut out, "\n");
    }
    append_str(&mut out, "dhcp-host=");
    append_str(&mut out, mac);
    append_str(&mut out, ",");
    append_str(&mut out, ip);
    append_str(&mut out, ",");
    append_str(&mut out, hostname);
    append_str(&mut out, "\n");
    assert(out@ =~= static_hosts(existing@, mac@, ip@, hostname@));
    string_of(out.as_slice())
}

/// Checks a request for a fixed address and, where it passes, gives the
/// change that grants it: the list of fixed leases is written with the
/// device's line in it, then the service is restarted. `existing` is the
/// list as it is, empty where there is none yet.
pub fn set_static_ip(req: &StaticIpRequest, existing: &str) -> (r: Result<
    ConfigUpdate,
    StaticIpError,
>)
    ensures
        match r {
            Ok(u) => {
                &&& static_ip_check(req.mac@, req.ip@, req.hostname@) is Ok
                &&& u.path@ == "/etc/dnsmasq.d/static_hosts.conf"@
                &&& u.contents@ == static_hosts(existing@, req.mac@, req.ip@, req.hostname@)
                &&& plan_view(u.plan@) == seq![restart_command()]
            },
            Err(e) => static_ip_check(req.mac@, req.ip@, req.hostname@) == Err::<
                (),
                StaticIpError,
            >(e),
        },
{
    if format_mac(req.mac.as_str()).is_err() {
        return Err(StaticIpError::InvalidMac);
    }
    if !is_valid_ip(req.ip.as_str()) {
        return Err(StaticIpError::InvalidIp);
    }
    let n = text_len(req.hostname.as_str());
    if n == 0 || n > 63 {
        return Err(StaticIpError::InvalidHostname);
    }
    Ok(
        ConfigUpdate {
            path: "/etc/dnsmasq.d/static_hosts.conf".to_string(),
            contents: write_static_ip_config(
                existing,
                req.mac.as_str(),
                req.ip.as_str(),
                req.hostname.as_str(),
            ),
            plan: restart_dnsmasq_service(),
        },
    )
}

// ---------------------------------------------------------------------------
// Writing and reading back
// ---------------------------------------------------------------------------

/// A text that does not end in white space.
pub open spec fn no_trailing_space(s: Seq<char>) -> bool {
    s.len() == 0 || !is_space(s.last())
}

/// A lease time that the file writes without rounding: a whole number of
/// the unit that it is written in.
pub open spec fn lease_is_exact(t: u32) -> bool {
    t < 60 || (t < 3600 && t % 60 == 0) || (t < 86400 && t % 3600 == 0) || (t >= 86400 && t
        % 86400 == 0)
}

/// The settings that come back from the file as they went in: no field
/// holds a line feed; the bounds of the pool hold no comma; the lease time
/// is a whole number of its unit; neither a resolver nor the domain ends in
/// white space.
pub open spec fn survives_round_trip(c: DHCPConfigView) -> bool {
    &&& !c.dhcp_start.contains('\n')
    &&& !c.dhcp_start.contains(',')
    &&& !c.dhcp_end.contains('\n')
    &&& !c.dhcp_end.contains(',')
    &&& lease_is_exact(c.lease_time)
    &&& forall|i: int|
        0 <= i < c.dns_servers.len() ==> !(#[trigger] c.dns_servers[i]).contains('\n')
            && no_trailing_space(c.dns_servers[i])
    &&& !c.local_domain.contains('\n')
    &&& no_trailing_space(c.local_domain)
}

proof fn lemma_unlines_front(l: Seq<char>, rest: Seq<Seq<char>>)
    ensures
        unlines(seq![l] + rest) == l.push('\n') + unlines(rest),
    decreases rest.len(),
{
    if rest.len() == 0 {
        let e = Seq::<Seq<char>>::empty();
        assert(seq![l] + rest =~= e.push(l));
        lemma_unlines_push(e, l);
        assert(unlines(e) =~= Seq::<char>::empty());
        assert(rest =~= e);
        assert(unlines(e) + l.push('\n') =~= l.push('\n') + unlines(rest));
    } else {
        let all = seq![l] + rest;
        assert(all.drop_last() =~= seq![l] + rest.drop_last());
        assert(all.last() == rest.last());
        lemma_unlines_front(l, rest.drop_last());
        assert(unlines(all) =~= l.push('\n') + unlines(rest));
    }
}

/// Lines that hold no line feed and do not end in a carriage return come
/// back from the text that they were written to.
pub proof fn lemma_lines_of_unlines(ls: Seq<Seq<char>>)
    requires
        forall|i: int|
            0 <= i < ls.len() ==> !(#[trigger] ls[i]).contains('\n') && (ls[i].len() == 0
                || ls[i].last() != '\r'),
    ensures
        lines(unlines(ls)) == ls,
    decreases ls.len(),
{
    if ls.len() == 0 {
        assert(lines(unlines(ls)) =~= ls);
    } else {
        let l = ls[0];
        let rest = ls.drop_first();
        assert(ls =~= seq![l] + rest);
        lemma_unlines_front(l, rest);
        let text = unlines(ls);
        assert(text == l.push('\n') + unlines(rest));
        assert(!l.contains('\n'));
        assert forall|j: int| 0 <= j < l.len() implies text[j] != '\n' by {
            assert(text[j] == l[j]);
            assert(l.contains(l[j]));
        }
        assert(text[l.len() as int] == '\n');
        crate::text::lemma_first_index(text, '\n', l.len() as int);
        assert(text.take(l.len() as int) =~= l);
        assert(text.skip(l.len() as int + 1) =~= unlines(rest));
        assert forall|i: int| 0 <= i < rest.len() implies !(#[trigger] rest[i]).contains('\n') && (
        rest[i].len() == 0 || rest[i].last() != '\r') by {
            assert(rest[i] == ls[i + 1]);
        }
        lemma_lines_of_unlines(rest);
        assert(lines(text) =~= seq![l] + rest);
    }
}

/// Reading lines one after the other is reading the first of them and then
/// the rest.
pub proof fn lemma_read_lines_add(p: Parsed, a: Seq<Seq<char>>, b: Seq<Seq<char>>)
    ensures
        read_lines(p, a + b) == match read_lines(p, a) {
            Some(q) => read_lines(q, b),
            None => None,
        },
    decreases b.len(),
{
    if b.len() == 0 {
        assert(a + b =~= a);
    } else {
        assert((a + b).drop_last() =~= a + b.drop_last());
        assert((a + b).last() == b.last());
        lemma_read_lines_add(p, a, b.drop_last());
    }
}

proof fn lemma_read_one(p: Parsed, l: Seq<char>)
    ensures
        read_lines(p, seq![l]) == read_line(p, l),
{
    assert(seq![l].drop_last() =~= Seq::<Seq<char>>::empty());
    assert(read_lines(p, Seq::<Seq<char>>::empty()) == Some(p));
}

proof fn lemma_trim_identity(x: Seq<char>)
    requires
        x.len() > 0,
        !is_space(x[0]),
        !is_space(x.last()),
    ensures
        trimmed(x) == x,
{
    crate::text::lemma_leading_spaces(x, 0);
    assert(x.skip(0) =~= x);
    crate::text::lemma_trailing_spaces(x, 0);
    assert(x.take(x.len() as int) =~= x);
}

proof fn lemma_split_none(a: Seq<char>, sep: char)
    requires
        !a.contains(sep),
    ensures
        split(a, sep) == seq![a],
{
    assert forall|j: int| 0 <= j < a.len() implies a[j] != sep by {
        assert(a.contains(a[j]));
    }
    crate::text::lemma_first_index(a, sep, a.len() as int);
}

proof fn lemma_split_first(a: Seq<char>, sep: char, rest: Seq<char>)
    requires
        !a.contains(sep),
    ensures
        split(a + seq![sep] + rest, sep) == seq![a] + split(rest, sep),
{
    let s = a + seq![sep] + rest;
    assert forall|j: int| 0 <= j < a.len() implies s[j] != sep by {
        assert(a.contains(a[j]));
    }
    assert(s[a.len() as int] == sep);
    crate::text::lemma_first_index(s, sep, a.len() as int);
    assert(s.take(a.len() as int) =~= a);
    assert(s.skip(a.len() as int + 1) =~= rest);
}

/// An exact lease time reads back from its writing.
pub proof fn lemma_lease_round_trip(t: u32)
    requires
        lease_is_exact(t),
    ensures
        lease_seconds(lease_text(t)) == Some(t),
        !lease_text(t).contains(','),
        !lease_text(t).contains('\n'),
        lease_text(t).len() >= 2,
        !is_space(lease_text(t).last()),
        !is_space(lease_text(t)[0]),
{
    let (n, unit): (nat, char) = if t < 60 {
        (t as nat, 's')
    } else if t < 3600 {
        ((t / 60) as nat, 'm')
    } else if t < 86400 {
        ((t / 3600) as nat, 'h')
    } else {
        ((t / 86400) as nat, 'd')
    };
    let d = decimal_digits(n);
    let text = lease_text(t);
    assert(text == d.push(unit));
    crate::text::lemma_decimal_digits(n);
    crate::text::lemma_parse_decimal_digits(n, u32::MAX as nat);
    assert(crate::text::is_digit(d[0]));
    assert(text[0] == d[0]);
    assert(text.last() == unit);
    lemma_trim_identity(text);
    assert(text.drop_last() =~= d);
    if t < 60 {
        assert(n * 1 == t);
    } else if t < 3600 {
        assert((t / 60) * 60 == t);
    } else if t < 86400 {
        assert((t / 3600) * 3600 == t);
    } else {
        assert((t / 86400) * 86400 == t);
    }
    assert(n * unit_seconds(unit)->0 == t);
    assert(parse_unsigned(d, u32::MAX as nat) == Some(n));
    assert(lease_seconds(text) == Some(t));
    assert forall|j: int| 0 <= j < text.len() implies text[j] != ',' && text[j] != '\n' by {
        if j < d.len() {
            assert(crate::text::is_digit(d[j]));
        }
    }
}

proof fn lemma_read_servers(p: Parsed, dns: Seq<Seq<char>>)
    requires
        forall|i: int| 0 <= i < dns.len() ==> no_trailing_space(#[trigger] dns[i]),
    ensures
        read_lines(p, dns.map_values(|d: Seq<char>| server_line(d))) == Some(
            Parsed {
                config: DHCPConfigView {
                    dns_servers: p.config.dns_servers + dns,
                    ..p.config
                },
                ..p
            },
        ),
    decreases dns.len(),
{
    let ls = dns.map_values(|d: Seq<char>| server_line(d));
    if dns.len() == 0 {
        assert(p.config.dns_servers + dns =~= p.config.dns_servers);
    } else {
        let init = dns.drop_last();
        assert(ls.drop_last() =~= init.map_values(|d: Seq<char>| server_line(d)));
        assert forall|i: int| 0 <= i < init.len() implies no_trailing_space(
            #[trigger] init[i],
        ) by {
            assert(init[i] == dns[i]);
        }
        lemma_read_servers(p, init);
        let q = read_lines(p, ls.drop_last())->0;
        let d = dns.last();
        let line = server_line(d);
        assert(ls.last() == line);
        reveal_strlit("server=");
        reveal_strlit("dhcp-range=");
        assert(no_trailing_space(d));
        assert(line.len() == 7 + d.len());
        assert(line[0] == 's');
        if d.len() > 0 {
            assert(line.last() == d.last());
        } else {
            assert(line.last() == '=');
        }
        lemma_trim_identity(line);
        assert("server="@.is_prefix_of(line)) by {
            assert("server="@ =~= line.subrange(0, 7));
        }
        assert(!"dhcp-range="@.is_prefix_of(line)) by {
            if "dhcp-range="@.is_prefix_of(line) {
                assert(line.subrange(0, 11)[0] == line[0]);
            }
        }
        assert(line.skip(7) =~= d);
        assert(q.config.dns_servers.push(d) =~= p.config.dns_servers + dns);
    }
}

proof fn lemma_field_clean(prefix: Seq<char>, field: Seq<char>)
    requires
        !prefix.contains('\n'),
        !field.contains('\n'),
        prefix.len() > 0,
        prefix.last() != '\r',
        no_trailing_space(field),
    ensures
        !(prefix + field).contains('\n'),
        (prefix + field).last() != '\r',
        (prefix + field).len() > 0,
{
    let l = prefix + field;
    assert forall|j: int| 0 <= j < l.len() implies l[j] != '\n' by {
        if j < prefix.len() {
            assert(prefix.contains(prefix[j]));
        } else {
            assert(field[j - prefix.len()] == l[j]);
            assert(field.contains(l[j]));
        }
    }
    if field.len() > 0 {
        assert(l.last() == field.last());
    } else {
        assert(l =~= prefix);
    }
}

proof fn lemma_no_line_feed_add(a: Seq<char>, b: Seq<char>)
    requires
        !a.contains('\n'),
        !b.contains('\n'),
    ensures
        !(a + b).contains('\n'),
{
    let l = a + b;
    assert forall|j: int| 0 <= j < l.len() implies l[j] != '\n' by {
        if j < a.len() {
            assert(a.contains(a[j]));
        } else {
            assert(b[j - a.len()] == l[j]);
            assert(b.contains(l[j]));
        }
    }
}

proof fn lemma_literals_clean()
    ensures
        !"# PiWifi DHCP Configuration"@.contains('\n'),
        !"# End PiWifi DHCP Configuration"@.contains('\n'),
        "# PiWifi DHCP Configuration"@.last() != '\r',
        "# End PiWifi DHCP Configuration"@.last() != '\r',
        "# PiWifi DHCP Configuration"@.len() > 0,
        "# End PiWifi DHCP Configuration"@.len() > 0,
        "# PiWifi DHCP Configuration"@[0] == '#',
        "# End PiWifi DHCP Configuration"@[0] == '#',
        !"dhcp-range="@.contains('\n'),
        !"server="@.contains('\n'),
        !"local-domain="@.contains('\n'),
        !","@.contains('\n'),
        "server="@.last() == '=',
        "local-domain="@.last() == '=',
        "server="@.len() == 7,
        "local-domain="@.len() == 13,
        "dhcp-range="@.len() == 11,
        "dhcp-range="@[0] == 'd',
        "server="@[0] == 's',
        "local-domain="@[0] == 'l',
        ","@ == seq![','],
{
    reveal_strlit("# PiWifi DHCP Configuration");
    reveal_strlit("# End PiWifi DHCP Configuration");
    reveal_strlit("dhcp-range=");
    reveal_strlit("server=");
    reveal_strlit("local-domain=");
    reveal_strlit(",");
    assert(","@ =~= seq![',']);
}

proof fn lemma_config_lines_clean(c: DHCPConfigView)
    requires
        survives_round_trip(c),
    ensures
        forall|i: int|
            0 <= i < config_lines(c).len() ==> !(#[trigger] config_lines(c)[i]).contains('\n')
                && (config_lines(c)[i].len() == 0 || config_lines(c)[i].last() != '\r'),
{
    let ls = config_lines(c);
    let servers = c.dns_servers.map_values(|d: Seq<char>| server_line(d));
    let lease = lease_text(c.lease_time);
    lemma_literals_clean();
    lemma_lease_round_trip(c.lease_time);
    assert forall|i: int| 0 <= i < ls.len() implies !(#[trigger] ls[i]).contains('\n') && (
    ls[i].len() == 0 || ls[i].last() != '\r') by {
        let l = ls[i];
        if i == 0 {
        } else if i == 1 {
            let a = "dhcp-range="@ + c.dhcp_start;
            lemma_no_line_feed_add("dhcp-range="@, c.dhcp_start);
            lemma_no_line_feed_add(a, ","@);
            lemma_no_line_feed_add(a + ","@, c.dhcp_end);
            lemma_no_line_feed_add(a + ","@ + c.dhcp_end, ","@);
            lemma_no_line_feed_add(a + ","@ + c.dhcp_end + ","@, lease);
            assert(l == range_line(c));
            assert(l.last() == lease.last());
        } else if i < 2 + servers.len() {
            let d = c.dns_servers[i - 2];
            assert(l == server_line(d));
            lemma_field_clean("server="@, d);
        } else if i == 2 + servers.len() {
            assert(l == domain_line(c));
            lemma_field_clean("local-domain="@, c.local_domain);
        } else {
        }
    }
}

proof fn lemma_read_comment(p: Parsed, l: Seq<char>)
    requires
        l.len() > 0,
        l[0] == '#',
    ensures
        read_line(p, l) == Some(p),
{
    crate::text::lemma_leading_spaces(l, 0);
    assert(l.skip(0) =~= l);
    assert(crate::text::trimmed_start(l) == l);
    let t = trimmed(l);
    assert(t == crate::text::trimmed_end(l));
    crate::text::lemma_spaces_bounds(l);
    if t.len() > 0 {
        assert(t[0] == l[0]);
    }
}

proof fn lemma_prefix_skip(pre: Seq<char>, rest: Seq<char>)
    ensures
        pre.is_prefix_of(pre + rest),
        (pre + rest).skip(pre.len() as int) == rest,
{
    assert(pre =~= (pre + rest).subrange(0, pre.len() as int));
    assert((pre + rest).skip(pre.len() as int) =~= rest);
}

proof fn lemma_split_three(a: Seq<char>, b: Seq<char>, c: Seq<char>)
    requires
        !a.contains(','),
        !b.contains(','),
        !c.contains(','),
    ensures
        split(a + seq![','] + b + seq![','] + c, ',') == seq![a, b, c],
{
    lemma_split_none(c, ',');
    lemma_split_first(b, ',', c);
    lemma_split_first(a, ',', b + seq![','] + c);
    assert(a + seq![','] + b + seq![','] + c =~= a + seq![','] + (b + seq![','] + c));
    assert(seq![a] + (seq![b] + seq![c]) =~= seq![a, b, c]);
}

proof fn lemma_read_pool(p: Parsed, c: DHCPConfigView)
    requires
        survives_round_trip(c),
    ensures
        read_pool(
            p,
            c.dhcp_start + seq![','] + c.dhcp_end + seq![','] + lease_text(c.lease_time),
        ) == Some(
            Parsed {
                enabled: true,
                config: DHCPConfigView {
                    dhcp_start: c.dhcp_start,
                    dhcp_end: c.dhcp_end,
                    lease_time: c.lease_time,
                    ..p.config
                },
            },
        ),
{
    let lease = lease_text(c.lease_time);
    let payload = c.dhcp_start + seq![','] + c.dhcp_end + seq![','] + lease;
    lemma_lease_round_trip(c.lease_time);
    lemma_split_three(c.dhcp_start, c.dhcp_end, lease);
    let parts = split(payload, ',');
    assert(parts == seq![c.dhcp_start, c.dhcp_end, lease]);
    assert(parts.len() == 3);
    assert(parts[0] == c.dhcp_start);
    assert(parts[1] == c.dhcp_end);
    assert(parts[2] == lease);
}

proof fn lemma_read_range(p: Parsed, c: DHCPConfigView)
    requires
        survives_round_trip(c),
    ensures
        read_line(p, range_line(c)) == Some(
            Parsed {
                enabled: true,
                config: DHCPConfigView {
                    dhcp_start: c.dhcp_start,
                    dhcp_end: c.dhcp_end,
                    lease_time: c.lease_time,
                    ..p.config
                },
            },
        ),
{
    let range = range_line(c);
    let lease = lease_text(c.lease_time);
    let pre = "dhcp-range="@;
    let payload = c.dhcp_start + seq![','] + c.dhcp_end + seq![','] + lease;
    assert(pre.len() == 11 && pre[0] == 'd' && ","@ == seq![',']) by {
        lemma_literals_clean();
    }
    assert(lease.len() >= 2 && !is_space(lease.last())) by {
        lemma_lease_round_trip(c.lease_time);
    }
    assert(range =~= pre + payload);
    lemma_prefix_skip(pre, payload);
    assert(range[0] == 'd');
    assert(range.last() == lease.last());
    lemma_trim_identity(range);
    lemma_read_pool(p, c);
    let t = trimmed(range);
    assert(t == range);
    assert(t.len() > 0 && t[0] != '#');
    assert(pre.is_prefix_of(t));
    assert(t.skip(pre.len() as int) == payload);
    assert(read_line(p, range) == read_pool(p, payload));
}

proof fn lemma_read_domain(p: Parsed, c: DHCPConfigView)
    requires
        no_trailing_space(c.local_domain),
    ensures
        read_line(p, domain_line(c)) == Some(
            Parsed { config: DHCPConfigView { local_domain: c.local_domain, ..p.config }, ..p },
        ),
{
    let domain = domain_line(c);
    lemma_literals_clean();
    assert(domain[0] == 'l');
    if c.local_domain.len() > 0 {
        assert(domain.last() == c.local_domain.last());
    } else {
        assert(domain =~= "local-domain="@);
    }
    lemma_trim_identity(domain);
    assert("local-domain="@.is_prefix_of(domain)) by {
        assert("local-domain="@ =~= domain.subrange(0, 13));
    }
    assert(!"dhcp-range="@.is_prefix_of(domain)) by {
        if "dhcp-range="@.is_prefix_of(domain) {
            assert(domain.subrange(0, 11)[0] == domain[0]);
        }
    }
    assert(!"server="@.is_prefix_of(domain)) by {
        if "server="@.is_prefix_of(domain) {
            assert(domain.subrange(0, 7)[0] == domain[0]);
        }
    }
    assert(domain.skip(13) =~= c.local_domain);
}

/// Settings that are written to the configuration file and read back come
/// back as they were: the bounds of the pool, the lease time, the resolvers
/// in their order, and the domain; and the file is found to hold a pool.
/// This holds of the settings that [`survives_round_trip`] describes.
pub proof fn lemma_round_trip(c: DHCPConfigView)
    requires
        survives_round_trip(c),
    ensures
        parsed(rendered(c)) == Some(Parsed { enabled: true, config: c }),
{
    let header = "# PiWifi DHCP Configuration"@;
    let footer = "# End PiWifi DHCP Configuration"@;
    let range = range_line(c);
    let domain = domain_line(c);
    let servers = c.dns_servers.map_values(|d: Seq<char>| server_line(d));
    let ls = config_lines(c);
    lemma_literals_clean();
    lemma_config_lines_clean(c);
    lemma_lines_of_unlines(ls);
    let p0 = nothing_read();
    let p1 = Parsed {
        enabled: true,
        config: DHCPConfigView {
            dhcp_start: c.dhcp_start,
            dhcp_end: c.dhcp_end,
            lease_time: c.lease_time,
            ..p0.config
        },
    };
    let p2 = Parsed { config: DHCPConfigView { dns_servers: c.dns_servers, ..p1.config }, ..p1 };
    let p3 = Parsed { enabled: true, config: c };
    lemma_read_comment(p0, header);
    lemma_read_range(p0, c);
    let head = seq![header, range];
    assert(read_lines(p0, head) == Some(p1)) by {
        assert(head.drop_last() =~= seq![header]);
        lemma_read_one(p0, header);
    }
    lemma_read_servers(p1, c.dns_servers);
    assert(p1.config.dns_servers + c.dns_servers =~= c.dns_servers);
    assert(read_lines(p1, servers) == Some(p2));
    lemma_read_domain(p2, c);
    lemma_read_comment(p3, footer);
    let tail = seq![domain, footer];
    assert(read_lines(p2, tail) == Some(p3)) by {
        assert(tail.drop_last() =~= seq![domain]);
        lemma_read_one(p2, domain);
    }
    lemma_read_lines_add(p0, head, servers);
    lemma_read_lines_add(p0, head + servers, tail);
    assert(ls =~= head + servers + tail);
}

} // verus!
