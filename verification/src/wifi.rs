//! The uplink: the requests that join and leave a wireless network, what
//! the tool's listings say, and the watch that reconnects after a loss.

use vstd::prelude::*;
use crate::command::{plain, plan_view, sudo, tolerant, Command, SystemCommand};
use crate::firewall::uplink;
use crate::text::{
    chars_of, lines, parse_decimal, parse_unsigned, rows, split_lines, string_of, texts,
};

verus! {

/// A network that a scan found.
#[derive(Debug)]
pub struct WifiNetwork {
    pub ssid: String,
    /// The signal strength; the more negative, the weaker.
    pub signal: i32,
    pub security: String,
}

/// What a [`WifiNetwork`] holds.
pub struct WifiNetworkView {
    pub ssid: Seq<char>,
    pub signal: i32,
    pub security: Seq<char>,
}

impl View for WifiNetwork {
    type V = WifiNetworkView;

    open spec fn view(&self) -> WifiNetworkView {
        WifiNetworkView { ssid: self.ssid@, signal: self.signal, security: self.security@ }
    }
}

/// The state of the uplink.
#[derive(Debug)]
pub struct WifiStatus {
    pub connected: bool,
    pub ssid: Option<String>,
    pub ip: Option<String>,
    pub signal: Option<i32>,
}

/// What a [`WifiStatus`] holds.
pub struct WifiStatusView {
    pub connected: bool,
    pub ssid: Option<Seq<char>>,
    pub ip: Option<Seq<char>>,
    pub signal: Option<i32>,
}

impl View for WifiStatus {
    type V = WifiStatusView;

    open spec fn view(&self) -> WifiStatusView {
        WifiStatusView {
            connected: self.connected,
            ssid: self.ssid.deep_view(),
            ip: self.ip.deep_view(),
            signal: self.signal,
        }
    }
}

// ---------------------------------------------------------------------------
// Regular expressions
// ---------------------------------------------------------------------------

/// What the leftmost match of the regular expression `pattern` in `text`
/// captures: the text of each group, group 0 (the whole match) first, with
/// an empty text for a group that took no part in the match. There is
/// nothing where the pattern does not match or is no valid pattern.
pub uninterp spec fn regex_groups(pattern: Seq<char>, text: Seq<char>) -> Option<Seq<Seq<char>>>;

/// The texts of an optional vector of strings.
pub open spec fn groups_view(g: Option<Vec<String>>) -> Option<Seq<Seq<char>>> {
    match g {
        Some(v) => Some(texts(v@)),
        None => None,
    }
}

/// Compiles `pattern` with `regex::Regex::new` and searches `text` with
/// `regex::Regex::captures`. The result is taken to be a function of the
/// pattern and the text alone, [`regex_groups`]; nothing more is claimed.
#[verifier::external_body]
fn captures(pattern: &str, text: &str) -> (r: Option<Vec<String>>)
    ensures
        groups_view(r) == regex_groups(pattern@, text@),
{
    let re = regex::Regex::new(pattern).ok()?;
    let caps = re.captures(text)?;
    Some(caps.iter().map(|m| m.map_or(String::new(), |m| m.as_str().to_string())).collect())
}

/// What the first of the lines `ls` that `pattern` matches captures.
pub open spec fn first_match(pattern: Seq<char>, ls: Seq<Seq<char>>) -> Option<Seq<Seq<char>>>
    decreases ls.len(),
{
    if ls.len() == 0 {
        None
    } else if regex_groups(pattern, ls[0]) is Some {
        regex_groups(pattern, ls[0])
    } else {
        first_match(pattern, ls.drop_first())
    }
}

/// What the first of the lines that `pattern` matches captures.
fn find_match(pattern: &str, ls: &Vec<Vec<char>>) -> (r: Option<Vec<String>>)
    ensures
        groups_view(r) == first_match(pattern@, rows(ls@)),
{
    let ghost all = rows(ls@);
    let mut i: usize = 0;
    assert(all.skip(0) =~= all);
    while i < ls.len()
        invariant
            i <= ls.len(),
            all == rows(ls@),
            first_match(pattern@, all) == first_match(pattern@, all.skip(i as int)),
        decreases ls.len() - i,
    {
        let line = string_of(ls[i].as_slice());
        proof {
            assert(all.skip(i as int)[0] == line@);
            assert(all.skip(i as int).drop_first() =~= all.skip(i + 1));
        }
        let found = captures(pattern, line.as_str());
        if found.is_some() {
            return found;
        }
        i += 1;
    }
    None
}

// ---------------------------------------------------------------------------
// Scanning
// ---------------------------------------------------------------------------

/// The expression that a line of the network listing is held against: a
/// name, a hardware address, and a number.
pub open spec fn scan_pattern() -> Seq<char> {
    "(\\S+)\\s+([A-F0-9:]{17})\\s+(\\d+)"@
}

/// The number that a text writes, or `otherwise` where it writes none that
/// fits.
pub open spec fn number_or(text: Seq<char>, otherwise: i32) -> i32 {
    match parse_unsigned(text, i32::MAX as nat) {
        Some(v) => v as i32,
        None => otherwise,
    }
}

/// The network that the captures of a listing line describe: the first
/// group is its name, the third its signal strength, -100 where that is no
/// number. Fewer than three groups describe none.
pub open spec fn network_of(groups: Seq<Seq<char>>) -> Option<WifiNetworkView> {
    if groups.len() >= 4 {
        Some(
            WifiNetworkView {
                ssid: groups[1],
                signal: number_or(groups[3], -100i32),
                security: "WPA2"@,
            },
        )
    } else {
        None
    }
}

/// The network that a line of the listing describes, if it describes one.
pub open spec fn network_on_line(line: Seq<char>) -> Option<WifiNetworkView> {
    match regex_groups(scan_pattern(), line) {
        Some(g) => network_of(g),
        None => None,
    }
}

/// The networks that the lines describe, in order. A line that describes
/// none is passed over.
pub open spec fn networks_on(ls: Seq<Seq<char>>) -> Seq<WifiNetworkView>
    decreases ls.len(),
{
    if ls.len() == 0 {
        Seq::empty()
    } else {
        let init = networks_on(ls.drop_last());
        match network_on_line(ls.last()) {
            Some(n) => init.push(n),
            None => init,
        }
    }
}

/// The networks of a listing: those that its lines describe, the first line
/// being the heading.
pub open spec fn scanned(output: Seq<char>) -> Seq<WifiNetworkView> {
    let ls = lines(output);
    if ls.len() == 0 {
        Seq::empty()
    } else {
        networks_on(ls.drop_first())
    }
}

/// The networks that a vector of networks holds.
pub open spec fn network_views(v: Seq<WifiNetwork>) -> Seq<WifiNetworkView> {
    v.map_values(|n: WifiNetwork| n@)
}

/// The number that `text` writes, where it writes one that fits 31 bits.
pub fn parse_number(text: &str) -> (r: Option<i32>)
    ensures
        match r {
            Some(v) => v >= 0 && parse_unsigned(text@, i32::MAX as nat) == Some(v as nat),
            None => parse_unsigned(text@, i32::MAX as nat) is None,
        },
{
    let chars = chars_of(text);
    match parse_decimal(chars.as_slice(), i32::MAX as u64) {
        Some(v) => Some(v as i32),
        None => None,
    }
}

/// The network that the captures of a listing line describe: see
/// [`network_of`].
pub fn network_from_groups(groups: &Vec<String>) -> (r: Option<WifiNetwork>)
    ensures
        match r {
            Some(n) => network_of(texts(groups@)) == Some(n@),
            None => network_of(texts(groups@)) is None,
        },
{
    if groups.len() >= 4 {
        let signal = match parse_number(groups[3].as_str()) {
            Some(v) => v,
            None => -100,
        };
        let n = WifiNetwork { ssid: groups[1].clone(), signal, security: "WPA2".to_string() };
        assert(texts(groups@)[1] == groups@[1]@);
        assert(texts(groups@)[3] == groups@[3]@);
        assert(n@ == network_of(texts(groups@))->0);
        Some(n)
    } else {
        None
    }
}

// ---------------------------------------------------------------------------
// Status
// ---------------------------------------------------------------------------

/// The first group of what the first matching line captures, where a line
/// matches and has such a group.
pub open spec fn first_capture(pattern: Seq<char>, ls: Seq<Seq<char>>) -> Option<Seq<char>> {
    match first_match(pattern, ls) {
        Some(g) => if g.len() >= 2 {
            Some(g[1])
        } else {
            None
        },
        None => None,
    }
}

/// The number that the first group of the first matching line writes,
/// where there is such a line and it writes one.
pub open spec fn first_number(pattern: Seq<char>, ls: Seq<Seq<char>>) -> Option<i32> {
    match first_capture(pattern, ls) {
        Some(t) => match parse_unsigned(t, i32::MAX as nat) {
            Some(v) => Some(v as i32),
            None => None,
        },
        None => None,
    }
}

/// The state of the uplink as three listings give it: the name of the
/// active connection, from the list of active connections; the address,
/// from the uplink's address listing; the signal, from the network
/// listing. The uplink is connected where an active connection is named.
pub open spec fn status_of(active: Seq<char>, addresses: Seq<char>, listing: Seq<char>) -> WifiStatusView {
    let ssid = first_capture("connection\\.id:\\s+(.+)"@, lines(active));
    WifiStatusView {
        connected: ssid is Some,
        ssid,
        ip: first_capture("inet\\s+(\\S+)"@, lines(addresses)),
        signal: first_number("(\\d+)$"@, lines(listing)),
    }
}

fn find_capture(pattern: &str, text: &str) -> (r: Option<String>)
    ensures
        r.deep_view() == first_capture(pattern@, lines(text@)),
{
    let chars = chars_of(text);
    let ls = split_lines(chars.as_slice());
    match find_match(pattern, &ls) {
        Some(g) => {
            if g.len() >= 2 {
                assert(texts(g@)[1] == g@[1]@);
                Some(g[1].clone())
            } else {
                None
            }
        },
        None => None,
    }
}

pub struct WifiManager;

impl WifiManager {
    /// The request that lists the networks in reach.
    pub fn scan_command() -> (plan: Vec<Command>)
        ensures
            plan_view(plan@) == seq![sudo("nmcli"@, seq!["dev"@, "wifi"@, "list"@])],
    {
        let c = SystemCommand::run_sudo("nmcli", &["dev", "wifi", "list"]);
        assert(c@.args =~= seq!["dev"@, "wifi"@, "list"@]);
        let mut plan: Vec<Command> = Vec::new();
        plan.push(c);
        assert(plan_view(plan@) =~= seq![sudo("nmcli"@, seq!["dev"@, "wifi"@, "list"@])]);
        plan
    }

    /// The networks of a listing: see [`scanned`].
    pub fn scan(output: &str) -> (r: Vec<WifiNetwork>)
        ensures
            network_views(r@) == scanned(output@),
    {
        let chars = chars_of(output);
        let ls = split_lines(chars.as_slice());
        let mut out: Vec<WifiNetwork> = Vec::new();
        if ls.len() == 0 {
            assert(network_views(out@) =~= Seq::<WifiNetworkView>::empty());
            return out;
        }
        let ghost body = rows(ls@).drop_first();
        let mut i: usize = 1;
        proof {
            assert(body.take(0) =~= Seq::<Seq<char>>::empty());
            assert(network_views(out@) =~= networks_on(body.take(0)));
        }
        while i < ls.len()
            invariant
                1 <= i <= ls.len(),
                body == rows(ls@).drop_first(),
                rows(ls@) == lines(output@),
                network_views(out@) == networks_on(body.take(i - 1)),
            decreases ls.len() - i,
        {
            let line = string_of(ls[i].as_slice());
            proof {
                assert(body.take(i as int).drop_last() =~= body.take(i - 1));
                assert(body.take(i as int).last() == line@);
            }
            if let Some(groups) = captures("(\\S+)\\s+([A-F0-9:]{17})\\s+(\\d+)", line.as_str()) {
                if let Some(n) = network_from_groups(&groups) {
                    assert(network_views(out@.push(n)) =~= network_views(out@).push(n@));
                    out.push(n);
                }
            }
            i += 1;
        }
        assert(body.take(body.len() as int) =~= body);
        out
    }

    /// The two requests that join the network `ssid`: what is remembered of
    /// the network is forgotten (a failure is passed over), then the uplink
    /// joins it with the passphrase.
    pub fn connect(ssid: &str, password: &str) -> (plan: Vec<Command>)
        ensures
            plan_view(plan@) == seq![
                tolerant(sudo("nmcli"@, seq!["connection"@, "delete"@, ssid@])),
                sudo(
                    "nmcli"@,
                    seq![
                        "device"@,
                        "wifi"@,
                        "connect"@,
                        ssid@,
                        "password"@,
                        password@,
                        "ifname"@,
                        uplink(),
                    ],
                ),
            ],
    {
        let c0 = SystemCommand::run_sudo("nmcli", &["connection", "delete", ssid]).ignoring_failure();
        assert(c0@.args =~= seq!["connection"@, "delete"@, ssid@]);
        let c1 = SystemCommand::run_sudo(
            "nmcli",
            &["device", "wifi", "connect", ssid, "password", password, "ifname", "wlan0"],
        );
        assert(c1@.args =~= seq![
            "device"@,
            "wifi"@,
            "connect"@,
            ssid@,
            "password"@,
            password@,
            "ifname"@,
            uplink(),
        ]);
        let mut plan: Vec<Command> = Vec::new();
        plan.push(c0);
        plan.push(c1);
        assert(plan_view(plan@) =~= seq![c0@, c1@]);
        plan
    }

    /// The three requests whose output the state of the uplink is read
    /// from: the active connections, the addresses of the uplink (a failure
    /// is passed over), and the network listing.
    pub fn status_commands() -> (plan: Vec<Command>)
        ensures
            plan_view(plan@) == seq![
                sudo("nmcli"@, seq!["connection"@, "show"@, "--active"@]),
                tolerant(plain("ip"@, seq!["-4"@, "addr"@, "show"@, uplink()])),
                sudo("nmcli"@, seq!["device"@, "wifi"@, "list"@, "--rescan"@, "no"@]),
            ],
    {
        let c0 = SystemCommand::run_sudo("nmcli", &["connection", "show", "--active"]);
        assert(c0@.args =~= seq!["connection"@, "show"@, "--active"@]);
        let c1 = SystemCommand::run("ip", &["-4", "addr", "show", "wlan0"]).ignoring_failure();
        assert(c1@.args =~= seq!["-4"@, "addr"@, "show"@, uplink()]);
        let c2 = SystemCommand::run_sudo("nmcli", &["device", "wifi", "list", "--rescan", "no"]);
        assert(c2@.args =~= seq!["device"@, "wifi"@, "list"@, "--rescan"@, "no"@]);
        let mut plan: Vec<Command> = Vec::new();
        plan.push(c0);
        plan.push(c1);
        plan.push(c2);
        assert(plan_view(plan@) =~= seq![c0@, c1@, c2@]);
        plan
    }

    /// The state of the uplink, read from what the three requests of
    /// [`status_commands`](Self::status_commands) wrote: see [`status_of`].
    pub fn status(active: &str, addresses: &str, listing: &str) -> (r: WifiStatus)
        ensures
            r@ == status_of(active@, addresses@, listing@),
    {
        let ssid = find_capture("connection\\.id:\\s+(.+)", active);
        let ip = find_capture("inet\\s+(\\S+)", addresses);
        let signal = match find_capture("(\\d+)$", listing) {
            Some(t) => parse_number(t.as_str()),
            None => None,
        };
        WifiStatus { connected: ssid.is_some(), ssid, ip, signal }
    }

    /// The request that makes the uplink leave its network.
    pub fn disconnect() -> (plan: Vec<Command>)
        ensures
            plan_view(plan@) == seq![sudo("nmcli"@, seq!["device"@, "disconnect"@, uplink()])],
    {
        let c = SystemCommand::run_sudo("nmcli", &["device", "disconnect", "wlan0"]);
        assert(c@.args =~= seq!["device"@, "disconnect"@, uplink()]);
        let mut plan: Vec<Command> = Vec::new();
        plan.push(c);
        assert(plan_view(plan@) =~= seq![c@]);
        plan
    }
}

} // verus!
