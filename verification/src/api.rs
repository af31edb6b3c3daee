//! What the request handlers decide: the checks on what comes in, and the
//! readings of what the system's tools and files say.

use vstd::prelude::*;
use crate::command::{Command, CommandView};
use crate::command::plan_view;
use crate::firewall::{allow_rule, block_rule, port_forward_plan, FirewallManager};
use crate::ip::{is_ipv4, is_valid_ip};
use crate::mac::{is_valid_mac, valid_mac};
use crate::text::{
    byte_len, chars_of, contains_text, cut, cut_at, decimal_chars, decimal_digits, fields,
    has_part, is_digit, lines, lower, parse_decimal, parse_unsigned, rows, split, split_fields,
    split_lines,
    string_of, strip_prefix, text_len, texts, to_lower, trim, trimmed,
};

verus! {

/// The answer to a request: the data where it went well, the error where
/// it did not.
#[derive(Debug)]
pub struct ApiResponse<T> {
    pub success: bool,
    pub data: Option<T>,
    pub error: Option<String>,
}

impl<T> ApiResponse<T> {
    /// The answer to a request that went well.
    pub fn ok(data: T) -> (r: Self)
        ensures
            r.success,
            r.data == Some(data),
            r.error is None,
    {
        ApiResponse { success: true, data: Some(data), error: None }
    }

    /// The answer to a request that did not go well.
    pub fn err(error: String) -> (r: Self)
        ensures
            !r.success,
            r.data is None,
            r.error == Some(error),
    {
        ApiResponse { success: false, data: None, error: Some(error) }
    }
}

/// A request to join a network.
#[derive(Debug)]
pub struct ConnectWiFiRequest {
    pub ssid: String,
    pub password: String,
}

/// A request to change the packet filter.
#[derive(Debug)]
pub struct FirewallRuleRequest {
    /// `allow`, `block` or `forward`.
    pub action: String,
    pub interface: String,
    pub protocol: String,
    pub port: u16,
    pub target_ip: Option<String>,
    pub target_port: Option<u16>,
}

/// A request to name a device.
#[derive(Debug)]
pub struct AliasRequest {
    pub alias: String,
}

/// What a name lookup gave.
#[derive(Debug)]
pub struct DnsResult {
    pub success: bool,
    pub records: Vec<String>,
    pub error: Option<String>,
}

/// What tracing a route gave.
#[derive(Debug)]
pub struct RouteResult {
    pub success: bool,
    pub hops: Vec<String>,
    pub error: Option<String>,
}

/// One line of a log.
#[derive(Debug)]
pub struct LogEntry {
    pub timestamp: String,
    pub level: String,
    pub message: String,
}

/// What a [`LogEntry`] holds.
pub struct LogEntryView {
    pub timestamp: Seq<char>,
    pub level: Seq<char>,
    pub message: Seq<char>,
}

impl View for LogEntry {
    type V = LogEntryView;

    open spec fn view(&self) -> LogEntryView {
        LogEntryView { timestamp: self.timestamp@, level: self.level@, message: self.message@ }
    }
}

/// Which part of a log is asked for.
#[derive(Debug)]
pub struct LogQuery {
    pub lines: usize,
    pub filter: Option<String>,
}

/// A client with a lease.
#[derive(Debug)]
pub struct Client {
    pub hostname: String,
    pub mac: String,
    pub ip: String,
    pub lease_expires: String,
}

/// What a [`Client`] holds.
pub struct ClientView {
    pub hostname: Seq<char>,
    pub mac: Seq<char>,
    pub ip: Seq<char>,
    pub lease_expires: Seq<char>,
}

impl View for Client {
    type V = ClientView;

    open spec fn view(&self) -> ClientView {
        ClientView {
            hostname: self.hostname@,
            mac: self.mac@,
            ip: self.ip@,
            lease_expires: self.lease_expires@,
        }
    }
}

// ---------------------------------------------------------------------------
// Host names
// ---------------------------------------------------------------------------

/// Why a host name is refused.
#[derive(Clone, Copy, Debug, PartialEq, Eq, Structural)]
pub enum HostnameError {
    /// The name holds a character that a shell gives a meaning to.
    Metacharacter,
    /// The name is empty or longer than 255 bytes.
    Length,
}

impl HostnameError {
    /// The message that goes with the error.
    pub open spec fn text(self) -> Seq<char> {
        match self {
            HostnameError::Metacharacter => "Invalid hostname: contains shell metacharacters"@,
            HostnameError::Length => "Invalid hostname: length out of range"@,
        }
    }

    /// The message that goes with the error.
    pub fn message(&self) -> (m: String)
        ensures
            m@ == self.text(),
    {
        match self {
            HostnameError::Metacharacter => "Invalid hostname: contains shell metacharacters".to_string(),
            HostnameError::Length => "Invalid hostname: length out of range".to_string(),
        }
    }
}

/// A character that a shell gives a meaning to.
pub open spec fn is_shell_meta(c: char) -> bool {
    c == ';' || c == '|' || c == '&' || c == '$' || c == '`' || c == '\'' || c == '"' || c == '<'
        || c == '>' || c == '\n'
}

/// Whether a text holds a character that a shell gives a meaning to.
pub open spec fn has_shell_meta(s: Seq<char>) -> bool {
    exists|i: int| 0 <= i < s.len() && is_shell_meta(#[trigger] s[i])
}

/// The first reason to refuse a host name, if there is one.
pub open spec fn hostname_check(s: Seq<char>) -> Result<(), HostnameError> {
    if has_shell_meta(s) {
        Err(HostnameError::Metacharacter)
    } else if byte_len(s) == 0 || byte_len(s) > 255 {
        Err(HostnameError::Length)
    } else {
        Ok(())
    }
}

/// Lets a host name through that may be handed to a tool: one of 1 to 255
/// bytes without any character that a shell gives a meaning to.
pub fn sanitize_hostname(input: &str) -> (r: Result<String, HostnameError>)
    ensures
        match r {
            Ok(s) => hostname_check(input@) is Ok && s@ == input@,
            Err(e) => hostname_check(input@) == Err::<(), HostnameError>(e),
        },
{
    let chars = chars_of(input);
    let mut i: usize = 0;
    while i < chars.len()
        invariant
            i <= chars.len(),
            chars@ == input@,
            forall|j: int| 0 <= j < i ==> !is_shell_meta(#[trigger] chars@[j]),
        decreases chars.len() - i,
    {
        let c = chars[i];
        if c == ';' || c == '|' || c == '&' || c == '$' || c == '`' || c == '\'' || c == '"' || c
            == '<' || c == '>' || c == '\n' {
            assert(is_shell_meta(input@[i as int]));
            return Err(HostnameError::Metacharacter);
        }
        i += 1;
    }
    let n = text_len(input);
    if n == 0 || n > 255 {
        return Err(HostnameError::Length);
    }
    Ok(input.to_string())
}

// ---------------------------------------------------------------------------
// Aliases
// ---------------------------------------------------------------------------

/// Why an alias is refused.
#[derive(Clone, Copy, Debug, PartialEq, Eq, Structural)]
pub enum AliasError {
    /// The alias is empty or longer than 64 bytes.
    Length,
    /// The alias holds something else than letters, digits, spaces, dashes
    /// and underscores.
    Character,
}

impl AliasError {
    /// The message that goes with the error.
    pub open spec fn text(self) -> Seq<char> {
        match self {
            AliasError::Length => "Alias must be 1-64 characters"@,
            AliasError::Character => "Alias can only contain alphanumeric, space, dash, and underscore"@,
        }
    }

    /// The message that goes with the error.
    pub fn message(&self) -> (m: String)
        ensures
            m@ == self.text(),
    {
        match self {
            AliasError::Length => "Alias must be 1-64 characters".to_string(),
            AliasError::Character => "Alias can only contain alphanumeric, space, dash, and underscore".to_string(),
        }
    }
}

/// A character that an alias may hold: an ASCII letter or digit, a space, a
/// dash or an underscore.
pub open spec fn is_alias_char(c: char) -> bool {
    ('a' <= c <= 'z') || ('A' <= c <= 'Z') || ('0' <= c <= '9') || c == ' ' || c == '-' || c
        == '_'
}

/// The first reason to refuse an alias, if there is one.
pub open spec fn alias_check(s: Seq<char>) -> Result<(), AliasError> {
    if byte_len(s) == 0 || byte_len(s) > 64 {
        Err(AliasError::Length)
    } else if exists|i: int| 0 <= i < s.len() && !is_alias_char(#[trigger] s[i]) {
        Err(AliasError::Character)
    } else {
        Ok(())
    }
}

/// Checks an alias: see [`alias_check`].
pub fn validate_alias(alias: &str) -> (r: Result<(), AliasError>)
    ensures
        r == alias_check(alias@),
{
    let n = text_len(alias);
    if n == 0 || n > 64 {
        return Err(AliasError::Length);
    }
    let chars = chars_of(alias);
    let mut i: usize = 0;
    while i < chars.len()
        invariant
            i <= chars.len(),
            chars@ == alias@,
            !(byte_len(alias@) == 0 || byte_len(alias@) > 64),
            forall|j: int| 0 <= j < i ==> is_alias_char(#[trigger] chars@[j]),
        decreases chars.len() - i,
    {
        let c = chars[i];
        if !(('a' <= c && c <= 'z') || ('A' <= c && c <= 'Z') || ('0' <= c && c <= '9') || c == ' '
            || c == '-' || c == '_') {
            assert(!is_alias_char(alias@[i as int]));
            return Err(AliasError::Character);
        }
        i += 1;
    }
    Ok(())
}

// ---------------------------------------------------------------------------
// Requests to the packet filter
// ---------------------------------------------------------------------------

/// Why a request to change the packet filter is refused.
#[derive(Clone, Copy, Debug, PartialEq, Eq, Structural)]
pub enum RuleError {
    /// A forwarding without the address or the port to forward to.
    MissingTarget,
    /// The action is none of `allow`, `block` and `forward`.
    UnknownAction,
}

impl RuleError {
    /// The message that goes with the error.
    pub open spec fn text(self) -> Seq<char> {
        match self {
            RuleError::MissingTarget => "Missing target IP/port"@,
            RuleError::UnknownAction => "Unknown action"@,
        }
    }

    /// The message that goes with the error.
    pub fn message(&self) -> (m: String)
        ensures
            m@ == self.text(),
    {
        match self {
            RuleError::MissingTarget => "Missing target IP/port".to_string(),
            RuleError::UnknownAction => "Unknown action".to_string(),
        }
    }
}

/// The requests that a rule request comes to, or the reason why it is
/// refused.
pub open spec fn rule_plan(
    action: Seq<char>,
    interface: Seq<char>,
    protocol: Seq<char>,
    port: u16,
    target_ip: Option<Seq<char>>,
    target_port: Option<u16>,
) -> Result<Seq<CommandView>, RuleError> {
    if action == "allow"@ {
        Ok(seq![allow_rule(interface, protocol, port)])
    } else if action == "block"@ {
        Ok(seq![block_rule(interface, protocol, port)])
    } else if action == "forward"@ {
        if target_ip is Some && target_port is Some {
            Ok(port_forward_plan(port, target_ip->0, target_port->0, protocol))
        } else {
            Err(RuleError::MissingTarget)
        }
    } else {
        Err(RuleError::UnknownAction)
    }
}

/// The requests to the packet filter that a rule request comes to: one
/// rule for `allow` and `block`, the three rules of a forwarding for
/// `forward`.
pub fn apply_firewall_rule(rule: &FirewallRuleRequest) -> (r: Result<Vec<Command>, RuleError>)
    ensures
        match r {
            Ok(plan) => rule_plan(
                rule.action@,
                rule.interface@,
                rule.protocol@,
                rule.port,
                rule.target_ip.deep_view(),
                rule.target_port,
            ) == Ok::<Seq<CommandView>, RuleError>(plan_view(plan@)),
            Err(e) => rule_plan(
                rule.action@,
                rule.interface@,
                rule.protocol@,
                rule.port,
                rule.target_ip.deep_view(),
                rule.target_port,
            ) == Err::<Seq<CommandView>, RuleError>(e),
        },
{
    let action = rule.action.as_str();
    if crate::text::same_text(action, "allow") {
        Ok(FirewallManager::allow_port(rule.interface.as_str(), rule.protocol.as_str(), rule.port))
    } else if crate::text::same_text(action, "block") {
        Ok(FirewallManager::block_port(rule.interface.as_str(), rule.protocol.as_str(), rule.port))
    } else if crate::text::same_text(action, "forward") {
        match (&rule.target_ip, rule.target_port) {
            (Some(ip), Some(port)) => Ok(
                FirewallManager::port_forward(rule.port, ip.as_str(), port, rule.protocol.as_str()),
            ),
            _ => Err(RuleError::MissingTarget),
        }
    } else {
        Err(RuleError::UnknownAction)
    }
}

// ---------------------------------------------------------------------------
// Tokens and credentials
// ---------------------------------------------------------------------------

/// The token of an `Authorization` header: what follows `Bearer `.
pub fn extract_token(header: Option<&str>) -> (r: Option<String>)
    ensures
        match r {
            Some(t) => header is Some && "Bearer "@.is_prefix_of(header->0@) && t@
                == header->0@.skip("Bearer "@.len() as int),
            None => header is None || !"Bearer "@.is_prefix_of(header->0@),
        },
{
    match header {
        Some(h) => {
            let chars = chars_of(h);
            match strip_prefix(chars.as_slice(), "Bearer ") {
                Some(rest) => Some(string_of(rest.as_slice())),
                None => None,
            }
        },
        None => None,
    }
}

/// Whether a request carries a token at all.
pub fn verify_auth(header: Option<&str>) -> (r: bool)
    ensures
        r == (header is Some && "Bearer "@.is_prefix_of(header->0@)),
{
    extract_token(header).is_some()
}

/// Whether a user name and a password are those of the administrator.
pub fn check_login(username: &str, password: &str) -> (r: bool)
    ensures
        r == (username@ == "admin"@ && password@ == "piwifi"@),
{
    crate::text::same_text(username, "admin") && crate::text::same_text(password, "piwifi")
}

// ---------------------------------------------------------------------------
// Logs
// ---------------------------------------------------------------------------

/// The number of lines that a log query asks for where it names none.
pub fn default_lines() -> (n: usize)
    ensures
        n == 100,
{
    100
}

/// The number of lines that is read for a query that asks for `lines`: at
/// least 1 and at most 500.
pub open spec fn clamped(lines: usize) -> usize {
    if lines < 1 {
        1
    } else if lines > 500 {
        500
    } else {
        lines
    }
}

/// The number of lines that is read for a query that asks for `lines`: at
/// least 1 and at most 500.
pub fn clamp_lines(lines: usize) -> (n: usize)
    ensures
        1 <= n <= 500,
        n == clamped(lines),
{
    if lines < 1 {
        1
    } else if lines > 500 {
        500
    } else {
        lines
    }
}

/// The first field of a line and what follows its third space, where the
/// line has three spaces.
pub open spec fn stamp_and_message(line: Seq<char>) -> Option<(Seq<char>, Seq<char>)> {
    match cut_at(line, ' ') {
        Some(a) => match cut_at(a.1, ' ') {
            Some(b) => match cut_at(b.1, ' ') {
                Some(c) => Some((a.0, c.1)),
                None => None,
            },
            None => None,
        },
        None => None,
    }
}

/// The level of a line of the system log, by the words in its message.
pub open spec fn system_level(m: Seq<char>) -> Seq<char> {
    if has_part(m, "ERROR"@) || has_part(m, "error"@) {
        "error"@
    } else if has_part(m, "WARN"@) || has_part(m, "warning"@) {
        "warn"@
    } else if has_part(m, "DEBUG"@) {
        "debug"@
    } else {
        "info"@
    }
}

/// The level of a line of the service's log, by the words in its message.
pub open spec fn service_level(m: Seq<char>) -> Seq<char> {
    if has_part(m, "DHCP"@) {
        "info"@
    } else if has_part(m, "error"@) || has_part(m, "ERROR"@) {
        "error"@
    } else if has_part(m, "query"@) || has_part(m, "reply"@) {
        "debug"@
    } else {
        "info"@
    }
}

/// The entry for a line of the system log. The first field is the time, and
/// what follows the third space is the message. A line with fewer than
/// three spaces gives none, and neither does one whose message does not
/// hold the filter, letters compared without regard to case.
pub open spec fn log_entry(line: Seq<char>, filter: Option<Seq<char>>) -> Option<LogEntryView> {
    match stamp_and_message(line) {
        Some(p) => if filter is Some && !has_part(lower(p.1), lower(filter->0)) {
            None
        } else {
            Some(LogEntryView { timestamp: p.0, level: system_level(p.1), message: p.1 })
        },
        None => None,
    }
}

/// The entry for a line of the service's log.
pub open spec fn service_log_entry(line: Seq<char>) -> Option<LogEntryView> {
    match stamp_and_message(line) {
        Some(p) => Some(LogEntryView { timestamp: p.0, level: service_level(p.1), message: p.1 }),
        None => None,
    }
}

fn stamp_and_rest(line: &[char]) -> (r: Option<(Vec<char>, Vec<char>)>)
    ensures
        match r {
            Some(p) => stamp_and_message(line@) == Some((p.0@, p.1@)),
            None => stamp_and_message(line@) is None,
        },
{
    match cut(line, ' ') {
        Some(a) => match cut(a.1.as_slice(), ' ') {
            Some(b) => match cut(b.1.as_slice(), ' ') {
                Some(c) => Some((a.0, c.1)),
                None => None,
            },
            None => None,
        },
        None => None,
    }
}

fn system_level_of(m: &[char]) -> (r: String)
    ensures
        r@ == system_level(m@),
{
    if contains_text(m, "ERROR") || contains_text(m, "error") {
        "error".to_string()
    } else if contains_text(m, "WARN") || contains_text(m, "warning") {
        "warn".to_string()
    } else if contains_text(m, "DEBUG") {
        "debug".to_string()
    } else {
        "info".to_string()
    }
}

fn service_level_of(m: &[char]) -> (r: String)
    ensures
        r@ == service_level(m@),
{
    if contains_text(m, "DHCP") {
        "info".to_string()
    } else if contains_text(m, "error") || contains_text(m, "ERROR") {
        "error".to_string()
    } else if contains_text(m, "query") || contains_text(m, "reply") {
        "debug".to_string()
    } else {
        "info".to_string()
    }
}

fn log_entry_of(line: &[char], filter: Option<&str>) -> (r: Option<LogEntry>)
    ensures
        match r {
            Some(e) => log_entry(
                line@,
                match filter {
                    Some(f) => Some(f@),
                    None => None,
                },
            ) == Some(e@),
            None => log_entry(
                line@,
                match filter {
                    Some(f) => Some(f@),
                    None => None,
                },
            ) is None,
        },
{
    match stamp_and_rest(line) {
        Some(p) => {
            if let Some(f) = filter {
                let m = to_lower(p.1.as_slice());
                let fc = chars_of(f);
                let fl = to_lower(fc.as_slice());
                if !crate::text::contains_part(m.as_slice(), fl.as_slice()) {
                    return None;
                }
            }
            let level = system_level_of(p.1.as_slice());
            Some(
                LogEntry {
                    timestamp: string_of(p.0.as_slice()),
                    level,
                    message: string_of(p.1.as_slice()),
                },
            )
        },
        None => None,
    }
}

/// The entry for a line of the system log: see [`log_entry`].
pub fn parse_log_line(line: &str, filter: Option<&str>) -> (r: Option<LogEntry>)
    ensures
        match r {
            Some(e) => log_entry(
                line@,
                match filter {
                    Some(f) => Some(f@),
                    None => None,
                },
            ) == Some(e@),
            None => log_entry(
                line@,
                match filter {
                    Some(f) => Some(f@),
                    None => None,
                },
            ) is None,
        },
{
    let chars = chars_of(line);
    log_entry_of(chars.as_slice(), filter)
}

/// The entries that a vector of entries holds.
pub open spec fn log_views(v: Seq<LogEntry>) -> Seq<LogEntryView> {
    v.map_values(|e: LogEntry| e@)
}

/// The entries of the lines `ls`, in order; a line that gives none is
/// passed over.
pub open spec fn log_entries(ls: Seq<Seq<char>>, filter: Option<Seq<char>>) -> Seq<LogEntryView>
    decreases ls.len(),
{
    if ls.len() == 0 {
        Seq::empty()
    } else {
        let init = log_entries(ls.drop_last(), filter);
        match log_entry(ls.last(), filter) {
            Some(e) => init.push(e),
            None => init,
        }
    }
}

/// The entries of the system log as the log tool wrote it, newest first.
pub fn system_log_entries(output: &str, filter: Option<&str>) -> (r: Vec<LogEntry>)
    ensures
        log_views(r@) == log_entries(
            lines(output@),
            match filter {
                Some(f) => Some(f@),
                None => None,
            },
        ).reverse(),
{
    let ghost fv: Option<Seq<char>> = match filter {
        Some(f) => Some(f@),
        None => None,
    };
    let chars = chars_of(output);
    let ls = split_lines(chars.as_slice());
    let ghost all = lines(output@);
    let mut found: Vec<LogEntry> = Vec::new();
    let mut i: usize = 0;
    proof {
        assert(all.take(0) =~= Seq::<Seq<char>>::empty());
        assert(log_views(found@) =~= log_entries(all.take(0), fv));
    }
    while i < ls.len()
        invariant
            i <= ls.len(),
            rows(ls@) == all,
            fv == (match filter {
                Some(f) => Some(f@),
                None => None,
            }),
            log_views(found@) == log_entries(all.take(i as int), fv),
        decreases ls.len() - i,
    {
        proof {
            assert(all.take(i + 1).drop_last() =~= all.take(i as int));
            assert(all.take(i + 1).last() == ls@[i as int]@);
        }
        if let Some(e) = log_entry_of(ls[i].as_slice(), filter) {
            assert(log_views(found@.push(e)) =~= log_views(found@).push(e@));
            found.push(e);
        }
        i += 1;
    }
    assert(all.take(all.len() as int) =~= all);
    let ghost want = log_views(found@);
    let mut out: Vec<LogEntry> = Vec::new();
    while found.len() > 0
        invariant
            log_views(out@) + log_views(found@).reverse() == want.reverse(),
        decreases found@.len(),
    {
        let ghost before = found@;
        let ghost out_before = out@;
        let e = found.pop().unwrap();
        out.push(e);
        proof {
            assert(log_views(out@) =~= log_views(out_before).push(e@));
            assert(log_views(before).reverse() =~= seq![e@] + log_views(found@).reverse());
            assert(log_views(out@) + log_views(found@).reverse() =~= log_views(out_before)
                + log_views(before).reverse());
        }
    }
    assert(log_views(out@) =~= log_views(out@) + log_views(found@).reverse());
    out
}


/// The entries of the lines `ls` of the service's log, in order; a line
/// that gives none is passed over.
pub open spec fn service_log_entries(ls: Seq<Seq<char>>) -> Seq<LogEntryView>
    decreases ls.len(),
{
    if ls.len() == 0 {
        Seq::empty()
    } else {
        let init = service_log_entries(ls.drop_last());
        match service_log_entry(ls.last()) {
            Some(e) => init.push(e),
            None => init,
        }
    }
}

/// The last `n` lines, or all of them where there are fewer.
pub open spec fn last_lines(ls: Seq<Seq<char>>, n: nat) -> Seq<Seq<char>> {
    if ls.len() > n {
        ls.skip(ls.len() - n)
    } else {
        ls
    }
}

/// The entries of the last lines of the service's log, oldest first. As
/// many lines are read as [`clamp_lines`] allows for `lines`.
pub fn dnsmasq_log_entries(content: &str, lines: usize) -> (r: Vec<LogEntry>)
    ensures
        log_views(r@) == service_log_entries(
            last_lines(crate::text::lines(content@), clamped(lines) as nat),
        ),
{
    let n = clamp_lines(lines);
    let chars = chars_of(content);
    let ls = split_lines(chars.as_slice());
    let start: usize = if ls.len() > n {
        ls.len() - n
    } else {
        0
    };
    let ghost all = crate::text::lines(content@);
    let ghost tail = last_lines(all, n as nat);
    assert(tail =~= all.skip(start as int));
    let mut out: Vec<LogEntry> = Vec::new();
    let mut i: usize = start;
    proof {
        assert(tail.take(0) =~= Seq::<Seq<char>>::empty());
        assert(log_views(out@) =~= service_log_entries(tail.take(0)));
    }
    while i < ls.len()
        invariant
            start <= i <= ls.len(),
            rows(ls@) == all,
            tail == all.skip(start as int),
            log_views(out@) == service_log_entries(tail.take(i - start)),
        decreases ls.len() - i,
    {
        proof {
            assert(tail.take(i - start + 1).drop_last() =~= tail.take(i - start));
            assert(tail.take(i - start + 1).last() == ls@[i as int]@);
        }
        if let Some(p) = stamp_and_rest(ls[i].as_slice()) {
            let level = service_level_of(p.1.as_slice());
            let e = LogEntry {
                timestamp: string_of(p.0.as_slice()),
                level,
                message: string_of(p.1.as_slice()),
            };
            assert(log_views(out@.push(e)) =~= log_views(out@).push(e@));
            out.push(e);
        }
        i += 1;
    }
    assert(tail.take(tail.len() as int) =~= tail);
    out
}

// ---------------------------------------------------------------------------
// Leases
// ---------------------------------------------------------------------------

/// The client that a line of the lease file describes: its second field is
/// the hardware address, its third the address, its fourth the host name.
/// A line with fewer than four fields describes none.
pub open spec fn lease_client(line: Seq<char>) -> Option<ClientView> {
    let f = fields(line);
    if f.len() >= 4 {
        Some(ClientView { hostname: f[3], mac: f[1], ip: f[2], lease_expires: "Active"@ })
    } else {
        None
    }
}

/// The clients that the lines describe, in order.
pub open spec fn lease_clients(ls: Seq<Seq<char>>) -> Seq<ClientView>
    decreases ls.len(),
{
    if ls.len() == 0 {
        Seq::empty()
    } else {
        let init = lease_clients(ls.drop_last());
        match lease_client(ls.last()) {
            Some(c) => init.push(c),
            None => init,
        }
    }
}

/// The clients that a vector of clients holds.
pub open spec fn client_views(v: Seq<Client>) -> Seq<ClientView> {
    v.map_values(|c: Client| c@)
}

/// The clients with a lease, as the lease file names them; none where
/// there is no lease file.
pub fn get_connected_clients(leases: Option<&str>) -> (r: Vec<Client>)
    ensures
        client_views(r@) == match leases {
            Some(t) => lease_clients(lines(t@)),
            None => Seq::empty(),
        },
{
    let mut out: Vec<Client> = Vec::new();
    let text = match leases {
        Some(t) => t,
        None => {
            assert(client_views(out@) =~= Seq::<ClientView>::empty());
            return out;
        },
    };
    let chars = chars_of(text);
    let ls = split_lines(chars.as_slice());
    let ghost all = lines(text@);
    let mut i: usize = 0;
    proof {
        assert(all.take(0) =~= Seq::<Seq<char>>::empty());
        assert(client_views(out@) =~= lease_clients(all.take(0)));
    }
    while i < ls.len()
        invariant
            i <= ls.len(),
            rows(ls@) == all,
            client_views(out@) == lease_clients(all.take(i as int)),
        decreases ls.len() - i,
    {
        proof {
            assert(all.take(i + 1).drop_last() =~= all.take(i as int));
            assert(all.take(i + 1).last() == ls@[i as int]@);
        }
        let f = split_fields(ls[i].as_slice());
        if f.len() >= 4 {
            assert(rows(f@)[1] == f@[1]@);
            assert(rows(f@)[2] == f@[2]@);
            assert(rows(f@)[3] == f@[3]@);
            let c = Client {
                hostname: string_of(f[3].as_slice()),
                mac: string_of(f[1].as_slice()),
                ip: string_of(f[2].as_slice()),
                lease_expires: "Active".to_string(),
            };
            assert(client_views(out@.push(c)) =~= client_views(out@).push(c@));
            out.push(c);
        }
        i += 1;
    }
    assert(all.take(all.len() as int) =~= all);
    out
}

// ---------------------------------------------------------------------------
// The neighbour table
// ---------------------------------------------------------------------------

/// A device as the neighbour table knows it.
#[derive(Debug)]
pub struct Device {
    pub mac: String,
    pub ip: String,
    pub hostname: String,
    pub alias: Option<String>,
    pub vendor: Option<String>,
    pub is_static: bool,
}

/// `s` without the characters `c` at its start.
pub open spec fn without_leading(s: Seq<char>, c: char) -> Seq<char>
    decreases s.len(),
{
    if s.len() > 0 && s[0] == c {
        without_leading(s.drop_first(), c)
    } else {
        s
    }
}

/// `s` without the characters `c` at its end.
pub open spec fn without_trailing(s: Seq<char>, c: char) -> Seq<char>
    decreases s.len(),
{
    if s.len() > 0 && s.last() == c {
        without_trailing(s.drop_last(), c)
    } else {
        s
    }
}

/// The address and the hardware address that a line of the neighbour table
/// names: the second field without the brackets around it, and the fourth
/// field. There is none where the line has fewer than four fields, the
/// address is no IPv4 address, or the hardware address is malformed.
pub open spec fn arp_entry(line: Seq<char>) -> Option<(Seq<char>, Seq<char>)> {
    let f = fields(line);
    if f.len() >= 4 {
        let ip = without_trailing(without_leading(f[1], '('), ')');
        if is_ipv4(ip) && valid_mac(f[3]) {
            Some((ip, f[3]))
        } else {
            None
        }
    } else {
        None
    }
}

fn strip_brackets(s: &[char]) -> (out: Vec<char>)
    ensures
        out@ == without_trailing(without_leading(s@, '('), ')'),
{
    let mut start: usize = 0;
    assert(s@.skip(0) =~= s@);
    while start < s.len() && s[start] == '('
        invariant
            start <= s.len(),
            without_leading(s@, '(') == without_leading(s@.skip(start as int), '('),
        decreases s.len() - start,
    {
        assert(s@.skip(start as int).drop_first() =~= s@.skip(start + 1));
        start += 1;
    }
    let ghost mid = s@.skip(start as int);
    assert(without_leading(s@, '(') == mid) by {
        if start < s.len() {
            assert(mid[0] == s@[start as int]);
        }
    }
    let mut end: usize = s.len();
    assert(mid.take(mid.len() as int) =~= mid);
    while end > start && s[end - 1] == ')'
        invariant
            start <= end <= s.len(),
            mid == s@.skip(start as int),
            without_trailing(mid, ')') == without_trailing(mid.take(end - start), ')'),
        decreases end,
    {
        proof {
            let cur = mid.take(end - start);
            assert(cur.last() == s@[end - 1]);
            assert(cur.drop_last() =~= mid.take(end - start - 1));
        }
        end -= 1;
    }
    proof {
        let cur = mid.take(end - start);
        if end > start {
            assert(cur.last() == s@[end - 1]);
        }
        assert(cur =~= s@.subrange(start as int, end as int));
    }
    crate::text::slice_chars(s, start, end)
}

/// The address and the hardware address that a line of the neighbour table
/// names: see [`arp_entry`].
pub fn parse_arp_line(line: &str) -> (r: Option<(String, String)>)
    ensures
        match r {
            Some(p) => arp_entry(line@) == Some((p.0@, p.1@)),
            None => arp_entry(line@) is None,
        },
{
    let chars = chars_of(line);
    let f = split_fields(chars.as_slice());
    if f.len() < 4 {
        return None;
    }
    assert(rows(f@)[1] == f@[1]@);
    assert(rows(f@)[3] == f@[3]@);
    let ip = strip_brackets(f[1].as_slice());
    let ip = string_of(ip.as_slice());
    let mac = string_of(f[3].as_slice());
    if is_valid_ip(ip.as_str()) && is_valid_mac(mac.as_str()) {
        Some((ip, mac))
    } else {
        None
    }
}

/// The pairs of address and hardware address that the lines name, in
/// order.
pub open spec fn arp_entries(ls: Seq<Seq<char>>) -> Seq<(Seq<char>, Seq<char>)>
    decreases ls.len(),
{
    if ls.len() == 0 {
        Seq::empty()
    } else {
        let init = arp_entries(ls.drop_last());
        match arp_entry(ls.last()) {
            Some(p) => init.push(p),
            None => init,
        }
    }
}

/// The devices of the neighbour table as its tool lists it: one for each
/// line that names an address and a hardware address, with nothing else
/// known of it.
pub fn get_arp_devices(output: &str) -> (r: Vec<Device>)
    ensures
        r@.len() == arp_entries(lines(output@)).len(),
        forall|i: int|
            0 <= i < r@.len() ==> {
                &&& (#[trigger] r@[i]).ip@ == arp_entries(lines(output@))[i].0
                &&& r@[i].mac@ == arp_entries(lines(output@))[i].1
                &&& r@[i].hostname@.len() == 0
                &&& r@[i].alias is None
                &&& r@[i].vendor is None
                &&& !r@[i].is_static
            },
{
    let chars = chars_of(output);
    let ls = split_lines(chars.as_slice());
    let ghost all = lines(output@);
    let mut out: Vec<Device> = Vec::new();
    let mut i: usize = 0;
    assert(all.take(0) =~= Seq::<Seq<char>>::empty());
    while i < ls.len()
        invariant
            i <= ls.len(),
            rows(ls@) == all,
            out@.len() == arp_entries(all.take(i as int)).len(),
            forall|j: int|
                0 <= j < out@.len() ==> {
                    &&& (#[trigger] out@[j]).ip@ == arp_entries(all.take(i as int))[j].0
                    &&& out@[j].mac@ == arp_entries(all.take(i as int))[j].1
                    &&& out@[j].hostname@.len() == 0
                    &&& out@[j].alias is None
                    &&& out@[j].vendor is None
                    &&& !out@[j].is_static
                },
        decreases ls.len() - i,
    {
        proof {
            assert(all.take(i + 1).drop_last() =~= all.take(i as int));
            assert(all.take(i + 1).last() == ls@[i as int]@);
        }
        let line = string_of(ls[i].as_slice());
        if let Some(p) = parse_arp_line(line.as_str()) {
            out.push(
                Device {
                    mac: p.1,
                    ip: p.0,
                    hostname: String::new(),
                    alias: None,
                    vendor: None,
                    is_static: false,
                },
            );
        }
        i += 1;
    }
    assert(all.take(all.len() as int) =~= all);
    out
}

// ---------------------------------------------------------------------------
// Diagnostics
// ---------------------------------------------------------------------------

/// The lines that are not blank.
pub open spec fn filled_lines(ls: Seq<Seq<char>>) -> Seq<Seq<char>> {
    ls.filter(|l: Seq<char>| trimmed(l).len() > 0)
}

/// A line of a route trace that names a hop: one that is not blank and
/// holds none of `traceroute`, `Traceroute` and `to`.
pub open spec fn is_hop(l: Seq<char>) -> bool {
    trimmed(l).len() > 0 && !has_part(l, "traceroute"@) && !has_part(l, "Traceroute"@)
        && !has_part(l, "to"@)
}

/// What a name lookup gave, from what the lookup tool wrote: the records
/// are the lines that are not blank; the diagnostic output, trimmed, is
/// the error where the tool ended badly or found nothing.
pub fn dns_result(success: bool, stdout: &str, stderr: &str) -> (r: DnsResult)
    ensures
        r.success == success,
        texts(r.records@) == filled_lines(lines(stdout@)),
        r.error.deep_view() == if !success || filled_lines(lines(stdout@)).len() == 0 {
            Some(trimmed(stderr@))
        } else {
            None
        },
{
    let chars = chars_of(stdout);
    let ls = split_lines(chars.as_slice());
    let ghost all = lines(stdout@);
    let ghost pred = |l: Seq<char>| trimmed(l).len() > 0;
    let mut records: Vec<String> = Vec::new();
    let mut i: usize = 0;
    proof {
        assert(all.take(0) =~= Seq::<Seq<char>>::empty());
        assert(texts(records@) =~= all.take(0).filter(pred));
    }
    while i < ls.len()
        invariant
            i <= ls.len(),
            rows(ls@) == all,
            pred == (|l: Seq<char>| trimmed(l).len() > 0),
            texts(records@) == all.take(i as int).filter(pred),
        decreases ls.len() - i,
    {
        proof {
            assert(all.take(i + 1).drop_last() =~= all.take(i as int));
            assert(all.take(i + 1).last() == ls@[i as int]@);
            reveal_with_fuel(Seq::filter, 2);
        }
        let t = trim(ls[i].as_slice());
        if t.len() > 0 {
            let line = string_of(ls[i].as_slice());
            proof {
                crate::text::lemma_texts_push(records@, line);
            }
            records.push(line);
        }
        i += 1;
    }
    assert(all.take(all.len() as int) =~= all);
    assert(texts(records@).len() == records@.len());
    let error = if !success || records.len() == 0 {
        let e = chars_of(stderr);
        let t = trim(e.as_slice());
        Some(string_of(t.as_slice()))
    } else {
        None
    };
    DnsResult { success, records, error }
}

/// What tracing a route gave, from what the tracing tool wrote: the hops
/// are the lines that [`is_hop`] lets through; the diagnostic output,
/// trimmed, is the error where the tool ended badly.
pub fn route_result(success: bool, stdout: &str, stderr: &str) -> (r: RouteResult)
    ensures
        r.success == success,
        texts(r.hops@) == lines(stdout@).filter(|l: Seq<char>| is_hop(l)),
        r.error.deep_view() == if !success {
            Some(trimmed(stderr@))
        } else {
            None
        },
{
    let chars = chars_of(stdout);
    let ls = split_lines(chars.as_slice());
    let ghost all = lines(stdout@);
    let ghost pred = |l: Seq<char>| is_hop(l);
    let mut hops: Vec<String> = Vec::new();
    let mut i: usize = 0;
    proof {
        assert(all.take(0) =~= Seq::<Seq<char>>::empty());
        assert(texts(hops@) =~= all.take(0).filter(pred));
    }
    while i < ls.len()
        invariant
            i <= ls.len(),
            rows(ls@) == all,
            pred == (|l: Seq<char>| is_hop(l)),
            texts(hops@) == all.take(i as int).filter(pred),
        decreases ls.len() - i,
    {
        proof {
            assert(all.take(i + 1).drop_last() =~= all.take(i as int));
            assert(all.take(i + 1).last() == ls@[i as int]@);
            reveal_with_fuel(Seq::filter, 2);
        }
        let l = ls[i].as_slice();
        let t = trim(l);
        if t.len() > 0 && !contains_text(l, "traceroute") && !contains_text(l, "Traceroute")
            && !contains_text(l, "to") {
            let line = string_of(l);
            proof {
                crate::text::lemma_texts_push(hops@, line);
            }
            hops.push(line);
        }
        i += 1;
    }
    assert(all.take(all.len() as int) =~= all);
    let error = if !success {
        let e = chars_of(stderr);
        let t = trim(e.as_slice());
        Some(string_of(t.as_slice()))
    } else {
        None
    };
    RouteResult { success, hops, error }
}


// ---------------------------------------------------------------------------
// Interfaces
// ---------------------------------------------------------------------------

/// A network interface as the interface tool lists it.
#[derive(Debug)]
pub struct InterfaceInfo {
    pub name: String,
    /// `UP` or `DOWN`.
    pub status: String,
    pub addresses: Vec<String>,
    pub mac: String,
}

/// What an [`InterfaceInfo`] holds.
pub struct InterfaceView {
    pub name: Seq<char>,
    pub status: Seq<char>,
    pub addresses: Seq<Seq<char>>,
    pub mac: Seq<char>,
}

impl View for InterfaceInfo {
    type V = InterfaceView;

    open spec fn view(&self) -> InterfaceView {
        InterfaceView {
            name: self.name@,
            status: self.status@,
            addresses: texts(self.addresses@),
            mac: self.mac@,
        }
    }
}

/// The interfaces of the system, in the order of the listing. Where a name
/// occurs twice, the later interface is the one that counts.
#[derive(Debug)]
pub struct InterfacesResult {
    pub success: bool,
    pub interfaces: Vec<InterfaceInfo>,
}

/// The interfaces that a vector of interfaces holds.
pub open spec fn interface_views(v: Seq<InterfaceInfo>) -> Seq<InterfaceView> {
    v.map_values(|i: InterfaceInfo| i@)
}

/// What has been read of a listing: the interfaces that are complete, and
/// the one whose lines are being read.
pub struct Listing {
    pub done: Seq<InterfaceView>,
    pub current: Option<InterfaceView>,
}

/// The interfaces of what has been read.
pub open spec fn listed(l: Listing) -> Seq<InterfaceView> {
    match l.current {
        Some(c) => l.done.push(c),
        None => l.done,
    }
}

/// Whether a line, trimmed, starts an interface: it starts with a digit
/// and holds a colon.
pub open spec fn starts_interface(t: Seq<char>) -> bool {
    t.len() > 0 && is_digit(t[0]) && t.contains(':')
}

/// The interface that a starting line names: between the first and the
/// second colon stands its name, and after the second colon its flags; it
/// is up where the flags hold `UP`. A starting line with one colon only
/// names none.
pub open spec fn named_interface(t: Seq<char>) -> Option<InterfaceView> {
    let parts = split(t, ':');
    if parts.len() >= 3 {
        Some(
            InterfaceView {
                name: trimmed(parts[1]),
                status: if has_part(trimmed(parts[2]), "UP"@) {
                    "UP"@
                } else {
                    "DOWN"@
                },
                addresses: Seq::empty(),
                mac: Seq::empty(),
            },
        )
    } else {
        None
    }
}

/// The second field of a text, where it has one.
pub open spec fn second_field(t: Seq<char>) -> Option<Seq<char>> {
    if fields(t).len() >= 2 {
        Some(fields(t)[1])
    } else {
        None
    }
}

/// What has been read after one more line. A starting line completes the
/// interface before it and starts the next. A line that starts with `inet`
/// or `inet6` adds its second field to the addresses of the interface that
/// is being read, and one that starts with `link/ether` gives its hardware
/// address. Any other line is passed over.
pub open spec fn read_listing_line(l: Listing, line: Seq<char>) -> Listing {
    let t = trimmed(line);
    let a = if starts_interface(t) {
        Listing { done: listed(l), current: named_interface(t) }
    } else {
        l
    };
    let b = if ("inet "@.is_prefix_of(t) || "inet6 "@.is_prefix_of(t)) && second_field(t) is Some
        && a.current is Some {
        Listing {
            current: Some(
                InterfaceView {
                    addresses: a.current->0.addresses.push(second_field(t)->0),
                    ..a.current->0
                },
            ),
            ..a
        }
    } else {
        a
    };
    if "link/ether "@.is_prefix_of(t) && second_field(t) is Some && b.current is Some {
        Listing {
            current: Some(InterfaceView { mac: second_field(t)->0, ..b.current->0 }),
            ..b
        }
    } else {
        b
    }
}

/// What has been read after the lines `ls`.
pub open spec fn read_listing(ls: Seq<Seq<char>>) -> Listing
    decreases ls.len(),
{
    if ls.len() == 0 {
        Listing { done: Seq::empty(), current: None }
    } else {
        read_listing_line(read_listing(ls.drop_last()), ls.last())
    }
}

fn interface_named(t: &[char]) -> (r: Option<InterfaceInfo>)
    ensures
        match r {
            Some(i) => named_interface(t@) == Some(i@),
            None => named_interface(t@) is None,
        },
{
    let parts = crate::text::split_chars(t, ':');
    if parts.len() < 3 {
        assert(rows(parts@).len() == parts@.len());
        return None;
    }
    assert(rows(parts@)[1] == parts@[1]@);
    assert(rows(parts@)[2] == parts@[2]@);
    let name = trim(parts[1].as_slice());
    let flags = trim(parts[2].as_slice());
    let status = if contains_text(flags.as_slice(), "UP") {
        "UP".to_string()
    } else {
        "DOWN".to_string()
    };
    let i = InterfaceInfo {
        name: string_of(name.as_slice()),
        status,
        addresses: Vec::new(),
        mac: String::new(),
    };
    assert(i@.addresses =~= Seq::<Seq<char>>::empty());
    assert(i@.mac =~= Seq::<char>::empty());
    Some(i)
}

fn field_two(t: &[char]) -> (r: Option<String>)
    ensures
        r.deep_view() == second_field(t@),
{
    let f = split_fields(t);
    if f.len() >= 2 {
        assert(rows(f@)[1] == f@[1]@);
        Some(string_of(f[1].as_slice()))
    } else {
        assert(rows(f@).len() == f@.len());
        None
    }
}

/// The interfaces of the system, read from the interface tool's listing:
/// see [`read_listing_line`].
pub fn parse_interfaces(output: &str) -> (r: Vec<InterfaceInfo>)
    ensures
        interface_views(r@) == listed(read_listing(lines(output@))),
{
    let chars = chars_of(output);
    let ls = split_lines(chars.as_slice());
    let ghost all = lines(output@);
    let mut done: Vec<InterfaceInfo> = Vec::new();
    let mut current: Option<InterfaceInfo> = None;
    let mut i: usize = 0;
    proof {
        assert(all.take(0) =~= Seq::<Seq<char>>::empty());
        assert(interface_views(done@) =~= Seq::<InterfaceView>::empty());
    }
    while i < ls.len()
        invariant
            i <= ls.len(),
            rows(ls@) == all,
            read_listing(all.take(i as int)) == (Listing {
                done: interface_views(done@),
                current: match current {
                    Some(c) => Some(c@),
                    None => None,
                },
            }),
        decreases ls.len() - i,
    {
        proof {
            assert(all.take(i + 1).drop_last() =~= all.take(i as int));
            assert(all.take(i + 1).last() == ls@[i as int]@);
        }
        let t = trim(ls[i].as_slice());
        let ts = t.as_slice();
        if t.len() > 0 && crate::text::digit_char(t[0]) && crate::mac::has_char(ts, ':') {
            if let Some(c) = current {
                assert(interface_views(done@.push(c)) =~= interface_views(done@).push(c@));
                done.push(c);
            }
            current = interface_named(ts);
        }
        let second = field_two(ts);
        let is_address = strip_prefix(ts, "inet ").is_some() || strip_prefix(ts, "inet6 ").is_some();
        let is_mac = strip_prefix(ts, "link/ether ").is_some();
        if let Some(value) = second {
            if is_address {
                if let Some(c) = current {
                    let mut addresses = c.addresses;
                    let ghost before = addresses@;
                    proof {
                        crate::text::lemma_texts_push(before, value);
                    }
                    addresses.push(value.clone());
                    current = Some(
                        InterfaceInfo { name: c.name, status: c.status, addresses, mac: c.mac },
                    );
                }
            }
            if is_mac {
                if let Some(c) = current {
                    current = Some(
                        InterfaceInfo {
                            name: c.name,
                            status: c.status,
                            addresses: c.addresses,
                            mac: value,
                        },
                    );
                }
            }
        }
        i += 1;
    }
    assert(all.take(all.len() as int) =~= all);
    if let Some(c) = current {
        assert(interface_views(done@.push(c)) =~= interface_views(done@).push(c@));
        done.push(c);
    }
    done
}

// ---------------------------------------------------------------------------
// The state of the system
// ---------------------------------------------------------------------------

/// The number that a text writes, or 0 where it writes none that fits 64
/// bits.
pub open spec fn number_or_zero(text: Seq<char>) -> u64 {
    match parse_unsigned(text, u64::MAX as nat) {
        Some(v) => v as u64,
        None => 0,
    }
}

fn number_of(text: &[char]) -> (n: u64)
    ensures
        n == number_or_zero(text@),
{
    match parse_decimal(text, u64::MAX) {
        Some(v) => v,
        None => 0,
    }
}

/// The seconds that the system has been up, as the kernel's uptime file
/// gives them: its first field where that is a whole number, else 0.
pub open spec fn uptime_seconds(content: Seq<char>) -> u64 {
    if fields(content).len() > 0 {
        number_or_zero(fields(content)[0])
    } else {
        0
    }
}

/// Seconds written as days, hours and minutes.
pub open spec fn uptime_text(seconds: u64) -> Seq<char> {
    decimal_digits((seconds / 86400) as nat) + "d "@ + decimal_digits(
        ((seconds % 86400) / 3600) as nat,
    ) + "h "@ + decimal_digits(((seconds % 3600) / 60) as nat) + "m"@
}

/// How long the system has been up, from the kernel's uptime file.
pub fn get_uptime(content: &str) -> (r: String)
    ensures
        r@ == uptime_text(uptime_seconds(content@)),
{
    let chars = chars_of(content);
    let f = split_fields(chars.as_slice());
    let seconds: u64 = if f.len() > 0 {
        assert(rows(f@)[0] == f@[0]@);
        number_of(f[0].as_slice())
    } else {
        0
    };
    let mut out = decimal_chars(seconds / 86400);
    crate::text::append_str(&mut out, "d ");
    let h = decimal_chars((seconds % 86400) / 3600);
    crate::text::append_chars(&mut out, h.as_slice());
    crate::text::append_str(&mut out, "h ");
    let m = decimal_chars((seconds % 3600) / 60);
    crate::text::append_chars(&mut out, m.as_slice());
    crate::text::append_str(&mut out, "m");
    assert(out@ =~= uptime_text(seconds));
    string_of(out.as_slice())
}

/// The share of `part` in `whole`, in whole percent, rounded down; 0 where
/// `whole` is 0, and no more than fits 32 bits.
pub open spec fn percent_of(part: u64, whole: u64) -> u32 {
    if whole == 0 {
        0
    } else if part * 100 / (whole as int) > u32::MAX {
        u32::MAX
    } else {
        (part * 100 / (whole as int)) as u32
    }
}

fn percent(part: u64, whole: u64) -> (p: u32)
    ensures
        p == percent_of(part, whole),
{
    if whole == 0 {
        return 0;
    }
    let scaled: u128 = part as u128 * 100;
    let q: u128 = scaled / whole as u128;
    if q > u32::MAX as u128 {
        u32::MAX
    } else {
        q as u32
    }
}

/// The total and the available memory that have been read so far.
pub struct Memory {
    pub total: u64,
    pub available: u64,
}

/// What is known of the memory after one more line of the kernel's memory
/// file: a line that starts with `MemTotal:` or `MemAvailable:` and has a
/// second field gives the number of that field, 0 where it is no number.
pub open spec fn read_memory_line(m: Memory, line: Seq<char>) -> Memory {
    let f = fields(line);
    let total = if "MemTotal:"@.is_prefix_of(line) && f.len() >= 2 {
        number_or_zero(f[1])
    } else {
        m.total
    };
    let available = if "MemAvailable:"@.is_prefix_of(line) && f.len() >= 2 {
        number_or_zero(f[1])
    } else {
        m.available
    };
    Memory { total, available }
}

/// What is known of the memory after the lines `ls`.
pub open spec fn read_memory(ls: Seq<Seq<char>>) -> Memory
    decreases ls.len(),
{
    if ls.len() == 0 {
        Memory { total: 0, available: 0 }
    } else {
        read_memory_line(read_memory(ls.drop_last()), ls.last())
    }
}

/// The share of the memory that is in use, in percent: what is not
/// available of the total. It is 0 where the total is unknown or less than
/// what is available.
pub open spec fn memory_usage(m: Memory) -> u32 {
    if m.available > m.total {
        0
    } else {
        percent_of((m.total - m.available) as u64, m.total)
    }
}

/// The share of the memory that is in use, from the kernel's memory file.
pub fn get_ram_usage(meminfo: &str) -> (r: u32)
    ensures
        r == memory_usage(read_memory(lines(meminfo@))),
{
    let chars = chars_of(meminfo);
    let ls = split_lines(chars.as_slice());
    let ghost all = lines(meminfo@);
    let mut total: u64 = 0;
    let mut available: u64 = 0;
    let mut i: usize = 0;
    assert(all.take(0) =~= Seq::<Seq<char>>::empty());
    while i < ls.len()
        invariant
            i <= ls.len(),
            rows(ls@) == all,
            read_memory(all.take(i as int)) == (Memory { total, available }),
        decreases ls.len() - i,
    {
        proof {
            assert(all.take(i + 1).drop_last() =~= all.take(i as int));
            assert(all.take(i + 1).last() == ls@[i as int]@);
        }
        let line = ls[i].as_slice();
        let f = split_fields(line);
        if f.len() >= 2 {
            assert(rows(f@)[1] == f@[1]@);
            if strip_prefix(line, "MemTotal:").is_some() {
                total = number_of(f[1].as_slice());
            }
            if strip_prefix(line, "MemAvailable:").is_some() {
                available = number_of(f[1].as_slice());
            }
        }
        i += 1;
    }
    assert(all.take(all.len() as int) =~= all);
    if available > total {
        0
    } else {
        percent(total - available, total)
    }
}

/// The share of the disk that is in use, in percent, from the second line
/// of the disk tool's listing: its third field (used) against its second
/// (total). It is 0 where there is no such line, the line has fewer than
/// five fields, or the total is 0 or no number.
pub open spec fn disk_usage(output: Seq<char>) -> u32 {
    let ls = lines(output);
    if ls.len() < 2 {
        0
    } else {
        let f = fields(ls[1]);
        if f.len() < 5 {
            0
        } else {
            percent_of(number_or_zero(f[2]), number_or_zero(f[1]))
        }
    }
}

/// The share of the disk that is in use, from the disk tool's listing.
pub fn get_disk_usage(output: &str) -> (r: u32)
    ensures
        r == disk_usage(output@),
{
    let chars = chars_of(output);
    let ls = split_lines(chars.as_slice());
    if ls.len() < 2 {
        assert(rows(ls@).len() == ls@.len());
        return 0;
    }
    assert(rows(ls@)[1] == ls@[1]@);
    let f = split_fields(ls[1].as_slice());
    if f.len() < 5 {
        assert(rows(f@).len() == f@.len());
        return 0;
    }
    assert(rows(f@)[1] == f@[1]@);
    assert(rows(f@)[2] == f@[2]@);
    let total = number_of(f[1].as_slice());
    let used = number_of(f[2].as_slice());
    percent(used, total)
}

} // verus!
