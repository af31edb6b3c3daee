use piwifi::monitor::{
    backoff_delay, start_monitor, Awaiting, MonitorAction, MonitorEvent, MonitorState, Notice,
    POLL_INTERVAL,
};
use piwifi::wifi::{network_from_groups, parse_number, WifiManager};

fn creds() -> MonitorEvent {
    MonitorEvent::Credentials(Some(("Home".to_string(), "secret".to_string())))
}

fn is_poll(a: &MonitorAction) -> bool {
    matches!(a, MonitorAction::Poll(s) if *s == POLL_INTERVAL)
}

#[test]
fn scan_reads_name_and_signal_after_the_heading() {
    let listing = "SSID  BSSID  SIGNAL\n\
                   HomeNet   AA:BB:CC:DD:EE:FF  78  WPA2\n\
                   broken line\n\
                   Cafe  11:22:33:44:55:66   40\n\
                   lower  aa:bb:cc:dd:ee:ff  10\n";
    let nets = WifiManager::scan(listing);
    assert_eq!(nets.len(), 2);
    assert_eq!(nets[0].ssid, "HomeNet");
    assert_eq!(nets[0].signal, 78);
    assert_eq!(nets[0].security, "WPA2");
    assert_eq!(nets[1].ssid, "Cafe");
    assert_eq!(nets[1].signal, 40);
}

#[test]
fn scan_passes_over_the_first_line_even_if_it_matches() {
    let listing = "First AA:BB:CC:DD:EE:FF 1\nSecond AA:BB:CC:DD:EE:FF 2";
    let nets = WifiManager::scan(listing);
    assert_eq!(nets.len(), 1);
    assert_eq!(nets[0].ssid, "Second");
    assert!(WifiManager::scan("").is_empty());
    assert!(WifiManager::scan("only heading\n").is_empty());
}

#[test]
fn scan_gives_minus_hundred_for_a_number_that_does_not_fit() {
    let nets = WifiManager::scan("h\nBig AA:BB:CC:DD:EE:FF 99999999999\n");
    assert_eq!(nets.len(), 1);
    assert_eq!(nets[0].signal, -100);
}

#[test]
fn network_from_groups_takes_the_first_and_third_group() {
    let g = |v: &[&str]| v.iter().map(|s| s.to_string()).collect::<Vec<String>>();
    let n = network_from_groups(&g(&["whole", "Name", "AA", "55"])).unwrap();
    assert_eq!((n.ssid.as_str(), n.signal, n.security.as_str()), ("Name", 55, "WPA2"));
    let n = network_from_groups(&g(&["whole", "Name", "AA", "x"])).unwrap();
    assert_eq!(n.signal, -100);
    let n = network_from_groups(&g(&["whole", "Name", "AA", "2147483647", "more"])).unwrap();
    assert_eq!(n.signal, i32::MAX);
    let n = network_from_groups(&g(&["whole", "Name", "AA", "2147483648"])).unwrap();
    assert_eq!(n.signal, -100);
    assert!(network_from_groups(&g(&["whole", "Name", "AA"])).is_none());
    assert!(network_from_groups(&g(&[])).is_none());
}

#[test]
fn parse_number_reads_unsigned_decimals() {
    assert_eq!(parse_number("0"), Some(0));
    assert_eq!(parse_number("007"), Some(7));
    assert_eq!(parse_number("+12"), Some(12));
    assert_eq!(parse_number("-12"), None);
    assert_eq!(parse_number(""), None);
    assert_eq!(parse_number("+"), None);
    assert_eq!(parse_number("12a"), None);
}

#[test]
fn status_reads_three_listings() {
    let active = "connection.uuid:  1234\nconnection.id:   Home Net\nconnection.id: Other\n";
    let addresses = "3: wlan0: <UP>\n    inet 10.0.0.7/24 brd 10.0.0.255\n";
    let listing = "IN-USE SSID SIGNAL\n*  Home  82\n   Other 40\n";
    let s = WifiManager::status(active, addresses, listing);
    assert!(s.connected);
    assert_eq!(s.ssid.as_deref(), Some("Home Net"));
    assert_eq!(s.ip.as_deref(), Some("10.0.0.7/24"));
    assert_eq!(s.signal, Some(82));
}

#[test]
fn status_without_an_active_connection_is_not_connected() {
    let s = WifiManager::status("", "", "");
    assert!(!s.connected);
    assert_eq!(s.ssid, None);
    assert_eq!(s.ip, None);
    assert_eq!(s.signal, None);
    let s = WifiManager::status("nothing\n", "no address", "x 99999999999\ny 5\n");
    assert!(!s.connected);
    // The first line that ends in a number decides, also where it does not fit.
    assert_eq!(s.signal, None);
}

#[test]
fn connect_forgets_the_network_first() {
    let plan = WifiManager::connect("Home", "secret");
    assert_eq!(plan.len(), 2);
    assert_eq!(plan[0].shell_line(), "sudo nmcli connection delete Home");
    assert!(plan[0].best_effort);
    assert_eq!(
        plan[1].shell_line(),
        "sudo nmcli device wifi connect Home password secret ifname wlan0"
    );
    assert!(!plan[1].best_effort);
}

#[test]
fn disconnect_scan_and_status_commands() {
    assert_eq!(WifiManager::disconnect()[0].shell_line(), "sudo nmcli device disconnect wlan0");
    assert_eq!(WifiManager::scan_command()[0].shell_line(), "sudo nmcli dev wifi list");
    let plan = WifiManager::status_commands();
    let lines: Vec<String> = plan.iter().map(|c| c.shell_line()).collect();
    assert_eq!(
        lines,
        vec![
            "sudo nmcli connection show --active",
            "ip -4 addr show wlan0",
            "sudo nmcli device wifi list --rescan no",
        ]
    );
    assert_eq!(plan.iter().map(|c| c.best_effort).collect::<Vec<_>>(), vec![false, true, false]);
}

#[test]
fn backoff_table() {
    assert_eq!(backoff_delay(0), 5);
    assert_eq!(backoff_delay(1), 10);
    assert_eq!(backoff_delay(2), 20);
    assert_eq!(backoff_delay(3), 30);
    assert_eq!(backoff_delay(4), 30);
    assert_eq!(backoff_delay(usize::MAX), 30);
}

#[test]
fn first_failed_reconnect_raises_the_index_and_success_resets_it() {
    let (mut state, first) = start_monitor();
    assert!(is_poll(&first));
    assert_eq!(state.backoff_index, 0);

    let step = state.step(MonitorEvent::Status(false));
    assert!(matches!(step.action, MonitorAction::ReadCredentials));
    assert!(step.notices.is_empty());

    let step = state.step(creds());
    match step.action {
        MonitorAction::Reconnect { delay, ssid, password } => {
            assert_eq!(delay, 5);
            assert_eq!(ssid, "Home");
            assert_eq!(password, "secret");
        }
        _ => panic!("a reconnection was due"),
    }
    assert_eq!(step.notices, vec![Notice::Reconnecting(5)]);

    let step = state.step(MonitorEvent::ConnectResult(false));
    assert!(is_poll(&step.action));
    assert_eq!(step.notices, vec![Notice::ReconnectFailed]);
    assert_eq!(state.backoff_index, 1);
    assert!(!state.was_connected);

    state.step(MonitorEvent::Status(false));
    let step = state.step(creds());
    assert!(matches!(step.action, MonitorAction::Reconnect { delay: 10, .. }));

    let step = state.step(MonitorEvent::ConnectResult(true));
    assert!(is_poll(&step.action));
    assert_eq!(step.notices, vec![Notice::ReconnectSucceeded]);
    assert_eq!(state.backoff_index, 0);
    assert!(state.was_connected);
}

#[test]
fn backoff_index_never_passes_the_last_index() {
    let (mut state, _) = start_monitor();
    let mut seen = Vec::new();
    for _ in 0..7 {
        state.step(MonitorEvent::Status(false));
        let step = state.step(creds());
        if let MonitorAction::Reconnect { delay, .. } = step.action {
            seen.push(delay);
        }
        let before = state.backoff_index;
        state.step(MonitorEvent::ConnectResult(false));
        assert!(state.backoff_index >= before);
        assert!(state.backoff_index <= 3);
    }
    assert_eq!(seen, vec![5, 10, 20, 30, 30, 30, 30]);
    assert_eq!(state.backoff_index, 3);
}

#[test]
fn without_credentials_nothing_is_tried() {
    let (mut state, _) = start_monitor();
    state.step(MonitorEvent::Status(false));
    let step = state.step(MonitorEvent::Credentials(None));
    assert!(is_poll(&step.action));
    assert_eq!(step.notices, vec![Notice::NoCredentials]);
    assert_eq!(state.awaiting, Awaiting::Status);
    assert_eq!(state.backoff_index, 0);
}

#[test]
fn transitions_are_noticed_once() {
    let (mut state, _) = start_monitor();
    let step = state.step(MonitorEvent::Status(true));
    assert_eq!(step.notices, vec![Notice::Connected]);
    assert!(is_poll(&step.action));
    let step = state.step(MonitorEvent::Status(true));
    assert!(step.notices.is_empty());
    let step = state.step(MonitorEvent::Status(false));
    assert_eq!(step.notices, vec![Notice::Disconnected]);
    assert!(matches!(step.action, MonitorAction::ReadCredentials));
    state.step(MonitorEvent::Credentials(None));
    let step = state.step(MonitorEvent::Status(false));
    assert!(step.notices.is_empty());
}

#[test]
fn seeing_the_uplink_connected_again_resets_the_index() {
    let mut state = MonitorState { backoff_index: 3, was_connected: false, awaiting: Awaiting::Status };
    state.step(MonitorEvent::Status(true));
    assert_eq!(state.backoff_index, 0);
    assert!(state.was_connected);
}

#[test]
fn an_unknown_state_and_an_unexpected_report_change_nothing() {
    let mut state = MonitorState { backoff_index: 2, was_connected: true, awaiting: Awaiting::Status };
    let step = state.step(MonitorEvent::StatusUnknown);
    assert_eq!(step.notices, vec![Notice::StatusUnknown]);
    assert!(is_poll(&step.action));
    assert_eq!(state, MonitorState { backoff_index: 2, was_connected: true, awaiting: Awaiting::Status });
    let step = state.step(MonitorEvent::ConnectResult(false));
    assert_eq!(step.notices, vec![Notice::Unexpected]);
    assert!(is_poll(&step.action));
    assert_eq!(state.backoff_index, 2);
    let mut state = MonitorState { backoff_index: 1, was_connected: false, awaiting: Awaiting::ConnectResult };
    state.step(MonitorEvent::Status(true));
    assert_eq!(state, MonitorState { backoff_index: 1, was_connected: false, awaiting: Awaiting::Status });
}
