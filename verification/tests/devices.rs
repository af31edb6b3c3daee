use piwifi::clock::Timestamp;
use piwifi::devices::{Device, DeviceAlias, DeviceError, DeviceManager};
use piwifi::mac::MacError;

fn device(mac: &str, alias: Option<&str>) -> Device {
    Device {
        mac: mac.to_string(),
        ip: "192.168.1.100".to_string(),
        hostname: "test-device".to_string(),
        alias: alias.map(|a| a.to_string()),
        first_seen: Timestamp::new(10, 0),
        last_seen: Timestamp::new(20, 0),
        vendor: None,
        is_static: false,
    }
}

#[test]
fn test_vendor_lookup() {
    assert_eq!(
        DeviceManager::lookup_vendor("B8:27:EB:00:00:00"),
        Some("Raspberry Pi".to_string())
    );
    assert_eq!(
        DeviceManager::lookup_vendor("00:1A:2B:00:00:00"),
        Some("Apple".to_string())
    );
    assert_eq!(DeviceManager::lookup_vendor("FF:FF:FF:00:00:00"), None);
}

#[test]
fn test_mac_normalization() {
    let mut manager = DeviceManager::new();
    let device = Device {
        mac: "aa:bb:cc:dd:ee:ff".to_string(),
        ip: "192.168.1.100".to_string(),
        hostname: "test-device".to_string(),
        alias: Some("My Device".to_string()),
        first_seen: Timestamp::new(0, 0),
        last_seen: Timestamp::new(0, 0),
        vendor: None,
        is_static: false,
    };

    manager.add_or_update(device).unwrap();
    let retrieved = manager.get_by_mac("AA:BB:CC:DD:EE:FF");

    assert!(retrieved.is_some());
    assert_eq!(retrieved.unwrap().mac, "AA:BB:CC:DD:EE:FF");
}

#[test]
fn vendor_lookup_ignores_case_and_takes_the_later_entry() {
    assert_eq!(DeviceManager::lookup_vendor("b8:27:eb:12:34:56"), Some("Raspberry Pi".to_string()));
    assert_eq!(DeviceManager::lookup_vendor("B8:27:EB"), Some("Raspberry Pi".to_string()));
    // Listed for two vendors: the later one holds.
    assert_eq!(DeviceManager::lookup_vendor("00:25:86:00:00:00"), Some("Intel".to_string()));
    assert_eq!(DeviceManager::lookup_vendor("00:13:10:00:00:00"), Some("Broadcom".to_string()));
    assert_eq!(DeviceManager::lookup_vendor("00:1C:73:00:00:01"), Some("Arista Networks".to_string()));
    assert_eq!(DeviceManager::lookup_vendor("00:00:0C:00:00:01"), Some("Cisco".to_string()));
    assert_eq!(DeviceManager::lookup_vendor("B8:27:EBX"), None);
    assert_eq!(DeviceManager::lookup_vendor("B8-27-EB-00-00-00"), None);
    assert_eq!(DeviceManager::lookup_vendor(""), None);
}

#[test]
fn upsert_keeps_the_alias_when_the_update_has_none() {
    let mut manager = DeviceManager::new();
    manager.add_or_update(device("aa:bb:cc:dd:ee:ff", Some("Printer"))).unwrap();
    let mut again = device("AA-BB-CC-DD-EE-FF", None);
    again.ip = "192.168.1.101".to_string();
    manager.add_or_update(again).unwrap();
    let d = manager.get_by_mac("aabbccddeeff").unwrap();
    assert_eq!(d.alias.as_deref(), Some("Printer"));
    assert_eq!(d.ip, "192.168.1.101");
    assert_eq!(d.mac, "AA:BB:CC:DD:EE:FF");
    assert_eq!(manager.get_all().len(), 1);
}

#[test]
fn upsert_replaces_the_alias_when_the_update_has_one() {
    let mut manager = DeviceManager::new();
    manager.add_or_update(device("aa:bb:cc:dd:ee:ff", Some("Printer"))).unwrap();
    manager.add_or_update(device("aa:bb:cc:dd:ee:ff", Some("Scanner"))).unwrap();
    assert_eq!(manager.get_by_mac("AA:BB:CC:DD:EE:FF").unwrap().alias.as_deref(), Some("Scanner"));
    assert_eq!(manager.saved_alias("AA:BB:CC:DD:EE:FF").as_deref(), Some("Scanner"));
}

#[test]
fn upsert_looks_the_vendor_up_and_keeps_a_known_one() {
    let mut manager = DeviceManager::new();
    manager.add_or_update(device("b8:27:eb:00:00:01", None)).unwrap();
    assert_eq!(manager.get_by_mac("B8:27:EB:00:00:01").unwrap().vendor.as_deref(), Some("Raspberry Pi"));
    let mut named = device("12:34:56:78:9a:bc", None);
    named.vendor = Some("Acme".to_string());
    manager.add_or_update(named).unwrap();
    manager.add_or_update(device("12:34:56:78:9A:BC", None)).unwrap();
    assert_eq!(manager.get_by_mac("12:34:56:78:9a:bc").unwrap().vendor.as_deref(), Some("Acme"));
    manager.add_or_update(device("12:34:56:00:00:00", None)).unwrap();
    assert_eq!(manager.get_by_mac("12:34:56:00:00:00").unwrap().vendor, None);
}

#[test]
fn upsert_refuses_a_malformed_address() {
    let mut manager = DeviceManager::new();
    assert_eq!(
        manager.add_or_update(device("ZZ:11:22:33:44:55", None)),
        Err(DeviceError::InvalidMac(MacError::NotHex))
    );
    assert_eq!(
        manager.add_or_update(device("aa:bb:cc", None)),
        Err(DeviceError::InvalidMac(MacError::Length))
    );
    assert!(manager.get_all().is_empty());
}

#[test]
fn all_is_sorted_by_address() {
    let mut manager = DeviceManager::new();
    for mac in ["ff:00:00:00:00:01", "00:00:00:00:00:02", "0a:00:00:00:00:00", "A0:00:00:00:00:00", "09:ff:ff:ff:ff:ff"] {
        manager.add_or_update(device(mac, None)).unwrap();
    }
    let macs: Vec<String> = manager.get_all().into_iter().map(|d| d.mac).collect();
    assert_eq!(
        macs,
        vec![
            "00:00:00:00:00:02",
            "09:FF:FF:FF:FF:FF",
            "0A:00:00:00:00:00",
            "A0:00:00:00:00:00",
            "FF:00:00:00:00:01",
        ]
    );
    let mut sorted = macs.clone();
    sorted.sort();
    assert_eq!(macs, sorted);
}

#[test]
fn set_alias_fails_for_an_unknown_device() {
    let mut manager = DeviceManager::new();
    manager.add_or_update(device("aa:bb:cc:dd:ee:ff", None)).unwrap();
    assert_eq!(manager.set_alias("11:22:33:44:55:66", "x").unwrap_err(), DeviceError::NotFound);
    assert_eq!(manager.set_alias("not a mac", "x").unwrap_err(), DeviceError::NotFound);
    assert_eq!(manager.get_by_mac("aa:bb:cc:dd:ee:ff").unwrap().alias, None);
}

#[test]
fn set_alias_sets_it_and_hands_back_what_to_keep() {
    let mut manager = DeviceManager::new();
    let mut fixed = device("aa:bb:cc:dd:ee:ff", None);
    fixed.is_static = true;
    manager.add_or_update(fixed).unwrap();
    manager.add_or_update(device("00:11:22:33:44:55", Some("Old"))).unwrap();
    let records = manager.set_alias("aa-bb-cc-dd-ee-ff", "Laptop").unwrap();
    assert_eq!(manager.get_by_mac("AA:BB:CC:DD:EE:FF").unwrap().alias.as_deref(), Some("Laptop"));
    assert_eq!(records.len(), 2);
    assert_eq!(records[0].mac, "00:11:22:33:44:55");
    assert_eq!(records[0].alias.as_deref(), Some("Old"));
    assert!(!records[0].is_static);
    assert_eq!(records[1].mac, "AA:BB:CC:DD:EE:FF");
    assert_eq!(records[1].alias.as_deref(), Some("Laptop"));
    assert!(records[1].is_static);
}

#[test]
fn save_keeps_only_address_alias_and_flag() {
    let mut manager = DeviceManager::new();
    manager.add_or_update(device("aa:bb:cc:dd:ee:ff", Some("A"))).unwrap();
    let records = manager.save_to_file();
    assert_eq!(records.len(), 1);
    assert_eq!(records[0].mac, "AA:BB:CC:DD:EE:FF");
    assert_eq!(records[0].alias.as_deref(), Some("A"));
    assert!(!records[0].is_static);
}

#[test]
fn load_takes_aliases_and_leaves_devices() {
    let mut manager = DeviceManager::new();
    manager.add_or_update(device("aa:bb:cc:dd:ee:ff", None)).unwrap();
    let records = vec![
        DeviceAlias { mac: "aa:bb:cc:dd:ee:ff".to_string(), alias: Some("Kept".to_string()), is_static: false },
        DeviceAlias { mac: "11:22:33:44:55:66".to_string(), alias: None, is_static: true },
        DeviceAlias { mac: "garbage".to_string(), alias: Some("Lost".to_string()), is_static: false },
        DeviceAlias { mac: "AA:BB:CC:DD:EE:FF".to_string(), alias: Some("Later".to_string()), is_static: false },
    ];
    manager.load_from_file(&records);
    assert_eq!(manager.saved_alias("AA:BB:CC:DD:EE:FF").as_deref(), Some("Later"));
    assert_eq!(manager.saved_alias("11:22:33:44:55:66"), None);
    assert_eq!(manager.get_all().len(), 1);
    assert_eq!(manager.get_by_mac("AA:BB:CC:DD:EE:FF").unwrap().alias, None);
}

#[test]
fn not_found_has_a_message() {
    assert_eq!(DeviceError::NotFound.message(), "Device not found");
    assert_eq!(
        DeviceError::InvalidMac(MacError::Length).message(),
        "MAC address must have 12 hex characters"
    );
}
