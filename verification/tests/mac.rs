use piwifi::mac::{create_magic_packet, format_mac, is_valid_mac, mac_key, MacError};

#[test]
fn normalize_dashes_and_reject_letters_beyond_f() {
    assert_eq!(format_mac("aa-bb-cc-dd-ee-ff").unwrap(), "AA:BB:CC:DD:EE:FF");
    assert_eq!(format_mac("ZZ:11:22:33:44:55"), Err(MacError::NotHex));
}

#[test]
fn normalize_accepts_three_notations() {
    assert_eq!(format_mac("aa:bb:cc:dd:ee:ff").unwrap(), "AA:BB:CC:DD:EE:FF");
    assert_eq!(format_mac("AABBCCDDEEFF").unwrap(), "AA:BB:CC:DD:EE:FF");
    assert_eq!(format_mac("0a-1B-2c-3D-4e-5F").unwrap(), "0A:1B:2C:3D:4E:5F");
}

#[test]
fn normalize_is_idempotent_and_ignores_case() {
    for x in ["aa-bb-cc-dd-ee-ff", "00:11:22:33:44:55", "deadbeef0001", "De:Ad:Be:Ef:00:01"] {
        let once = format_mac(x).unwrap();
        assert_eq!(format_mac(&once).unwrap(), once);
        assert_eq!(format_mac(&x.to_uppercase()).unwrap(), once);
        assert_eq!(format_mac(&x.to_lowercase()).unwrap(), once);
    }
}

#[test]
fn normalize_rejects_other_lengths_and_content() {
    assert_eq!(format_mac(""), Err(MacError::Length));
    assert_eq!(format_mac("aa:bb:cc:dd:ee"), Err(MacError::Length));
    assert_eq!(format_mac("aa:bb:cc:dd:ee:ff:00"), Err(MacError::Length));
    assert_eq!(format_mac("aabbccddeeffa"), Err(MacError::Length));
    assert_eq!(format_mac("aa:bb:cc:dd:ee:fg"), Err(MacError::NotHex));
    // Colons are the separators here, so the dashes count as content.
    assert_eq!(format_mac("aa:bb-cc"), Err(MacError::Length));
    assert_eq!(format_mac("aa:bb-cc-dd-e"), Err(MacError::NotHex));
    assert_eq!(format_mac("aa bb cc dd "), Err(MacError::NotHex));
}

#[test]
fn mac_errors_have_messages() {
    assert_eq!(MacError::Length.message(), "MAC address must have 12 hex characters");
    assert_eq!(MacError::NotHex.message(), "MAC address must contain only hex characters");
}

#[test]
fn mac_key_is_the_48_bit_value() {
    assert_eq!(mac_key("00:00:00:00:00:00"), Some(0));
    assert_eq!(mac_key("00:00:00:00:01:00"), Some(256));
    assert_eq!(mac_key("ff-ff-ff-ff-ff-ff"), Some(0xFFFF_FFFF_FFFF));
    assert_eq!(mac_key("AABBCCDDEEFF"), Some(0xAABB_CCDD_EEFF));
    assert_eq!(mac_key("AABBCCDDEEF"), None);
    assert_eq!(mac_key("AABBCCDDEEFG"), None);
}

#[test]
fn valid_mac_is_six_hex_bytes() {
    assert!(is_valid_mac("aa:bb:cc:dd:ee:ff"));
    assert!(is_valid_mac("0:1:2:3:4:5"));
    assert!(is_valid_mac("00a:1:2:3:4:5"));
    assert!(!is_valid_mac("100:1:2:3:4:5"));
    assert!(!is_valid_mac("aa:bb:cc:dd:ee"));
    assert!(!is_valid_mac("aa:bb:cc:dd:ee:ff:00"));
    assert!(!is_valid_mac("aa:bb:cc:dd:ee:gg"));
    assert!(!is_valid_mac("aa:bb:cc:dd:ee:"));
    assert!(!is_valid_mac("<incomplete>"));
    assert!(!is_valid_mac("aa-bb-cc-dd-ee-ff"));
}

#[test]
fn magic_packet_is_six_ff_and_sixteen_addresses() {
    let p = create_magic_packet("01:23:45:67:89:AB").unwrap();
    assert_eq!(p.len(), 102);
    assert_eq!(&p[..6], &[0xFF; 6]);
    for k in 0..16 {
        assert_eq!(&p[6 + 6 * k..12 + 6 * k], &[0x01, 0x23, 0x45, 0x67, 0x89, 0xAB]);
    }
    assert_eq!(create_magic_packet("0123456789ab").unwrap(), p);
}

#[test]
fn magic_packet_rejects_what_is_no_address() {
    assert_eq!(create_magic_packet("01:23:45:67:89"), Err(MacError::Length));
    assert_eq!(create_magic_packet("01:23:45:67:89:A"), Err(MacError::Length));
    assert_eq!(create_magic_packet("01:23:45:67:89:AX"), Err(MacError::NotHex));
    assert_eq!(create_magic_packet("01-23-45-67-89-AB"), Err(MacError::NotHex));
    assert_eq!(create_magic_packet(""), Err(MacError::Length));
}
