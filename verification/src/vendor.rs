//! The hardware vendor behind an address: a fixed table from the first
//! three bytes of an address to the name of the vendor that they belong to.

use vstd::prelude::*;
use crate::mac::hex_digit_value;
use crate::mac::hex_value;
use crate::text::{chars_of, hex_digit_char, is_hex_digit};

verus! {

/// The vendors that the table knows.
#[derive(Clone, Copy, Debug, PartialEq, Eq, Structural)]
pub enum Vendor {
    Apple,
    RaspberryPi,
    Google,
    Intel,
    Samsung,
    LgElectronics,
    Sony,
    Qualcomm,
    Broadcom,
    Motorola,
    AristaNetworks,
    Hp,
    Dell,
    Cisco,
}

impl Vendor {
    /// The vendor's name as it is shown.
    pub open spec fn name_spec(self) -> Seq<char> {
        match self {
            Vendor::Apple => "Apple"@,
            Vendor::RaspberryPi => "Raspberry Pi"@,
            Vendor::Google => "Google"@,
            Vendor::Intel => "Intel"@,
            Vendor::Samsung => "Samsung"@,
            Vendor::LgElectronics => "LG Electronics"@,
            Vendor::Sony => "Sony"@,
            Vendor::Qualcomm => "Qualcomm"@,
            Vendor::Broadcom => "Broadcom"@,
            Vendor::Motorola => "Motorola"@,
            Vendor::AristaNetworks => "Arista Networks"@,
            Vendor::Hp => "HP"@,
            Vendor::Dell => "Dell"@,
            Vendor::Cisco => "Cisco"@,
        }
    }

    /// The vendor's name as it is shown.
    pub fn name(&self) -> (n: String)
        ensures
            n@ == self.name_spec(),
    {
        match self {
            Vendor::Apple => "Apple".to_string(),
            Vendor::RaspberryPi => "Raspberry Pi".to_string(),
            Vendor::Google => "Google".to_string(),
            Vendor::Intel => "Intel".to_string(),
            Vendor::Samsung => "Samsung".to_string(),
            Vendor::LgElectronics => "LG Electronics".to_string(),
            Vendor::Sony => "Sony".to_string(),
            Vendor::Qualcomm => "Qualcomm".to_string(),
            Vendor::Broadcom => "Broadcom".to_string(),
            Vendor::Motorola => "Motorola".to_string(),
            Vendor::AristaNetworks => "Arista Networks".to_string(),
            Vendor::Hp => "HP".to_string(),
            Vendor::Dell => "Dell".to_string(),
            Vendor::Cisco => "Cisco".to_string(),
        }
    }
}

/// The table: the vendor that a 24-bit prefix is assigned to.
pub open spec fn vendor_of_oui(oui: u32) -> Option<Vendor> {
    match oui {
        0x001A2B | 0x003EE0 | 0x0050F4 | 0x00626E | 0x00A0D2 | 0x00B0D0 | 0x00D0B7 |
            0x00E04C | 0x00F4B9 | 0x080007 | 0x1093E9 | 0x14CC20 | 0x1C5216 | 0x34159E |
            0x38C086 | 0x3C0754 | 0x406C8F | 0x442A60 | 0x48D705 | 0x4CB199 | 0x50EAD6 |
            0x5C5A92 | 0x60A4B7 | 0x641C41 | 0x68A86D | 0x6C4008 | 0x7073CB | 0x74E50B |
            0x7831C1 | 0x7C6D62 | 0x80E650 | 0x84B153 | 0x8863DF | 0x8C8590 | 0x90842B |
            0x94E979 | 0x980347 | 0x9C2919 | 0xA088B4 | 0xA41269 | 0xA85B78 | 0xACBC32 |
            0xB03495 | 0xB40B44 | 0xB8098A | 0xBC52B3 | 0xC02506 | 0xC42C03 | 0xC8278D |
            0xCC2DE0 | 0xD023BE | 0xD4619D | 0xD89695 | 0xDC2B61 | 0xE0ACCB | 0xE48BF5 |
            0xE88D28 | 0xEC2280 | 0xF01898 | 0xF40F24 | 0xF8FFC2 | 0xFC3FDB => Some(Vendor::Apple),
        0x2CCF67 | 0xB827EB | 0xDCA632 | 0xE45F01 => Some(Vendor::RaspberryPi),
        0x001A11 | 0x001FCC | 0x0034C7 | 0x00562F | 0xACDE48 => Some(Vendor::Google),
        0x0019B9 | 0x001F3C | 0x002586 | 0x08606E => Some(Vendor::Intel),
        0x0007AB | 0x000FB5 | 0x0012FB | 0x00166B | 0x0019A0 | 0x001E74 | 0x00214C |
            0x0023D8 | 0x0025D3 | 0x0026C6 | 0x00E064 | 0x0808C2 | 0xA02195 => Some(Vendor::Samsung),
        0x0005B3 | 0x001E8E | 0x0023FA | 0x003F0E | 0x0048CA => Some(Vendor::LgElectronics),
        0x0002B3 | 0x000C6E | 0x00126D | 0x001A80 | 0x001FA7 => Some(Vendor::Sony),
        0x000B85 | 0x001FCA | 0x00226B | 0x00242B => Some(Vendor::Qualcomm),
        0x0010BD | 0x001310 | 0x001485 | 0x0019E3 => Some(Vendor::Broadcom),
        0x0004C1 | 0x00122F | 0x001E67 | 0x002543 => Some(Vendor::Motorola),
        0x001C73 => Some(Vendor::AristaNetworks),
        0x0001E6 | 0x0004EA | 0x000701 | 0x00096B | 0x000C02 => Some(Vendor::Hp),
        0x000F1F | 0x000F8F | 0x00123F | 0x00144F => Some(Vendor::Dell),
        0x00000C | 0x000142 | 0x000163 | 0x000196 | 0x0001CA => Some(Vendor::Cisco),
        _ => None,
    }
}

/// Looks a 24-bit prefix up in the table.
pub fn vendor_for(oui: u32) -> (r: Option<Vendor>)
    ensures
        r == vendor_of_oui(oui),
{
    match oui {
        0x001A2B | 0x003EE0 | 0x0050F4 | 0x00626E | 0x00A0D2 | 0x00B0D0 | 0x00D0B7 |
            0x00E04C | 0x00F4B9 | 0x080007 | 0x1093E9 | 0x14CC20 | 0x1C5216 | 0x34159E |
            0x38C086 | 0x3C0754 | 0x406C8F | 0x442A60 | 0x48D705 | 0x4CB199 | 0x50EAD6 |
            0x5C5A92 | 0x60A4B7 | 0x641C41 | 0x68A86D | 0x6C4008 | 0x7073CB | 0x74E50B |
            0x7831C1 | 0x7C6D62 | 0x80E650 | 0x84B153 | 0x8863DF | 0x8C8590 | 0x90842B |
            0x94E979 | 0x980347 | 0x9C2919 | 0xA088B4 | 0xA41269 | 0xA85B78 | 0xACBC32 |
            0xB03495 | 0xB40B44 | 0xB8098A | 0xBC52B3 | 0xC02506 | 0xC42C03 | 0xC8278D |
            0xCC2DE0 | 0xD023BE | 0xD4619D | 0xD89695 | 0xDC2B61 | 0xE0ACCB | 0xE48BF5 |
            0xE88D28 | 0xEC2280 | 0xF01898 | 0xF40F24 | 0xF8FFC2 | 0xFC3FDB => Some(Vendor::Apple),
        0x2CCF67 | 0xB827EB | 0xDCA632 | 0xE45F01 => Some(Vendor::RaspberryPi),
        0x001A11 | 0x001FCC | 0x0034C7 | 0x00562F | 0xACDE48 => Some(Vendor::Google),
        0x0019B9 | 0x001F3C | 0x002586 | 0x08606E => Some(Vendor::Intel),
        0x0007AB | 0x000FB5 | 0x0012FB | 0x00166B | 0x0019A0 | 0x001E74 | 0x00214C |
            0x0023D8 | 0x0025D3 | 0x0026C6 | 0x00E064 | 0x0808C2 | 0xA02195 => Some(Vendor::Samsung),
        0x0005B3 | 0x001E8E | 0x0023FA | 0x003F0E | 0x0048CA => Some(Vendor::LgElectronics),
        0x0002B3 | 0x000C6E | 0x00126D | 0x001A80 | 0x001FA7 => Some(Vendor::Sony),
        0x000B85 | 0x001FCA | 0x00226B | 0x00242B => Some(Vendor::Qualcomm),
        0x0010BD | 0x001310 | 0x001485 | 0x0019E3 => Some(Vendor::Broadcom),
        0x0004C1 | 0x00122F | 0x001E67 | 0x002543 => Some(Vendor::Motorola),
        0x001C73 => Some(Vendor::AristaNetworks),
        0x0001E6 | 0x0004EA | 0x000701 | 0x00096B | 0x000C02 => Some(Vendor::Hp),
        0x000F1F | 0x000F8F | 0x00123F | 0x00144F => Some(Vendor::Dell),
        0x00000C | 0x000142 | 0x000163 | 0x000196 | 0x0001CA => Some(Vendor::Cisco),
        _ => None,
    }
}

/// Whether a text starts with three colon-separated pairs of hexadecimal
/// digits and, if it goes on, goes on with a colon.
pub open spec fn has_oui(s: Seq<char>) -> bool {
    &&& s.len() >= 8
    &&& is_hex_digit(s[0])
    &&& is_hex_digit(s[1])
    &&& s[2] == ':'
    &&& is_hex_digit(s[3])
    &&& is_hex_digit(s[4])
    &&& s[5] == ':'
    &&& is_hex_digit(s[6])
    &&& is_hex_digit(s[7])
    &&& (s.len() == 8 || s[8] == ':')
}

/// The 24-bit prefix that a text starts with, where it starts with one.
pub open spec fn oui_of(s: Seq<char>) -> Option<u32> {
    if has_oui(s) {
        Some(
            (((hex_value(s[0]) * 16 + hex_value(s[1])) * 256 + (hex_value(s[3]) * 16 + hex_value(
                s[4],
            ))) * 256 + (hex_value(s[6]) * 16 + hex_value(s[7]))) as u32,
        )
    } else {
        None
    }
}

/// The name of the vendor of an address, where the table knows its prefix.
pub open spec fn vendor_name_of(s: Seq<char>) -> Option<Seq<char>> {
    match oui_of(s) {
        Some(oui) => match vendor_of_oui(oui) {
            Some(v) => Some(v.name_spec()),
            None => None,
        },
        None => None,
    }
}

/// The 24-bit prefix that `chars` starts with, where it starts with one.
pub fn parse_oui(chars: &[char]) -> (r: Option<u32>)
    ensures
        r == oui_of(chars@),
{
    if chars.len() < 8 {
        return None;
    }
    if !(hex_digit_char(chars[0]) && hex_digit_char(chars[1]) && chars[2] == ':' && hex_digit_char(
        chars[3],
    ) && hex_digit_char(chars[4]) && chars[5] == ':' && hex_digit_char(chars[6]) && hex_digit_char(
        chars[7],
    )) {
        return None;
    }
    if chars.len() > 8 && chars[8] != ':' {
        return None;
    }
    let a: u32 = hex_digit_value(chars[0]) as u32 * 16 + hex_digit_value(chars[1]) as u32;
    let b: u32 = hex_digit_value(chars[3]) as u32 * 16 + hex_digit_value(chars[4]) as u32;
    let c: u32 = hex_digit_value(chars[6]) as u32 * 16 + hex_digit_value(chars[7]) as u32;
    Some((a * 256 + b) * 256 + c)
}

/// The vendor of an address, by the first three of its colon-separated
/// bytes; letters may be in either case.
pub fn vendor_name(mac: &str) -> (r: Option<String>)
    ensures
        r.deep_view() == vendor_name_of(mac@),
{
    let chars = chars_of(mac);
    match parse_oui(chars.as_slice()) {
        Some(oui) => match vendor_for(oui) {
            Some(v) => Some(v.name()),
            None => None,
        },
        None => None,
    }
}

} // verus!
