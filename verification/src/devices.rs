//! The registry of the devices seen on the network, keyed by hardware
//! address.

use vstd::prelude::*;
use crate::clock::Timestamp;
use crate::mac::{
    format_mac, lemma_canonical_order, lemma_digits_of_canonical, mac_digits, mac_key, mac_value,
};
use crate::text::lex_lt;
use crate::mac::{normalized_mac, MacError};
use crate::table::Table;
use crate::text::copy_opt;
use crate::vendor::{vendor_name, vendor_name_of};

verus! {

/// One device on the network.
#[derive(Debug)]
pub struct Device {
    pub mac: String,
    pub ip: String,
    pub hostname: String,
    /// The name that the user gave the device.
    pub alias: Option<String>,
    pub first_seen: Timestamp,
    pub last_seen: Timestamp,
    /// The vendor that the address belongs to.
    pub vendor: Option<String>,
    /// Whether the device has a fixed lease.
    pub is_static: bool,
}

/// What a [`Device`] holds.
pub struct DeviceView {
    pub mac: Seq<char>,
    pub ip: Seq<char>,
    pub hostname: Seq<char>,
    pub alias: Option<Seq<char>>,
    pub first_seen: Timestamp,
    pub last_seen: Timestamp,
    pub vendor: Option<Seq<char>>,
    pub is_static: bool,
}

impl View for Device {
    type V = DeviceView;

    open spec fn view(&self) -> DeviceView {
        DeviceView {
            mac: self.mac@,
            ip: self.ip@,
            hostname: self.hostname@,
            alias: self.alias.deep_view(),
            first_seen: self.first_seen,
            last_seen: self.last_seen,
            vendor: self.vendor.deep_view(),
            is_static: self.is_static,
        }
    }
}

impl Device {
    /// A copy of the device.
    pub fn duplicate(&self) -> (r: Device)
        ensures
            r == *self,
    {
        Device {
            mac: self.mac.clone(),
            ip: self.ip.clone(),
            hostname: self.hostname.clone(),
            alias: copy_opt(&self.alias),
            first_seen: self.first_seen,
            last_seen: self.last_seen,
            vendor: copy_opt(&self.vendor),
            is_static: self.is_static,
        }
    }
}

/// What is kept of a device between runs: its address, its alias and
/// whether its lease is fixed.
#[derive(Debug)]
pub struct DeviceAlias {
    pub mac: String,
    pub alias: Option<String>,
    pub is_static: bool,
}

/// What a [`DeviceAlias`] holds.
pub struct DeviceAliasView {
    pub mac: Seq<char>,
    pub alias: Option<Seq<char>>,
    pub is_static: bool,
}

impl View for DeviceAlias {
    type V = DeviceAliasView;

    open spec fn view(&self) -> DeviceAliasView {
        DeviceAliasView {
            mac: self.mac@,
            alias: self.alias.deep_view(),
            is_static: self.is_static,
        }
    }
}

/// The part of a device that is kept between runs.
pub open spec fn alias_record(d: DeviceView) -> DeviceAliasView {
    DeviceAliasView { mac: d.mac, alias: d.alias, is_static: d.is_static }
}

/// Why the registry refused a request.
#[derive(Clone, Copy, Debug, PartialEq, Eq, Structural)]
pub enum DeviceError {
    /// The address is malformed.
    InvalidMac(MacError),
    /// No device with that address is known.
    NotFound,
}

impl DeviceError {
    /// The message that goes with the error.
    pub open spec fn text(self) -> Seq<char> {
        match self {
            DeviceError::InvalidMac(e) => e.text(),
            DeviceError::NotFound => "Device not found"@,
        }
    }

    /// The message that goes with the error.
    pub fn message(&self) -> (m: String)
        ensures
            m@ == self.text(),
    {
        match self {
            DeviceError::InvalidMac(e) => e.message(),
            DeviceError::NotFound => "Device not found".to_string(),
        }
    }
}

/// The first of two optional values that is there.
pub open spec fn or_else<T>(a: Option<T>, b: Option<T>) -> Option<T> {
    if a is Some {
        a
    } else {
        b
    }
}

/// The record that an update leaves in the registry. The address is in
/// canonical form. Alias and vendor are those of the update where it has
/// them, else those of the record that was there; a vendor that is still
/// missing is looked up by the address.
pub open spec fn merged(
    incoming: DeviceView,
    existing: Option<DeviceView>,
    canonical: Seq<char>,
) -> DeviceView {
    let old_alias = if existing is Some {
        existing->0.alias
    } else {
        None
    };
    let old_vendor = if existing is Some {
        existing->0.vendor
    } else {
        None
    };
    DeviceView {
        mac: canonical,
        ip: incoming.ip,
        hostname: incoming.hostname,
        alias: or_else(incoming.alias, old_alias),
        first_seen: incoming.first_seen,
        last_seen: incoming.last_seen,
        vendor: or_else(or_else(incoming.vendor, old_vendor), vendor_name_of(canonical)),
        is_static: incoming.is_static,
    }
}

/// An update that gives no alias leaves the device the alias that it had,
/// and one that gives no vendor leaves it the vendor that it had.
pub proof fn lemma_update_keeps_alias(
    before: Map<u64, DeviceView>,
    k: u64,
    incoming: DeviceView,
    canonical: Seq<char>,
)
    requires
        before.contains_key(k),
    ensures
        incoming.alias is None ==> before.insert(
            k,
            merged(incoming, Some(before[k]), canonical),
        )[k].alias == before[k].alias,
        incoming.vendor is None && before[k].vendor is Some ==> before.insert(
            k,
            merged(incoming, Some(before[k]), canonical),
        )[k].vendor == before[k].vendor,
{
}

/// The alias table after the pairs of `records` were put into it, one after
/// the other. A record counts where its address is well formed and it has
/// an alias.
pub open spec fn loaded(table: Map<u64, Seq<char>>, records: Seq<DeviceAliasView>) -> Map<
    u64,
    Seq<char>,
>
    decreases records.len(),
{
    if records.len() == 0 {
        table
    } else {
        let before = loaded(table, records.drop_last());
        let r = records.last();
        if mac_value(r.mac) is Some && r.alias is Some {
            before.insert(mac_value(r.mac)->0 as u64, r.alias->0)
        } else {
            before
        }
    }
}

/// The devices seen so far, each under the 48-bit value of its address, and
/// beside them the aliases that were set or loaded.
pub struct DeviceManager {
    devices: Table<Device>,
    aliases: Table<String>,
}

impl DeviceManager {
    /// The registry as a map from the value of an address to its record.
    pub closed spec fn view(&self) -> Map<u64, DeviceView> {
        self.devices@.map_values(|d: Device| d@)
    }

    /// The alias table: the aliases that were set or loaded, by address.
    pub closed spec fn aliases(&self) -> Map<u64, Seq<char>> {
        self.aliases@.map_values(|s: String| s@)
    }

    /// The keys of the registry in ascending order.
    pub closed spec fn keys(&self) -> Seq<u64> {
        self.devices.keys()
    }

    /// Every record stands under the value of its own address, which is in
    /// canonical form, and the keys are the registry's addresses in strictly
    /// ascending order.
    pub closed spec fn wf(&self) -> bool {
        &&& self.devices.wf()
        &&& self.aliases.wf()
        &&& forall|k: u64| #[trigger]
            self.devices@.contains_key(k) ==> Self::record_ok(k, self.devices@[k]@)
    }

    /// A record that may stand under the key `k`.
    pub open spec fn record_ok(k: u64, d: DeviceView) -> bool {
        &&& normalized_mac(d.mac) == Ok::<Seq<char>, MacError>(d.mac)
        &&& mac_value(d.mac) == Some(k as nat)
    }

    /// What [`wf`](Self::wf) says, for use by callers.
    pub proof fn lemma_wf(&self)
        requires
            self.wf(),
        ensures
            forall|k: u64| #[trigger] self@.contains_key(k) ==> Self::record_ok(k, self@[k]),
            forall|i: int, j: int|
                0 <= i < j < self.keys().len() ==> self.keys()[i] < self.keys()[j],
            forall|k: u64| #[trigger] self@.contains_key(k) <==> self.keys().contains(k),
    {
        assert forall|k: u64| #[trigger] self@.contains_key(k) <==> self.keys().contains(k) by {
            if self@.contains_key(k) {
                assert(self.devices@.contains_key(k));
                let i = self.devices.index_of(k)->0;
                assert(self.keys()[i] == k);
            }
            if self.keys().contains(k) {
                let i = choose|i: int| 0 <= i < self.keys().len() && self.keys()[i] == k;
                self.devices.lemma_index(i);
            }
        }
        assert forall|k: u64| #[trigger] self@.contains_key(k) implies Self::record_ok(
            k,
            self@[k],
        ) by {
            assert(self.devices@.contains_key(k));
        }
    }

    /// An empty registry.
    pub fn new() -> (m: Self)
        ensures
            m.wf(),
            m@ == Map::<u64, DeviceView>::empty(),
            m.aliases() == Map::<u64, Seq<char>>::empty(),
            m.keys().len() == 0,
    {
        let m = DeviceManager { devices: Table::new(), aliases: Table::new() };
        assert(m@ =~= Map::<u64, DeviceView>::empty());
        assert(m.aliases() =~= Map::<u64, Seq<char>>::empty());
        m
    }

    /// Adds a device, or brings the record of a known one up to date. The
    /// address is put into canonical form and is the key. An alias or a
    /// vendor that the update does not give is taken from the record that was
    /// there; a vendor that is still missing is looked up by the address. An
    /// alias that the record then has also goes into the alias table.
    pub fn add_or_update(&mut self, device: Device) -> (r: Result<(), DeviceError>)
        requires
            old(self).wf(),
        ensures
            final(self).wf(),
            match r {
                Ok(_) => {
                    &&& normalized_mac(device.mac@) is Ok
                    &&& mac_value(device.mac@) is Some
                    &&& {
                        let k = mac_value(device.mac@)->0 as u64;
                        let m = merged(
                            device@,
                            if old(self)@.contains_key(k) {
                                Some(old(self)@[k])
                            } else {
                                None
                            },
                            normalized_mac(device.mac@)->Ok_0,
                        );
                        &&& final(self)@ == old(self)@.insert(k, m)
                        &&& final(self).aliases() == if m.alias is Some {
                            old(self).aliases().insert(k, m.alias->0)
                        } else {
                            old(self).aliases()
                        }
                    }
                },
                Err(e) => {
                    &&& normalized_mac(device.mac@) is Err
                    &&& e == DeviceError::InvalidMac(normalized_mac(device.mac@)->Err_0)
                    &&& final(self)@ == old(self)@
                    &&& final(self).aliases() == old(self).aliases()
                },
            },
    {
        let canonical = match format_mac(device.mac.as_str()) {
            Ok(c) => c,
            Err(e) => {
                return Err(DeviceError::InvalidMac(e));
            },
        };
        proof {
            lemma_digits_of_canonical(mac_digits(device.mac@));
        }
        let key = match mac_key(canonical.as_str()) {
            Some(k) => k,
            None => {
                return Err(DeviceError::InvalidMac(MacError::Length));
            },
        };
        let ghost before = *self;
        let (old_alias, old_vendor) = match self.devices.get(key) {
            Some(d) => (copy_opt(&d.alias), copy_opt(&d.vendor)),
            None => (None, None),
        };
        let alias = match device.alias {
            Some(a) => Some(a),
            None => old_alias,
        };
        let kept_vendor = match device.vendor {
            Some(v) => Some(v),
            None => old_vendor,
        };
        let vendor = match kept_vendor {
            Some(v) => Some(v),
            None => vendor_name(canonical.as_str()),
        };
        let alias_copy = copy_opt(&alias);
        let updated = Device {
            mac: canonical,
            ip: device.ip,
            hostname: device.hostname,
            alias,
            first_seen: device.first_seen,
            last_seen: device.last_seen,
            vendor,
            is_static: device.is_static,
        };
        let ghost m = merged(
            device@,
            if before@.contains_key(key) {
                Some(before@[key])
            } else {
                None
            },
            normalized_mac(device.mac@)->Ok_0,
        );
        assert(updated@ == m);
        self.devices.put(key, updated);
        if let Some(a) = alias_copy {
            self.aliases.put(key, a);
            assert(self.aliases() =~= before.aliases().insert(key, m.alias->0));
        }
        proof {
            assert(self@ =~= before@.insert(key, m));
            assert forall|k: u64| #[trigger] self.devices@.contains_key(k) implies Self::record_ok(
                k,
                self.devices@[k]@,
            ) by {
                if k != key {
                    assert(before.devices@.contains_key(k));
                }
            }
        }
        Ok(())
    }

    /// The record of the device with the address `mac`, where there is one.
    pub fn get_by_mac(&self, mac: &str) -> (r: Option<Device>)
        requires
            self.wf(),
        ensures
            match r {
                Some(d) => mac_value(mac@) is Some && self@.contains_key(
                    mac_value(mac@)->0 as u64,
                ) && d@ == self@[mac_value(mac@)->0 as u64],
                None => mac_value(mac@) is None || !self@.contains_key(mac_value(mac@)->0 as u64),
            },
    {
        match mac_key(mac) {
            Some(key) => match self.devices.get(key) {
                Some(d) => Some(d.duplicate()),
                None => None,
            },
            None => None,
        }
    }

    /// The alias that was set or loaded for the address `mac`, where there
    /// is one.
    pub fn saved_alias(&self, mac: &str) -> (r: Option<String>)
        requires
            self.wf(),
        ensures
            match r {
                Some(a) => mac_value(mac@) is Some && self.aliases().contains_key(
                    mac_value(mac@)->0 as u64,
                ) && a@ == self.aliases()[mac_value(mac@)->0 as u64],
                None => mac_value(mac@) is None || !self.aliases().contains_key(
                    mac_value(mac@)->0 as u64,
                ),
            },
    {
        match mac_key(mac) {
            Some(key) => match self.aliases.get(key) {
                Some(a) => Some(a.clone()),
                None => None,
            },
            None => None,
        }
    }

    /// All records, in ascending order of address: by the value of the
    /// address, which for addresses in canonical form is dictionary order.
    pub fn get_all(&self) -> (r: Vec<Device>)
        requires
            self.wf(),
        ensures
            r@.len() == self.keys().len(),
            forall|i: int|
                0 <= i < r@.len() ==> self@.contains_key(#[trigger] self.keys()[i]) && r@[i]@
                    == self@[self.keys()[i]],
            forall|i: int, j: int|
                0 <= i < j < r@.len() ==> mac_value(r@[i].mac@)->0 < mac_value(r@[j].mac@)->0,
            forall|i: int, j: int|
                0 <= i < j < r@.len() ==> lex_lt(#[trigger] r@[i].mac@, #[trigger] r@[j].mac@),
    {
        let mut out: Vec<Device> = Vec::new();
        let n = self.devices.len();
        let mut i: usize = 0;
        while i < n
            invariant
                self.wf(),
                n == self.keys().len(),
                i <= n,
                out@.len() == i,
                forall|j: int|
                    0 <= j < i ==> self@.contains_key(#[trigger] self.keys()[j]) && out@[j]@
                        == self@[self.keys()[j]],
            decreases n - i,
        {
            let d = self.devices.value_at(i);
            out.push(d.duplicate());
            i += 1;
        }
        proof {
            self.lemma_wf();
            assert forall|a: int, b: int| 0 <= a < b < out@.len() implies mac_value(
                out@[a].mac@,
            )->0 < mac_value(out@[b].mac@)->0 by {
                assert(self@.contains_key(self.keys()[a]));
                assert(self@.contains_key(self.keys()[b]));
                assert(Self::record_ok(self.keys()[a], self@[self.keys()[a]]));
                assert(Self::record_ok(self.keys()[b], self@[self.keys()[b]]));
            }
            assert forall|a: int, b: int| 0 <= a < b < out@.len() implies lex_lt(
                #[trigger] out@[a].mac@,
                #[trigger] out@[b].mac@,
            ) by {
                assert(self@.contains_key(self.keys()[a]));
                assert(self@.contains_key(self.keys()[b]));
                assert(Self::record_ok(self.keys()[a], self@[self.keys()[a]]));
                assert(Self::record_ok(self.keys()[b], self@[self.keys()[b]]));
                lemma_canonical_order(out@[a].mac@, out@[b].mac@);
            }
        }
        out
    }

    /// What is to be kept between runs: for each record, in ascending order
    /// of address, its address, alias and fixed-lease flag.
    pub fn save_to_file(&self) -> (r: Vec<DeviceAlias>)
        requires
            self.wf(),
        ensures
            r@.len() == self.keys().len(),
            forall|i: int|
                0 <= i < r@.len() ==> self@.contains_key(#[trigger] self.keys()[i]) && r@[i]@
                    == alias_record(self@[self.keys()[i]]),
    {
        let mut out: Vec<DeviceAlias> = Vec::new();
        let n = self.devices.len();
        let mut i: usize = 0;
        while i < n
            invariant
                self.wf(),
                n == self.keys().len(),
                i <= n,
                out@.len() == i,
                forall|j: int|
                    0 <= j < i ==> self@.contains_key(#[trigger] self.keys()[j]) && out@[j]@
                        == alias_record(self@[self.keys()[j]]),
            decreases n - i,
        {
            let d = self.devices.value_at(i);
            out.push(
                DeviceAlias {
                    mac: d.mac.clone(),
                    alias: copy_opt(&d.alias),
                    is_static: d.is_static,
                },
            );
            i += 1;
        }
        out
    }

    /// Takes the aliases of `records` into the alias table, one after the
    /// other. A record whose address is malformed or that has no alias is
    /// passed over. The devices stay as they are.
    pub fn load_from_file(&mut self, records: &Vec<DeviceAlias>)
        requires
            old(self).wf(),
        ensures
            final(self).wf(),
            final(self)@ == old(self)@,
            final(self).keys() == old(self).keys(),
            final(self).aliases() == loaded(old(self).aliases(), records@.map_values(|r: DeviceAlias| r@)),
    {
        let ghost views = records@.map_values(|r: DeviceAlias| r@);
        let mut i: usize = 0;
        assert(views.take(0) =~= Seq::<DeviceAliasView>::empty());
        while i < records.len()
            invariant
                i <= records.len(),
                self.wf(),
                self@ == old(self)@,
                self.keys() == old(self).keys(),
                views == records@.map_values(|r: DeviceAlias| r@),
                self.aliases() == loaded(old(self).aliases(), views.take(i as int)),
            decreases records.len() - i,
        {
            let rec = &records[i];
            proof {
                assert(views.take(i + 1).drop_last() =~= views.take(i as int));
                assert(views.take(i + 1).last() == rec@);
            }
            let ghost before = *self;
            if let Some(key) = mac_key(rec.mac.as_str()) {
                if let Some(a) = &rec.alias {
                    self.aliases.put(key, a.clone());
                    assert(self.aliases() =~= before.aliases().insert(key, a@));
                }
            }
            i += 1;
        }
        assert(views.take(views.len() as int) =~= views);
    }

    /// Gives the device with the address `mac` the alias `alias`, which also
    /// goes into the alias table, and hands back what is to be kept between
    /// runs. Fails where no device with that address is known.
    pub fn set_alias(&mut self, mac: &str, alias: &str) -> (r: Result<Vec<DeviceAlias>, DeviceError>)
        requires
            old(self).wf(),
        ensures
            final(self).wf(),
            match r {
                Ok(records) => {
                    &&& mac_value(mac@) is Some
                    &&& {
                        let k = mac_value(mac@)->0 as u64;
                        &&& old(self)@.contains_key(k)
                        &&& final(self)@ == old(self)@.insert(
                            k,
                            DeviceView { alias: Some(alias@), ..old(self)@[k] },
                        )
                        &&& final(self).aliases() == old(self).aliases().insert(k, alias@)
                        &&& final(self).keys() == old(self).keys()
                    }
                    &&& records@.len() == final(self).keys().len()
                    &&& forall|i: int|
                        0 <= i < records@.len() ==> final(self)@.contains_key(
                            #[trigger] final(self).keys()[i],
                        ) && records@[i]@ == alias_record(final(self)@[final(self).keys()[i]])
                },
                Err(e) => {
                    &&& e == DeviceError::NotFound
                    &&& (mac_value(mac@) is None || !old(self)@.contains_key(
                        mac_value(mac@)->0 as u64,
                    ))
                    &&& final(self)@ == old(self)@
                    &&& final(self).aliases() == old(self).aliases()
                },
            },
    {
        let key = match mac_key(mac) {
            Some(k) => k,
            None => {
                return Err(DeviceError::NotFound);
            },
        };
        let ghost before = *self;
        let updated = match self.devices.get(key) {
            Some(d) => Device {
                mac: d.mac.clone(),
                ip: d.ip.clone(),
                hostname: d.hostname.clone(),
                alias: Some(alias.to_string()),
                first_seen: d.first_seen,
                last_seen: d.last_seen,
                vendor: copy_opt(&d.vendor),
                is_static: d.is_static,
            },
            None => {
                return Err(DeviceError::NotFound);
            },
        };
        assert(before.devices@.contains_key(key));
        assert(updated@ == DeviceView { alias: Some(alias@), ..before@[key] });
        self.devices.put(key, updated);
        self.aliases.put(key, alias.to_string());
        proof {
            assert(self@ =~= before@.insert(key, DeviceView { alias: Some(alias@), ..before@[key] }));
            assert(self.aliases() =~= before.aliases().insert(key, alias@));
            assert forall|k: u64| #[trigger] self.devices@.contains_key(k) implies Self::record_ok(
                k,
                self.devices@[k]@,
            ) by {
                assert(before.devices@.contains_key(k));
            }
        }
        Ok(self.save_to_file())
    }

    /// The vendor of an address, by its first three bytes.
    pub fn lookup_vendor(mac: &str) -> (r: Option<String>)
        ensures
            r.deep_view() == vendor_name_of(mac@),
    {
        vendor_name(mac)
    }
}

} // verus!
