//! Who uses the uplink most: the bytes that each address of the LAN has
//! sent, as the kernel's connection table counts them.

use vstd::prelude::*;
use crate::api::{arp_entries, parse_arp_line};
use crate::ranking::{ranks_before, top_ranked, weighted, weighted_all};
use crate::text::{
    chars_of, fields, lines, parse_decimal, parse_unsigned, rows, same_text, split_fields,
    split_lines, string_of, strip_prefix,
};

verus! {

/// The traffic of one device.
#[derive(Debug)]
pub struct BandwidthStat {
    pub device_mac: String,
    pub device_name: String,
    pub ip: String,
    pub packets_sent: u64,
    pub packets_recv: u64,
    pub bytes_sent: u64,
    pub bytes_recv: u64,
}

/// The most devices that a report names.
pub const REPORT_LIMIT: usize = 20;

/// What follows `prefix` in the last of the fields that start with it;
/// an empty text where none does.
pub open spec fn last_tagged(f: Seq<Seq<char>>, prefix: Seq<char>) -> Seq<char>
    decreases f.len(),
{
    if f.len() == 0 {
        Seq::empty()
    } else if prefix.is_prefix_of(f.last()) {
        f.last().skip(prefix.len() as int)
    } else {
        last_tagged(f.drop_last(), prefix)
    }
}

/// The number of the last of the fields that are `bytes=` and a number; 0
/// where there is none. A field that starts with `src=` is no such field.
pub open spec fn last_bytes(f: Seq<Seq<char>>) -> u64
    decreases f.len(),
{
    if f.len() == 0 {
        0
    } else if !"src="@.is_prefix_of(f.last()) && "bytes="@.is_prefix_of(f.last())
        && parse_unsigned(f.last().skip("bytes="@.len() as int), u64::MAX as nat) is Some {
        parse_unsigned(f.last().skip("bytes="@.len() as int), u64::MAX as nat)->0 as u64
    } else {
        last_bytes(f.drop_last())
    }
}

/// The flow that a line of the connection table counts: its source address
/// and the bytes sent. A line with fewer than five fields, without a source
/// or without bytes counts none.
pub open spec fn flow(line: Seq<char>) -> Option<(Seq<char>, u64)> {
    let f = fields(line);
    if f.len() >= 5 && last_tagged(f, "src="@).len() > 0 && last_bytes(f) > 0 {
        Some((last_tagged(f, "src="@), last_bytes(f)))
    } else {
        None
    }
}

/// The flows that the lines count, in order.
pub open spec fn flows(ls: Seq<Seq<char>>) -> Seq<(Seq<char>, u64)>
    decreases ls.len(),
{
    if ls.len() == 0 {
        Seq::empty()
    } else {
        let init = flows(ls.drop_last());
        match flow(ls.last()) {
            Some(x) => init.push(x),
            None => init,
        }
    }
}

/// The bytes that the flows count for the address `ip`, all told.
pub open spec fn sent_by(fl: Seq<(Seq<char>, u64)>, ip: Seq<char>) -> nat
    decreases fl.len(),
{
    if fl.len() == 0 {
        0
    } else {
        sent_by(fl.drop_last(), ip) + if fl.last().0 == ip {
            fl.last().1 as nat
        } else {
            0nat
        }
    }
}

/// A number of bytes as 64 bits hold it: the number itself, or the most
/// that fits.
pub open spec fn capped(n: nat) -> u64 {
    if n > u64::MAX {
        u64::MAX
    } else {
        n as u64
    }
}

/// The hardware address that the neighbour table gives for `ip`: that of
/// the last of its entries for `ip`, where there is one.
pub open spec fn neighbour(table: Seq<(Seq<char>, Seq<char>)>, ip: Seq<char>) -> Option<Seq<char>>
    decreases table.len(),
{
    if table.len() == 0 {
        None
    } else if table.last().0 == ip {
        Some(table.last().1)
    } else {
        neighbour(table.drop_last(), ip)
    }
}

/// The flow that a line of the connection table counts: see [`flow`].
pub fn parse_flow(line: &[char]) -> (r: Option<(String, u64)>)
    ensures
        match r {
            Some(p) => flow(line@) == Some((p.0@, p.1)),
            None => flow(line@) is None,
        },
{
    let f = split_fields(line);
    let ghost fv = fields(line@);
    if f.len() < 5 {
        assert(rows(f@).len() == f@.len());
        return None;
    }
    let mut src: Vec<char> = Vec::new();
    let mut bytes: u64 = 0;
    let mut i: usize = 0;
    assert(fv.take(0) =~= Seq::<Seq<char>>::empty());
    while i < f.len()
        invariant
            i <= f.len(),
            rows(f@) == fv,
            src@ == last_tagged(fv.take(i as int), "src="@),
            bytes == last_bytes(fv.take(i as int)),
        decreases f.len() - i,
    {
        proof {
            assert(fv.take(i + 1).drop_last() =~= fv.take(i as int));
            assert(fv.take(i + 1).last() == f@[i as int]@);
        }
        let part = f[i].as_slice();
        if let Some(rest) = strip_prefix(part, "src=") {
            src = rest;
        } else if let Some(rest) = strip_prefix(part, "bytes=") {
            if let Some(b) = parse_decimal(rest.as_slice(), u64::MAX) {
                bytes = b;
            }
        }
        i += 1;
    }
    assert(fv.take(fv.len() as int) =~= fv);
    assert(rows(f@).len() == f@.len());
    if src.len() > 0 && bytes > 0 {
        Some((string_of(src.as_slice()), bytes))
    } else {
        None
    }
}

/// The flows that the connection table counts: see [`flows`].
pub fn parse_nf_conntrack(content: &str) -> (r: Vec<(String, u64, u64)>)
    ensures
        r@.len() == flows(lines(content@)).len(),
        forall|i: int|
            0 <= i < r@.len() ==> (#[trigger] r@[i]).0@ == flows(lines(content@))[i].0 && r@[i].1
                == flows(lines(content@))[i].1 && r@[i].2 == 0,
{
    let chars = chars_of(content);
    let ls = split_lines(chars.as_slice());
    let ghost all = lines(content@);
    let mut out: Vec<(String, u64, u64)> = Vec::new();
    let mut i: usize = 0;
    assert(all.take(0) =~= Seq::<Seq<char>>::empty());
    while i < ls.len()
        invariant
            i <= ls.len(),
            rows(ls@) == all,
            out@.len() == flows(all.take(i as int)).len(),
            forall|j: int|
                0 <= j < out@.len() ==> (#[trigger] out@[j]).0@ == flows(all.take(i as int))[j].0
                    && out@[j].1 == flows(all.take(i as int))[j].1 && out@[j].2 == 0,
        decreases ls.len() - i,
    {
        proof {
            assert(all.take(i + 1).drop_last() =~= all.take(i as int));
            assert(all.take(i + 1).last() == ls@[i as int]@);
        }
        if let Some(p) = parse_flow(ls[i].as_slice()) {
            out.push((p.0, p.1, 0));
        }
        i += 1;
    }
    assert(all.take(all.len() as int) =~= all);
    out
}

/// Whether `t` holds every address that sent something once, with the
/// bytes that it sent.
pub open spec fn is_usage(fl: Seq<(Seq<char>, u64)>, t: Seq<(String, u64)>) -> bool {
    &&& forall|i: int|
        0 <= i < t.len() ==> (#[trigger] t[i]).1 == capped(sent_by(fl, t[i].0@)) && t[i].1 > 0
    &&& forall|i: int, j: int| 0 <= i < j < t.len() ==> (#[trigger] t[i]).0@ != (#[trigger] t[j]).0@
    &&& forall|ip: Seq<char>|
        #[trigger] sent_by(fl, ip) > 0 ==> exists|i: int|
            0 <= i < t.len() && (#[trigger] t[i]).0@ == ip
}

/// The flows that a vector of flows holds.
pub open spec fn flow_views(v: Seq<(String, u64, u64)>) -> Seq<(Seq<char>, u64)> {
    v.map_values(|p: (String, u64, u64)| (p.0@, p.1))
}

/// Every address that sent something, once, with the bytes that it sent
/// all told.
pub fn usage_by_address(found: &Vec<(String, u64, u64)>) -> (t: Vec<(String, u64)>)
    requires
        forall|i: int| 0 <= i < found@.len() ==> (#[trigger] found@[i]).1 > 0,
    ensures
        is_usage(flow_views(found@), t@),
{
    let ghost fl = flow_views(found@);
    let mut t: Vec<(String, u64)> = Vec::new();
    let mut k: usize = 0;
    proof {
        assert(fl.take(0) =~= Seq::<(Seq<char>, u64)>::empty());
        assert forall|ip: Seq<char>| sent_by(fl.take(0), ip) == 0 by {}
    }
    while k < found.len()
        invariant
            k <= found@.len(),
            fl == flow_views(found@),
            forall|i: int| 0 <= i < found@.len() ==> (#[trigger] found@[i]).1 > 0,
            is_usage(fl.take(k as int), t@),
        decreases found.len() - k,
    {
        let e = &found[k];
        let ghost prev = fl.take(k as int);
        let ghost next = fl.take(k + 1);
        let ghost before = t@;
        proof {
            assert(next.drop_last() =~= prev);
            assert(next.last() == (e.0@, e.1));
            assert forall|ip: Seq<char>| #[trigger]
                sent_by(next, ip) == sent_by(prev, ip) + if e.0@ == ip {
                    e.1 as nat
                } else {
                    0nat
                } by {}
        }
        let mut at: Option<usize> = None;
        let mut j: usize = 0;
        while j < t.len() && at.is_none()
            invariant
                j <= t@.len(),
                at is None ==> forall|m: int| 0 <= m < j ==> (#[trigger] t@[m]).0@ != e.0@,
                at matches Some(f) ==> f < t@.len() && t@[f as int].0@ == e.0@,
            decreases t.len() - j + if at is None { 1int } else { 0int },
        {
            if same_text(t[j].0.as_str(), e.0.as_str()) {
                at = Some(j);
            } else {
                j += 1;
            }
        }
        match at {
            Some(f) => {
                let name = t[f].0.clone();
                let total = if t[f].1 > u64::MAX - e.1 {
                    u64::MAX
                } else {
                    t[f].1 + e.1
                };
                t.set(f, (name, total));
                proof {
                    assert forall|i: int| 0 <= i < t@.len() implies (#[trigger] t@[i]).1 == capped(
                        sent_by(next, t@[i].0@),
                    ) && t@[i].1 > 0 by {
                        if i != f {
                            assert(t@[i] == before[i]);
                            if i < f {
                                assert(before[i].0@ != before[f as int].0@);
                            } else {
                                assert(before[f as int].0@ != before[i].0@);
                            }
                        }
                    }
                    assert forall|i: int, j: int| 0 <= i < j < t@.len() implies (
                    #[trigger] t@[i]).0@ != (#[trigger] t@[j]).0@ by {
                        assert(t@[i].0@ == before[i].0@);
                        assert(t@[j].0@ == before[j].0@);
                    }
                    assert forall|ip: Seq<char>| #[trigger] sent_by(next, ip) > 0 implies exists|
                        i: int,
                    |
                        0 <= i < t@.len() && (#[trigger] t@[i]).0@ == ip by {
                        if ip == e.0@ {
                            assert(t@[f as int].0@ == ip);
                        } else {
                            assert(sent_by(prev, ip) > 0);
                            let i = choose|i: int|
                                0 <= i < before.len() && (#[trigger] before[i]).0@ == ip;
                            assert(t@[i].0@ == ip);
                        }
                    }
                }
            },
            None => {
                t.push((e.0.clone(), e.1));
                proof {
                    assert(sent_by(prev, e.0@) == 0) by {
                        if sent_by(prev, e.0@) > 0 {
                            let i = choose|i: int|
                                0 <= i < before.len() && (#[trigger] before[i]).0@ == e.0@;
                        }
                    }
                    assert forall|i: int| 0 <= i < t@.len() implies (#[trigger] t@[i]).1 == capped(
                        sent_by(next, t@[i].0@),
                    ) && t@[i].1 > 0 by {
                        if i < before.len() {
                            assert(t@[i] == before[i]);
                        }
                    }
                    assert forall|i: int, j: int| 0 <= i < j < t@.len() implies (
                    #[trigger] t@[i]).0@ != (#[trigger] t@[j]).0@ by {
                        assert(t@[i] == before[i]);
                        if j < before.len() {
                            assert(t@[j] == before[j]);
                        }
                    }
                    assert forall|ip: Seq<char>| #[trigger] sent_by(next, ip) > 0 implies exists|
                        i: int,
                    |
                        0 <= i < t@.len() && (#[trigger] t@[i]).0@ == ip by {
                        if ip == e.0@ {
                            assert(t@[before.len() as int].0@ == ip);
                        } else {
                            assert(sent_by(prev, ip) > 0);
                            let i = choose|i: int|
                                0 <= i < before.len() && (#[trigger] before[i]).0@ == ip;
                            assert(t@[i].0@ == ip);
                        }
                    }
                }
            },
        }
        k += 1;
    }
    assert(fl.take(fl.len() as int) =~= fl);
    t
}

/// The pairs of address and hardware address that a vector holds.
pub open spec fn pair_views(v: Seq<(String, String)>) -> Seq<(Seq<char>, Seq<char>)> {
    v.map_values(|p: (String, String)| (p.0@, p.1@))
}

/// The neighbour table as its tool lists it: one pair of address and
/// hardware address for each line that names them.
pub fn get_arp_mapping(output: &str) -> (r: Vec<(String, String)>)
    ensures
        pair_views(r@) == arp_entries(lines(output@)),
{
    let chars = chars_of(output);
    let ls = split_lines(chars.as_slice());
    let ghost all = lines(output@);
    let mut out: Vec<(String, String)> = Vec::new();
    let mut i: usize = 0;
    proof {
        assert(all.take(0) =~= Seq::<Seq<char>>::empty());
        assert(pair_views(out@) =~= arp_entries(all.take(0)));
    }
    while i < ls.len()
        invariant
            i <= ls.len(),
            rows(ls@) == all,
            pair_views(out@) == arp_entries(all.take(i as int)),
        decreases ls.len() - i,
    {
        proof {
            assert(all.take(i + 1).drop_last() =~= all.take(i as int));
            assert(all.take(i + 1).last() == ls@[i as int]@);
        }
        let line = string_of(ls[i].as_slice());
        if let Some(p) = parse_arp_line(line.as_str()) {
            assert(pair_views(out@.push(p)) =~= pair_views(out@).push((p.0@, p.1@)));
            out.push(p);
        }
        i += 1;
    }
    assert(all.take(all.len() as int) =~= all);
    out
}

/// The hardware address that the neighbour table gives for `ip`: see
/// [`neighbour`].
pub fn lookup_neighbour(table: &Vec<(String, String)>, ip: &str) -> (r: Option<String>)
    ensures
        r.deep_view() == neighbour(pair_views(table@), ip@),
{
    let ghost tv = pair_views(table@);
    let mut i: usize = table.len();
    assert(tv.take(tv.len() as int) =~= tv);
    while i > 0
        invariant
            i <= table@.len(),
            tv == pair_views(table@),
            neighbour(tv, ip@) == neighbour(tv.take(i as int), ip@),
        decreases i,
    {
        proof {
            assert(tv.take(i as int).last() == (table@[i - 1].0@, table@[i - 1].1@));
            assert(tv.take(i as int).drop_last() =~= tv.take(i - 1));
        }
        if same_text(table[i - 1].0.as_str(), ip) {
            return Some(table[i - 1].1.clone());
        }
        i -= 1;
    }
    None
}

/// Whether `r` is the report for the flows `fl` and the neighbour table:
/// it names at most twenty devices, those that sent the most, the one that
/// sent the most first, and of two that sent the same the one whose
/// address comes first in dictionary order. Each is named with the bytes
/// that it sent, and with the hardware address that the neighbour table
/// gives for it; a device that the table does not know is called `unknown`
/// and named by its address.
pub open spec fn is_report(
    fl: Seq<(Seq<char>, u64)>,
    table: Seq<(Seq<char>, Seq<char>)>,
    r: Seq<BandwidthStat>,
) -> bool {
    &&& r.len() <= REPORT_LIMIT
    &&& forall|i: int|
        0 <= i < r.len() ==> {
            &&& (#[trigger] r[i]).bytes_sent == capped(sent_by(fl, r[i].ip@))
            &&& r[i].bytes_sent > 0
            &&& r[i].bytes_recv == 0
            &&& r[i].packets_sent == 0
            &&& r[i].packets_recv == 0
            &&& match neighbour(table, r[i].ip@) {
                Some(mac) => r[i].device_mac@ == mac && r[i].device_name@ == Seq::<char>::empty(),
                None => r[i].device_mac@ == "unknown"@ && r[i].device_name@ == r[i].ip@,
            }
        }
    &&& forall|i: int, j: int|
        0 <= i < j < r.len() ==> ranks_before(
            ((#[trigger] r[i]).ip@, r[i].bytes_sent as nat),
            ((#[trigger] r[j]).ip@, r[j].bytes_sent as nat),
        )
    &&& forall|ip: Seq<char>|
        #[trigger] sent_by(fl, ip) > 0 ==> (exists|i: int|
            0 <= i < r.len() && (#[trigger] r[i]).ip@ == ip) || (r.len() == REPORT_LIMIT
            && forall|i: int|
            0 <= i < r.len() ==> ranks_before(
                ((#[trigger] r[i]).ip@, r[i].bytes_sent as nat),
                (ip, capped(sent_by(fl, ip)) as nat),
            ))
}

/// The report on who uses the uplink most, from the kernel's connection
/// table and the neighbour table's listing, where there are any: see
/// [`is_report`].
pub fn get_bandwidth_stats(conntrack: Option<&str>, arp: Option<&str>) -> (r: Vec<BandwidthStat>)
    ensures
        is_report(
            match conntrack {
                Some(c) => flows(lines(c@)),
                None => Seq::empty(),
            },
            match arp {
                Some(a) => arp_entries(lines(a@)),
                None => Seq::empty(),
            },
            r@,
        ),
{
    let found = match conntrack {
        Some(c) => parse_nf_conntrack(c),
        None => Vec::new(),
    };
    let table = match arp {
        Some(a) => get_arp_mapping(a),
        None => Vec::new(),
    };
    let ghost fl: Seq<(Seq<char>, u64)> = match conntrack {
        Some(c) => flows(lines(c@)),
        None => Seq::empty(),
    };
    let ghost tb: Seq<(Seq<char>, Seq<char>)> = match arp {
        Some(a) => arp_entries(lines(a@)),
        None => Seq::empty(),
    };
    proof {
        assert(flow_views(found@) =~= fl);
        assert(pair_views(table@) =~= tb);
        assert forall|i: int| 0 <= i < found@.len() implies (#[trigger] found@[i]).1 > 0 by {
            assert(flow_views(found@)[i].1 == found@[i].1);
            lemma_flows_count(
                match conntrack {
                    Some(c) => lines(c@),
                    None => Seq::empty(),
                },
                i,
            );
        }
    }
    let usage = usage_by_address(&found);
    let ghost uu = usage@;
    let ghost all = weighted_all(usage@);
    proof {
        assert forall|i: int, j: int| 0 <= i < j < all.len() implies (#[trigger] all[i]).0 != (
        #[trigger] all[j]).0 by {
            assert(uu[i].0@ != uu[j].0@);
        }
    }
    let top = top_ranked(usage, REPORT_LIMIT);
    let ghost tv = weighted_all(top@);
    let mut out: Vec<BandwidthStat> = Vec::new();
    let mut i: usize = 0;
    while i < top.len()
        invariant
            i <= top@.len(),
            tv == weighted_all(top@),
            tb == pair_views(table@),
            out@.len() == i,
            forall|j: int|
                0 <= j < i ==> {
                    &&& ((#[trigger] out@[j]).ip@, out@[j].bytes_sent as nat) == tv[j]
                    &&& out@[j].bytes_recv == 0
                    &&& out@[j].packets_sent == 0
                    &&& out@[j].packets_recv == 0
                    &&& match neighbour(tb, out@[j].ip@) {
                        Some(mac) => out@[j].device_mac@ == mac && out@[j].device_name@
                            == Seq::<char>::empty(),
                        None => out@[j].device_mac@ == "unknown"@ && out@[j].device_name@
                            == out@[j].ip@,
                    }
                },
        decreases top.len() - i,
    {
        assert(tv[i as int] == weighted(top@[i as int]));
        let ip = top[i].0.clone();
        let (device_mac, device_name) = match lookup_neighbour(&table, ip.as_str()) {
            Some(mac) => (mac, String::new()),
            None => ("unknown".to_string(), ip.clone()),
        };
        out.push(
            BandwidthStat {
                device_mac,
                device_name,
                ip,
                packets_sent: 0,
                packets_recv: 0,
                bytes_sent: top[i].1,
                bytes_recv: 0,
            },
        );
        i += 1;
    }
    proof {
        assert forall|i: int| 0 <= i < out@.len() implies (#[trigger] out@[i]).bytes_sent
            == capped(sent_by(fl, out@[i].ip@)) && out@[i].bytes_sent > 0 by {
            assert(all.contains(tv[i]));
            let k = choose|k: int| 0 <= k < all.len() && all[k] == tv[i];
            assert(all[k] == weighted(uu[k]));
            assert(uu[k].1 == capped(sent_by(fl, uu[k].0@)));
        }
        assert forall|i: int, j: int| 0 <= i < j < out@.len() implies ranks_before(
            ((#[trigger] out@[i]).ip@, out@[i].bytes_sent as nat),
            ((#[trigger] out@[j]).ip@, out@[j].bytes_sent as nat),
        ) by {
            assert(ranks_before(tv[i], tv[j]));
        }
        assert forall|ip: Seq<char>| #[trigger] sent_by(fl, ip) > 0 implies (exists|i: int|
            0 <= i < out@.len() && (#[trigger] out@[i]).ip@ == ip) || (out@.len() == REPORT_LIMIT
            && forall|i: int|
            0 <= i < out@.len() ==> ranks_before(
                ((#[trigger] out@[i]).ip@, out@[i].bytes_sent as nat),
                (ip, capped(sent_by(fl, ip)) as nat),
            )) by {
            let k = choose|k: int| 0 <= k < uu.len() && (#[trigger] uu[k]).0@ == ip;
            assert(all[k] == weighted(uu[k]));
            assert(uu[k].1 == capped(sent_by(fl, uu[k].0@)));
            assert(all[k] == (ip, capped(sent_by(fl, ip)) as nat));
            if tv.contains(all[k]) {
                let i = choose|i: int| 0 <= i < tv.len() && tv[i] == all[k];
                assert(out@[i].ip@ == ip);
            } else {
                assert forall|i: int| 0 <= i < out@.len() implies ranks_before(
                    ((#[trigger] out@[i]).ip@, out@[i].bytes_sent as nat),
                    (ip, capped(sent_by(fl, ip)) as nat),
                ) by {
                    assert(ranks_before(tv[i], all[k]));
                }
            }
        }
    }
    out
}

/// Every flow counts some bytes.
pub proof fn lemma_flows_count(ls: Seq<Seq<char>>, i: int)
    requires
        0 <= i < flows(ls).len(),
    ensures
        flows(ls)[i].1 > 0,
    decreases ls.len(),
{
    if ls.len() > 0 {
        let init = flows(ls.drop_last());
        if i < init.len() {
            lemma_flows_count(ls.drop_last(), i);
        }
    }
}

} // verus!
