//! The log of connection attempts: the last hundred, oldest first.

use vstd::prelude::*;
use crate::clock::{now, Timestamp};
use crate::ranking::{ranks_before, top_ranked, weighted, weighted_all};
use crate::text::{copy_opt, same_text};

verus! {

/// One attempt to connect to a network.
#[derive(Debug)]
pub struct ConnectionEntry {
    pub ssid: String,
    pub timestamp: Timestamp,
    pub success: bool,
    /// How long the connection lasted, once that is known.
    pub duration_seconds: Option<u64>,
    /// Why the attempt failed or the connection ended.
    pub disconnection_reason: Option<String>,
}

/// What a [`ConnectionEntry`] holds.
pub struct EntryView {
    pub ssid: Seq<char>,
    pub timestamp: Timestamp,
    pub success: bool,
    pub duration_seconds: Option<u64>,
    pub disconnection_reason: Option<Seq<char>>,
}

impl View for ConnectionEntry {
    type V = EntryView;

    open spec fn view(&self) -> EntryView {
        EntryView {
            ssid: self.ssid@,
            timestamp: self.timestamp,
            success: self.success,
            duration_seconds: self.duration_seconds,
            disconnection_reason: self.disconnection_reason.deep_view(),
        }
    }
}

impl ConnectionEntry {
    /// A copy of the entry.
    pub fn duplicate(&self) -> (r: ConnectionEntry)
        ensures
            r == *self,
    {
        ConnectionEntry {
            ssid: self.ssid.clone(),
            timestamp: self.timestamp,
            success: self.success,
            duration_seconds: self.duration_seconds,
            disconnection_reason: copy_opt(&self.disconnection_reason),
        }
    }
}

/// The most entries that the log holds.
pub const MAX_ENTRIES: usize = 100;

/// The entries that a vector of entries holds.
pub open spec fn entry_views(v: Seq<ConnectionEntry>) -> Seq<EntryView> {
    v.map_values(|e: ConnectionEntry| e@)
}

/// The entry for a connection that was made at the time `at`.
pub open spec fn success_entry(ssid: Seq<char>, at: Timestamp) -> EntryView {
    EntryView {
        ssid,
        timestamp: at,
        success: true,
        duration_seconds: None,
        disconnection_reason: None,
    }
}

/// The entry for an attempt that failed at the time `at`.
pub open spec fn failure_entry(ssid: Seq<char>, reason: Seq<char>, at: Timestamp) -> EntryView {
    EntryView {
        ssid,
        timestamp: at,
        success: false,
        duration_seconds: None,
        disconnection_reason: Some(reason),
    }
}

/// The log after one more entry: the entry is put at the end, and where
/// that makes the log longer than the bound, the oldest entry leaves.
pub open spec fn appended(log: Seq<EntryView>, e: EntryView) -> Seq<EntryView> {
    if log.len() + 1 > MAX_ENTRIES {
        log.push(e).drop_first()
    } else {
        log.push(e)
    }
}

/// The log after the entries `es` were appended one after the other.
pub open spec fn appended_all(log: Seq<EntryView>, es: Seq<EntryView>) -> Seq<EntryView>
    decreases es.len(),
{
    if es.len() == 0 {
        log
    } else {
        appended(appended_all(log, es.drop_last()), es.last())
    }
}

/// The last `n` items of a sequence, or all of it where it has fewer.
pub open spec fn last_items(s: Seq<EntryView>, n: nat) -> Seq<EntryView> {
    if s.len() > n {
        s.skip(s.len() - n)
    } else {
        s
    }
}

/// However many entries are appended, the log never holds more than a
/// hundred, and it holds the last hundred of all the entries that it held
/// or was given, in the order in which they came.
pub proof fn lemma_log_keeps_latest(log: Seq<EntryView>, es: Seq<EntryView>)
    requires
        log.len() <= MAX_ENTRIES,
    ensures
        appended_all(log, es).len() <= MAX_ENTRIES,
        appended_all(log, es) == last_items(log + es, MAX_ENTRIES as nat),
    decreases es.len(),
{
    if es.len() == 0 {
        assert(log + es =~= log);
    } else {
        let init = es.drop_last();
        lemma_log_keeps_latest(log, init);
        let before = appended_all(log, init);
        assert(log + es =~= (log + init).push(es.last()));
        assert(appended(before, es.last()) =~= last_items(log + es, MAX_ENTRIES as nat));
    }
}

/// The index of the latest successful entry for `ssid`, where there is one.
pub open spec fn last_success(log: Seq<EntryView>, ssid: Seq<char>) -> Option<int>
    decreases log.len(),
{
    if log.len() == 0 {
        None
    } else if log.last().success && log.last().ssid == ssid {
        Some(log.len() - 1)
    } else {
        last_success(log.drop_last(), ssid)
    }
}

/// The log after the duration of the latest connection to `ssid` was
/// noted: the latest successful entry for `ssid` gets the duration, and
/// where there is no such entry the log stays as it is.
pub open spec fn with_duration(log: Seq<EntryView>, ssid: Seq<char>, duration: u64) -> Seq<
    EntryView,
> {
    match last_success(log, ssid) {
        Some(i) => log.update(i, EntryView { duration_seconds: Some(duration), ..log[i] }),
        None => log,
    }
}

/// The number of attempts for `ssid` in the log.
pub open spec fn attempts(log: Seq<EntryView>, ssid: Seq<char>) -> nat
    decreases log.len(),
{
    if log.len() == 0 {
        0
    } else {
        attempts(log.drop_last(), ssid) + if log.last().ssid == ssid {
            1nat
        } else {
            0nat
        }
    }
}

/// The number of successful attempts for `ssid` in the log.
pub open spec fn successes(log: Seq<EntryView>, ssid: Seq<char>) -> nat
    decreases log.len(),
{
    if log.len() == 0 {
        0
    } else {
        successes(log.drop_last(), ssid) + if log.last().success && log.last().ssid == ssid {
            1nat
        } else {
            0nat
        }
    }
}

pub proof fn lemma_counts_bounded(log: Seq<EntryView>, ssid: Seq<char>)
    ensures
        successes(log, ssid) <= attempts(log, ssid) <= log.len(),
    decreases log.len(),
{
    if log.len() > 0 {
        lemma_counts_bounded(log.drop_last(), ssid);
    }
}

/// How often attempts for a network succeeded.
#[derive(Clone, Copy, Debug, PartialEq, Eq, Structural)]
pub struct SuccessRate {
    pub successes: usize,
    pub attempts: usize,
}

impl SuccessRate {
    /// The share of attempts that succeeded, in whole percent, rounded down.
    pub open spec fn percent_spec(self) -> int {
        if self.attempts == 0 {
            0
        } else {
            self.successes * 100 / (self.attempts as int)
        }
    }

    /// The share of attempts that succeeded, in whole percent, rounded down:
    /// a number from 0 to 100.
    pub fn percent(&self) -> (p: u64)
        requires
            self.successes <= self.attempts,
        ensures
            p == self.percent_spec(),
            0 <= p <= 100,
    {
        if self.attempts == 0 {
            0
        } else {
            let s: u128 = self.successes as u128;
            let a: u128 = self.attempts as u128;
            assert((s * 100) / (a as int) <= 100) by (nonlinear_arith)
                requires
                    s <= a,
                    a > 0,
            ;
            assert(s * 100 <= 0xFFFF_FFFF_FFFF_FFFF * 100) by (nonlinear_arith)
                requires
                    s <= 0xFFFF_FFFF_FFFF_FFFF,
            ;
            (s * 100 / a) as u64
        }
    }
}

/// A network and the number of successful connections to it.
pub open spec fn fav(p: (String, usize)) -> (Seq<char>, nat) {
    (p.0@, p.1 as nat)
}

/// The networks and numbers that a vector of favorites holds.
pub open spec fn fav_views(v: Seq<(String, usize)>) -> Seq<(Seq<char>, nat)> {
    v.map_values(|p: (String, usize)| fav(p))
}

/// Whether `name` is the network of one of the favorites `r`.
pub open spec fn names(r: Seq<(Seq<char>, nat)>, name: Seq<char>) -> bool {
    exists|i: int| 0 <= i < r.len() && (#[trigger] r[i]).0 == name
}

/// Whether `r` is the list of the `limit` first favorites of the log: each
/// network in it has the number of its successful connections, which is
/// not zero; the list is in the order of ranking (more successful
/// connections first, and of two networks with equally many the one whose
/// name comes first in dictionary order), so that no network is in it
/// twice; and a network with a successful connection that is not in the
/// list ranks after all that are, the list being full.
pub open spec fn is_favorites(log: Seq<EntryView>, limit: nat, r: Seq<(Seq<char>, nat)>) -> bool {
    &&& r.len() <= limit
    &&& forall|i: int|
        0 <= i < r.len() ==> (#[trigger] r[i]).1 == successes(log, r[i].0) && r[i].1 > 0
    &&& forall|i: int, j: int| 0 <= i < j < r.len() ==> ranks_before(r[i], r[j])
    &&& forall|s: Seq<char>|
        #[trigger] successes(log, s) > 0 ==> names(r, s) || (r.len() == limit && forall|i: int|
            0 <= i < r.len() ==> ranks_before(#[trigger] r[i], (s, successes(log, s))))
}

/// Whether `t` holds every network with a successful connection once, with
/// the number of its successful connections.
pub open spec fn is_tally(log: Seq<EntryView>, t: Seq<(String, u64)>) -> bool {
    &&& forall|i: int|
        0 <= i < t.len() ==> (#[trigger] t[i]).1 == successes(log, t[i].0@) && t[i].1 > 0
    &&& forall|i: int, j: int| 0 <= i < j < t.len() ==> (#[trigger] t[i]).0@ != (#[trigger] t[j]).0@
    &&& forall|s: Seq<char>| #[trigger] successes(log, s) > 0 ==> names(weighted_all(t), s)
}

/// The log of connection attempts.
pub struct HistoryManager {
    entries: Vec<ConnectionEntry>,
}

impl HistoryManager {
    /// The entries of the log, oldest first.
    pub closed spec fn view(&self) -> Seq<EntryView> {
        entry_views(self.entries@)
    }

    /// The log holds at most a hundred entries.
    pub open spec fn wf(&self) -> bool {
        self@.len() <= MAX_ENTRIES
    }

    /// An empty log.
    pub fn new() -> (h: Self)
        ensures
            h.wf(),
            h@ == Seq::<EntryView>::empty(),
    {
        let h = HistoryManager { entries: Vec::new() };
        assert(h@ =~= Seq::<EntryView>::empty());
        h
    }

    fn append(&mut self, e: ConnectionEntry)
        requires
            old(self).wf(),
        ensures
            final(self).wf(),
            final(self)@ == appended(old(self)@, e@),
    {
        self.entries.push(e);
        assert(entry_views(self.entries@) =~= old(self)@.push(e@));
        if self.entries.len() > MAX_ENTRIES {
            self.entries.remove(0);
            assert(entry_views(self.entries@) =~= old(self)@.push(e@).drop_first());
        }
    }

    /// Notes a connection to `ssid` made at the time `at`.
    pub fn record_connection_at(&mut self, ssid: String, at: Timestamp)
        requires
            old(self).wf(),
        ensures
            final(self).wf(),
            final(self)@ == appended(old(self)@, success_entry(ssid@, at)),
    {
        self.append(
            ConnectionEntry {
                ssid,
                timestamp: at,
                success: true,
                duration_seconds: None,
                disconnection_reason: None,
            },
        );
    }

    /// Notes a connection to `ssid` made now.
    pub fn record_connection(&mut self, ssid: String)
        requires
            old(self).wf(),
        ensures
            final(self).wf(),
            exists|at: Timestamp| final(self)@ == appended(old(self)@, success_entry(ssid@, at)),
    {
        let at = now();
        self.record_connection_at(ssid, at);
    }

    /// Notes an attempt to connect to `ssid` that failed at the time `at`
    /// for the reason `reason`.
    pub fn record_failure_at(&mut self, ssid: String, reason: String, at: Timestamp)
        requires
            old(self).wf(),
        ensures
            final(self).wf(),
            final(self)@ == appended(old(self)@, failure_entry(ssid@, reason@, at)),
    {
        self.append(
            ConnectionEntry {
                ssid,
                timestamp: at,
                success: false,
                duration_seconds: None,
                disconnection_reason: Some(reason),
            },
        );
    }

    /// Notes an attempt to connect to `ssid` that failed now for the reason
    /// `reason`.
    pub fn record_failure(&mut self, ssid: String, reason: String)
        requires
            old(self).wf(),
        ensures
            final(self).wf(),
            exists|at: Timestamp|
                final(self)@ == appended(old(self)@, failure_entry(ssid@, reason@, at)),
    {
        let at = now();
        self.record_failure_at(ssid, reason, at);
    }

    /// Notes how long the latest connection to `ssid` lasted: see
    /// [`with_duration`].
    pub fn record_disconnection(&mut self, ssid: String, duration: u64)
        requires
            old(self).wf(),
        ensures
            final(self).wf(),
            final(self)@ == with_duration(old(self)@, ssid@, duration),
    {
        let ghost log = self@;
        let mut i: usize = self.entries.len();
        assert(log.take(log.len() as int) =~= log);
        while i > 0
            invariant
                i <= self.entries.len(),
                log == self@,
                self.wf(),
                *self == *old(self),
                last_success(log, ssid@) == last_success(log.take(i as int), ssid@),
            decreases i,
        {
            let found = self.entries[i - 1].success && same_text(
                self.entries[i - 1].ssid.as_str(),
                ssid.as_str(),
            );
            proof {
                assert(log.take(i as int).last() == self.entries@[i - 1]@);
                assert(log.take(i as int).drop_last() =~= log.take(i - 1));
            }
            if found {
                let old_entry = &self.entries[i - 1];
                let updated = ConnectionEntry {
                    ssid: old_entry.ssid.clone(),
                    timestamp: old_entry.timestamp,
                    success: old_entry.success,
                    duration_seconds: Some(duration),
                    disconnection_reason: copy_opt(&old_entry.disconnection_reason),
                };
                self.entries.set(i - 1, updated);
                assert(self@ =~= with_duration(log, ssid@, duration));
                return ;
            }
            i -= 1;
        }
    }

    /// All entries, newest first.
    pub fn get_all(&self) -> (r: Vec<ConnectionEntry>)
        ensures
            entry_views(r@) == self@.reverse(),
    {
        let mut out: Vec<ConnectionEntry> = Vec::new();
        let n = self.entries.len();
        let mut i: usize = n;
        while i > 0
            invariant
                i <= n,
                n == self.entries@.len(),
                out@.len() == n - i,
                forall|j: int| 0 <= j < out@.len() ==> out@[j]@ == self.entries@[n - 1 - j]@,
            decreases i,
        {
            out.push(self.entries[i - 1].duplicate());
            i -= 1;
        }
        assert(entry_views(out@) =~= self@.reverse());
        out
    }

    /// The entries for `ssid`, newest first.
    pub fn get_by_ssid(&self, ssid: &str) -> (r: Vec<ConnectionEntry>)
        ensures
            entry_views(r@) == self@.filter(|e: EntryView| e.ssid == ssid@).reverse(),
    {
        let ghost pred = |e: EntryView| e.ssid == ssid@;
        let ghost log = self@;
        let mut out: Vec<ConnectionEntry> = Vec::new();
        let n = self.entries.len();
        let mut i: usize = n;
        proof {
            assert(log.skip(n as int) =~= Seq::<EntryView>::empty());
            assert(log.skip(n as int).filter(pred) =~= Seq::<EntryView>::empty());
            assert(entry_views(out@) =~= log.skip(n as int).filter(pred).reverse());
        }
        while i > 0
            invariant
                i <= n,
                n == self.entries@.len(),
                log == self@,
                pred == (|e: EntryView| e.ssid == ssid@),
                entry_views(out@) == log.skip(i as int).filter(pred).reverse(),
            decreases i,
        {
            let e = &self.entries[i - 1];
            let keep = same_text(e.ssid.as_str(), ssid);
            proof {
                let tail = log.skip(i as int);
                let next = log.skip(i - 1);
                assert(next =~= seq![log[i - 1]] + tail);
                Seq::filter_distributes_over_add(seq![log[i - 1]], tail, pred);
                reveal_with_fuel(Seq::filter, 2);
                assert(seq![log[i - 1]].drop_last() =~= Seq::<EntryView>::empty());
                if keep {
                    assert(seq![log[i - 1]].filter(pred) =~= seq![log[i - 1]]);
                    assert(next.filter(pred).reverse() =~= tail.filter(pred).reverse().push(
                        log[i - 1],
                    ));
                } else {
                    assert(seq![log[i - 1]].filter(pred) =~= Seq::<EntryView>::empty());
                    assert(next.filter(pred) =~= tail.filter(pred));
                }
            }
            if keep {
                let d = e.duplicate();
                assert(entry_views(out@.push(d)) =~= entry_views(out@).push(d@));
                out.push(d);
            }
            i -= 1;
        }
        assert(log.skip(0) =~= log);
        out
    }

    /// Every network with a successful connection, once, with the number of
    /// its successful connections.
    pub fn tally(&self) -> (t: Vec<(String, u64)>)
        ensures
            is_tally(self@, t@),
    {
        let ghost log = self@;
        let mut t: Vec<(String, u64)> = Vec::new();
        let mut k: usize = 0;
        proof {
            assert(log.take(0) =~= Seq::<EntryView>::empty());
            assert forall|s: Seq<char>| successes(log.take(0), s) == 0 by {}
        }
        while k < self.entries.len()
            invariant
                k <= self.entries@.len(),
                log == self@,
                is_tally(log.take(k as int), t@),
            decreases self.entries.len() - k,
        {
            let e = &self.entries[k];
            let ghost prev = log.take(k as int);
            let ghost next = log.take(k + 1);
            let ghost before = t@;
            proof {
                assert(next.drop_last() =~= prev);
                assert(next.last() == e@);
                assert forall|s: Seq<char>| #[trigger]
                    successes(next, s) == successes(prev, s) + if e.success && e.ssid@ == s {
                        1nat
                    } else {
                        0nat
                    } by {}
            }
            if e.success {
                let mut found: Option<usize> = None;
                let mut j: usize = 0;
                while j < t.len() && found.is_none()
                    invariant
                        j <= t@.len(),
                        found is None ==> forall|m: int| 0 <= m < j ==> (#[trigger] t@[m]).0@ != e.ssid@,
                        found matches Some(f) ==> f < t@.len() && t@[f as int].0@ == e.ssid@,
                    decreases t.len() - j + if found is None { 1int } else { 0int },
                {
                    if same_text(t[j].0.as_str(), e.ssid.as_str()) {
                        found = Some(j);
                    } else {
                        j += 1;
                    }
                }
                match found {
                    Some(f) => {
                        proof {
                            lemma_counts_bounded(prev, e.ssid@);
                        }
                        let name = t[f].0.clone();
                        let count = t[f].1 + 1;
                        t.set(f, (name, count));
                        proof {
                            assert forall|i: int| 0 <= i < t@.len() implies (#[trigger] t@[i]).1
                                == successes(next, t@[i].0@) && t@[i].1 > 0 by {
                                if i != f {
                                    assert(t@[i] == before[i]);
                                    if i < f {
                                        assert(before[i].0@ != before[f as int].0@);
                                    } else {
                                        assert(before[f as int].0@ != before[i].0@);
                                    }
                                }
                            }
                            assert forall|i: int, j: int| 0 <= i < j < t@.len() implies (
                            #[trigger] t@[i]).0@ != (#[trigger] t@[j]).0@ by {
                                assert(t@[i].0@ == before[i].0@);
                                assert(t@[j].0@ == before[j].0@);
                            }
                            assert forall|s: Seq<char>| #[trigger]
                                successes(next, s) > 0 implies names(weighted_all(t@), s) by {
                                if s == e.ssid@ {
                                    assert(weighted_all(t@)[f as int].0 == s);
                                } else {
                                    assert(successes(prev, s) > 0);
                                    let i = choose|i: int|
                                        0 <= i < weighted_all(before).len() && (#[trigger] weighted_all(
                                            before,
                                        )[i]).0 == s;
                                    assert(weighted_all(t@)[i].0 == s);
                                }
                            }
                        }
                    },
                    None => {
                        t.push((e.ssid.clone(), 1));
                        proof {
                            assert(successes(prev, e.ssid@) == 0) by {
                                if successes(prev, e.ssid@) > 0 {
                                    let i = choose|i: int|
                                        0 <= i < weighted_all(before).len() && (#[trigger] weighted_all(
                                            before,
                                        )[i]).0 == e.ssid@;
                                    assert(before[i].0@ == e.ssid@);
                                }
                            }
                            assert forall|i: int| 0 <= i < t@.len() implies (#[trigger] t@[i]).1
                                == successes(next, t@[i].0@) && t@[i].1 > 0 by {
                                if i < before.len() {
                                    assert(t@[i] == before[i]);
                                }
                            }
                            assert forall|i: int, j: int| 0 <= i < j < t@.len() implies (
                            #[trigger] t@[i]).0@ != (#[trigger] t@[j]).0@ by {
                                assert(t@[i] == before[i]);
                                if j < before.len() {
                                    assert(t@[j] == before[j]);
                                }
                            }
                            assert forall|s: Seq<char>| #[trigger]
                                successes(next, s) > 0 implies names(weighted_all(t@), s) by {
                                if s == e.ssid@ {
                                    assert(weighted_all(t@)[before.len() as int].0 == s);
                                } else {
                                    assert(successes(prev, s) > 0);
                                    let i = choose|i: int|
                                        0 <= i < weighted_all(before).len() && (#[trigger] weighted_all(
                                            before,
                                        )[i]).0 == s;
                                    assert(weighted_all(t@)[i].0 == s);
                                }
                            }
                        }
                    },
                }
            } else {
                proof {
                    assert forall|s: Seq<char>| #[trigger]
                        successes(next, s) > 0 implies names(weighted_all(t@), s) by {
                        assert(successes(prev, s) > 0);
                    }
                }
            }
            k += 1;
        }
        assert(log.take(log.len() as int) =~= log);
        t
    }

    /// The `limit` networks with the most successful connections, with the
    /// number of those, the network with the most first. Of two networks
    /// with equally many the one whose name comes first in dictionary order
    /// is first: see [`is_favorites`].
    pub fn get_favorites(&self, limit: usize) -> (r: Vec<(String, usize)>)
        ensures
            is_favorites(self@, limit as nat, fav_views(r@)),
    {
        let ghost log = self@;
        let n = self.entries.len();
        let t = self.tally();
        let ghost tt = t@;
        let ghost all = weighted_all(t@);
        proof {
            assert forall|i: int, j: int| 0 <= i < j < all.len() implies (#[trigger] all[i]).0 != (
            #[trigger] all[j]).0 by {
                assert(tt[i].0@ != tt[j].0@);
            }
        }
        let top = top_ranked(t, limit);
        let ghost tv = weighted_all(top@);
        proof {
            assert forall|i: int| 0 <= i < tv.len() implies (#[trigger] tv[i]).1 == successes(
                log,
                tv[i].0,
            ) && tv[i].1 > 0 && tv[i].1 <= usize::MAX by {
                assert(all.contains(tv[i]));
                let k = choose|k: int| 0 <= k < all.len() && all[k] == tv[i];
                assert(all[k] == weighted(tt[k]));
                assert(tt[k].1 == successes(log, tt[k].0@));
                lemma_counts_bounded(log, tv[i].0);
                assert(log.len() == n);
            }
        }
        let mut out: Vec<(String, usize)> = Vec::new();
        let mut i: usize = 0;
        while i < top.len()
            invariant
                i <= top@.len(),
                tv == weighted_all(top@),
                forall|j: int| 0 <= j < tv.len() ==> (#[trigger] tv[j]).1 <= usize::MAX,
                out@.len() == i,
                forall|j: int| 0 <= j < i ==> fav(#[trigger] out@[j]) == tv[j],
            decreases top.len() - i,
        {
            assert(tv[i as int] == weighted(top@[i as int]));
            out.push((top[i].0.clone(), top[i].1 as usize));
            i += 1;
        }
        proof {
            let r = fav_views(out@);
            assert(r =~= tv);
            assert forall|s: Seq<char>| #[trigger] successes(log, s) > 0 implies names(r, s) || (
            r.len() == limit && forall|i: int|
                0 <= i < r.len() ==> ranks_before(#[trigger] r[i], (s, successes(log, s)))) by {
                let k = choose|k: int| 0 <= k < all.len() && (#[trigger] all[k]).0 == s;
                assert(all[k] == weighted(tt[k]));
                assert(tt[k].1 == successes(log, tt[k].0@));
                assert(all[k] == (s, successes(log, s)));
                if r.contains(all[k]) {
                    let i = choose|i: int| 0 <= i < r.len() && r[i] == all[k];
                    assert(r[i].0 == s);
                }
            }
        }
        out
    }

    /// Empties the log.
    pub fn clear(&mut self)
        ensures
            final(self).wf(),
            final(self)@ == Seq::<EntryView>::empty(),
    {
        self.entries.clear();
        assert(self@ =~= Seq::<EntryView>::empty());
    }

    /// How often attempts for `ssid` succeeded: the number of successful
    /// attempts and the number of all attempts in the log. There is no rate
    /// for a network that was never tried.
    pub fn get_success_rate(&self, ssid: &str) -> (r: Option<SuccessRate>)
        ensures
            match r {
                Some(rate) => {
                    &&& attempts(self@, ssid@) >= 1
                    &&& rate.attempts == attempts(self@, ssid@)
                    &&& rate.successes == successes(self@, ssid@)
                    &&& rate.successes <= rate.attempts
                    &&& 0 <= rate.percent_spec() <= 100
                },
                None => attempts(self@, ssid@) == 0,
            },
    {
        let ghost log = self@;
        let mut total: usize = 0;
        let mut good: usize = 0;
        let mut i: usize = 0;
        assert(log.take(0) =~= Seq::<EntryView>::empty());
        while i < self.entries.len()
            invariant
                i <= self.entries@.len(),
                log == self@,
                total == attempts(log.take(i as int), ssid@),
                good == successes(log.take(i as int), ssid@),
                good <= total <= i,
            decreases self.entries.len() - i,
        {
            let e = &self.entries[i];
            proof {
                assert(log.take(i + 1).drop_last() =~= log.take(i as int));
                assert(log.take(i + 1).last() == e@);
            }
            if same_text(e.ssid.as_str(), ssid) {
                total += 1;
                if e.success {
                    good += 1;
                }
            }
            i += 1;
        }
        assert(log.take(log.len() as int) =~= log);
        if total == 0 {
            None
        } else {
            let rate = SuccessRate { successes: good, attempts: total };
            assert(0 <= rate.percent_spec() <= 100) by (nonlinear_arith)
                requires
                    rate.successes <= rate.attempts,
                    rate.attempts > 0,
                    rate.percent_spec() == rate.successes * 100 / (rate.attempts as int),
            ;
            Some(rate)
        }
    }
}

} // verus!
