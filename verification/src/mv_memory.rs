//! The multi-version write log: per location, a map from transaction index
//! to the entry its latest incarnation wrote, kept sorted by index.

use vstd::prelude::*;
use crate::types::{
    MemoryEntry, MemoryLocation, MemoryValue, ReadSet, TxIdx, TxVersion,
};
use crate::uint::U256;

verus! {

/// The write log of one memory location.
#[derive(Clone, Debug)]
pub struct LocationLog {
    pub location: MemoryLocation,
    pub entries: Vec<(TxIdx, MemoryEntry)>,
}

/// Entries are strictly ascending in transaction index.
pub open spec fn entries_sorted(s: Seq<(TxIdx, MemoryEntry)>) -> bool {
    forall|i: int, j: int| 0 <= i < j < s.len() ==> (#[trigger] s[i]).0 < (#[trigger] s[j]).0
}

/// Number of entries authored by transactions below `idx`; in a sorted log,
/// the position where `idx` belongs.
pub open spec fn lower_bound(s: Seq<(TxIdx, MemoryEntry)>, idx: TxIdx) -> int
    decreases s.len(),
{
    if s.len() == 0 {
        0
    } else if s[0].0 < idx {
        1 + lower_bound(s.skip(1), idx)
    } else {
        0
    }
}

pub proof fn lemma_lower_bound_props(s: Seq<(TxIdx, MemoryEntry)>, idx: TxIdx)
    requires
        entries_sorted(s),
    ensures
        0 <= lower_bound(s, idx) <= s.len(),
        forall|k: int| 0 <= k < lower_bound(s, idx) ==> (#[trigger] s[k]).0 < idx,
        forall|k: int| lower_bound(s, idx) <= k < s.len() ==> (#[trigger] s[k]).0 >= idx,
    decreases s.len(),
{
    if s.len() > 0 {
        assert(forall|i: int, j: int|
            0 <= i < j < s.skip(1).len() ==> (#[trigger] s.skip(1)[i]).0 < (#[trigger] s.skip(
                1,
            )[j]).0);
        lemma_lower_bound_props(s.skip(1), idx);
        if s[0].0 < idx {
            assert forall|k: int| 0 <= k < lower_bound(s, idx) implies (#[trigger] s[k]).0
                < idx by {
                if k > 0 {
                    assert(s.skip(1)[k - 1] == s[k]);
                }
            }
            assert forall|k: int| lower_bound(s, idx) <= k < s.len() implies (#[trigger] s[k]).0
                >= idx by {
                assert(s.skip(1)[k - 1] == s[k]);
            }
        } else {
            assert forall|k: int| 0 <= k < s.len() implies (#[trigger] s[k]).0 >= idx by {
                if k > 0 {
                    assert(s[0].0 < s[k].0);
                }
            }
        }
    }
}

/// The lower bound is a position inside or at the end of the log.
pub proof fn lemma_lower_bound_nonneg(s: Seq<(TxIdx, MemoryEntry)>, idx: TxIdx)
    ensures
        0 <= lower_bound(s, idx) <= s.len(),
    decreases s.len(),
{
    if s.len() > 0 && s[0].0 < idx {
        lemma_lower_bound_nonneg(s.skip(1), idx);
    }
}

/// One more taken element extends what the prefix holds by exactly it.
proof fn lemma_take_push_contains(s: Seq<MemoryLocation>, i: int, l: MemoryLocation)
    requires
        0 <= i < s.len(),
    ensures
        s.take(i + 1).contains(l) <==> (s.take(i).contains(l) || s[i] == l),
{
    assert(s.take(i).push(s[i]) =~= s.take(i + 1));
    if s.take(i).contains(l) {
        let j = choose|j: int| 0 <= j < s.take(i).len() && s.take(i)[j] == l;
        assert(s.take(i + 1)[j] == l);
    }
    if s[i] == l {
        assert(s.take(i + 1)[i] == l);
    }
    if s.take(i + 1).contains(l) {
        let j = choose|j: int| 0 <= j < s.take(i + 1).len() && #[trigger] s.take(i + 1)[j] == l;
        if j < i {
            assert(s.take(i)[j] == l);
        } else {
            assert(s[i] == l);
        }
    }
}

/// The log after transaction `idx` (re)writes entry `e`.
pub open spec fn upsert_spec(s: Seq<(TxIdx, MemoryEntry)>, idx: TxIdx, e: MemoryEntry) -> Seq<
    (TxIdx, MemoryEntry),
> {
    let p = lower_bound(s, idx);
    if p < s.len() && s[p].0 == idx {
        s.update(p, (idx, e))
    } else {
        s.insert(p, (idx, e))
    }
}

/// The log after transaction `idx`'s entry is dropped.
pub open spec fn remove_spec(s: Seq<(TxIdx, MemoryEntry)>, idx: TxIdx) -> Seq<
    (TxIdx, MemoryEntry),
> {
    let p = lower_bound(s, idx);
    if p < s.len() && s[p].0 == idx {
        s.remove(p)
    } else {
        s
    }
}

/// Finds where `idx` belongs in a sorted log.
pub fn find_lower_bound(entries: &Vec<(TxIdx, MemoryEntry)>, idx: TxIdx) -> (r: usize)
    requires
        entries_sorted(entries@),
    ensures
        r == lower_bound(entries@, idx),
{
    let n = entries.len();
    let mut i: usize = 0;
    proof {
        assert(entries@.skip(0) =~= entries@);
    }
    while i < n && entries[i].0 < idx
        invariant
            i <= n == entries@.len(),
            lower_bound(entries@, idx) == i + lower_bound(entries@.skip(i as int), idx),
        decreases n - i,
    {
        proof {
            assert(entries@.skip(i as int)[0] == entries@[i as int]);
            assert(entries@.skip(i as int).skip(1) =~= entries@.skip(i + 1));
        }
        i = i + 1;
    }
    proof {
        if i < n {
            assert(entries@.skip(i as int)[0] == entries@[i as int]);
        }
    }
    i
}

/// Writes `(idx, e)` into a sorted log, replacing the entry of `idx` if one
/// is there.
pub fn upsert_sorted(entries: &mut Vec<(TxIdx, MemoryEntry)>, idx: TxIdx, e: MemoryEntry)
    requires
        entries_sorted(old(entries)@),
    ensures
        final(entries)@ == upsert_spec(old(entries)@, idx, e),
        entries_sorted(final(entries)@),
{
    proof {
        lemma_lower_bound_props(old(entries)@, idx);
    }
    let p = find_lower_bound(entries, idx);
    let n = entries.len();
    if p < n && entries[p].0 == idx {
        entries.set(p, (idx, e));
    } else {
        entries.insert(p, (idx, e));
        proof {
            let s = old(entries)@;
            let t = final(entries)@;
            assert forall|i: int, j: int| 0 <= i < j < t.len() implies (#[trigger] t[i]).0 < (
            #[trigger] t[j]).0 by {
                let pp = lower_bound(s, idx);
                if i < pp {
                    assert(t[i] == s[i]);
                } else if i == pp {
                    assert(t[i].0 == idx);
                } else {
                    assert(t[i] == s[i - 1]);
                }
                if j < pp {
                    assert(t[j] == s[j]);
                } else if j == pp {
                    assert(t[j].0 == idx);
                } else {
                    assert(t[j] == s[j - 1]);
                }
            }
        }
    }
}

/// The log after transaction `idx`'s entry, if present, turns into a
/// tombstone.
pub open spec fn estimate_spec(s: Seq<(TxIdx, MemoryEntry)>, idx: TxIdx) -> Seq<
    (TxIdx, MemoryEntry),
> {
    let p = lower_bound(s, idx);
    if p < s.len() && s[p].0 == idx {
        s.update(p, (idx, MemoryEntry::Estimate))
    } else {
        s
    }
}

/// Turns the entry of `idx`, if present, into a tombstone.
pub fn estimate_sorted(entries: &mut Vec<(TxIdx, MemoryEntry)>, idx: TxIdx)
    requires
        entries_sorted(old(entries)@),
    ensures
        final(entries)@ == estimate_spec(old(entries)@, idx),
        entries_sorted(final(entries)@),
{
    proof {
        lemma_lower_bound_props(old(entries)@, idx);
    }
    let p = find_lower_bound(entries, idx);
    let n = entries.len();
    if p < n && entries[p].0 == idx {
        entries.set(p, (idx, MemoryEntry::Estimate));
    }
}

/// Drops the entry of `idx` from a sorted log, if one is there.
pub fn remove_sorted(entries: &mut Vec<(TxIdx, MemoryEntry)>, idx: TxIdx)
    requires
        entries_sorted(old(entries)@),
    ensures
        final(entries)@ == remove_spec(old(entries)@, idx),
        entries_sorted(final(entries)@),
{
    proof {
        lemma_lower_bound_props(old(entries)@, idx);
    }
    let p = find_lower_bound(entries, idx);
    let n = entries.len();
    if p < n && entries[p].0 == idx {
        entries.remove(p);
    }
}

/// First match: the entries of the log kept for `loc`.
pub open spec fn assoc_log(s: Seq<LocationLog>, loc: MemoryLocation) -> Option<
    Seq<(TxIdx, MemoryEntry)>,
>
    decreases s.len(),
{
    if s.len() == 0 {
        None
    } else if s[0].location == loc {
        Some(s[0].entries@)
    } else {
        assoc_log(s.skip(1), loc)
    }
}

/// Locations are unique and every log is sorted.
pub open spec fn logs_wf(s: Seq<LocationLog>) -> bool {
    (forall|i: int, j: int|
        0 <= i < j < s.len() ==> (#[trigger] s[i]).location != (#[trigger] s[j]).location)
        && (forall|i: int| 0 <= i < s.len() ==> entries_sorted((#[trigger] s[i]).entries@))
}

/// An absent location occurs nowhere in the list.
proof fn lemma_assoc_log_none(s: Seq<LocationLog>, loc: MemoryLocation)
    requires
        assoc_log(s, loc) is None,
    ensures
        forall|j: int| 0 <= j < s.len() ==> (#[trigger] s[j]).location != loc,
    decreases s.len(),
{
    if s.len() > 0 {
        lemma_assoc_log_none(s.skip(1), loc);
        assert forall|j: int| 0 <= j < s.len() implies (#[trigger] s[j]).location != loc by {
            if j > 0 {
                assert(s.skip(1)[j - 1] == s[j]);
            }
        }
    }
}

/// A present location is found at some unique index.
proof fn lemma_assoc_log_index(s: Seq<LocationLog>, loc: MemoryLocation, i: int)
    requires
        0 <= i < s.len(),
        s[i].location == loc,
        forall|a: int, b: int|
            0 <= a < b < s.len() ==> (#[trigger] s[a]).location != (#[trigger] s[b]).location,
    ensures
        assoc_log(s, loc) == Some(s[i].entries@),
    decreases s.len(),
{
    if i > 0 {
        assert(s[0].location != loc);
        assert(s.skip(1)[i - 1] == s[i]);
        lemma_assoc_log_index(s.skip(1), loc, i - 1);
    }
}

/// Rewriting the entries at index `i` (which holds `loc`) changes only
/// `loc`'s log.
proof fn lemma_assoc_log_update(s: Seq<LocationLog>, t: Seq<LocationLog>, i: int, loc: MemoryLocation)
    requires
        0 <= i < s.len(),
        t.len() == s.len(),
        s[i].location == loc,
        t[i].location == loc,
        forall|j: int| 0 <= j < s.len() && j != i ==> t[j] == s[j],
        forall|a: int, b: int|
            0 <= a < b < s.len() ==> (#[trigger] s[a]).location != (#[trigger] s[b]).location,
    ensures
        assoc_log(t, loc) == Some(t[i].entries@),
        forall|l2: MemoryLocation| l2 != loc ==> #[trigger] assoc_log(t, l2) == assoc_log(s, l2),
    decreases s.len(),
{
    if i == 0 {
        assert forall|l2: MemoryLocation| l2 != loc implies #[trigger] assoc_log(t, l2)
            == assoc_log(s, l2) by {
            assert(t.skip(1) =~= s.skip(1));
        }
    } else {
        lemma_assoc_log_update(s.skip(1), t.skip(1), i - 1, loc);
        assert(t[0] == s[0]);
        assert(s[0].location != loc);
        assert(t.skip(1)[i - 1].entries@ == t[i].entries@);
        assert forall|l2: MemoryLocation| l2 != loc implies #[trigger] assoc_log(t, l2)
            == assoc_log(s, l2) by {
            if s[0].location != l2 {
                assert(assoc_log(t.skip(1), l2) == assoc_log(s.skip(1), l2));
            }
        }
    }
}

/// Appending a log for an absent location adds it and keeps the rest.
proof fn lemma_assoc_log_push(s: Seq<LocationLog>, nl: LocationLog)
    requires
        assoc_log(s, nl.location) is None,
    ensures
        assoc_log(s.push(nl), nl.location) == Some(nl.entries@),
        forall|l2: MemoryLocation|
            l2 != nl.location ==> #[trigger] assoc_log(s.push(nl), l2) == assoc_log(s, l2),
    decreases s.len(),
{
    let t = s.push(nl);
    if s.len() == 0 {
        assert(t[0] == nl);
        assert forall|l2: MemoryLocation| l2 != nl.location implies #[trigger] assoc_log(t, l2)
            == assoc_log(s, l2) by {
            assert(t.skip(1) =~= Seq::<LocationLog>::empty());
            assert(assoc_log(t.skip(1), l2) is None);
        }
    } else {
        assert(s[0].location != nl.location);
        lemma_assoc_log_push(s.skip(1), nl);
        assert(t.skip(1) =~= s.skip(1).push(nl));
        assert(t[0] == s[0]);
        assert(assoc_log(t.skip(1), nl.location) == Some(nl.entries@));
        assert forall|l2: MemoryLocation| l2 != nl.location implies #[trigger] assoc_log(t, l2)
            == assoc_log(s, l2) by {
            if s[0].location != l2 {
                assert(assoc_log(t.skip(1), l2) == assoc_log(s.skip(1), l2));
            }
        }
    }
}

/// The entries kept for `loc`; an untouched location has an empty log.
pub open spec fn log_entries_of(s: Seq<LocationLog>, loc: MemoryLocation) -> Seq<
    (TxIdx, MemoryEntry),
> {
    match assoc_log(s, loc) {
        Some(e) => e,
        None => Seq::empty(),
    }
}

/// Finds the index of `loc`'s log.
fn find_log_index(data: &Vec<LocationLog>, loc: &MemoryLocation) -> (r: Option<usize>)
    ensures
        match r {
            Some(i) => 0 <= i < data@.len() && data@[i as int].location == *loc && assoc_log(
                data@,
                *loc,
            ) == Some(data@[i as int].entries@),
            None => assoc_log(data@, *loc) is None,
        },
{
    let n = data.len();
    let mut i: usize = 0;
    proof {
        assert(data@.skip(0) =~= data@);
    }
    while i < n
        invariant
            i <= n == data@.len(),
            assoc_log(data@, *loc) == assoc_log(data@.skip(i as int), *loc),
            forall|j: int| 0 <= j < i ==> (#[trigger] data@[j]).location != *loc,
        decreases n - i,
    {
        proof {
            assert(data@.skip(i as int)[0] == data@[i as int]);
            assert(data@.skip(i as int).skip(1) =~= data@.skip(i + 1));
        }
        if data[i].location == *loc {
            return Some(i);
        }
        i = i + 1;
    }
    None
}

/// Applies `upsert_spec` to `loc`'s log, creating the log if needed.
fn upsert_location(data: &mut Vec<LocationLog>, loc: MemoryLocation, idx: TxIdx, e: MemoryEntry)
    requires
        logs_wf(old(data)@),
    ensures
        logs_wf(final(data)@),
        log_entries_of(final(data)@, loc) == upsert_spec(log_entries_of(old(data)@, loc), idx, e),
        forall|l2: MemoryLocation|
            l2 != loc ==> #[trigger] assoc_log(final(data)@, l2) == assoc_log(old(data)@, l2),
        final(data)@.len() >= old(data)@.len(),
{
    let found = find_log_index(data, &loc);
    match found {
        Some(i) => {
            let log = &mut data[i];
            upsert_sorted(&mut log.entries, idx, e);
            proof {
                lemma_assoc_log_update(old(data)@, final(data)@, i as int, loc);
            }
        },
        None => {
            proof {
                lemma_assoc_log_none(old(data)@, loc);
            }
            let mut entries: Vec<(TxIdx, MemoryEntry)> = Vec::new();
            upsert_sorted(&mut entries, idx, e);
            proof {
                assert(entries@ =~= upsert_spec(Seq::empty(), idx, e));
                assert(log_entries_of(old(data)@, loc) =~= Seq::<(TxIdx, MemoryEntry)>::empty());
            }
            let nl = LocationLog { location: loc, entries };
            proof {
                lemma_assoc_log_push(old(data)@, nl);
            }
            data.push(nl);
        },
    }
}

/// Applies `remove_spec` to `loc`'s log, if the log exists.
fn remove_location_entry(data: &mut Vec<LocationLog>, loc: MemoryLocation, idx: TxIdx)
    requires
        logs_wf(old(data)@),
    ensures
        logs_wf(final(data)@),
        log_entries_of(final(data)@, loc) == remove_spec(log_entries_of(old(data)@, loc), idx),
        forall|l2: MemoryLocation|
            l2 != loc ==> #[trigger] assoc_log(final(data)@, l2) == assoc_log(old(data)@, l2),
{
    let found = find_log_index(data, &loc);
    match found {
        Some(i) => {
            let log = &mut data[i];
            remove_sorted(&mut log.entries, idx);
            proof {
                lemma_assoc_log_update(old(data)@, final(data)@, i as int, loc);
            }
        },
        None => {
            proof {
                assert(log_entries_of(old(data)@, loc) =~= Seq::<(TxIdx, MemoryEntry)>::empty());
            }
        },
    }
}

/// Applies `estimate_spec` to `loc`'s log, if the log exists.
fn estimate_location(data: &mut Vec<LocationLog>, loc: MemoryLocation, idx: TxIdx)
    requires
        logs_wf(old(data)@),
    ensures
        logs_wf(final(data)@),
        log_entries_of(final(data)@, loc) == estimate_spec(log_entries_of(old(data)@, loc), idx),
        forall|l2: MemoryLocation|
            l2 != loc ==> #[trigger] assoc_log(final(data)@, l2) == assoc_log(old(data)@, l2),
{
    let found = find_log_index(data, &loc);
    match found {
        Some(i) => {
            let log = &mut data[i];
            estimate_sorted(&mut log.entries, idx);
            proof {
                lemma_assoc_log_update(old(data)@, final(data)@, i as int, loc);
            }
        },
        None => {
            proof {
                assert(log_entries_of(old(data)@, loc) =~= Seq::<(TxIdx, MemoryEntry)>::empty());
            }
        },
    }
}

/// A write set: the locations one incarnation wrote, with their values.
pub type WriteSet = Vec<(MemoryLocation, MemoryValue)>;

/// Pairwise-distinct locations in a write set.
pub open spec fn write_locs_unique(s: Seq<(MemoryLocation, MemoryValue)>) -> bool {
    forall|i: int, j: int| 0 <= i < j < s.len() ==> (#[trigger] s[i]).0 != (#[trigger] s[j]).0
}

/// Whether `loc` is written by the set.
pub open spec fn writes_loc(s: Seq<(MemoryLocation, MemoryValue)>, loc: MemoryLocation) -> bool {
    exists|i: int| 0 <= i < s.len() && (#[trigger] s[i]).0 == loc
}

/// First code match in the bytecode registry.
pub open spec fn assoc_bytecode(s: Seq<(U256, Vec<u8>)>, h: U256) -> Option<Seq<u8>>
    decreases s.len(),
{
    if s.len() == 0 {
        None
    } else if s[0].0 == h {
        Some(s[0].1@)
    } else {
        assoc_bytecode(s.skip(1), h)
    }
}

/// The in-memory multi-version write log of one block execution.
#[derive(Debug)]
pub struct MvMemory {
    /// Per-location logs.
    pub data: Vec<LocationLog>,
    /// Per transaction, the locations its latest recorded incarnation wrote.
    pub last_written: Vec<Vec<MemoryLocation>>,
    /// Per transaction, the read set its latest recorded incarnation saw.
    pub read_sets: Vec<ReadSet>,
    /// Locations that currently host pending lazy deltas.
    pub lazy_locations: Vec<MemoryLocation>,
    /// Bytecodes deployed inside this block, by code hash; first write wins.
    pub new_bytecodes: Vec<(U256, Vec<u8>)>,
}

impl MvMemory {
    /// Locations unique, logs sorted, one slot per transaction.
    pub open spec fn wf(self) -> bool {
        logs_wf(self.data@) && self.read_sets@.len() == self.last_written@.len()
    }

    /// Number of transactions in the block.
    pub open spec fn block_size(self) -> nat {
        self.last_written@.len()
    }

    /// The write log kept for `loc`; empty if never written.
    pub open spec fn log_of(self, loc: MemoryLocation) -> Seq<(TxIdx, MemoryEntry)> {
        log_entries_of(self.data@, loc)
    }

    /// An empty log for a block of `block_size` transactions, seeded with
    /// tombstones at the estimated hot locations, so that early readers of
    /// those locations block on their writers instead of racing them.
    pub fn new(
        block_size: usize,
        estimated_locations: Vec<(MemoryLocation, Vec<TxIdx>)>,
        lazy_locations: Vec<MemoryLocation>,
    ) -> (r: MvMemory)
        requires
            forall|i: int, j: int|
                0 <= i < j < estimated_locations@.len() ==> (#[trigger] estimated_locations@[i]).0
                    != (#[trigger] estimated_locations@[j]).0,
            forall|i: int, a: int, b: int|
                0 <= i < estimated_locations@.len() && 0 <= a < b
                    < estimated_locations@[i].1@.len() ==> #[trigger] estimated_locations@[i].1@[a]
                    < #[trigger] estimated_locations@[i].1@[b],
        ensures
            r.wf(),
            r.block_size() == block_size,
            forall|i: int|
                0 <= i < estimated_locations@.len() ==> r.log_of(
                    (#[trigger] estimated_locations@[i]).0,
                ) == estimated_locations@[i].1@.map_values(
                    |idx: TxIdx| (idx, MemoryEntry::Estimate),
                ),
            forall|l2: MemoryLocation|
                (forall|i: int|
                    0 <= i < estimated_locations@.len() ==> (
                    #[trigger] estimated_locations@[i]).0 != l2) ==> #[trigger] r.log_of(l2)
                    == Seq::<(TxIdx, MemoryEntry)>::empty(),
            r.lazy_locations@ == lazy_locations@,
            r.new_bytecodes@.len() == 0,
            forall|i: int| 0 <= i < block_size ==> (#[trigger] r.last_written@[i])@.len() == 0,
    {
        let mut data: Vec<LocationLog> = Vec::new();
        let n = estimated_locations.len();
        let mut i: usize = 0;
        while i < n
            invariant
                i <= n == estimated_locations@.len(),
                data@.len() == i,
                forall|k: int|
                    0 <= k < i ==> (#[trigger] data@[k]).location == estimated_locations@[k].0
                        && data@[k].entries@ == estimated_locations@[k].1@.map_values(
                        |idx: TxIdx| (idx, MemoryEntry::Estimate),
                    ),
                forall|a: int, b: int|
                    0 <= a < b < estimated_locations@.len() ==> (
                    #[trigger] estimated_locations@[a]).0 != (
                    #[trigger] estimated_locations@[b]).0,
                forall|c: int, a: int, b: int|
                    0 <= c < estimated_locations@.len() && 0 <= a < b
                        < estimated_locations@[c].1@.len() ==> #[trigger] estimated_locations@[c].1@[a]
                        < #[trigger] estimated_locations@[c].1@[b],
            decreases n - i,
        {
            let src = &estimated_locations[i].1;
            let m = src.len();
            let mut entries: Vec<(TxIdx, MemoryEntry)> = Vec::new();
            let mut k: usize = 0;
            while k < m
                invariant
                    k <= m == src@.len(),
                    entries@.len() == k,
                    forall|t: int|
                        0 <= t < k ==> #[trigger] entries@[t] == (
                        src@[t],
                        MemoryEntry::Estimate,
                    ),
                decreases m - k,
            {
                entries.push((src[k], MemoryEntry::Estimate));
                k = k + 1;
            }
            proof {
                assert(entries@ =~= src@.map_values(|idx: TxIdx| (idx, MemoryEntry::Estimate)));
            }
            data.push(LocationLog { location: estimated_locations[i].0, entries });
            i = i + 1;
        }
        let mut last_written: Vec<Vec<MemoryLocation>> = Vec::new();
        let mut read_sets: Vec<ReadSet> = Vec::new();
        let mut t: usize = 0;
        while t < block_size
            invariant
                t <= block_size,
                last_written@.len() == t,
                read_sets@.len() == t,
                forall|j: int| 0 <= j < t ==> (#[trigger] last_written@[j])@.len() == 0,
            decreases block_size - t,
        {
            last_written.push(Vec::new());
            read_sets.push(ReadSet::new());
            t = t + 1;
        }
        let r = MvMemory { data, last_written, read_sets, lazy_locations, new_bytecodes: Vec::new() };
        proof {
            assert forall|i2: int| 0 <= i2 < estimated_locations@.len() implies r.log_of(
                (#[trigger] estimated_locations@[i2]).0,
            ) == estimated_locations@[i2].1@.map_values(
                |idx: TxIdx| (idx, MemoryEntry::Estimate),
            ) by {
                lemma_assoc_log_index(r.data@, estimated_locations@[i2].0, i2);
            }
            assert forall|l2: MemoryLocation|
                (forall|i2: int|
                    0 <= i2 < estimated_locations@.len() ==> (
                    #[trigger] estimated_locations@[i2]).0 != l2) implies #[trigger] r.log_of(l2)
                =~= Seq::<(TxIdx, MemoryEntry)>::empty() by {
                if assoc_log(r.data@, l2) is Some {
                    lemma_assoc_log_some(r.data@, l2);
                }
            }
            assert forall|i2: int| 0 <= i2 < r.data@.len() implies entries_sorted(
                (#[trigger] r.data@[i2]).entries@,
            ) by {
                let es = estimated_locations@[i2].1@;
                assert(r.data@[i2].entries@ == es.map_values(
                    |idx: TxIdx| (idx, MemoryEntry::Estimate),
                ));
            }
        }
        r
    }

    /// Whether any incarnation has written (or been estimated at) `loc`.
    pub fn contains_location(&self, loc: &MemoryLocation) -> (r: bool)
        ensures
            r == (assoc_log(self.data@, *loc) is Some),
    {
        match find_log_index(&self.data, loc) {
            Some(_) => true,
            None => false,
        }
    }

    /// The entries of `loc`'s log, for readers to walk.
    pub fn log_entries(&self, loc: &MemoryLocation) -> (r: Option<&Vec<(TxIdx, MemoryEntry)>>)
        ensures
            match r {
                Some(v) => assoc_log(self.data@, *loc) == Some(v@) && self.log_of(*loc) == v@,
                None => assoc_log(self.data@, *loc) is None && self.log_of(*loc) == Seq::<
                    (TxIdx, MemoryEntry),
                >::empty(),
            },
    {
        let found = find_log_index(&self.data, loc);
        match found {
            Some(i) => Some(&self.data[i].entries),
            None => {
                proof {
                    assert(self.log_of(*loc) =~= Seq::<(TxIdx, MemoryEntry)>::empty());
                }
                None
            },
        }
    }
}

/// Whether a location list holds `loc`.
fn contains_loc(v: &Vec<MemoryLocation>, loc: &MemoryLocation) -> (r: bool)
    ensures
        r == v@.contains(*loc),
{
    let n = v.len();
    let mut i: usize = 0;
    while i < n
        invariant
            i <= n == v@.len(),
            forall|j: int| 0 <= j < i ==> v@[j] != *loc,
        decreases n - i,
    {
        if v[i] == *loc {
            return true;
        }
        i = i + 1;
    }
    false
}

/// Whether a write set writes `loc`.
fn write_set_contains(ws: &WriteSet, loc: &MemoryLocation) -> (r: bool)
    ensures
        r == writes_loc(ws@, *loc),
{
    let n = ws.len();
    let mut i: usize = 0;
    while i < n
        invariant
            i <= n == ws@.len(),
            forall|j: int| 0 <= j < i ==> (#[trigger] ws@[j]).0 != *loc,
        decreases n - i,
    {
        if ws[i].0 == *loc {
            return true;
        }
        i = i + 1;
    }
    false
}

impl MvMemory {
    /// Commits one finished incarnation, in one logical step: the entries of
    /// every location it writes are (re)written as fresh data; the entries at
    /// locations its previous incarnation wrote but this one no longer does
    /// are dropped; the read set is stored for later validation. Returns
    /// whether some location was written that the transaction had never
    /// written before.
    pub fn record(
        &mut self,
        tx_version: &TxVersion,
        read_set: ReadSet,
        write_set: WriteSet,
    ) -> (wrote_new_location: bool)
        requires
            old(self).wf(),
            tx_version.tx_idx < old(self).block_size(),
            write_locs_unique(write_set@),
        ensures
            final(self).wf(),
            final(self).block_size() == old(self).block_size(),
            // every written location gains this incarnation's entry
            forall|k: int|
                0 <= k < write_set@.len() ==> final(self).log_of((#[trigger] write_set@[k]).0)
                    == upsert_spec(
                    old(self).log_of(write_set@[k].0),
                    tx_version.tx_idx,
                    MemoryEntry::Data(tx_version.tx_incarnation, write_set@[k].1),
                ),
            // stale locations of the previous incarnation lose its entry
            forall|l: MemoryLocation|
                (#[trigger] old(self).last_written@[tx_version.tx_idx as int]@.contains(l))
                    && !writes_loc(write_set@, l) ==> final(self).log_of(l) == remove_spec(
                    old(self).log_of(l),
                    tx_version.tx_idx,
                ),
            // all other locations keep their logs
            forall|l: MemoryLocation|
                !(#[trigger] old(self).last_written@[tx_version.tx_idx as int]@.contains(l))
                    && !writes_loc(write_set@, l) ==> final(self).log_of(l) == old(self).log_of(l),
            // the bookkeeping rows of this transaction are replaced
            final(self).last_written@[tx_version.tx_idx as int]@.len() == write_set@.len(),
            forall|k: int|
                0 <= k < write_set@.len()
                    ==> final(self).last_written@[tx_version.tx_idx as int]@[k] == (
                #[trigger] write_set@[k]).0,
            forall|t: int|
                0 <= t < old(self).block_size() && t != tx_version.tx_idx ==> final(self).last_written@[t] == old(self).last_written@[t] && final(self).read_sets@[t]
                    == old(self).read_sets@[t],
            final(self).read_sets@[tx_version.tx_idx as int] == read_set,
            final(self).lazy_locations@ == old(self).lazy_locations@,
            final(self).new_bytecodes@ == old(self).new_bytecodes@,
            wrote_new_location == exists|k: int|
                0 <= k < write_set@.len() && !old(self).last_written@[tx_version.tx_idx as int]@.contains(
                    (#[trigger] write_set@[k]).0,
                ),
    {
        let tx_idx = tx_version.tx_idx;
        let n = write_set.len();

        // Does this incarnation write a location the transaction never wrote?
        let mut wrote_new_location = false;
        let mut k: usize = 0;
        while k < n
            invariant
                k <= n == write_set@.len(),
                tx_idx < self.last_written@.len(),
                tx_idx == tx_version.tx_idx,
                wrote_new_location == exists|j: int|
                    0 <= j < k && !self.last_written@[tx_idx as int]@.contains(
                        (#[trigger] write_set@[j]).0,
                    ),
            decreases n - k,
        {
            if !contains_loc(&self.last_written[tx_idx], &write_set[k].0) {
                wrote_new_location = true;
            }
            k = k + 1;
        }

        // Write the new entries.
        let mut k: usize = 0;
        while k < n
            invariant
                k <= n == write_set@.len(),
                tx_idx == tx_version.tx_idx,
                logs_wf(self.data@),
                write_locs_unique(write_set@),
                forall|j: int|
                    0 <= j < k ==> log_entries_of(self.data@, (#[trigger] write_set@[j]).0)
                        == upsert_spec(
                        log_entries_of(old(self).data@, write_set@[j].0),
                        tx_idx,
                        MemoryEntry::Data(tx_version.tx_incarnation, write_set@[j].1),
                    ),
                forall|l: MemoryLocation|
                    !writes_loc(write_set@.take(k as int), l) ==> #[trigger] assoc_log(
                        self.data@,
                        l,
                    ) == assoc_log(old(self).data@, l),
                self.last_written@ == old(self).last_written@,
                self.read_sets@ == old(self).read_sets@,
                self.lazy_locations@ == old(self).lazy_locations@,
                self.new_bytecodes@ == old(self).new_bytecodes@,
            decreases n - k,
        {
            let loc = write_set[k].0;
            let value = write_set[k].1;
            proof {
                assert(write_set@.take(k as int).push(write_set@[k as int]) =~= write_set@.take(
                    k + 1));
            }
            let ghost data_before = self.data@;
            upsert_location(
                &mut self.data,
                loc,
                tx_idx,
                MemoryEntry::Data(tx_version.tx_incarnation, value),
            );
            proof {
                assert forall|l: MemoryLocation|
                    !writes_loc(write_set@.take(k + 1), l) implies #[trigger] assoc_log(
                        self.data@,
                        l,
                    ) == assoc_log(old(self).data@, l) by {
                    assert(write_set@.take(k + 1)[k as int] == write_set@[k as int]);
                    assert(l != write_set@[k as int].0);
                    assert(!writes_loc(write_set@.take(k as int), l)) by {
                        if writes_loc(write_set@.take(k as int), l) {
                            let j = choose|j: int|
                                0 <= j < k && (#[trigger] write_set@.take(k as int)[j]).0 == l;
                            assert((write_set@.take(k + 1)[j]).0 == l);
                        }
                    }
                }
                assert forall|j: int|
                    0 <= j < k + 1 implies log_entries_of(
                        self.data@,
                        (#[trigger] write_set@[j]).0,
                    ) == upsert_spec(
                        log_entries_of(old(self).data@, write_set@[j].0),
                        tx_idx,
                        MemoryEntry::Data(tx_version.tx_incarnation, write_set@[j].1),
                    ) by {
                    if j < k {
                        assert(write_set@[j].0 != write_set@[k as int].0);
                        assert(assoc_log(self.data@, write_set@[j].0) == assoc_log(
                            data_before,
                            write_set@[j].0,
                        ));
                    } else {
                        assert(!writes_loc(write_set@.take(k as int), loc)) by {
                            if writes_loc(write_set@.take(k as int), loc) {
                                let j2 = choose|j2: int|
                                    0 <= j2 < k && (#[trigger] write_set@.take(
                                        k as int,
                                    )[j2]).0 == loc;
                                assert((write_set@[j2]).0 == loc);
                                assert(write_set@[j2].0 != write_set@[k as int].0);
                            }
                        }
                        assert(assoc_log(data_before, loc) == assoc_log(old(self).data@, loc));
                        assert(log_entries_of(self.data@, loc) == upsert_spec(
                            log_entries_of(data_before, loc),
                            tx_idx,
                            MemoryEntry::Data(tx_version.tx_incarnation, write_set@[k as int].1),
                        ));
                    }
                }
            }
            k = k + 1;
        }

        // Drop the entries of locations no longer written.
        let m = self.last_written[tx_idx].len();
        let mut k: usize = 0;
        while k < m
            invariant
                k <= m == self.last_written@[tx_idx as int]@.len(),
                tx_idx == tx_version.tx_idx,
                tx_idx < self.last_written@.len(),
                logs_wf(self.data@),
                logs_wf(old(self).data@),
                write_locs_unique(write_set@),
                forall|j: int|
                    0 <= j < write_set@.len() ==> log_entries_of(
                        self.data@,
                        (#[trigger] write_set@[j]).0,
                    ) == upsert_spec(
                        log_entries_of(old(self).data@, write_set@[j].0),
                        tx_idx,
                        MemoryEntry::Data(tx_version.tx_incarnation, write_set@[j].1),
                    ),
                forall|j: int|
                    0 <= j < k && !writes_loc(
                        write_set@,
                        #[trigger] self.last_written@[tx_idx as int]@[j],
                    ) ==> log_entries_of(self.data@, self.last_written@[tx_idx as int]@[j])
                        == remove_spec(
                        log_entries_of(old(self).data@, self.last_written@[tx_idx as int]@[j]),
                        tx_idx,
                    ),
                forall|l: MemoryLocation|
                    !writes_loc(write_set@, l) && !self.last_written@[tx_idx as int]@.take(
                        k as int,
                    ).contains(l) ==> #[trigger] assoc_log(self.data@, l) == assoc_log(
                        old(self).data@,
                        l,
                    ),
                self.last_written@ == old(self).last_written@,
                self.read_sets@ == old(self).read_sets@,
                self.lazy_locations@ == old(self).lazy_locations@,
                self.new_bytecodes@ == old(self).new_bytecodes@,
            decreases m - k,
        {
            let loc = self.last_written[tx_idx][k];
            proof {
                assert(self.last_written@[tx_idx as int]@.take(k as int).push(
                    self.last_written@[tx_idx as int]@[k as int],
                ) =~= self.last_written@[tx_idx as int]@.take(k + 1));
            }
            let ghost data_mid = self.data@;
            if !write_set_contains(&write_set, &loc) {
                remove_location_entry(&mut self.data, loc, tx_idx);
                proof {
                    assert forall|j: int|
                        0 <= j < write_set@.len() implies log_entries_of(
                            self.data@,
                            (#[trigger] write_set@[j]).0,
                        ) == upsert_spec(
                            log_entries_of(old(self).data@, write_set@[j].0),
                            tx_idx,
                            MemoryEntry::Data(tx_version.tx_incarnation, write_set@[j].1),
                        ) by {
                        assert(write_set@[j].0 != loc);
                    }
                }
            }
            proof {
                let lw = self.last_written@[tx_idx as int]@;
                let wrote = writes_loc(write_set@, loc);
                assert forall|l: MemoryLocation|
                    !writes_loc(write_set@, l) && !lw.take(k + 1).contains(l) implies #[trigger] assoc_log(
                    self.data@,
                    l,
                ) == assoc_log(old(self).data@, l) by {
                    lemma_take_push_contains(lw, k as int, l);
                    assert(l != loc);
                    assert(assoc_log(data_mid, l) == assoc_log(old(self).data@, l));
                }
                assert forall|j: int|
                    0 <= j < k + 1 && !writes_loc(write_set@, #[trigger] lw[j]) implies log_entries_of(
                    self.data@,
                    lw[j],
                ) == remove_spec(log_entries_of(old(self).data@, lw[j]), tx_idx) by {
                    if lw[j] != loc {
                        assert(j < k);
                        assert(assoc_log(self.data@, lw[j]) == assoc_log(data_mid, lw[j]));
                    } else {
                        assert(!wrote);
                        lemma_log_entries_sorted(old(self).data@, loc);
                        if lw.take(k as int).contains(loc) {
                            let j2 = choose|j2: int|
                                0 <= j2 < k && #[trigger] lw.take(k as int)[j2] == loc;
                            assert(lw[j2] == loc);
                            assert(log_entries_of(data_mid, loc) == remove_spec(
                                log_entries_of(old(self).data@, loc),
                                tx_idx,
                            ));
                        } else {
                            assert(assoc_log(data_mid, loc) == assoc_log(old(self).data@, loc));
                        }
                        lemma_remove_idempotent(log_entries_of(old(self).data@, loc), tx_idx);
                    }
                }
            }
            k = k + 1;
        }

        // Replace the bookkeeping rows.
        let mut new_locs: Vec<MemoryLocation> = Vec::new();
        let mut k: usize = 0;
        while k < n
            invariant
                k <= n == write_set@.len(),
                new_locs@.len() == k,
                forall|j: int| 0 <= j < k ==> new_locs@[j] == (#[trigger] write_set@[j]).0,
            decreases n - k,
        {
            new_locs.push(write_set[k].0);
            k = k + 1;
        }
        self.last_written.set(tx_idx, new_locs);
        self.read_sets.set(tx_idx, read_set);

        proof {
            assert forall|l: MemoryLocation|
                (#[trigger] old(self).last_written@[tx_version.tx_idx as int]@.contains(l))
                    && !writes_loc(write_set@, l) implies final(self).log_of(l) == remove_spec(
                old(self).log_of(l),
                tx_version.tx_idx,
            ) by {
                let j = choose|j: int|
                    0 <= j < old(self).last_written@[tx_idx as int]@.len() && old(self).last_written@[tx_idx as int]@[j] == l;
                assert(old(self).last_written@[tx_idx as int]@[j] == l);
            }
            assert forall|l: MemoryLocation|
                !(#[trigger] old(self).last_written@[tx_version.tx_idx as int]@.contains(l))
                    && !writes_loc(write_set@, l) implies final(self).log_of(l) == old(self).log_of(l) by {
                assert(!old(self).last_written@[tx_idx as int]@.take(
                    old(self).last_written@[tx_idx as int]@.len() as int,
                ).contains(l)) by {
                    assert(old(self).last_written@[tx_idx as int]@.take(
                        old(self).last_written@[tx_idx as int]@.len() as int,
                    ) =~= old(self).last_written@[tx_idx as int]@);
                }
            }
        }
        wrote_new_location
    }

    /// Converts every entry authored by `tx_idx` into a tombstone, so that
    /// readers block on its next incarnation instead of consuming stale data.
    pub fn mark_estimate(&mut self, tx_idx: TxIdx)
        requires
            old(self).wf(),
            tx_idx < old(self).block_size(),
        ensures
            final(self).wf(),
            final(self).block_size() == old(self).block_size(),
            forall|l: MemoryLocation|
                (#[trigger] old(self).last_written@[tx_idx as int]@.contains(l)) ==> final(self).log_of(l) == estimate_spec(old(self).log_of(l), tx_idx),
            forall|l: MemoryLocation|
                !(#[trigger] old(self).last_written@[tx_idx as int]@.contains(l)) ==> final(self).log_of(l) == old(self).log_of(l),
            final(self).last_written@ == old(self).last_written@,
            final(self).read_sets@ == old(self).read_sets@,
            final(self).lazy_locations@ == old(self).lazy_locations@,
            final(self).new_bytecodes@ == old(self).new_bytecodes@,
    {
        let m = self.last_written[tx_idx].len();
        let mut k: usize = 0;
        while k < m
            invariant
                k <= m == self.last_written@[tx_idx as int]@.len(),
                tx_idx < self.last_written@.len(),
                logs_wf(self.data@),
                logs_wf(old(self).data@),
                forall|j: int|
                    0 <= j < k ==> log_entries_of(
                        self.data@,
                        #[trigger] self.last_written@[tx_idx as int]@[j],
                    ) == estimate_spec(
                        log_entries_of(old(self).data@, self.last_written@[tx_idx as int]@[j]),
                        tx_idx,
                    ),
                forall|l: MemoryLocation|
                    !self.last_written@[tx_idx as int]@.take(k as int).contains(l)
                        ==> #[trigger] assoc_log(self.data@, l) == assoc_log(old(self).data@, l),
                self.last_written@ == old(self).last_written@,
                self.read_sets@ == old(self).read_sets@,
                self.lazy_locations@ == old(self).lazy_locations@,
                self.new_bytecodes@ == old(self).new_bytecodes@,
            decreases m - k,
        {
            let loc = self.last_written[tx_idx][k];
            proof {
                assert(self.last_written@[tx_idx as int]@.take(k as int).push(
                    self.last_written@[tx_idx as int]@[k as int],
                ) =~= self.last_written@[tx_idx as int]@.take(k + 1));
            }
            let ghost data_mid = self.data@;
            estimate_location(&mut self.data, loc, tx_idx);
            proof {
                let lw = self.last_written@[tx_idx as int]@;
                assert forall|j: int|
                    0 <= j < k + 1 implies log_entries_of(self.data@, #[trigger] lw[j])
                        == estimate_spec(
                        log_entries_of(old(self).data@, lw[j]),
                        tx_idx,
                    ) by {
                    if lw[j] != loc {
                        assert(j < k);
                        assert(assoc_log(self.data@, lw[j]) == assoc_log(data_mid, lw[j]));
                    } else {
                        if lw.take(k as int).contains(loc) {
                            let j2 = choose|j2: int|
                                0 <= j2 < k && #[trigger] lw.take(k as int)[j2] == loc;
                            assert(lw[j2] == loc);
                            assert(log_entries_of(data_mid, loc) == estimate_spec(
                                log_entries_of(old(self).data@, loc),
                                tx_idx,
                            ));
                        } else {
                            assert(assoc_log(data_mid, loc) == assoc_log(old(self).data@, loc));
                        }
                        lemma_estimate_idempotent(log_entries_of(old(self).data@, loc), tx_idx);
                    }
                }
                assert forall|l: MemoryLocation|
                    !lw.take(k + 1).contains(l) implies #[trigger] assoc_log(self.data@, l)
                        == assoc_log(old(self).data@, l) by {
                    lemma_take_push_contains(lw, k as int, l);
                    assert(l != loc);
                    assert(assoc_log(data_mid, l) == assoc_log(old(self).data@, l));
                }
            }
            k = k + 1;
        }
        proof {
            assert forall|l: MemoryLocation|
                !(#[trigger] old(self).last_written@[tx_idx as int]@.contains(l)) implies final(self).log_of(l) == old(self).log_of(l) by {
                assert(old(self).last_written@[tx_idx as int]@.take(
                    old(self).last_written@[tx_idx as int]@.len() as int,
                ) =~= old(self).last_written@[tx_idx as int]@);
            }
            assert forall|l: MemoryLocation|
                (#[trigger] old(self).last_written@[tx_idx as int]@.contains(l)) implies final(self).log_of(l) == estimate_spec(old(self).log_of(l), tx_idx) by {
                let j = choose|j: int|
                    0 <= j < old(self).last_written@[tx_idx as int]@.len() && old(self).last_written@[tx_idx as int]@[j] == l;
                assert(old(self).last_written@[tx_idx as int]@[j] == l);
            }
        }
    }

    /// Registers locations that now host pending lazy deltas.
    pub fn add_lazy_locations(&mut self, locs: &Vec<MemoryLocation>)
        requires
            old(self).wf(),
        ensures
            final(self).wf(),
            final(self).block_size() == old(self).block_size(),
            forall|l: MemoryLocation|
                #[trigger] final(self).lazy_locations@.contains(l) <==> (
                old(self).lazy_locations@.contains(l) || locs@.contains(l)),
            final(self).data@ == old(self).data@,
            final(self).last_written@ == old(self).last_written@,
            final(self).read_sets@ == old(self).read_sets@,
            final(self).new_bytecodes@ == old(self).new_bytecodes@,
    {
        let n = locs.len();
        let mut i: usize = 0;
        while i < n
            invariant
                i <= n == locs@.len(),
                forall|l: MemoryLocation|
                    #[trigger] self.lazy_locations@.contains(l) <==> (
                    old(self).lazy_locations@.contains(l) || locs@.take(i as int).contains(l)),
                self.data@ == old(self).data@,
                self.last_written@ == old(self).last_written@,
                self.read_sets@ == old(self).read_sets@,
                self.new_bytecodes@ == old(self).new_bytecodes@,
            decreases n - i,
        {
            proof {
                assert(locs@.take(i as int).push(locs@[i as int]) =~= locs@.take(i + 1));
            }
            let ghost before = self.lazy_locations@;
            if !contains_loc(&self.lazy_locations, &locs[i]) {
                self.lazy_locations.push(locs[i]);
            }
            proof {
                assert forall|l: MemoryLocation|
                    #[trigger] self.lazy_locations@.contains(l) <==> (
                    old(self).lazy_locations@.contains(l) || locs@.take(i + 1).contains(
                        l,
                    )) by {
                    lemma_take_push_contains(locs@, i as int, l);
                    if self.lazy_locations@.len() == before.len() {
                        if l == locs@[i as int] {
                            assert(before.contains(l));
                        }
                    } else {
                        if self.lazy_locations@.contains(l) {
                            let j = choose|j: int|
                                0 <= j < self.lazy_locations@.len()
                                    && self.lazy_locations@[j] == l;
                            if j < before.len() {
                                assert(before[j] == l);
                            } else {
                                assert(l == locs@[i as int]);
                            }
                        }
                        if before.contains(l) {
                            let j = choose|j: int| 0 <= j < before.len() && before[j] == l;
                            assert(self.lazy_locations@[j] == l);
                        }
                        if l == locs@[i as int] {
                            assert(self.lazy_locations@[before.len() as int] == l);
                        }
                    }
                }
            }
            i = i + 1;
        }
        proof {
            assert(locs@.take(n as int) =~= locs@);
        }
    }

    /// Memoises bytecode deployed in this block; the first write wins.
    pub fn add_new_bytecode(&mut self, code_hash: U256, code: Vec<u8>)
        requires
            old(self).wf(),
        ensures
            final(self).wf(),
            final(self).block_size() == old(self).block_size(),
            match assoc_bytecode(old(self).new_bytecodes@, code_hash) {
                Some(prior) => assoc_bytecode(final(self).new_bytecodes@, code_hash) == Some(
                    prior,
                ),
                None => assoc_bytecode(final(self).new_bytecodes@, code_hash) == Some(code@),
            },
            forall|h2: U256|
                h2 != code_hash ==> #[trigger] assoc_bytecode(final(self).new_bytecodes@, h2)
                    == assoc_bytecode(old(self).new_bytecodes@, h2),
            final(self).data@ == old(self).data@,
            final(self).last_written@ == old(self).last_written@,
            final(self).read_sets@ == old(self).read_sets@,
            final(self).lazy_locations@ == old(self).lazy_locations@,
    {
        match self.find_bytecode_index(&code_hash) {
            Some(_) => {},
            None => {
                proof {
                    lemma_assoc_bytecode_push(self.new_bytecodes@, code_hash, code);
                }
                self.new_bytecodes.push((code_hash, code));
            },
        }
    }

    fn find_bytecode_index(&self, code_hash: &U256) -> (r: Option<usize>)
        ensures
            match r {
                Some(i) => 0 <= i < self.new_bytecodes@.len() && self.new_bytecodes@[i as int].0
                    == *code_hash && assoc_bytecode(self.new_bytecodes@, *code_hash) == Some(
                    self.new_bytecodes@[i as int].1@,
                ),
                None => assoc_bytecode(self.new_bytecodes@, *code_hash) is None,
            },
    {
        let n = self.new_bytecodes.len();
        let mut i: usize = 0;
        proof {
            assert(self.new_bytecodes@.skip(0) =~= self.new_bytecodes@);
        }
        while i < n
            invariant
                i <= n == self.new_bytecodes@.len(),
                assoc_bytecode(self.new_bytecodes@, *code_hash) == assoc_bytecode(
                    self.new_bytecodes@.skip(i as int),
                    *code_hash,
                ),
                forall|j: int| 0 <= j < i ==> (#[trigger] self.new_bytecodes@[j]).0 != *code_hash,
            decreases n - i,
        {
            proof {
                assert(self.new_bytecodes@.skip(i as int)[0] == self.new_bytecodes@[i as int]);
                assert(self.new_bytecodes@.skip(i as int).skip(1) =~= self.new_bytecodes@.skip(
                    i + 1));
            }
            if self.new_bytecodes[i].0 == *code_hash {
                return Some(i);
            }
            i = i + 1;
        }
        None
    }

    /// The bytecode deployed in-block under `code_hash`, if any.
    pub fn get_new_bytecode(&self, code_hash: &U256) -> (r: Option<&Vec<u8>>)
        ensures
            match r {
                Some(c) => assoc_bytecode(self.new_bytecodes@, *code_hash) == Some(c@),
                None => assoc_bytecode(self.new_bytecodes@, *code_hash) is None,
            },
    {
        match self.find_bytecode_index(code_hash) {
            Some(i) => Some(&self.new_bytecodes[i].1),
            None => None,
        }
    }
}

/// Re-tombstoning an index changes nothing.
proof fn lemma_estimate_idempotent(s: Seq<(TxIdx, MemoryEntry)>, idx: TxIdx)
    ensures
        estimate_spec(estimate_spec(s, idx), idx) == estimate_spec(s, idx),
{
    lemma_lower_bound_nonneg(s, idx);
    let t = estimate_spec(s, idx);
    let p = lower_bound(s, idx);
    if p < s.len() && s[p].0 == idx {
        lemma_lower_bound_update(s, idx, p);
        assert(estimate_spec(t, idx) =~= t);
    }
}

/// Every log that `assoc_log` can hand out is sorted.
pub proof fn lemma_log_entries_sorted(s: Seq<LocationLog>, loc: MemoryLocation)
    requires
        logs_wf(s),
    ensures
        entries_sorted(log_entries_of(s, loc)),
{
    if assoc_log(s, loc) is Some {
        lemma_assoc_log_some(s, loc);
        let j = choose|j: int| 0 <= j < s.len() && (#[trigger] s[j]).location == loc;
        lemma_assoc_log_index(s, loc, j);
    }
}

/// Re-removing an index changes nothing.
proof fn lemma_remove_idempotent(s: Seq<(TxIdx, MemoryEntry)>, idx: TxIdx)
    requires
        entries_sorted(s),
    ensures
        remove_spec(remove_spec(s, idx), idx) == remove_spec(s, idx),
{
    lemma_lower_bound_props(s, idx);
    let p = lower_bound(s, idx);
    if p < s.len() && s[p].0 == idx {
        let t = s.remove(p);
        assert forall|a: int, b: int| 0 <= a < b < t.len() implies (#[trigger] t[a]).0 < (
        #[trigger] t[b]).0 by {
            if a < p {
                assert(t[a] == s[a]);
            } else {
                assert(t[a] == s[a + 1]);
            }
            if b < p {
                assert(t[b] == s[b]);
            } else {
                assert(t[b] == s[b + 1]);
            }
        }
        lemma_lower_bound_props(t, idx);
        let q = lower_bound(t, idx);
        if q < t.len() && t[q].0 == idx {
            if q < p {
                assert(t[q] == s[q]);
            } else {
                assert(t[q] == s[q + 1]);
            }
        }
    }
}

/// Updating position `p` without changing indices keeps the lower bound.
proof fn lemma_lower_bound_update(s: Seq<(TxIdx, MemoryEntry)>, idx: TxIdx, p: int)
    requires
        0 <= p < s.len(),
        s[p].0 == idx,
    ensures
        lower_bound(s.update(p, (idx, MemoryEntry::Estimate)), idx) == lower_bound(s, idx),
    decreases s.len(),
{
    let t = s.update(p, (idx, MemoryEntry::Estimate));
    if s.len() > 0 {
        if p == 0 {
            assert(t[0].0 == idx);
        } else {
            assert(t[0] == s[0]);
            if s[0].0 < idx {
                assert(t.skip(1) =~= s.skip(1).update(p - 1, (idx, MemoryEntry::Estimate)));
                assert(s.skip(1)[p - 1].0 == idx);
                lemma_lower_bound_update(s.skip(1), idx, p - 1);
            }
        }
    }
}

/// Appending a fresh code hash adds it and keeps the rest.
proof fn lemma_assoc_bytecode_push(s: Seq<(U256, Vec<u8>)>, h: U256, code: Vec<u8>)
    requires
        assoc_bytecode(s, h) is None,
    ensures
        assoc_bytecode(s.push((h, code)), h) == Some(code@),
        forall|h2: U256|
            h2 != h ==> #[trigger] assoc_bytecode(s.push((h, code)), h2) == assoc_bytecode(s, h2),
    decreases s.len(),
{
    let t = s.push((h, code));
    if s.len() == 0 {
        assert(t[0].0 == h);
        assert forall|h2: U256| h2 != h implies #[trigger] assoc_bytecode(t, h2)
            == assoc_bytecode(s, h2) by {
            assert(t.skip(1) =~= Seq::<(U256, Vec<u8>)>::empty());
            assert(assoc_bytecode(t.skip(1), h2) is None);
        }
    } else {
        assert(s[0].0 != h);
        lemma_assoc_bytecode_push(s.skip(1), h, code);
        assert(t.skip(1) =~= s.skip(1).push((h, code)));
        assert(t[0] == s[0]);
        assert(assoc_bytecode(t.skip(1), h) == Some(code@));
        assert forall|h2: U256| h2 != h implies #[trigger] assoc_bytecode(t, h2)
            == assoc_bytecode(s, h2) by {
            if s[0].0 != h2 {
                assert(assoc_bytecode(t.skip(1), h2) == assoc_bytecode(s.skip(1), h2));
            }
        }
    }
}

/// A location with a log occurs in the list.
proof fn lemma_assoc_log_some(s: Seq<LocationLog>, loc: MemoryLocation)
    requires
        assoc_log(s, loc) is Some,
    ensures
        exists|j: int| 0 <= j < s.len() && (#[trigger] s[j]).location == loc,
    decreases s.len(),
{
    if s.len() > 0 && s[0].location != loc {
        lemma_assoc_log_some(s.skip(1), loc);
        let j = choose|j: int| 0 <= j < s.skip(1).len() && (#[trigger] s.skip(1)[j]).location == loc;
        assert(s[j + 1].location == loc);
    }
}

} // verus!
