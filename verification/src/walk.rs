//! Walking a location's write log backwards from a reading transaction,
//! accumulating pending lazy deltas until concrete data, a tombstone, or
//! the log's start is met.

use vstd::prelude::*;
use crate::mv_memory::{entries_sorted, lower_bound};
use crate::types::{
    AccountBasic, MemoryEntry, MemoryValue, ReadOrigin, TxIdx, TxVersion,
};
use crate::uint::{pow256, U256};

verus! {

/// The balance delta a lazy basic entry stands for.
pub open spec fn lazy_basic_delta(v: MemoryValue) -> int {
    match v {
        MemoryValue::LazyRecipient(a) => a.as_nat() as int,
        MemoryValue::LazySender(s) => -(s.as_nat() as int),
        _ => 0,
    }
}

/// What a backward walk of a basic location's log finds.
pub enum BasicWalk {
    /// A tombstone: block on its author.
    Blocked { blocking_idx: TxIdx },
    /// A value of the wrong kind sat in the log.
    Invalid,
    /// A concrete basic, with the lazy deltas above it.
    Found { base: AccountBasic, delta: int, nonce_add: nat, origins: Seq<ReadOrigin> },
    /// Only lazy deltas: the base comes from pre-block storage.
    Empty { delta: int, nonce_add: nat, origins: Seq<ReadOrigin> },
}

/// Adds one more visited lazy entry in front of a walk outcome.
pub open spec fn walk_shift(r: BasicWalk, d: int, n: nat, o: ReadOrigin) -> BasicWalk {
    match r {
        BasicWalk::Blocked { blocking_idx } => r,
        BasicWalk::Invalid => r,
        BasicWalk::Found { base, delta, nonce_add, origins } => BasicWalk::Found {
            base,
            delta: delta + d,
            nonce_add: nonce_add + n,
            origins: seq![o] + origins,
        },
        BasicWalk::Empty { delta, nonce_add, origins } => BasicWalk::Empty {
            delta: delta + d,
            nonce_add: nonce_add + n,
            origins: seq![o] + origins,
        },
    }
}

/// The walk over a whole log, from its last entry backwards.
pub open spec fn basic_walk(s: Seq<(TxIdx, MemoryEntry)>) -> BasicWalk
    decreases s.len(),
{
    if s.len() == 0 {
        BasicWalk::Empty { delta: 0, nonce_add: 0, origins: Seq::empty() }
    } else {
        let (i, e) = s.last();
        match e {
            MemoryEntry::Estimate => BasicWalk::Blocked { blocking_idx: i },
            MemoryEntry::Data(inc, v) => {
                let o = ReadOrigin::MvMemory(TxVersion { tx_idx: i, tx_incarnation: inc });
                match v {
                    MemoryValue::Basic(b) => BasicWalk::Found {
                        base: b,
                        delta: 0,
                        nonce_add: 0,
                        origins: seq![o],
                    },
                    MemoryValue::LazyRecipient(a) => walk_shift(
                        basic_walk(s.drop_last()),
                        a.as_nat() as int,
                        0,
                        o,
                    ),
                    MemoryValue::LazySender(sub) => walk_shift(
                        basic_walk(s.drop_last()),
                        -(sub.as_nat() as int),
                        1,
                        o,
                    ),
                    _ => BasicWalk::Invalid,
                }
            },
        }
    }
}

/// Whether every partial delta sum met while walking, starting from
/// accumulated delta `acc`, stays strictly inside (-2^256, 2^256); the exec
/// sign-magnitude accumulator is exact precisely then.
pub open spec fn basic_walk_bounded(s: Seq<(TxIdx, MemoryEntry)>, acc: int) -> bool
    decreases s.len(),
{
    if s.len() == 0 {
        true
    } else {
        let (i, e) = s.last();
        match e {
            MemoryEntry::Estimate => true,
            MemoryEntry::Data(inc, v) => match v {
                MemoryValue::LazyRecipient(a) => {
                    let acc2 = acc + a.as_nat();
                    -pow256() < acc2 < pow256() && basic_walk_bounded(s.drop_last(), acc2)
                },
                MemoryValue::LazySender(sub) => {
                    let acc2 = acc - sub.as_nat();
                    -pow256() < acc2 < pow256() && basic_walk_bounded(s.drop_last(), acc2)
                },
                _ => true,
            },
        }
    }
}

/// The signed value of a sign-magnitude accumulator.
pub open spec fn sig(pos: bool, mag: U256) -> int {
    if pos {
        mag.as_nat() as int
    } else {
        -(mag.as_nat() as int)
    }
}

/// Prepends a run of visited origins and their accumulated deltas.
pub open spec fn walk_shift_many(r: BasicWalk, d: int, n: nat, os: Seq<ReadOrigin>) -> BasicWalk {
    match r {
        BasicWalk::Blocked { blocking_idx } => r,
        BasicWalk::Invalid => r,
        BasicWalk::Found { base, delta, nonce_add, origins } => BasicWalk::Found {
            base,
            delta: delta + d,
            nonce_add: nonce_add + n,
            origins: os + origins,
        },
        BasicWalk::Empty { delta, nonce_add, origins } => BasicWalk::Empty {
            delta: delta + d,
            nonce_add: nonce_add + n,
            origins: os + origins,
        },
    }
}

/// What the exec walk hands back.
pub enum BasicWalkExec {
    Blocked(TxIdx),
    Invalid,
    Found { base: AccountBasic, pos: bool, mag: U256, nonce_add: u64, origins: Vec<ReadOrigin> },
    Empty { pos: bool, mag: U256, nonce_add: u64, origins: Vec<ReadOrigin> },
}

/// Relates an exec walk result to the spec walk of the same log.
pub open spec fn walk_matches(r: BasicWalkExec, w: BasicWalk, bounded: bool) -> bool {
    match r {
        BasicWalkExec::Blocked(i) => w == (BasicWalk::Blocked { blocking_idx: i }),
        BasicWalkExec::Invalid => w is Invalid,
        BasicWalkExec::Found { base, pos, mag, nonce_add, origins } => match w {
            BasicWalk::Found { base: b2, delta, nonce_add: n2, origins: o2 } => b2 == base && n2
                == nonce_add as nat && o2 == origins@ && (bounded ==> delta == sig(pos, mag)),
            _ => false,
        },
        BasicWalkExec::Empty { pos, mag, nonce_add, origins } => match w {
            BasicWalk::Empty { delta, nonce_add: n2, origins: o2 } => n2 == nonce_add as nat && o2
                == origins@ && (bounded ==> delta == sig(pos, mag)),
            _ => false,
        },
    }
}

/// Walks the part of a sorted log written below `tx_idx`, resolving lazy
/// deltas exactly as the spec walk does wherever no partial sum leaves
/// (-2^256, 2^256).
pub fn walk_basic(entries: &Vec<(TxIdx, MemoryEntry)>, tx_idx: TxIdx) -> (r: BasicWalkExec)
    requires
        entries_sorted(entries@),
    ensures
        walk_matches(
            r,
            basic_walk(entries@.take(lower_bound(entries@, tx_idx))),
            basic_walk_bounded(entries@.take(lower_bound(entries@, tx_idx)), 0),
        ),
{
    let lb = crate::mv_memory::find_lower_bound(entries, tx_idx);
    let ghost below = entries@.take(lb as int);
    let ghost bounded = basic_walk_bounded(below, 0);
    let mut pos = true;
    let mut mag = U256::zero();
    let mut nonce_add: u64 = 0;
    let mut origins: Vec<ReadOrigin> = Vec::new();
    let mut p = lb;
    proof {
        crate::mv_memory::lemma_lower_bound_nonneg(entries@, tx_idx);
        assert(below.take(p as int) =~= below);
        assert(walk_delta_from(below, p as int) == 0);
        assert(walk_shift_many(basic_walk(below), 0, 0, Seq::empty()) == basic_walk(below)) by {
            match basic_walk(below) {
                BasicWalk::Found { base, delta, nonce_add: n2, origins: o2 } => {
                    assert(Seq::empty() + o2 =~= o2);
                },
                BasicWalk::Empty { delta, nonce_add: n2, origins: o2 } => {
                    assert(Seq::empty() + o2 =~= o2);
                },
                _ => {},
            }
        }
    }
    while p > 0
        invariant
            p <= lb <= entries@.len(),
            entries_sorted(entries@),
            lb == lower_bound(entries@, tx_idx),
            below == entries@.take(lb as int),
            bounded == basic_walk_bounded(below, 0),
            nonce_add <= lb - p,
            basic_walk(below) == walk_shift_many(
                basic_walk(below.take(p as int)),
                walk_delta_from(below, p as int),
                nonce_add as nat,
                origins@,
            ),
            bounded ==> sig(pos, mag) == walk_delta_from(below, p as int),
            bounded ==> basic_walk_bounded(below.take(p as int), walk_delta_from(below, p as int)),
        decreases p,
    {
        let ghost pre = below.take(p as int);
        let ghost acc_d = walk_delta_from(below, p as int);
        proof {
            assert(pre.drop_last() =~= below.take(p - 1));
            assert(pre.last() == below[p - 1]);
            assert(below[p - 1] == entries@[p - 1]);
            assert(walk_delta_from(below, p - 1) == entry_delta(below[p - 1]) + acc_d);
        }
        let (idx, entry) = entries[p - 1];
        match entry {
            MemoryEntry::Estimate => {
                return BasicWalkExec::Blocked(idx);
            },
            MemoryEntry::Data(inc, v) => {
                let o = ReadOrigin::MvMemory(TxVersion { tx_idx: idx, tx_incarnation: inc });
                match v {
                    MemoryValue::Basic(b) => {
                        proof {
                            assert(basic_walk(pre) == (BasicWalk::Found {
                                base: b,
                                delta: 0,
                                nonce_add: 0,
                                origins: seq![o],
                            }));
                            assert(origins@ + seq![o] =~= origins@.push(o));
                        }
                        origins.push(o);
                        return BasicWalkExec::Found { base: b, pos, mag, nonce_add, origins };
                    },
                    MemoryValue::LazyRecipient(a) => {
                        proof {
                            lemma_shift_compose(
                                basic_walk(pre.drop_last()),
                                basic_walk(pre),
                                a.as_nat() as int,
                                0,
                                o,
                                acc_d,
                                nonce_add as nat,
                                origins@,
                            );
                        }
                        origins.push(o);
                        if pos {
                            mag = mag.wrapping_add(a);
                        } else {
                            let new_pos = mag.le(a);
                            let new_mag = mag.abs_diff(a);
                            pos = new_pos;
                            mag = new_mag;
                        }
                    },
                    MemoryValue::LazySender(sub) => {
                        proof {
                            lemma_shift_compose(
                                basic_walk(pre.drop_last()),
                                basic_walk(pre),
                                -(sub.as_nat() as int),
                                1,
                                o,
                                acc_d,
                                nonce_add as nat,
                                origins@,
                            );
                        }
                        origins.push(o);
                        if pos {
                            let new_pos = sub.le(mag);
                            let new_mag = mag.abs_diff(sub);
                            pos = new_pos;
                            mag = new_mag;
                        } else {
                            mag = mag.wrapping_add(sub);
                        }
                        nonce_add = nonce_add + 1;
                    },
                    _ => {
                        return BasicWalkExec::Invalid;
                    },
                }
            },
        }
        p = p - 1;
    }
    proof {
        assert(below.take(0) =~= Seq::<(TxIdx, MemoryEntry)>::empty());
        match basic_walk(below) {
            BasicWalk::Empty { delta, nonce_add: n2, origins: o2 } => {
                assert(origins@ + Seq::<ReadOrigin>::empty() =~= origins@);
            },
            _ => {},
        }
    }
    BasicWalkExec::Empty { pos, mag, nonce_add, origins }
}

/// The delta sum of the entries of `s` from position `p` to the end.
pub open spec fn walk_delta_from(s: Seq<(TxIdx, MemoryEntry)>, p: int) -> int
    decreases s.len() - p,
{
    if p < 0 || p >= s.len() {
        0
    } else {
        entry_delta(s[p]) + walk_delta_from(s, p + 1)
    }
}

/// The delta of one entry.
pub open spec fn entry_delta(e: (TxIdx, MemoryEntry)) -> int {
    match e.1 {
        MemoryEntry::Data(inc, v) => lazy_basic_delta(v),
        MemoryEntry::Estimate => 0,
    }
}

/// The slot delta a pending token-transfer entry stands for.
pub open spec fn erc20_delta(v: MemoryValue) -> int {
    match v {
        MemoryValue::ERC20TransferRecipient(a) => a.as_nat() as int,
        MemoryValue::ERC20TransferSender(s) => -(s.as_nat() as int),
        _ => 0,
    }
}

/// What a backward walk of a storage location's log finds.
pub enum StorageWalk {
    /// A tombstone: block on its author.
    Blocked { blocking_idx: TxIdx },
    /// A value of the wrong kind sat in the log.
    Invalid,
    /// A concrete slot value, with the pending deltas above it.
    Found { base: U256, delta: int, origins: Seq<ReadOrigin> },
    /// Only pending deltas: the base comes from pre-block storage.
    Empty { delta: int, origins: Seq<ReadOrigin> },
}

/// Adds one more visited pending delta in front of a storage walk outcome.
pub open spec fn storage_shift(r: StorageWalk, d: int, o: ReadOrigin) -> StorageWalk {
    match r {
        StorageWalk::Blocked { blocking_idx } => r,
        StorageWalk::Invalid => r,
        StorageWalk::Found { base, delta, origins } => StorageWalk::Found {
            base,
            delta: delta + d,
            origins: seq![o] + origins,
        },
        StorageWalk::Empty { delta, origins } => StorageWalk::Empty {
            delta: delta + d,
            origins: seq![o] + origins,
        },
    }
}

/// The storage walk over a whole log, from its last entry backwards.
pub open spec fn storage_walk(s: Seq<(TxIdx, MemoryEntry)>) -> StorageWalk
    decreases s.len(),
{
    if s.len() == 0 {
        StorageWalk::Empty { delta: 0, origins: Seq::empty() }
    } else {
        let (i, e) = s.last();
        match e {
            MemoryEntry::Estimate => StorageWalk::Blocked { blocking_idx: i },
            MemoryEntry::Data(inc, v) => {
                let o = ReadOrigin::MvMemory(TxVersion { tx_idx: i, tx_incarnation: inc });
                match v {
                    MemoryValue::Storage(val) => StorageWalk::Found {
                        base: val,
                        delta: 0,
                        origins: seq![o],
                    },
                    MemoryValue::ERC20TransferRecipient(a) => storage_shift(
                        storage_walk(s.drop_last()),
                        a.as_nat() as int,
                        o,
                    ),
                    MemoryValue::ERC20TransferSender(sub) => storage_shift(
                        storage_walk(s.drop_last()),
                        -(sub.as_nat() as int),
                        o,
                    ),
                    _ => StorageWalk::Invalid,
                }
            },
        }
    }
}

/// Prepends a run of visited origins and deltas to a storage walk outcome.
pub open spec fn storage_shift_many(r: StorageWalk, d: int, os: Seq<ReadOrigin>) -> StorageWalk {
    match r {
        StorageWalk::Blocked { blocking_idx } => r,
        StorageWalk::Invalid => r,
        StorageWalk::Found { base, delta, origins } => StorageWalk::Found {
            base,
            delta: delta + d,
            origins: os + origins,
        },
        StorageWalk::Empty { delta, origins } => StorageWalk::Empty {
            delta: delta + d,
            origins: os + origins,
        },
    }
}

/// What the exec storage walk hands back; the accumulator wraps modulo
/// 2^256, exactly as slot arithmetic does.
pub enum StorageWalkExec {
    Blocked(TxIdx),
    Invalid,
    Found { base: U256, acc: U256, origins: Vec<ReadOrigin> },
    Empty { acc: U256, origins: Vec<ReadOrigin> },
}

/// `m` is `d` modulo 2^256.
pub open spec fn is_mod256(m: U256, d: int) -> bool {
    m.as_nat() == d % (pow256() as int)
}

/// Relates an exec storage walk result to the spec walk of the same log.
pub open spec fn storage_walk_matches(r: StorageWalkExec, w: StorageWalk) -> bool {
    match r {
        StorageWalkExec::Blocked(i) => w == (StorageWalk::Blocked { blocking_idx: i }),
        StorageWalkExec::Invalid => w is Invalid,
        StorageWalkExec::Found { base, acc, origins } => match w {
            StorageWalk::Found { base: b2, delta, origins: o2 } => b2 == base && o2 == origins@
                && is_mod256(acc, delta),
            _ => false,
        },
        StorageWalkExec::Empty { acc, origins } => match w {
            StorageWalk::Empty { delta, origins: o2 } => o2 == origins@ && is_mod256(acc, delta),
            _ => false,
        },
    }
}

/// Walks the part of a sorted log written below `tx_idx`, accumulating
/// pending token deltas modulo 2^256.
pub fn walk_storage(entries: &Vec<(TxIdx, MemoryEntry)>, tx_idx: TxIdx) -> (r: StorageWalkExec)
    requires
        entries_sorted(entries@),
    ensures
        storage_walk_matches(r, storage_walk(entries@.take(lower_bound(entries@, tx_idx)))),
{
    let lb = crate::mv_memory::find_lower_bound(entries, tx_idx);
    let ghost below = entries@.take(lb as int);
    let mut acc = U256::zero();
    let mut origins: Vec<ReadOrigin> = Vec::new();
    let mut p = lb;
    proof {
        crate::mv_memory::lemma_lower_bound_nonneg(entries@, tx_idx);
        assert(below.take(p as int) =~= below);
        assert(storage_delta_from(below, p as int) == 0);
        assert(storage_shift_many(storage_walk(below), 0, Seq::empty()) == storage_walk(
            below,
        )) by {
            match storage_walk(below) {
                StorageWalk::Found { base, delta, origins: o2 } => {
                    assert(Seq::empty() + o2 =~= o2);
                },
                StorageWalk::Empty { delta, origins: o2 } => {
                    assert(Seq::empty() + o2 =~= o2);
                },
                _ => {},
            }
        }
        vstd::arithmetic::div_mod::lemma_small_mod(0, pow256());
    }
    while p > 0
        invariant
            p <= lb <= entries@.len(),
            entries_sorted(entries@),
            lb == lower_bound(entries@, tx_idx),
            below == entries@.take(lb as int),
            storage_walk(below) == storage_shift_many(
                storage_walk(below.take(p as int)),
                storage_delta_from(below, p as int),
                origins@,
            ),
            is_mod256(acc, storage_delta_from(below, p as int)),
        decreases p,
    {
        let ghost pre = below.take(p as int);
        let ghost acc_d = storage_delta_from(below, p as int);
        proof {
            assert(pre.drop_last() =~= below.take(p - 1));
            assert(pre.last() == below[p - 1]);
            assert(below[p - 1] == entries@[p - 1]);
            assert(storage_delta_from(below, p - 1) == erc20_entry_delta(below[p - 1]) + acc_d);
        }
        let (idx, entry) = entries[p - 1];
        match entry {
            MemoryEntry::Estimate => {
                return StorageWalkExec::Blocked(idx);
            },
            MemoryEntry::Data(inc, v) => {
                let o = ReadOrigin::MvMemory(TxVersion { tx_idx: idx, tx_incarnation: inc });
                match v {
                    MemoryValue::Storage(val) => {
                        proof {
                            assert(storage_walk(pre) == (StorageWalk::Found {
                                base: val,
                                delta: 0,
                                origins: seq![o],
                            }));
                            assert(origins@ + seq![o] =~= origins@.push(o));
                        }
                        origins.push(o);
                        return StorageWalkExec::Found { base: val, acc, origins };
                    },
                    MemoryValue::ERC20TransferRecipient(a) => {
                        proof {
                            lemma_storage_shift_compose(
                                storage_walk(pre.drop_last()),
                                storage_walk(pre),
                                a.as_nat() as int,
                                o,
                                acc_d,
                                origins@,
                            );
                            lemma_mod_add256(acc, a, acc_d);
                        }
                        origins.push(o);
                        acc = acc.wrapping_add(a);
                    },
                    MemoryValue::ERC20TransferSender(sub) => {
                        proof {
                            lemma_storage_shift_compose(
                                storage_walk(pre.drop_last()),
                                storage_walk(pre),
                                -(sub.as_nat() as int),
                                o,
                                acc_d,
                                origins@,
                            );
                            lemma_mod_sub256(acc, sub, acc_d);
                        }
                        origins.push(o);
                        acc = acc.wrapping_sub(sub);
                    },
                    _ => {
                        return StorageWalkExec::Invalid;
                    },
                }
            },
        }
        p = p - 1;
    }
    proof {
        assert(below.take(0) =~= Seq::<(TxIdx, MemoryEntry)>::empty());
        match storage_walk(below) {
            StorageWalk::Empty { delta, origins: o2 } => {
                assert(origins@ + Seq::<ReadOrigin>::empty() =~= origins@);
            },
            _ => {},
        }
    }
    StorageWalkExec::Empty { acc, origins }
}

/// The pending-token delta sum of the entries of `s` from position `p` on.
pub open spec fn storage_delta_from(s: Seq<(TxIdx, MemoryEntry)>, p: int) -> int
    decreases s.len() - p,
{
    if p < 0 || p >= s.len() {
        0
    } else {
        erc20_entry_delta(s[p]) + storage_delta_from(s, p + 1)
    }
}

/// The pending-token delta of one entry.
pub open spec fn erc20_entry_delta(e: (TxIdx, MemoryEntry)) -> int {
    match e.1 {
        MemoryEntry::Data(inc, v) => erc20_delta(v),
        MemoryEntry::Estimate => 0,
    }
}

/// Wrapping addition tracks addition of deltas modulo 2^256.
pub proof fn lemma_mod_add256(acc: U256, a: U256, d: int)
    requires
        is_mod256(acc, d),
    ensures
        ({
            let s = acc.as_nat() + a.as_nat();
            let w: int = if s < pow256() {
                s as int
            } else {
                s - pow256()
            };
            w == (d + a.as_nat()) % (pow256() as int)
        }),
{
    let m = pow256() as int;
    vstd::arithmetic::div_mod::lemma_add_mod_noop(d, a.as_nat() as int, m);
    vstd::arithmetic::div_mod::lemma_mod_bound(d, m);
    vstd::arithmetic::div_mod::lemma_small_mod(acc.as_nat(), pow256());
    let s = acc.as_nat() + a.as_nat();
    if s < pow256() {
        vstd::arithmetic::div_mod::lemma_small_mod(s, pow256());
        assert((acc.as_nat() as int % m + a.as_nat() as int % m) % m == (s as int) % m) by {
            vstd::arithmetic::div_mod::lemma_add_mod_noop(
                acc.as_nat() as int,
                a.as_nat() as int,
                m,
            );
        }
        vstd::arithmetic::div_mod::lemma_small_mod(a.as_nat(), pow256());
    } else {
        vstd::arithmetic::div_mod::lemma_add_mod_noop(
            acc.as_nat() as int,
            a.as_nat() as int,
            m,
        );
        vstd::arithmetic::div_mod::lemma_small_mod(a.as_nat(), pow256());
        vstd::arithmetic::div_mod::lemma_mod_sub_multiples_vanish(s as int, m);
        vstd::arithmetic::div_mod::lemma_small_mod((s - pow256()) as nat, pow256());
    }
}

/// Wrapping subtraction tracks subtraction of deltas modulo 2^256.
pub proof fn lemma_mod_sub256(acc: U256, b: U256, d: int)
    requires
        is_mod256(acc, d),
    ensures
        ({
            let w: int = if acc.as_nat() >= b.as_nat() {
                acc.as_nat() - b.as_nat()
            } else {
                acc.as_nat() - b.as_nat() + pow256()
            };
            w == (d - b.as_nat()) % (pow256() as int)
        }),
{
    let m = pow256() as int;
    vstd::arithmetic::div_mod::lemma_sub_mod_noop(d, b.as_nat() as int, m);
    vstd::arithmetic::div_mod::lemma_small_mod(acc.as_nat(), pow256());
    vstd::arithmetic::div_mod::lemma_small_mod(b.as_nat(), pow256());
    if acc.as_nat() >= b.as_nat() {
        vstd::arithmetic::div_mod::lemma_small_mod((acc.as_nat() - b.as_nat()) as nat, pow256());
        assert((acc.as_nat() as int % m - b.as_nat() as int % m) % m == (acc.as_nat() as int
            - b.as_nat() as int) % m) by {
            vstd::arithmetic::div_mod::lemma_sub_mod_noop(
                acc.as_nat() as int,
                b.as_nat() as int,
                m,
            );
        }
    } else {
        vstd::arithmetic::div_mod::lemma_sub_mod_noop(
            acc.as_nat() as int,
            b.as_nat() as int,
            m,
        );
        vstd::arithmetic::div_mod::lemma_mod_add_multiples_vanish(
            acc.as_nat() as int - b.as_nat() as int,
            m,
        );
        vstd::arithmetic::div_mod::lemma_small_mod(
            (acc.as_nat() - b.as_nat() + pow256()) as nat,
            pow256(),
        );
    }
}

/// Composing one storage shift with an accumulated run.
pub proof fn lemma_storage_shift_compose(
    inner: StorageWalk,
    shifted: StorageWalk,
    d: int,
    o: ReadOrigin,
    bigd: int,
    os: Seq<ReadOrigin>,
)
    requires
        shifted == storage_shift(inner, d, o),
    ensures
        storage_shift_many(shifted, bigd, os) == storage_shift_many(inner, bigd + d, os.push(o)),
{
    match inner {
        StorageWalk::Found { base, delta, origins } => {
            assert(os + (seq![o] + origins) =~= os.push(o) + origins);
        },
        StorageWalk::Empty { delta, origins } => {
            assert(os + (seq![o] + origins) =~= os.push(o) + origins);
        },
        _ => {},
    }
}

/// Composing one shift with an accumulated run.
pub proof fn lemma_shift_compose(
    inner: BasicWalk,
    shifted: BasicWalk,
    d: int,
    n: nat,
    o: ReadOrigin,
    bigd: int,
    bign: nat,
    os: Seq<ReadOrigin>,
)
    requires
        shifted == walk_shift(inner, d, n, o),
    ensures
        walk_shift_many(shifted, bigd, bign, os) == walk_shift_many(
            inner,
            bigd + d,
            bign + n,
            os.push(o),
        ),
{
    match inner {
        BasicWalk::Found { base, delta, nonce_add, origins } => {
            assert(os + (seq![o] + origins) =~= os.push(o) + origins);
        },
        BasicWalk::Empty { delta, nonce_add, origins } => {
            assert(os + (seq![o] + origins) =~= os.push(o) + origins);
        },
        _ => {},
    }
}

} // verus!
