//! Core data model: addresses, account basics, memory locations and the
//! multi-version write-log payloads.

use vstd::prelude::*;
use crate::bytes::lemma_pow256_16;
use crate::uint::U256;

verus! {

/// Index of a transaction inside the block.
pub type TxIdx = usize;

/// Attempt counter for one transaction index.
pub type TxIncarnation = usize;

/// A 160-bit account address: `hi * 2^128 + lo`.
#[derive(Clone, Copy, Debug, PartialEq, Eq, Structural, Hash)]
pub struct Address {
    pub hi: u32,
    pub lo: u128,
}

impl Address {
    /// The 20-byte big-endian encoding of this address.
    pub open spec fn be_bytes(self) -> Seq<u8> {
        crate::bytes::be_bytes_of(self.hi as nat, 4) + crate::bytes::be_bytes_of(self.lo as nat, 16)
    }

    /// Appends the 20-byte big-endian encoding.
    pub fn push_be_bytes(self, out: &mut Vec<u8>)
        ensures
            final(out)@ == old(out)@ + self.be_bytes(),
    {
        crate::bytes::push_be(out, self.hi as u128, 4);
        crate::bytes::push_be(out, self.lo, 16);
        proof {
            assert(final(out)@ =~= old(out)@ + self.be_bytes());
        }
    }

    /// Reads an address from 20 big-endian bytes.
    pub fn from_be_slice(bytes: &Vec<u8>, start: usize) -> (r: Address)
        requires
            start + 20 <= bytes@.len(),
        ensures
            r.be_bytes() == bytes@.subrange(start as int, start + 20),
            r == address_of_bytes(bytes@.subrange(start as int, start + 20)),
    {
        let blen = bytes.len();
        let hi = crate::bytes::read_be_u128(bytes, start, start + 4);
        let lo = crate::bytes::read_be_u128(bytes, start + 4, start + 20);
        proof {
            let a = bytes@.subrange(start as int, start + 4);
            crate::bytes::lemma_be_val_bound(a);
            lemma_pow256_4();
        }
        let r = Address { hi: hi as u32, lo };
        proof {
            let a = bytes@.subrange(start as int, start + 4);
            let b = bytes@.subrange(start + 4, start + 20);
            crate::bytes::lemma_be_bytes_of_val(a);
            crate::bytes::lemma_be_bytes_of_val(b);
            assert(r.be_bytes() =~= bytes@.subrange(start as int, start + 20));
            let whole = bytes@.subrange(start as int, start + 20);
            assert(whole.subrange(0, 4) =~= a);
            assert(whole.subrange(4, 20) =~= b);
            crate::bytes::lemma_be_val_bound(b);
            lemma_pow256_16();
        }
        r
    }
}

/// The address 20 big-endian bytes stand for.
pub open spec fn address_of_bytes(s: Seq<u8>) -> Address {
    Address {
        hi: crate::bytes::be_val(s.subrange(0, 4)) as u32,
        lo: crate::bytes::be_val(s.subrange(4, 20)) as u128,
    }
}

/// 256^4.
pub proof fn lemma_pow256_4()
    ensures
        vstd::arithmetic::power::pow(256, 4) == 0x1_0000_0000nat,
{
    reveal_with_fuel(vstd::arithmetic::power::pow, 5);
}

/// Balance and nonce of an account.
#[derive(Clone, Copy, Debug, PartialEq, Eq, Structural, Hash)]
pub struct AccountBasic {
    pub balance: U256,
    pub nonce: u64,
}

impl AccountBasic {
    pub fn new_empty() -> (r: AccountBasic)
        ensures
            r.balance.as_nat() == 0,
            r.nonce == 0,
    {
        AccountBasic { balance: U256::zero(), nonce: 0 }
    }
}

/// One memory location of the world state.
#[derive(Clone, Copy, Debug, PartialEq, Eq, Structural, Hash)]
pub enum MemoryLocation {
    /// Balance, nonce and code-hash slot of an account.
    Basic(Address),
    /// Hash of the account's deployed bytecode.
    CodeHash(Address),
    /// One 256-bit storage slot.
    Storage(Address, U256),
}

/// The write-log payload for one location.
#[derive(Clone, Copy, Debug, PartialEq, Eq, Structural)]
pub enum MemoryValue {
    /// A concrete account basic.
    Basic(AccountBasic),
    /// A concrete code hash.
    CodeHash(U256),
    /// The account's code was destroyed by this transaction.
    SelfDestructed,
    /// A concrete storage-slot value.
    Storage(U256),
    /// Pending balance subtraction on the sender of a raw transfer.
    LazySender(U256),
    /// Pending balance addition on the recipient of a raw transfer.
    LazyRecipient(U256),
    /// Pending token-balance subtraction on the sender's balance slot.
    ERC20TransferSender(U256),
    /// Pending token-balance addition on the recipient's balance slot.
    ERC20TransferRecipient(U256),
}

/// One entry of a per-location write log.
#[derive(Clone, Copy, Debug, PartialEq, Eq, Structural)]
pub enum MemoryEntry {
    /// Data written by an incarnation of the authoring transaction.
    Data(TxIncarnation, MemoryValue),
    /// Tombstone of an aborted incarnation: readers must block on the author.
    Estimate,
}

/// A transaction index together with its incarnation.
#[derive(Clone, Copy, Debug, PartialEq, Eq, Structural, Hash)]
pub struct TxVersion {
    pub tx_idx: TxIdx,
    pub tx_incarnation: TxIncarnation,
}

/// Where a single read was resolved from.
#[derive(Clone, Copy, Debug, PartialEq, Eq, Structural)]
pub enum ReadOrigin {
    /// Resolved from the write of a specific prior incarnation.
    MvMemory(TxVersion),
    /// Resolved from pre-block storage.
    Storage,
}

/// The read set of one execution: per location, the ordered origins its
/// reads resolved from.
#[derive(Clone, Debug, PartialEq, Eq)]
pub struct ReadSet {
    pub entries: Vec<(MemoryLocation, Vec<ReadOrigin>)>,
}

/// First match in a read-set list.
pub open spec fn assoc_origins(s: Seq<(MemoryLocation, Vec<ReadOrigin>)>, loc: MemoryLocation) -> Option<
    Seq<ReadOrigin>,
>
    decreases s.len(),
{
    if s.len() == 0 {
        None
    } else if s[0].0 == loc {
        Some(s[0].1@)
    } else {
        assoc_origins(s.skip(1), loc)
    }
}

impl ReadSet {
    /// The origins recorded for `loc`, if any read touched it.
    pub open spec fn origins_of(self, loc: MemoryLocation) -> Option<Seq<ReadOrigin>> {
        assoc_origins(self.entries@, loc)
    }

    /// Locations never repeat.
    pub open spec fn wf(self) -> bool {
        forall|i: int, j: int|
            0 <= i < j < self.entries@.len() ==> #[trigger] self.entries@[i].0 != #[trigger] self.entries@[j].0
    }

    pub fn new() -> (r: ReadSet)
        ensures
            r.entries@.len() == 0,
            r.wf(),
    {
        ReadSet { entries: Vec::new() }
    }

    /// Number of locations read.
    pub fn len(&self) -> (r: usize)
        ensures
            r == self.entries@.len(),
    {
        self.entries.len()
    }

    fn find_index(&self, loc: &MemoryLocation) -> (r: Option<usize>)
        ensures
            match r {
                Some(i) => 0 <= i < self.entries@.len() && self.entries@[i as int].0 == *loc
                    && self.origins_of(*loc) == Some(self.entries@[i as int].1@),
                None => self.origins_of(*loc) is None,
            },
    {
        let n = self.entries.len();
        let mut i: usize = 0;
        proof {
            assert(self.entries@.skip(0) =~= self.entries@);
        }
        while i < n
            invariant
                i <= n == self.entries@.len(),
                assoc_origins(self.entries@, *loc) == assoc_origins(
                    self.entries@.skip(i as int),
                    *loc,
                ),
                forall|j: int| 0 <= j < i ==> #[trigger] self.entries@[j].0 != *loc,
            decreases n - i,
        {
            proof {
                assert(self.entries@.skip(i as int)[0] == self.entries@[i as int]);
                assert(self.entries@.skip(i as int).skip(1) =~= self.entries@.skip(i + 1));
            }
            if self.entries[i].0 == *loc {
                return Some(i);
            }
            i = i + 1;
        }
        None
    }

    /// The origins recorded for `loc`.
    pub fn get(&self, loc: &MemoryLocation) -> (r: Option<&Vec<ReadOrigin>>)
        ensures
            match r {
                Some(v) => self.origins_of(*loc) == Some(v@),
                None => self.origins_of(*loc) is None,
            },
    {
        match self.find_index(loc) {
            Some(i) => Some(&self.entries[i].1),
            None => None,
        }
    }

    /// Records `origins` as the origin list of `loc`, replacing any prior one.
    pub fn set(&mut self, loc: MemoryLocation, origins: Vec<ReadOrigin>)
        requires
            old(self).wf(),
        ensures
            final(self).wf(),
            final(self).origins_of(loc) == Some(origins@),
            forall|l2: MemoryLocation|
                l2 != loc ==> #[trigger] final(self).origins_of(l2) == old(self).origins_of(l2),
    {
        let found = self.find_index(&loc);
        match found {
            Some(i) => {
                self.entries.set(i, (loc, origins));
                proof {
                    lemma_assoc_origins_update(old(self).entries@, final(self).entries@, i as int, loc);
                }
            },
            None => {
                proof {
                    lemma_assoc_origins_none(old(self).entries@, loc);
                }
                self.entries.push((loc, origins));
                proof {
                    lemma_assoc_origins_push(old(self).entries@, loc, origins);
                }
            },
        }
    }
}

/// An absent location occurs nowhere in the list.
proof fn lemma_assoc_origins_none(s: Seq<(MemoryLocation, Vec<ReadOrigin>)>, loc: MemoryLocation)
    requires
        assoc_origins(s, loc) is None,
    ensures
        forall|j: int| 0 <= j < s.len() ==> #[trigger] s[j].0 != loc,
    decreases s.len(),
{
    if s.len() > 0 {
        lemma_assoc_origins_none(s.skip(1), loc);
        assert forall|j: int| 0 <= j < s.len() implies #[trigger] s[j].0 != loc by {
            if j > 0 {
                assert(s.skip(1)[j - 1] == s[j]);
            }
        }
    }
}

/// Updating index `i` (which holds `loc`) rewrites only `loc`'s origins,
/// provided locations are unique.
proof fn lemma_assoc_origins_update(
    s: Seq<(MemoryLocation, Vec<ReadOrigin>)>,
    t: Seq<(MemoryLocation, Vec<ReadOrigin>)>,
    i: int,
    loc: MemoryLocation,
)
    requires
        0 <= i < s.len(),
        t.len() == s.len(),
        s[i].0 == loc,
        t[i].0 == loc,
        forall|j: int| 0 <= j < s.len() && j != i ==> t[j] == s[j],
        forall|a: int, b: int| 0 <= a < b < s.len() ==> #[trigger] s[a].0 != #[trigger] s[b].0,
    ensures
        assoc_origins(t, loc) == Some(t[i].1@),
        forall|l2: MemoryLocation| l2 != loc ==> #[trigger] assoc_origins(t, l2) == assoc_origins(s, l2),
    decreases s.len(),
{
    if i == 0 {
        assert forall|l2: MemoryLocation| l2 != loc implies #[trigger] assoc_origins(t, l2)
            == assoc_origins(s, l2) by {
            assert(t.skip(1) =~= s.skip(1));
        }
    } else {
        lemma_assoc_origins_update(s.skip(1), t.skip(1), i - 1, loc);
        assert(t[0] == s[0]);
        assert(s[0].0 != loc);
        assert(t.skip(1)[i - 1].1@ == t[i].1@);
        assert forall|l2: MemoryLocation| l2 != loc implies #[trigger] assoc_origins(t, l2)
            == assoc_origins(s, l2) by {
            if s[0].0 != l2 {
                assert(assoc_origins(t.skip(1), l2) == assoc_origins(s.skip(1), l2));
            }
        }
    }
}

/// Appending a location absent from the list adds its origins and keeps the
/// rest.
proof fn lemma_assoc_origins_push(
    s: Seq<(MemoryLocation, Vec<ReadOrigin>)>,
    loc: MemoryLocation,
    origins: Vec<ReadOrigin>,
)
    requires
        assoc_origins(s, loc) is None,
    ensures
        assoc_origins(s.push((loc, origins)), loc) == Some(origins@),
        forall|l2: MemoryLocation|
            l2 != loc ==> #[trigger] assoc_origins(s.push((loc, origins)), l2) == assoc_origins(
                s,
                l2,
            ),
    decreases s.len(),
{
    let t = s.push((loc, origins));
    if s.len() == 0 {
        assert forall|l2: MemoryLocation| l2 != loc implies #[trigger] assoc_origins(t, l2)
            == assoc_origins(s, l2) by {
            assert(t[0].0 == loc);
            assert(t.skip(1) =~= Seq::<(MemoryLocation, Vec<ReadOrigin>)>::empty());
            assert(assoc_origins(t.skip(1), l2) is None);
        }
        assert(t[0].0 == loc);
    } else {
        assert(s[0].0 != loc);
        lemma_assoc_origins_push(s.skip(1), loc, origins);
        assert(t.skip(1) =~= s.skip(1).push((loc, origins)));
        assert(t[0] == s[0]);
        assert(assoc_origins(t.skip(1), loc) == Some(origins@));
        assert forall|l2: MemoryLocation| l2 != loc implies #[trigger] assoc_origins(t, l2)
            == assoc_origins(s, l2) by {
            if s[0].0 != l2 {
                assert(assoc_origins(t.skip(1), l2) == assoc_origins(s.skip(1), l2));
            }
        }
    }
}

/// Errors raised while a transaction's reads are served.
#[derive(Clone, Debug, PartialEq, Eq)]
pub enum ReadError {
    /// The entry of a lower, aborted transaction was hit: block on it.
    BlockingIndex(TxIdx),
    /// A repeated read resolved from different origins than before.
    InconsistentRead,
    /// A read observed destroyed bytecode.
    SelfDestructedAccount,
    /// A value of the wrong kind sat in the log.
    InvalidMemoryLocationType,
    /// The first transaction's sender nonce does not match its state.
    InvalidNonce,
    /// The underlying storage failed.
    StorageError(String),
}

} // verus!
