//! Read-only access to the pre-block world state.
//!
//! Backends implement [`Storage`]; each read either fails (surfaced by the
//! core as a storage error) or returns exactly the value of the backend's
//! model. [`InMemoryStorage`] is the plain vector-backed implementation.

use vstd::prelude::*;
use crate::types::{AccountBasic, Address};
use crate::uint::U256;

verus! {

/// Read-only pre-block state. Every successful read agrees with the
/// backend's own model maps, which do not change over the block.
pub trait Storage {
    /// Account basics; `None` is an absent account.
    spec fn basics(&self) -> Map<Address, Option<AccountBasic>>;

    /// Code hash per account; `None` is an account without code.
    spec fn code_hashes(&self) -> Map<Address, Option<U256>>;

    /// Bytecode by code hash.
    spec fn codes(&self) -> Map<U256, Option<Seq<u8>>>;

    /// Whether the account has any occupied storage slot.
    spec fn storage_flags(&self) -> Map<Address, bool>;

    /// Storage slots; absent slots are zero.
    spec fn storages(&self) -> Map<(Address, U256), U256>;

    /// Hash of an ancestor block by number.
    spec fn block_hash_map(&self) -> Map<u64, U256>;

    fn basic(&self, address: &Address) -> (r: Result<Option<AccountBasic>, String>)
        ensures
            (r matches Ok(v) ==> v == self.basics()[*address]),
    ;

    fn code_hash(&self, address: &Address) -> (r: Result<Option<U256>, String>)
        ensures
            (r matches Ok(v) ==> v == self.code_hashes()[*address]),
    ;

    fn code_by_hash(&self, code_hash: &U256) -> (r: Result<Option<Vec<u8>>, String>)
        ensures
            (r matches Ok(v) ==> match v {
                Some(c) => self.codes()[*code_hash] == Some(c@),
                None => self.codes()[*code_hash] is None,
            }),
    ;

    fn has_storage(&self, address: &Address) -> (r: Result<bool, String>)
        ensures
            (r matches Ok(v) ==> v == self.storage_flags()[*address]),
    ;

    fn storage(&self, address: &Address, index: &U256) -> (r: Result<U256, String>)
        ensures
            (r matches Ok(v) ==> v == self.storages()[(*address, *index)]),
    ;

    fn block_hash(&self, number: &u64) -> (r: Result<U256, String>)
        ensures
            (r matches Ok(v) ==> v == self.block_hash_map()[*number]),
    ;
}

/// One account of the in-memory pre-block state.
#[derive(Clone, Debug)]
pub struct InMemoryAccount {
    pub balance: U256,
    pub nonce: u64,
    pub code_hash: Option<U256>,
    pub code: Vec<u8>,
    pub storage: Vec<(U256, U256)>,
}

/// First match in an association list.
pub open spec fn assoc_acct(s: Seq<(Address, InMemoryAccount)>, a: Address) -> Option<
    InMemoryAccount,
>
    decreases s.len(),
{
    if s.len() == 0 {
        None
    } else if s[0].0 == a {
        Some(s[0].1)
    } else {
        assoc_acct(s.skip(1), a)
    }
}

/// First account whose code hash is `h`, giving its code.
pub open spec fn assoc_code(s: Seq<(Address, InMemoryAccount)>, h: U256) -> Option<Seq<u8>>
    decreases s.len(),
{
    if s.len() == 0 {
        None
    } else if s[0].1.code_hash == Some(h) {
        Some(s[0].1.code@)
    } else {
        assoc_code(s.skip(1), h)
    }
}

/// First match in a slot list.
pub open spec fn assoc_slot(s: Seq<(U256, U256)>, k: U256) -> Option<U256>
    decreases s.len(),
{
    if s.len() == 0 {
        None
    } else if s[0].0 == k {
        Some(s[0].1)
    } else {
        assoc_slot(s.skip(1), k)
    }
}

/// First match in a block-hash list.
pub open spec fn assoc_hash(s: Seq<(u64, U256)>, k: u64) -> Option<U256>
    decreases s.len(),
{
    if s.len() == 0 {
        None
    } else if s[0].0 == k {
        Some(s[0].1)
    } else {
        assoc_hash(s.skip(1), k)
    }
}

/// Vector-backed pre-block state.
#[derive(Clone, Debug)]
pub struct InMemoryStorage {
    pub accounts: Vec<(Address, InMemoryAccount)>,
    pub block_hashes: Vec<(u64, U256)>,
}

impl InMemoryStorage {
    pub open spec fn acct_of(&self, a: Address) -> Option<InMemoryAccount> {
        assoc_acct(self.accounts@, a)
    }

    pub fn new() -> (r: InMemoryStorage)
        ensures
            r.accounts@.len() == 0,
            r.block_hashes@.len() == 0,
    {
        InMemoryStorage { accounts: Vec::new(), block_hashes: Vec::new() }
    }

    /// Finds the account stored under `a`.
    fn find_account(&self, a: &Address) -> (r: Option<&InMemoryAccount>)
        ensures
            match r {
                Some(acct) => self.acct_of(*a) == Some(*acct),
                None => self.acct_of(*a) is None,
            },
    {
        let n = self.accounts.len();
        let mut i: usize = 0;
        proof {
            assert(self.accounts@.skip(0) =~= self.accounts@);
        }
        while i < n
            invariant
                i <= n == self.accounts@.len(),
                assoc_acct(self.accounts@, *a) == assoc_acct(self.accounts@.skip(i as int), *a),
            decreases n - i,
        {
            proof {
                assert(self.accounts@.skip(i as int)[0] == self.accounts@[i as int]);
                assert(self.accounts@.skip(i as int).skip(1) =~= self.accounts@.skip(i + 1));
            }
            if self.accounts[i].0 == *a {
                return Some(&self.accounts[i].1);
            }
            i = i + 1;
        }
        None
    }
}

impl Storage for InMemoryStorage {
    open spec fn basics(&self) -> Map<Address, Option<AccountBasic>> {
        Map::new(
            |a: Address| true,
            |a: Address|
                match assoc_acct(self.accounts@, a) {
                    Some(acct) => Some(AccountBasic { balance: acct.balance, nonce: acct.nonce }),
                    None => None,
                },
        )
    }

    open spec fn code_hashes(&self) -> Map<Address, Option<U256>> {
        Map::new(
            |a: Address| true,
            |a: Address|
                match assoc_acct(self.accounts@, a) {
                    Some(acct) => acct.code_hash,
                    None => None,
                },
        )
    }

    open spec fn codes(&self) -> Map<U256, Option<Seq<u8>>> {
        Map::new(|h: U256| true, |h: U256| assoc_code(self.accounts@, h))
    }

    open spec fn storage_flags(&self) -> Map<Address, bool> {
        Map::new(
            |a: Address| true,
            |a: Address|
                match assoc_acct(self.accounts@, a) {
                    Some(acct) => acct.storage@.len() > 0,
                    None => false,
                },
        )
    }

    open spec fn storages(&self) -> Map<(Address, U256), U256> {
        Map::new(
            |k: (Address, U256)| true,
            |k: (Address, U256)|
                match assoc_acct(self.accounts@, k.0) {
                    Some(acct) => match assoc_slot(acct.storage@, k.1) {
                        Some(v) => v,
                        None => U256 { hi: 0, lo: 0 },
                    },
                    None => U256 { hi: 0, lo: 0 },
                },
        )
    }

    open spec fn block_hash_map(&self) -> Map<u64, U256> {
        Map::new(
            |n: u64| true,
            |n: u64|
                match assoc_hash(self.block_hashes@, n) {
                    Some(h) => h,
                    None => U256 { hi: 0, lo: 0 },
                },
        )
    }

    fn basic(&self, address: &Address) -> (r: Result<Option<AccountBasic>, String>)
        ensures
            r matches Ok(v) && v == self.basics()[*address],
    {
        match self.find_account(address) {
            Some(acct) => Ok(Some(AccountBasic { balance: acct.balance, nonce: acct.nonce })),
            None => Ok(None),
        }
    }

    fn code_hash(&self, address: &Address) -> (r: Result<Option<U256>, String>)
        ensures
            r matches Ok(v) && v == self.code_hashes()[*address],
    {
        match self.find_account(address) {
            Some(acct) => Ok(acct.code_hash),
            None => Ok(None),
        }
    }

    fn code_by_hash(&self, code_hash: &U256) -> (r: Result<Option<Vec<u8>>, String>)
        ensures
            r matches Ok(v) && (match v {
                Some(c) => self.codes()[*code_hash] == Some(c@),
                None => self.codes()[*code_hash] is None,
            }),
    {
        let n = self.accounts.len();
        let mut i: usize = 0;
        proof {
            assert(self.accounts@.skip(0) =~= self.accounts@);
        }
        while i < n
            invariant
                i <= n == self.accounts@.len(),
                assoc_code(self.accounts@, *code_hash) == assoc_code(
                    self.accounts@.skip(i as int),
                    *code_hash,
                ),
            decreases n - i,
        {
            proof {
                assert(self.accounts@.skip(i as int)[0] == self.accounts@[i as int]);
                assert(self.accounts@.skip(i as int).skip(1) =~= self.accounts@.skip(i + 1));
            }
            match &self.accounts[i].1.code_hash {
                Some(h) => {
                    if h.hi == code_hash.hi && h.lo == code_hash.lo {
                        return Ok(Some(self.accounts[i].1.code.clone()));
                    }
                },
                None => {},
            }
            i = i + 1;
        }
        Ok(None)
    }

    fn has_storage(&self, address: &Address) -> (r: Result<bool, String>)
        ensures
            r matches Ok(v) && v == self.storage_flags()[*address],
    {
        match self.find_account(address) {
            Some(acct) => Ok(acct.storage.len() > 0),
            None => Ok(false),
        }
    }

    fn storage(&self, address: &Address, index: &U256) -> (r: Result<U256, String>)
        ensures
            r matches Ok(v) && v == self.storages()[(*address, *index)],
    {
        match self.find_account(address) {
            Some(acct) => {
                let m = acct.storage.len();
                let mut i: usize = 0;
                proof {
                    assert(acct.storage@.skip(0) =~= acct.storage@);
                }
                while i < m
                    invariant
                        i <= m == acct.storage@.len(),
                        assoc_acct(self.accounts@, *address) == Some(*acct),
                        assoc_slot(acct.storage@, *index) == assoc_slot(
                            acct.storage@.skip(i as int),
                            *index,
                        ),
                    decreases m - i,
                {
                    proof {
                        assert(acct.storage@.skip(i as int)[0] == acct.storage@[i as int]);
                        assert(acct.storage@.skip(i as int).skip(1) =~= acct.storage@.skip(i + 1));
                    }
                    if acct.storage[i].0 == *index {
                        return Ok(acct.storage[i].1);
                    }
                    i = i + 1;
                }
                Ok(U256 { hi: 0, lo: 0 })
            },
            None => Ok(U256 { hi: 0, lo: 0 }),
        }
    }

    fn block_hash(&self, number: &u64) -> (r: Result<U256, String>)
        ensures
            r matches Ok(v) && v == self.block_hash_map()[*number],
    {
        let n = self.block_hashes.len();
        let mut i: usize = 0;
        proof {
            assert(self.block_hashes@.skip(0) =~= self.block_hashes@);
        }
        while i < n
            invariant
                i <= n == self.block_hashes@.len(),
                assoc_hash(self.block_hashes@, *number) == assoc_hash(
                    self.block_hashes@.skip(i as int),
                    *number,
                ),
            decreases n - i,
        {
            proof {
                assert(self.block_hashes@.skip(i as int)[0] == self.block_hashes@[i as int]);
                assert(self.block_hashes@.skip(i as int).skip(1) =~= self.block_hashes@.skip(
                    i + 1));
            }
            if self.block_hashes[i].0 == *number {
                return Ok(self.block_hashes[i].1);
            }
            i = i + 1;
        }
        Ok(U256 { hi: 0, lo: 0 })
    }
}

} // verus!
