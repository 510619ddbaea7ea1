//! The per-execution database state: serves every read of the evaluator
//! from the multi-version log and pre-block storage, records the exact
//! origin of each read, and takes the lazy fast paths for plain transfers.

use vstd::prelude::*;
use crate::mv_memory::{assoc_log, lower_bound, MvMemory};
use crate::storage::Storage;
use crate::types::{
    AccountBasic, Address, MemoryEntry, MemoryLocation, MemoryValue, ReadError, ReadOrigin,
    ReadSet, TxIdx, TxVersion,
};
use crate::uint::{pow256, U256};
use crate::walk::{
    basic_walk, basic_walk_bounded, sig, storage_walk, BasicWalk, BasicWalkExec, StorageWalk,
    StorageWalkExec,
};

verus! {

/// The fast-path classification of one transaction.
#[derive(Clone, Copy, Debug, PartialEq, Eq, Structural)]
pub enum LazyStrategy {
    /// Ordinary execution: nothing is deferred.
    Direct,
    /// A plain value transfer to an account without code: balance changes
    /// are deferred as lazy deltas.
    RawTransfer,
    /// A standard token transfer: the two balance-slot writes are deferred.
    ERC20Transfer { sender_balance_slot: U256, recipient_balance_slot: U256, amount: U256 },
}

/// What a basic read hands to the evaluator.
#[derive(Clone, Debug, PartialEq, Eq)]
pub struct AccountInfoL {
    pub balance: U256,
    pub nonce: u64,
    pub code_hash: Option<U256>,
    pub code: Option<Vec<u8>>,
}

/// What the log shows for a code-hash read: the nearest prior entry
/// decides; a tombstone blocks on its author, and anything but concrete
/// code data falls back to storage.
pub enum CodeHashWalk {
    Blocked { blocking_idx: TxIdx },
    SelfDestructFound,
    FromMv { h: U256, o: ReadOrigin },
    Fallback,
}

/// The code-hash walk looks only at the nearest prior entry.
pub open spec fn code_hash_walk(below: Seq<(TxIdx, MemoryEntry)>) -> CodeHashWalk {
    if below.len() == 0 {
        CodeHashWalk::Fallback
    } else {
        match below.last().1 {
            MemoryEntry::Estimate => CodeHashWalk::Blocked { blocking_idx: below.last().0 },
            MemoryEntry::Data(inc, MemoryValue::SelfDestructed) => CodeHashWalk::SelfDestructFound,
            MemoryEntry::Data(inc, MemoryValue::CodeHash(h)) => CodeHashWalk::FromMv {
                h,
                o: ReadOrigin::MvMemory(
                    TxVersion { tx_idx: below.last().0, tx_incarnation: inc },
                ),
            },
            _ => CodeHashWalk::Fallback,
        }
    }
}

/// The prior origins recorded for a location, or empty.
pub open spec fn prior_origins(rs: ReadSet, loc: MemoryLocation) -> Seq<ReadOrigin> {
    match rs.origins_of(loc) {
        Some(os) => os,
        None => Seq::empty(),
    }
}

/// A single-origin read passes the consistency check when no prior origin
/// is recorded or the last recorded origin is the same.
pub open spec fn single_origin_ok(prior: Seq<ReadOrigin>, o: ReadOrigin) -> bool {
    prior.len() == 0 || prior.last() == o
}

/// What the origins of a location become after a single-origin read.
pub open spec fn single_origin_after(prior: Seq<ReadOrigin>, o: ReadOrigin) -> Seq<ReadOrigin> {
    if prior.len() == 0 {
        seq![o]
    } else {
        prior
    }
}

/// Whether `a` is a prefix of `b`.
pub open spec fn is_origin_prefix(a: Seq<ReadOrigin>, b: Seq<ReadOrigin>) -> bool {
    a.len() <= b.len() && (forall|k: int| 0 <= k < a.len() ==> a[k] == b[k])
}

/// The sender nonce after lazy increments, wrapping as the machine does.
pub open spec fn wrap_add64(a: u64, b: u64) -> nat {
    ((a + b) as nat) % 0x1_0000_0000_0000_0000nat
}

/// Checks whether `a` is a prefix of `b`.
fn origins_prefix(a: &Vec<ReadOrigin>, b: &Vec<ReadOrigin>) -> (r: bool)
    ensures
        r == is_origin_prefix(a@, b@),
{
    let n = a.len();
    if n > b.len() {
        return false;
    }
    let mut i: usize = 0;
    while i < n
        invariant
            i <= n == a@.len(),
            n <= b@.len(),
            forall|k: int| 0 <= k < i ==> a@[k] == b@[k],
        decreases n - i,
    {
        if a[i] != b[i] {
            return false;
        }
        i = i + 1;
    }
    true
}

/// The read state of one transaction execution.
pub struct VmDb {
    pub tx_idx: TxIdx,
    pub nonce: u64,
    pub from: Address,
    pub to: Option<Address>,
    pub to_code_hash: Option<U256>,
    pub lazy_strategy: LazyStrategy,
    pub read_set: ReadSet,
    pub read_accounts: Vec<(MemoryLocation, (AccountBasic, Option<U256>))>,
}

impl VmDb {
    pub open spec fn wf(self) -> bool {
        self.read_set.wf()
    }

    /// Pushes `o` as the origin of `loc` unless an inconsistent origin is
    /// already recorded, which forces a re-execution.
    fn push_origin(&mut self, loc: MemoryLocation, o: ReadOrigin) -> (r: Result<(), ReadError>)
        requires
            old(self).wf(),
        ensures
            final(self).wf(),
            final(self).tx_idx == old(self).tx_idx,
            final(self).nonce == old(self).nonce,
            final(self).from == old(self).from,
            final(self).to == old(self).to,
            final(self).to_code_hash == old(self).to_code_hash,
            final(self).lazy_strategy == old(self).lazy_strategy,
            final(self).read_accounts@ == old(self).read_accounts@,
            single_origin_ok(prior_origins(old(self).read_set, loc), o) ==> r == Ok::<
                (),
                ReadError,
            >(()) && final(self).read_set.origins_of(loc) == Some(
                single_origin_after(prior_origins(old(self).read_set, loc), o),
            ) && (forall|l2: MemoryLocation|
                l2 != loc ==> #[trigger] final(self).read_set.origins_of(l2) == old(self).read_set.origins_of(l2)),
            !single_origin_ok(prior_origins(old(self).read_set, loc), o) ==> r == Err::<
                (),
                ReadError,
            >(ReadError::InconsistentRead) && final(self).read_set == old(self).read_set,
    {
        let has = self.read_set.get(&loc);
        match has {
            Some(v) => {
                if v.len() > 0 {
                    let last = v[v.len() - 1];
                    if last == o {
                        Ok(())
                    } else {
                        Err(ReadError::InconsistentRead)
                    }
                } else {
                    let mut os: Vec<ReadOrigin> = Vec::new();
                    os.push(o);
                    proof {
                        assert(os@ =~= seq![o]);
                    }
                    self.read_set.set(loc, os);
                    Ok(())
                }
            },
            None => {
                let mut os: Vec<ReadOrigin> = Vec::new();
                os.push(o);
                proof {
                    assert(os@ =~= seq![o]);
                }
                self.read_set.set(loc, os);
                Ok(())
            },
        }
    }

    /// Reads the code hash of `address`: the nearest prior write decides;
    /// a tombstone blocks on its author, destroyed code escalates, and
    /// otherwise pre-block storage answers.
    pub fn get_code_hash<S: Storage>(
        &mut self,
        mv: &MvMemory,
        sto: &S,
        address: Address,
    ) -> (r: Result<Option<U256>, ReadError>)
        requires
            old(self).wf(),
            mv.wf(),
        ensures
            final(self).wf(),
            final(self).tx_idx == old(self).tx_idx,
            final(self).nonce == old(self).nonce,
            final(self).from == old(self).from,
            final(self).to == old(self).to,
            final(self).to_code_hash == old(self).to_code_hash,
            final(self).lazy_strategy == old(self).lazy_strategy,
            final(self).read_accounts@ == old(self).read_accounts@,
            forall|l2: MemoryLocation|
                l2 != MemoryLocation::CodeHash(address) ==> #[trigger] final(self).read_set.origins_of(
                    l2,
                ) == old(self).read_set.origins_of(l2),
            ({
                let loc = MemoryLocation::CodeHash(address);
                let below = mv.log_of(loc).take(lower_bound(mv.log_of(loc), old(self).tx_idx));
                let prior = prior_origins(old(self).read_set, loc);
                match code_hash_walk(below) {
                    CodeHashWalk::Blocked { blocking_idx } => r == Err::<Option<U256>, ReadError>(
                        ReadError::BlockingIndex(blocking_idx),
                    ) && final(self).read_set == old(self).read_set,
                    CodeHashWalk::SelfDestructFound => r == Err::<Option<U256>, ReadError>(
                        ReadError::SelfDestructedAccount,
                    ) && final(self).read_set == old(self).read_set,
                    CodeHashWalk::FromMv { h, o } => if single_origin_ok(prior, o) {
                        r == Ok::<Option<U256>, ReadError>(Some(h)) && final(self).read_set.origins_of(loc) == Some(single_origin_after(prior, o)) && (
                        forall|l2: MemoryLocation|
                            l2 != loc ==> #[trigger] final(self).read_set.origins_of(l2) == old(self).read_set.origins_of(l2))
                    } else {
                        r == Err::<Option<U256>, ReadError>(ReadError::InconsistentRead) && final(self).read_set == old(self).read_set
                    },
                    CodeHashWalk::Fallback => if single_origin_ok(prior, ReadOrigin::Storage) {
                        match r {
                            Ok(v) => v == sto.code_hashes()[address] && final(self).read_set.origins_of(loc) == Some(
                                single_origin_after(prior, ReadOrigin::Storage),
                            ) && (forall|l2: MemoryLocation|
                                l2 != loc ==> #[trigger] final(self).read_set.origins_of(l2)
                                    == old(self).read_set.origins_of(l2)),
                            Err(e) => e is StorageError,
                        }
                    } else {
                        r == Err::<Option<U256>, ReadError>(ReadError::InconsistentRead) && final(self).read_set == old(self).read_set
                    },
                }
            }),
    {
        let loc = MemoryLocation::CodeHash(address);
        let log_opt = mv.log_entries(&loc);
        match log_opt {
            Some(entries) => {
                proof {
                    crate::mv_memory::lemma_log_entries_sorted(mv.data@, loc);
                }
                let p = crate::mv_memory::find_lower_bound(entries, self.tx_idx);
                proof {
                    crate::mv_memory::lemma_lower_bound_nonneg(entries@, self.tx_idx);
                    if p > 0 {
                        assert(entries@.take(p as int).last() == entries@[p - 1]);
                    }
                }
                if p > 0 {
                    let (idx, entry) = entries[p - 1];
                    match entry {
                        MemoryEntry::Estimate => {
                            return Err(ReadError::BlockingIndex(idx));
                        },
                        MemoryEntry::Data(inc, MemoryValue::SelfDestructed) => {
                            return Err(ReadError::SelfDestructedAccount);
                        },
                        MemoryEntry::Data(inc, MemoryValue::CodeHash(h)) => {
                            let o = ReadOrigin::MvMemory(
                                TxVersion { tx_idx: idx, tx_incarnation: inc },
                            );
                            match self.push_origin(loc, o) {
                                Ok(_) => {
                                    return Ok(Some(h));
                                },
                                Err(e) => {
                                    return Err(e);
                                },
                            }
                        },
                        _ => {},
                    }
                }
            },
            None => {
                proof {
                    assert(mv.log_of(loc).take(
                        lower_bound(mv.log_of(loc), self.tx_idx),
                    ) =~= Seq::<(TxIdx, MemoryEntry)>::empty());
                }
            },
        }
        match self.push_origin(loc, ReadOrigin::Storage) {
            Ok(_) => {},
            Err(e) => {
                return Err(e);
            },
        }
        match sto.code_hash(&address) {
            Ok(v) => Ok(v),
            Err(msg) => Err(ReadError::StorageError(msg)),
        }
    }

    /// Whether a basic read of `address` takes the raw-transfer fast path.
    pub open spec fn is_mock_read(self, address: Address) -> bool {
        self.lazy_strategy is RawTransfer && (address == self.from || self.to == Some(address))
    }

    /// Serves the evaluator's read of an account's balance, nonce and code.
    ///
    /// Under the raw-transfer fast path the sender is answered with a
    /// sentinel of unbounded balance and the recipient with no account, so
    /// that the evaluator's balance writes can be re-expressed as lazy
    /// deltas. Every other read walks the multi-version log below this
    /// transaction, sums pending lazy deltas onto the nearest concrete
    /// basic (or the pre-block one), checks the recorded read origins for
    /// consistency, verifies the sender nonce, and resolves the account's
    /// code.
    pub fn basic<S: Storage>(
        &mut self,
        mv: &MvMemory,
        sto: &S,
        address: Address,
    ) -> (r: Result<Option<AccountInfoL>, ReadError>)
        requires
            old(self).wf(),
            mv.wf(),
        ensures
            final(self).wf(),
            final(self).tx_idx == old(self).tx_idx,
            final(self).nonce == old(self).nonce,
            final(self).from == old(self).from,
            final(self).to == old(self).to,
            final(self).to_code_hash == old(self).to_code_hash,
            final(self).lazy_strategy == old(self).lazy_strategy,
            // raw-transfer fast paths
            (old(self).lazy_strategy is RawTransfer && address == old(self).from) ==> r == Ok::<
                Option<AccountInfoL>,
                ReadError,
            >(
                Some(
                    AccountInfoL {
                        balance: U256 { hi: u128::MAX, lo: u128::MAX },
                        nonce: old(self).nonce,
                        code_hash: None,
                        code: None,
                    },
                ),
            ) && final(self).read_set == old(self).read_set && final(self).read_accounts@ == old(self).read_accounts@,
            (old(self).lazy_strategy is RawTransfer && address != old(self).from && old(self).to
                == Some(address)) ==> r == Ok::<Option<AccountInfoL>, ReadError>(None) && final(self).read_set == old(self).read_set && final(self).read_accounts@ == old(self).read_accounts@,
            // ordinary reads
            !old(self).is_mock_read(address) ==> ({
                let loc = MemoryLocation::Basic(address);
                let below = mv.log_of(loc).take(lower_bound(mv.log_of(loc), old(self).tx_idx));
                let w = basic_walk(below);
                let bounded = basic_walk_bounded(below, 0);
                let prior = prior_origins(old(self).read_set, loc);
                let has_prev = prior.len() > 0;
                match w {
                    BasicWalk::Blocked { blocking_idx } => r == Err::<
                        Option<AccountInfoL>,
                        ReadError,
                    >(ReadError::BlockingIndex(blocking_idx)) && final(self).read_set == old(self).read_set
                        && final(self).read_accounts@ == old(self).read_accounts@,
                    BasicWalk::Invalid => r == Err::<Option<AccountInfoL>, ReadError>(
                        ReadError::InvalidMemoryLocationType,
                    ) && final(self).read_set == old(self).read_set && final(self).read_accounts@
                        == old(self).read_accounts@,
                    BasicWalk::Found { base, delta, nonce_add, origins } => {
                        let fin = if has_prev {
                            prior
                        } else {
                            origins
                        };
                        if has_prev && !is_origin_prefix(origins, prior) {
                            r == Err::<Option<AccountInfoL>, ReadError>(ReadError::InconsistentRead)
                                && final(self).read_set == old(self).read_set && final(self).read_accounts@
                                == old(self).read_accounts@
                        } else {
                            basic_resolved(
                                *old(self),
                                *final(self),
                                r,
                                mv,
                                sto.codes(),
                                address,
                                base,
                                delta,
                                nonce_add,
                                bounded,
                                fin,
                            )
                        }
                    },
                    BasicWalk::Empty { delta, nonce_add, origins } => {
                        let full = origins.push(ReadOrigin::Storage);
                        if has_prev && prior != full {
                            r == Err::<Option<AccountInfoL>, ReadError>(ReadError::InconsistentRead)
                                && final(self).read_set == old(self).read_set && final(self).read_accounts@
                                == old(self).read_accounts@
                        } else {
                            match sto.basics()[address] {
                                Some(base) => (r matches Err(e) && e is StorageError)
                                    || basic_resolved(
                                    *old(self),
                                    *final(self),
                                    r,
                                    mv,
                                    sto.codes(),
                                    address,
                                    base,
                                    delta,
                                    nonce_add,
                                    bounded,
                                    full,
                                ),
                                None => (r matches Err(e) && e is StorageError) || ((bounded
                                    && delta == 0) ==> (r == Ok::<Option<AccountInfoL>, ReadError>(
                                    None,
                                ) && final(self).read_set.origins_of(loc) == Some(full))) && ((
                                bounded && delta != 0) ==> basic_resolved(
                                    *old(self),
                                    *final(self),
                                    r,
                                    mv,
                                    sto.codes(),
                                    address,
                                    AccountBasic { balance: U256 { hi: 0, lo: 0 }, nonce: 0 },
                                    delta,
                                    nonce_add,
                                    bounded,
                                    full,
                                )),
                            }
                        }
                    },
                }
            }),
    {
        let loc = MemoryLocation::Basic(address);
        let ghost below_g = mv.log_of(loc).take(lower_bound(mv.log_of(loc), self.tx_idx));
        let ghost w_g = basic_walk(below_g);
        let ghost bounded_g = basic_walk_bounded(below_g, 0);

        // Fast paths for lazily updated raw transfers.
        if matches!(self.lazy_strategy, LazyStrategy::RawTransfer) {
            if address == self.from {
                return Ok(
                    Some(
                        AccountInfoL {
                            balance: U256::max_value(),
                            nonce: self.nonce,
                            code_hash: None,
                            code: None,
                        },
                    ),
                );
            }
            let is_to = match &self.to {
                Some(t) => *t == address,
                None => false,
            };
            if is_to {
                return Ok(None);
            }
        }

        // Walk the multi-version log below this transaction.
        let w = match mv.log_entries(&loc) {
            Some(entries) => {
                proof {
                    crate::mv_memory::lemma_log_entries_sorted(mv.data@, loc);
                }
                crate::walk::walk_basic(entries, self.tx_idx)
            },
            None => {
                proof {
                    assert(mv.log_of(loc).take(
                        lower_bound(mv.log_of(loc), self.tx_idx),
                    ) =~= Seq::<(TxIdx, MemoryEntry)>::empty());
                }
                BasicWalkExec::Empty {
                    pos: true,
                    mag: U256::zero(),
                    nonce_add: 0,
                    origins: Vec::new(),
                }
            },
        };

        let (base_opt, pos, mag, nonce_add, new_origins, from_storage) = match w {
            BasicWalkExec::Blocked(i) => {
                return Err(ReadError::BlockingIndex(i));
            },
            BasicWalkExec::Invalid => {
                return Err(ReadError::InvalidMemoryLocationType);
            },
            BasicWalkExec::Found { base, pos, mag, nonce_add, origins } => (
                Some(base),
                pos,
                mag,
                nonce_add,
                origins,
                false,
            ),
            BasicWalkExec::Empty { pos, mag, nonce_add, origins } => (
                None,
                pos,
                mag,
                nonce_add,
                origins,
                true,
            ),
        };

        // Check the new origins against any previously recorded ones.
        let mut has_prev = false;
        match self.read_set.get(&loc) {
            Some(prior) => {
                if prior.len() > 0 {
                    has_prev = true;
                    if !from_storage {
                        if !origins_prefix(&new_origins, prior) {
                            return Err(ReadError::InconsistentRead);
                        }
                    } else {
                        let ghost full = new_origins@.push(ReadOrigin::Storage);
                        let ghost ps = prior_origins(old(self).read_set, loc);
                        if prior.len() - 1 != new_origins.len() {
                            proof {
                                assert(full.len() != ps.len());
                            }
                            return Err(ReadError::InconsistentRead);
                        }
                        if !origins_prefix(&new_origins, prior) {
                            proof {
                                assert(ps != full) by {
                                    if ps == full {
                                        assert(forall|k: int|
                                            0 <= k < new_origins@.len() ==> ps[k]
                                                == #[trigger] new_origins@[k]);
                                        assert(is_origin_prefix(new_origins@, ps));
                                    }
                                }
                            }
                            return Err(ReadError::InconsistentRead);
                        }
                        let last = prior[prior.len() - 1];
                        if last != ReadOrigin::Storage {
                            proof {
                                assert(ps != full) by {
                                    if ps == full {
                                        assert(ps[ps.len() - 1] == full[full.len() - 1]);
                                    }
                                }
                            }
                            return Err(ReadError::InconsistentRead);
                        }
                        proof {
                            assert(ps.last() == ReadOrigin::Storage);
                            assert(ps =~= full);
                        }
                    }
                }
            },
            None => {},
        }

        // Resolve the base account, falling back to pre-block storage.
        let mut final_origins = new_origins;
        let base = match base_opt {
            Some(b) => b,
            None => {
                final_origins.push(ReadOrigin::Storage);
                match sto.basic(&address) {
                    Ok(Some(b)) => b,
                    Ok(None) => {
                        if !mag.is_zero() {
                            AccountBasic { balance: U256::zero(), nonce: 0 }
                        } else {
                            if !has_prev {
                                self.read_set.set(loc, final_origins);
                            }
                            return Ok(None);
                        }
                    },
                    Err(msg) => {
                        return Err(ReadError::StorageError(msg));
                    },
                }
            },
        };

        // Record the rebuilt origins on a first read.
        let ghost fin_view = final_origins@;
        if !has_prev {
            self.read_set.set(loc, final_origins);
        }

        // Check the sender nonce.
        let resolved_nonce = base.nonce.wrapping_add(nonce_add);
        proof {
            let m = 0x1_0000_0000_0000_0000nat;
            if base.nonce + nonce_add > u64::MAX {
                vstd::arithmetic::div_mod::lemma_mod_sub_multiples_vanish(
                    (base.nonce + nonce_add) as int,
                    m as int,
                );
                vstd::arithmetic::div_mod::lemma_small_mod(
                    (base.nonce + nonce_add - m) as nat,
                    m,
                );
            } else {
                vstd::arithmetic::div_mod::lemma_small_mod((base.nonce + nonce_add) as nat, m);
            }
            assert(resolved_nonce as nat == wrap_add64(base.nonce, nonce_add));
        }
        if address == self.from && resolved_nonce != self.nonce {
            if self.tx_idx > 0 {
                return Err(ReadError::BlockingIndex(self.tx_idx - 1));
            } else {
                return Err(ReadError::InvalidNonce);
            }
        }

        // Fold the lazy deltas into the balance.
        let balance = if pos {
            base.balance.wrapping_add(mag)
        } else {
            base.balance.wrapping_sub(mag)
        };
        proof {
            if bounded_g {
                let bm = base.balance.as_nat();
                let mv2 = mag.as_nat();
                let m = pow256() as int;
                if pos {
                    if bm + mv2 >= pow256() {
                        vstd::arithmetic::div_mod::lemma_mod_sub_multiples_vanish(
                            (bm + mv2) as int,
                            m,
                        );
                        vstd::arithmetic::div_mod::lemma_small_mod(
                            (bm + mv2 - pow256()) as nat,
                            pow256(),
                        );
                    } else {
                        vstd::arithmetic::div_mod::lemma_small_mod((bm + mv2) as nat, pow256());
                    }
                } else {
                    if bm >= mv2 {
                        vstd::arithmetic::div_mod::lemma_small_mod((bm - mv2) as nat, pow256());
                    } else {
                        vstd::arithmetic::div_mod::lemma_mod_add_multiples_vanish(bm - mv2, m);
                        vstd::arithmetic::div_mod::lemma_small_mod(
                            (bm - mv2 + pow256()) as nat,
                            pow256(),
                        );
                    }
                }
                assert(balance.as_nat() == (bm + sig(pos, mag)) % m);
            }
        }

        // Resolve the account's code.
        let at_to = match &self.to {
            Some(t) => *t == address,
            None => false,
        };
        let code_hash = if at_to {
            self.to_code_hash
        } else {
            match self.get_code_hash(mv, sto, address) {
                Ok(h) => h,
                Err(e) => {
                    return Err(e);
                },
            }
        };
        let code = match &code_hash {
            Some(h) => {
                match mv.get_new_bytecode(h) {
                    Some(c) => Some(crate::bytes::copy_bytes(c)),
                    None => {
                        match sto.code_by_hash(h) {
                            Ok(c) => c,
                            Err(msg) => {
                                return Err(ReadError::StorageError(msg));
                            },
                        }
                    },
                }
            },
            None => None,
        };

        // Remember what was read, to diff the write set against later.
        let resolved = AccountBasic { balance, nonce: resolved_nonce };
        self.read_accounts.push((loc, (resolved, code_hash)));
        Ok(Some(AccountInfoL { balance, nonce: resolved_nonce, code_hash, code }))
    }
}

impl VmDb {
    /// Whether a slot read takes the token fast path straight to storage.
    pub open spec fn is_erc20_slot(self, index: U256) -> bool {
        match self.lazy_strategy {
            LazyStrategy::ERC20Transfer { sender_balance_slot, recipient_balance_slot, amount } =>
                index == sender_balance_slot || index == recipient_balance_slot,
            _ => false,
        }
    }

    /// Serves the evaluator's read of one storage slot: the nearest prior
    /// concrete write, with all pending token deltas above it folded in
    /// modulo 2^256, falling back to the pre-block slot value. The origins
    /// of the slot are rebuilt on every read.
    pub fn storage<S: Storage>(
        &mut self,
        mv: &MvMemory,
        sto: &S,
        address: Address,
        index: U256,
    ) -> (r: Result<U256, ReadError>)
        requires
            old(self).wf(),
            mv.wf(),
        ensures
            final(self).wf(),
            final(self).tx_idx == old(self).tx_idx,
            final(self).nonce == old(self).nonce,
            final(self).from == old(self).from,
            final(self).to == old(self).to,
            final(self).to_code_hash == old(self).to_code_hash,
            final(self).lazy_strategy == old(self).lazy_strategy,
            final(self).read_accounts@ == old(self).read_accounts@,
            old(self).is_erc20_slot(index) ==> (match r {
                Ok(v) => v == sto.storages()[(address, index)],
                Err(e) => e is StorageError,
            }) && final(self).read_set == old(self).read_set,
            !old(self).is_erc20_slot(index) ==> ({
                let loc = MemoryLocation::Storage(address, index);
                let below = mv.log_of(loc).take(lower_bound(mv.log_of(loc), old(self).tx_idx));
                let w = storage_walk(below);
                match w {
                    StorageWalk::Blocked { blocking_idx } => r == Err::<U256, ReadError>(
                        ReadError::BlockingIndex(blocking_idx),
                    ),
                    StorageWalk::Invalid => r == Err::<U256, ReadError>(
                        ReadError::InvalidMemoryLocationType,
                    ),
                    StorageWalk::Found { base, delta, origins } => match r {
                        Ok(v) => v.as_nat() == (base.as_nat() + delta) % (pow256() as int)
                            && final(self).read_set.origins_of(loc) == Some(origins) && (forall|
                            l2: MemoryLocation,
                        |
                            l2 != loc ==> #[trigger] final(self).read_set.origins_of(l2) == old(
                                self,
                            ).read_set.origins_of(l2)),
                        Err(e) => false,
                    },
                    StorageWalk::Empty { delta, origins } => match r {
                        Ok(v) => v.as_nat() == (sto.storages()[(address, index)].as_nat() + delta)
                            % (pow256() as int) && final(self).read_set.origins_of(loc) == Some(
                            origins.push(ReadOrigin::Storage),
                        ) && (forall|l2: MemoryLocation|
                            l2 != loc ==> #[trigger] final(self).read_set.origins_of(l2) == old(
                                self,
                            ).read_set.origins_of(l2)),
                        Err(e) => e is StorageError,
                    },
                }
            }),
    {
        // Token fast path: the two deferred balance slots read straight
        // from pre-block storage.
        let fast = match &self.lazy_strategy {
            LazyStrategy::ERC20Transfer { sender_balance_slot, recipient_balance_slot, amount } =>
                index == *sender_balance_slot || index == *recipient_balance_slot,
            _ => false,
        };
        if fast {
            return match sto.storage(&address, &index) {
                Ok(v) => Ok(v),
                Err(msg) => Err(ReadError::StorageError(msg)),
            };
        }

        let loc = MemoryLocation::Storage(address, index);
        let w = match mv.log_entries(&loc) {
            Some(entries) => {
                proof {
                    crate::mv_memory::lemma_log_entries_sorted(mv.data@, loc);
                }
                crate::walk::walk_storage(entries, self.tx_idx)
            },
            None => {
                proof {
                    assert(mv.log_of(loc).take(
                        lower_bound(mv.log_of(loc), self.tx_idx),
                    ) =~= Seq::<(TxIdx, MemoryEntry)>::empty());
                }
                StorageWalkExec::Empty { acc: U256::zero(), origins: Vec::new() }
            },
        };

        match w {
            StorageWalkExec::Blocked(i) => Err(ReadError::BlockingIndex(i)),
            StorageWalkExec::Invalid => Err(ReadError::InvalidMemoryLocationType),
            StorageWalkExec::Found { base, acc, origins } => {
                let ghost delta = (match storage_walk(
                    mv.log_of(loc).take(lower_bound(mv.log_of(loc), self.tx_idx)),
                ) {
                    StorageWalk::Found { base: b2, delta, origins: o2 } => delta,
                    _ => 0,
                });
                self.read_set.set(loc, origins);
                let v = base.wrapping_add(acc);
                proof {
                    lemma_wrap_base_acc(base, acc, delta);
                }
                Ok(v)
            },
            StorageWalkExec::Empty { acc, origins } => {
                let ghost delta = (match storage_walk(
                    mv.log_of(loc).take(lower_bound(mv.log_of(loc), self.tx_idx)),
                ) {
                    StorageWalk::Empty { delta, origins: o2 } => delta,
                    _ => 0,
                });
                let base = match sto.storage(&address, &index) {
                    Ok(v) => v,
                    Err(msg) => {
                        return Err(ReadError::StorageError(msg));
                    },
                };
                let mut full = origins;
                full.push(ReadOrigin::Storage);
                self.read_set.set(loc, full);
                let v = base.wrapping_add(acc);
                proof {
                    lemma_wrap_base_acc(base, acc, delta);
                }
                Ok(v)
            },
        }
    }

    /// Reads bytecode by hash, straight from pre-block storage.
    pub fn code_by_hash<S: Storage>(&self, sto: &S, code_hash: &U256) -> (r: Result<
        Option<Vec<u8>>,
        ReadError,
    >)
        ensures
            (r matches Ok(v) ==> match v {
                Some(c) => sto.codes()[*code_hash] == Some(c@),
                None => sto.codes()[*code_hash] is None,
            }),
            (r matches Err(e) ==> e is StorageError),
    {
        match sto.code_by_hash(code_hash) {
            Ok(v) => Ok(v),
            Err(msg) => Err(ReadError::StorageError(msg)),
        }
    }

    /// Asks pre-block storage whether the account has occupied storage.
    pub fn has_storage<S: Storage>(&self, sto: &S, address: &Address) -> (r: Result<
        bool,
        ReadError,
    >)
        ensures
            (r matches Ok(v) ==> v == sto.storage_flags()[*address]),
            (r matches Err(e) ==> e is StorageError),
    {
        match sto.has_storage(address) {
            Ok(v) => Ok(v),
            Err(msg) => Err(ReadError::StorageError(msg)),
        }
    }

    /// Reads an ancestor block hash, straight from pre-block storage.
    pub fn block_hash<S: Storage>(&self, sto: &S, number: &u64) -> (r: Result<U256, ReadError>)
        ensures
            (r matches Ok(v) ==> v == sto.block_hash_map()[*number]),
            (r matches Err(e) ==> e is StorageError),
    {
        match sto.block_hash(number) {
            Ok(v) => Ok(v),
            Err(msg) => Err(ReadError::StorageError(msg)),
        }
    }
}

/// Whether call data selects the standard token transfer of amount and
/// recipient: the four selector bytes and two 32-byte words.
pub open spec fn is_erc20_transfer_input(data: Seq<u8>) -> bool {
    data.len() == 68 && data[0] == 0xa9u8 && data[1] == 0x05u8 && data[2] == 0x9cu8 && data[3]
        == 0xbbu8
}

/// The strategy a transaction is classified into, given the recipient's
/// code hash, its call data, and whether sender or recipient already have
/// entries in the multi-version log.
pub open spec fn strategy_spec(
    from: Address,
    to_code_hash: Option<U256>,
    data: Seq<u8>,
    from_in_mv: bool,
    to_in_mv: bool,
) -> LazyStrategy {
    if to_code_hash is None {
        if from_in_mv || to_in_mv {
            LazyStrategy::RawTransfer
        } else {
            LazyStrategy::Direct
        }
    } else if is_erc20_transfer_input(data) {
        LazyStrategy::ERC20Transfer {
            sender_balance_slot: crate::uint::u256_of_nat(
                crate::keccak::keccak_of(crate::keccak::erc20_balance_slot_preimage(from)),
            ),
            recipient_balance_slot: crate::uint::u256_of_nat(
                crate::keccak::keccak_of(
                    crate::keccak::erc20_balance_slot_preimage(
                        crate::types::address_of_bytes(data.subrange(16, 36)),
                    ),
                ),
            ),
            amount: crate::uint::u256_of_nat(crate::bytes::be_val(data.subrange(36, 68))),
        }
    } else {
        LazyStrategy::Direct
    }
}

impl VmDb {
    /// Builds the read state for one incarnation: resolves the recipient's
    /// code hash, classifies the transaction into its lazy strategy, and
    /// demotes a raw transfer to direct execution unless sender or
    /// recipient already have entries in the multi-version log.
    pub fn new<S: Storage>(
        mv: &MvMemory,
        sto: &S,
        tx_idx: TxIdx,
        nonce: u64,
        from: Address,
        to: Option<Address>,
        tx_data: &Vec<u8>,
    ) -> (r: Result<VmDb, ReadError>)
        requires
            mv.wf(),
        ensures
            match r {
                Ok(db) => db.wf() && db.tx_idx == tx_idx && db.nonce == nonce && db.from == from
                    && db.to == to && db.read_accounts@.len() == 0 && (match to {
                    Some(t) => {
                        let loc = MemoryLocation::CodeHash(t);
                        let below = mv.log_of(loc).take(lower_bound(mv.log_of(loc), tx_idx));
                        (match code_hash_walk(below) {
                            CodeHashWalk::FromMv { h, o } => db.to_code_hash == Some(h),
                            CodeHashWalk::Fallback => db.to_code_hash == sto.code_hashes()[t],
                            CodeHashWalk::SelfDestructFound => false,
                            CodeHashWalk::Blocked { blocking_idx } => false,
                        }) && db.lazy_strategy == strategy_spec(
                            from,
                            db.to_code_hash,
                            tx_data@,
                            assoc_log(mv.data@, MemoryLocation::Basic(from)) is Some,
                            assoc_log(mv.data@, MemoryLocation::Basic(t)) is Some,
                        )
                    },
                    None => db.to_code_hash is None && db.lazy_strategy is Direct,
                }),
                Err(e) => e is SelfDestructedAccount || e is StorageError || e
                    is InconsistentRead || e is BlockingIndex,
            },
    {
        let mut db = VmDb {
            tx_idx,
            nonce,
            from,
            to,
            to_code_hash: None,
            lazy_strategy: LazyStrategy::Direct,
            read_set: ReadSet::new(),
            read_accounts: Vec::new(),
        };
        let t = match to {
            Some(t) => t,
            None => {
                return Ok(db);
            },
        };
        let to_code_hash = match db.get_code_hash(mv, sto, t) {
            Ok(h) => h,
            Err(e) => {
                return Err(e);
            },
        };
        db.to_code_hash = to_code_hash;

        // Classify the transaction.
        match to_code_hash {
            None => {
                // Lazily update raw transfers only when the sender or the
                // recipient already live in the multi-version log: fully
                // evaluating a single-entry location later costs more than
                // executing the transfer directly.
                if mv.contains_location(&MemoryLocation::Basic(from)) || mv.contains_location(
                    &MemoryLocation::Basic(t),
                ) {
                    db.lazy_strategy = LazyStrategy::RawTransfer;
                }
            },
            Some(_) => {
                let dlen = tx_data.len();
                if dlen == 68 && tx_data[0] == 0xa9 && tx_data[1] == 0x05 && tx_data[2] == 0x9c
                    && tx_data[3] == 0xbb {
                    let recipient = Address::from_be_slice(tx_data, 16);
                    let sender_slot = crate::keccak::get_erc20_balance_slot(from);
                    let recipient_slot = crate::keccak::get_erc20_balance_slot(recipient);
                    let amount = U256::from_be_slice(tx_data, 36);
                    proof {
                        crate::uint::lemma_u256_of_nat(
                            sender_slot,
                            crate::keccak::keccak_of(
                                crate::keccak::erc20_balance_slot_preimage(from),
                            ),
                        );
                        crate::uint::lemma_u256_of_nat(
                            recipient_slot,
                            crate::keccak::keccak_of(
                                crate::keccak::erc20_balance_slot_preimage(
                                    crate::types::address_of_bytes(tx_data@.subrange(16, 36)),
                                ),
                            ),
                        );
                        crate::uint::lemma_u256_of_nat(
                            amount,
                            crate::bytes::be_val(tx_data@.subrange(36, 68)),
                        );
                    }
                    db.lazy_strategy = LazyStrategy::ERC20Transfer {
                        sender_balance_slot: sender_slot,
                        recipient_balance_slot: recipient_slot,
                        amount,
                    };
                }
            },
        }
        Ok(db)
    }
}

/// Folding an accumulator that is a delta modulo 2^256 onto a base value
/// with wrapping addition gives the base plus the delta, modulo 2^256.
pub proof fn lemma_wrap_base_acc(base: U256, acc: U256, delta: int)
    requires
        crate::walk::is_mod256(acc, delta),
    ensures
        ({
            let s = base.as_nat() + acc.as_nat();
            let w: int = if s < pow256() {
                s as int
            } else {
                s - pow256()
            };
            w == (base.as_nat() + delta) % (pow256() as int)
        }),
{
    let m = pow256() as int;
    vstd::arithmetic::div_mod::lemma_add_mod_noop(base.as_nat() as int, delta, m);
    vstd::arithmetic::div_mod::lemma_small_mod(base.as_nat(), pow256());
    vstd::arithmetic::div_mod::lemma_small_mod(acc.as_nat(), pow256());
    vstd::arithmetic::div_mod::lemma_add_mod_noop(base.as_nat() as int, acc.as_nat() as int, m);
    let s = base.as_nat() + acc.as_nat();
    if s < pow256() {
        vstd::arithmetic::div_mod::lemma_small_mod(s, pow256());
    } else {
        vstd::arithmetic::div_mod::lemma_mod_sub_multiples_vanish(s as int, m);
        vstd::arithmetic::div_mod::lemma_small_mod((s - pow256()) as nat, pow256());
    }
}

/// The resolved-value case of a basic read: the nonce gains the lazy
/// increments, the balance gains the lazy deltas, the code comes from the
/// in-block registry or storage, and the read is remembered.
pub open spec fn basic_resolved(
    pre: VmDb,
    post: VmDb,
    r: Result<Option<AccountInfoL>, ReadError>,
    mv: &MvMemory,
    sto_codes: Map<U256, Option<Seq<u8>>>,
    address: Address,
    base: AccountBasic,
    delta: int,
    nonce_add: nat,
    bounded: bool,
    fin: Seq<ReadOrigin>,
) -> bool {
    let loc = MemoryLocation::Basic(address);
    let rn = wrap_add64(base.nonce, nonce_add as u64);
    if address == pre.from && rn != pre.nonce {
        // a sender whose nonce does not match blocks or fails
        (if pre.tx_idx > 0 {
            r == Err::<Option<AccountInfoL>, ReadError>(
                ReadError::BlockingIndex((pre.tx_idx - 1) as TxIdx),
            )
        } else {
            r == Err::<Option<AccountInfoL>, ReadError>(ReadError::InvalidNonce)
        }) && post.read_set.origins_of(loc) == Some(fin)
    } else {
        match r {
            Ok(v) => match v {
                Some(info) => info.nonce as nat == rn && (bounded ==> info.balance.as_nat() == (
                base.balance.as_nat() + delta) % (pow256() as int)) && (pre.to == Some(address)
                    ==> info.code_hash == pre.to_code_hash) && post.read_set.origins_of(loc)
                    == Some(fin) && post.read_accounts@ == pre.read_accounts@.push(
                    (loc, (AccountBasic { balance: info.balance, nonce: info.nonce }, info.code_hash)),
                ) && (match info.code_hash {
                    Some(h) => match info.code {
                        Some(c) => crate::mv_memory::assoc_bytecode(mv.new_bytecodes@, h) == Some(
                            c@,
                        ) || sto_codes[h] == Some(c@),
                        None => crate::mv_memory::assoc_bytecode(mv.new_bytecodes@, h) is None
                            && sto_codes[h] is None,
                    },
                    None => info.code is None,
                }),
                None => false,
            },
            Err(e) => (e is InconsistentRead || e is SelfDestructedAccount || e
                is StorageError || e is BlockingIndex) && post.read_set.origins_of(loc) == Some(
                fin,
            ) && post.read_accounts@ == pre.read_accounts@,
        }
    }
}

} // verus!
