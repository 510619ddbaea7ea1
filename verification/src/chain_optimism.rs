//! The Optimism chain policy: hardfork selection, gas-price extraction,
//! transaction translation, reward policy, and the seeding of the
//! multi-version log with the block's hot fee locations.

use vstd::prelude::*;
use crate::mv_memory::MvMemory;
use crate::primitives::{Header, OptimismFields, SpecId, Transaction, TxEnv};
use crate::types::{Address, MemoryLocation, TxIdx};
use crate::uint::U256;
use crate::vm::RewardPolicy;

verus! {

/// Errors that can occur when translating transactions.
#[derive(Clone, Debug, PartialEq, Eq)]
pub enum OptimismTxEnvError {
    ConversionError(String),
    GasPriceError(OptimismGasPriceError),
    InvalidType(u8),
    MissingMaxFeePerGas,
    MissingSourceHash,
    OverflowedGasLimit,
    SerdeError(String),
    UnexpectedType(u8),
}

/// Errors that can occur when selecting a block's hardfork.
#[derive(Clone, Debug, PartialEq, Eq)]
pub enum OptimismBlockSpecError {
    MissingBlockNumber,
    UnsupportedSpec,
}

/// Errors that can occur when reading a transaction's gas price.
#[derive(Clone, Debug, PartialEq, Eq)]
pub enum OptimismGasPriceError {
    InvalidType(u8),
    MissingGasPrice,
    MissingMaxFeePerGas,
}

/// The sequencer fee vault the level-one data fee is credited to.
pub fn l1_fee_recipient() -> (r: Address)
    ensures
        r == (Address { hi: 0x4200_0000u32, lo: 0x1Au128 }),
{
    Address { hi: 0x4200_0000, lo: 0x1A }
}

/// The vault the burnt base fee is credited to.
pub fn base_fee_recipient() -> (r: Address)
    ensures
        r == (Address { hi: 0x4200_0000u32, lo: 0x19u128 }),
{
    Address { hi: 0x4200_0000, lo: 0x19 }
}

/// The hardfork an Optimism header selects: by timestamp for the recent
/// forks, then by number; blocks before the bedrock transition are not
/// supported.
pub open spec fn op_block_spec_of(header: Header) -> Result<SpecId, OptimismBlockSpecError> {
    if header.timestamp >= 1720627201 {
        Ok(SpecId::FJORD)
    } else if header.timestamp >= 1710374401 {
        Ok(SpecId::ECOTONE)
    } else if header.timestamp >= 1704992401 {
        Ok(SpecId::CANYON)
    } else {
        match header.number {
            None => Err(OptimismBlockSpecError::MissingBlockNumber),
            Some(n) => if n >= 105235063 {
                Ok(SpecId::REGOLITH)
            } else {
                Err(OptimismBlockSpecError::UnsupportedSpec)
            },
        }
    }
}

/// The gas price an Optimism transaction bids, by its type.
pub open spec fn op_gas_price_of(tx: Transaction) -> Result<nat, OptimismGasPriceError> {
    let t: u8 = match tx.transaction_type {
        Some(t) => t,
        None => 0,
    };
    if t == 0 || t == 1 {
        match tx.gas_price {
            Some(p) => Ok(p as nat),
            None => Err(OptimismGasPriceError::MissingGasPrice),
        }
    } else if t == 2 || t == 3 {
        match tx.max_fee_per_gas {
            Some(p) => Ok(p as nat),
            None => Err(OptimismGasPriceError::MissingMaxFeePerGas),
        }
    } else if t == 126 {
        Ok(0)
    } else {
        Err(OptimismGasPriceError::InvalidType(t))
    }
}

/// The estimate list kept for `loc`; empty if none was built.
pub open spec fn est_of(s: Seq<(MemoryLocation, Vec<TxIdx>)>, loc: MemoryLocation) -> Seq<TxIdx>
    decreases s.len(),
{
    if s.len() == 0 {
        Seq::empty()
    } else if s[0].0 == loc {
        s[0].1@
    } else {
        est_of(s.skip(1), loc)
    }
}

/// The indices of the sequenced (non-deposit) transactions among the
/// first `n`, in order.
pub open spec fn sequencer_idxs(txs: Seq<TxEnv>, n: int) -> Seq<TxIdx>
    decreases n,
{
    if n <= 0 {
        Seq::empty()
    } else if txs[n - 1].optimism.source_hash is None {
        sequencer_idxs(txs, n - 1).push((n - 1) as TxIdx)
    } else {
        sequencer_idxs(txs, n - 1)
    }
}

/// The indices of the deposit transactions among the first `n`, in order.
pub open spec fn deposit_idxs(txs: Seq<TxEnv>, n: int) -> Seq<TxIdx>
    decreases n,
{
    if n <= 0 {
        Seq::empty()
    } else if txs[n - 1].optimism.source_hash is Some {
        deposit_idxs(txs, n - 1).push((n - 1) as TxIdx)
    } else {
        deposit_idxs(txs, n - 1)
    }
}

/// A location that heads no entry has the empty estimate list.
proof fn lemma_est_absent(s: Seq<(MemoryLocation, Vec<TxIdx>)>, loc: MemoryLocation)
    requires
        forall|j: int| 0 <= j < s.len() ==> (#[trigger] s[j]).0 != loc,
    ensures
        est_of(s, loc) == Seq::<TxIdx>::empty(),
    decreases s.len(),
{
    if s.len() > 0 {
        assert forall|j: int| 0 <= j < s.skip(1).len() implies (#[trigger] s.skip(1)[j]).0
            != loc by {
            assert(s.skip(1)[j] == s[j + 1]);
        }
        lemma_est_absent(s.skip(1), loc);
    }
}

/// Rewriting the list at the entry holding `loc` changes only `loc`'s
/// estimates, provided locations are unique.
proof fn lemma_est_update(
    s: Seq<(MemoryLocation, Vec<TxIdx>)>,
    t: Seq<(MemoryLocation, Vec<TxIdx>)>,
    i: int,
    loc: MemoryLocation,
)
    requires
        0 <= i < s.len(),
        t.len() == s.len(),
        s[i].0 == loc,
        t[i].0 == loc,
        forall|j: int| 0 <= j < s.len() && j != i ==> t[j] == s[j],
        forall|a: int, b: int| 0 <= a < b < s.len() ==> (#[trigger] s[a]).0 != (#[trigger] s[b]).0,
    ensures
        est_of(t, loc) == t[i].1@,
        forall|l2: MemoryLocation| l2 != loc ==> #[trigger] est_of(t, l2) == est_of(s, l2),
    decreases s.len(),
{
    if i == 0 {
        assert forall|l2: MemoryLocation| l2 != loc implies #[trigger] est_of(t, l2) == est_of(
            s,
            l2,
        ) by {
            assert(t.skip(1) =~= s.skip(1));
        }
    } else {
        lemma_est_update(s.skip(1), t.skip(1), i - 1, loc);
        assert(t[0] == s[0]);
        assert(s[0].0 != loc);
        assert(t.skip(1)[i - 1].1@ == t[i].1@);
        assert forall|l2: MemoryLocation| l2 != loc implies #[trigger] est_of(t, l2) == est_of(
            s,
            l2,
        ) by {
            if s[0].0 != l2 {
                assert(est_of(t.skip(1), l2) == est_of(s.skip(1), l2));
            }
        }
    }
}

/// Appending an entry for an absent location adds its list and keeps the
/// rest.
proof fn lemma_est_push(s: Seq<(MemoryLocation, Vec<TxIdx>)>, nl: (MemoryLocation, Vec<TxIdx>))
    requires
        forall|j: int| 0 <= j < s.len() ==> (#[trigger] s[j]).0 != nl.0,
    ensures
        est_of(s.push(nl), nl.0) == nl.1@,
        forall|l2: MemoryLocation|
            l2 != nl.0 ==> #[trigger] est_of(s.push(nl), l2) == est_of(s, l2),
    decreases s.len(),
{
    let t = s.push(nl);
    if s.len() == 0 {
        assert(t[0] == nl);
        assert forall|l2: MemoryLocation| l2 != nl.0 implies #[trigger] est_of(t, l2) == est_of(
            s,
            l2,
        ) by {
            assert(t.skip(1) =~= Seq::<(MemoryLocation, Vec<TxIdx>)>::empty());
            assert(est_of(t.skip(1), l2) == Seq::<TxIdx>::empty());
        }
    } else {
        assert(s[0].0 != nl.0);
        assert forall|j: int| 0 <= j < s.skip(1).len() implies (#[trigger] s.skip(1)[j]).0
            != nl.0 by {
            assert(s.skip(1)[j] == s[j + 1]);
        }
        lemma_est_push(s.skip(1), nl);
        assert(t.skip(1) =~= s.skip(1).push(nl));
        assert(t[0] == s[0]);
        assert(est_of(t.skip(1), nl.0) == nl.1@);
        assert forall|l2: MemoryLocation| l2 != nl.0 implies #[trigger] est_of(t, l2) == est_of(
            s,
            l2,
        ) by {
            if s[0].0 != l2 {
                assert(est_of(t.skip(1), l2) == est_of(s.skip(1), l2));
            }
        }
    }
}

/// The Optimism chain policy.
#[derive(Clone, Debug, PartialEq, Eq)]
pub struct PevmOptimism {
    id: u64,
}

impl PevmOptimism {
    /// The policy of the Optimism mainnet, chain ten.
    pub fn mainnet() -> (r: PevmOptimism)
        ensures
            r.spec_id_of() == 10,
    {
        PevmOptimism { id: 10 }
    }

    /// The chain identifier.
    pub closed spec fn spec_id_of(&self) -> u64 {
        self.id
    }

    /// The chain identifier.
    pub fn id(&self) -> (r: u64)
        ensures
            r == self.spec_id_of(),
    {
        self.id
    }

    /// Selects the hardfork of a block from its header.
    pub fn get_block_spec(&self, header: &Header) -> (r: Result<SpecId, OptimismBlockSpecError>)
        ensures
            r == op_block_spec_of(*header),
    {
        if header.timestamp >= 1720627201 {
            Ok(SpecId::FJORD)
        } else if header.timestamp >= 1710374401 {
            Ok(SpecId::ECOTONE)
        } else if header.timestamp >= 1704992401 {
            Ok(SpecId::CANYON)
        } else {
            match &header.number {
                None => Err(OptimismBlockSpecError::MissingBlockNumber),
                Some(n) => {
                    if *n >= 105235063 {
                        Ok(SpecId::REGOLITH)
                    } else {
                        Err(OptimismBlockSpecError::UnsupportedSpec)
                    }
                },
            }
        }
    }

    /// Reads the gas price a transaction bids, by its type.
    pub fn get_gas_price(&self, tx: &Transaction) -> (r: Result<U256, OptimismGasPriceError>)
        ensures
            match op_gas_price_of(*tx) {
                Ok(p) => r matches Ok(v) && v.as_nat() == p && v.hi == 0,
                Err(e) => r == Err::<U256, OptimismGasPriceError>(e),
            },
    {
        let t: u8 = match &tx.transaction_type {
            Some(t) => *t,
            None => 0,
        };
        if t == 0 || t == 1 {
            match &tx.gas_price {
                Some(p) => Ok(U256 { hi: 0, lo: *p }),
                None => Err(OptimismGasPriceError::MissingGasPrice),
            }
        } else if t == 2 || t == 3 {
            match &tx.max_fee_per_gas {
                Some(p) => Ok(U256 { hi: 0, lo: *p }),
                None => Err(OptimismGasPriceError::MissingMaxFeePerGas),
            }
        } else if t == 126 {
            Ok(U256 { hi: 0, lo: 0 })
        } else {
            Err(OptimismGasPriceError::InvalidType(t))
        }
    }

    /// Translates an RPC transaction into the evaluator's environment,
    /// surfacing the chain's own error taxonomy: the type must be one the
    /// chain knows, a deposit must name its source hash, and any other
    /// type must carry its signed envelope.
    pub fn get_tx_env(&self, tx: Transaction) -> (r: Result<TxEnv, OptimismTxEnvError>)
        ensures
            // each error comes exactly where its check falls, in order:
            // type, deposit source hash or envelope, gas width, gas price
            ({
                let t = crate::receipt::tx_type_of(tx);
                if !(t == 0 || t == 1 || t == 2 || t == 3 || t == 126) {
                    r == Err::<TxEnv, OptimismTxEnvError>(OptimismTxEnvError::UnexpectedType(t))
                } else if t == 126 && tx.source_hash is None {
                    r == Err::<TxEnv, OptimismTxEnvError>(OptimismTxEnvError::MissingSourceHash)
                } else if t != 126 && tx.envelope is None {
                    r matches Err(e) && e is ConversionError
                } else if tx.gas > u64::MAX {
                    r == Err::<TxEnv, OptimismTxEnvError>(OptimismTxEnvError::OverflowedGasLimit)
                } else {
                    match op_gas_price_of(tx) {
                        Err(e) => r == Err::<TxEnv, OptimismTxEnvError>(
                            OptimismTxEnvError::GasPriceError(e),
                        ),
                        Ok(p) => r is Ok,
                    }
                }
            }),
            match r {
                Ok(env) => env.wf() && env.caller == tx.from && env.gas_limit == tx.gas
                    && tx.gas <= u64::MAX && env.gas_price.as_nat() == (match op_gas_price_of(tx) {
                    Ok(p) => p,
                    Err(e) => 0,
                }) && op_gas_price_of(tx) is Ok && env.transact_to == tx.to && env.value
                    == tx.value && env.data@ == tx.input@ && env.nonce == Some(tx.nonce)
                    && env.chain_id == tx.chain_id && env.gas_priority_fee == (match tx
                    .max_priority_fee_per_gas {
                    Some(f) => Some(U256 { hi: 0, lo: f }),
                    None => None::<U256>,
                }) && env.access_list@ == (match tx.access_list {
                    Some(al) => al@,
                    None => Seq::<(Address, Vec<U256>)>::empty(),
                }) && env.blob_hashes@ == (match tx.blob_versioned_hashes {
                    Some(bh) => bh@,
                    None => Seq::<U256>::empty(),
                }) && env.max_fee_per_blob_gas == (match tx.max_fee_per_blob_gas {
                    Some(f) => Some(U256 { hi: 0, lo: f }),
                    None => None::<U256>,
                }) && env.optimism.source_hash == tx.source_hash
                    && env.optimism.mint == tx.mint && env.optimism.is_system_transaction == tx
                    .is_system_tx && (match env.optimism.enveloped_tx {
                    Some(e) => if crate::receipt::tx_type_of(tx) == 126 {
                        e@ == crate::rlp::deposit_envelope(tx)
                    } else {
                        tx.envelope matches Some(src) && e@ == src@
                    },
                    None => false,
                }),
                Err(e) => e is UnexpectedType || e is MissingSourceHash || e is ConversionError
                    || e is OverflowedGasLimit || e is GasPriceError,
            },
    {
        let t: u8 = match &tx.transaction_type {
            Some(t) => *t,
            None => 0,
        };
        if !(t == 0 || t == 1 || t == 2 || t == 3 || t == 126) {
            return Err(OptimismTxEnvError::UnexpectedType(t));
        }
        let enveloped_tx = if t == 126 {
            if matches!(tx.source_hash, None) {
                return Err(OptimismTxEnvError::MissingSourceHash);
            }
            Some(crate::rlp::encode_deposit_envelope(&tx))
        } else {
            match &tx.envelope {
                Some(e) => Some(crate::bytes::copy_bytes(e)),
                None => {
                    return Err(
                        OptimismTxEnvError::ConversionError(
                            "missing signed transaction envelope".to_string(),
                        ),
                    );
                },
            }
        };
        if tx.gas > 0xFFFF_FFFF_FFFF_FFFF {
            return Err(OptimismTxEnvError::OverflowedGasLimit);
        }
        let gas_limit = tx.gas as u64;
        let gas_price = match self.get_gas_price(&tx) {
            Ok(p) => p,
            Err(e) => {
                return Err(OptimismTxEnvError::GasPriceError(e));
            },
        };
        Ok(
            TxEnv {
                caller: tx.from,
                gas_limit,
                gas_price,
                gas_priority_fee: match &tx.max_priority_fee_per_gas {
                    Some(f) => Some(U256 { hi: 0, lo: *f }),
                    None => None,
                },
                transact_to: tx.to,
                value: tx.value,
                data: tx.input,
                nonce: Some(tx.nonce),
                chain_id: tx.chain_id,
                access_list: match tx.access_list {
                    Some(al) => al,
                    None => Vec::new(),
                },
                blob_hashes: match tx.blob_versioned_hashes {
                    Some(bh) => bh,
                    None => Vec::new(),
                },
                max_fee_per_blob_gas: match &tx.max_fee_per_blob_gas {
                    Some(f) => Some(U256 { hi: 0, lo: *f }),
                    None => None,
                },
                optimism: OptimismFields {
                    source_hash: tx.source_hash,
                    mint: tx.mint,
                    is_system_transaction: tx.is_system_tx,
                    enveloped_tx,
                },
            },
        )
    }

    /// Seeds the multi-version log for one block: every transaction is
    /// expected to touch the beneficiary account, and every deposit the
    /// two fee vaults, so tombstones are planted there to make early
    /// readers wait for their writers. The three fee accounts are
    /// registered as lazy locations.
    pub fn build_mv_memory(&self, block_env: &crate::primitives::BlockEnv, txs: &Vec<TxEnv>) -> (r:
        MvMemory)
        ensures
            r.wf(),
            r.block_size() == txs@.len(),
            forall|l: MemoryLocation|
                #[trigger] r.lazy_locations@.contains(l) <==> (l == MemoryLocation::Basic(
                    block_env.coinbase,
                ) || l == MemoryLocation::Basic(Address { hi: 0x4200_0000, lo: 0x1A }) || l
                    == MemoryLocation::Basic(Address { hi: 0x4200_0000, lo: 0x19 })),
            forall|l: MemoryLocation, k: int|
                0 <= k < r.log_of(l).len() ==> (#[trigger] r.log_of(l)[k]).1 is Estimate,
            (block_env.coinbase != (Address { hi: 0x4200_0000, lo: 0x1A }) && block_env.coinbase
                != (Address { hi: 0x4200_0000, lo: 0x19 })) ==> ({
                let benef = MemoryLocation::Basic(block_env.coinbase);
                let l1 = MemoryLocation::Basic(Address { hi: 0x4200_0000, lo: 0x1A });
                let base = MemoryLocation::Basic(Address { hi: 0x4200_0000, lo: 0x19 });
                r.log_of(benef) == sequencer_idxs(txs@, txs@.len() as int).map_values(
                    |idx: TxIdx| (idx, crate::types::MemoryEntry::Estimate),
                ) && r.log_of(l1) == deposit_idxs(txs@, txs@.len() as int).map_values(
                    |idx: TxIdx| (idx, crate::types::MemoryEntry::Estimate),
                ) && r.log_of(base) == deposit_idxs(txs@, txs@.len() as int).map_values(
                    |idx: TxIdx| (idx, crate::types::MemoryEntry::Estimate),
                ) && (forall|l: MemoryLocation|
                    l != benef && l != l1 && l != base ==> #[trigger] r.log_of(l) == Seq::<
                        (TxIdx, crate::types::MemoryEntry),
                    >::empty())
            }),
    {
        let beneficiary_loc = MemoryLocation::Basic(block_env.coinbase);
        let l1_loc = MemoryLocation::Basic(l1_fee_recipient());
        let base_loc = MemoryLocation::Basic(base_fee_recipient());

        let mut estimated: Vec<(MemoryLocation, Vec<TxIdx>)> = Vec::new();
        let n = txs.len();
        let mut i: usize = 0;
        while i < n
            invariant
                i <= n == txs@.len(),
                beneficiary_loc == MemoryLocation::Basic(block_env.coinbase),
                l1_loc == MemoryLocation::Basic(Address { hi: 0x4200_0000, lo: 0x1A }),
                base_loc == MemoryLocation::Basic(Address { hi: 0x4200_0000, lo: 0x19 }),
                forall|a: int, b: int|
                    0 <= a < b < estimated@.len() ==> (#[trigger] estimated@[a]).0 != (
                    #[trigger] estimated@[b]).0,
                forall|c: int, a: int, b: int|
                    0 <= c < estimated@.len() && 0 <= a < b < estimated@[c].1@.len()
                        ==> #[trigger] estimated@[c].1@[a] < #[trigger] estimated@[c].1@[b],
                forall|c: int, a: int|
                    0 <= c < estimated@.len() && 0 <= a < estimated@[c].1@.len()
                        ==> #[trigger] estimated@[c].1@[a] < i,
                forall|c: int|
                    0 <= c < estimated@.len() ==> ((#[trigger] estimated@[c]).0 == beneficiary_loc
                        || estimated@[c].0 == l1_loc || estimated@[c].0 == base_loc),
                (beneficiary_loc != l1_loc && beneficiary_loc != base_loc) ==> est_of(
                    estimated@,
                    beneficiary_loc,
                ) == sequencer_idxs(txs@, i as int) && est_of(estimated@, l1_loc) == deposit_idxs(
                    txs@,
                    i as int,
                ) && est_of(estimated@, base_loc) == deposit_idxs(txs@, i as int),
            decreases n - i,
        {
            if matches!(txs[i].optimism.source_hash, None) {
                push_estimate(&mut estimated, beneficiary_loc, i);
            } else {
                let ghost pre = estimated@;
                push_estimate(&mut estimated, l1_loc, i);
                proof {
                    assert(l1_loc != base_loc);
                    assert forall|c: int, a: int|
                        0 <= c < estimated@.len() && (#[trigger] estimated@[c]).0 == base_loc && 0
                            <= a < estimated@[c].1@.len() implies #[trigger] estimated@[c].1@[a]
                        < i by {
                        if c < pre.len() {
                            assert(estimated@[c].0 == pre[c].0);
                            assert(estimated@[c].1 == pre[c].1);
                        } else {
                            assert(estimated@[c].0 == l1_loc);
                        }
                    }
                }
                push_estimate(&mut estimated, base_loc, i);
            }
            i = i + 1;
        }

        let mut lazy: Vec<MemoryLocation> = Vec::new();
        lazy.push(beneficiary_loc);
        lazy.push(l1_loc);
        lazy.push(base_loc);
        let r = MvMemory::new(txs.len(), estimated, lazy);
        proof {
            assert forall|l: MemoryLocation| #[trigger]
                r.lazy_locations@.contains(l) <==> (l == beneficiary_loc || l == l1_loc || l
                == base_loc) by {
                if l == beneficiary_loc {
                    assert(r.lazy_locations@[0] == l);
                }
                if l == l1_loc {
                    assert(r.lazy_locations@[1] == l);
                }
                if l == base_loc {
                    assert(r.lazy_locations@[2] == l);
                }
            }
            assert forall|l: MemoryLocation, k: int|
                0 <= k < r.log_of(l).len() implies (#[trigger] r.log_of(l)[k]).1 is Estimate by {
                if exists|c: int|
                    0 <= c < estimated@.len() && (#[trigger] estimated@[c]).0 == l {
                    let c = choose|c: int|
                        0 <= c < estimated@.len() && (#[trigger] estimated@[c]).0 == l;
                    assert(r.log_of(l) == estimated@[c].1@.map_values(
                        |idx: TxIdx| (idx, crate::types::MemoryEntry::Estimate),
                    ));
                } else {
                    assert(forall|c: int|
                        0 <= c < estimated@.len() ==> (#[trigger] estimated@[c]).0 != l);
                    assert(r.log_of(l) == Seq::<(TxIdx, crate::types::MemoryEntry)>::empty());
                }
            }
            if beneficiary_loc != l1_loc && beneficiary_loc != base_loc {
                assert(r.log_of(beneficiary_loc) == sequencer_idxs(txs@, n as int).map_values(
                    |idx: TxIdx| (idx, crate::types::MemoryEntry::Estimate),
                )) by {
                    if exists|c: int|
                        0 <= c < estimated@.len() && (#[trigger] estimated@[c]).0
                            == beneficiary_loc {
                        let c = choose|c: int|
                            0 <= c < estimated@.len() && (#[trigger] estimated@[c]).0
                                == beneficiary_loc;
                        lemma_est_update(estimated@, estimated@, c, beneficiary_loc);
                        assert(estimated@[c].1@ == sequencer_idxs(txs@, n as int));
                    } else {
                        lemma_est_absent(estimated@, beneficiary_loc);
                        assert(sequencer_idxs(txs@, n as int) =~= Seq::<TxIdx>::empty());
                        assert(sequencer_idxs(txs@, n as int).map_values(
                            |idx: TxIdx| (idx, crate::types::MemoryEntry::Estimate),
                        ) =~= Seq::<(TxIdx, crate::types::MemoryEntry)>::empty());
                    }
                }
                assert(r.log_of(l1_loc) == deposit_idxs(txs@, n as int).map_values(
                    |idx: TxIdx| (idx, crate::types::MemoryEntry::Estimate),
                )) by {
                    if exists|c: int|
                        0 <= c < estimated@.len() && (#[trigger] estimated@[c]).0 == l1_loc {
                        let c = choose|c: int|
                            0 <= c < estimated@.len() && (#[trigger] estimated@[c]).0 == l1_loc;
                        lemma_est_update(estimated@, estimated@, c, l1_loc);
                        assert(estimated@[c].1@ == deposit_idxs(txs@, n as int));
                    } else {
                        lemma_est_absent(estimated@, l1_loc);
                        assert(deposit_idxs(txs@, n as int) =~= Seq::<TxIdx>::empty());
                        assert(deposit_idxs(txs@, n as int).map_values(
                            |idx: TxIdx| (idx, crate::types::MemoryEntry::Estimate),
                        ) =~= Seq::<(TxIdx, crate::types::MemoryEntry)>::empty());
                    }
                }
                assert(r.log_of(base_loc) == deposit_idxs(txs@, n as int).map_values(
                    |idx: TxIdx| (idx, crate::types::MemoryEntry::Estimate),
                )) by {
                    if exists|c: int|
                        0 <= c < estimated@.len() && (#[trigger] estimated@[c]).0 == base_loc {
                        let c = choose|c: int|
                            0 <= c < estimated@.len() && (#[trigger] estimated@[c]).0 == base_loc;
                        lemma_est_update(estimated@, estimated@, c, base_loc);
                        assert(estimated@[c].1@ == deposit_idxs(txs@, n as int));
                    } else {
                        lemma_est_absent(estimated@, base_loc);
                        assert(deposit_idxs(txs@, n as int) =~= Seq::<TxIdx>::empty());
                        assert(deposit_idxs(txs@, n as int).map_values(
                            |idx: TxIdx| (idx, crate::types::MemoryEntry::Estimate),
                        ) =~= Seq::<(TxIdx, crate::types::MemoryEntry)>::empty());
                    }
                }
                assert forall|l: MemoryLocation|
                    l != beneficiary_loc && l != l1_loc && l != base_loc implies #[trigger] r.log_of(
                    l,
                ) == Seq::<(TxIdx, crate::types::MemoryEntry)>::empty() by {
                    assert(forall|c: int|
                        0 <= c < estimated@.len() ==> (#[trigger] estimated@[c]).0 != l);
                }
            }
        }
        r
    }

    /// The root of the receipts trie of one executed block: every receipt
    /// is encoded under its transaction's type and keyed by its index;
    /// deposit receipts carry their sender's pre-bump nonce after the
    /// fork that added it.
    #[verifier::rlimit(100)]
    pub fn calculate_receipt_root(
        &self,
        spec_id: SpecId,
        txs: &Vec<Transaction>,
        tx_results: &Vec<crate::vm::PevmTxExecutionResult>,
    ) -> (r: U256)
        requires
            txs@.len() == tx_results@.len(),
            forall|i: int|
                0 <= i < txs@.len() ==> (#[trigger] crate::receipt::tx_type_of(txs@[i]) == 0
                    || crate::receipt::tx_type_of(txs@[i]) == 1 || crate::receipt::tx_type_of(
                    txs@[i],
                ) == 2 || crate::receipt::tx_type_of(txs@[i]) == 3 || crate::receipt::tx_type_of(
                    txs@[i],
                ) == 126),
            // a deposit receipt names its sender's bumped nonce: the sender
            // must stand in the state map with its nonce already raised
            forall|i: int|
                0 <= i < txs@.len() && #[trigger] crate::receipt::tx_type_of(txs@[i]) == 126
                    && spec_id.rank() >= SpecId::CANYON.rank() ==> (crate::receipt::state_acct(
                    tx_results@[i].state@,
                    txs@[i].from,
                ) matches Some(Some(acct)) && acct.nonce >= 1),
        ensures
            r.as_nat() == crate::receipt::trie_root_of(
                crate::receipt::receipt_encodings(spec_id, txs@, tx_results@),
            ),
    {
        let n = txs.len();
        let mut items: Vec<Vec<u8>> = Vec::new();
        let mut i: usize = 0;
        while i < n
            invariant
                i <= n == txs@.len() == tx_results@.len(),
                items@.len() == i,
                forall|j: int|
                    0 <= j < i ==> (#[trigger] items@[j])@ == crate::receipt::receipt_encodings(
                        spec_id,
                        txs@,
                        tx_results@,
                    )[j],
            decreases n - i,
        {
            let tx_type: u8 = match &txs[i].transaction_type {
                Some(t) => *t,
                None => 0,
            };
            let deposit: Option<(u64, u64)> = if tx_type == 126 && spec_id.is_enabled_in(
                SpecId::CANYON,
            ) {
                match crate::receipt::find_state_acct(&tx_results[i].state, &txs[i].from) {
                    Some(t) => match t {
                        Some(acct) => Some((acct.nonce.wrapping_sub(1), 1)),
                        None => Some((0, 1)),
                    },
                    None => Some((0, 1)),
                }
            } else {
                None
            };
            proof {
                assert(deposit == crate::receipt::deposit_fields_of(
                    spec_id,
                    crate::receipt::tx_type_of(txs@[i as int]),
                    txs@[i as int].from,
                    tx_results@[i as int],
                ));
            }
            let encoded = crate::receipt::encode_receipt_2718(
                tx_type,
                &tx_results[i].receipt,
                deposit,
            );
            items.push(encoded);
            i = i + 1;
        }
        proof {
            assert(items@.map_values(|v: Vec<u8>| v@) =~= crate::receipt::receipt_encodings(
                spec_id,
                txs@,
                tx_results@,
            ));
        }
        crate::receipt::ordered_trie_root(&items)
    }

    /// Both fee vaults are credited lazily, besides the beneficiary.
    pub fn get_reward_policy(&self) -> (r: RewardPolicy)
        ensures
            r == (RewardPolicy::Optimism {
                l1_fee_recipient_location: MemoryLocation::Basic(
                    Address { hi: 0x4200_0000, lo: 0x1A },
                ),
                base_fee_vault_location: MemoryLocation::Basic(
                    Address { hi: 0x4200_0000, lo: 0x19 },
                ),
            }),
    {
        RewardPolicy::Optimism {
            l1_fee_recipient_location: MemoryLocation::Basic(l1_fee_recipient()),
            base_fee_vault_location: MemoryLocation::Basic(base_fee_recipient()),
        }
    }
}

/// Appends `idx` to `loc`'s estimate list, creating the list if absent;
/// `idx` must exceed every index already listed.
fn push_estimate(estimated: &mut Vec<(MemoryLocation, Vec<TxIdx>)>, loc: MemoryLocation, idx: TxIdx)
    requires
        forall|a: int, b: int|
            0 <= a < b < old(estimated)@.len() ==> (#[trigger] old(estimated)@[a]).0 != (
            #[trigger] old(estimated)@[b]).0,
        forall|c: int, a: int, b: int|
            0 <= c < old(estimated)@.len() && 0 <= a < b < old(estimated)@[c].1@.len()
                ==> #[trigger] old(estimated)@[c].1@[a] < #[trigger] old(estimated)@[c].1@[b],
        forall|c: int, a: int|
            0 <= c < old(estimated)@.len() && 0 <= a < old(estimated)@[c].1@.len()
                ==> #[trigger] old(estimated)@[c].1@[a] <= idx,
        forall|c: int, a: int|
            0 <= c < old(estimated)@.len() && (#[trigger] old(estimated)@[c]).0 == loc && 0 <= a
                < old(estimated)@[c].1@.len() ==> #[trigger] old(estimated)@[c].1@[a] < idx,
    ensures
        forall|a: int, b: int|
            0 <= a < b < final(estimated)@.len() ==> (#[trigger] final(estimated)@[a]).0 != (
            #[trigger] final(estimated)@[b]).0,
        forall|c: int, a: int, b: int|
            0 <= c < final(estimated)@.len() && 0 <= a < b < final(estimated)@[c].1@.len()
                ==> #[trigger] final(estimated)@[c].1@[a] < #[trigger] final(estimated)@[c].1@[b],
        forall|c: int, a: int|
            0 <= c < final(estimated)@.len() && 0 <= a < final(estimated)@[c].1@.len()
                ==> #[trigger] final(estimated)@[c].1@[a] <= idx,
        old(estimated)@.len() <= final(estimated)@.len() <= old(estimated)@.len() + 1,
        forall|c: int|
            0 <= c < old(estimated)@.len() ==> (#[trigger] final(estimated)@[c]).0 == old(
                estimated,
            )@[c].0 && (old(estimated)@[c].0 != loc ==> final(estimated)@[c].1 == old(
                estimated,
            )@[c].1),
        final(estimated)@.len() == old(estimated)@.len() + 1 ==> final(estimated)@[old(
            estimated,
        )@.len() as int].0 == loc,
        est_of(final(estimated)@, loc) == est_of(old(estimated)@, loc).push(idx),
        forall|l2: MemoryLocation|
            l2 != loc ==> #[trigger] est_of(final(estimated)@, l2) == est_of(old(estimated)@, l2),
{
    let n = estimated.len();
    let mut i: usize = 0;
    while i < n
        invariant
            i <= n == estimated@.len(),
            estimated@ == old(estimated)@,
            forall|j: int| 0 <= j < i ==> (#[trigger] estimated@[j]).0 != loc,
            forall|a: int, b: int|
                0 <= a < b < old(estimated)@.len() ==> (#[trigger] old(estimated)@[a]).0 != (
                #[trigger] old(estimated)@[b]).0,
            forall|c: int, a: int, b: int|
                0 <= c < old(estimated)@.len() && 0 <= a < b < old(estimated)@[c].1@.len()
                    ==> #[trigger] old(estimated)@[c].1@[a] < #[trigger] old(estimated)@[c].1@[b],
            forall|c: int, a: int|
                0 <= c < old(estimated)@.len() && 0 <= a < old(estimated)@[c].1@.len()
                    ==> #[trigger] old(estimated)@[c].1@[a] <= idx,
            forall|c: int, a: int|
                0 <= c < old(estimated)@.len() && (#[trigger] old(estimated)@[c]).0 == loc && 0 <= a
                    < old(estimated)@[c].1@.len() ==> #[trigger] old(estimated)@[c].1@[a] < idx,
        decreases n - i,
    {
        if estimated[i].0 == loc {
            let ghost pre = estimated@;
            let entry = &mut estimated[i];
            entry.1.push(idx);
            proof {
                assert(estimated@.len() == pre.len());
                assert(estimated@[i as int].0 == loc);
                assert(estimated@[i as int].1@ =~= pre[i as int].1@.push(idx));
                assert(forall|j: int|
                    0 <= j < pre.len() && j != i ==> #[trigger] estimated@[j] == pre[j]);
                assert forall|a: int, b: int|
                    0 <= a < b < estimated@.len() implies (#[trigger] estimated@[a]).0 != (
                #[trigger] estimated@[b]).0 by {
                    assert(estimated@[a].0 == pre[a].0);
                    assert(estimated@[b].0 == pre[b].0);
                    assert(old(estimated)@[a].0 != old(estimated)@[b].0);
                }
                assert forall|c: int, a: int, b: int|
                    0 <= c < estimated@.len() && 0 <= a < b < estimated@[c].1@.len() implies #[trigger] estimated@[c].1@[a]
                    < #[trigger] estimated@[c].1@[b] by {
                    if c == i {
                        assert(old(estimated)@[i as int].0 == loc);
                        if b == pre[i as int].1@.len() {
                            assert(estimated@[c].1@[a] == pre[i as int].1@[a]);
                            assert(old(estimated)@[i as int].1@[a] < idx);
                            assert(estimated@[c].1@[b] == idx);
                        } else {
                            assert(estimated@[c].1@[a] == pre[i as int].1@[a]);
                            assert(estimated@[c].1@[b] == pre[i as int].1@[b]);
                            assert(old(estimated)@[c].1@[a] < old(estimated)@[c].1@[b]);
                        }
                    } else {
                        assert(estimated@[c] == pre[c]);
                        assert(old(estimated)@[c].1@[a] < old(estimated)@[c].1@[b]);
                    }
                }
                assert forall|c: int, a: int|
                    0 <= c < estimated@.len() && 0 <= a < estimated@[c].1@.len() implies #[trigger] estimated@[c].1@[a] <= idx by {
                    if c == i && a == pre[i as int].1@.len() {
                        assert(estimated@[c].1@[a] == idx);
                    } else if c == i {
                        assert(estimated@[c].1@[a] == pre[i as int].1@[a]);
                        assert(old(estimated)@[c].1@[a] <= idx);
                    } else {
                        assert(estimated@[c] == pre[c]);
                        assert(old(estimated)@[c].1@[a] <= idx);
                    }
                }
                lemma_est_update(pre, pre, i as int, loc);
                lemma_est_update(pre, estimated@, i as int, loc);
                assert(est_of(estimated@, loc) =~= est_of(pre, loc).push(idx));
            }
            return ;
        }
        i = i + 1;
    }
    let mut idxs: Vec<TxIdx> = Vec::new();
    idxs.push(idx);
    proof {
        lemma_est_absent(old(estimated)@, loc);
        lemma_est_push(old(estimated)@, (loc, idxs));
    }
    estimated.push((loc, idxs));
    proof {
        assert(est_of(estimated@, loc) =~= est_of(old(estimated)@, loc).push(idx));
        let t = estimated@;
        assert forall|a: int, b: int| 0 <= a < b < t.len() implies (#[trigger] t[a]).0 != (
        #[trigger] t[b]).0 by {
            if b == t.len() - 1 {
                assert(t[a] == old(estimated)@[a]);
                assert(old(estimated)@[a].0 != loc);
            } else {
                assert(t[a] == old(estimated)@[a]);
                assert(t[b] == old(estimated)@[b]);
            }
        }
        assert forall|c: int, a: int, b: int|
            0 <= c < t.len() && 0 <= a < b < t[c].1@.len() implies #[trigger] t[c].1@[a]
            < #[trigger] t[c].1@[b] by {
            if c < t.len() - 1 {
                assert(t[c] == old(estimated)@[c]);
            } else {
                assert(t[c].1@ =~= seq![idx]);
            }
        }
        assert forall|c: int, a: int|
            0 <= c < t.len() && 0 <= a < t[c].1@.len() implies #[trigger] t[c].1@[a] <= idx by {
            if c < t.len() - 1 {
                assert(t[c] == old(estimated)@[c]);
            } else {
                assert(t[c].1@ =~= seq![idx]);
            }
        }
    }
}

} // verus!
