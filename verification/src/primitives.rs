//! Chain-level primitives: hardfork selection from a block header, and the
//! translation of header and transaction data into evaluator environments.

use vstd::prelude::*;
use crate::types::Address;
use crate::uint::U256;

verus! {

/// The hardforks the engine distinguishes, in activation order.
#[derive(Clone, Copy, Debug, PartialEq, Eq, Structural, Hash)]
#[allow(non_camel_case_types)]
pub enum SpecId {
    FRONTIER,
    HOMESTEAD,
    TANGERINE,
    SPURIOUS_DRAGON,
    BYZANTIUM,
    PETERSBURG,
    ISTANBUL,
    BERLIN,
    LONDON,
    MERGE,
    BEDROCK,
    REGOLITH,
    SHANGHAI,
    CANYON,
    CANCUN,
    ECOTONE,
    FJORD,
}

impl SpecId {
    /// Position in activation order.
    pub open spec fn rank(self) -> nat {
        match self {
            SpecId::FRONTIER => 0,
            SpecId::HOMESTEAD => 1,
            SpecId::TANGERINE => 2,
            SpecId::SPURIOUS_DRAGON => 3,
            SpecId::BYZANTIUM => 4,
            SpecId::PETERSBURG => 5,
            SpecId::ISTANBUL => 6,
            SpecId::BERLIN => 7,
            SpecId::LONDON => 8,
            SpecId::MERGE => 9,
            SpecId::BEDROCK => 10,
            SpecId::REGOLITH => 11,
            SpecId::SHANGHAI => 12,
            SpecId::CANYON => 13,
            SpecId::CANCUN => 14,
            SpecId::ECOTONE => 15,
            SpecId::FJORD => 16,
        }
    }

    fn rank_exec(self) -> (r: u32)
        ensures
            r as nat == self.rank(),
    {
        match self {
            SpecId::FRONTIER => 0,
            SpecId::HOMESTEAD => 1,
            SpecId::TANGERINE => 2,
            SpecId::SPURIOUS_DRAGON => 3,
            SpecId::BYZANTIUM => 4,
            SpecId::PETERSBURG => 5,
            SpecId::ISTANBUL => 6,
            SpecId::BERLIN => 7,
            SpecId::LONDON => 8,
            SpecId::MERGE => 9,
            SpecId::BEDROCK => 10,
            SpecId::REGOLITH => 11,
            SpecId::SHANGHAI => 12,
            SpecId::CANYON => 13,
            SpecId::CANCUN => 14,
            SpecId::ECOTONE => 15,
            SpecId::FJORD => 16,
        }
    }

    /// Whether this hardfork includes `other`'s rules.
    pub fn is_enabled_in(self, other: SpecId) -> (r: bool)
        ensures
            r == (self.rank() >= other.rank()),
    {
        self.rank_exec() >= other.rank_exec()
    }
}

/// Which family of chains a block belongs to.
#[derive(Clone, Copy, Debug, PartialEq, Eq, Structural)]
pub enum ChainKind {
    Ethereum,
    Optimism,
}

/// The header fields the engine reads.
#[derive(Clone, Debug)]
pub struct Header {
    pub number: Option<u64>,
    pub timestamp: u64,
    pub total_difficulty: Option<U256>,
    pub difficulty: U256,
    pub gas_limit: u128,
    pub base_fee_per_gas: Option<u128>,
    pub miner: Address,
    pub mix_hash: Option<U256>,
    pub excess_blob_gas: Option<u128>,
}

/// The hardfork a header selects, by its timestamp, accumulated
/// difficulty, and number thresholds.
pub open spec fn block_spec_of(chain: ChainKind, header: Header) -> Option<SpecId> {
    if chain is Optimism {
        if header.timestamp >= 1710374401 {
            Some(SpecId::ECOTONE)
        } else if header.timestamp >= 1704992401 {
            Some(SpecId::CANYON)
        } else if header.timestamp >= 105235063 {
            Some(SpecId::BEDROCK)
        } else {
            Some(SpecId::REGOLITH)
        }
    } else if header.timestamp >= 1710338135 {
        Some(SpecId::CANCUN)
    } else if header.timestamp >= 1681338455 {
        Some(SpecId::SHANGHAI)
    } else if header.total_difficulty is None {
        None
    } else if header.total_difficulty.unwrap().as_nat() - (if header.difficulty.as_nat()
        <= header.total_difficulty.unwrap().as_nat() {
        header.difficulty.as_nat() as int
    } else {
        header.total_difficulty.unwrap().as_nat() as int
    }) >= 58_750_000_000_000_000_000_000 {
        Some(SpecId::MERGE)
    } else if header.number is None {
        None
    } else if header.number.unwrap() >= 12965000 {
        Some(SpecId::LONDON)
    } else if header.number.unwrap() >= 12244000 {
        Some(SpecId::BERLIN)
    } else if header.number.unwrap() >= 9069000 {
        Some(SpecId::ISTANBUL)
    } else if header.number.unwrap() >= 7280000 {
        Some(SpecId::PETERSBURG)
    } else if header.number.unwrap() >= 4370000 {
        Some(SpecId::BYZANTIUM)
    } else if header.number.unwrap() >= 2675000 {
        Some(SpecId::SPURIOUS_DRAGON)
    } else if header.number.unwrap() >= 2463000 {
        Some(SpecId::TANGERINE)
    } else if header.number.unwrap() >= 1150000 {
        Some(SpecId::HOMESTEAD)
    } else {
        Some(SpecId::FRONTIER)
    }
}

/// Selects the hardfork of a block from its header: by timestamp for the
/// recent forks, by accumulated difficulty for the merge, and by block
/// number before that. `None` when the header lacks the deciding field.
pub fn get_block_spec(chain: ChainKind, header: &Header) -> (r: Option<SpecId>)
    ensures
        r == block_spec_of(chain, *header),
{
    if matches!(chain, ChainKind::Optimism) {
        return Some(
            if header.timestamp >= 1710374401 {
                SpecId::ECOTONE
            } else if header.timestamp >= 1704992401 {
                SpecId::CANYON
            } else if header.timestamp >= 105235063 {
                SpecId::BEDROCK
            } else {
                SpecId::REGOLITH
            },
        );
    }
    if header.timestamp >= 1710338135 {
        return Some(SpecId::CANCUN);
    }
    if header.timestamp >= 1681338455 {
        return Some(SpecId::SHANGHAI);
    }
    let td = match &header.total_difficulty {
        Some(td) => *td,
        None => {
            return None;
        },
    };
    let merge_threshold = U256 { hi: 0, lo: 58_750_000_000_000_000_000_000 };
    if merge_threshold.le(td.saturating_sub(header.difficulty)) {
        return Some(SpecId::MERGE);
    }
    let number = match &header.number {
        Some(n) => *n,
        None => {
            return None;
        },
    };
    Some(
        if number >= 12965000 {
            SpecId::LONDON
        } else if number >= 12244000 {
            SpecId::BERLIN
        } else if number >= 9069000 {
            SpecId::ISTANBUL
        } else if number >= 7280000 {
            SpecId::PETERSBURG
        } else if number >= 4370000 {
            SpecId::BYZANTIUM
        } else if number >= 2675000 {
            SpecId::SPURIOUS_DRAGON
        } else if number >= 2463000 {
            SpecId::TANGERINE
        } else if number >= 1150000 {
            SpecId::HOMESTEAD
        } else {
            SpecId::FRONTIER
        },
    )
}

/// The block-level environment handed to the evaluator.
#[derive(Clone, Debug)]
pub struct BlockEnv {
    pub number: u64,
    pub coinbase: Address,
    pub timestamp: u64,
    pub gas_limit: u128,
    pub basefee: u128,
    pub difficulty: U256,
    pub prevrandao: Option<U256>,
    pub excess_blob_gas: Option<u64>,
}

/// Builds the evaluator's block environment; `None` without a number.
pub fn get_block_env(header: &Header) -> (r: Option<BlockEnv>)
    ensures
        header.number is None ==> r is None,
        header.number matches Some(n) ==> r matches Some(b) && b.number == n && b.coinbase
            == header.miner && b.timestamp == header.timestamp && b.gas_limit == header.gas_limit
            && b.basefee == (match header.base_fee_per_gas {
            Some(f) => f,
            None => 0,
        }) && b.difficulty == header.difficulty && b.prevrandao == header.mix_hash
            && b.excess_blob_gas == (match header.excess_blob_gas {
            Some(g) => Some((g % 0x1_0000_0000_0000_0000) as u64),
            None => None,
        }),
{
    let number = match &header.number {
        Some(n) => *n,
        None => {
            return None;
        },
    };
    Some(
        BlockEnv {
            number,
            coinbase: header.miner,
            timestamp: header.timestamp,
            gas_limit: header.gas_limit,
            basefee: match &header.base_fee_per_gas {
                Some(f) => *f,
                None => 0,
            },
            difficulty: header.difficulty,
            prevrandao: header.mix_hash,
            excess_blob_gas: match &header.excess_blob_gas {
                Some(g) => Some((*g % 0x1_0000_0000_0000_0000) as u64),
                None => None,
            },
        },
    )
}

/// Errors raised while a raw transaction is translated.
#[derive(Clone, Debug, PartialEq, Eq)]
pub enum TransactionParsingError {
    OverflowedGasLimit,
    MissingGasPrice,
    MissingMaxFeePerGas,
    InvalidType(u8),
    ConversionError(String),
}

/// The extra fields an Optimism transaction carries.
#[derive(Clone, Debug, PartialEq, Eq)]
pub struct OptimismFields {
    pub source_hash: Option<U256>,
    pub mint: Option<u128>,
    pub is_system_transaction: Option<bool>,
    pub enveloped_tx: Option<Vec<u8>>,
}

/// One transaction as the chain's RPC reports it, reduced to the fields
/// the engine reads. `envelope` holds the transaction's signed wire
/// encoding, already produced by the RPC layer for non-deposit types.
#[derive(Clone, Debug)]
pub struct Transaction {
    pub from: Address,
    pub gas: u128,
    pub gas_price: Option<u128>,
    pub max_fee_per_gas: Option<u128>,
    pub max_priority_fee_per_gas: Option<u128>,
    pub transaction_type: Option<u8>,
    pub to: Option<Address>,
    pub value: U256,
    pub input: Vec<u8>,
    pub nonce: u64,
    pub chain_id: Option<u64>,
    pub access_list: Option<Vec<(Address, Vec<U256>)>>,
    pub blob_versioned_hashes: Option<Vec<U256>>,
    pub max_fee_per_blob_gas: Option<u128>,
    pub source_hash: Option<U256>,
    pub mint: Option<u128>,
    pub is_system_tx: Option<bool>,
    pub envelope: Option<Vec<u8>>,
}

/// The per-transaction environment handed to the evaluator.
#[derive(Clone, Debug, PartialEq, Eq)]
pub struct TxEnv {
    pub caller: Address,
    pub gas_limit: u64,
    pub gas_price: U256,
    pub gas_priority_fee: Option<U256>,
    pub transact_to: Option<Address>,
    pub value: U256,
    pub data: Vec<u8>,
    pub nonce: Option<u64>,
    pub chain_id: Option<u64>,
    pub access_list: Vec<(Address, Vec<U256>)>,
    pub blob_hashes: Vec<U256>,
    pub max_fee_per_blob_gas: Option<U256>,
    pub optimism: OptimismFields,
}

impl TxEnv {
    /// Prices that come from 128-bit wire fields keep an empty high limb.
    pub open spec fn wf(self) -> bool {
        self.gas_price.hi == 0 && (self.gas_priority_fee matches Some(p) ==> p.hi == 0)
    }
}

/// The gas price a transaction bids, decided by its type: legacy and
/// access-list types must carry a gas price, fee-market and blob types a
/// max fee, and deposits bid nothing.
pub open spec fn gas_price_of(tx: Transaction) -> Result<nat, TransactionParsingError> {
    let t: u8 = match tx.transaction_type {
        Some(t) => t,
        None => 0,
    };
    if t == 0 || t == 1 {
        match tx.gas_price {
            Some(p) => Ok(p as nat),
            None => Err(TransactionParsingError::MissingGasPrice),
        }
    } else if t == 2 || t == 3 {
        match tx.max_fee_per_gas {
            Some(p) => Ok(p as nat),
            None => Err(TransactionParsingError::MissingMaxFeePerGas),
        }
    } else if t == 126 {
        Ok(0)
    } else {
        Err(TransactionParsingError::InvalidType(t))
    }
}

/// Translates an RPC transaction into the evaluator's environment.
///
/// The gas limit must fit the evaluator's 64-bit field; the gas price
/// follows `gas_price_of`; a deposit transaction's envelope is built from
/// its fields, any other type's envelope must already be present.
pub fn get_tx_env(tx: Transaction) -> (r: Result<TxEnv, TransactionParsingError>)
    requires
        tx.transaction_type is Some,
    ensures
        // each error comes exactly where its check falls, in order:
        // gas width, gas price, then the missing signed envelope
        tx.gas > u64::MAX ==> r == Err::<TxEnv, TransactionParsingError>(
            TransactionParsingError::OverflowedGasLimit,
        ),
        tx.gas <= u64::MAX ==> match gas_price_of(tx) {
            Err(e) => r == Err::<TxEnv, TransactionParsingError>(e),
            Ok(p) => (if tx.transaction_type != Some(126u8) && tx.envelope is None {
                r matches Err(e) && e is ConversionError
            } else {
                r is Ok
            }) && match r {
                Ok(env) => env.wf() && env.caller == tx.from && env.gas_limit == tx.gas
                    && env.gas_price.as_nat() == p && env.gas_priority_fee == (match tx
                    .max_priority_fee_per_gas {
                    Some(f) => Some(U256 { hi: 0, lo: f }),
                    None => None,
                }) && env.transact_to == tx.to && env.value == tx.value && env.data@ == tx.input@
                    && env.nonce == Some(tx.nonce) && env.chain_id == tx.chain_id
                    && env.access_list@ == (match tx.access_list {
                    Some(al) => al@,
                    None => Seq::<(Address, Vec<U256>)>::empty(),
                }) && env.blob_hashes@ == (match tx.blob_versioned_hashes {
                    Some(bh) => bh@,
                    None => Seq::<U256>::empty(),
                }) && env.max_fee_per_blob_gas == (match tx.max_fee_per_blob_gas {
                    Some(f) => Some(U256 { hi: 0, lo: f }),
                    None => None::<U256>,
                }) && env.optimism.source_hash == tx.source_hash && env.optimism.mint == tx.mint
                    && env.optimism.is_system_transaction == tx.is_system_tx && (match env
                    .optimism.enveloped_tx {
                    Some(e) => if tx.transaction_type == Some(126u8) {
                        e@ == crate::rlp::deposit_envelope(tx)
                    } else {
                        tx.envelope matches Some(src) && e@ == src@
                    },
                    None => false,
                }),
                Err(e) => e is ConversionError && tx.transaction_type != Some(126u8)
                    && tx.envelope is None,
            },
        },
{
    let tx_type = match &tx.transaction_type {
        Some(t) => *t,
        None => 0,
    };
    if tx.gas > 0xFFFF_FFFF_FFFF_FFFF {
        return Err(TransactionParsingError::OverflowedGasLimit);
    }
    let gas_limit = tx.gas as u64;
    let gas_price = if tx_type == 0 || tx_type == 1 {
        match &tx.gas_price {
            Some(p) => U256 { hi: 0, lo: *p },
            None => {
                return Err(TransactionParsingError::MissingGasPrice);
            },
        }
    } else if tx_type == 2 || tx_type == 3 {
        match &tx.max_fee_per_gas {
            Some(p) => U256 { hi: 0, lo: *p },
            None => {
                return Err(TransactionParsingError::MissingMaxFeePerGas);
            },
        }
    } else if tx_type == 126 {
        U256 { hi: 0, lo: 0 }
    } else {
        return Err(TransactionParsingError::InvalidType(tx_type));
    };
    let enveloped_tx = if tx_type == 126 {
        Some(crate::rlp::encode_deposit_envelope(&tx))
    } else {
        match tx.envelope {
            Some(e) => Some(e),
            None => {
                return Err(
                    TransactionParsingError::ConversionError(
                        "missing signed transaction envelope".to_string(),
                    ),
                );
            },
        }
    };
    Ok(
        TxEnv {
            caller: tx.from,
            gas_limit,
            gas_price,
            gas_priority_fee: match &tx.max_priority_fee_per_gas {
                Some(f) => Some(U256 { hi: 0, lo: *f }),
                None => None,
            },
            transact_to: tx.to,
            value: tx.value,
            data: tx.input,
            nonce: Some(tx.nonce),
            chain_id: tx.chain_id,
            access_list: match tx.access_list {
                Some(al) => al,
                None => Vec::new(),
            },
            blob_hashes: match tx.blob_versioned_hashes {
                Some(bh) => bh,
                None => Vec::new(),
            },
            max_fee_per_blob_gas: match &tx.max_fee_per_blob_gas {
                Some(f) => Some(U256 { hi: 0, lo: *f }),
                None => None,
            },
            optimism: OptimismFields {
                source_hash: tx.source_hash,
                mint: tx.mint,
                is_system_transaction: tx.is_system_tx,
                enveloped_tx,
            },
        },
    )
}

} // verus!
