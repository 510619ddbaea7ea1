//! The per-transaction executor: it prepares the read state the evaluator
//! runs against, translates the evaluator's output into a write set with
//! lazy encodings and rewards folded in, commits it to the multi-version
//! log, and classifies every failure into a recovery action.

use vstd::prelude::*;
use crate::db::{LazyStrategy, VmDb};
use crate::mv_memory::{MvMemory, WriteSet};
use crate::primitives::{BlockEnv, SpecId, TxEnv};
use crate::storage::Storage;
use crate::types::{
    AccountBasic, Address, MemoryLocation, MemoryValue, ReadError, TxIdx, TxVersion,
};
use crate::uint::{pow128, pow256, u256_of_nat, U256};

verus! {

/// How balances are credited for fees after a transaction.
#[derive(Clone, Copy, Debug, PartialEq, Eq, Structural)]
pub enum RewardPolicy {
    Ethereum,
    Optimism {
        l1_fee_recipient_location: MemoryLocation,
        base_fee_vault_location: MemoryLocation,
    },
}

/// A transaction-level failure the evaluator reports.
#[derive(Clone, Debug, PartialEq, Eq)]
pub enum TxError {
    LackOfFundForMaxFee,
    NonceTooHigh,
    Other(String),
}

/// The execution error from the underlying evaluator.
#[derive(Clone, Debug, PartialEq, Eq)]
pub enum ExecutionError {
    /// A read raised by the intercepting database.
    Database(ReadError),
    /// The transaction itself was rejected.
    Transaction(TxError),
    /// Any other evaluator failure.
    Custom(String),
}

/// A changed storage slot: its value before and after the transaction.
#[derive(Clone, Copy, Debug, PartialEq, Eq, Structural)]
pub struct SlotChange {
    pub original: U256,
    pub present: U256,
}

/// One account's state as the evaluator leaves it.
#[derive(Clone, Debug, PartialEq, Eq)]
pub struct EvmAccountL {
    pub balance: U256,
    pub nonce: u64,
    /// `None` is the hash of empty code.
    pub code_hash: Option<U256>,
    pub code: Option<Vec<u8>>,
    pub selfdestructed: bool,
    pub touched: bool,
    pub storage_changes: Vec<(U256, SlotChange)>,
}

impl EvmAccountL {
    /// Empty as the state-clearing rule reads it: no code, no balance, no
    /// nonce.
    pub open spec fn is_empty(self) -> bool {
        self.code_hash is None && self.balance.as_nat() == 0 && self.nonce == 0
    }

    fn is_empty_exec(&self) -> (r: bool)
        ensures
            r == self.is_empty(),
    {
        matches!(self.code_hash, None) && self.balance.is_zero() && self.nonce == 0
    }
}

/// One log record emitted by the evaluator.
#[derive(Clone, Debug, PartialEq, Eq)]
pub struct LogL {
    pub address: Address,
    pub topics: Vec<U256>,
    pub data: Vec<u8>,
}

/// The evaluator's result: status, gas, logs and the touched state.
#[derive(Clone, Debug)]
pub struct EvmOutput {
    pub success: bool,
    pub gas_used: u64,
    pub logs: Vec<LogL>,
    pub state: Vec<(Address, EvmAccountL)>,
}

/// Receipt of one executed transaction.
#[derive(Clone, Debug, PartialEq, Eq)]
pub struct Receipt {
    pub status: bool,
    pub cumulative_gas_used: u128,
    pub logs: Vec<LogL>,
}

/// Execution result of a transaction: its receipt and the state it
/// changes; `None` marks an account for removal.
#[derive(Clone, Debug, PartialEq, Eq)]
pub struct PevmTxExecutionResult {
    pub receipt: Receipt,
    pub state: Vec<(Address, Option<EvmAccountL>)>,
}

/// The state transitions an output stands for: untouched accounts drop
/// out; destroyed accounts, and accounts empty after the state-clearing
/// fork, are marked for removal; the rest keep their new state.
pub open spec fn transitions_of(spec_id: SpecId, state: Seq<(Address, EvmAccountL)>) -> Seq<
    (Address, Option<EvmAccountL>),
>
    decreases state.len(),
{
    if state.len() == 0 {
        Seq::empty()
    } else {
        let (a, acct) = state[0];
        let rest = transitions_of(spec_id, state.skip(1));
        if !acct.touched {
            rest
        } else if acct.selfdestructed || (acct.is_empty() && spec_id.rank()
            >= SpecId::SPURIOUS_DRAGON.rank()) {
            seq![(a, Option::<EvmAccountL>::None)] + rest
        } else {
            seq![(a, Some(acct))] + rest
        }
    }
}

impl PevmTxExecutionResult {
    /// Builds an execution result from the evaluator's raw output. The
    /// receipt's cumulative gas is preset to this transaction's own gas
    /// and is finalized later with its predecessors' sum.
    pub fn from_revm(spec_id: SpecId, output: EvmOutput) -> (r: PevmTxExecutionResult)
        ensures
            r.receipt.status == output.success,
            r.receipt.cumulative_gas_used == output.gas_used as u128,
            r.receipt.logs@ == output.logs@,
            r.state@ == transitions_of(spec_id, output.state@),
    {
        let EvmOutput { success, gas_used, logs, state: mut rest } = output;
        let ghost orig = rest@;
        let mut state: Vec<(Address, Option<EvmAccountL>)> = Vec::new();
        while rest.len() > 0
            invariant
                transitions_of(spec_id, orig) == state@ + transitions_of(spec_id, rest@),
            decreases rest@.len(),
        {
            let ghost pre = rest@;
            let (a, acct) = rest.remove(0);
            proof {
                assert(pre.remove(0) =~= pre.skip(1));
                assert(pre[0] == (a, acct));
            }
            if acct.touched {
                if acct.selfdestructed || (acct.is_empty_exec() && spec_id.is_enabled_in(
                    SpecId::SPURIOUS_DRAGON,
                )) {
                    state.push((a, None));
                } else {
                    state.push((a, Some(acct)));
                }
            }
            proof {
                assert(transitions_of(spec_id, orig) =~= state@ + transitions_of(
                    spec_id,
                    rest@,
                ));
            }
        }
        proof {
            assert(rest@ =~= Seq::<(Address, EvmAccountL)>::empty());
            assert(state@ + transitions_of(spec_id, rest@) =~= state@);
        }
        PevmTxExecutionResult {
            receipt: Receipt {
                status: success,
                cumulative_gas_used: gas_used as u128,
                logs,
            },
            state,
        }
    }
}

/// What one execution attempt came to.
#[derive(Debug)]
pub enum VmExecutionResult {
    /// An inconsistent repeated read: run the same incarnation again.
    Retry,
    /// The whole block falls back to sequential execution.
    FallbackToSequential,
    /// Blocked on a lower transaction that must finish first.
    ReadError { blocking_tx_idx: TxIdx },
    /// An evaluator error that survived the retry conversions.
    ExecutionError(ExecutionError),
    /// Success: the result, whether a fresh location was written, and the
    /// index validation must restart from.
    Success {
        execution_result: PevmTxExecutionResult,
        wrote_new_location: bool,
        next_validation_idx: TxIdx,
    },
}

/// The recovery action each evaluator error maps to: inconsistent reads
/// retry in place, destroyed code and storage failures serialize the whole
/// block, blocked reads wait for their dependency, and fund or nonce
/// rejections of a later transaction optimistically wait on their
/// predecessor.
pub open spec fn classify_error_spec(tx_idx: TxIdx, e: ExecutionError) -> VmExecutionResult {
    match e {
        ExecutionError::Database(ReadError::InconsistentRead) => VmExecutionResult::Retry,
        ExecutionError::Database(ReadError::SelfDestructedAccount)
            => VmExecutionResult::FallbackToSequential,
        ExecutionError::Database(ReadError::StorageError(m))
            => VmExecutionResult::FallbackToSequential,
        ExecutionError::Database(ReadError::BlockingIndex(i)) => VmExecutionResult::ReadError {
            blocking_tx_idx: i,
        },
        ExecutionError::Transaction(TxError::LackOfFundForMaxFee) => if tx_idx > 0 {
            VmExecutionResult::ReadError { blocking_tx_idx: (tx_idx - 1) as TxIdx }
        } else {
            VmExecutionResult::ExecutionError(e)
        },
        ExecutionError::Transaction(TxError::NonceTooHigh) => if tx_idx > 0 {
            VmExecutionResult::ReadError { blocking_tx_idx: (tx_idx - 1) as TxIdx }
        } else {
            VmExecutionResult::ExecutionError(e)
        },
        _ => VmExecutionResult::ExecutionError(e),
    }
}

/// Classifies an evaluator error into its recovery action.
pub fn classify_error(tx_idx: TxIdx, e: ExecutionError) -> (r: VmExecutionResult)
    ensures
        r == classify_error_spec(tx_idx, e),
{
    match e {
        ExecutionError::Database(ReadError::InconsistentRead) => VmExecutionResult::Retry,
        ExecutionError::Database(ReadError::SelfDestructedAccount)
            => VmExecutionResult::FallbackToSequential,
        ExecutionError::Database(ReadError::StorageError(m))
            => VmExecutionResult::FallbackToSequential,
        ExecutionError::Database(ReadError::BlockingIndex(i)) => VmExecutionResult::ReadError {
            blocking_tx_idx: i,
        },
        ExecutionError::Transaction(TxError::LackOfFundForMaxFee) => {
            if tx_idx > 0 {
                VmExecutionResult::ReadError { blocking_tx_idx: tx_idx - 1 }
            } else {
                VmExecutionResult::ExecutionError(
                    ExecutionError::Transaction(TxError::LackOfFundForMaxFee),
                )
            }
        },
        ExecutionError::Transaction(TxError::NonceTooHigh) => {
            if tx_idx > 0 {
                VmExecutionResult::ReadError { blocking_tx_idx: tx_idx - 1 }
            } else {
                VmExecutionResult::ExecutionError(
                    ExecutionError::Transaction(TxError::NonceTooHigh),
                )
            }
        },
        other => VmExecutionResult::ExecutionError(other),
    }
}

/// The account a location belongs to.
pub open spec fn loc_addr(loc: MemoryLocation) -> Address {
    match loc {
        MemoryLocation::Basic(a) => a,
        MemoryLocation::CodeHash(a) => a,
        MemoryLocation::Storage(a, s) => a,
    }
}

/// First match in a read-account list.
pub open spec fn assoc_read_acct(
    s: Seq<(MemoryLocation, (AccountBasic, Option<U256>))>,
    loc: MemoryLocation,
) -> Option<(AccountBasic, Option<U256>)>
    decreases s.len(),
{
    if s.len() == 0 {
        None
    } else if s[0].0 == loc {
        Some(s[0].1)
    } else {
        assoc_read_acct(s.skip(1), loc)
    }
}

/// The write entries of one account's changed storage slots: concrete
/// values, except that under the token fast path the two balance slots
/// are re-expressed as pending deltas.
pub open spec fn storage_writes(
    strategy: LazyStrategy,
    a: Address,
    slots: Seq<(U256, SlotChange)>,
) -> Seq<(MemoryLocation, MemoryValue)>
    decreases slots.len(),
{
    if slots.len() == 0 {
        Seq::empty()
    } else {
        let (slot, ch) = slots[0];
        let e = match strategy {
            LazyStrategy::ERC20Transfer { sender_balance_slot, recipient_balance_slot, amount } =>
                if slot == sender_balance_slot {
                (
                    MemoryLocation::Storage(a, slot),
                    MemoryValue::ERC20TransferSender(
                        u256_of_nat((ch.original.as_nat() - ch.present.as_nat()) as nat),
                    ),
                )
            } else if slot == recipient_balance_slot {
                (
                    MemoryLocation::Storage(a, slot),
                    MemoryValue::ERC20TransferRecipient(
                        u256_of_nat((ch.present.as_nat() - ch.original.as_nat()) as nat),
                    ),
                )
            } else {
                (MemoryLocation::Storage(a, slot), MemoryValue::Storage(ch.present))
            },
            _ => (MemoryLocation::Storage(a, slot), MemoryValue::Storage(ch.present)),
        };
        seq![e] + storage_writes(strategy, a, slots.skip(1))
    }
}

/// The write entries of one account: a tombstoned code slot for a
/// destroyed account; otherwise, if touched and changed, its new basic (or
/// its lazy delta under the raw-transfer fast path), its new code hash,
/// and its changed slots.
pub open spec fn account_writes(
    strategy: LazyStrategy,
    from: Address,
    to: Option<Address>,
    tx_value: U256,
    ras: Seq<(MemoryLocation, (AccountBasic, Option<U256>))>,
    a: Address,
    acct: EvmAccountL,
) -> Seq<(MemoryLocation, MemoryValue)> {
    if acct.selfdestructed {
        seq![(MemoryLocation::CodeHash(a), MemoryValue::SelfDestructed)]
    } else {
        let ra = assoc_read_acct(ras, MemoryLocation::Basic(a));
        let has_code = acct.code_hash is Some;
        let is_new_code = has_code && (match ra {
            Some(p) => p.1 is None,
            None => true,
        });
        let changed = is_new_code || (match ra {
            None => true,
            Some(p) => p.0.nonce != acct.nonce || p.0.balance != acct.balance,
        });
        let basic_part: Seq<(MemoryLocation, MemoryValue)> = if acct.touched && changed {
            match strategy {
                LazyStrategy::RawTransfer => if a == from {
                    seq![
                        (
                            MemoryLocation::Basic(a),
                            MemoryValue::LazySender(
                                u256_of_nat((pow256() - 1 - acct.balance.as_nat()) as nat),
                            ),
                        ),
                    ]
                } else if to == Some(a) {
                    seq![(MemoryLocation::Basic(a), MemoryValue::LazyRecipient(tx_value))]
                } else {
                    Seq::empty()
                },
                _ => seq![
                    (
                        MemoryLocation::Basic(a),
                        MemoryValue::Basic(
                            AccountBasic { balance: acct.balance, nonce: acct.nonce },
                        ),
                    ),
                ],
            }
        } else {
            Seq::empty()
        };
        let code_part: Seq<(MemoryLocation, MemoryValue)> = if acct.touched && is_new_code {
            seq![
                (
                    MemoryLocation::CodeHash(a),
                    MemoryValue::CodeHash(acct.code_hash.unwrap()),
                ),
            ]
        } else {
            Seq::empty()
        };
        basic_part + code_part + storage_writes(strategy, a, acct.storage_changes@)
    }
}

/// The whole write set of an execution, account by account.
pub open spec fn ws_of(
    strategy: LazyStrategy,
    from: Address,
    to: Option<Address>,
    tx_value: U256,
    ras: Seq<(MemoryLocation, (AccountBasic, Option<U256>))>,
    state: Seq<(Address, EvmAccountL)>,
) -> Seq<(MemoryLocation, MemoryValue)>
    decreases state.len(),
{
    if state.len() == 0 {
        Seq::empty()
    } else {
        account_writes(strategy, from, to, tx_value, ras, state[0].0, state[0].1) + ws_of(
            strategy,
            from,
            to,
            tx_value,
            ras,
            state.skip(1),
        )
    }
}

/// What an evaluator output must look like for the write-set translation:
/// addresses unique, changed slots unique per account, deployed code
/// present, no slot changes under the raw-transfer fast path, and the two
/// token balance slots moving the way a transfer moves them.
pub open spec fn output_wf(strategy: LazyStrategy, state: Seq<(Address, EvmAccountL)>) -> bool {
    (forall|i: int, j: int| 0 <= i < j < state.len() ==> (#[trigger] state[i]).0 != (#[trigger] state[j]).0)
        && (forall|i: int, a: int, b: int|
        0 <= i < state.len() && 0 <= a < b < state[i].1.storage_changes@.len()
            ==> (#[trigger] state[i].1.storage_changes@[a]).0 != (#[trigger] state[i].1.storage_changes@[b]).0)
        && (forall|i: int|
        0 <= i < state.len() && (#[trigger] state[i]).1.code_hash is Some ==> state[i].1.code
            is Some) && (strategy is RawTransfer ==> forall|i: int|
        0 <= i < state.len() ==> (#[trigger] state[i]).1.storage_changes@.len() == 0) && (match strategy {
        LazyStrategy::ERC20Transfer { sender_balance_slot, recipient_balance_slot, amount } =>
            forall|i: int, k: int|
                0 <= i < state.len() && 0 <= k < state[i].1.storage_changes@.len() ==> ((
                #[trigger] state[i].1.storage_changes@[k]).0 == sender_balance_slot
                    ==> state[i].1.storage_changes@[k].1.present.as_nat()
                    <= state[i].1.storage_changes@[k].1.original.as_nat()) && (state[i].1.storage_changes@[k].0
                    == recipient_balance_slot ==> state[i].1.storage_changes@[k].1.original.as_nat()
                    <= state[i].1.storage_changes@[k].1.present.as_nat()),
        _ => true,
    })
}

/// The configuration one block is executed under.
#[derive(Clone, Debug)]
pub struct Vm {
    pub spec_id: SpecId,
    pub block_env: BlockEnv,
    pub txs: Vec<TxEnv>,
    pub chain_id: u64,
    pub reward_policy: RewardPolicy,
    pub beneficiary_location: MemoryLocation,
}

impl Vm {
    /// Sets up the executor for one block.
    pub fn new(
        spec_id: SpecId,
        block_env: BlockEnv,
        txs: Vec<TxEnv>,
        chain_id: u64,
        reward_policy: RewardPolicy,
    ) -> (r: Vm)
        ensures
            r.spec_id == spec_id,
            r.block_env == block_env,
            r.txs@ == txs@,
            r.chain_id == chain_id,
            r.reward_policy == reward_policy,
            r.beneficiary_location == MemoryLocation::Basic(block_env.coinbase),
    {
        let beneficiary_location = MemoryLocation::Basic(block_env.coinbase);
        Vm { spec_id, block_env, txs, chain_id, reward_policy, beneficiary_location }
    }

    /// Builds the read state for one incarnation of `tx_idx`.
    pub fn build_db<S: Storage>(&self, mv: &MvMemory, sto: &S, tx_idx: TxIdx) -> (r: Result<
        VmDb,
        ReadError,
    >)
        requires
            mv.wf(),
            tx_idx < self.txs@.len(),
        ensures
            r matches Ok(db) ==> db.wf() && db.tx_idx == tx_idx && db.from
                == self.txs@[tx_idx as int].caller && db.to == self.txs@[tx_idx as int].transact_to
                && db.nonce == (match self.txs@[tx_idx as int].nonce {
                Some(n) => n,
                None => 1,
            }) && db.read_accounts@.len() == 0 && (!(db.lazy_strategy is Direct) ==> db.to
                is Some) && (match self.txs@[tx_idx as int].transact_to {
                Some(t) => {
                    let loc = crate::types::MemoryLocation::CodeHash(t);
                    let below = mv.log_of(loc).take(
                        crate::mv_memory::lower_bound(mv.log_of(loc), tx_idx),
                    );
                    (match crate::db::code_hash_walk(below) {
                        crate::db::CodeHashWalk::FromMv { h, o } => db.to_code_hash == Some(h),
                        crate::db::CodeHashWalk::Fallback => db.to_code_hash == sto.code_hashes()[t],
                        _ => false,
                    }) && db.lazy_strategy == crate::db::strategy_spec(
                        self.txs@[tx_idx as int].caller,
                        db.to_code_hash,
                        self.txs@[tx_idx as int].data@,
                        crate::mv_memory::assoc_log(
                            mv.data@,
                            crate::types::MemoryLocation::Basic(self.txs@[tx_idx as int].caller),
                        ) is Some,
                        crate::mv_memory::assoc_log(
                            mv.data@,
                            crate::types::MemoryLocation::Basic(t),
                        ) is Some,
                    )
                },
                None => db.to_code_hash is None && db.lazy_strategy is Direct,
            }),
            r matches Err(e) ==> (e is SelfDestructedAccount || e is StorageError || e
                is InconsistentRead || e is BlockingIndex),
    {
        let tx = &self.txs[tx_idx];
        let nonce = match &tx.nonce {
            Some(n) => *n,
            None => 1,
        };
        VmDb::new(mv, sto, tx_idx, nonce, tx.caller, tx.transact_to, &tx.data)
    }
}

impl VmDb {
    /// First match in the remembered read accounts.
    fn find_read_acct(&self, loc: &MemoryLocation) -> (r: Option<&(AccountBasic, Option<U256>)>)
        ensures
            match r {
                Some(p) => assoc_read_acct(self.read_accounts@, *loc) == Some(*p),
                None => assoc_read_acct(self.read_accounts@, *loc) is None,
            },
    {
        let n = self.read_accounts.len();
        let mut i: usize = 0;
        proof {
            assert(self.read_accounts@.skip(0) =~= self.read_accounts@);
        }
        while i < n
            invariant
                i <= n == self.read_accounts@.len(),
                assoc_read_acct(self.read_accounts@, *loc) == assoc_read_acct(
                    self.read_accounts@.skip(i as int),
                    *loc,
                ),
            decreases n - i,
        {
            proof {
                assert(self.read_accounts@.skip(i as int)[0] == self.read_accounts@[i as int]);
                assert(self.read_accounts@.skip(i as int).skip(1) =~= self.read_accounts@.skip(
                    i + 1));
            }
            if self.read_accounts[i].0 == *loc {
                return Some(&self.read_accounts[i].1);
            }
            i = i + 1;
        }
        None
    }
}

impl Vm {
    /// Translates the evaluator's state changes into the write set of this
    /// incarnation, memoising any newly deployed bytecode.
    pub fn build_write_set(
        &self,
        mv: &mut MvMemory,
        db: &VmDb,
        tx: &TxEnv,
        output: &EvmOutput,
    ) -> (ws: WriteSet)
        requires
            old(mv).wf(),
            output_wf(db.lazy_strategy, output.state@),
        ensures
            final(mv).wf(),
            ws@ == ws_of(
                db.lazy_strategy,
                db.from,
                db.to,
                tx.value,
                db.read_accounts@,
                output.state@,
            ),
            crate::mv_memory::write_locs_unique(ws@),
            forall|k: int|
                0 <= k < ws@.len() && (#[trigger] ws@[k]).0 is Basic ==> (ws@[k].1 is Basic
                    || ws@[k].1 is LazySender || ws@[k].1 is LazyRecipient),
            final(mv).data@ == old(mv).data@,
            final(mv).last_written@ == old(mv).last_written@,
            final(mv).read_sets@ == old(mv).read_sets@,
            final(mv).lazy_locations@ == old(mv).lazy_locations@,
            forall|h: U256, c: Seq<u8>|
                crate::mv_memory::assoc_bytecode(old(mv).new_bytecodes@, h) == Some(c)
                    ==> crate::mv_memory::assoc_bytecode(#[trigger] final(mv).new_bytecodes@, h)
                    == Some(c),
    {
        let strategy = db.lazy_strategy;
        let state = &output.state;
        let n = state.len();
        let mut ws: WriteSet = Vec::new();
        let mut i: usize = 0;
        let ghost rs = db.read_accounts@;
        proof {
            assert(output.state@.skip(0) =~= output.state@);
        }
        while i < n
            invariant
                i <= n == output.state@.len(),
                state == &output.state,
                strategy == db.lazy_strategy,
                rs == db.read_accounts@,
                output_wf(db.lazy_strategy, output.state@),
                mv.wf(),
                ws_of(strategy, db.from, db.to, tx.value, rs, output.state@) == ws@ + ws_of(
                    strategy,
                    db.from,
                    db.to,
                    tx.value,
                    rs,
                    output.state@.skip(i as int),
                ),
                crate::mv_memory::write_locs_unique(ws@),
                forall|k: int, j: int|
                    0 <= k < ws@.len() && i <= j < output.state@.len() ==> loc_addr(
                        (#[trigger] ws@[k]).0,
                    ) != (#[trigger] output.state@[j]).0,
                forall|k: int|
                    0 <= k < ws@.len() && (#[trigger] ws@[k]).0 is Basic ==> (ws@[k].1 is Basic
                        || ws@[k].1 is LazySender || ws@[k].1 is LazyRecipient),
                mv.data@ == old(mv).data@,
                mv.last_written@ == old(mv).last_written@,
                mv.read_sets@ == old(mv).read_sets@,
                mv.lazy_locations@ == old(mv).lazy_locations@,
                forall|h: U256, c: Seq<u8>|
                    crate::mv_memory::assoc_bytecode(old(mv).new_bytecodes@, h) == Some(c)
                        ==> crate::mv_memory::assoc_bytecode(#[trigger] mv.new_bytecodes@, h)
                        == Some(c),
            decreases n - i,
        {
            proof {
                assert(output.state@.skip(i as int)[0] == output.state@[i as int]);
                assert(output.state@.skip(i as int).skip(1) =~= output.state@.skip(i + 1));
            }
            let a = state[i].0;
            let acct = &state[i].1;
            let ghost aw_spec = account_writes(strategy, db.from, db.to, tx.value, rs, a, *acct);
            let mut aw: WriteSet = Vec::new();
            if acct.selfdestructed {
                aw.push((MemoryLocation::CodeHash(a), MemoryValue::SelfDestructed));
                proof {
                    assert(aw@ =~= aw_spec);
                }
            } else {
                let ra = db.find_read_acct(&MemoryLocation::Basic(a));
                let has_code = matches!(acct.code_hash, Some(_));
                let is_new_code = has_code && (match ra {
                    Some(p) => matches!(p.1, None),
                    None => true,
                });
                let changed = is_new_code || (match ra {
                    None => true,
                    Some(p) => p.0.nonce != acct.nonce || !(p.0.balance == acct.balance),
                });
                if acct.touched && changed {
                    match &strategy {
                        LazyStrategy::RawTransfer => {
                            if a == db.from {
                                let max = U256 { hi: u128::MAX, lo: u128::MAX };
                                let sub = max.wrapping_sub(acct.balance);
                                proof {
                                    crate::uint::lemma_u256_of_nat(
                                        sub,
                                        (pow256() - 1 - acct.balance.as_nat()) as nat,
                                    );
                                }
                                aw.push((MemoryLocation::Basic(a), MemoryValue::LazySender(sub)));
                            } else {
                                let is_to = match &db.to {
                                    Some(t) => *t == a,
                                    None => false,
                                };
                                if is_to {
                                    aw.push(
                                        (
                                            MemoryLocation::Basic(a),
                                            MemoryValue::LazyRecipient(tx.value),
                                        ),
                                    );
                                }
                            }
                        },
                        _ => {
                            aw.push(
                                (
                                    MemoryLocation::Basic(a),
                                    MemoryValue::Basic(
                                        AccountBasic { balance: acct.balance, nonce: acct.nonce },
                                    ),
                                ),
                            );
                        },
                    }
                }
                if acct.touched && is_new_code {
                    let h = match &acct.code_hash {
                        Some(h) => *h,
                        None => U256 { hi: 0, lo: 0 },
                    };
                    aw.push((MemoryLocation::CodeHash(a), MemoryValue::CodeHash(h)));
                    let code = match &acct.code {
                        Some(c) => crate::bytes::copy_bytes(c),
                        None => Vec::new(),
                    };
                    mv.add_new_bytecode(h, code);
                }
                // the changed slots, re-expressed under the token fast path
                let ghost aw_pre = aw@;
                let slots = &acct.storage_changes;
                let m = slots.len();
                let mut k: usize = 0;
                proof {
                    assert(acct.storage_changes@.skip(0) =~= acct.storage_changes@);
                }
                while k < m
                    invariant
                        k <= m == acct.storage_changes@.len(),
                        slots == &acct.storage_changes,
                        strategy == db.lazy_strategy,
                        output_wf(db.lazy_strategy, output.state@),
                        0 <= i < output.state@.len(),
                        acct == &output.state@[i as int].1,
                        a == output.state@[i as int].0,
                        mv.wf(),
                        aw@.len() == aw_pre.len() + k,
                        aw@ == aw_pre + storage_writes_prefix(
                            strategy,
                            a,
                            acct.storage_changes@,
                            k as int,
                        ),
                        forall|t: int|
                            0 <= t < aw_pre.len() ==> #[trigger] aw@[t] == aw_pre[t],
                        forall|t: int|
                            aw_pre.len() <= t < aw@.len() ==> (#[trigger] aw@[t]).0
                                == MemoryLocation::Storage(
                                a,
                                acct.storage_changes@[t - aw_pre.len()].0,
                            ),
                        mv.data@ == old(mv).data@,
                        mv.last_written@ == old(mv).last_written@,
                        mv.read_sets@ == old(mv).read_sets@,
                        mv.lazy_locations@ == old(mv).lazy_locations@,
                        forall|h: U256, c: Seq<u8>|
                            crate::mv_memory::assoc_bytecode(old(mv).new_bytecodes@, h) == Some(c)
                                ==> crate::mv_memory::assoc_bytecode(
                                #[trigger] mv.new_bytecodes@,
                                h,
                            ) == Some(c),
                    decreases m - k,
                {
                    let (slot, ch) = slots[k];
                    let entry = match &strategy {
                        LazyStrategy::ERC20Transfer {
                            sender_balance_slot,
                            recipient_balance_slot,
                            amount,
                        } => {
                            if slot == *sender_balance_slot {
                                let d = ch.original.wrapping_sub(ch.present);
                                proof {
                                    crate::uint::lemma_u256_of_nat(
                                        d,
                                        (ch.original.as_nat() - ch.present.as_nat()) as nat,
                                    );
                                }
                                (
                                    MemoryLocation::Storage(a, slot),
                                    MemoryValue::ERC20TransferSender(d),
                                )
                            } else if slot == *recipient_balance_slot {
                                let d = ch.present.wrapping_sub(ch.original);
                                proof {
                                    crate::uint::lemma_u256_of_nat(
                                        d,
                                        (ch.present.as_nat() - ch.original.as_nat()) as nat,
                                    );
                                }
                                (
                                    MemoryLocation::Storage(a, slot),
                                    MemoryValue::ERC20TransferRecipient(d),
                                )
                            } else {
                                (MemoryLocation::Storage(a, slot), MemoryValue::Storage(ch.present))
                            }
                        },
                        _ => (MemoryLocation::Storage(a, slot), MemoryValue::Storage(ch.present)),
                    };
                    aw.push(entry);
                    proof {
                        lemma_storage_writes_prefix_step(
                            strategy,
                            a,
                            acct.storage_changes@,
                            k as int,
                        );
                        assert(aw@ =~= aw_pre + storage_writes_prefix(
                            strategy,
                            a,
                            acct.storage_changes@,
                            k + 1,
                        ));
                    }
                    k = k + 1;
                }
                proof {
                    lemma_storage_writes_prefix_full(strategy, a, acct.storage_changes@);
                    assert(aw@ =~= aw_spec);
                }
            }
            // every entry of this account's batch names this address
            proof {
                assert forall|t: int| 0 <= t < aw@.len() implies loc_addr((#[trigger] aw@[t]).0)
                    == a by {}
                assert forall|t1: int, t2: int| 0 <= t1 < t2 < aw@.len() implies (
                #[trigger] aw@[t1]).0 != (#[trigger] aw@[t2]).0 by {
                    lemma_account_writes_unique(
                        strategy,
                        db.from,
                        db.to,
                        tx.value,
                        rs,
                        a,
                        output.state@[i as int].1,
                        t1,
                        t2,
                    );
                }
            }
            let ghost ws_pre = ws@;
            ws.append(&mut aw);
            proof {
                assert(ws_of(strategy, db.from, db.to, tx.value, rs, output.state@) =~= ws@
                    + ws_of(strategy, db.from, db.to, tx.value, rs, output.state@.skip(i + 1)));
                assert forall|k2: int, j: int|
                    0 <= k2 < ws@.len() && i + 1 <= j < output.state@.len() implies loc_addr(
                    (#[trigger] ws@[k2]).0,
                ) != (#[trigger] output.state@[j]).0 by {
                    if k2 < ws_pre.len() {
                        assert(ws@[k2] == ws_pre[k2]);
                    } else {
                        assert(loc_addr(ws@[k2].0) == a);
                        assert(output.state@[i as int].0 != output.state@[j].0);
                    }
                }
                assert forall|t1: int, t2: int| 0 <= t1 < t2 < ws@.len() implies (
                #[trigger] ws@[t1]).0 != (#[trigger] ws@[t2]).0 by {
                    if t1 < ws_pre.len() && t2 >= ws_pre.len() {
                        assert(loc_addr(ws@[t1].0) != output.state@[i as int].0);
                        assert(loc_addr(ws@[t2].0) == a);
                    }
                }
            }
            i = i + 1;
        }
        proof {
            assert(output.state@.skip(n as int) =~= Seq::<(Address, EvmAccountL)>::empty());
            assert(ws@ + ws_of(strategy, db.from, db.to, tx.value, rs, output.state@.skip(n as int))
                =~= ws@);
        }
        ws
    }
}

/// Addition on a word, modulo 2^256.
pub open spec fn u256_mod_add(a: U256, n: nat) -> U256 {
    u256_of_nat((((a.as_nat() + n) as int) % (pow256() as int)) as nat)
}

/// Subtraction on a word, modulo 2^256.
pub open spec fn u256_mod_sub(a: U256, n: nat) -> U256 {
    u256_of_nat((((a.as_nat() - n) as int) % (pow256() as int)) as nat)
}

/// A reward folded into one write entry.
pub open spec fn bump_value(v: MemoryValue, amount: nat) -> MemoryValue {
    match v {
        MemoryValue::Basic(b) => MemoryValue::Basic(
            AccountBasic { balance: u256_mod_add(b.balance, amount), nonce: b.nonce },
        ),
        MemoryValue::LazySender(x) => MemoryValue::LazySender(u256_mod_sub(x, amount)),
        MemoryValue::LazyRecipient(x) => MemoryValue::LazyRecipient(u256_mod_add(x, amount)),
        other => other,
    }
}

/// The first position that writes `loc`, or the length.
pub open spec fn find_loc_idx(ws: Seq<(MemoryLocation, MemoryValue)>, loc: MemoryLocation) -> int
    decreases ws.len(),
{
    if ws.len() == 0 {
        0
    } else if ws[0].0 == loc {
        0
    } else {
        1 + find_loc_idx(ws.skip(1), loc)
    }
}

pub proof fn lemma_find_loc_props(ws: Seq<(MemoryLocation, MemoryValue)>, loc: MemoryLocation)
    ensures
        0 <= find_loc_idx(ws, loc) <= ws.len(),
        forall|j: int| 0 <= j < find_loc_idx(ws, loc) ==> (#[trigger] ws[j]).0 != loc,
        find_loc_idx(ws, loc) < ws.len() ==> ws[find_loc_idx(ws, loc)].0 == loc,
    decreases ws.len(),
{
    if ws.len() > 0 && ws[0].0 != loc {
        lemma_find_loc_props(ws.skip(1), loc);
        assert forall|j: int| 0 <= j < find_loc_idx(ws, loc) implies (#[trigger] ws[j]).0
            != loc by {
            if j > 0 {
                assert(ws.skip(1)[j - 1] == ws[j]);
            }
        }
        if find_loc_idx(ws, loc) < ws.len() {
            assert(ws.skip(1)[find_loc_idx(ws, loc) - 1] == ws[find_loc_idx(ws, loc)]);
        }
    }
}

/// A write set with the reward folded in: the first entry at the
/// beneficiary's location is bumped, or a pending lazy addition appended.
pub open spec fn reward_applied(
    ws: Seq<(MemoryLocation, MemoryValue)>,
    loc: MemoryLocation,
    amount: nat,
) -> Seq<(MemoryLocation, MemoryValue)> {
    let k = find_loc_idx(ws, loc);
    if k < ws.len() {
        ws.update(k, (loc, bump_value(ws[k].1, amount)))
    } else {
        ws.push((loc, MemoryValue::LazyRecipient(amount_value(amount))))
    }
}

/// The reward amount as a word; rewards stay far below 2^256.
pub open spec fn amount_value(amount: nat) -> U256 {
    u256_of_nat(amount)
}

/// Folding the reward in keeps locations unique.
pub proof fn lemma_reward_applied_unique(
    ws: Seq<(MemoryLocation, MemoryValue)>,
    loc: MemoryLocation,
    amount: nat,
)
    requires
        crate::mv_memory::write_locs_unique(ws),
    ensures
        crate::mv_memory::write_locs_unique(reward_applied(ws, loc, amount)),
{
    lemma_find_loc_props(ws, loc);
    let k = find_loc_idx(ws, loc);
    let t = reward_applied(ws, loc, amount);
    if k < ws.len() {
        assert forall|i: int, j: int| 0 <= i < j < t.len() implies (#[trigger] t[i]).0 != (
        #[trigger] t[j]).0 by {
            assert(t[i].0 == ws[i].0);
            assert(t[j].0 == ws[j].0);
        }
    } else {
        assert forall|i: int, j: int| 0 <= i < j < t.len() implies (#[trigger] t[i]).0 != (
        #[trigger] t[j]).0 by {
            if j == ws.len() {
                assert(ws[i].0 != loc);
            }
        }
    }
}

/// The fee credited to the beneficiary: the effective gas price, less the
/// burnt base fee after its fork, times the gas used.
pub open spec fn reward_amount(spec_id: SpecId, basefee: u128, tx: TxEnv, gas_used: u64) -> nat {
    let gp0: nat = match tx.gas_priority_fee {
        Some(pf) => if tx.gas_price.as_nat() <= pf.as_nat() + basefee {
            tx.gas_price.as_nat()
        } else {
            (pf.as_nat() + basefee) as nat
        },
        None => tx.gas_price.as_nat(),
    };
    let gp: nat = if spec_id.rank() >= SpecId::LONDON.rank() {
        if gp0 >= basefee {
            (gp0 - basefee) as nat
        } else {
            0
        }
    } else {
        gp0
    };
    gp * (gas_used as nat)
}

impl Vm {
    /// The beneficiary location names the block's fee recipient.
    pub open spec fn wf(self) -> bool {
        self.beneficiary_location == MemoryLocation::Basic(self.block_env.coinbase)
    }

    /// Folds the beneficiary's fee reward into the write set, coalescing
    /// with the entry already written at the beneficiary's account if any.
    /// Both reward policies credit the block's beneficiary here; the
    /// distinct fee-vault locations of the second policy only seed the
    /// initial estimates.
    pub fn apply_rewards(&self, write_set: &mut WriteSet, tx: &TxEnv, gas_used: u64)
        requires
            tx.wf(),
            forall|k: int|
                0 <= k < old(write_set)@.len() && (#[trigger] old(write_set)@[k]).0
                    == self.beneficiary_location ==> (old(write_set)@[k].1 is Basic || old(
                    write_set,
                )@[k].1 is LazySender || old(write_set)@[k].1 is LazyRecipient),
        ensures
            final(write_set)@ == reward_applied(
                old(write_set)@,
                self.beneficiary_location,
                reward_amount(self.spec_id, self.block_env.basefee, *tx, gas_used),
            ),
    {
        let ghost amount_spec = reward_amount(self.spec_id, self.block_env.basefee, *tx, gas_used);
        let basefee = U256 { hi: 0, lo: self.block_env.basefee };
        let gp0 = match &tx.gas_priority_fee {
            Some(pf) => pf.wrapping_add(basefee).min_of(tx.gas_price),
            None => tx.gas_price,
        };
        let gp = if self.spec_id.is_enabled_in(SpecId::LONDON) {
            gp0.saturating_sub(basefee)
        } else {
            gp0
        };
        proof {
            assert(gp.hi == 0) by (nonlinear_arith)
                requires
                    gp.as_nat() == gp.hi as nat * pow128() + gp.lo as nat,
                    gp.as_nat() < pow128(),
            ;
        }
        let amount = gp.mul_u64(gas_used);
        proof {
            assert(amount.as_nat() == amount_spec);
        }
        let loc = self.beneficiary_location;
        let n = write_set.len();
        let mut k: usize = 0;
        proof {
            assert(old(write_set)@.skip(0) =~= old(write_set)@);
            lemma_find_loc_props(old(write_set)@, loc);
        }
        while k < n && write_set[k].0 != loc
            invariant
                k <= n == old(write_set)@.len(),
                write_set@ == old(write_set)@,
                find_loc_idx(old(write_set)@, loc) == k + find_loc_idx(
                    old(write_set)@.skip(k as int),
                    loc,
                ),
            decreases n - k,
        {
            proof {
                assert(old(write_set)@.skip(k as int)[0] == old(write_set)@[k as int]);
                assert(old(write_set)@.skip(k as int).skip(1) =~= old(write_set)@.skip(k + 1));
            }
            k = k + 1;
        }
        proof {
            if k < n {
                assert(old(write_set)@.skip(k as int)[0] == old(write_set)@[k as int]);
            }
            assert(k == find_loc_idx(old(write_set)@, loc));
        }
        if k < n {
            let bumped = match &write_set[k].1 {
                MemoryValue::Basic(b) => {
                    let nb = b.balance.wrapping_add(amount);
                    proof {
                        lemma_wrap_is_mod_add(b.balance, amount);
                        crate::uint::lemma_u256_of_nat(
                            nb,
                            (((b.balance.as_nat() + amount.as_nat()) as int) % (
                            pow256() as int)) as nat,
                        );
                    }
                    MemoryValue::Basic(AccountBasic { balance: nb, nonce: b.nonce })
                },
                MemoryValue::LazySender(x) => {
                    let nx = x.wrapping_sub(amount);
                    proof {
                        lemma_wrap_is_mod_sub(*x, amount);
                        crate::uint::lemma_u256_of_nat(
                            nx,
                            ((((x.as_nat() - amount.as_nat()) as int) % (
                            pow256() as int)) as nat),
                        );
                    }
                    MemoryValue::LazySender(nx)
                },
                MemoryValue::LazyRecipient(x) => {
                    let nx = x.wrapping_add(amount);
                    proof {
                        lemma_wrap_is_mod_add(*x, amount);
                        crate::uint::lemma_u256_of_nat(
                            nx,
                            (((x.as_nat() + amount.as_nat()) as int) % (pow256() as int)) as nat,
                        );
                    }
                    MemoryValue::LazyRecipient(nx)
                },
                _ => {
                    proof {
                        assert(false);
                    }
                    MemoryValue::SelfDestructed
                },
            };
            write_set.set(k, (loc, bumped));
        } else {
            proof {
                crate::uint::lemma_u256_of_nat(amount, amount_spec);
            }
            write_set.push((loc, MemoryValue::LazyRecipient(amount)));
        }
    }
}

/// The lazy locations a strategy registers after a successful execution.
pub open spec fn lazy_locs_of(strategy: LazyStrategy, from: Address, to: Option<Address>) -> Seq<
    MemoryLocation,
> {
    match strategy {
        LazyStrategy::Direct => Seq::empty(),
        LazyStrategy::RawTransfer => seq![
            MemoryLocation::Basic(from),
            MemoryLocation::Basic(to.unwrap()),
        ],
        LazyStrategy::ERC20Transfer { sender_balance_slot, recipient_balance_slot, amount } => seq![
            MemoryLocation::Storage(to.unwrap(), sender_balance_slot),
            MemoryLocation::Storage(to.unwrap(), recipient_balance_slot),
        ],
    }
}

impl Vm {
    /// Commits one finished execution attempt, or classifies its failure.
    ///
    /// On success the evaluator's state changes become this incarnation's
    /// write set — with lazy encodings under the transfer fast paths and
    /// the beneficiary's reward folded in — the lazy locations are
    /// registered, and everything is recorded in the multi-version log in
    /// one step. Validation restarts from index zero for lazy
    /// transactions, whose committed entries cover fewer locations than
    /// they truly depend on.
    pub fn finish_execution(
        &self,
        mv: &mut MvMemory,
        db: VmDb,
        tx_version: &TxVersion,
        eval: Result<EvmOutput, ExecutionError>,
    ) -> (r: VmExecutionResult)
        requires
            self.wf(),
            old(mv).wf(),
            tx_version.tx_idx < old(mv).block_size(),
            tx_version.tx_idx < self.txs@.len(),
            db.wf(),
            db.tx_idx == tx_version.tx_idx,
            db.from == self.txs@[tx_version.tx_idx as int].caller,
            db.to == self.txs@[tx_version.tx_idx as int].transact_to,
            self.txs@[tx_version.tx_idx as int].wf(),
            !(db.lazy_strategy is Direct) ==> db.to is Some,
            eval matches Ok(out) ==> output_wf(db.lazy_strategy, out.state@),
        ensures
            final(mv).wf(),
            final(mv).block_size() == old(mv).block_size(),
            eval matches Err(e) ==> r == classify_error_spec(tx_version.tx_idx, e) && *final(mv)
                == *old(mv),
            eval matches Ok(out) ==> ({
                let tx = self.txs@[tx_version.tx_idx as int];
                let ws = reward_applied(
                    ws_of(
                        db.lazy_strategy,
                        db.from,
                        db.to,
                        tx.value,
                        db.read_accounts@,
                        out.state@,
                    ),
                    self.beneficiary_location,
                    reward_amount(self.spec_id, self.block_env.basefee, tx, out.gas_used),
                );
                match r {
                    VmExecutionResult::Success {
                        execution_result,
                        wrote_new_location,
                        next_validation_idx,
                    } => execution_result.receipt.status == out.success
                        && execution_result.receipt.cumulative_gas_used == out.gas_used as u128
                        && execution_result.receipt.logs@ == out.logs@
                        && execution_result.state@ == transitions_of(self.spec_id, out.state@)
                        && next_validation_idx == (if db.lazy_strategy is Direct {
                        tx_version.tx_idx
                    } else {
                        0
                    }) && wrote_new_location == (exists|k: int|
                        0 <= k < ws.len() && !old(mv).last_written@[tx_version.tx_idx as int]@.contains(
                            (#[trigger] ws[k]).0,
                        )) && final(mv).read_sets@[tx_version.tx_idx as int] == db.read_set
                        && final(mv).last_written@[tx_version.tx_idx as int]@.len() == ws.len() && (
                    forall|k: int|
                        0 <= k < ws.len()
                            ==> final(mv).last_written@[tx_version.tx_idx as int]@[k] == (
                        #[trigger] ws[k]).0) && (forall|k: int|
                        0 <= k < ws.len() ==> final(mv).log_of((#[trigger] ws[k]).0)
                            == crate::mv_memory::upsert_spec(
                            old(mv).log_of(ws[k].0),
                            tx_version.tx_idx,
                            crate::types::MemoryEntry::Data(tx_version.tx_incarnation, ws[k].1),
                        )) && (forall|l: MemoryLocation|
                        #[trigger] final(mv).lazy_locations@.contains(l) <==> (old(
                            mv,
                        ).lazy_locations@.contains(l) || lazy_locs_of(
                            db.lazy_strategy,
                            db.from,
                            db.to,
                        ).contains(l))),
                    _ => false,
                }
            }),
    {
        let out = match eval {
            Ok(out) => out,
            Err(e) => {
                return classify_error(tx_version.tx_idx, e);
            },
        };
        let tx = &self.txs[tx_version.tx_idx];
        let mut write_set = self.build_write_set(mv, &db, tx, &out);
        let ghost ws_built = write_set@;
        self.apply_rewards(&mut write_set, tx, out.gas_used);
        proof {
            lemma_reward_applied_unique(
                ws_built,
                self.beneficiary_location,
                reward_amount(
                    self.spec_id,
                    self.block_env.basefee,
                    self.txs@[tx_version.tx_idx as int],
                    out.gas_used,
                ),
            );
        }

        // Register the locations now hosting pending lazy deltas.
        match &db.lazy_strategy {
            LazyStrategy::Direct => {
                proof {
                    let ghost ll = lazy_locs_of(db.lazy_strategy, db.from, db.to);
                    assert forall|l: MemoryLocation| #[trigger]
                        mv.lazy_locations@.contains(l) <==> (mv.lazy_locations@.contains(l)
                        || ll.contains(l)) by {
                        if ll.contains(l) {
                            assert(false);
                        }
                    }
                }
            },
            LazyStrategy::RawTransfer => {
                let t = match &db.to {
                    Some(t) => *t,
                    None => db.from,
                };
                let locs = vec![MemoryLocation::Basic(db.from), MemoryLocation::Basic(t)];
                proof {
                    assert(locs@ =~= lazy_locs_of(db.lazy_strategy, db.from, db.to));
                }
                mv.add_lazy_locations(&locs);
            },
            LazyStrategy::ERC20Transfer { sender_balance_slot, recipient_balance_slot, amount } => {
                let t = match &db.to {
                    Some(t) => *t,
                    None => db.from,
                };
                let locs = vec![
                    MemoryLocation::Storage(t, *sender_balance_slot),
                    MemoryLocation::Storage(t, *recipient_balance_slot),
                ];
                proof {
                    assert(locs@ =~= lazy_locs_of(db.lazy_strategy, db.from, db.to));
                }
                mv.add_lazy_locations(&locs);
            },
        }

        let next_validation_idx = match &db.lazy_strategy {
            LazyStrategy::Direct => tx_version.tx_idx,
            _ => 0,
        };
        let VmDb { read_set, .. } = db;
        let wrote_new_location = mv.record(tx_version, read_set, write_set);
        let execution_result = PevmTxExecutionResult::from_revm(self.spec_id, out);
        VmExecutionResult::Success { execution_result, wrote_new_location, next_validation_idx }
    }
}

/// The wrapping sum is the modular sum.
pub proof fn lemma_wrap_is_mod_add(a: U256, b: U256)
    ensures
        ({
            let s = a.as_nat() + b.as_nat();
            let w: int = if s < pow256() {
                s as int
            } else {
                s - pow256()
            };
            w == ((a.as_nat() + b.as_nat()) as int) % (pow256() as int)
        }),
{
    let s = a.as_nat() + b.as_nat();
    if s < pow256() {
        vstd::arithmetic::div_mod::lemma_small_mod(s, pow256());
    } else {
        vstd::arithmetic::div_mod::lemma_mod_sub_multiples_vanish(s as int, pow256() as int);
        vstd::arithmetic::div_mod::lemma_small_mod((s - pow256()) as nat, pow256());
    }
}

/// The wrapping difference is the modular difference.
pub proof fn lemma_wrap_is_mod_sub(a: U256, b: U256)
    ensures
        ({
            let d: int = a.as_nat() - b.as_nat();
            let w: int = if d >= 0 {
                d
            } else {
                d + pow256()
            };
            w == d % (pow256() as int)
        }),
{
    let d: int = a.as_nat() - b.as_nat();
    if d >= 0 {
        vstd::arithmetic::div_mod::lemma_small_mod(d as nat, pow256());
    } else {
        vstd::arithmetic::div_mod::lemma_mod_add_multiples_vanish(d, pow256() as int);
        vstd::arithmetic::div_mod::lemma_small_mod((d + pow256()) as nat, pow256());
    }
}

/// The first `k` storage write entries of an account.
pub open spec fn storage_writes_prefix(
    strategy: LazyStrategy,
    a: Address,
    slots: Seq<(U256, SlotChange)>,
    k: int,
) -> Seq<(MemoryLocation, MemoryValue)> {
    storage_writes(strategy, a, slots.take(k))
}

/// Taking one more slot appends exactly its entry.
pub proof fn lemma_storage_writes_prefix_step(
    strategy: LazyStrategy,
    a: Address,
    slots: Seq<(U256, SlotChange)>,
    k: int,
)
    requires
        0 <= k < slots.len(),
    ensures
        storage_writes_prefix(strategy, a, slots, k + 1) == storage_writes_prefix(
            strategy,
            a,
            slots,
            k,
        ) + seq![storage_writes(strategy, a, slots.subrange(k, k + 1))[0]],
        storage_writes(strategy, a, slots.subrange(k, k + 1)).len() == 1,
        (storage_writes(strategy, a, slots.subrange(k, k + 1))[0]).0 == MemoryLocation::Storage(
            a,
            slots[k].0,
        ),
    decreases k,
{
    lemma_storage_writes_concat(strategy, a, slots.take(k), slots.subrange(k, k + 1));
    assert(slots.take(k) + slots.subrange(k, k + 1) =~= slots.take(k + 1));
    assert(slots.subrange(k, k + 1).len() == 1);
    let single = slots.subrange(k, k + 1);
    assert(single[0] == slots[k]);
    assert(single.skip(1) =~= Seq::<(U256, SlotChange)>::empty());
    assert(storage_writes(strategy, a, single.skip(1)) =~= Seq::<(MemoryLocation, MemoryValue)>::empty());
    assert(storage_writes(strategy, a, single) =~= seq![storage_writes(strategy, a, single)[0]]);
}

/// Storage writes split over slot concatenation.
pub proof fn lemma_storage_writes_concat(
    strategy: LazyStrategy,
    a: Address,
    s1: Seq<(U256, SlotChange)>,
    s2: Seq<(U256, SlotChange)>,
)
    ensures
        storage_writes(strategy, a, s1 + s2) == storage_writes(strategy, a, s1) + storage_writes(
            strategy,
            a,
            s2,
        ),
    decreases s1.len(),
{
    if s1.len() == 0 {
        assert(s1 + s2 =~= s2);
        assert(storage_writes(strategy, a, s1) + storage_writes(strategy, a, s2)
            =~= storage_writes(strategy, a, s2));
    } else {
        assert((s1 + s2).skip(1) =~= s1.skip(1) + s2);
        assert((s1 + s2)[0] == s1[0]);
        lemma_storage_writes_concat(strategy, a, s1.skip(1), s2);
        assert(storage_writes(strategy, a, s1 + s2) =~= storage_writes(strategy, a, s1)
            + storage_writes(strategy, a, s2));
    }
}

/// The whole prefix is the whole sequence.
pub proof fn lemma_storage_writes_prefix_full(
    strategy: LazyStrategy,
    a: Address,
    slots: Seq<(U256, SlotChange)>,
)
    ensures
        storage_writes_prefix(strategy, a, slots, slots.len() as int) == storage_writes(
            strategy,
            a,
            slots,
        ),
{
    assert(slots.take(slots.len() as int) =~= slots);
}

/// Storage write entries carry their slot, in order.
pub proof fn lemma_storage_writes_locs(
    strategy: LazyStrategy,
    a: Address,
    slots: Seq<(U256, SlotChange)>,
)
    ensures
        storage_writes(strategy, a, slots).len() == slots.len(),
        forall|t: int|
            0 <= t < slots.len() ==> (#[trigger] storage_writes(strategy, a, slots)[t]).0
                == MemoryLocation::Storage(a, slots[t].0),
    decreases slots.len(),
{
    if slots.len() > 0 {
        lemma_storage_writes_locs(strategy, a, slots.skip(1));
        assert forall|t: int|
            0 <= t < slots.len() implies (#[trigger] storage_writes(strategy, a, slots)[t]).0
            == MemoryLocation::Storage(a, slots[t].0) by {
            if t > 0 {
                assert(storage_writes(strategy, a, slots)[t] == storage_writes(
                    strategy,
                    a,
                    slots.skip(1),
                )[t - 1]);
                assert(slots.skip(1)[t - 1] == slots[t]);
            }
        }
    }
}

/// Within one account's writes, locations never repeat.
pub proof fn lemma_account_writes_unique(
    strategy: LazyStrategy,
    from: Address,
    to: Option<Address>,
    tx_value: U256,
    ras: Seq<(MemoryLocation, (AccountBasic, Option<U256>))>,
    a: Address,
    acct: EvmAccountL,
    t1: int,
    t2: int,
)
    requires
        forall|x: int, y: int|
            0 <= x < y < acct.storage_changes@.len() ==> (#[trigger] acct.storage_changes@[x]).0
                != (#[trigger] acct.storage_changes@[y]).0,
        0 <= t1 < t2 < account_writes(strategy, from, to, tx_value, ras, a, acct).len(),
    ensures
        (account_writes(strategy, from, to, tx_value, ras, a, acct)[t1]).0 != (account_writes(
            strategy,
            from,
            to,
            tx_value,
            ras,
            a,
            acct,
        )[t2]).0,
{
    let aw = account_writes(strategy, from, to, tx_value, ras, a, acct);
    if !acct.selfdestructed {
        lemma_storage_writes_locs(strategy, a, acct.storage_changes@);
    }
}

} // verus!
